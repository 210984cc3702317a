use little_man::assembler::{
    assemble, encode_token, encode_tokens, gen_asmtoken_line, gen_asmtoken_vec, gen_label_map,
    parse_mnemonic, resolve_operand, source_lines, strip_comment, AsmError, AsmErrorKind,
    AsmToken, Mnemonic, Ops,
};
use little_man::lmc::decode_word;

fn error(kind: AsmErrorKind, line: usize, text: &str) -> AsmError {
    AsmError { kind, line, text: text.to_string() }
}

fn token<'a>(
    label: Option<&'a str>,
    opcode: Option<&'a str>,
    operand: Option<&'a str>,
    index: usize,
) -> AsmToken<'a> {
    AsmToken { opcode, operand, label, index }
}

#[test]
fn ops_knows_the_ten_operations() {
    let ops = Ops::new();
    for op in ["ADD", "SUB", "STA", "LDA", "BRA", "BRP", "BRZ", "INP", "OUT", "HLT"] {
        assert!(ops.is_valid_op(op), "{}", op);
    }
    for op in ["DAT", "add", "FOO", "", "ADDX", "AD", "5"] {
        assert!(!ops.is_valid_op(op), "{:?}", op);
    }
}

#[test]
fn parse_mnemonic_reads_all_eleven() {
    assert_eq!(parse_mnemonic("ADD"), Some(Mnemonic::Add));
    assert_eq!(parse_mnemonic("SUB"), Some(Mnemonic::Sub));
    assert_eq!(parse_mnemonic("STA"), Some(Mnemonic::Sta));
    assert_eq!(parse_mnemonic("LDA"), Some(Mnemonic::Lda));
    assert_eq!(parse_mnemonic("BRA"), Some(Mnemonic::Bra));
    assert_eq!(parse_mnemonic("BRP"), Some(Mnemonic::Brp));
    assert_eq!(parse_mnemonic("BRZ"), Some(Mnemonic::Brz));
    assert_eq!(parse_mnemonic("INP"), Some(Mnemonic::Inp));
    assert_eq!(parse_mnemonic("OUT"), Some(Mnemonic::Out));
    assert_eq!(parse_mnemonic("HLT"), Some(Mnemonic::Hlt));
    assert_eq!(parse_mnemonic("DAT"), Some(Mnemonic::Dat));
    assert_eq!(parse_mnemonic("hlt"), None);
    assert_eq!(parse_mnemonic(""), None);
}

#[test]
fn opcode_bases() {
    assert_eq!(Mnemonic::Add.base(), 100);
    assert_eq!(Mnemonic::Sub.base(), 200);
    assert_eq!(Mnemonic::Sta.base(), 300);
    assert_eq!(Mnemonic::Lda.base(), 500);
    assert_eq!(Mnemonic::Bra.base(), 600);
    assert_eq!(Mnemonic::Brp.base(), 700);
    assert_eq!(Mnemonic::Brz.base(), 800);
    assert_eq!(Mnemonic::Inp.base(), 900);
    assert_eq!(Mnemonic::Out.base(), 900);
    assert_eq!(Mnemonic::Hlt.base(), 0);
    assert_eq!(Mnemonic::Dat.base(), 0);
}

#[test]
fn encode_then_decode_recovers_class_and_operand() {
    let operations = [
        (Mnemonic::Add, 1u8),
        (Mnemonic::Sub, 2),
        (Mnemonic::Sta, 3),
        (Mnemonic::Lda, 5),
        (Mnemonic::Bra, 6),
        (Mnemonic::Brp, 7),
        (Mnemonic::Brz, 8),
        (Mnemonic::Inp, 9),
        (Mnemonic::Out, 9),
        (Mnemonic::Hlt, 0),
    ];
    for (mnemonic, class) in operations {
        for operand in 0u16..100 {
            let decoded = decode_word(mnemonic.base() + operand);
            assert_eq!(decoded.opcode, class);
            assert_eq!(decoded.operand, operand as usize);
        }
    }
}

#[test]
fn strip_comment_cuts_at_first_marker() {
    assert_eq!(strip_comment("ADD 1 // add one"), "ADD 1 ");
    assert_eq!(strip_comment("// only a comment"), "");
    assert_eq!(strip_comment("ADD 1"), "ADD 1");
    assert_eq!(strip_comment("a / b"), "a / b");
    assert_eq!(strip_comment("a///b//c"), "a");
    assert_eq!(strip_comment("/"), "/");
    assert_eq!(strip_comment(""), "");
    assert_eq!(strip_comment("x/"), "x/");
}

#[test]
fn strip_comment_agrees_with_split() {
    for s in ["", "/", "//", "a//b", "a/ /b", "ab/", "///", "INP // read", "\u{e9}//x"] {
        assert_eq!(strip_comment(s), s.split("//").next().unwrap(), "{:?}", s);
    }
}

#[test]
fn source_lines_agrees_with_std_lines() {
    let samples = [
        "",
        "\n",
        "a",
        "a\n",
        "a\nb",
        "a\n\nb\n",
        "a\r\nb\r\n",
        "a\rb\n",
        "a\r",
        "\r\n",
        "\n\n\n",
        "INP\nSTA 99\nHLT",
        "\u{e9}\n\u{e8}",
    ];
    for s in samples {
        let expected: Vec<&str> = s.lines().collect();
        assert_eq!(source_lines(s), expected, "{:?}", s);
    }
}

#[test]
fn tokenizer_blank_and_comment_lines_give_no_token() {
    let ops = Ops::new();
    assert_eq!(gen_asmtoken_line(&ops, "", 0), Ok(None));
    assert_eq!(gen_asmtoken_line(&ops, "   \t ", 1), Ok(None));
    assert_eq!(gen_asmtoken_line(&ops, "// nothing here", 2), Ok(None));
    assert_eq!(gen_asmtoken_line(&ops, "  // ADD 1", 3), Ok(None));
}

#[test]
fn tokenizer_opcode_first() {
    let ops = Ops::new();
    assert_eq!(
        gen_asmtoken_line(&ops, "HLT", 4),
        Ok(Some(token(None, Some("HLT"), None, 4)))
    );
    assert_eq!(
        gen_asmtoken_line(&ops, "  ADD 12 // add", 5),
        Ok(Some(token(None, Some("ADD"), Some("12"), 5)))
    );
    assert_eq!(
        gen_asmtoken_line(&ops, "BRA LOOP", 0),
        Ok(Some(token(None, Some("BRA"), Some("LOOP"), 0)))
    );
}

#[test]
fn tokenizer_label_first() {
    let ops = Ops::new();
    assert_eq!(
        gen_asmtoken_line(&ops, "LOOP ADD 12", 7),
        Ok(Some(token(Some("LOOP"), Some("ADD"), Some("12"), 7)))
    );
    assert_eq!(
        gen_asmtoken_line(&ops, "END HLT", 8),
        Ok(Some(token(Some("END"), Some("HLT"), None, 8)))
    );
    assert_eq!(
        gen_asmtoken_line(&ops, "ONE DAT 1", 9),
        Ok(Some(token(Some("ONE"), Some("DAT"), Some("1"), 9)))
    );
    assert_eq!(
        gen_asmtoken_line(&ops, "ZERO DAT", 10),
        Ok(Some(token(Some("ZERO"), Some("DAT"), None, 10)))
    );
}

#[test]
fn tokenizer_errors() {
    let ops = Ops::new();
    assert_eq!(
        gen_asmtoken_line(&ops, "A ADD 1 2", 3),
        Err(error(AsmErrorKind::TrailingContent, 3, "A ADD 1 2"))
    );
    assert_eq!(
        gen_asmtoken_line(&ops, "ADD 1 2", 4),
        Err(error(AsmErrorKind::TrailingContent, 4, "ADD 1 2"))
    );
    assert_eq!(
        gen_asmtoken_line(&ops, "LOOP", 5),
        Err(error(AsmErrorKind::MissingInstruction, 5, "LOOP"))
    );
    assert_eq!(
        gen_asmtoken_line(&ops, "FOO 5", 6),
        Err(error(AsmErrorKind::UnknownOperation, 6, "FOO 5"))
    );
    assert_eq!(
        gen_asmtoken_line(&ops, "DAT 5 // a bare DAT reads as a label", 7),
        Err(error(AsmErrorKind::UnknownOperation, 7, "DAT 5 // a bare DAT reads as a label"))
    );
    assert_eq!(
        gen_asmtoken_line(&ops, "DAT", 8),
        Err(error(AsmErrorKind::MissingInstruction, 8, "DAT"))
    );
}

#[test]
fn token_indexes_count_blank_lines() {
    let ops = Ops::new();
    let tokens = gen_asmtoken_vec(&ops, "INP\n\n// note\nTOP OUT\nHLT\n").unwrap();
    assert_eq!(
        tokens,
        vec![
            token(None, Some("INP"), None, 0),
            token(Some("TOP"), Some("OUT"), None, 3),
            token(None, Some("HLT"), None, 4),
        ]
    );
}

#[test]
fn all_tokenizer_errors_are_collected_in_line_order() {
    let ops = Ops::new();
    let errors = gen_asmtoken_vec(&ops, "INP\nFOO 5\nHLT\nLOOP\n").unwrap_err();
    assert_eq!(
        errors,
        vec![
            error(AsmErrorKind::UnknownOperation, 1, "FOO 5"),
            error(AsmErrorKind::MissingInstruction, 3, "LOOP"),
        ]
    );
}

#[test]
fn label_map_keeps_first_definition() {
    let tokens = vec![
        token(Some("A"), Some("HLT"), None, 0),
        token(None, Some("HLT"), None, 1),
        token(Some("B"), Some("HLT"), None, 2),
        token(Some("A"), Some("HLT"), None, 3),
    ];
    let labels = gen_label_map(&tokens);
    assert_eq!(labels.len(), 2);
    assert_eq!(labels.get("A"), Some(&0));
    assert_eq!(labels.get("B"), Some(&2));
    assert_eq!(labels.get("C"), None);
}

#[test]
fn duplicate_label_in_source_is_not_an_error() {
    assert_eq!(assemble("X DAT 1\nX DAT 2\nLDA X\n"), Ok(vec![1, 2, 500]));
}

#[test]
fn resolve_prefers_literal_over_label() {
    let tokens = vec![token(Some("7"), Some("HLT"), None, 3), token(Some("L"), Some("HLT"), None, 4)];
    let labels = gen_label_map(&tokens);
    assert_eq!(resolve_operand("7", &labels), Some(7));
    assert_eq!(resolve_operand("L", &labels), Some(4));
    assert_eq!(resolve_operand("M", &labels), None);
    assert_eq!(resolve_operand("65535", &labels), Some(65535));
    assert_eq!(resolve_operand("65536", &labels), None);
}

#[test]
fn encode_token_every_branch() {
    let labels = gen_label_map(&vec![token(Some("L"), Some("HLT"), None, 42)]);
    assert_eq!(encode_token(&token(None, None, None, 0), &labels), Ok(None));
    assert_eq!(encode_token(&token(None, Some("INP"), None, 0), &labels), Ok(Some(901)));
    assert_eq!(encode_token(&token(None, Some("INP"), Some("55"), 0), &labels), Ok(Some(901)));
    assert_eq!(encode_token(&token(None, Some("OUT"), None, 0), &labels), Ok(Some(902)));
    assert_eq!(encode_token(&token(None, Some("HLT"), Some("9"), 0), &labels), Ok(Some(0)));
    assert_eq!(encode_token(&token(None, Some("ADD"), Some("99"), 0), &labels), Ok(Some(199)));
    assert_eq!(encode_token(&token(None, Some("SUB"), Some("L"), 0), &labels), Ok(Some(242)));
    assert_eq!(encode_token(&token(None, Some("STA"), Some("0"), 0), &labels), Ok(Some(300)));
    assert_eq!(encode_token(&token(None, Some("LDA"), Some("5"), 0), &labels), Ok(Some(505)));
    assert_eq!(encode_token(&token(None, Some("BRA"), Some("6"), 0), &labels), Ok(Some(606)));
    assert_eq!(encode_token(&token(None, Some("BRP"), Some("7"), 0), &labels), Ok(Some(707)));
    assert_eq!(encode_token(&token(None, Some("BRZ"), Some("8"), 0), &labels), Ok(Some(808)));
    assert_eq!(encode_token(&token(Some("D"), Some("DAT"), None, 0), &labels), Ok(Some(0)));
    assert_eq!(encode_token(&token(Some("D"), Some("DAT"), Some("999"), 0), &labels), Ok(Some(999)));
    assert_eq!(encode_token(&token(Some("D"), Some("DAT"), Some("L"), 0), &labels), Ok(Some(42)));
    assert_eq!(
        encode_token(&token(None, Some("FOO"), None, 3), &labels),
        Err(error(AsmErrorKind::UnknownOperation, 3, "FOO"))
    );
    assert_eq!(
        encode_token(&token(None, Some("ADD"), None, 4), &labels),
        Err(error(AsmErrorKind::MissingOperand, 4, "ADD"))
    );
    assert_eq!(
        encode_token(&token(None, Some("ADD"), Some("NOPE"), 5), &labels),
        Err(error(AsmErrorKind::UndefinedLabel, 5, "NOPE"))
    );
    assert_eq!(
        encode_token(&token(None, Some("ADD"), Some("100"), 6), &labels),
        Err(error(AsmErrorKind::OperandOutOfRange, 6, "100"))
    );
    assert_eq!(
        encode_token(&token(Some("D"), Some("DAT"), Some("1000"), 7), &labels),
        Err(error(AsmErrorKind::OperandOutOfRange, 7, "1000"))
    );
}

#[test]
fn encode_tokens_collects_all_errors() {
    let tokens = vec![
        token(None, Some("ADD"), None, 0),
        token(None, Some("HLT"), None, 1),
        token(None, Some("LDA"), Some("X"), 2),
    ];
    let labels = gen_label_map(&tokens);
    assert_eq!(
        encode_tokens(&tokens, &labels),
        Err(vec![
            error(AsmErrorKind::MissingOperand, 0, "ADD"),
            error(AsmErrorKind::UndefinedLabel, 2, "X"),
        ])
    );
}

#[test]
fn forward_label_reference_resolves() {
    assert_eq!(assemble("BRA SKIP\nADD 1\nSKIP HLT"), Ok(vec![602, 101, 0]));
}

#[test]
fn end_to_end_source_assembles() {
    let source = "INP\nSTA 99\nLDA 99\nADD 99\nOUT\nHLT\n";
    assert_eq!(assemble(source), Ok(vec![901, 399, 599, 199, 902, 0]));
}

#[test]
fn unknown_opcode_fails_assembly_and_names_the_line() {
    assert_eq!(
        assemble("FOO 5"),
        Err(vec![error(AsmErrorKind::UnknownOperation, 0, "FOO 5")])
    );
    assert_eq!(
        assemble("INP\nOUT\nFOO 5\nHLT"),
        Err(vec![error(AsmErrorKind::UnknownOperation, 2, "FOO 5")])
    );
}

#[test]
fn tokenizer_errors_come_before_encoding_errors() {
    assert_eq!(
        assemble("ADD\nFOO 5\n"),
        Err(vec![error(AsmErrorKind::UnknownOperation, 1, "FOO 5")])
    );
}

#[test]
fn label_address_is_the_line_index() {
    let source = "// counts down\n\nLOOP LDA N\nSUB ONE\nBRA LOOP\nN DAT 10\nONE DAT 1\n";
    assert_eq!(assemble(source), Ok(vec![505, 206, 602, 10, 1]));
}

#[test]
fn empty_source_assembles_to_nothing() {
    assert_eq!(assemble(""), Ok(vec![]));
    assert_eq!(assemble("// just a comment\n\n"), Ok(vec![]));
}

#[test]
fn carriage_returns_do_not_matter() {
    assert_eq!(assemble("INP\r\nOUT\r\nHLT\r\n"), Ok(vec![901, 902, 0]));
}

#[test]
fn label_beyond_memory_is_out_of_range() {
    let mut source = String::new();
    for _ in 0..100 {
        source.push('\n');
    }
    source.push_str("FAR HLT\nBRA FAR\n");
    assert_eq!(
        assemble(&source),
        Err(vec![error(AsmErrorKind::OperandOutOfRange, 101, "FAR")])
    );
}

#[test]
fn error_messages() {
    assert_eq!(
        AsmErrorKind::TrailingContent.message(),
        "Invalid syntax! Unexpected characters before line end."
    );
    assert_eq!(
        AsmErrorKind::MissingInstruction.message(),
        "Invalid syntax! Expected instructions after label, found none."
    );
    assert_eq!(AsmErrorKind::UnknownOperation.message(), "Invalid syntax! Unknown operation.");
    assert_eq!(AsmErrorKind::MissingOperand.message(), "No operand supplied");
    assert_eq!(AsmErrorKind::UndefinedLabel.message(), "Label not defined.");
    assert_eq!(AsmErrorKind::OperandOutOfRange.message(), "Operand out of range.");
}
