//! The assembler: source text to tokens, tokens to a label map, tokens and
//! label map to machine words.
//!
//! A source line reads `[label] mnemonic [operand] [// comment]`. The label of
//! a line stands for the line's index in the source, counted from 0 and with
//! blank lines included. Of several lines with the same label the first one
//! counts. Assembly yields either all the words or the errors found, never
//! part of a program: if any line fails to tokenize, the errors of all such
//! lines are reported; otherwise, if any token fails to encode, the errors of
//! all such tokens are.
//!
//! Operands are checked when a word is encoded: an address must lie below
//! 100 and a `DAT` value must not pass 999, so every assembled word is a
//! machine word.

use crate::lmc::{decode_opcode, decode_operand, MEMORY_SIZE, WORD_MAX};
use crate::text::{chars_of, fields, literal_value, parse_number, split_fields, str_eq, views_of};
use vstd::hash_map::StringHashMap;
use vstd::prelude::*;
use vstd::string::*;

verus! {

// ---------------------------------------------------------------------------
// Mnemonics
// ---------------------------------------------------------------------------

/// The words of the language: ten operations and `DAT`.
#[derive(Clone, Copy, Debug, PartialEq, Eq)]
pub enum Mnemonic {
    Add,
    Sub,
    Sta,
    Lda,
    Bra,
    Brp,
    Brz,
    Inp,
    Out,
    Hlt,
    Dat,
}

/// The mnemonic that a text spells, in capitals.
pub open spec fn mnemonic_of(s: Seq<char>) -> Option<Mnemonic> {
    if s == "ADD"@ {
        Some(Mnemonic::Add)
    } else if s == "SUB"@ {
        Some(Mnemonic::Sub)
    } else if s == "STA"@ {
        Some(Mnemonic::Sta)
    } else if s == "LDA"@ {
        Some(Mnemonic::Lda)
    } else if s == "BRA"@ {
        Some(Mnemonic::Bra)
    } else if s == "BRP"@ {
        Some(Mnemonic::Brp)
    } else if s == "BRZ"@ {
        Some(Mnemonic::Brz)
    } else if s == "INP"@ {
        Some(Mnemonic::Inp)
    } else if s == "OUT"@ {
        Some(Mnemonic::Out)
    } else if s == "HLT"@ {
        Some(Mnemonic::Hlt)
    } else if s == "DAT"@ {
        Some(Mnemonic::Dat)
    } else {
        None
    }
}

/// Whether a text spells one of the ten operations (`DAT` is none).
pub open spec fn is_operation(s: Seq<char>) -> bool {
    mnemonic_of(s) matches Some(m) && m != Mnemonic::Dat
}

/// The spellings of the ten operations.
pub open spec fn operation_texts() -> Seq<Seq<char>> {
    seq![
        "ADD"@,
        "SUB"@,
        "STA"@,
        "LDA"@,
        "BRA"@,
        "BRP"@,
        "BRZ"@,
        "INP"@,
        "OUT"@,
        "HLT"@,
    ]
}

impl Mnemonic {
    /// The instruction class: the hundreds of the words of this mnemonic.
    /// `DAT` has none; for it this is 0.
    pub open spec fn class_spec(self) -> int {
        match self {
            Mnemonic::Add => 1,
            Mnemonic::Sub => 2,
            Mnemonic::Sta => 3,
            Mnemonic::Lda => 5,
            Mnemonic::Bra => 6,
            Mnemonic::Brp => 7,
            Mnemonic::Brz => 8,
            Mnemonic::Inp => 9,
            Mnemonic::Out => 9,
            Mnemonic::Hlt => 0,
            Mnemonic::Dat => 0,
        }
    }

    /// The opcode base: the word of this mnemonic with operand 0.
    pub open spec fn base_spec(self) -> int {
        self.class_spec() * 100
    }

    /// Whether the source supplies an address for this mnemonic.
    pub open spec fn takes_address(self) -> bool {
        match self {
            Mnemonic::Add
            | Mnemonic::Sub
            | Mnemonic::Sta
            | Mnemonic::Lda
            | Mnemonic::Bra
            | Mnemonic::Brp
            | Mnemonic::Brz => true,
            _ => false,
        }
    }

    /// The largest operand that a word of this mnemonic can carry.
    pub open spec fn operand_limit(self) -> int {
        if self == Mnemonic::Dat {
            WORD_MAX as int
        } else {
            MEMORY_SIZE - 1
        }
    }

    /// The opcode base of this mnemonic.
    pub fn base(self) -> (b: u16)
        ensures
            b == self.base_spec(),
    {
        match self {
            Mnemonic::Add => 100,
            Mnemonic::Sub => 200,
            Mnemonic::Sta => 300,
            Mnemonic::Lda => 500,
            Mnemonic::Bra => 600,
            Mnemonic::Brp => 700,
            Mnemonic::Brz => 800,
            Mnemonic::Inp => 900,
            Mnemonic::Out => 900,
            Mnemonic::Hlt => 0,
            Mnemonic::Dat => 0,
        }
    }
}

/// Reads a mnemonic.
pub fn parse_mnemonic(s: &str) -> (r: Option<Mnemonic>)
    ensures
        r == mnemonic_of(s@),
{
    if str_eq(s, "ADD") {
        Some(Mnemonic::Add)
    } else if str_eq(s, "SUB") {
        Some(Mnemonic::Sub)
    } else if str_eq(s, "STA") {
        Some(Mnemonic::Sta)
    } else if str_eq(s, "LDA") {
        Some(Mnemonic::Lda)
    } else if str_eq(s, "BRA") {
        Some(Mnemonic::Bra)
    } else if str_eq(s, "BRP") {
        Some(Mnemonic::Brp)
    } else if str_eq(s, "BRZ") {
        Some(Mnemonic::Brz)
    } else if str_eq(s, "INP") {
        Some(Mnemonic::Inp)
    } else if str_eq(s, "OUT") {
        Some(Mnemonic::Out)
    } else if str_eq(s, "HLT") {
        Some(Mnemonic::Hlt)
    } else if str_eq(s, "DAT") {
        Some(Mnemonic::Dat)
    } else {
        None
    }
}

/// The table of operations. It is built once and handed to the tokenizer by
/// reference.
pub struct Ops {
    operations: [&'static str; 10],
}

impl Ops {
    #[verifier::type_invariant]
    spec fn inv(self) -> bool {
        views_of(self.operations@) == operation_texts()
    }

    /// The spellings that the table holds, in its order.
    pub closed spec fn texts(&self) -> Seq<Seq<char>> {
        views_of(self.operations@)
    }

    /// The table of the ten operations.
    pub fn new() -> (ops: Ops)
        ensures
            ops.texts() == operation_texts(),
    {
        let operations: [&'static str; 10] = [
            "ADD",
            "SUB",
            "STA",
            "LDA",
            "BRA",
            "BRP",
            "BRZ",
            "INP",
            "OUT",
            "HLT",
        ];
        assert(views_of(operations@) =~= operation_texts());
        Ops { operations }
    }

    /// Whether `op` spells one of the ten operations.
    pub fn is_valid_op(&self, op: &str) -> (r: bool)
        ensures
            r == is_operation(op@),
    {
        proof {
            use_type_invariant(self);
        }
        let mut i: usize = 0;
        while i < 10
            invariant
                i <= 10,
                views_of(self.operations@) == operation_texts(),
                forall|j: int| 0 <= j < i ==> operation_texts()[j] != op@,
            decreases 10 - i,
        {
            assert(views_of(self.operations@)[i as int] == self.operations@[i as int]@);
            if str_eq(self.operations[i], op) {
                return true;
            }
            i += 1;
        }
        false
    }
}

// ---------------------------------------------------------------------------
// Tokens and errors
// ---------------------------------------------------------------------------

/// One source line, taken apart. `index` is the index of the line in the
/// source, which is the address that its label stands for. A token that the
/// tokenizer made has an opcode.
#[derive(Clone, Copy, Debug, PartialEq, Eq)]
pub struct AsmToken<'a> {
    pub opcode: Option<&'a str>,
    pub operand: Option<&'a str>,
    pub label: Option<&'a str>,
    pub index: usize,
}

/// A token, with its texts as character sequences.
pub struct TokenView {
    pub opcode: Option<Seq<char>>,
    pub operand: Option<Seq<char>>,
    pub label: Option<Seq<char>>,
    pub index: usize,
}

/// The text of an optional string slice.
pub open spec fn text_of(s: Option<&str>) -> Option<Seq<char>> {
    match s {
        Some(t) => Some(t@),
        None => None,
    }
}

impl<'a> View for AsmToken<'a> {
    type V = TokenView;

    open spec fn view(&self) -> TokenView {
        TokenView {
            opcode: text_of(self.opcode),
            operand: text_of(self.operand),
            label: text_of(self.label),
            index: self.index,
        }
    }
}

/// What is wrong with a line.
#[derive(Clone, Copy, Debug, PartialEq, Eq)]
pub enum AsmErrorKind {
    /// More fields than the line's layout has room for.
    TrailingContent,
    /// A label with nothing behind it.
    MissingInstruction,
    /// A word in the place of the mnemonic that is none.
    UnknownOperation,
    /// An operation that needs an address has none.
    MissingOperand,
    /// An operand that is neither a number nor a label of the source.
    UndefinedLabel,
    /// An address of 100 or more, or a `DAT` value above 999.
    OperandOutOfRange,
}

/// An error of assembly: what is wrong, the index of the line (from 0), and
/// the text at fault. For the three errors of the tokenizer that text is the
/// whole line; for a missing operand and for an unknown operation in a
/// hand-made token it is the opcode; for the others it is the operand.
#[derive(Clone, Debug, PartialEq, Eq)]
pub struct AsmError {
    pub kind: AsmErrorKind,
    pub line: usize,
    pub text: String,
}

/// An error, with its text as a character sequence.
pub struct ErrorView {
    pub kind: AsmErrorKind,
    pub line: usize,
    pub text: Seq<char>,
}

impl View for AsmError {
    type V = ErrorView;

    open spec fn view(&self) -> ErrorView {
        ErrorView { kind: self.kind, line: self.line, text: self.text@ }
    }
}

impl AsmErrorKind {
    /// The message for this kind of error.
    pub open spec fn message_spec(self) -> Seq<char> {
        match self {
            AsmErrorKind::TrailingContent => "Invalid syntax! Unexpected characters before line end."@,
            AsmErrorKind::MissingInstruction => "Invalid syntax! Expected instructions after label, found none."@,
            AsmErrorKind::UnknownOperation => "Invalid syntax! Unknown operation."@,
            AsmErrorKind::MissingOperand => "No operand supplied"@,
            AsmErrorKind::UndefinedLabel => "Label not defined."@,
            AsmErrorKind::OperandOutOfRange => "Operand out of range."@,
        }
    }

    /// The message for this kind of error.
    pub fn message(self) -> (text: &'static str)
        ensures
            text@ == self.message_spec(),
    {
        match self {
            AsmErrorKind::TrailingContent => "Invalid syntax! Unexpected characters before line end.",
            AsmErrorKind::MissingInstruction => "Invalid syntax! Expected instructions after label, found none.",
            AsmErrorKind::UnknownOperation => "Invalid syntax! Unknown operation.",
            AsmErrorKind::MissingOperand => "No operand supplied",
            AsmErrorKind::UndefinedLabel => "Label not defined.",
            AsmErrorKind::OperandOutOfRange => "Operand out of range.",
        }
    }
}

/// The views of a sequence of tokens.
pub open spec fn tokens_view(tokens: Seq<AsmToken>) -> Seq<TokenView> {
    tokens.map_values(|t: AsmToken| t@)
}

/// The views of a sequence of errors.
pub open spec fn errors_view(errors: Seq<AsmError>) -> Seq<ErrorView> {
    errors.map_values(|e: AsmError| e@)
}

// ---------------------------------------------------------------------------
// Comments and lines
// ---------------------------------------------------------------------------

/// The position of the first `//` at or after `i` (the length of `s` if
/// there is none).
pub open spec fn comment_start_from(s: Seq<char>, i: int) -> int
    decreases s.len() - i,
{
    if i < 0 || i + 1 >= s.len() {
        s.len() as int
    } else if s[i] == '/' && s[i + 1] == '/' {
        i
    } else {
        comment_start_from(s, i + 1)
    }
}

/// A line without its comment: what stands before the first `//`.
pub open spec fn code_of(line: Seq<char>) -> Seq<char> {
    line.take(comment_start_from(line, 0))
}

/// The comment starts at the first `//` and nowhere else.
pub proof fn lemma_comment_start(s: Seq<char>, i: int)
    requires
        0 <= i <= s.len(),
    ensures
        i <= comment_start_from(s, i) <= s.len(),
        forall|j: int|
            i <= j < comment_start_from(s, i) && j + 1 < s.len() ==> !(#[trigger] s[j] == '/' && s[j
                + 1] == '/'),
        comment_start_from(s, i) < s.len() ==> s[comment_start_from(s, i)] == '/' && s[
            comment_start_from(s, i) + 1] == '/',
    decreases s.len() - i,
{
    if i + 1 < s.len() && !(s[i] == '/' && s[i + 1] == '/') {
        lemma_comment_start(s, i + 1);
    }
}

/// Cuts the comment off a line.
pub fn strip_comment<'a>(line: &'a str) -> (code: &'a str)
    ensures
        code@ == code_of(line@),
{
    let chars: Vec<char> = chars_of(line);
    let n: usize = chars.len();
    let mut i: usize = 0;
    while i < n && i + 1 < n
        invariant
            i <= n,
            chars@ == line@,
            n == line@.len(),
            comment_start_from(line@, 0) == comment_start_from(line@, i as int),
        decreases n - i,
    {
        if chars[i] == '/' && chars[i + 1] == '/' {
            return line.substring_char(0, i);
        }
        i += 1;
    }
    line.substring_char(0, n)
}

/// The position of the first line feed at or after `i` (the length of `s` if
/// there is none).
pub open spec fn line_end(s: Seq<char>, i: int) -> int
    decreases s.len() - i,
{
    if 0 <= i < s.len() && s[i] != '\n' {
        line_end(s, i + 1)
    } else {
        i
    }
}

/// The line that starts at `i`: it runs to the next line feed, or to the end
/// of `s`, and a carriage return just before the line feed is no part of it.
pub open spec fn line_at(s: Seq<char>, i: int) -> Seq<char> {
    let e = line_end(s, i);
    if e < s.len() && i < e && s[e - 1] == '\r' {
        s.subrange(i, e - 1)
    } else {
        s.subrange(i, e)
    }
}

/// A line ends at or behind its start, and within the text.
pub proof fn lemma_line_end(s: Seq<char>, i: int)
    requires
        0 <= i <= s.len(),
    ensures
        i <= line_end(s, i) <= s.len(),
    decreases s.len() - i,
{
    if i < s.len() && s[i] != '\n' {
        lemma_line_end(s, i + 1);
    }
}

/// The lines of `s` that start at or after `i`.
pub open spec fn lines_from(s: Seq<char>, i: int) -> Seq<Seq<char>>
    decreases s.len() + 1 - i,
    via lines_from_decreases
{
    if 0 <= i < s.len() {
        seq![line_at(s, i)] + lines_from(s, line_end(s, i) + 1)
    } else {
        Seq::empty()
    }
}

#[via_fn]
proof fn lines_from_decreases(s: Seq<char>, i: int) {
    if 0 <= i < s.len() {
        lemma_line_end(s, i);
    }
}

/// The lines of a source text. Each line feed ends a line; what stands behind
/// the last line feed is a line too unless it is empty.
pub open spec fn lines_of(s: Seq<char>) -> Seq<Seq<char>> {
    lines_from(s, 0)
}

/// Splits a source text into its lines.
pub fn source_lines<'a>(source: &'a str) -> (r: Vec<&'a str>)
    ensures
        views_of(r@) == lines_of(source@),
{
    let chars: Vec<char> = chars_of(source);
    let n: usize = chars.len();
    let mut out: Vec<&'a str> = Vec::new();
    let mut i: usize = 0;
    assert(views_of(out@) + lines_from(source@, 0) =~= lines_from(source@, 0));
    while i < n
        invariant
            i <= n,
            chars@ == source@,
            n == source@.len(),
            lines_of(source@) == views_of(out@) + lines_from(source@, i as int),
        decreases n - i,
    {
        let mut e: usize = i;
        while e < n && chars[e] != '\n'
            invariant
                i <= e <= n,
                chars@ == source@,
                n == source@.len(),
                line_end(source@, i as int) == line_end(source@, e as int),
            decreases n - e,
        {
            e += 1;
        }
        let stop: usize = if e < n && i < e && chars[e - 1] == '\r' {
            e - 1
        } else {
            e
        };
        let line: &'a str = source.substring_char(i, stop);
        proof {
            let before = views_of(out@);
            let rest = lines_from(source@, e + 1);
            assert(line@ == line_at(source@, i as int));
            assert(lines_from(source@, i as int) == seq![line@] + rest);
            assert(views_of(out@.push(line)) =~= before.push(line@));
            assert(before + (seq![line@] + rest) =~= before.push(line@) + rest);
        }
        out.push(line);
        if e < n {
            i = e + 1;
        } else {
            proof {
                assert(lines_from(source@, e + 1) =~= lines_from(source@, n as int));
            }
            i = n;
        }
    }
    assert(views_of(out@) + lines_from(source@, n as int) =~= views_of(out@));
    out
}

// ---------------------------------------------------------------------------
// The tokenizer
// ---------------------------------------------------------------------------

/// The error of the given kind at the line with the given index.
pub open spec fn error_at(kind: AsmErrorKind, index: usize, text: Seq<char>) -> ErrorView {
    ErrorView { kind, line: index, text }
}

/// What a line tokenizes to. The comment is cut off and the rest is split at
/// whitespace. No field: no token. A first field that is an operation is the
/// opcode, and one more field is its operand. Any other first field is a
/// label; the opcode, an operation or `DAT`, must follow it, and one more
/// field is the operand.
pub open spec fn tokenize_spec(line: Seq<char>, index: usize) -> Result<
    Option<TokenView>,
    ErrorView,
> {
    let f = fields(code_of(line));
    if f.len() == 0 {
        Ok(None)
    } else if f.len() > 3 {
        Err(error_at(AsmErrorKind::TrailingContent, index, line))
    } else if is_operation(f[0]) {
        if f.len() == 3 {
            Err(error_at(AsmErrorKind::TrailingContent, index, line))
        } else {
            Ok(
                Some(
                    TokenView {
                        opcode: Some(f[0]),
                        operand: if f.len() == 2 {
                            Some(f[1])
                        } else {
                            None
                        },
                        label: None,
                        index,
                    },
                ),
            )
        }
    } else if f.len() == 1 {
        Err(error_at(AsmErrorKind::MissingInstruction, index, line))
    } else if !is_operation(f[1]) && f[1] != "DAT"@ {
        Err(error_at(AsmErrorKind::UnknownOperation, index, line))
    } else {
        Ok(
            Some(
                TokenView {
                    opcode: Some(f[1]),
                    operand: if f.len() == 3 {
                        Some(f[2])
                    } else {
                        None
                    },
                    label: Some(f[0]),
                    index,
                },
            ),
        )
    }
}

/// The view of what the tokenizer returns.
pub open spec fn line_result_view(r: Result<Option<AsmToken>, AsmError>) -> Result<
    Option<TokenView>,
    ErrorView,
> {
    match r {
        Ok(Some(token)) => Ok(Some(token@)),
        Ok(None) => Ok(None),
        Err(error) => Err(error@),
    }
}

/// Tokenizes the line with the given index.
pub fn gen_asmtoken_line<'a>(ops: &Ops, line: &'a str, index: usize) -> (r: Result<
    Option<AsmToken<'a>>,
    AsmError,
>)
    ensures
        line_result_view(r) == tokenize_spec(line@, index),
{
    let code: &'a str = strip_comment(line);
    let parts: Vec<&'a str> = split_fields(code);
    let count: usize = parts.len();
    proof {
        assert(views_of(parts@).len() == count);
        assert forall|k: int| 0 <= k < count implies parts@[k]@ == #[trigger] fields(
            code_of(line@),
        )[k] by {
            assert(views_of(parts@)[k] == parts@[k]@);
        }
    }
    if count == 0 {
        return Ok(None);
    }
    if count > 3 {
        return Err(AsmError { kind: AsmErrorKind::TrailingContent, line: index, text: line.to_owned() });
    }
    if ops.is_valid_op(parts[0]) {
        if count == 3 {
            return Err(
                AsmError { kind: AsmErrorKind::TrailingContent, line: index, text: line.to_owned() },
            );
        }
        let operand: Option<&'a str> = if count == 2 {
            Some(parts[1])
        } else {
            None
        };
        Ok(Some(AsmToken { opcode: Some(parts[0]), operand, label: None, index }))
    } else {
        if count == 1 {
            return Err(
                AsmError {
                    kind: AsmErrorKind::MissingInstruction,
                    line: index,
                    text: line.to_owned(),
                },
            );
        }
        if !ops.is_valid_op(parts[1]) && !str_eq(parts[1], "DAT") {
            return Err(
                AsmError { kind: AsmErrorKind::UnknownOperation, line: index, text: line.to_owned() },
            );
        }
        let operand: Option<&'a str> = if count == 3 {
            Some(parts[2])
        } else {
            None
        };
        Ok(Some(AsmToken { opcode: Some(parts[1]), operand, label: Some(parts[0]), index }))
    }
}

// ---------------------------------------------------------------------------
// All lines of a source
// ---------------------------------------------------------------------------

/// The tokens of the lines that hold one, in the order of the lines. The
/// index of a line is its place in `lines`.
pub open spec fn scan_tokens(lines: Seq<Seq<char>>) -> Seq<TokenView>
    decreases lines.len(),
{
    if lines.len() == 0 {
        Seq::empty()
    } else {
        let before = scan_tokens(lines.drop_last());
        match tokenize_spec(lines.last(), (lines.len() - 1) as usize) {
            Ok(Some(token)) => before.push(token),
            _ => before,
        }
    }
}

/// The errors of the lines that fail to tokenize, in the order of the lines.
pub open spec fn scan_errors(lines: Seq<Seq<char>>) -> Seq<ErrorView>
    decreases lines.len(),
{
    if lines.len() == 0 {
        Seq::empty()
    } else {
        let before = scan_errors(lines.drop_last());
        match tokenize_spec(lines.last(), (lines.len() - 1) as usize) {
            Err(error) => before.push(error),
            _ => before,
        }
    }
}

/// Tokenizes every line of a source. If no line fails, the tokens come back;
/// else the errors of all lines that failed do.
pub fn gen_asmtoken_vec<'a>(ops: &Ops, source: &'a str) -> (r: Result<
    Vec<AsmToken<'a>>,
    Vec<AsmError>,
>)
    ensures
        match r {
            Ok(tokens) => scan_errors(lines_of(source@)).len() == 0 && tokens_view(tokens@)
                == scan_tokens(lines_of(source@)),
            Err(errors) => errors@.len() > 0 && errors_view(errors@) == scan_errors(
                lines_of(source@),
            ),
        },
{
    let lines: Vec<&'a str> = source_lines(source);
    let n: usize = lines.len();
    let mut tokens: Vec<AsmToken<'a>> = Vec::new();
    let mut errors: Vec<AsmError> = Vec::new();
    let mut index: usize = 0;
    assert(views_of(lines@).take(0) =~= Seq::<Seq<char>>::empty());
    assert(tokens_view(tokens@) =~= Seq::<TokenView>::empty());
    assert(errors_view(errors@) =~= Seq::<ErrorView>::empty());
    while index < n
        invariant
            index <= n,
            n == lines@.len(),
            views_of(lines@) == lines_of(source@),
            tokens_view(tokens@) == scan_tokens(views_of(lines@).take(index as int)),
            errors_view(errors@) == scan_errors(views_of(lines@).take(index as int)),
        decreases n - index,
    {
        let r = gen_asmtoken_line(ops, lines[index], index);
        proof {
            let all = views_of(lines@);
            assert(all.take(index + 1).drop_last() =~= all.take(index as int));
            assert(all.take(index + 1).last() == lines@[index as int]@);
        }
        match r {
            Ok(Some(token)) => {
                assert(tokens_view(tokens@.push(token)) =~= tokens_view(tokens@).push(token@));
                tokens.push(token);
            },
            Ok(None) => {},
            Err(error) => {
                assert(errors_view(errors@.push(error)) =~= errors_view(errors@).push(error@));
                errors.push(error);
            },
        }
        index += 1;
    }
    assert(views_of(lines@).take(n as int) =~= views_of(lines@));
    if errors.len() > 0 {
        Err(errors)
    } else {
        Ok(tokens)
    }
}

// ---------------------------------------------------------------------------
// Labels
// ---------------------------------------------------------------------------

/// The label map of a token sequence: each label with the index of the first
/// token that carries it.
pub open spec fn label_map_of(tokens: Seq<TokenView>) -> Map<Seq<char>, usize>
    decreases tokens.len(),
{
    if tokens.len() == 0 {
        Map::empty()
    } else {
        let before = label_map_of(tokens.drop_last());
        match tokens.last().label {
            Some(name) => if before.contains_key(name) {
                before
            } else {
                before.insert(name, tokens.last().index)
            },
            None => before,
        }
    }
}

/// Builds the label map in one pass over all tokens.
pub fn gen_label_map(token_vec: &Vec<AsmToken<'_>>) -> (label_map: StringHashMap<usize>)
    ensures
        label_map@ == label_map_of(tokens_view(token_vec@)),
{
    let mut label_map: StringHashMap<usize> = StringHashMap::new();
    let n: usize = token_vec.len();
    let mut i: usize = 0;
    assert(tokens_view(token_vec@).take(0) =~= Seq::<TokenView>::empty());
    while i < n
        invariant
            i <= n,
            n == token_vec@.len(),
            label_map@ == label_map_of(tokens_view(token_vec@).take(i as int)),
        decreases n - i,
    {
        proof {
            let all = tokens_view(token_vec@);
            assert(all.take(i + 1).drop_last() =~= all.take(i as int));
            assert(all.take(i + 1).last() == token_vec@[i as int]@);
        }
        match token_vec[i].label {
            Some(name) => {
                if !label_map.contains_key(name) {
                    label_map.insert(name.to_owned(), token_vec[i].index);
                }
            },
            None => {},
        }
        i += 1;
    }
    assert(tokens_view(token_vec@).take(n as int) =~= tokens_view(token_vec@));
    label_map
}

/// The labels of the map are the labels of the tokens.
pub proof fn lemma_label_map_domain(tokens: Seq<TokenView>, name: Seq<char>)
    ensures
        label_map_of(tokens).contains_key(name) <==> exists|j: int|
            0 <= j < tokens.len() && (#[trigger] tokens[j]).label == Some(name),
    decreases tokens.len(),
{
    if tokens.len() > 0 {
        let front = tokens.drop_last();
        lemma_label_map_domain(front, name);
        if label_map_of(front).contains_key(name) {
            let j = choose|j: int| 0 <= j < front.len() && (#[trigger] front[j]).label == Some(name);
            assert(tokens[j].label == Some(name));
        } else if tokens.last().label == Some(name) {
            assert(tokens[tokens.len() - 1].label == Some(name));
        } else {
            assert forall|j: int| 0 <= j < tokens.len() implies (#[trigger] tokens[j]).label
                != Some(name) by {
                if j < front.len() {
                    assert(front[j].label != Some(name));
                }
            }
        }
    }
}

/// A label stands for the index of the first token that defines it, however
/// many tokens define it again further down.
pub proof fn lemma_first_definition_wins(tokens: Seq<TokenView>, name: Seq<char>, i: int)
    requires
        0 <= i < tokens.len(),
        tokens[i].label == Some(name),
        forall|j: int| 0 <= j < i ==> (#[trigger] tokens[j]).label != Some(name),
    ensures
        label_map_of(tokens).contains_key(name),
        label_map_of(tokens)[name] == tokens[i].index,
    decreases tokens.len(),
{
    let front = tokens.drop_last();
    if i == tokens.len() - 1 {
        lemma_label_map_domain(front, name);
        assert forall|j: int| 0 <= j < front.len() implies (#[trigger] front[j]).label != Some(
            name,
        ) by {
            assert(tokens[j].label != Some(name));
        }
    } else {
        assert forall|j: int| 0 <= j < i implies (#[trigger] front[j]).label != Some(name) by {
            assert(tokens[j].label != Some(name));
        }
        lemma_first_definition_wins(front, name, i);
    }
}

/// A token whose label is defined already leaves the label map as it is.
pub proof fn lemma_redefinition_is_ignored(tokens: Seq<TokenView>, token: TokenView)
    requires
        token.label matches Some(name) && label_map_of(tokens).contains_key(name),
    ensures
        label_map_of(tokens.push(token)) == label_map_of(tokens),
{
    assert(tokens.push(token).drop_last() =~= tokens);
}

// ---------------------------------------------------------------------------
// Encoding
// ---------------------------------------------------------------------------

/// The number that an operand stands for: its value if it is a numeric
/// literal, else the address of the label that it names, if there is one.
pub open spec fn resolve_spec(operand: Seq<char>, labels: Map<Seq<char>, usize>) -> Option<int> {
    match literal_value(operand) {
        Some(v) => Some(v as int),
        None => if labels.contains_key(operand) {
            Some(labels[operand] as int)
        } else {
            None
        },
    }
}

/// The word of a token. A token without opcode has none. `INP`, `OUT` and
/// `HLT` are 901, 902 and 0, whatever operand the token holds. The seven
/// operations with an address are their opcode base plus the operand, which
/// must be there, resolve, and lie below 100. `DAT` is its operand, which
/// must resolve and not pass 999, or 0 without one.
pub open spec fn encode_spec(token: TokenView, labels: Map<Seq<char>, usize>) -> Result<
    Option<u16>,
    ErrorView,
> {
    match token.opcode {
        None => Ok(None),
        Some(op) => match mnemonic_of(op) {
            None => Err(error_at(AsmErrorKind::UnknownOperation, token.index, op)),
            Some(Mnemonic::Inp) => Ok(Some(901)),
            Some(Mnemonic::Out) => Ok(Some(902)),
            Some(Mnemonic::Hlt) => Ok(Some(0)),
            Some(m) => match token.operand {
                None => if m == Mnemonic::Dat {
                    Ok(Some(0))
                } else {
                    Err(error_at(AsmErrorKind::MissingOperand, token.index, op))
                },
                Some(text) => match resolve_spec(text, labels) {
                    None => Err(error_at(AsmErrorKind::UndefinedLabel, token.index, text)),
                    Some(v) => if v <= m.operand_limit() {
                        Ok(Some((m.base_spec() + v) as u16))
                    } else {
                        Err(error_at(AsmErrorKind::OperandOutOfRange, token.index, text))
                    },
                },
            },
        },
    }
}

/// The view of what encoding a token returns.
pub open spec fn word_result_view(r: Result<Option<u16>, AsmError>) -> Result<
    Option<u16>,
    ErrorView,
> {
    match r {
        Ok(word) => Ok(word),
        Err(error) => Err(error@),
    }
}

/// Resolves an operand: a numeric literal first, a label second.
pub fn resolve_operand(operand: &str, labels: &StringHashMap<usize>) -> (r: Option<usize>)
    ensures
        match r {
            Some(v) => resolve_spec(operand@, labels@) == Some(v as int),
            None => resolve_spec(operand@, labels@) is None,
        },
{
    match parse_number(operand) {
        Some(value) => Some(value as usize),
        None => match labels.get(operand) {
            Some(address) => Some(*address),
            None => None,
        },
    }
}

/// Encodes one token against a label map.
pub fn encode_token(token: &AsmToken<'_>, labels: &StringHashMap<usize>) -> (r: Result<
    Option<u16>,
    AsmError,
>)
    ensures
        word_result_view(r) == encode_spec(token@, labels@),
{
    let op: &str = match token.opcode {
        Some(op) => op,
        None => {
            return Ok(None);
        },
    };
    let mnemonic: Mnemonic = match parse_mnemonic(op) {
        Some(m) => m,
        None => {
            return Err(
                AsmError {
                    kind: AsmErrorKind::UnknownOperation,
                    line: token.index,
                    text: op.to_owned(),
                },
            );
        },
    };
    let is_data: bool = match mnemonic {
        Mnemonic::Inp => {
            return Ok(Some(901));
        },
        Mnemonic::Out => {
            return Ok(Some(902));
        },
        Mnemonic::Hlt => {
            return Ok(Some(0));
        },
        Mnemonic::Dat => true,
        _ => false,
    };
    let limit: usize = if is_data {
        999
    } else {
        99
    };
    match token.operand {
        None => {
            if is_data {
                Ok(Some(0))
            } else {
                Err(
                    AsmError {
                        kind: AsmErrorKind::MissingOperand,
                        line: token.index,
                        text: op.to_owned(),
                    },
                )
            }
        },
        Some(text) => match resolve_operand(text, labels) {
            None => Err(
                AsmError {
                    kind: AsmErrorKind::UndefinedLabel,
                    line: token.index,
                    text: text.to_owned(),
                },
            ),
            Some(value) => {
                if value <= limit {
                    Ok(Some(mnemonic.base() + value as u16))
                } else {
                    Err(
                        AsmError {
                            kind: AsmErrorKind::OperandOutOfRange,
                            line: token.index,
                            text: text.to_owned(),
                        },
                    )
                }
            },
        },
    }
}

/// The words of the tokens that have one, in the order of the tokens.
pub open spec fn encode_words(tokens: Seq<TokenView>, labels: Map<Seq<char>, usize>) -> Seq<u16>
    decreases tokens.len(),
{
    if tokens.len() == 0 {
        Seq::empty()
    } else {
        let before = encode_words(tokens.drop_last(), labels);
        match encode_spec(tokens.last(), labels) {
            Ok(Some(word)) => before.push(word),
            _ => before,
        }
    }
}

/// The errors of the tokens that fail to encode, in the order of the tokens.
pub open spec fn encode_errors(tokens: Seq<TokenView>, labels: Map<Seq<char>, usize>) -> Seq<
    ErrorView,
>
    decreases tokens.len(),
{
    if tokens.len() == 0 {
        Seq::empty()
    } else {
        let before = encode_errors(tokens.drop_last(), labels);
        match encode_spec(tokens.last(), labels) {
            Err(error) => before.push(error),
            _ => before,
        }
    }
}

/// The word of a token is a machine word.
pub proof fn lemma_encoded_word_in_range(token: TokenView, labels: Map<Seq<char>, usize>)
    ensures
        encode_spec(token, labels) matches Ok(Some(word)) ==> word <= WORD_MAX,
{
}

/// Every encoded word is a machine word.
pub proof fn lemma_encoded_words_in_range(tokens: Seq<TokenView>, labels: Map<Seq<char>, usize>)
    ensures
        forall|i: int|
            0 <= i < encode_words(tokens, labels).len() ==> #[trigger] encode_words(
                tokens,
                labels,
            )[i] <= WORD_MAX,
    decreases tokens.len(),
{
    if tokens.len() > 0 {
        let front = encode_words(tokens.drop_last(), labels);
        lemma_encoded_words_in_range(tokens.drop_last(), labels);
        lemma_encoded_word_in_range(tokens.last(), labels);
        assert forall|i: int| 0 <= i < encode_words(tokens, labels).len() implies #[trigger] encode_words(
            tokens,
            labels,
        )[i] <= WORD_MAX by {
            if i < front.len() {
                assert(encode_words(tokens, labels)[i] == front[i]);
            }
        }
    }
}

/// Encodes every token against a label map. If no token fails, the words come
/// back; else the errors of all tokens that failed do.
pub fn encode_tokens(tokens: &Vec<AsmToken<'_>>, labels: &StringHashMap<usize>) -> (r: Result<
    Vec<u16>,
    Vec<AsmError>,
>)
    ensures
        match r {
            Ok(words) => encode_errors(tokens_view(tokens@), labels@).len() == 0 && words@
                == encode_words(tokens_view(tokens@), labels@),
            Err(errors) => errors@.len() > 0 && errors_view(errors@) == encode_errors(
                tokens_view(tokens@),
                labels@,
            ),
        },
{
    let n: usize = tokens.len();
    let mut machine_code: Vec<u16> = Vec::new();
    let mut errors: Vec<AsmError> = Vec::new();
    let mut i: usize = 0;
    assert(tokens_view(tokens@).take(0) =~= Seq::<TokenView>::empty());
    assert(errors_view(errors@) =~= Seq::<ErrorView>::empty());
    while i < n
        invariant
            i <= n,
            n == tokens@.len(),
            machine_code@ == encode_words(tokens_view(tokens@).take(i as int), labels@),
            errors_view(errors@) == encode_errors(tokens_view(tokens@).take(i as int), labels@),
        decreases n - i,
    {
        proof {
            let all = tokens_view(tokens@);
            assert(all.take(i + 1).drop_last() =~= all.take(i as int));
            assert(all.take(i + 1).last() == tokens@[i as int]@);
        }
        match encode_token(&tokens[i], labels) {
            Ok(Some(word)) => {
                machine_code.push(word);
            },
            Ok(None) => {},
            Err(error) => {
                assert(errors_view(errors@.push(error)) =~= errors_view(errors@).push(error@));
                errors.push(error);
            },
        }
        i += 1;
    }
    assert(tokens_view(tokens@).take(n as int) =~= tokens_view(tokens@));
    if errors.len() > 0 {
        Err(errors)
    } else {
        Ok(machine_code)
    }
}

// ---------------------------------------------------------------------------
// Assembly
// ---------------------------------------------------------------------------

/// What a source assembles to: the words of its tokens, encoded against the
/// label map of all its tokens, or the errors of the first stage that failed.
pub open spec fn assemble_spec(source: Seq<char>) -> Result<Seq<u16>, Seq<ErrorView>> {
    let lines = lines_of(source);
    if scan_errors(lines).len() > 0 {
        Err(scan_errors(lines))
    } else {
        let tokens = scan_tokens(lines);
        let labels = label_map_of(tokens);
        if encode_errors(tokens, labels).len() > 0 {
            Err(encode_errors(tokens, labels))
        } else {
            Ok(encode_words(tokens, labels))
        }
    }
}

/// The view of what assembly returns.
pub open spec fn assembly_view(r: Result<Vec<u16>, Vec<AsmError>>) -> Result<
    Seq<u16>,
    Seq<ErrorView>,
> {
    match r {
        Ok(words) => Ok(words@),
        Err(errors) => Err(errors_view(errors@)),
    }
}

/// Assembles a source text into machine words.
pub fn assemble(source: &str) -> (r: Result<Vec<u16>, Vec<AsmError>>)
    ensures
        assembly_view(r) == assemble_spec(source@),
        r matches Ok(words) ==> forall|i: int|
            0 <= i < words@.len() ==> #[trigger] words@[i] <= WORD_MAX,
        r matches Err(errors) ==> errors@.len() > 0,
{
    let ops: Ops = Ops::new();
    let tokens: Vec<AsmToken<'_>> = match gen_asmtoken_vec(&ops, source) {
        Ok(tokens) => tokens,
        Err(errors) => {
            return Err(errors);
        },
    };
    let labels: StringHashMap<usize> = gen_label_map(&tokens);
    proof {
        lemma_encoded_words_in_range(tokens_view(tokens@), labels@);
    }
    encode_tokens(&tokens, &labels)
}

// ---------------------------------------------------------------------------
// Laws of assembly
// ---------------------------------------------------------------------------

/// A word built as the opcode base of an operation plus an operand from 0 to
/// 99 decodes to the class of that operation and to that operand.
pub proof fn lemma_encode_decode_roundtrip(mnemonic: Mnemonic, operand: int)
    requires
        mnemonic != Mnemonic::Dat,
        0 <= operand < MEMORY_SIZE,
    ensures
        0 <= mnemonic.base_spec() + operand <= WORD_MAX,
        decode_opcode(mnemonic.base_spec() + operand) == mnemonic.class_spec(),
        decode_operand(mnemonic.base_spec() + operand) == operand,
{
}

/// The word of a token with an operation decodes to the class of that
/// operation; where the operation takes an address, it decodes to the
/// resolved operand as well.
pub proof fn lemma_encoded_token_decodes(token: TokenView, labels: Map<Seq<char>, usize>)
    requires
        token.opcode matches Some(op) && is_operation(op),
        encode_spec(token, labels) is Ok,
    ensures
        encode_spec(token, labels) matches Ok(Some(word)) && {
            let m = mnemonic_of(token.opcode->0)->0;
            &&& decode_opcode(word as int) == m.class_spec()
            &&& m.takes_address() ==> Some(decode_operand(word as int)) == resolve_spec(
                token.operand->0,
                labels,
            )
        },
{
}

/// A line that fails to tokenize has its error among those of the scan.
pub proof fn lemma_scan_keeps_errors(lines: Seq<Seq<char>>, i: int)
    requires
        0 <= i < lines.len(),
        tokenize_spec(lines[i], i as usize) is Err,
    ensures
        scan_errors(lines).contains(tokenize_spec(lines[i], i as usize)->Err_0),
    decreases lines.len(),
{
    let front = lines.drop_last();
    let error = tokenize_spec(lines[i], i as usize)->Err_0;
    if i == lines.len() - 1 {
        let all = scan_errors(lines);
        assert(all == scan_errors(front).push(error));
        assert(all[all.len() - 1] == error);
    } else {
        lemma_scan_keeps_errors(front, i);
        let k = choose|k: int| 0 <= k < scan_errors(front).len() && scan_errors(front)[k] == error;
        assert(scan_errors(lines)[k] == error);
    }
}

/// A source with a line that fails to tokenize does not assemble: no words
/// come back, and the error of that line, which names the line's index, is
/// among the errors.
pub proof fn lemma_bad_line_fails_assembly(source: Seq<char>, i: int)
    requires
        0 <= i < lines_of(source).len(),
        tokenize_spec(lines_of(source)[i], i as usize) is Err,
    ensures
        assemble_spec(source) matches Err(errors) && errors.contains(
            tokenize_spec(lines_of(source)[i], i as usize)->Err_0,
        ),
        (tokenize_spec(lines_of(source)[i], i as usize)->Err_0).line == i as usize,
{
    lemma_scan_keeps_errors(lines_of(source), i);
}

/// Assembled words are machine words: none passes 999.
pub proof fn lemma_assembled_words_in_range(source: Seq<char>)
    ensures
        assemble_spec(source) matches Ok(words) ==> forall|i: int|
            0 <= i < words.len() ==> #[trigger] words[i] <= WORD_MAX,
{
    let tokens = scan_tokens(lines_of(source));
    lemma_encoded_words_in_range(tokens, label_map_of(tokens));
}

} // verus!
