//! Character-level building blocks shared by the assembler and the machine:
//! whitespace, whitespace-separated fields and unsigned decimal literals.
//!
//! Every text is modelled as the sequence of its characters (`Seq<char>`),
//! which is what `@` gives for a `&str`.

use vstd::prelude::*;
use vstd::string::*;

verus! {

/// The characters that separate fields: the Unicode `White_Space` set.
pub open spec fn is_space(c: char) -> bool {
    let u = c as u32;
    ||| 0x09 <= u <= 0x0D
    ||| u == 0x20
    ||| u == 0x85
    ||| u == 0xA0
    ||| u == 0x1680
    ||| 0x2000 <= u <= 0x200A
    ||| u == 0x2028
    ||| u == 0x2029
    ||| u == 0x202F
    ||| u == 0x205F
    ||| u == 0x3000
}

/// Whether `c` separates fields.
pub fn is_whitespace(c: char) -> (r: bool)
    ensures
        r == is_space(c),
{
    let u: u32 = c as u32;
    (0x09 <= u && u <= 0x0D) || u == 0x20 || u == 0x85 || u == 0xA0 || u == 0x1680 || (0x2000 <= u
        && u <= 0x200A) || u == 0x2028 || u == 0x2029 || u == 0x202F || u == 0x205F || u == 0x3000
}

/// The characters of `s`, in order.
pub fn chars_of(s: &str) -> (v: Vec<char>)
    ensures
        v@ == s@,
{
    let mut v: Vec<char> = Vec::new();
    for c in it: s.chars()
        invariant
            it.seq() == s@,
            v@ == s@.take(it.index()),
    {
        v.push(c);
        assert(s@.take(it.index() + 1) =~= s@.take(it.index()).push(s@[it.index()]));
    }
    assert(s@.take(s@.len() as int) =~= s@);
    v
}

/// Whether two texts hold the same characters.
pub fn str_eq(a: &str, b: &str) -> (r: bool)
    ensures
        r == (a@ == b@),
{
    let x: Vec<char> = chars_of(a);
    let y: Vec<char> = chars_of(b);
    let n: usize = x.len();
    if n != y.len() {
        return false;
    }
    let mut i: usize = 0;
    while i < n
        invariant
            i <= n,
            x@ == a@,
            y@ == b@,
            n == x@.len(),
            n == y@.len(),
            forall|j: int| 0 <= j < i ==> x@[j] == y@[j],
        decreases n - i,
    {
        if x[i] != y[i] {
            return false;
        }
        i += 1;
    }
    assert(x@ =~= y@);
    true
}

/// The texts of a sequence of string slices.
pub open spec fn views_of(v: Seq<&str>) -> Seq<Seq<char>> {
    v.map_values(|t: &str| t@)
}

// ---------------------------------------------------------------------------
// Whitespace-separated fields
// ---------------------------------------------------------------------------

/// The first position at or after `i` that holds no whitespace
/// (the length of `s` if there is none).
pub open spec fn skip_spaces(s: Seq<char>, i: int) -> int
    decreases s.len() - i,
{
    if 0 <= i < s.len() && is_space(s[i]) {
        skip_spaces(s, i + 1)
    } else {
        i
    }
}

/// The first position at or after `i` that holds whitespace
/// (the length of `s` if there is none).
pub open spec fn skip_word(s: Seq<char>, i: int) -> int
    decreases s.len() - i,
{
    if 0 <= i < s.len() && !is_space(s[i]) {
        skip_word(s, i + 1)
    } else {
        i
    }
}

/// `skip_spaces` moves forward over whitespace only and stops at the first
/// other character.
pub proof fn lemma_skip_spaces(s: Seq<char>, i: int)
    requires
        0 <= i <= s.len(),
    ensures
        i <= skip_spaces(s, i) <= s.len(),
        forall|j: int| i <= j < skip_spaces(s, i) ==> is_space(#[trigger] s[j]),
        skip_spaces(s, i) < s.len() ==> !is_space(s[skip_spaces(s, i)]),
    decreases s.len() - i,
{
    if i < s.len() && is_space(s[i]) {
        lemma_skip_spaces(s, i + 1);
    }
}

/// `skip_word` moves forward over non-whitespace only and stops at the first
/// whitespace character.
pub proof fn lemma_skip_word(s: Seq<char>, i: int)
    requires
        0 <= i <= s.len(),
    ensures
        i <= skip_word(s, i) <= s.len(),
        forall|j: int| i <= j < skip_word(s, i) ==> !is_space(#[trigger] s[j]),
        skip_word(s, i) < s.len() ==> is_space(s[skip_word(s, i)]),
    decreases s.len() - i,
{
    if i < s.len() && !is_space(s[i]) {
        lemma_skip_word(s, i + 1);
    }
}

/// The fields of `s` that start at or after position `i`: skip whitespace,
/// take the run of other characters that follows, and go on behind it.
pub open spec fn fields_from(s: Seq<char>, i: int) -> Seq<Seq<char>>
    decreases s.len() - i,
    via fields_from_decreases
{
    let a = skip_spaces(s, i);
    if 0 <= i && a < s.len() {
        let b = skip_word(s, a);
        seq![s.subrange(a, b)] + fields_from(s, b)
    } else {
        Seq::empty()
    }
}

#[via_fn]
proof fn fields_from_decreases(s: Seq<char>, i: int) {
    if 0 <= i && skip_spaces(s, i) < s.len() {
        lemma_skip_spaces(s, i);
        let a = skip_spaces(s, i);
        lemma_skip_word(s, a + 1);
    }
}

/// The maximal runs of non-whitespace characters of `s`, from left to right.
pub open spec fn fields(s: Seq<char>) -> Seq<Seq<char>> {
    fields_from(s, 0)
}

/// Every field is non-empty and free of whitespace.
pub proof fn lemma_fields_are_words(s: Seq<char>, i: int)
    requires
        0 <= i <= s.len(),
    ensures
        forall|k: int|
            0 <= k < fields_from(s, i).len() ==> {
                let f = #[trigger] fields_from(s, i)[k];
                f.len() > 0 && forall|j: int| 0 <= j < f.len() ==> !is_space(#[trigger] f[j])
            },
    decreases s.len() - i,
{
    lemma_skip_spaces(s, i);
    let a = skip_spaces(s, i);
    if a < s.len() {
        lemma_skip_word(s, a);
        lemma_skip_word(s, a + 1);
        let b = skip_word(s, a);
        lemma_fields_are_words(s, b);
        let first = s.subrange(a, b);
        let rest = fields_from(s, b);
        assert forall|k: int| 0 <= k < fields_from(s, i).len() implies ({
            let f = #[trigger] fields_from(s, i)[k];
            f.len() > 0 && forall|j: int| 0 <= j < f.len() ==> !is_space(#[trigger] f[j])
        }) by {
            if k == 0 {
                assert(fields_from(s, i)[0] == first);
                assert forall|j: int| 0 <= j < first.len() implies !is_space(
                    #[trigger] first[j],
                ) by {
                    assert(first[j] == s[a + j]);
                }
            } else {
                assert(fields_from(s, i)[k] == rest[k - 1]);
            }
        }
    }
}

/// Splits `s` into its whitespace-separated fields.
pub fn split_fields<'a>(s: &'a str) -> (r: Vec<&'a str>)
    ensures
        views_of(r@) == fields(s@),
{
    let chars: Vec<char> = chars_of(s);
    let n: usize = chars.len();
    let mut out: Vec<&'a str> = Vec::new();
    let mut i: usize = 0;
    assert(views_of(out@) + fields_from(s@, 0) =~= fields_from(s@, 0));
    while i < n
        invariant
            i <= n,
            chars@ == s@,
            n == s@.len(),
            fields(s@) == views_of(out@) + fields_from(s@, i as int),
        decreases n - i,
    {
        let mut a: usize = i;
        while a < n && is_whitespace(chars[a])
            invariant
                i <= a <= n,
                chars@ == s@,
                n == s@.len(),
                skip_spaces(s@, i as int) == skip_spaces(s@, a as int),
            decreases n - a,
        {
            a += 1;
        }
        if a == n {
            i = n;
        } else {
            let mut b: usize = a + 1;
            while b < n && !is_whitespace(chars[b])
                invariant
                    a < b <= n,
                    chars@ == s@,
                    n == s@.len(),
                    skip_word(s@, a as int) == skip_word(s@, b as int),
                decreases n - b,
            {
                b += 1;
            }
            let field: &'a str = s.substring_char(a, b);
            proof {
                let before = views_of(out@);
                let rest = fields_from(s@, b as int);
                assert(fields_from(s@, i as int) == seq![field@] + rest);
                assert(views_of(out@.push(field)) =~= before.push(field@));
                assert(before + (seq![field@] + rest) =~= before.push(field@) + rest);
            }
            out.push(field);
            i = b;
        }
    }
    assert(views_of(out@) + fields_from(s@, n as int) =~= views_of(out@));
    out
}

// ---------------------------------------------------------------------------
// Unsigned decimal literals
// ---------------------------------------------------------------------------

/// Whether `c` is one of `0` to `9`.
pub open spec fn is_digit(c: char) -> bool {
    0x30 <= c as u32 <= 0x39
}

/// The number that the digit `c` stands for.
pub open spec fn digit_value(c: char) -> int {
    c as u32 - 0x30
}

/// The number that a run of digits stands for, read in base ten.
pub open spec fn decimal_value(s: Seq<char>) -> int
    decreases s.len(),
{
    if s.len() == 0 {
        0
    } else {
        decimal_value(s.drop_last()) * 10 + digit_value(s.last())
    }
}

/// Whether `s` is one digit or more and nothing else.
pub open spec fn is_decimal(s: Seq<char>) -> bool {
    s.len() > 0 && forall|i: int| 0 <= i < s.len() ==> is_digit(#[trigger] s[i])
}

/// `s` without the `+` that may lead it.
pub open spec fn unsigned_part(s: Seq<char>) -> Seq<char> {
    if s.len() > 0 && s[0] == '+' {
        s.drop_first()
    } else {
        s
    }
}

/// The value of a numeric literal: an optional `+`, then decimal digits whose
/// value fits sixteen bits. Any other text is no literal.
pub open spec fn literal_value(s: Seq<char>) -> Option<u16> {
    let digits = unsigned_part(s);
    if is_decimal(digits) && decimal_value(digits) <= u16::MAX {
        Some(decimal_value(digits) as u16)
    } else {
        None
    }
}

/// A run of digits never has a smaller value than one of its prefixes.
pub proof fn lemma_decimal_value_grows(s: Seq<char>, k: int)
    requires
        forall|i: int| 0 <= i < s.len() ==> is_digit(#[trigger] s[i]),
        0 <= k <= s.len(),
    ensures
        0 <= decimal_value(s.take(k)) <= decimal_value(s),
    decreases s.len(),
{
    if k == s.len() {
        assert(s.take(k) =~= s);
        if s.len() > 0 {
            lemma_decimal_value_grows(s.drop_last(), k - 1);
        }
    } else {
        lemma_decimal_value_grows(s.drop_last(), k);
        assert(s.drop_last().take(k) =~= s.take(k));
    }
}

/// Reads a numeric literal.
pub fn parse_number(s: &str) -> (r: Option<u16>)
    ensures
        r == literal_value(s@),
{
    let chars: Vec<char> = chars_of(s);
    let n: usize = chars.len();
    let start: usize = if n > 0 && chars[0] == '+' {
        1
    } else {
        0
    };
    if start == n {
        return None;
    }
    let ghost digits = unsigned_part(s@);
    assert(digits =~= s@.subrange(start as int, n as int));
    let mut value: u32 = 0;
    let mut i: usize = start;
    assert(digits.take(0) =~= Seq::<char>::empty());
    while i < n
        invariant
            start <= i <= n,
            start < n,
            chars@ == s@,
            n == s@.len(),
            digits == s@.subrange(start as int, n as int),
            digits == unsigned_part(s@),
            forall|j: int| 0 <= j < i - start ==> is_digit(#[trigger] digits[j]),
            value == decimal_value(digits.take(i - start)),
            value <= u16::MAX,
        decreases n - i,
    {
        let u: u32 = chars[i] as u32;
        assert(digits[i - start] == s@[i as int]);
        if u < 0x30 || u > 0x39 {
            return None;
        }
        let next: u32 = value * 10 + (u - 0x30);
        proof {
            let longer = digits.take(i - start + 1);
            assert(longer.drop_last() =~= digits.take(i - start));
            assert(longer.last() == digits[i - start]);
        }
        if next > 0xFFFF {
            proof {
                if is_decimal(digits) {
                    lemma_decimal_value_grows(digits, i - start + 1);
                }
            }
            return None;
        }
        value = next;
        i += 1;
    }
    assert(digits.take(n - start) =~= digits);
    Some(value as u16)
}

} // verus!
