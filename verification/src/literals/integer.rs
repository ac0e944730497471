//! Integer literals: runs of digits with underscores between them, and the
//! decimal, binary, octal and hexadecimal literals made of them.
use vstd::prelude::*;
use vstd::utf8::encode_utf8;
use crate::error::{ErrorKind, ParseError, ParseResult, SpecResult, fail, leaves_suffix, result_view};
use crate::literals::integer_proofs::lemma_int_lit_is_well_formed;
use crate::literals::letter_and_digit::{Base, digit, is_decimal_digit, is_digit};
use crate::primitive::{consumed, one_of, tag};

verus! {

/// An integer literal, tagged with its base. Each variant holds the literal
/// exactly as it is written in the source: with its base prefix, where it
/// has one, and with its underscores.
#[derive(Debug, Clone, Copy, PartialEq, Eq)]
pub enum IntLit<'a> {
    DecimalLit(&'a str),
    BinaryLit(&'a str),
    OctalLit(&'a str),
    HexLit(&'a str),
}

/// The mathematical value of an [`IntLit`].
pub ghost enum IntLitView {
    DecimalLit(Seq<char>),
    BinaryLit(Seq<char>),
    OctalLit(Seq<char>),
    HexLit(Seq<char>),
}

impl<'a> DeepView for IntLit<'a> {
    type V = IntLitView;

    open spec fn deep_view(&self) -> IntLitView {
        match *self {
            IntLit::DecimalLit(text) => IntLitView::DecimalLit(text@),
            IntLit::BinaryLit(text) => IntLitView::BinaryLit(text@),
            IntLit::OctalLit(text) => IntLitView::OctalLit(text@),
            IntLit::HexLit(text) => IntLitView::HexLit(text@),
        }
    }
}

impl IntLitView {
    /// The literal as it is written.
    pub open spec fn text(self) -> Seq<char> {
        match self {
            IntLitView::DecimalLit(text) => text,
            IntLitView::BinaryLit(text) => text,
            IntLitView::OctalLit(text) => text,
            IntLitView::HexLit(text) => text,
        }
    }

    /// Whether the literal is written as a literal of its base has to be:
    /// with the prefix of the base, and with no underscore at the start or
    /// the end of its digits or next to another underscore. Every literal
    /// that [`int_lit`] hands back is written so.
    pub open spec fn well_formed(self) -> bool {
        match self {
            IntLitView::DecimalLit(text) => is_decimal_literal(text),
            IntLitView::BinaryLit(text) => is_based_literal(Base::Binary, text),
            IntLitView::OctalLit(text) => is_based_literal(Base::Octal, text),
            IntLitView::HexLit(text) => is_based_literal(Base::Hex, text),
        }
    }
}

impl<'a> IntLit<'a> {
    /// The literal as it is written.
    pub fn text(&self) -> (text: &'a str)
        ensures
            text@ == self.deep_view().text(),
    {
        match *self {
            IntLit::DecimalLit(text) => text,
            IntLit::BinaryLit(text) => text,
            IntLit::OctalLit(text) => text,
            IntLit::HexLit(text) => text,
        }
    }

    /// The number of bytes of the literal as it is written, in its UTF-8
    /// encoding.
    pub open spec fn spec_len(&self) -> nat {
        encode_utf8(self.deep_view().text()).len()
    }

    /// The number of bytes of the literal as it is written.
    pub fn len(&self) -> (n: usize)
        ensures
            n == self.spec_len() as usize,
    {
        self.text().len()
    }
}

/// Whether `s` starts with an underscore.
pub open spec fn starts_with_underscore(s: Seq<char>) -> bool {
    s.len() > 0 && s[0] == '_'
}

/// `s` without the underscore that starts it, if one does.
pub open spec fn skip_underscore(s: Seq<char>) -> Seq<char> {
    if starts_with_underscore(s) {
        s.skip(1)
    } else {
        s
    }
}

/// What is left of `s` behind the longest sequence of groups that starts it,
/// a group being one digit of `base` with at most one underscore in front.
pub open spec fn after_digits(base: Base, s: Seq<char>) -> Seq<char>
    decreases s.len(),
{
    if s.len() > 0 && is_digit(base, s[0]) {
        after_digits(base, s.skip(1))
    } else if s.len() > 1 && s[0] == '_' && is_digit(base, s[1]) {
        after_digits(base, s.skip(2))
    } else {
        s
    }
}

/// The part of `s` in front of its suffix `rest`.
pub open spec fn consumed_text(s: Seq<char>, rest: Seq<char>) -> Seq<char> {
    s.take(s.len() - rest.len())
}

/// A run of digits of `base`: one digit, then groups of one digit with at
/// most one underscore in front, as many as there are. The run must not be
/// followed by an underscore.
pub open spec fn spec_digits(base: Base, s: Seq<char>) -> SpecResult<Seq<char>> {
    if !(s.len() > 0 && is_digit(base, s[0])) {
        fail(s, ErrorKind::OneOf)
    } else {
        let rest = after_digits(base, s.skip(1));
        if starts_with_underscore(rest) {
            fail(rest, ErrorKind::Not)
        } else {
            Ok((rest, consumed_text(s, rest)))
        }
    }
}

/// The groups behind the first digit of a run end at a suffix of the input
/// that starts with no further group.
pub proof fn lemma_after_digits(base: Base, s: Seq<char>)
    ensures
        after_digits(base, s).is_suffix_of(s),
        after_digits(base, after_digits(base, s)) == after_digits(base, s),
        after_digits(base, s).len() > 0 ==> !is_digit(base, after_digits(base, s)[0]),
    decreases s.len(),
{
    if s.len() > 0 && is_digit(base, s[0]) {
        lemma_after_digits(base, s.skip(1));
    } else if s.len() > 1 && s[0] == '_' && is_digit(base, s[1]) {
        lemma_after_digits(base, s.skip(2));
    }
}

/// A successful run is not empty, is what the input starts with, and leaves
/// a suffix of the input that starts with neither a digit nor an underscore.
pub proof fn lemma_digits(base: Base, s: Seq<char>)
    ensures
        leaves_suffix(spec_digits(base, s), s),
        spec_digits(base, s) matches Ok((rest, text)) ==> {
            &&& rest.len() < s.len()
            &&& text + rest == s
            &&& text.len() > 0
            &&& !starts_with_underscore(rest)
            &&& rest.len() > 0 ==> !is_digit(base, rest[0])
        },
{
    if s.len() > 0 && is_digit(base, s[0]) {
        lemma_after_digits(base, s.skip(1));
        let rest = after_digits(base, s.skip(1));
        assert(consumed_text(s, rest) + rest =~= s);
    }
}

/// Whether `d` holds digits of `base` and underscores only.
pub open spec fn only_digits_and_underscores(base: Base, d: Seq<char>) -> bool {
    forall|i: int| 0 <= i < d.len() ==> is_digit(base, #[trigger] d[i]) || d[i] == '_'
}

/// Whether `d` is a well-formed digit run of `base`: digits and underscores
/// only, at least one character, no underscore at the start or at the end,
/// and no two underscores in a row.
pub open spec fn is_digit_run(base: Base, d: Seq<char>) -> bool {
    &&& only_digits_and_underscores(base, d)
    &&& d.len() > 0
    &&& d[0] != '_'
    &&& d[d.len() - 1] != '_'
    &&& forall|i: int| 0 <= i < d.len() - 1 ==> !(#[trigger] d[i] == '_' && d[i + 1] == '_')
}

/// Whether `text` is a decimal literal: the digit `0`, or a well-formed run
/// of decimal digits that does not start with `0`.
pub open spec fn is_decimal_literal(text: Seq<char>) -> bool {
    is_digit_run(Base::Decimal, text) && (text[0] != '0' || text.len() == 1)
}

/// Whether `text` is a literal with the prefix of `base`: a `0`, the letter
/// that marks the base, which only an octal literal may leave out, at most
/// one underscore, and a well-formed run of digits of the base.
pub open spec fn is_based_literal(base: Base, text: Seq<char>) -> bool {
    &&& text.len() > 0
    &&& text[0] == '0'
    &&& starts_with_marker(base, text.skip(1)) || base == Base::Octal
    &&& is_digit_run(base, behind_prefix(base, text))
}

/// Steps over the text `text`, a single character, if `s` starts with it.
fn step_over<'a>(text: &str, s: &'a str) -> (r: (&'a str, bool))
    requires
        text@.len() == 1,
    ensures
        r.1 == (s@.len() > 0 && s@[0] == text@[0]),
        r.0@ == (if r.1 { s@.skip(1) } else { s@ }),
        r.0@.is_suffix_of(s@),
{
    proof {
        if s@.len() > 0 {
            assert(s@[0] == s@.subrange(0, 1)[0]);
            if s@[0] == text@[0] {
                assert(text@ =~= s@.subrange(0, 1));
            }
        }
    }
    match tag(text, s) {
        Ok((rest, _)) => (rest, true),
        Err(_) => (s, false),
    }
}

/// Steps over the underscore that starts `s`, if one does.
fn underscore<'a>(s: &'a str) -> (r: (&'a str, bool))
    ensures
        r.1 == starts_with_underscore(s@),
        r.0@ == skip_underscore(s@),
        r.0@.is_suffix_of(s@),
{
    proof {
        reveal_strlit("_");
    }
    step_over("_", s)
}

/// Parses a run of digits of `base` in which single underscores may separate
/// the digits, and hands back the run as it is written.
///
/// The run is as long as it can be. It fails where `s` does not start with a
/// digit, and where an underscore follows the run: an underscore must stand
/// between two digits.
pub fn digits<'a>(base: Base, s: &'a str) -> (r: ParseResult<'a, &'a str>)
    ensures
        result_view(r) == spec_digits(base, s@),
        leaves_suffix(result_view(r), s@),
{
    let mut rest = match digit(base, s) {
        Ok((rest, _)) => rest,
        Err(e) => { return Err(e); },
    };
    loop
        invariant
            after_digits(base, rest@) == after_digits(base, s@.skip(1)),
            rest@.is_suffix_of(s@),
        ensures
            after_digits(base, rest@) == rest@,
        decreases rest@.len(),
    {
        let (group, _) = underscore(rest);
        match digit(base, group) {
            Ok((next, _)) => {
                assert(starts_with_underscore(rest@) ==> rest@.skip(1).skip(1) =~= rest@.skip(2));
                rest = next;
            },
            Err(_) => {
                break ;
            },
        }
    }
    proof {
        lemma_digits(base, s@);
    }
    match underscore(rest) {
        (_, true) => Err(ParseError { input: rest, kind: ErrorKind::Not }),
        (_, false) => Ok((rest, consumed(s, rest))),
    }
}

/// Parses a run of decimal digits, see [`digits`].
pub fn decimal_digits<'a>(s: &'a str) -> (r: ParseResult<'a, &'a str>)
    ensures
        result_view(r) == spec_digits(Base::Decimal, s@),
        leaves_suffix(result_view(r), s@),
{
    digits(Base::Decimal, s)
}

/// Parses a run of binary digits, see [`digits`].
pub fn binary_digits<'a>(s: &'a str) -> (r: ParseResult<'a, &'a str>)
    ensures
        result_view(r) == spec_digits(Base::Binary, s@),
        leaves_suffix(result_view(r), s@),
{
    digits(Base::Binary, s)
}

/// Parses a run of octal digits, see [`digits`].
pub fn octal_digits<'a>(s: &'a str) -> (r: ParseResult<'a, &'a str>)
    ensures
        result_view(r) == spec_digits(Base::Octal, s@),
        leaves_suffix(result_view(r), s@),
{
    digits(Base::Octal, s)
}

/// Parses a run of hexadecimal digits, see [`digits`].
pub fn hex_digits<'a>(s: &'a str) -> (r: ParseResult<'a, &'a str>)
    ensures
        result_view(r) == spec_digits(Base::Hex, s@),
        leaves_suffix(result_view(r), s@),
{
    digits(Base::Hex, s)
}

/// The end of a literal that started at `s` and reached `rest`: it must not
/// be followed by an underscore, and its value is the text in between.
pub open spec fn finish_literal(s: Seq<char>, rest: Seq<char>) -> SpecResult<Seq<char>> {
    if starts_with_underscore(rest) {
        fail(rest, ErrorKind::Not)
    } else {
        Ok((rest, consumed_text(s, rest)))
    }
}

/// What is left of `s` behind the longest sequence of groups that starts it,
/// a group being a run of decimal digits with at most one underscore in
/// front.
pub open spec fn after_digit_groups(s: Seq<char>) -> Seq<char>
    decreases s.len(),
{
    match spec_digits(Base::Decimal, skip_underscore(s)) {
        Ok((rest, _)) => {
            proof {
                lemma_digits(Base::Decimal, skip_underscore(s));
            }
            after_digit_groups(rest)
        },
        Err(_) => s,
    }
}

/// A decimal literal: the single digit `0`, which no decimal digit may
/// follow, or one of `1` to `9` and the digit groups behind it. The literal
/// must not be followed by an underscore.
pub open spec fn spec_decimal_lit(s: Seq<char>) -> SpecResult<Seq<char>> {
    if s.len() > 0 && s[0] == '0' && !(s.len() > 1 && is_decimal_digit(s[1])) {
        finish_literal(s, s.skip(1))
    } else if s.len() > 0 && '1' <= s[0] <= '9' {
        finish_literal(s, after_digit_groups(s.skip(1)))
    } else {
        fail(s, ErrorKind::OneOf)
    }
}

/// The digit groups of a decimal literal end at a suffix of the input.
pub proof fn lemma_after_digit_groups(s: Seq<char>)
    ensures
        after_digit_groups(s).is_suffix_of(s),
    decreases s.len(),
{
    let start = skip_underscore(s);
    lemma_digits(Base::Decimal, start);
    match spec_digits(Base::Decimal, start) {
        Ok((rest, _)) => {
            lemma_after_digit_groups(rest);
        },
        Err(_) => {},
    }
}

/// A successful decimal literal is not empty, is what the input starts with,
/// and leaves a suffix of the input.
pub proof fn lemma_decimal_lit(s: Seq<char>)
    ensures
        leaves_suffix(spec_decimal_lit(s), s),
        spec_decimal_lit(s) matches Ok((rest, text)) ==> {
            &&& rest.len() < s.len()
            &&& text + rest == s
            &&& !starts_with_underscore(rest)
        },
{
    if let Ok((rest, text)) = spec_decimal_lit(s) {
        let tail = s.skip(1);
        if s[0] == '0' && !(s.len() > 1 && is_decimal_digit(s[1])) {
            assert(rest == tail);
        } else {
            lemma_after_digit_groups(tail);
            assert(rest == after_digit_groups(tail));
            assert(rest.is_suffix_of(tail));
        }
        assert(tail.is_suffix_of(s));
        assert(rest.is_suffix_of(s));
        assert(text == consumed_text(s, rest));
        assert(text + rest =~= s);
    }
}

/// Parses a decimal literal and hands it back as it is written.
///
/// A literal is the single digit `0`, or starts with one of `1` to `9`,
/// which groups of decimal digits follow, each group a run as [`digits`]
/// takes it, with at most one underscore in front. A `0` that another decimal
/// digit follows is no decimal literal, and a literal that an underscore
/// follows is none either.
pub fn decimal_lit<'a>(s: &'a str) -> (r: ParseResult<'a, &'a str>)
    ensures
        result_view(r) == spec_decimal_lit(s@),
        leaves_suffix(result_view(r), s@),
{
    proof {
        reveal_strlit("0");
        reveal_strlit("123456789");
        lemma_decimal_lit(s@);
        if s@.len() > 0 && '1' <= s@[0] <= '9' {
            assert("123456789"@[s@[0] as int - '1' as int] == s@[0]);
        }
    }
    let (after_zero, zero) = step_over("0", s);
    let rest = if zero && digit(Base::Decimal, after_zero).is_err() {
        after_zero
    } else {
        let mut rest = match one_of("123456789", s) {
            Ok((rest, _)) => rest,
            Err(_) => { return Err(ParseError { input: s, kind: ErrorKind::OneOf }); },
        };
        loop
            invariant
                after_digit_groups(rest@) == after_digit_groups(s@.skip(1)),
                rest@.is_suffix_of(s@),
            ensures
                after_digit_groups(rest@) == rest@,
            decreases rest@.len(),
        {
            let (group, _) = underscore(rest);
            proof {
                lemma_digits(Base::Decimal, group@);
            }
            match digits(Base::Decimal, group) {
                Ok((next, _)) => {
                    rest = next;
                },
                Err(_) => {
                    break ;
                },
            }
        }
        rest
    };
    match underscore(rest) {
        (_, true) => Err(ParseError { input: rest, kind: ErrorKind::Not }),
        (_, false) => Ok((rest, consumed(s, rest))),
    }
}

/// Whether `c` is a letter that marks the base `base` behind the leading `0`
/// of a literal. Decimal literals have no such letter.
pub open spec fn is_marker(base: Base, c: char) -> bool {
    match base {
        Base::Binary => c == 'b' || c == 'B',
        Base::Octal => c == 'o' || c == 'O',
        Base::Hex => c == 'x' || c == 'X',
        Base::Decimal => false,
    }
}

/// Whether `s` starts with a letter that marks `base`.
pub open spec fn starts_with_marker(base: Base, s: Seq<char>) -> bool {
    s.len() > 0 && is_marker(base, s[0])
}

/// The digits of `s` behind the prefix of a literal of the base `base`:
/// behind the `0`, the letter that marks the base, if there is one, and the
/// underscore, if there is one.
pub open spec fn behind_prefix(base: Base, s: Seq<char>) -> Seq<char> {
    skip_underscore(
        if starts_with_marker(base, s.skip(1)) {
            s.skip(2)
        } else {
            s.skip(1)
        },
    )
}


/// A literal with a base prefix: `0`, the letter that marks `base`, at most
/// one underscore, and a run of digits of `base`. Only an octal literal may
/// leave the letter out.
pub open spec fn spec_based_lit(base: Base, s: Seq<char>) -> SpecResult<Seq<char>> {
    if !(s.len() > 0 && s[0] == '0') {
        fail(s, ErrorKind::Tag)
    } else if !starts_with_marker(base, s.skip(1)) && base != Base::Octal {
        fail(s.skip(1), ErrorKind::Tag)
    } else {
        match spec_digits(base, behind_prefix(base, s)) {
            Ok((rest, _)) => Ok((rest, consumed_text(s, rest))),
            Err(e) => Err(e),
        }
    }
}

/// A successful literal with a base prefix is what the input starts with,
/// has at least two characters, and leaves a suffix of the input that starts
/// with neither a digit of the base nor an underscore.
pub proof fn lemma_based_lit(base: Base, s: Seq<char>)
    ensures
        leaves_suffix(spec_based_lit(base, s), s),
        spec_based_lit(base, s) matches Ok((rest, text)) ==> {
            &&& rest.len() + 2 <= s.len()
            &&& text + rest == s
            &&& !starts_with_underscore(rest)
            &&& rest.len() > 0 ==> !is_digit(base, rest[0])
        },
{
    if s.len() > 0 && s[0] == '0' {
        lemma_digits(base, behind_prefix(base, s));
        match spec_based_lit(base, s) {
            Ok((rest, text)) => {
                assert(text + rest =~= s);
            },
            Err(_) => {},
        }
    }
}

/// Steps over the letter that marks `base`, if `s` starts with one.
fn marker<'a>(base: Base, s: &'a str) -> (r: (&'a str, bool))
    ensures
        r.1 == starts_with_marker(base, s@),
        r.0@ == (if starts_with_marker(base, s@) { s@.skip(1) } else { s@ }),
        r.0@.is_suffix_of(s@),
{
    proof {
        reveal_strlit("b");
        reveal_strlit("B");
        reveal_strlit("o");
        reveal_strlit("O");
        reveal_strlit("x");
        reveal_strlit("X");
    }
    let (lower, upper) = match base {
        Base::Binary => ("b", "B"),
        Base::Octal => ("o", "O"),
        Base::Hex => ("x", "X"),
        Base::Decimal => { return (s, false); },
    };
    let (rest, found) = step_over(lower, s);
    if found {
        (rest, true)
    } else {
        step_over(upper, s)
    }
}

/// Parses a literal with a base prefix and hands it back as it is written,
/// prefix and underscores included.
pub(crate) fn based_lit<'a>(base: Base, s: &'a str) -> (r: ParseResult<'a, &'a str>)
    ensures
        result_view(r) == spec_based_lit(base, s@),
        leaves_suffix(result_view(r), s@),
{
    proof {
        reveal_strlit("0");
        lemma_based_lit(base, s@);
    }
    let (after_zero, zero) = step_over("0", s);
    if !zero {
        return Err(ParseError { input: s, kind: ErrorKind::Tag });
    }
    let (unmarked, marked) = marker(base, after_zero);
    if !marked {
        match base {
            Base::Octal => {},
            _ => { return Err(ParseError { input: after_zero, kind: ErrorKind::Tag }); },
        }
    }
    assert(marked ==> unmarked@ =~= s@.skip(2));
    let (start, _) = underscore(unmarked);
    match digits(base, start) {
        Ok((rest, _)) => Ok((rest, consumed(s, rest))),
        Err(e) => Err(e),
    }
}

/// Parses a binary literal: `0b` or `0B`, at most one underscore, and a run
/// of binary digits. Hands it back as it is written.
pub fn binary_lit<'a>(s: &'a str) -> (r: ParseResult<'a, &'a str>)
    ensures
        result_view(r) == spec_based_lit(Base::Binary, s@),
        leaves_suffix(result_view(r), s@),
{
    based_lit(Base::Binary, s)
}

/// Parses an octal literal: `0`, which `o` or `O` may follow, at most one
/// underscore, and a run of octal digits. Hands it back as it is written.
pub fn octal_lit<'a>(s: &'a str) -> (r: ParseResult<'a, &'a str>)
    ensures
        result_view(r) == spec_based_lit(Base::Octal, s@),
        leaves_suffix(result_view(r), s@),
{
    based_lit(Base::Octal, s)
}

/// Parses a hexadecimal literal: `0x` or `0X`, at most one underscore, and a
/// run of hexadecimal digits. Hands it back as it is written.
pub fn hex_lit<'a>(s: &'a str) -> (r: ParseResult<'a, &'a str>)
    ensures
        result_view(r) == spec_based_lit(Base::Hex, s@),
        leaves_suffix(result_view(r), s@),
{
    based_lit(Base::Hex, s)
}

/// An integer literal: the first of a hexadecimal, a binary, an octal and a
/// decimal literal that `s` starts with. The literals with a prefix come
/// first, since a decimal literal would stop behind their leading `0`.
pub open spec fn spec_int_lit(s: Seq<char>) -> SpecResult<IntLitView> {
    if let Ok((rest, text)) = spec_based_lit(Base::Hex, s) {
        Ok((rest, IntLitView::HexLit(text)))
    } else if let Ok((rest, text)) = spec_based_lit(Base::Binary, s) {
        Ok((rest, IntLitView::BinaryLit(text)))
    } else if let Ok((rest, text)) = spec_based_lit(Base::Octal, s) {
        Ok((rest, IntLitView::OctalLit(text)))
    } else {
        match spec_decimal_lit(s) {
            Ok((rest, text)) => Ok((rest, IntLitView::DecimalLit(text))),
            Err(e) => Err(e),
        }
    }
}

/// Parses an integer literal of any base and tags it with the base.
///
/// The hexadecimal, binary and octal forms are tried before the decimal
/// one. Where none matches, the failure is that of the decimal form.
pub fn int_lit<'a>(s: &'a str) -> (r: ParseResult<'a, IntLit<'a>>)
    ensures
        result_view(r) == spec_int_lit(s@),
        leaves_suffix(result_view(r), s@),
        r matches Ok((_, lit)) ==> lit.deep_view().well_formed(),
{
    proof {
        lemma_int_lit_is_well_formed(s@);
    }
    if let Ok((rest, text)) = hex_lit(s) {
        return Ok((rest, IntLit::HexLit(text)));
    }
    if let Ok((rest, text)) = binary_lit(s) {
        return Ok((rest, IntLit::BinaryLit(text)));
    }
    if let Ok((rest, text)) = octal_lit(s) {
        return Ok((rest, IntLit::OctalLit(text)));
    }
    match decimal_lit(s) {
        Ok((rest, text)) => Ok((rest, IntLit::DecimalLit(text))),
        Err(e) => Err(e),
    }
}

} // verus!
