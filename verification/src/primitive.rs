//! The parsers of nom that read the characters, each with the contract that
//! the rest of the crate relies on, and the character classes that the
//! contracts speak of.
use vstd::prelude::*;
use vstd::string::StrSliceExecFns;

verus! {

/// `nom::Err`, the failure of a nom parser. It is carried from the call to
/// the place where the failure of this crate is made, and never looked into.
#[verifier::external_type_specification]
#[verifier::external_body]
#[verifier::reject_recursive_types(E)]
pub struct ExNomErr<E>(nom::Err<E>);

/// `nom::error::Error`, the position and the code inside a `nom::Err`. It
/// is never looked into either.
#[verifier::external_type_specification]
#[verifier::external_body]
#[verifier::reject_recursive_types(I)]
pub struct ExNomError<I>(nom::error::Error<I>);

/// The character classes that the lexical rules scan runs of.
pub ghost enum CharClass {
    /// ASCII letters and digits.
    AlphaNumeric,
    /// The space and the horizontal tab.
    Space,
    /// Everything but the double quote.
    StringChar,
}

/// Whether `c` is an ASCII letter or an ASCII digit.
pub open spec fn is_alphanumeric(c: char) -> bool {
    ('0' <= c <= '9') || ('a' <= c <= 'z') || ('A' <= c <= 'Z')
}

/// Whether `c` is a space or a horizontal tab.
pub open spec fn is_space(c: char) -> bool {
    c == ' ' || c == '\t'
}

/// Whether `c` may stand inside a string literal.
pub open spec fn is_string_char(c: char) -> bool {
    c != '"'
}

/// Whether `c` belongs to the class `class`.
pub open spec fn in_class(class: CharClass, c: char) -> bool {
    match class {
        CharClass::AlphaNumeric => is_alphanumeric(c),
        CharClass::Space => is_space(c),
        CharClass::StringChar => is_string_char(c),
    }
}

/// The number of leading characters of `s` that belong to `class`.
pub open spec fn run_len(class: CharClass, s: Seq<char>) -> nat
    decreases s.len(),
{
    if s.len() > 0 && in_class(class, s[0]) {
        1 + run_len(class, s.skip(1))
    } else {
        0
    }
}

/// A run never exceeds the input, consists of members of the class only, and
/// stops at the end of the input or in front of a character outside the class.
pub proof fn lemma_run_len(class: CharClass, s: Seq<char>)
    ensures
        run_len(class, s) <= s.len(),
        forall|i: int| 0 <= i < run_len(class, s) ==> in_class(class, #[trigger] s[i]),
        run_len(class, s) < s.len() ==> !in_class(class, s[run_len(class, s) as int]),
    decreases s.len(),
{
    if s.len() > 0 && in_class(class, s[0]) {
        let t = s.skip(1);
        lemma_run_len(class, t);
        assert forall|i: int| 0 <= i < run_len(class, s) implies in_class(
            class,
            #[trigger] s[i],
        ) by {
            if i > 0 {
                assert(s[i] == t[i - 1]);
            }
        }
        if run_len(class, s) < s.len() {
            assert(s[run_len(class, s) as int] == t[run_len(class, t) as int]);
        }
    }
}

/// `nom::bytes::complete::tag`: succeeds exactly when `text` starts `s`, and
/// then hands back the matched start of `s` and what follows it.
#[verifier::external_body]
pub(crate) fn tag<'a>(text: &str, s: &'a str) -> (r: Result<
    (&'a str, &'a str),
    nom::Err<nom::error::Error<&'a str>>,
>)
    ensures
        r.is_ok() <==> text@.is_prefix_of(s@),
        r matches Ok((rest, found)) ==> found@ == text@ && rest@ == s@.skip(text@.len() as int),
{
    nom::bytes::complete::tag(text)(s)
}

/// `nom::character::complete::one_of`: succeeds exactly when `s` has a first
/// character and `list` holds it, and then hands back that character and
/// what follows it.
#[verifier::external_body]
pub(crate) fn one_of<'a>(list: &str, s: &'a str) -> (r: Result<
    (&'a str, char),
    nom::Err<nom::error::Error<&'a str>>,
>)
    ensures
        r.is_ok() <==> (s@.len() > 0 && list@.contains(s@[0])),
        r matches Ok((rest, c)) ==> c == s@[0] && rest@ == s@.skip(1),
{
    nom::character::complete::one_of(list)(s)
}

/// `nom::character::complete::char`: succeeds exactly when `c` is the first
/// character of `s`, and then hands back `c` and what follows it.
#[verifier::external_body]
pub(crate) fn one_char<'a>(c: char, s: &'a str) -> (r: Result<
    (&'a str, char),
    nom::Err<nom::error::Error<&'a str>>,
>)
    ensures
        r.is_ok() <==> (s@.len() > 0 && s@[0] == c),
        r matches Ok((rest, found)) ==> found == c && rest@ == s@.skip(1),
{
    nom::character::complete::char(c)(s)
}

/// `nom::character::complete::anychar`: succeeds exactly when `s` is not
/// empty, and then hands back its first character and what follows it.
#[verifier::external_body]
pub(crate) fn anychar<'a>(s: &'a str) -> (r: Result<
    (&'a str, char),
    nom::Err<nom::error::Error<&'a str>>,
>)
    ensures
        r.is_ok() <==> (s@.len() > 0),
        r matches Ok((rest, c)) ==> c == s@[0] && rest@ == s@.skip(1),
{
    nom::character::complete::anychar(s)
}

/// `nom::character::complete::alphanumeric1`: splits `s` behind its leading
/// run of ASCII letters and digits, and fails exactly when that run is empty.
#[verifier::external_body]
pub(crate) fn alphanumeric1<'a>(s: &'a str) -> (r: Result<
    (&'a str, &'a str),
    nom::Err<nom::error::Error<&'a str>>,
>)
    ensures
        r.is_ok() <==> (run_len(CharClass::AlphaNumeric, s@) > 0),
        r matches Ok((rest, found)) ==> (found@ == s@.take(run_len(CharClass::AlphaNumeric, s@) as int)
            && rest@ == s@.skip(run_len(CharClass::AlphaNumeric, s@) as int)),
{
    nom::character::complete::alphanumeric1(s)
}

/// `nom::character::complete::space0`: splits `s` behind its leading run of
/// spaces and tabs; it never fails.
#[verifier::external_body]
pub(crate) fn space0<'a>(s: &'a str) -> (r: Result<
    (&'a str, &'a str),
    nom::Err<nom::error::Error<&'a str>>,
>)
    ensures
        r.is_ok(),
        r matches Ok((rest, found)) ==> (found@ == s@.take(run_len(CharClass::Space, s@) as int)
            && rest@ == s@.skip(run_len(CharClass::Space, s@) as int)),
{
    nom::character::complete::space0(s)
}

/// Whether `c` may stand inside a string literal: every character but the
/// double quote may.
pub(crate) fn accepts_string_char(c: char) -> (r: bool)
    ensures
        r == is_string_char(c),
{
    c != '"'
}

/// `nom::bytes::streaming::take_while` with [`accepts_string_char`] as its
/// predicate: splits `s` in front of its first double quote, and fails
/// exactly when `s` holds none.
#[verifier::external_body]
pub(crate) fn take_string_chars<'a>(s: &'a str) -> (r: Result<
    (&'a str, &'a str),
    nom::Err<nom::error::Error<&'a str>>,
>)
    ensures
        r.is_ok() <==> (run_len(CharClass::StringChar, s@) < s@.len()),
        r matches Ok((rest, found)) ==> (found@ == s@.take(run_len(CharClass::StringChar, s@) as int)
            && rest@ == s@.skip(run_len(CharClass::StringChar, s@) as int)),
{
    nom::bytes::streaming::take_while(|c: char| accepts_string_char(c))(s)
}

/// Equality of two string slices as `str`'s `PartialEq` decides it: they are
/// equal exactly when they hold the same characters.
#[verifier::external_body]
pub(crate) fn same_text(a: &str, b: &str) -> (r: bool)
    ensures
        r == (a@ == b@),
{
    a == b
}

/// The start of `s` that a parser consumed when it left `rest`.
pub(crate) fn consumed<'a>(s: &'a str, rest: &str) -> (r: &'a str)
    requires
        rest@.len() <= s@.len(),
    ensures
        r@ == s@.take(s@.len() - rest@.len()),
{
    let total: usize = s.unicode_len();
    let left: usize = rest.unicode_len();
    s.substring_char(0, total - left)
}

} // verus!
