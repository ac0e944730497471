//! What holds of every integer literal that is parsed: which texts are
//! accepted, that an accepted literal is well formed, and that it is accepted
//! again in front of any text that cannot continue it.
use vstd::prelude::*;
use crate::error::SpecResult;
use crate::literals::integer::{
    after_digit_groups, after_digits, behind_prefix, consumed_text, is_based_literal,
    is_decimal_literal, is_digit_run, lemma_after_digit_groups, lemma_after_digits,
    lemma_based_lit, lemma_decimal_lit, lemma_digits, only_digits_and_underscores,
    skip_underscore, spec_based_lit, spec_decimal_lit, spec_digits, spec_int_lit,
    starts_with_marker, starts_with_underscore,
};
use crate::literals::letter_and_digit::{Base, is_digit};

verus! {

/// Whether every underscore of `t` stands directly in front of a digit of
/// `base`.
pub open spec fn underscores_precede_digits(base: Base, t: Seq<char>) -> bool {
    forall|i: int|
        0 <= i < t.len() && #[trigger] t[i] == '_' ==> i + 1 < t.len() && is_digit(base, t[i + 1])
}

/// Over digits and underscores, the groups behind a first digit reach the
/// end of the input exactly when every underscore precedes a digit; else
/// they stop in front of an underscore.
proof fn lemma_after_digits_of_run(base: Base, t: Seq<char>)
    requires
        only_digits_and_underscores(base, t),
    ensures
        underscores_precede_digits(base, t) ==> after_digits(base, t).len() == 0,
        !underscores_precede_digits(base, t) ==> starts_with_underscore(after_digits(base, t)),
    decreases t.len(),
{
    if t.len() > 0 && is_digit(base, t[0]) {
        let u = t.skip(1);
        assert(only_digits_and_underscores(base, u)) by {
            assert forall|i: int| 0 <= i < u.len() implies is_digit(base, #[trigger] u[i]) || u[i]
                == '_' by {
                assert(u[i] == t[i + 1]);
            }
        }
        lemma_after_digits_of_run(base, u);
        if underscores_precede_digits(base, t) {
            assert forall|i: int| 0 <= i < u.len() && #[trigger] u[i] == '_' implies i + 1
                < u.len() && is_digit(base, u[i + 1]) by {
                assert(t[i + 1] == '_');
            }
        } else {
            let i = choose|i: int|
                0 <= i < t.len() && #[trigger] t[i] == '_' && !(i + 1 < t.len() && is_digit(
                    base,
                    t[i + 1],
                ));
            assert(u[i - 1] == '_');
        }
    } else if t.len() > 1 && t[0] == '_' && is_digit(base, t[1]) {
        let u = t.skip(2);
        assert(only_digits_and_underscores(base, u)) by {
            assert forall|i: int| 0 <= i < u.len() implies is_digit(base, #[trigger] u[i]) || u[i]
                == '_' by {
                assert(u[i] == t[i + 2]);
            }
        }
        lemma_after_digits_of_run(base, u);
        if underscores_precede_digits(base, t) {
            assert forall|i: int| 0 <= i < u.len() && #[trigger] u[i] == '_' implies i + 1
                < u.len() && is_digit(base, u[i + 1]) by {
                assert(t[i + 2] == '_');
            }
        } else {
            let i = choose|i: int|
                0 <= i < t.len() && #[trigger] t[i] == '_' && !(i + 1 < t.len() && is_digit(
                    base,
                    t[i + 1],
                ));
            assert(i >= 2);
            assert(u[i - 2] == '_');
        }
    } else if t.len() > 0 {
        assert(t[0] == '_');
    }
}

/// Over digits and underscores, the parser of digit runs accepts exactly
/// the well-formed runs, and each of them whole: it hands the run back and
/// leaves nothing. A run with an underscore at its start, at its end or
/// next to another underscore fails.
pub proof fn lemma_digits_accepts_exactly_digit_runs(base: Base, d: Seq<char>)
    requires
        only_digits_and_underscores(base, d),
    ensures
        is_digit_run(base, d) ==> spec_digits(base, d) == accepted(Seq::empty(), d),
        !is_digit_run(base, d) ==> spec_digits(base, d) is Err,
{
    if d.len() > 0 && is_digit(base, d[0]) {
        let t = d.skip(1);
        assert(only_digits_and_underscores(base, t)) by {
            assert forall|i: int| 0 <= i < t.len() implies is_digit(base, #[trigger] t[i]) || t[i]
                == '_' by {
                assert(t[i] == d[i + 1]);
            }
        }
        lemma_after_digits_of_run(base, t);
        if is_digit_run(base, d) {
            assert forall|i: int| 0 <= i < t.len() && #[trigger] t[i] == '_' implies i + 1
                < t.len() && is_digit(base, t[i + 1]) by {
                assert(d[i + 1] == '_');
                assert(t[i + 1] == d[i + 2]);
            }
            assert(after_digits(base, t) =~= Seq::<char>::empty());
            assert(consumed_text(d, after_digits(base, t)) =~= d);
        } else {
            if underscores_precede_digits(base, t) {
                if d[d.len() - 1] == '_' {
                    assert(t[t.len() - 1] == '_');
                } else {
                    let i = choose|i: int|
                        0 <= i < d.len() - 1 && #[trigger] d[i] == '_' && d[i + 1] == '_';
                    assert(t[i - 1] == '_');
                    assert(t[i] == '_');
                }
            }
        }
    } else if d.len() > 0 {
        assert(d[0] == '_');
    }
}

/// Whether a digit run of `base` that has ended could go on into `rest`:
/// `rest` starts with a digit of the base or with an underscore.
pub open spec fn continues_run(base: Base, rest: Seq<char>) -> bool {
    rest.len() > 0 && (is_digit(base, rest[0]) || rest[0] == '_')
}

/// With what they consumed placed in front of a text that cannot continue a
/// run, the groups behind a first digit consume the same again.
proof fn lemma_after_digits_replace_rest(base: Base, s: Seq<char>, rest: Seq<char>)
    requires
        !continues_run(base, rest),
    ensures
        after_digits(base, consumed_text(s, after_digits(base, s)) + rest) == rest,
    decreases s.len(),
{
    let left = after_digits(base, s);
    let joined = consumed_text(s, left) + rest;
    lemma_after_digits(base, s);
    if s.len() > 0 && is_digit(base, s[0]) {
        let u = s.skip(1);
        lemma_after_digits(base, u);
        lemma_after_digits_replace_rest(base, u, rest);
        assert(joined[0] == s[0]);
        assert(joined.skip(1) =~= consumed_text(u, left) + rest);
    } else if s.len() > 1 && s[0] == '_' && is_digit(base, s[1]) {
        let u = s.skip(2);
        lemma_after_digits(base, u);
        lemma_after_digits_replace_rest(base, u, rest);
        assert(joined[0] == s[0]);
        assert(joined[1] == s[1]);
        assert(joined.skip(2) =~= consumed_text(u, left) + rest);
    } else {
        assert(joined =~= rest);
    }
}

/// The result of a parser that took all of `text` and left `rest`.
pub open spec fn accepted(rest: Seq<char>, text: Seq<char>) -> SpecResult<Seq<char>> {
    Ok((rest, text))
}

/// A digit run that was accepted is accepted again, and whole, when it
/// stands alone and when it is followed by any text that cannot continue it.
pub proof fn lemma_digits_round_trip(base: Base, s: Seq<char>, rest: Seq<char>)
    requires
        spec_digits(base, s) is Ok,
        !continues_run(base, rest),
    ensures
        spec_digits(base, spec_digits(base, s)->Ok_0.1) == accepted(
            Seq::empty(),
            spec_digits(base, s)->Ok_0.1,
        ),
        spec_digits(base, spec_digits(base, s)->Ok_0.1 + rest) == accepted(
            rest,
            spec_digits(base, s)->Ok_0.1,
        ),
{
    let text = spec_digits(base, s)->Ok_0.1;
    lemma_digits_followed(base, s, rest);
    lemma_digits_followed(base, s, Seq::empty());
    assert(text + Seq::<char>::empty() =~= text);
}

/// A digit run that was accepted is accepted again, and whole, when it is
/// followed by any text that cannot continue it.
proof fn lemma_digits_followed(base: Base, s: Seq<char>, rest: Seq<char>)
    requires
        spec_digits(base, s) is Ok,
        !continues_run(base, rest),
    ensures
        spec_digits(base, spec_digits(base, s)->Ok_0.1 + rest) == accepted(
            rest,
            spec_digits(base, s)->Ok_0.1,
        ),
{
    let left = after_digits(base, s.skip(1));
    let text = consumed_text(s, left);
    let joined = text + rest;
    lemma_after_digits(base, s.skip(1));
    lemma_after_digits_replace_rest(base, s.skip(1), rest);
    assert(joined[0] == s[0]);
    assert(joined.skip(1) =~= consumed_text(s.skip(1), left) + rest);
    assert(consumed_text(joined, rest) =~= text);
}

/// With what they consumed placed in front of a text that cannot continue a
/// run, the digit groups of a decimal literal consume the same again.
proof fn lemma_after_digit_groups_replace_rest(s: Seq<char>, rest: Seq<char>)
    requires
        !continues_run(Base::Decimal, rest),
    ensures
        after_digit_groups(consumed_text(s, after_digit_groups(s)) + rest) == rest,
    decreases s.len(),
{
    let base = Base::Decimal;
    let left = after_digit_groups(s);
    let joined = consumed_text(s, left) + rest;
    let start = skip_underscore(s);
    lemma_after_digit_groups(s);
    lemma_digits(base, start);
    match spec_digits(base, start) {
        Ok((next, text)) => {
            lemma_after_digit_groups(next);
            lemma_after_digit_groups_replace_rest(next, rest);
            let tail = consumed_text(next, left) + rest;
            assert(!continues_run(base, tail)) by {
                if consumed_text(next, left).len() > 0 {
                    assert(tail[0] == next[0]);
                }
            }
            lemma_digits_followed(base, start, tail);
            assert(text + tail =~= skip_underscore(joined)) by {
                assert(text + next == start);
                if starts_with_underscore(s) {
                    assert(joined[0] == s[0]);
                } else {
                    assert(joined[0] == s[0]);
                }
            }
        },
        Err(_) => {
            assert(joined =~= rest);
            lemma_digits(base, skip_underscore(rest));
        },
    }
}

/// A decimal literal that was accepted is accepted again, and whole, when it
/// stands alone and when it is followed by any text that cannot continue it.
pub proof fn lemma_decimal_lit_round_trip(s: Seq<char>, rest: Seq<char>)
    requires
        spec_decimal_lit(s) is Ok,
        !continues_run(Base::Decimal, rest),
    ensures
        spec_decimal_lit(spec_decimal_lit(s)->Ok_0.1) == accepted(
            Seq::empty(),
            spec_decimal_lit(s)->Ok_0.1,
        ),
        spec_decimal_lit(spec_decimal_lit(s)->Ok_0.1 + rest) == accepted(
            rest,
            spec_decimal_lit(s)->Ok_0.1,
        ),
{
    let text = spec_decimal_lit(s)->Ok_0.1;
    lemma_decimal_lit_followed(s, rest);
    lemma_decimal_lit_followed(s, Seq::empty());
    assert(text + Seq::<char>::empty() =~= text);
}

/// A decimal literal that was accepted is accepted again, and whole, when it
/// is followed by any text that cannot continue it.
proof fn lemma_decimal_lit_followed(s: Seq<char>, rest: Seq<char>)
    requires
        spec_decimal_lit(s) is Ok,
        !continues_run(Base::Decimal, rest),
    ensures
        spec_decimal_lit(spec_decimal_lit(s)->Ok_0.1 + rest) == accepted(
            rest,
            spec_decimal_lit(s)->Ok_0.1,
        ),
{
    let text = spec_decimal_lit(s)->Ok_0.1;
    let joined = text + rest;
    lemma_decimal_lit(s);
    assert(joined[0] == s[0]);
    if s[0] == '0' && !(s.len() > 1 && crate::literals::letter_and_digit::is_decimal_digit(s[1])) {
        assert(text =~= s.take(1));
        assert(joined.skip(1) =~= rest);
        assert(consumed_text(joined, rest) =~= text);
    } else {
        let left = after_digit_groups(s.skip(1));
        lemma_after_digit_groups(s.skip(1));
        lemma_after_digit_groups_replace_rest(s.skip(1), rest);
        assert(joined.skip(1) =~= consumed_text(s.skip(1), left) + rest);
        assert(consumed_text(joined, rest) =~= text);
    }
}

/// A binary, octal or hexadecimal literal that was accepted is accepted
/// again, and whole, when it stands alone and when it is followed by any
/// text that cannot continue it.
pub proof fn lemma_based_lit_round_trip(base: Base, s: Seq<char>, rest: Seq<char>)
    requires
        spec_based_lit(base, s) is Ok,
        !continues_run(base, rest),
    ensures
        spec_based_lit(base, spec_based_lit(base, s)->Ok_0.1) == accepted(
            Seq::empty(),
            spec_based_lit(base, s)->Ok_0.1,
        ),
        spec_based_lit(base, spec_based_lit(base, s)->Ok_0.1 + rest) == accepted(
            rest,
            spec_based_lit(base, s)->Ok_0.1,
        ),
{
    let text = spec_based_lit(base, s)->Ok_0.1;
    lemma_based_lit_followed(base, s, rest);
    lemma_based_lit_followed(base, s, Seq::empty());
    assert(text + Seq::<char>::empty() =~= text);
}

/// Two texts that start with the same literal of the base `base`, up to
/// and with its first digit, have the same prefix of a literal.
proof fn lemma_same_prefix(base: Base, s: Seq<char>, t: Seq<char>)
    requires
        spec_based_lit(base, s) is Ok,
        behind_prefix(base, s).len() < s.len(),
        t.len() > s.len() - behind_prefix(base, s).len(),
        forall|i: int| 0 <= i <= s.len() - behind_prefix(base, s).len() ==> t[i] == s[i],
    ensures
        t[0] == '0',
        starts_with_marker(base, t.skip(1)) == starts_with_marker(base, s.skip(1)),
        behind_prefix(base, t) == t.skip(s.len() - behind_prefix(base, s).len()),
{
    assert(s.skip(1)[0] == s[1]);
    assert(t.skip(1)[0] == t[1]);
    if starts_with_marker(base, s.skip(1)) {
        assert(s.skip(2)[0] == s[2]);
        assert(t.skip(2)[0] == t[2]);
        if starts_with_underscore(s.skip(2)) {
            assert(t.skip(2).skip(1) =~= t.skip(3));
        }
    } else {
        if starts_with_underscore(s.skip(1)) {
            assert(t.skip(1).skip(1) =~= t.skip(2));
        }
    }
}

/// A literal with a base prefix that was accepted is accepted again, and
/// whole, when it is followed by any text that cannot continue it.
proof fn lemma_based_lit_followed(base: Base, s: Seq<char>, rest: Seq<char>)
    requires
        spec_based_lit(base, s) is Ok,
        !continues_run(base, rest),
    ensures
        spec_based_lit(base, spec_based_lit(base, s)->Ok_0.1 + rest) == accepted(
            rest,
            spec_based_lit(base, s)->Ok_0.1,
        ),
{
    let text = spec_based_lit(base, s)->Ok_0.1;
    let left = spec_based_lit(base, s)->Ok_0.0;
    let joined = text + rest;
    let start = behind_prefix(base, s);
    let run = spec_digits(base, start)->Ok_0.1;
    let k = s.len() - start.len();
    assert(start.is_suffix_of(s) && 1 <= k <= 3 && run + left == start && text + left == s) by {
        lemma_based_lit(base, s);
        lemma_digits(base, start);
    }
    assert(spec_digits(base, run + rest) == accepted(rest, run)) by {
        lemma_digits_followed(base, start, rest);
    }
    assert(run.len() > 0 && text.len() == k + run.len()) by {
        lemma_digits(base, start);
    }
    assert forall|i: int| 0 <= i <= k implies joined[i] == s[i] by {
        assert(joined[i] == text[i]);
    }
    lemma_same_prefix(base, s, joined);
    assert(joined.skip(k) =~= run + rest);
    assert(consumed_text(joined, rest) =~= text);
}

/// Whether `t` can follow a digit inside a digit run of `base`: it holds
/// digits and underscores only, and each underscore precedes a digit.
pub open spec fn is_run_tail(base: Base, t: Seq<char>) -> bool {
    only_digits_and_underscores(base, t) && underscores_precede_digits(base, t)
}

/// What can follow a digit inside a run, twice over, can follow it too.
proof fn lemma_run_tail_concat(base: Base, a: Seq<char>, b: Seq<char>)
    requires
        is_run_tail(base, a),
        is_run_tail(base, b),
    ensures
        is_run_tail(base, a + b),
{
    let joined = a + b;
    assert forall|i: int| 0 <= i < joined.len() implies is_digit(base, #[trigger] joined[i])
        || joined[i] == '_' by {
        if i < a.len() {
            assert(joined[i] == a[i]);
        } else {
            assert(joined[i] == b[i - a.len()]);
        }
    }
    assert forall|i: int| 0 <= i < joined.len() && #[trigger] joined[i] == '_' implies i + 1
        < joined.len() && is_digit(base, joined[i + 1]) by {
        if i < a.len() {
            assert(a[i] == '_');
            assert(joined[i + 1] == a[i + 1]);
        } else {
            assert(b[i - a.len()] == '_');
            assert(joined[i + 1] == b[i + 1 - a.len()]);
        }
    }
}

/// A digit with what can follow a digit inside a run is a well-formed run,
/// and a well-formed run can itself follow a digit.
proof fn lemma_digit_and_tail(base: Base, d: Seq<char>)
    requires
        d.len() > 0,
        is_digit(base, d[0]),
        is_run_tail(base, d.skip(1)),
    ensures
        is_digit_run(base, d),
        is_run_tail(base, d),
{
    let t = d.skip(1);
    assert forall|i: int| 0 <= i < d.len() implies is_digit(base, #[trigger] d[i]) || d[i]
        == '_' by {
        if i > 0 {
            assert(d[i] == t[i - 1]);
        }
    }
    assert forall|i: int| 0 <= i < d.len() && #[trigger] d[i] == '_' implies i + 1 < d.len()
        && is_digit(base, d[i + 1]) by {
        assert(t[i - 1] == '_');
        assert(d[i + 1] == t[i]);
    }
    if d.len() > 1 {
        assert(d[d.len() - 1] == t[t.len() - 1]);
    }
}

/// An underscore in front of what starts with a digit and can follow a
/// digit inside a run can follow a digit too.
proof fn lemma_underscore_and_tail(base: Base, d: Seq<char>)
    requires
        d.len() > 0,
        is_digit(base, d[0]),
        is_run_tail(base, d),
    ensures
        is_run_tail(base, seq!['_'] + d),
{
    let joined = seq!['_'] + d;
    assert forall|i: int| 0 <= i < joined.len() implies is_digit(base, #[trigger] joined[i])
        || joined[i] == '_' by {
        if i > 0 {
            assert(joined[i] == d[i - 1]);
        }
    }
    assert forall|i: int| 0 <= i < joined.len() && #[trigger] joined[i] == '_' implies i + 1
        < joined.len() && is_digit(base, joined[i + 1]) by {
        assert(joined[i + 1] == d[i]);
        if i > 0 {
            assert(d[i - 1] == '_');
        }
    }
}

/// What the groups behind a first digit consumed can follow a digit inside
/// a run.
proof fn lemma_consumed_digits_is_run_tail(base: Base, t: Seq<char>)
    ensures
        is_run_tail(base, consumed_text(t, after_digits(base, t))),
    decreases t.len(),
{
    let left = after_digits(base, t);
    let taken = consumed_text(t, left);
    lemma_after_digits(base, t);
    if t.len() > 0 && is_digit(base, t[0]) {
        let u = t.skip(1);
        lemma_after_digits(base, u);
        lemma_consumed_digits_is_run_tail(base, u);
        assert(taken.skip(1) =~= consumed_text(u, left));
        assert(taken[0] == t[0]);
        lemma_digit_and_tail(base, taken);
    } else if t.len() > 1 && t[0] == '_' && is_digit(base, t[1]) {
        let u = t.skip(2);
        lemma_after_digits(base, u);
        lemma_consumed_digits_is_run_tail(base, u);
        let digits = taken.skip(1);
        assert(digits.skip(1) =~= consumed_text(u, left));
        assert(digits[0] == t[1]);
        lemma_digit_and_tail(base, digits);
        lemma_underscore_and_tail(base, digits);
        assert(seq!['_'] + digits =~= taken);
    }
}

/// Every run that the parser of digit runs hands back is well formed: it
/// holds digits and underscores only, and no underscore at its start, at its
/// end or next to another underscore.
pub proof fn lemma_digits_yields_digit_run(base: Base, s: Seq<char>)
    ensures
        spec_digits(base, s) matches Ok((_, text)) ==> is_digit_run(base, text),
{
    if let Ok((rest, text)) = spec_digits(base, s) {
        lemma_after_digits(base, s.skip(1));
        lemma_consumed_digits_is_run_tail(base, s.skip(1));
        assert(text.skip(1) =~= consumed_text(s.skip(1), rest));
        assert(text[0] == s[0]);
        lemma_digit_and_tail(base, text);
    }
}

/// What the digit groups of a decimal literal consumed can follow a digit
/// inside a run.
proof fn lemma_consumed_groups_is_run_tail(s: Seq<char>)
    ensures
        is_run_tail(Base::Decimal, consumed_text(s, after_digit_groups(s))),
    decreases s.len(),
{
    let base = Base::Decimal;
    let left = after_digit_groups(s);
    let taken = consumed_text(s, left);
    let start = skip_underscore(s);
    lemma_after_digit_groups(s);
    lemma_digits(base, start);
    lemma_digits_yields_digit_run(base, start);
    match spec_digits(base, start) {
        Ok((next, text)) => {
            lemma_after_digit_groups(next);
            lemma_consumed_groups_is_run_tail(next);
            let more = consumed_text(next, left);
            assert(is_run_tail(base, text)) by {
                assert(text.skip(1) =~= consumed_text(start.skip(1), next)) by {
                    lemma_after_digits(base, start.skip(1));
                }
                lemma_consumed_digits_is_run_tail(base, start.skip(1));
                lemma_digit_and_tail(base, text);
            }
            assert(text + next == start);
            if starts_with_underscore(s) {
                lemma_underscore_and_tail(base, text);
                lemma_run_tail_concat(base, seq!['_'] + text, more);
                assert((seq!['_'] + text) + more =~= taken);
            } else {
                lemma_run_tail_concat(base, text, more);
                assert(text + more =~= taken);
            }
        },
        Err(_) => {
            assert(taken =~= Seq::<char>::empty());
        },
    }
}

/// Every decimal literal that is parsed is well formed: it is `0`, or a
/// well-formed run of decimal digits that does not start with `0`.
pub proof fn lemma_decimal_lit_is_well_formed(s: Seq<char>)
    ensures
        spec_decimal_lit(s) matches Ok((_, text)) ==> is_decimal_literal(text),
{
    let base = Base::Decimal;
    if let Ok((rest, text)) = spec_decimal_lit(s) {
        lemma_decimal_lit(s);
        assert(text[0] == s[0]);
        if s[0] == '0' && !(s.len() > 1 && crate::literals::letter_and_digit::is_decimal_digit(
            s[1],
        )) {
            assert(text =~= seq!['0']);
            assert(is_digit_run(base, text));
        } else {
            lemma_after_digit_groups(s.skip(1));
            lemma_consumed_groups_is_run_tail(s.skip(1));
            assert(text.skip(1) =~= consumed_text(s.skip(1), rest));
            lemma_digit_and_tail(base, text);
        }
    }
}

/// Every binary, octal and hexadecimal literal that is parsed is well
/// formed: it carries its prefix, and behind the prefix and at most one
/// underscore stands a well-formed run of digits of its base.
pub proof fn lemma_based_lit_is_well_formed(base: Base, s: Seq<char>)
    ensures
        spec_based_lit(base, s) matches Ok((_, text)) ==> is_based_literal(base, text),
{
    if let Ok((left, text)) = spec_based_lit(base, s) {
        let start = behind_prefix(base, s);
        let run = spec_digits(base, start)->Ok_0.1;
        let k = s.len() - start.len();
        assert(start.is_suffix_of(s) && 1 <= k <= 3 && run + left == start && text + left == s
            && run.len() > 0) by {
            lemma_based_lit(base, s);
            lemma_digits(base, start);
        }
        assert forall|i: int| 0 <= i <= k implies text[i] == s[i] by {}
        lemma_same_prefix(base, s, text);
        assert(text.skip(k) =~= run);
        lemma_digits_yields_digit_run(base, start);
    }
}

/// Every integer literal that is parsed is well formed.
pub proof fn lemma_int_lit_is_well_formed(s: Seq<char>)
    ensures
        spec_int_lit(s) matches Ok((_, lit)) ==> lit.well_formed(),
{
    lemma_based_lit_is_well_formed(Base::Hex, s);
    lemma_based_lit_is_well_formed(Base::Binary, s);
    lemma_based_lit_is_well_formed(Base::Octal, s);
    lemma_decimal_lit_is_well_formed(s);
}

} // verus!
