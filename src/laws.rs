//! What holds of every literal of a given shape.
use vstd::prelude::*;

use crate::grammar::{
    is_decimal, is_digit, is_exponent, is_exponent_marker, is_float_literal, is_sign,
    unsigned,
};
use crate::lexer::{is_ascii_letter, letter_scale, meg_follows, scan, step, suffix_scale, LexState, Step};
use crate::literal::{resolution, zero_literal, LiteralModel, NumberErrorKind};

verus! {

/// The state the lexer is in after a run of digits and points that began in
/// `state` at `i` and ends before `j`.
pub open spec fn after_decimal_run(s: Seq<char>, i: int, j: int, state: LexState) -> LexState {
    if j > i && s[j - 1] == '.' {
        LexState::FractionPart
    } else if j > i {
        LexState::IntegerPart
    } else {
        state
    }
}

proof fn lemma_scan_decimal_run(s: Seq<char>, i: int, j: int, state: LexState)
    requires
        0 <= i <= j <= s.len(),
        state == LexState::IntegerPart || state == LexState::FractionPart,
        forall|k: int| i <= k < j ==> is_digit(#[trigger] s[k]) || s[k] == '.',
        forall|a: int, b: int| i <= a < b < j && #[trigger] s[a] == '.' ==> #[trigger] s[b] != '.',
        state == LexState::FractionPart ==> forall|k: int| i <= k < j ==> #[trigger] s[k] != '.',
    ensures
        scan(s, i, state) == scan(s, j, after_decimal_run(s, i, j, state)),
        after_decimal_run(s, i, j, state) == LexState::IntegerPart || after_decimal_run(
            s,
            i,
            j,
            state,
        ) == LexState::FractionPart,
    decreases j - i,
{
    if i < j {
        let next = if s[i] == '.' {
            LexState::FractionPart
        } else {
            LexState::IntegerPart
        };
        assert(step(state, s[i]) == Step::Push(next));
        if next == LexState::FractionPart {
            assert forall|k: int| i + 1 <= k < j implies #[trigger] s[k] != '.' by {
                assert(s[i] == '.');
            }
        }
        lemma_scan_decimal_run(s, i + 1, j, next);
    }
}

proof fn lemma_scan_exponent_digits(s: Seq<char>, i: int, j: int)
    requires
        0 <= i <= j <= s.len(),
        forall|k: int| i <= k < j ==> is_digit(#[trigger] s[k]),
    ensures
        scan(s, i, LexState::ExponentDigits) == scan(s, j, LexState::ExponentDigits),
    decreases j - i,
{
    if i < j {
        assert(step(LexState::ExponentDigits, s[i]) == Step::Push(LexState::ExponentDigits));
        lemma_scan_exponent_digits(s, i + 1, j);
    }
}

/// Where the lexer stands after the first `n` characters of `s`, when they
/// form a floating-point literal that does not begin with a point.
proof fn lemma_scan_literal(s: Seq<char>, n: int)
    requires
        0 < n <= s.len(),
        is_float_literal(s.take(n)),
        s[0] != '.',
    ensures
        (forall|k: int| 0 <= k < n ==> !is_exponent_marker(#[trigger] s[k])) ==> (scan(
            s,
            0,
            LexState::Start,
        ) == scan(s, n, LexState::IntegerPart) || scan(s, 0, LexState::Start) == scan(
            s,
            n,
            LexState::FractionPart,
        )),
        (exists|k: int| 0 <= k < n && is_exponent_marker(#[trigger] s[k])) ==> scan(
            s,
            0,
            LexState::Start,
        ) == scan(s, n, LexState::ExponentDigits),
{
    let b = s.take(n);
    let o: int = if is_sign(b[0]) {
        1
    } else {
        0
    };
    let u = unsigned(b);
    assert(u == s.subrange(o, n));
    if o == 0 && u.len() > 0 {
        assert(u[0] == s[0]);
    }
    if is_decimal(u) {
        let d = choose|k: int| 0 <= k < u.len() && is_digit(#[trigger] u[k]);
        assert(u[d] == s[o + d]);
        assert(is_sign(s[0]) || is_digit(s[0])) by {
            if o == 0 {
                assert(is_digit(u[0]) || u[0] == '.');
            }
        }
        assert(step(LexState::Start, s[0]) == Step::Push(LexState::IntegerPart));
        assert forall|k: int| 1 <= k < n implies is_digit(#[trigger] s[k]) || s[k] == '.' by {
            assert(s[k] == u[k - o]);
        }
        assert forall|a: int, c: int| 1 <= a < c < n && #[trigger] s[a] == '.' implies #[trigger] s[c]
            != '.' by {
            assert(s[a] == u[a - o] && s[c] == u[c - o]);
        }
        lemma_scan_decimal_run(s, 1, n, LexState::IntegerPart);
        assert forall|k: int| 0 <= k < n implies !is_exponent_marker(#[trigger] s[k]) by {
            if k >= o {
                assert(s[k] == u[k - o]);
            }
        }
    } else {
        let p = choose|p: int|
            0 <= p < u.len() && is_exponent_marker(#[trigger] u[p]) && is_decimal(u.take(p))
                && is_exponent(u.skip(p + 1));
        let m = u.take(p);
        let e = u.skip(p + 1);
        let d = choose|k: int| 0 <= k < m.len() && is_digit(#[trigger] m[k]);
        assert(m[d] == s[o + d]);
        assert(is_sign(s[0]) || is_digit(s[0])) by {
            if o == 0 {
                assert(m[0] == s[0]);
                assert(is_digit(m[0]) || m[0] == '.');
            }
        }
        assert(step(LexState::Start, s[0]) == Step::Push(LexState::IntegerPart));
        assert forall|k: int| 1 <= k < o + p implies is_digit(#[trigger] s[k]) || s[k] == '.' by {
            assert(s[k] == m[k - o]);
        }
        assert forall|a: int, c: int| 1 <= a < c < o + p && #[trigger] s[a] == '.' implies #[trigger] s[c]
            != '.' by {
            assert(s[a] == m[a - o] && s[c] == m[c - o]);
        }
        lemma_scan_decimal_run(s, 1, o + p, LexState::IntegerPart);
        let st = after_decimal_run(s, 1, o + p, LexState::IntegerPart);
        assert(s[o + p] == u[p]);
        assert(step(st, s[o + p]) == Step::Push(LexState::ExponentStart));
        let ue = unsigned(e);
        assert(e[0] == s[o + p + 1]);
        assert(step(LexState::ExponentStart, s[o + p + 1]) == Step::Push(LexState::ExponentDigits))
            by {
            if !is_sign(e[0]) {
                assert(ue[0] == e[0]);
            }
        }
        let q: int = if is_sign(e[0]) {
            o + p + 2
        } else {
            o + p + 1
        };
        assert forall|k: int| o + p + 2 <= k < n implies is_digit(#[trigger] s[k]) by {
            assert(s[k] == e[k - (o + p + 1)]);
            if is_sign(e[0]) {
                assert(e[k - (o + p + 1)] == ue[k - (o + p + 2)]);
            } else {
                assert(e[k - (o + p + 1)] == ue[k - (o + p + 1)]);
            }
        }
        lemma_scan_exponent_digits(s, o + p + 2, n);
        if q == o + p + 2 {
        } else {
            assert(ue[0] == e[0]);
        }
        assert(scan(s, o + p + 1, LexState::ExponentStart) == scan(
            s,
            o + p + 2,
            LexState::ExponentDigits,
        ));
        assert(!forall|k: int| 0 <= k < n ==> !is_exponent_marker(#[trigger] s[k]));
    }
}

/// A floating-point literal that begins with a sign or a digit resolves to
/// itself as body, unscaled, and keeps its whole text.
pub proof fn lemma_plain_literal_resolves_to_itself(s: Seq<char>)
    requires
        is_float_literal(s),
        s.len() > 0,
        s[0] != '.',
    ensures
        resolution(s) == Ok::<LiteralModel, NumberErrorKind>(
            LiteralModel { body: s, scale: 0, raw: s },
        ),
{
    assert(s.take(s.len() as int) == s);
    lemma_scan_literal(s, s.len() as int);
}

/// A floating-point literal without an exponent, begun by a sign or a digit
/// and followed by a one-letter magnitude suffix, resolves to that literal as
/// body, scaled by the suffix's power of ten, whatever follows the suffix.
pub proof fn lemma_letter_suffix_scales(b: Seq<char>, c: char, tail: Seq<char>)
    requires
        is_float_literal(b),
        b.len() > 0,
        b[0] != '.',
        forall|k: int| 0 <= k < b.len() ==> !is_exponent_marker(#[trigger] b[k]),
        letter_scale(c) is Some,
    ensures
        resolution(b.push(c) + tail) == Ok::<LiteralModel, NumberErrorKind>(
            LiteralModel { body: b, scale: letter_scale(c)->0, raw: b.push(c) + tail },
        ),
{
    let s = b.push(c) + tail;
    let n = b.len() as int;
    assert(s.take(n) == b);
    assert(s[0] == b[0]);
    assert forall|k: int| 0 <= k < n implies !is_exponent_marker(#[trigger] s[k]) by {
        assert(s[k] == b[k]);
    }
    lemma_scan_literal(s, n);
    assert(s[n] == c);
    assert(is_ascii_letter(c) && !is_exponent_marker(c) && !is_digit(c) && c != '.');
    assert(step(LexState::IntegerPart, c) == Step::Suffix);
    assert(step(LexState::FractionPart, c) == Step::Suffix);
    assert(suffix_scale(s, n) == letter_scale(c));
}

/// After an exponent no suffix is read: a floating-point literal with an
/// exponent, begun by a sign or a digit, followed by anything that does not
/// begin with a digit, resolves to that literal as body, unscaled.
pub proof fn lemma_suffix_after_exponent_ignored(b: Seq<char>, c: char, tail: Seq<char>)
    requires
        is_float_literal(b),
        b.len() > 0,
        b[0] != '.',
        exists|k: int| 0 <= k < b.len() && is_exponent_marker(#[trigger] b[k]),
        !is_digit(c),
    ensures
        resolution(b.push(c) + tail) == Ok::<LiteralModel, NumberErrorKind>(
            LiteralModel { body: b, scale: 0, raw: b.push(c) + tail },
        ),
{
    let s = b.push(c) + tail;
    let n = b.len() as int;
    assert(s.take(n) == b);
    assert(s[0] == b[0]);
    let k = choose|k: int| 0 <= k < b.len() && is_exponent_marker(#[trigger] b[k]);
    assert(s[k] == b[k]);
    lemma_scan_literal(s, n);
    assert(s[n] == c);
    assert(step(LexState::ExponentDigits, c) == Step::Stop);
}

/// The default literal is what `0` resolves to.
pub proof fn lemma_default_is_zero()
    ensures
        resolution(seq!['0']) == Ok::<LiteralModel, NumberErrorKind>(zero_literal()),
{
    let s = seq!['0'];
    assert(is_digit(s[0]));
    assert(is_decimal(unsigned(s)));
    lemma_plain_literal_resolves_to_itself(s);
}

/// An `m` suffix after a floating-point literal without an exponent, begun by
/// a sign or a digit, is mega when `eg` follows it in any case, and milli
/// otherwise.
pub proof fn lemma_m_suffix_scales(b: Seq<char>, c: char, tail: Seq<char>)
    requires
        is_float_literal(b),
        b.len() > 0,
        b[0] != '.',
        forall|k: int| 0 <= k < b.len() ==> !is_exponent_marker(#[trigger] b[k]),
        c == 'm' || c == 'M',
    ensures
        resolution(b.push(c) + tail) == Ok::<LiteralModel, NumberErrorKind>(
            LiteralModel {
                body: b,
                scale: if meg_follows(b.push(c) + tail, b.len() as int) {
                    6
                } else {
                    -3
                },
                raw: b.push(c) + tail,
            },
        ),
{
    let s = b.push(c) + tail;
    let n = b.len() as int;
    assert(s.take(n) == b);
    assert(s[0] == b[0]);
    assert forall|k: int| 0 <= k < n implies !is_exponent_marker(#[trigger] s[k]) by {
        assert(s[k] == b[k]);
    }
    lemma_scan_literal(s, n);
    assert(s[n] == c);
    assert(step(LexState::IntegerPart, c) == Step::Suffix);
    assert(step(LexState::FractionPart, c) == Step::Suffix);
}

} // verus!
