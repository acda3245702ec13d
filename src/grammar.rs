//! The grammar of decimal floating-point literals:
//! an optional sign, a decimal part of digits holding at most one point and
//! at least one digit, and an optional exponent (`e` or `E`, an optional
//! sign, one or more digits).
use vstd::prelude::*;

verus! {

pub open spec fn is_digit(c: char) -> bool {
    '0' <= c && c <= '9'
}

pub open spec fn is_sign(c: char) -> bool {
    c == '+' || c == '-'
}

pub open spec fn is_exponent_marker(c: char) -> bool {
    c == 'e' || c == 'E'
}

pub open spec fn all_digits(t: Seq<char>) -> bool {
    forall|k: int| 0 <= k < t.len() ==> is_digit(#[trigger] t[k])
}

/// `t` without its leading sign, if it has one.
pub open spec fn unsigned(t: Seq<char>) -> Seq<char> {
    if t.len() > 0 && is_sign(t[0]) {
        t.skip(1)
    } else {
        t
    }
}

/// Digits and decimal points only, at most one point, at least one digit.
pub open spec fn is_decimal(t: Seq<char>) -> bool {
    &&& forall|k: int| 0 <= k < t.len() ==> is_digit(#[trigger] t[k]) || t[k] == '.'
    &&& forall|j: int, k: int| 0 <= j < k < t.len() && #[trigger] t[j] == '.' ==> #[trigger] t[k] != '.'
    &&& exists|k: int| 0 <= k < t.len() && is_digit(#[trigger] t[k])
}

/// What follows the exponent marker: an optional sign and one or more digits.
pub open spec fn is_exponent(t: Seq<char>) -> bool {
    unsigned(t).len() > 0 && all_digits(unsigned(t))
}

/// A decimal floating-point literal, as a standard parser of `f64` accepts it
/// (leaving aside the words for infinity and not-a-number).
pub open spec fn is_float_literal(t: Seq<char>) -> bool {
    let u = unsigned(t);
    is_decimal(u) || exists|p: int|
        0 <= p < u.len() && is_exponent_marker(#[trigger] u[p]) && is_decimal(u.take(p))
            && is_exponent(u.skip(p + 1))
}

pub fn is_digit_char(c: char) -> (r: bool)
    ensures
        r == is_digit(c),
{
    '0' <= c && c <= '9'
}

pub fn is_sign_char(c: char) -> (r: bool)
    ensures
        r == is_sign(c),
{
    c == '+' || c == '-'
}

/// Whether `cs[from..to]` is a decimal part.
fn decimal_run(cs: &[char], from: usize, to: usize) -> (r: bool)
    requires
        from <= to <= cs@.len(),
    ensures
        r == is_decimal(cs@.subrange(from as int, to as int)),
{
    let ghost t = cs@.subrange(from as int, to as int);
    let mut i: usize = from;
    let mut point: Option<usize> = None;
    let mut digit: Option<usize> = None;
    while i < to
        invariant
            from <= i <= to <= cs@.len(),
            t == cs@.subrange(from as int, to as int),
            forall|k: int| from <= k < i ==> is_digit(#[trigger] cs@[k]) || cs@[k] == '.',
            match point {
                Some(p) => from <= p < i && cs@[p as int] == '.' && forall|k: int|
                    from <= k < i && k != p ==> #[trigger] cs@[k] != '.',
                None => forall|k: int| from <= k < i ==> #[trigger] cs@[k] != '.',
            },
            match digit {
                Some(d) => from <= d < i && is_digit(cs@[d as int]),
                None => forall|k: int| from <= k < i ==> !is_digit(#[trigger] cs@[k]),
            },
        decreases to - i,
    {
        let c = cs[i];
        if is_digit_char(c) {
            digit = Some(i);
        } else if c == '.' {
            if point.is_some() {
                let p = point.unwrap();
                assert(t[p - from] == '.' && t[i - from] == '.');
                return false;
            }
            point = Some(i);
        } else {
            assert(!(is_digit(t[i - from]) || t[i - from] == '.'));
            return false;
        }
        i = i + 1;
    }
    match digit {
        Some(d) => {
            assert(is_digit(t[d - from]));
            assert forall|j: int, k: int| 0 <= j < k < t.len() && #[trigger] t[j] == '.' implies #[trigger] t[k] != '.' by {
                assert(t[j] == cs@[from + j] && t[k] == cs@[from + k]);
            }
            assert forall|k: int| 0 <= k < t.len() implies is_digit(#[trigger] t[k]) || t[k] == '.' by {
                assert(t[k] == cs@[from + k]);
            }
            true
        },
        None => {
            assert forall|k: int| 0 <= k < t.len() implies !is_digit(#[trigger] t[k]) by {
                assert(t[k] == cs@[from + k]);
            }
            false
        },
    }
}

/// Whether `cs[from..to]` is an exponent: an optional sign, then digits.
fn exponent_run(cs: &[char], from: usize, to: usize) -> (r: bool)
    requires
        from <= to <= cs@.len(),
    ensures
        r == is_exponent(cs@.subrange(from as int, to as int)),
{
    let ghost t = cs@.subrange(from as int, to as int);
    let start: usize = if from < to && is_sign_char(cs[from]) {
        from + 1
    } else {
        from
    };
    assert(unsigned(t) == cs@.subrange(start as int, to as int));
    if start == to {
        return false;
    }
    let mut i: usize = start;
    while i < to
        invariant
            start <= i <= to <= cs@.len(),
            t == cs@.subrange(from as int, to as int),
            unsigned(t) == cs@.subrange(start as int, to as int),
            forall|k: int| start <= k < i ==> is_digit(#[trigger] cs@[k]),
        decreases to - i,
    {
        if !is_digit_char(cs[i]) {
            assert(!is_digit(unsigned(t)[i - start]));
            return false;
        }
        i = i + 1;
    }
    assert forall|k: int| 0 <= k < unsigned(t).len() implies is_digit(#[trigger] unsigned(t)[k]) by {
        assert(unsigned(t)[k] == cs@[start + k]);
    }
    true
}

/// Whether the first `end` characters of `cs` form a decimal floating-point
/// literal.
pub fn is_float_literal_prefix(cs: &[char], end: usize) -> (r: bool)
    requires
        end <= cs@.len(),
    ensures
        r == is_float_literal(cs@.take(end as int)),
{
    let ghost t = cs@.take(end as int);
    let start: usize = if end > 0 && is_sign_char(cs[0]) {
        1
    } else {
        0
    };
    let ghost u = cs@.subrange(start as int, end as int);
    assert(unsigned(t) == u);
    let mut m: usize = start;
    while m < end && !(cs[m] == 'e' || cs[m] == 'E')
        invariant
            start <= m <= end <= cs@.len(),
            forall|k: int| start <= k < m ==> !is_exponent_marker(#[trigger] cs@[k]),
        decreases end - m,
    {
        m = m + 1;
    }
    if m == end {
        assert(u == cs@.subrange(start as int, m as int));
        let r = decimal_run(cs, start, end);
        assert forall|p: int| 0 <= p < u.len() implies !is_exponent_marker(#[trigger] u[p]) by {
            assert(u[p] == cs@[start + p]);
        }
        r
    } else {
        let q: usize = m - start;
        assert(u.take(q as int) == cs@.subrange(start as int, m as int));
        assert(u.skip(q + 1) == cs@.subrange(m + 1, end as int));
        assert(is_exponent_marker(u[q as int]));
        let r = decimal_run(cs, start, m) && exponent_run(cs, m + 1, end);
        assert(!is_decimal(u)) by {
            assert(!(is_digit(u[q as int]) || u[q as int] == '.'));
        }
        if !r {
            assert forall|p: int|
                0 <= p < u.len() && is_exponent_marker(#[trigger] u[p]) implies !(is_decimal(u.take(p))
                && is_exponent(u.skip(p + 1))) by {
                assert(u[p] == cs@[start + p]);
                if p > q {
                    assert(u.take(p)[q as int] == u[q as int]);
                    assert(!(is_digit(u.take(p)[q as int]) || u.take(p)[q as int] == '.'));
                }
            }
        }
        r
    }
}

} // verus!
