//! The lexical state machine that splits a literal into its numeric body and
//! its magnitude suffix.
use vstd::prelude::*;

use crate::grammar::{is_digit, is_digit_char, is_exponent_marker, is_sign, is_sign_char};

verus! {

/// The characters of `s`, in order.
pub fn chars_of(s: &str) -> (r: Vec<char>)
    ensures
        r@ == s@,
{
    let mut r: Vec<char> = Vec::new();
    for c in it: s.chars()
        invariant
            r@ == it.seq().take(it.index() as int),
    {
        r.push(c);
    }
    r
}

/// Where the lexer stands between two characters.
#[derive(PartialEq, Eq, Structural, Clone, Copy, Debug)]
pub enum LexState {
    Start,
    IntegerPart,
    /// A decimal point was the last character taken.
    FractionPart,
    ExponentStart,
    ExponentDigits,
}

/// What the lexer does with one character.
#[derive(PartialEq, Eq, Structural, Clone, Copy, Debug)]
pub enum Step {
    /// Append the character to the numeric body and go on in the given state.
    Push(LexState),
    /// The body ends before this character; the rest is not read.
    Stop,
    /// The character is a magnitude suffix; the body ends before it.
    Suffix,
    /// The character cannot stand here.
    Reject,
}

pub open spec fn is_ascii_letter(c: char) -> bool {
    ('a' <= c && c <= 'z') || ('A' <= c && c <= 'Z')
}

pub open spec fn step(state: LexState, c: char) -> Step {
    match state {
        LexState::Start => if is_sign(c) || is_digit(c) {
            Step::Push(LexState::IntegerPart)
        } else {
            Step::Reject
        },
        LexState::IntegerPart | LexState::FractionPart => if is_digit(c) {
            Step::Push(LexState::IntegerPart)
        } else if c == '.' {
            if state == LexState::IntegerPart {
                Step::Push(LexState::FractionPart)
            } else {
                Step::Reject
            }
        } else if is_exponent_marker(c) {
            Step::Push(LexState::ExponentStart)
        } else if is_ascii_letter(c) {
            Step::Suffix
        } else {
            Step::Reject
        },
        LexState::ExponentStart => if is_sign(c) || is_digit(c) {
            Step::Push(LexState::ExponentDigits)
        } else {
            Step::Reject
        },
        LexState::ExponentDigits => if is_digit(c) {
            Step::Push(LexState::ExponentDigits)
        } else {
            Step::Stop
        },
    }
}

/// How a run of the lexer ends.
pub enum Scan {
    /// The body is the first `end` characters, and no suffix follows it.
    Ended { end: int },
    /// The body is the first `at` characters, and the character at `at` is a
    /// magnitude suffix.
    AtSuffix { at: int },
    Rejected,
}

/// The run of the lexer over `s`, from index `i` in state `state`.
pub open spec fn scan(s: Seq<char>, i: int, state: LexState) -> Scan
    decreases s.len() - i,
{
    if i >= s.len() {
        Scan::Ended { end: i }
    } else {
        match step(state, s[i]) {
            Step::Push(next) => scan(s, i + 1, next),
            Step::Stop => Scan::Ended { end: i },
            Step::Suffix => Scan::AtSuffix { at: i },
            Step::Reject => Scan::Rejected,
        }
    }
}

pub fn next_step(state: LexState, c: char) -> (r: Step)
    ensures
        r == step(state, c),
{
    match state {
        LexState::Start => if is_sign_char(c) || is_digit_char(c) {
            Step::Push(LexState::IntegerPart)
        } else {
            Step::Reject
        },
        LexState::IntegerPart | LexState::FractionPart => if is_digit_char(c) {
            Step::Push(LexState::IntegerPart)
        } else if c == '.' {
            if state == LexState::IntegerPart {
                Step::Push(LexState::FractionPart)
            } else {
                Step::Reject
            }
        } else if c == 'e' || c == 'E' {
            Step::Push(LexState::ExponentStart)
        } else if ('a' <= c && c <= 'z') || ('A' <= c && c <= 'Z') {
            Step::Suffix
        } else {
            Step::Reject
        },
        LexState::ExponentStart => if is_sign_char(c) || is_digit_char(c) {
            Step::Push(LexState::ExponentDigits)
        } else {
            Step::Reject
        },
        LexState::ExponentDigits => if is_digit_char(c) {
            Step::Push(LexState::ExponentDigits)
        } else {
            Step::Stop
        },
    }
}

/// Where the lexer leaves `cs`: `Ok(end)` when the body is the first `end`
/// characters and no suffix follows, `Err(Some(at))` when a suffix letter
/// stands at `at`, `Err(None)` when a character is rejected.
pub fn run_lexer(cs: &[char]) -> (r: Result<usize, Option<usize>>)
    ensures
        match r {
            Ok(end) => end <= cs@.len() && scan(cs@, 0, LexState::Start) == (Scan::Ended {
                end: end as int,
            }),
            Err(Some(at)) => at < cs@.len() && scan(cs@, 0, LexState::Start) == (Scan::AtSuffix {
                at: at as int,
            }),
            Err(None) => scan(cs@, 0, LexState::Start) is Rejected,
        },
{
    let mut i: usize = 0;
    let mut state = LexState::Start;
    while i < cs.len()
        invariant
            i <= cs@.len(),
            scan(cs@, 0, LexState::Start) == scan(cs@, i as int, state),
        decreases cs@.len() - i,
    {
        match next_step(state, cs[i]) {
            Step::Push(next) => {
                state = next;
                i = i + 1;
            },
            Step::Stop => {
                return Ok(i);
            },
            Step::Suffix => {
                return Err(Some(i));
            },
            Step::Reject => {
                return Err(None);
            },
        }
    }
    Ok(i)
}

/// The power of ten that a one-letter suffix stands for, in either case;
/// `m` is left out, as its meaning depends on what follows it.
pub open spec fn letter_scale(c: char) -> Option<int> {
    if c == 'T' || c == 't' {
        Some(12)
    } else if c == 'G' || c == 'g' {
        Some(9)
    } else if c == 'X' || c == 'x' {
        Some(6)
    } else if c == 'K' || c == 'k' {
        Some(3)
    } else if c == 'U' || c == 'u' {
        Some(-6)
    } else if c == 'N' || c == 'n' {
        Some(-9)
    } else if c == 'P' || c == 'p' {
        Some(-12)
    } else if c == 'F' || c == 'f' {
        Some(-15)
    } else {
        None
    }
}

/// The two characters after index `i` of `s` are `eg`, in any case.
pub open spec fn meg_follows(s: Seq<char>, i: int) -> bool {
    &&& i + 2 < s.len()
    &&& s[i + 1] == 'E' || s[i + 1] == 'e'
    &&& s[i + 2] == 'G' || s[i + 2] == 'g'
}

/// The power of ten of the suffix letter at index `i` of `s`: `Meg` is
/// mega, a bare `m` is milli.
pub open spec fn suffix_scale(s: Seq<char>, i: int) -> Option<int> {
    if s[i] == 'M' || s[i] == 'm' {
        if meg_follows(s, i) {
            Some(6)
        } else {
            Some(-3)
        }
    } else {
        letter_scale(s[i])
    }
}

pub fn suffix_scale_at(cs: &[char], i: usize) -> (r: Option<i32>)
    requires
        i < cs@.len(),
    ensures
        match r {
            Some(k) => suffix_scale(cs@, i as int) == Some(k as int),
            None => suffix_scale(cs@, i as int) is None,
        },
{
    let c = cs[i];
    if c == 'M' || c == 'm' {
        if cs.len() - i > 2 && (cs[i + 1] == 'E' || cs[i + 1] == 'e') && (cs[i + 2] == 'G'
            || cs[i + 2] == 'g') {
            Some(6)
        } else {
            Some(-3)
        }
    } else if c == 'T' || c == 't' {
        Some(12)
    } else if c == 'G' || c == 'g' {
        Some(9)
    } else if c == 'X' || c == 'x' {
        Some(6)
    } else if c == 'K' || c == 'k' {
        Some(3)
    } else if c == 'U' || c == 'u' {
        Some(-6)
    } else if c == 'N' || c == 'n' {
        Some(-9)
    } else if c == 'P' || c == 'p' {
        Some(-12)
    } else if c == 'F' || c == 'f' {
        Some(-15)
    } else {
        None
    }
}

} // verus!
