//! Resolving a literal into its numeric body and the power of ten that its
//! magnitude suffix stands for.
//!
//! The value of a resolved literal is its body read as a floating-point
//! number, times ten to the power `scale`. The body always satisfies
//! [`is_float_literal`], so a standard floating-point parser accepts it.
use vstd::prelude::*;

use crate::grammar::{is_float_literal, is_float_literal_prefix};
use crate::lexer::{chars_of, run_lexer, scan, suffix_scale, suffix_scale_at, LexState, Scan};

verus! {

/// Why a literal could not be resolved.
#[derive(PartialEq, Eq, Structural, Clone, Copy, Debug)]
pub enum NumberErrorKind {
    /// The input had no characters.
    Empty,
    /// The numeric body is malformed.
    InvalidSyntax,
    /// A suffix letter was present but stands for no magnitude.
    InvalidMultiplier,
}

#[derive(PartialEq, Eq, Structural, Clone, Copy, Debug)]
pub struct ParseNumberError {
    pub kind: NumberErrorKind,
}

pub open spec fn description(kind: NumberErrorKind) -> Seq<char> {
    match kind {
        NumberErrorKind::Empty => "cannot parse number from empty string"@,
        NumberErrorKind::InvalidSyntax => "invalid number"@,
        NumberErrorKind::InvalidMultiplier => "invalid multiplier"@,
    }
}

impl ParseNumberError {
    /// A short description of the error, for messages.
    pub fn __description(&self) -> (r: &str)
        ensures
            r@ == description(self.kind),
    {
        match self.kind {
            NumberErrorKind::Empty => "cannot parse number from empty string",
            NumberErrorKind::InvalidSyntax => "invalid number",
            NumberErrorKind::InvalidMultiplier => "invalid multiplier",
        }
    }
}

/// A resolved literal: the numeric body that the lexer kept, the power of
/// ten of its magnitude suffix (0 without one), and the whole input.
#[derive(Clone, Debug, PartialEq, Eq)]
pub struct Literal {
    pub body: String,
    pub scale: i32,
    pub raw: String,
}

pub struct LiteralModel {
    pub body: Seq<char>,
    pub scale: int,
    pub raw: Seq<char>,
}

impl View for Literal {
    type V = LiteralModel;

    open spec fn view(&self) -> LiteralModel {
        LiteralModel { body: self.body@, scale: self.scale as int, raw: self.raw@ }
    }
}

impl Literal {
    /// The literal as it was written.
    pub fn text(&self) -> (r: &str)
        ensures
            r@ == self.raw@,
    {
        self.raw.as_str()
    }
}

/// The literal `0`.
pub open spec fn zero_literal() -> LiteralModel {
    LiteralModel { body: seq!['0'], scale: 0, raw: seq!['0'] }
}

impl Default for Literal {
    fn default() -> (r: Self)
        ensures
            r@ == zero_literal(),
    {
        let zero = "0";
        proof {
            reveal_strlit("0");
            assert(zero@ =~= seq!['0']);
        }
        Literal { body: zero.to_owned(), scale: 0, raw: zero.to_owned() }
    }
}

/// The literal whose body is the first `end` characters of `s`, scaled by
/// ten to the power `scale`, if that body is a floating-point literal.
pub open spec fn finish(s: Seq<char>, end: int, scale: int) -> Result<LiteralModel, NumberErrorKind> {
    if is_float_literal(s.take(end)) {
        Ok(LiteralModel { body: s.take(end), scale, raw: s })
    } else {
        Err(NumberErrorKind::InvalidSyntax)
    }
}

/// What `s` resolves to.
pub open spec fn resolution(s: Seq<char>) -> Result<LiteralModel, NumberErrorKind> {
    if s.len() == 0 {
        Err(NumberErrorKind::Empty)
    } else {
        match scan(s, 0, LexState::Start) {
            Scan::Ended { end } => finish(s, end, 0),
            Scan::AtSuffix { at } => match suffix_scale(s, at) {
                Some(k) => finish(s, at, k),
                None => Err(NumberErrorKind::InvalidMultiplier),
            },
            Scan::Rejected => Err(NumberErrorKind::InvalidSyntax),
        }
    }
}

pub open spec fn resolves_as(r: Result<Literal, ParseNumberError>, s: Seq<char>) -> bool {
    match r {
        Ok(l) => resolution(s) == Ok::<LiteralModel, NumberErrorKind>(l@),
        Err(e) => resolution(s) == Err::<LiteralModel, NumberErrorKind>(e.kind),
    }
}

/// Resolves the literal `s`.
pub fn resolve(s: &str) -> (r: Result<Literal, ParseNumberError>)
    ensures
        resolves_as(r, s@),
{
    let cs = chars_of(s);
    if cs.len() == 0 {
        return Err(ParseNumberError { kind: NumberErrorKind::Empty });
    }
    let (end, scale): (usize, i32) = match run_lexer(cs.as_slice()) {
        Ok(end) => (end, 0),
        Err(Some(at)) => match suffix_scale_at(cs.as_slice(), at) {
            Some(k) => (at, k),
            None => {
                return Err(ParseNumberError { kind: NumberErrorKind::InvalidMultiplier });
            },
        },
        Err(None) => {
            return Err(ParseNumberError { kind: NumberErrorKind::InvalidSyntax });
        },
    };
    if !is_float_literal_prefix(cs.as_slice(), end) {
        return Err(ParseNumberError { kind: NumberErrorKind::InvalidSyntax });
    }
    let body = s.substring_char(0, end).to_owned();
    Ok(Literal { body, scale, raw: s.to_owned() })
}

} // verus!
