//! The granularity of a session cursor and of a series of bars.
use crate::error::ParseFailure;
use crate::text::{decimal_text, parse_unsigned, push_char, push_decimal, text_eq, unsigned_value};
use vstd::prelude::*;
use vstd::string::*;

verus! {

/// One bar per day, per week, or per window of so many minutes.
#[derive(Debug, Clone, Copy, PartialEq, Eq, Structural, PartialOrd, Ord, Hash)]
pub enum Period {
    Minute(usize),
    Day,
    Week,
}

/// The period that `text` names: `day`, `week`, or a number of minutes
/// followed by `m`.
pub open spec fn period_of_text(text: Seq<char>) -> Option<Period> {
    if text == seq!['d', 'a', 'y'] {
        Some(Period::Day)
    } else if text == seq!['w', 'e', 'e', 'k'] {
        Some(Period::Week)
    } else if text.len() > 0 && text.last() == 'm' {
        match unsigned_value(text.drop_last()) {
            Some(n) => if n <= usize::MAX {
                Some(Period::Minute(n as usize))
            } else {
                None
            },
            None => None,
        }
    } else {
        None
    }
}

/// The name of `period`, as [`period_of_text`] reads it.
pub open spec fn period_text(period: Period) -> Seq<char> {
    match period {
        Period::Day => seq!['d', 'a', 'y'],
        Period::Week => seq!['w', 'e', 'e', 'k'],
        Period::Minute(n) => decimal_text(n as nat).push('m'),
    }
}

impl Default for Period {
    fn default() -> (r: Period)
        ensures
            r == Period::Day,
    {
        Period::Day
    }
}

impl Period {
    /// Reads a period from its name.
    pub fn parse(text: &str) -> (r: Result<Period, ParseFailure>)
        ensures
            r is Ok <==> period_of_text(text@) is Some,
            r matches Ok(p) ==> period_of_text(text@) == Some(p),
    {
        proof {
            reveal_strlit("day");
            reveal_strlit("week");
            assert("day"@ =~= seq!['d', 'a', 'y']);
            assert("week"@ =~= seq!['w', 'e', 'e', 'k']);
        }
        if text_eq(text, "day") {
            return Ok(Period::Day);
        }
        if text_eq(text, "week") {
            return Ok(Period::Week);
        }
        let len: usize = text.unicode_len();
        if len == 0 || text.get_char(len - 1) != 'm' {
            return Err(ParseFailure);
        }
        let digits: &str = text.substring_char(0, len - 1);
        assert(digits@ =~= text@.drop_last());
        match parse_unsigned(digits) {
            Some(n) => Ok(Period::Minute(n)),
            None => Err(ParseFailure),
        }
    }

    /// The name of the period.
    pub fn to_string(&self) -> (r: String)
        ensures
            r@ == period_text(*self),
    {
        proof {
            reveal_strlit("day");
            reveal_strlit("week");
            assert("day"@ =~= seq!['d', 'a', 'y']);
            assert("week"@ =~= seq!['w', 'e', 'e', 'k']);
        }
        match self {
            Period::Day => String::from_str("day"),
            Period::Week => String::from_str("week"),
            Period::Minute(n) => {
                let mut out: String = String::new();
                push_decimal(&mut out, *n);
                push_char(&mut out, 'm');
                assert(out@ =~= period_text(*self));
                out
            },
        }
    }
}

impl std::str::FromStr for Period {
    type Err = ParseFailure;

    fn from_str(text: &str) -> (r: Result<Period, ParseFailure>)
        ensures
            r is Ok <==> period_of_text(text@) is Some,
            r matches Ok(p) ==> period_of_text(text@) == Some(p),
    {
        Period::parse(text)
    }
}

} // verus!
