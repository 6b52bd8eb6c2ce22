//! Fragment-ion records and the little name grammar (`"b2"` is series `b`,
//! ordinal `2`) that callers use to tag them.

use crate::sort::{IndexSortable, MassType, ParentID};
use vstd::prelude::*;
use vstd::string::StringExecFns;

verus! {

/// The closed set of fragment series classifiers.
#[allow(non_camel_case_types)]
#[derive(Debug, Clone, Copy, PartialEq, Eq, Hash, Structural)]
pub enum FragmentSeries {
    b,
    y,
    c,
    z,
    a,
    x,
    Precursor,
    PeptideY,
    Oxonium,
    Internal,
    Unknown,
}

impl Default for FragmentSeries {
    /// The fallback classifier for fragments of no recognized series.
    fn default() -> (r: Self)
        ensures
            r == FragmentSeries::Unknown,
    {
        FragmentSeries::Unknown
    }
}

/// Why a fragment name failed to parse; each variant carries the offending
/// part of the input.
#[derive(Debug, Clone, PartialEq, Eq, Hash)]
pub enum FragmentSeriesParsingError {
    Empty,
    UnknownSeries(String),
    InvalidOrdinal(String),
}

impl FragmentSeriesParsingError {
    /// The error rendered as text, naming the offending part of the input.
    pub fn message(&self) -> (r: String)
        ensures
            match self {
                FragmentSeriesParsingError::Empty => r@
                    == "Fragment name cannot be an empty string"@,
                FragmentSeriesParsingError::UnknownSeries(t) => r@ == "Unknown series label \""@
                    + t@ + "\""@,
                FragmentSeriesParsingError::InvalidOrdinal(t) => r@
                    == "Invalid ordinal value \""@ + t@ + "\", should be an integer"@,
            },
    {
        match self {
            FragmentSeriesParsingError::Empty => String::from_str(
                "Fragment name cannot be an empty string",
            ),
            FragmentSeriesParsingError::UnknownSeries(t) => {
                let mut s = String::from_str("Unknown series label \"");
                s.append(t.as_str());
                s.append("\"");
                s
            },
            FragmentSeriesParsingError::InvalidOrdinal(t) => {
                let mut s = String::from_str("Invalid ordinal value \"");
                s.append(t.as_str());
                s.append("\", should be an integer");
                s
            },
        }
    }
}

/// A parsed fragment name: a backbone-cleavage series and an ordinal.
#[derive(Debug, Clone, Copy, PartialEq, Eq, Hash, Structural)]
pub struct FragmentName(pub FragmentSeries, pub u16);

/// The series letter a fragment name may start with, if it is one.
pub open spec fn series_of_char(ch: char) -> Option<FragmentSeries> {
    if ch == 'b' {
        Some(FragmentSeries::b)
    } else if ch == 'y' {
        Some(FragmentSeries::y)
    } else if ch == 'c' {
        Some(FragmentSeries::c)
    } else if ch == 'z' {
        Some(FragmentSeries::z)
    } else if ch == 'a' {
        Some(FragmentSeries::a)
    } else if ch == 'x' {
        Some(FragmentSeries::x)
    } else {
        None
    }
}

/// Whether `ch` is a decimal digit.
pub open spec fn is_digit_char(ch: char) -> bool {
    48 <= ch as int && ch as int <= 57
}

/// Whether `s` is one or more decimal digits.
pub open spec fn is_digit_seq(s: Seq<char>) -> bool {
    s.len() > 0 && forall|i: int| 0 <= i < s.len() ==> is_digit_char(#[trigger] s[i])
}

/// The number a digit string denotes.
pub open spec fn digits_value(s: Seq<char>) -> int
    decreases s.len(),
{
    if s.len() == 0 {
        0
    } else {
        digits_value(s.drop_last()) * 10 + (s.last() as int - 48)
    }
}

/// What parsing a fragment name returns on each input: the empty input, an
/// unrecognized leading series letter, and an ordinal part that is not a
/// number fitting the ordinal type each fail with their own error, carrying
/// the offending part of the input.
pub open spec fn parse_name_result(s: Seq<char>, r: Result<
    FragmentName,
    FragmentSeriesParsingError,
>) -> bool {
    if s.len() == 0 {
        r == Result::<FragmentName, FragmentSeriesParsingError>::Err(
            FragmentSeriesParsingError::Empty,
        )
    } else {
        match series_of_char(s[0]) {
            None => r matches Err(FragmentSeriesParsingError::UnknownSeries(t)) && t@ == s.take(1),
            Some(series) => {
                let rest = s.skip(1);
                if is_digit_seq(rest) && digits_value(rest) <= u16::MAX {
                    r == Result::<FragmentName, FragmentSeriesParsingError>::Ok(
                        FragmentName(series, digits_value(rest) as u16),
                    )
                } else {
                    r matches Err(FragmentSeriesParsingError::InvalidOrdinal(t)) && t@ == rest
                }
            },
        }
    }
}

fn parse_series_char(ch: char) -> (r: Option<FragmentSeries>)
    ensures
        r == series_of_char(ch),
{
    match ch {
        'b' => Some(FragmentSeries::b),
        'y' => Some(FragmentSeries::y),
        'c' => Some(FragmentSeries::c),
        'z' => Some(FragmentSeries::z),
        'a' => Some(FragmentSeries::a),
        'x' => Some(FragmentSeries::x),
        _ => None,
    }
}

/// Parses the digit part of a fragment name into an ordinal.
fn parse_ordinal(s: &str, from: usize) -> (r: Option<u16>)
    requires
        from <= s@.len(),
    ensures
        match r {
            Some(v) => is_digit_seq(s@.skip(from as int)) && digits_value(s@.skip(from as int))
                == v as int,
            None => !(is_digit_seq(s@.skip(from as int)) && digits_value(s@.skip(from as int))
                <= u16::MAX),
        },
{
    let n = s.unicode_len();
    if from == n {
        assert(s@.skip(from as int) =~= Seq::<char>::empty());
        return None;
    }
    let mut value: u16 = 0;
    let mut i: usize = from;
    while i < n
        invariant
            from <= i <= n,
            n == s@.len(),
            is_digit_seq(s@.subrange(from as int, i as int)) || i == from,
            digits_value(s@.subrange(from as int, i as int)) == value as int,
        decreases n - i,
    {
        let ch = s.get_char(i);
        let cu: u32 = ch as u32;
        if cu < 48 || cu > 57 {
            assert(!is_digit_char(s@.skip(from as int)[i - from]));
            return None;
        }
        let d: u16 = (cu - 48) as u16;
        assert(d <= 9);
        if value > u16::MAX / 10 || (value == u16::MAX / 10 && u16::MAX % 10 < d) {
            // the ordinal would overflow its type
            assert(value as int * 10 + d as int > u16::MAX as int) by (nonlinear_arith)
                requires
                    value > u16::MAX / 10 || (value == u16::MAX / 10 && u16::MAX % 10 < d),
                    d <= 9,
            ;
            proof {
                let whole = s@.skip(from as int);
                let pre = s@.subrange(from as int, i as int + 1);
                assert(pre.drop_last() =~= s@.subrange(from as int, i as int));
                assert(pre.last() == s@[i as int]);
                assert(digits_value(pre) == value as int * 10 + d as int);
                assert(pre =~= whole.subrange(0, i + 1 - from));
                if is_digit_seq(whole) {
                    lemma_digits_value_grows(pre, whole, i + 1 - from);
                }
            }
            return None;
        }
        assert(value as int * 10 + d as int <= u16::MAX as int) by (nonlinear_arith)
            requires
                !(value > u16::MAX / 10 || (value == u16::MAX / 10 && u16::MAX % 10 < d)),
                d <= 9,
        ;
        value = value * 10 + d;
        proof {
            assert(s@.subrange(from as int, i as int + 1).drop_last() =~= s@.subrange(
                from as int,
                i as int,
            ));
            assert(s@.subrange(from as int, i as int + 1).last() == s@[i as int]);
        }
        i = i + 1;
    }
    proof {
        assert(s@.subrange(from as int, n as int) =~= s@.skip(from as int));
    }
    Some(value)
}

/// Once a digit string does not fit the ordinal type, no extension of it does.
proof fn lemma_digits_value_grows(prefix: Seq<char>, whole: Seq<char>, k: int)
    requires
        0 < k <= whole.len(),
        prefix =~= whole.subrange(0, k),
        is_digit_seq(whole),
        digits_value(prefix) > u16::MAX,
    ensures
        digits_value(whole) > u16::MAX,
    decreases whole.len() - k,
{
    if k == whole.len() {
        assert(prefix =~= whole);
    } else {
        let next = whole.subrange(0, k + 1);
        assert(next.drop_last() =~= prefix);
        assert(next.last() == whole[k]);
        assert(digits_value(next) == digits_value(prefix) * 10 + (next.last() as int - 48));
        assert(is_digit_char(whole[k]));
        assert(digits_value(prefix) * 10 >= digits_value(prefix)) by (nonlinear_arith)
            requires
                digits_value(prefix) > 0,
        ;
        lemma_digits_value_grows(next, whole, k + 1);
    }
}

impl FragmentName {
    /// Parses a textual fragment name such as `"b2"`: a one-letter series
    /// followed by a decimal ordinal.
    pub fn parse(s: &str) -> (r: Result<FragmentName, FragmentSeriesParsingError>)
        ensures
            parse_name_result(s@, r),
    {
        let n = s.unicode_len();
        if n == 0 {
            return Err(FragmentSeriesParsingError::Empty);
        }
        let head = s.get_char(0);
        let series = match parse_series_char(head) {
            Some(series) => series,
            None => {
                let t = String::from_str(s.substring_char(0, 1));
                assert(t@ =~= s@.take(1));
                return Err(FragmentSeriesParsingError::UnknownSeries(t));
            },
        };
        match parse_ordinal(s, 1) {
            Some(ordinal) => Ok(FragmentName(series, ordinal)),
            None => {
                let t = String::from_str(s.substring_char(1, n));
                assert(t@ =~= s@.skip(1));
                Err(FragmentSeriesParsingError::InvalidOrdinal(t))
            },
        }
    }
}

impl core::str::FromStr for FragmentName {
    type Err = FragmentSeriesParsingError;

    fn from_str(s: &str) -> Result<Self, Self::Err> {
        FragmentName::parse(s)
    }
}

/// A fragment ion: a mass, the position of the owning parent, a series
/// classifier and an ordinal within the series.
#[derive(Debug, Clone, Copy, PartialEq, Eq, Hash, Structural)]
pub struct Fragment {
    pub mass: MassType,
    pub parent_id: ParentID,
    pub series: FragmentSeries,
    pub ordinal: u16,
}

impl Fragment {
    /// Builds a fragment record from its four attributes.
    pub fn new(mass: MassType, parent_id: ParentID, series: FragmentSeries, ordinal: u16) -> (r:
        Self)
        ensures
            r == (Fragment { mass, parent_id, series, ordinal }),
    {
        Self { mass, parent_id, series, ordinal }
    }
}

impl Default for Fragment {
    /// A zero-mass fragment of the fallback series.
    fn default() -> (r: Self)
        ensures
            r == (Fragment {
                mass: 0,
                parent_id: 0,
                series: FragmentSeries::Unknown,
                ordinal: 0,
            }),
    {
        Fragment { mass: 0, parent_id: 0, series: FragmentSeries::Unknown, ordinal: 0 }
    }
}

impl IndexSortable for Fragment {
    open spec fn mass_spec(&self) -> MassType {
        self.mass
    }

    open spec fn parent_id_spec(&self) -> ParentID {
        self.parent_id
    }

    fn mass(&self) -> (r: MassType) {
        self.mass
    }

    fn parent_id(&self) -> (r: ParentID) {
        self.parent_id
    }
}

} // verus!
