use vstd::prelude::*;
use crate::errors::RangeError;
use crate::interval::Range;

verus! {

/// Whether `c` opens an interval: `(` or `[`.
pub open spec fn is_open_char(c: char) -> bool {
    c == '(' || c == '['
}

/// Whether `c` closes an interval: `)` or `]`.
pub open spec fn is_close_char(c: char) -> bool {
    c == ')' || c == ']'
}

/// Whether `c` is an ASCII decimal digit.
pub open spec fn is_digit_char(c: char) -> bool {
    '0' <= c && c <= '9'
}

/// Whether every character of `s` with index in `[lo, hi)` is a digit.
pub open spec fn digit_run(s: Seq<char>, lo: int, hi: int) -> bool {
    forall|i: int| lo <= i < hi ==> is_digit_char(#[trigger] s[i])
}

/// Whether index `k` splits `s` into the grammar's two digit runs: a comma
/// at `k`, at least one digit on each side, a bracket at each end.
pub open spec fn comma_split_at(s: Seq<char>, k: int) -> bool {
    &&& 2 <= k <= s.len() - 3
    &&& s[k] == ','
    &&& digit_run(s, 1, k)
    &&& digit_run(s, k + 1, s.len() - 1)
}

/// Whether `s` matches the notation grammar
/// `open digit+ "," digit+ close` in full.
pub open spec fn is_notation(s: Seq<char>) -> bool {
    &&& s.len() >= 5
    &&& is_open_char(s[0])
    &&& is_close_char(s[s.len() - 1])
    &&& exists|k: int| comma_split_at(s, k)
}

/// The index of the comma of a notation string. Digits are never commas, so
/// at most one index satisfies [`comma_split_at`].
pub open spec fn comma_index_of(s: Seq<char>) -> int {
    choose|k: int| comma_split_at(s, k)
}

/// The numeric value of `c` as a digit.
pub open spec fn digit_of(c: char) -> int {
    c as int - '0' as int
}

/// The base-10 value of a digit sequence; most significant digit first.
pub open spec fn digits_val(s: Seq<char>) -> int
    decreases s.len(),
{
    if s.len() == 0 {
        0
    } else {
        10 * digits_val(s.drop_last()) + digit_of(s.last())
    }
}

/// The number written before the comma of a notation string.
pub open spec fn start_val_of(s: Seq<char>) -> int {
    digits_val(s.subrange(1, comma_index_of(s)))
}

/// The number written after the comma of a notation string.
pub open spec fn end_val_of(s: Seq<char>) -> int {
    digits_val(s.subrange(comma_index_of(s) + 1, s.len() - 1))
}

/// What [`Range::new`] returns for a given notation text.
pub open spec fn parse_spec(s: Seq<char>) -> Result<Range, RangeError> {
    if !is_notation(s) {
        Err(RangeError::InvalidFormat)
    } else if start_val_of(s) > i32::MAX || end_val_of(s) > i32::MAX {
        Err(RangeError::InvalidNumber)
    } else if start_val_of(s) >= end_val_of(s) {
        Err(RangeError::InvalidRange)
    } else {
        Ok(Range {
            start_inclusive: s[0] == '[',
            start_value: start_val_of(s) as i32,
            end_value: end_val_of(s) as i32,
            end_inclusive: s[s.len() - 1] == ']',
        })
    }
}

/// Relies on `regex::Regex::is_match` with the anchored pattern
/// `\A(\(|\[)[0-9]+,[0-9]+(\)|\])\z`: the call reports whether the whole
/// text is an opening bracket, a digit run, a comma, a digit run and a
/// closing bracket, which is exactly [`is_notation`].
#[verifier::external_body]
fn grammar_matches(s: &str) -> (r: bool)
    ensures
        r == is_notation(s@),
{
    let re = regex::Regex::new(r"\A(\(|\[)[0-9]+,[0-9]+(\)|\])\z").unwrap();
    re.is_match(s)
}

/// Every digit sequence has a non-negative value.
proof fn lemma_digits_val_nonneg(s: Seq<char>)
    requires
        digit_run(s, 0, s.len() as int),
    ensures
        digits_val(s) >= 0,
    decreases s.len(),
{
    if s.len() > 0 {
        lemma_digits_val_nonneg(s.drop_last());
    }
}

/// Dropping trailing digits never increases the value of a digit sequence.
proof fn lemma_digits_val_prefix_le(s: Seq<char>, j: int)
    requires
        0 <= j <= s.len(),
        digit_run(s, 0, s.len() as int),
    ensures
        digits_val(s.subrange(0, j)) <= digits_val(s),
    decreases s.len(),
{
    if j == s.len() {
        assert(s.subrange(0, j) =~= s);
    } else {
        lemma_digits_val_prefix_le(s.drop_last(), j);
        assert(s.drop_last().subrange(0, j) =~= s.subrange(0, j));
        lemma_digits_val_nonneg(s.drop_last());
    }
}

/// Reads the digits of `s` at indices `[lo, hi)` as a base-10 number;
/// `None` when the number does not fit in `i32`.
fn parse_digits(s: &str, lo: usize, hi: usize) -> (r: Option<i32>)
    requires
        lo < hi <= s@.len(),
        digit_run(s@, lo as int, hi as int),
    ensures
        digits_val(s@.subrange(lo as int, hi as int)) >= 0,
        digits_val(s@.subrange(lo as int, hi as int)) <= i32::MAX ==> r == Some(
            digits_val(s@.subrange(lo as int, hi as int)) as i32,
        ),
        digits_val(s@.subrange(lo as int, hi as int)) > i32::MAX ==> r is None,
{
    proof {
        let whole = s@.subrange(lo as int, hi as int);
        assert forall|t: int| 0 <= t < whole.len() implies is_digit_char(#[trigger] whole[t]) by {
            assert(whole[t] == s@[lo + t]);
        }
        lemma_digits_val_nonneg(whole);
    }
    let mut i: usize = lo;
    let mut acc: u64 = 0;
    while i < hi
        invariant
            lo <= i <= hi <= s@.len(),
            digit_run(s@, lo as int, hi as int),
            acc == digits_val(s@.subrange(lo as int, i as int)),
            acc <= i32::MAX,
        decreases hi - i,
    {
        let c = s.get_char(i);
        let d: u64 = c as u64 - 48;
        let next: u64 = acc * 10 + d;
        proof {
            let extended = s@.subrange(lo as int, i + 1);
            assert(extended.drop_last() =~= s@.subrange(lo as int, i as int));
            assert(extended.last() == s@[i as int]);
        }
        if next > i32::MAX as u64 {
            proof {
                let whole = s@.subrange(lo as int, hi as int);
                lemma_digits_val_prefix_le(whole, i + 1 - lo);
                assert(whole.subrange(0, i + 1 - lo) =~= s@.subrange(lo as int, i + 1));
            }
            return None;
        }
        acc = next;
        i += 1;
    }
    Some(acc as i32)
}

impl Range {
    /// Parses a notation string such as `"[2,6)"` into an interval.
    ///
    /// The result depends on the text alone: `InvalidFormat` when the text
    /// does not match the grammar, `InvalidNumber` when a bound does not fit
    /// in `i32`, `InvalidRange` when the bounds are not strictly ordered,
    /// and otherwise the interval with exactly the written fields.
    pub fn new(range: String) -> (r: Result<Range, RangeError>)
        ensures
            r == parse_spec(range@),
            r matches Ok(rg) ==> rg.wf(),
    {
        let s: &str = range.as_str();
        if !grammar_matches(s) {
            return Err(RangeError::InvalidFormat);
        }
        let n: usize = s.unicode_len();
        let ghost k: int = comma_index_of(s@);
        let mut comma: usize = 1;
        while s.get_char(comma) != ','
            invariant
                1 <= comma <= k,
                k == comma_index_of(s@),
                comma_split_at(s@, k),
                s@.len() == n,
            decreases k - comma,
        {
            comma += 1;
        }
        let start_inclusive = s.get_char(0) == '[';
        let end_inclusive = s.get_char(n - 1) == ']';
        let start_parsed = parse_digits(s, 1, comma);
        let end_parsed = parse_digits(s, comma + 1, n - 1);
        let (start_value, end_value) = match (start_parsed, end_parsed) {
            (Some(a), Some(b)) => (a, b),
            _ => {
                return Err(RangeError::InvalidNumber);
            },
        };
        if start_value >= end_value {
            return Err(RangeError::InvalidRange);
        }
        Ok(Range { start_inclusive, start_value, end_value, end_inclusive })
    }
}

/// Parsing is deterministic: the outcome is a function of the text alone,
/// so two results obtained for the same text agree in every field.
pub proof fn lemma_parse_deterministic(
    s: Seq<char>,
    r1: Result<Range, RangeError>,
    r2: Result<Range, RangeError>,
)
    requires
        r1 == parse_spec(s),
        r2 == parse_spec(s),
    ensures
        r1 == r2,
{
}

} // verus!

