//! The search API's parameter handling.
//!
//! The web layer hands the query parameters over as plain strings; here
//! they are validated against the configured character pattern, and a
//! removal request's row id is read leniently: any string that is not a
//! plain decimal `i32` counts as id zero.

use vstd::prelude::*;

use crate::scan::{digits_end, lemma_digits_end_all_digits, lemma_digits_val_prefix,
    spec_digits_end, spec_digits_val, spec_is_digit};
use crate::text::to_char_vec;

verus! {

/// A search request: one pattern per searchable column.
#[derive(Debug, Clone)]
pub struct SearchParam {
    pub chan: String,
    pub nick: String,
    pub url: String,
    pub title: String,
}

/// A removal request, carrying the row id as text.
#[derive(Debug, Clone)]
pub struct RemoveParam {
    pub id: String,
}

/// Relies on `regex::Regex::is_match`: true when the pattern matches
/// somewhere in the text.
#[verifier::external_body]
fn regex_is_match(re: &regex::Regex, text: &str) -> bool {
    re.is_match(text)
}

impl SearchParam {
    /// Holds every field against the allowed-character pattern; a request
    /// with any other character in any field is refused.
    pub fn validate(&self, re: &regex::Regex) -> bool {
        regex_is_match(re, self.chan.as_str()) && regex_is_match(re, self.nick.as_str())
            && regex_is_match(re, self.url.as_str()) && regex_is_match(re, self.title.as_str())
    }
}

/// The value of a string of the form `[+-]digits` when it fits an `i32`.
pub open spec fn spec_i32_of(s: Seq<char>) -> Option<int> {
    let digits_from: int = if s.len() > 0 && (s[0] == '+' || s[0] == '-') {
        1
    } else {
        0
    };
    if s.len() <= digits_from || spec_digits_end(s, digits_from) != s.len() {
        None
    } else {
        let magnitude = spec_digits_val(s.subrange(digits_from, s.len() as int));
        let value: int = if s.len() > 0 && s[0] == '-' {
            -magnitude
        } else {
            magnitude
        };
        if i32::MIN <= value <= i32::MAX {
            Some(value)
        } else {
            None
        }
    }
}

impl RemoveParam {
    /// The row id the request names: its text read as a decimal `i32`, or
    /// zero when it is not one.
    pub fn row_id(&self) -> (r: i32)
        ensures
            r == match spec_i32_of(self.id@) {
                Some(v) => v,
                None => 0,
            },
    {
        let v = to_char_vec(self.id.as_str());
        let start: usize = if v.len() > 0 && (v[0] == '+' || v[0] == '-') {
            1
        } else {
            0
        };
        if v.len() <= start {
            return 0;
        }
        let end = digits_end(&v, start);
        if end != v.len() {
            return 0;
        }
        proof {
            lemma_digits_end_all_digits(v@, start as int);
        }
        let negative = v.len() > 0 && v[0] == '-';
        let ghost digits = v@.subrange(start as int, v@.len() as int);
        let mut value: i64 = 0;
        let mut i = start;
        while i < end
            invariant
                start <= i <= end == v@.len(),
                v@ == self.id@,
                start <= 1,
                start == 1 <==> v@.len() > 0 && (v@[0] == '+' || v@[0] == '-'),
                digits == v@.subrange(start as int, v@.len() as int),
                spec_digits_end(v@, start as int) == v@.len(),
                forall|k: int| start <= k < end ==> spec_is_digit(#[trigger] v@[k]),
                value == spec_digits_val(digits.take(i - start)),
                0 <= value <= 0x8000_0000i64,
            decreases end - i,
        {
            let c = v[i];
            assert(spec_is_digit(c));
            let d: i64 = (c as u32) as i64 - 48;
            value = value * 10 + d;
            i = i + 1;
            proof {
                assert(digits.take(i - start).drop_last() =~= digits.take(i - 1 - start));
                assert(digits.take(i - start).last() == v@[i - 1]);
            }
            if value > 0x8000_0000i64 {
                proof {
                    assert(forall|k: int|
                        0 <= k < digits.len() ==> #[trigger] digits[k] == v@[start + k]);
                    assert(value == spec_digits_val(digits.take(i - start)));
                    lemma_digits_val_prefix(digits, i - start);
                    assert(spec_digits_val(digits) >= value);
                    assert(spec_i32_of(self.id@) is None);
                }
                return 0;
            }
        }
        proof {
            assert(digits.take(end - start) =~= digits);
        }
        if negative {
            if value == 0x8000_0000i64 {
                return i32::MIN;
            }
            -(value as i32)
        } else {
            if value > i32::MAX as i64 {
                return 0;
            }
            value as i32
        }
    }
}

} // verus!
