//! Extraction timestamps: RFC 3339 text with an explicit timezone offset,
//! validated on construction and kept exactly as written.

use vstd::prelude::*;
use crate::json::is_digit;
use crate::json::digits_val;
use crate::json::scan_digits;
use crate::error::DecodeError;

verus! {

broadcast use vstd::std_specs::vec::group_vec_axioms;

/// Days in a month of the proleptic Gregorian calendar.
pub open spec fn days_in_month(year: int, month: int) -> int {
    if month == 1 || month == 3 || month == 5 || month == 7 || month == 8 || month == 10 || month
        == 11 {
        31
    } else if month == 4 || month == 6 || month == 9 {
        30
    } else if year % 4 == 0 && (year % 100 != 0 || year % 400 == 0) {
        29
    } else {
        28
    }
}

/// An RFC 3339 timestamp with an explicit offset:
/// `YYYY-MM-DDThh:mm:ss`, then an optional fraction of a second of one to
/// nine digits, then `Z` or `+hh:mm` or `-hh:mm`. The date-time separator
/// and the zulu marker are accepted in either case, as RFC 3339 allows. A
/// text without the offset part is not accepted. Field values are held to
/// their calendar ranges.
pub open spec fn is_rfc3339(s: Seq<char>) -> bool {
    let n = s.len() as int;
    let month = digits_val(s, 5, 7);
    let o = if n >= 20 && s[19] == '.' {
        scan_digits(s, 20)
    } else {
        19int
    };
    &&& n >= 20
    &&& is_digit(s[0]) && is_digit(s[1]) && is_digit(s[2]) && is_digit(s[3])
    &&& s[4] == '-' && is_digit(s[5]) && is_digit(s[6])
    &&& s[7] == '-' && is_digit(s[8]) && is_digit(s[9])
    &&& (s[10] == 'T' || s[10] == 't')
    &&& is_digit(s[11]) && is_digit(s[12]) && s[13] == ':'
    &&& is_digit(s[14]) && is_digit(s[15]) && s[16] == ':'
    &&& is_digit(s[17]) && is_digit(s[18])
    &&& 1 <= month <= 12
    &&& 1 <= digits_val(s, 8, 10) <= days_in_month(digits_val(s, 0, 4), month)
    &&& digits_val(s, 11, 13) <= 23
    &&& digits_val(s, 14, 16) <= 59
    &&& digits_val(s, 17, 19) <= 59
    &&& (s[19] != '.' || (o - 20 >= 1 && o - 20 <= 9))
    &&& o < n
    &&& {
        ||| ((s[o] == 'Z' || s[o] == 'z') && n == o + 1)
        ||| ((s[o] == '+' || s[o] == '-') && n == o + 6 && is_digit(s[o + 1]) && is_digit(
            s[o + 2],
        ) && s[o + 3] == ':' && is_digit(s[o + 4]) && is_digit(s[o + 5]) && digits_val(
            s,
            o + 1,
            o + 3,
        ) <= 23 && digits_val(s, o + 4, o + 6) <= 59)
    }
}

/// The moment a record was pulled from its source, as the exact RFC 3339
/// text that travels on the wire.
pub struct Timestamp {
    text: String,
}

impl View for Timestamp {
    type V = Seq<char>;

    closed spec fn view(&self) -> Seq<char> {
        self.text@
    }
}

/// The value of the two decimal digits at `a`, in executable form.
fn two_digits(s: &Vec<char>, a: usize) -> (r: u32)
    requires
        a + 2 <= s@.len(),
        s@.len() <= usize::MAX,
        is_digit(s@[a as int]),
        is_digit(s@[a + 1]),
    ensures
        r == digits_val(s@, a as int, a + 2),
        r <= 99,
{
    let h = s[a] as u32 - '0' as u32;
    let l = s[a + 1] as u32 - '0' as u32;
    assert(digits_val(s@, a as int, a + 2) == digits_val(s@, a as int, a + 1) * 10 + (s@[a
        + 1] as int - '0' as int));
    assert(digits_val(s@, a as int, a + 1) == digits_val(s@, a as int, a as int) * 10 + (s@[
        a as int] as int - '0' as int));
    h * 10 + l
}

fn digit_ok(s: &Vec<char>, a: usize) -> (r: bool)
    requires
        a < s@.len(),
    ensures
        r == is_digit(s@[a as int]),
{
    let c = s[a];
    c >= '0' && c <= '9'
}

/// Whether a character sequence is an RFC 3339 timestamp with an offset,
/// in executable form.
#[verifier::loop_isolation(false)]
fn check_rfc3339(s: &Vec<char>) -> (r: bool)
    ensures
        r == is_rfc3339(s@),
{
    let n = s.len();
    if n < 20 {
        return false;
    }
    if !(digit_ok(s, 0) && digit_ok(s, 1) && digit_ok(s, 2) && digit_ok(s, 3)) {
        return false;
    }
    if !(s[4] == '-' && digit_ok(s, 5) && digit_ok(s, 6)) {
        return false;
    }
    if !(s[7] == '-' && digit_ok(s, 8) && digit_ok(s, 9)) {
        return false;
    }
    if s[10] != 'T' && s[10] != 't' {
        return false;
    }
    if !(digit_ok(s, 11) && digit_ok(s, 12) && s[13] == ':') {
        return false;
    }
    if !(digit_ok(s, 14) && digit_ok(s, 15) && s[16] == ':') {
        return false;
    }
    if !(digit_ok(s, 17) && digit_ok(s, 18)) {
        return false;
    }
    let year = two_digits(s, 0) * 100 + two_digits(s, 2);
    proof {
        assert(digits_val(s@, 0, 4) == digits_val(s@, 0, 3) * 10 + (s@[3] as int - '0' as int));
        assert(digits_val(s@, 0, 3) == digits_val(s@, 0, 2) * 10 + (s@[2] as int - '0' as int));
        assert(digits_val(s@, 2, 4) == digits_val(s@, 2, 3) * 10 + (s@[3] as int - '0' as int));
        assert(digits_val(s@, 2, 3) == digits_val(s@, 2, 2) * 10 + (s@[2] as int - '0' as int));
        assert(year as int == digits_val(s@, 0, 4));
    }
    let month = two_digits(s, 5);
    if !(1 <= month && month <= 12) {
        return false;
    }
    let day = two_digits(s, 8);
    let dmax: u32 = if month == 1 || month == 3 || month == 5 || month == 7 || month == 8 || month
        == 10 || month == 11 {
        31
    } else if month == 4 || month == 6 || month == 9 {
        30
    } else if year % 4 == 0 && (year % 100 != 0 || year % 400 == 0) {
        29
    } else {
        28
    };
    if !(1 <= day && day <= dmax) {
        return false;
    }
    if two_digits(s, 11) > 23 {
        return false;
    }
    if two_digits(s, 14) > 59 {
        return false;
    }
    if two_digits(s, 17) > 59 {
        return false;
    }
    let o: usize = if s[19] == '.' {
        let mut x: usize = 20;
        while x < n && digit_ok(s, x)
            invariant
                20 <= x <= n == s@.len(),
                scan_digits(s@, 20) == scan_digits(s@, x as int),
            decreases n - x,
        {
            x = x + 1;
        }
        assert(scan_digits(s@, x as int) == x);
        if !(x >= 21 && x <= 29) {
            return false;
        }
        x
    } else {
        19
    };
    if o >= n {
        return false;
    }
    if s[o] == 'Z' || s[o] == 'z' {
        n == o + 1
    } else if s[o] == '+' || s[o] == '-' {
        if !(n == o + 6) {
            return false;
        }
        if !(digit_ok(s, o + 1) && digit_ok(s, o + 2) && s[o + 3] == ':' && digit_ok(s, o + 4)
            && digit_ok(s, o + 5)) {
            return false;
        }
        two_digits(s, o + 1) <= 23 && two_digits(s, o + 4) <= 59
    } else {
        false
    }
}

impl Timestamp {
    /// Whether this timestamp is a sound RFC 3339 text with an offset; the
    /// constructor establishes it and nothing changes it afterwards.
    pub open spec fn wf(&self) -> bool {
        is_rfc3339(self@)
    }

    /// Accept exactly the RFC 3339 texts that carry an explicit offset; a
    /// naive timestamp or any other text is refused.
    pub fn new(text: String) -> (r: Result<Timestamp, DecodeError>)
        ensures
            is_rfc3339(text@) ==> (r matches Ok(t) && t@ == text@ && t.wf()),
            !is_rfc3339(text@) ==> r == Err::<Timestamp, DecodeError>(DecodeError::WrongFieldKind),
    {
        let cs = crate::json::str_chars(text.as_str());
        if check_rfc3339(&cs) {
            Ok(Timestamp { text })
        } else {
            Err(DecodeError::WrongFieldKind)
        }
    }

    /// The exact text, as it came and as it will be written.
    pub fn as_text(&self) -> (r: &str)
        ensures
            r@ == self@,
    {
        self.text.as_str()
    }

    /// An owned copy of the exact text.
    pub fn to_text(&self) -> (r: String)
        ensures
            r@ == self@,
    {
        self.text.clone()
    }
}

} // verus!
