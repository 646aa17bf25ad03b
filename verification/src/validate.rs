//! Validation of usernames and passwords, performed before any key
//! generation or storage access.

use vstd::prelude::*;
use vstd::string::StringSliceAdditionalSpecFns;
use vstd::string::StrSliceExecFns;

verus! {

/// A password is acceptable when it is at least 4 bytes long.
pub open spec fn password_valid(p: &str) -> bool {
    p.spec_bytes().len() >= 4
}

/// Checks the password format rule: at least 4 bytes.
pub fn validate_password(password: &str) -> (r: bool)
    ensures
        r == password_valid(password),
{
    password.as_bytes().len() >= 4
}

/// A character a username may hold: an ASCII letter or digit, a period or
/// an underscore.
pub open spec fn username_char_ok(c: char) -> bool {
    let u = c as u32;
    (48 <= u <= 57) || (65 <= u <= 90) || (97 <= u <= 122) || u == 46 || u == 95
}

/// The character is one of the separators, period or underscore.
pub open spec fn is_separator(c: char) -> bool {
    c as u32 == 46 || c as u32 == 95
}

/// How many characters of `s` are periods.
pub open spec fn period_count(s: Seq<char>) -> int
    decreases s.len(),
{
    if s.len() == 0 {
        0
    } else {
        period_count(s.drop_last()) + if s.last() as u32 == 46 {
            1int
        } else {
            0
        }
    }
}

/// A username is acceptable when it is 5 to 21 characters of ASCII letters,
/// digits, periods and underscores, does not begin or end with a separator,
/// never holds two separators in a row, and holds at most two periods.
pub open spec fn username_valid(s: Seq<char>) -> bool {
    &&& 5 <= s.len() <= 21
    &&& !is_separator(s[0])
    &&& !is_separator(s[s.len() - 1])
    &&& forall|i: int| 0 <= i < s.len() ==> username_char_ok(#[trigger] s[i])
    &&& forall|i: int|
        0 <= i < s.len() - 1 ==> !(is_separator(#[trigger] s[i]) && is_separator(s[i + 1]))
    &&& period_count(s) <= 2
}

/// Checks the username format rules.
pub fn validate_username(username: &str) -> (r: bool)
    ensures
        r == username_valid(username@),
{
    let n = username.unicode_len();
    if n < 5 || n > 21 {
        return false;
    }
    let mut periods: usize = 0;
    let mut i: usize = 0;
    while i < n
        invariant
            0 <= i <= n,
            n == username@.len(),
            5 <= n <= 21,
            periods == period_count(username@.take(i as int)),
            periods <= i,
            forall|k: int| 0 <= k < i ==> username_char_ok(#[trigger] username@[k]),
            forall|k: int|
                0 <= k < i - 1 ==> !(is_separator(#[trigger] username@[k]) && is_separator(
                    username@[k + 1],
                )),
            i > 0 ==> !is_separator(username@[0]),
        decreases n - i,
    {
        let c = username.get_char(i);
        let u = c as u32;
        let ok = (48 <= u && u <= 57) || (65 <= u && u <= 90) || (97 <= u && u <= 122) || u == 46
            || u == 95;
        if !ok {
            return false;
        }
        let sep = u == 46 || u == 95;
        if sep && i == 0 {
            return false;
        }
        if sep && i > 0 {
            let p = username.get_char(i - 1);
            if p as u32 == 46 || p as u32 == 95 {
                return false;
            }
        }
        proof {
            assert(username@.take(i + 1).drop_last() =~= username@.take(i as int));
            assert(username@.take(i + 1).last() == username@[i as int]);
        }
        if u == 46 {
            periods = periods + 1;
        }
        i = i + 1;
    }
    proof {
        assert(username@.take(n as int) =~= username@);
    }
    if periods > 2 {
        return false;
    }
    let last = username.get_char(n - 1);
    if last as u32 == 46 || last as u32 == 95 {
        return false;
    }
    true
}

} // verus!
