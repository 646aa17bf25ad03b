//! A family of small `have` predicates: each decides whether some value is
//! present or some simple property holds, with an exact contract.
//!
//! The letter, digit and whitespace classes of the string predicates are
//! the ASCII ones; the palindrome test classifies alphanumerics in the
//! Unicode sense, through a named class.

use vstd::prelude::*;
use vstd::string::StrSliceExecFns;
use std::collections::HashMap;
use std::collections::HashSet;
use crate::text::{contains_sub, find_char_from, has_prefix, has_suffix, rfind_char_before,
    str_contains, str_ends_with, str_find_char, str_rfind_char, str_starts_with};

verus! {

/// Whether the option contains a value.
pub fn have<T>(option: &Option<T>) -> (r: bool)
    ensures
        r == option.is_some(),
{
    option.is_some()
}

/// Whether the result is a success.
pub fn have_result<T, E>(result: &Result<T, E>) -> (r: bool)
    ensures
        r == result.is_ok(),
{
    result.is_ok()
}

/// Whether the string is non-empty.
pub fn have_str(s: &str) -> (r: bool)
    ensures
        r == (s@.len() != 0),
{
    !s.is_empty()
}

/// Whether the vector is non-empty.
pub fn have_vec<T>(vec: &Vec<T>) -> (r: bool)
    ensures
        r == (vec@.len() != 0),
{
    !vec.is_empty()
}

/// Whether the slice is non-empty.
pub fn have_slice<T>(slice: &[T]) -> (r: bool)
    ensures
        r == (slice@.len() != 0),
{
    slice.len() != 0
}

/// Whether the map is non-empty.
pub fn have_hashmap<K, V>(map: &HashMap<K, V>) -> (r: bool)
    ensures
        r == !map@.is_empty(),
{
    !map.is_empty()
}

/// Whether the set is non-empty.
pub fn have_hashset<T>(set: &HashSet<T>) -> (r: bool)
    ensures
        r == !set@.is_empty(),
{
    !set.is_empty()
}

/// Whether the string contains the substring.
pub fn have_substr(s: &str, substr: &str) -> (r: bool)
    ensures
        r == contains_sub(s@, substr@),
{
    str_contains(s, substr)
}

/// Whether the number is non-zero.
pub fn have_number(num: i64) -> (r: bool)
    ensures
        r == (num != 0),
{
    num != 0
}

/// Whether the boolean is true.
pub fn have_bool(b: bool) -> (r: bool)
    ensures
        r == b,
{
    b
}

/// Whether the optional reference holds one.
pub fn have_ref<T>(r: &Option<&T>) -> (res: bool)
    ensures
        res == r.is_some(),
{
    r.is_some()
}

/// Whether the vector contains the element.
pub fn have_vec_elem(vec: &Vec<i64>, elem: &i64) -> (r: bool)
    ensures
        r == vec@.contains(*elem),
{
    have_slice_elem(vec.as_slice(), elem)
}

/// Whether the slice contains the element.
pub fn have_slice_elem(slice: &[i64], elem: &i64) -> (r: bool)
    ensures
        r == slice@.contains(*elem),
{
    let n = slice.len();
    let mut i: usize = 0;
    while i < n
        invariant
            0 <= i <= n,
            n == slice@.len(),
            forall|k: int| 0 <= k < i ==> slice@[k] != *elem,
        decreases n - i,
    {
        if slice[i] == *elem {
            return true;
        }
        i = i + 1;
    }
    false
}

/// Whether the string begins with the prefix.
pub fn have_str_prefix(s: &str, prefix: &str) -> (r: bool)
    ensures
        r == has_prefix(s@, prefix@),
{
    str_starts_with(s, prefix)
}

/// Whether the string ends with the suffix.
pub fn have_str_suffix(s: &str, suffix: &str) -> (r: bool)
    ensures
        r == has_suffix(s@, suffix@),
{
    str_ends_with(s, suffix)
}

/// Whether the option holds exactly the given value.
pub fn have_option_value(option: &Option<i64>, value: &i64) -> (r: bool)
    ensures
        r == (option matches Some(v) && v == *value),
{
    match option {
        Some(v) => *v == *value,
        None => false,
    }
}

/// Whether the result holds exactly the given success value.
pub fn have_result_value<E>(result: &Result<i64, E>, value: &i64) -> (r: bool)
    ensures
        r == (result matches Ok(v) && v == *value),
{
    match result {
        Ok(v) => *v == *value,
        Err(_) => false,
    }
}

/// Whether the character occurs in the string.
pub fn have_char_in_str(s: &str, c: char) -> (r: bool)
    ensures
        r == s@.contains(c),
{
    let n = s.unicode_len();
    let mut i: usize = 0;
    while i < n
        invariant
            0 <= i <= n,
            n == s@.len(),
            forall|k: int| 0 <= k < i ==> s@[k] != c,
        decreases n - i,
    {
        let ci = s.get_char(i);
        if ci as u32 == c as u32 {
            proof {
                broadcast use vstd::utf8::char_u32_cast;

                assert(s@[i as int] == c);
            }
            return true;
        }
        i = i + 1;
    }
    false
}

/// Some element of `a` occurs in `b`.
pub open spec fn shares_element(a: Seq<i64>, b: Seq<i64>) -> bool {
    exists|i: int| 0 <= i < a.len() && b.contains(#[trigger] a[i])
}

/// Whether the two slices have any common element.
pub fn have_common_elements(slice1: &[i64], slice2: &[i64]) -> (r: bool)
    ensures
        r == shares_element(slice1@, slice2@),
{
    let n = slice1.len();
    let mut i: usize = 0;
    while i < n
        invariant
            0 <= i <= n,
            n == slice1@.len(),
            forall|k: int| 0 <= k < i ==> !slice2@.contains(#[trigger] slice1@[k]),
        decreases n - i,
    {
        if have_slice_elem(slice2, &slice1[i]) {
            return true;
        }
        i = i + 1;
    }
    false
}

/// Whether the number lies in the closed range.
pub fn have_number_in_range(num: i64, min: i64, max: i64) -> (r: bool)
    ensures
        r == (min <= num && num <= max),
{
    num >= min && num <= max
}

/// Adjacent elements never decrease.
pub open spec fn sorted_i64(s: Seq<i64>) -> bool {
    forall|k: int| 0 <= k < s.len() - 1 ==> #[trigger] s[k] <= s[k + 1]
}

/// Whether the vector is sorted in non-decreasing order.
pub fn have_sorted_vec(vec: &Vec<i64>) -> (r: bool)
    ensures
        r == sorted_i64(vec@),
{
    let n = vec.len();
    if n == 0 {
        return true;
    }
    let mut i: usize = 0;
    while i < n - 1
        invariant
            0 <= i <= n - 1,
            n == vec@.len(),
            n >= 1,
            forall|k: int| 0 <= k < i ==> #[trigger] vec@[k] <= vec@[k + 1],
        decreases n - i,
    {
        if vec[i] > vec[i + 1] {
            return false;
        }
        i = i + 1;
    }
    true
}

/// The character is an ASCII digit.
pub open spec fn ascii_digit(c: char) -> bool {
    48 <= c as u32 <= 57
}

/// The character is an ASCII letter.
pub open spec fn ascii_letter(c: char) -> bool {
    (65 <= c as u32 <= 90) || (97 <= c as u32 <= 122)
}

/// The character is ASCII whitespace: space, tab, line feed, vertical tab,
/// form feed or carriage return.
pub open spec fn ascii_whitespace(c: char) -> bool {
    c as u32 == 32 || c as u32 == 9 || c as u32 == 10 || c as u32 == 11 || c as u32 == 12 || c
        as u32 == 13
}

/// Whether every character of the string is an ASCII digit.
pub fn have_numeric_str(s: &str) -> (r: bool)
    ensures
        r == (forall|i: int| 0 <= i < s@.len() ==> ascii_digit(#[trigger] s@[i])),
{
    let n = s.unicode_len();
    let mut i: usize = 0;
    while i < n
        invariant
            0 <= i <= n,
            n == s@.len(),
            forall|k: int| 0 <= k < i ==> ascii_digit(#[trigger] s@[k]),
        decreases n - i,
    {
        let u = s.get_char(i) as u32;
        if !(48 <= u && u <= 57) {
            return false;
        }
        i = i + 1;
    }
    true
}

/// Whether every character of the string is an ASCII letter.
pub fn have_alpha_str(s: &str) -> (r: bool)
    ensures
        r == (forall|i: int| 0 <= i < s@.len() ==> ascii_letter(#[trigger] s@[i])),
{
    let n = s.unicode_len();
    let mut i: usize = 0;
    while i < n
        invariant
            0 <= i <= n,
            n == s@.len(),
            forall|k: int| 0 <= k < i ==> ascii_letter(#[trigger] s@[k]),
        decreases n - i,
    {
        let u = s.get_char(i) as u32;
        if !((65 <= u && u <= 90) || (97 <= u && u <= 122)) {
            return false;
        }
        i = i + 1;
    }
    true
}

/// Whether every character of the string is ASCII whitespace.
pub fn have_whitespace_str(s: &str) -> (r: bool)
    ensures
        r == (forall|i: int| 0 <= i < s@.len() ==> ascii_whitespace(#[trigger] s@[i])),
{
    let n = s.unicode_len();
    let mut i: usize = 0;
    while i < n
        invariant
            0 <= i <= n,
            n == s@.len(),
            forall|k: int| 0 <= k < i ==> ascii_whitespace(#[trigger] s@[k]),
        decreases n - i,
    {
        let u = s.get_char(i) as u32;
        if !(u == 32 || u == 9 || u == 10 || u == 11 || u == 12 || u == 13) {
            return false;
        }
        i = i + 1;
    }
    true
}

/// Whether the number is even.
pub fn have_even_number(num: i64) -> (r: bool)
    ensures
        r == (num % 2 == 0),
{
    num % 2 == 0
}

/// Whether the number is odd.
pub fn have_odd_number(num: i64) -> (r: bool)
    ensures
        r == (num % 2 != 0),
{
    num % 2 != 0
}

/// Whether no character of the string is an ASCII lower-case letter.
pub fn have_uppercase_str(s: &str) -> (r: bool)
    ensures
        r == (forall|i: int| 0 <= i < s@.len() ==> !(97 <= (#[trigger] s@[i]) as u32 <= 122)),
{
    let n = s.unicode_len();
    let mut i: usize = 0;
    while i < n
        invariant
            0 <= i <= n,
            n == s@.len(),
            forall|k: int| 0 <= k < i ==> !(97 <= (#[trigger] s@[k]) as u32 <= 122),
        decreases n - i,
    {
        let u = s.get_char(i) as u32;
        if 97 <= u && u <= 122 {
            return false;
        }
        i = i + 1;
    }
    true
}

/// Whether no character of the string is an ASCII upper-case letter.
pub fn have_lowercase_str(s: &str) -> (r: bool)
    ensures
        r == (forall|i: int| 0 <= i < s@.len() ==> !(65 <= (#[trigger] s@[i]) as u32 <= 90)),
{
    let n = s.unicode_len();
    let mut i: usize = 0;
    while i < n
        invariant
            0 <= i <= n,
            n == s@.len(),
            forall|k: int| 0 <= k < i ==> !(65 <= (#[trigger] s@[k]) as u32 <= 90),
        decreases n - i,
    {
        let u = s.get_char(i) as u32;
        if 65 <= u && u <= 90 {
            return false;
        }
        i = i + 1;
    }
    true
}

/// No element occurs twice.
pub open spec fn distinct_i64(s: Seq<i64>) -> bool {
    forall|i: int, j: int| 0 <= i < j < s.len() ==> #[trigger] s[i] != #[trigger] s[j]
}

/// Whether the vector's elements are pairwise distinct.
pub fn have_unique_elements(vec: &Vec<i64>) -> (r: bool)
    ensures
        r == distinct_i64(vec@),
{
    let n = vec.len();
    let mut j: usize = 0;
    while j < n
        invariant
            0 <= j <= n,
            n == vec@.len(),
            forall|a: int, b: int| 0 <= a < b < j ==> #[trigger] vec@[a] != #[trigger] vec@[b],
        decreases n - j,
    {
        let mut i: usize = 0;
        while i < j
            invariant
                0 <= i <= j < n,
                n == vec@.len(),
                forall|a: int| 0 <= a < i ==> vec@[a] != vec@[j as int],
            decreases j - i,
        {
            if vec[i] == vec[j] {
                return false;
            }
            i = i + 1;
        }
        j = j + 1;
    }
    true
}

/// Whether the vector contains any duplicate element.
pub fn have_duplicates(vec: &Vec<i64>) -> (r: bool)
    ensures
        r == !distinct_i64(vec@),
{
    !have_unique_elements(vec)
}

/// The number is at least 2 and no smaller number above 1 divides it.
pub open spec fn is_prime(n: int) -> bool {
    n >= 2 && forall|d: int| 2 <= d < n ==> #[trigger] (n % d) != 0
}

/// Whether the number is prime, by trial division up to its square root:
/// a composite number always has a divisor no larger than its root.
pub fn have_prime_number(num: u64) -> (r: bool)
    ensures
        r == is_prime(num as int),
{
    if num < 2 {
        return false;
    }
    let mut i: u64 = 2;
    while i <= num / i
        invariant
            2 <= i <= num,
            num >= 2,
            forall|d: int| 2 <= d < i ==> #[trigger] ((num as int) % d) != 0,
        decreases num - i,
    {
        if num % i == 0 {
            proof {
                assert(i * i <= num) by (nonlinear_arith)
                    requires
                        i as int <= (num as int) / (i as int),
                        i >= 2,
                        num >= 2,
                ;
                assert(i < num) by (nonlinear_arith)
                    requires
                        i as int * i as int <= num as int,
                        i >= 2,
                ;
            }
            return false;
        }
        proof {
            assert(i + 1 <= num) by (nonlinear_arith)
                requires
                    i as int <= (num as int) / (i as int),
                    i >= 2,
                    num >= 2,
            ;
        }
        i = i + 1;
    }
    proof {
        let n = num as int;
        let bound = i as int;
        assert(n < bound * bound) by (nonlinear_arith)
            requires
                n / bound < bound,
                bound >= 2,
                n >= 2,
        ;
        assert forall|d: int| 2 <= d < n implies #[trigger] (n % d) != 0 by {
            if d >= bound && n % d == 0 {
                vstd::arithmetic::div_mod::lemma_fundamental_div_mod(n, d);
                let e = n / d;
                assert(n == d * e);
                assert(2 <= e < bound) by (nonlinear_arith)
                    requires
                        n == d * e,
                        bound <= d < n,
                        n < bound * bound,
                        2 <= bound,
                        n >= 2,
                ;
                assert(n % e == 0) by (nonlinear_arith)
                    requires
                        n == d * e,
                        2 <= e,
                ;
            }
        }
    }
    true
}

/// The character counts as alphanumeric, in the Unicode sense.
pub uninterp spec fn is_alnum_of(c: char) -> bool;

/// Relies on char::is_alphanumeric: whether a character is a Unicode
/// letter or number is a function of the character alone, fixed by the
/// Unicode tables.
#[verifier::external_body]
fn char_is_alphanumeric(c: char) -> (r: bool)
    ensures
        r == is_alnum_of(c),
{
    c.is_alphanumeric()
}

/// The alphanumeric characters of `s`, in order.
pub open spec fn filter_alnum(s: Seq<char>) -> Seq<char>
    decreases s.len(),
{
    if s.len() == 0 {
        Seq::empty()
    } else {
        let rest = filter_alnum(s.drop_last());
        if is_alnum_of(s.last()) {
            rest.push(s.last())
        } else {
            rest
        }
    }
}

/// The character's code with ASCII upper-case letters folded to lower
/// case.
pub open spec fn fold_code(c: char) -> int {
    if 65 <= c as u32 <= 90 {
        c as u32 + 32
    } else {
        c as u32 as int
    }
}

/// The string reads the same forwards and backwards, over its
/// alphanumeric characters, ignoring ASCII case.
pub open spec fn palindrome(s: Seq<char>) -> bool {
    let t = filter_alnum(s);
    forall|i: int| 0 <= i < t.len() ==> fold_code(#[trigger] t[i]) == fold_code(t[t.len() - 1 - i])
}

/// Whether the string is a palindrome over its alphanumeric characters,
/// ignoring ASCII case.
pub fn have_palindrome(s: &str) -> (r: bool)
    ensures
        r == palindrome(s@),
{
    let n = s.unicode_len();
    let mut t: Vec<char> = Vec::new();
    let mut i: usize = 0;
    while i < n
        invariant
            0 <= i <= n,
            n == s@.len(),
            t@ == filter_alnum(s@.take(i as int)),
        decreases n - i,
    {
        let c = s.get_char(i);
        proof {
            assert(s@.take(i + 1).drop_last() =~= s@.take(i as int));
            assert(s@.take(i + 1).last() == s@[i as int]);
        }
        if char_is_alphanumeric(c) {
            t.push(c);
        }
        i = i + 1;
    }
    proof {
        assert(s@.take(n as int) =~= s@);
    }
    let m = t.len();
    let mut j: usize = 0;
    while j < m / 2
        invariant
            0 <= j <= m,
            m == t@.len(),
            t@ == filter_alnum(s@),
            forall|k: int| 0 <= k < j ==> fold_code(#[trigger] t@[k]) == fold_code(t@[m - 1 - k]),
        decreases m - j,
    {
        let a = t[j] as u32;
        let b = t[m - 1 - j] as u32;
        let fa = if 65 <= a && a <= 90 {
            a + 32
        } else {
            a
        };
        let fb = if 65 <= b && b <= 90 {
            b + 32
        } else {
            b
        };
        if fa != fb {
            proof {
                assert(fold_code(t@[j as int]) != fold_code(t@[m - 1 - j as int]));
            }
            return false;
        }
        j = j + 1;
    }
    proof {
        assert forall|k: int| 0 <= k < t@.len() implies fold_code(#[trigger] t@[k]) == fold_code(
            t@[t@.len() - 1 - k],
        ) by {
            if k >= m / 2 {
                let k2 = m - 1 - k;
                if k2 < m / 2 {
                    assert(fold_code(t@[k2]) == fold_code(t@[m - 1 - k2]));
                }
            }
        }
    }
    true
}

/// How many characters of `s` carry the code of `c`.
pub open spec fn count_char(s: Seq<char>, c: char) -> int
    decreases s.len(),
{
    if s.len() == 0 {
        0
    } else {
        count_char(s.drop_last(), c) + if s.last() as u32 == c as u32 {
            1int
        } else {
            0
        }
    }
}

/// The two strings hold the same characters, each the same number of
/// times.
pub open spec fn anagrams(a: Seq<char>, b: Seq<char>) -> bool {
    a.len() == b.len() && forall|c: char| #[trigger] count_char(a, c) == count_char(b, c)
}

proof fn lemma_count_char_absent(s: Seq<char>, c: char)
    requires
        forall|k: int| 0 <= k < s.len() ==> (#[trigger] s[k]) as u32 != c as u32,
    ensures
        count_char(s, c) == 0,
    decreases s.len(),
{
    if s.len() > 0 {
        assert forall|k: int|
            0 <= k < s.drop_last().len() implies (#[trigger] s.drop_last()[k]) as u32 != c
            as u32 by {
            assert(s[k] as u32 != c as u32);
        }
        lemma_count_char_absent(s.drop_last(), c);
        assert(s[s.len() - 1] as u32 != c as u32);
    }
}

/// Counts the characters of `s` carrying the code of `c`.
fn count_char_exec(s: &str, c: char) -> (r: usize)
    ensures
        r == count_char(s@, c),
{
    let n = s.unicode_len();
    let mut r: usize = 0;
    let mut i: usize = 0;
    while i < n
        invariant
            0 <= i <= n,
            n == s@.len(),
            r <= i,
            r == count_char(s@.take(i as int), c),
        decreases n - i,
    {
        proof {
            assert(s@.take(i + 1).drop_last() =~= s@.take(i as int));
            assert(s@.take(i + 1).last() == s@[i as int]);
        }
        if s.get_char(i) as u32 == c as u32 {
            r = r + 1;
        }
        i = i + 1;
    }
    proof {
        assert(s@.take(n as int) =~= s@);
    }
    r
}

/// Whether the two strings are anagrams of one another.
pub fn have_anagrams(s1: &str, s2: &str) -> (r: bool)
    ensures
        r == anagrams(s1@, s2@),
{
    let n1 = s1.unicode_len();
    let n2 = s2.unicode_len();
    if n1 != n2 {
        return false;
    }
    let mut i: usize = 0;
    while i < n1
        invariant
            0 <= i <= n1,
            n1 == s1@.len(),
            forall|k: int|
                0 <= k < i ==> count_char(s1@, #[trigger] s1@[k]) == count_char(s2@, s1@[k]),
        decreases n1 - i,
    {
        let c = s1.get_char(i);
        if count_char_exec(s1, c) != count_char_exec(s2, c) {
            return false;
        }
        i = i + 1;
    }
    let mut j: usize = 0;
    while j < n2
        invariant
            0 <= j <= n2,
            n2 == s2@.len(),
            n1 == s1@.len(),
            forall|k: int|
                0 <= k < j ==> count_char(s1@, #[trigger] s2@[k]) == count_char(s2@, s2@[k]),
        decreases n2 - j,
    {
        let c = s2.get_char(j);
        if count_char_exec(s1, c) != count_char_exec(s2, c) {
            return false;
        }
        j = j + 1;
    }
    proof {
        broadcast use vstd::utf8::char_u32_cast;

        assert forall|c: char| #[trigger] count_char(s1@, c) == count_char(s2@, c) by {
            if exists|k: int| 0 <= k < s1@.len() && (#[trigger] s1@[k]) as u32 == c as u32 {
                let k = choose|k: int| 0 <= k < s1@.len() && (#[trigger] s1@[k]) as u32 == c
                    as u32;
                vstd::utf8::char_u32_cast(s1@[k], s1@[k] as u32);
                vstd::utf8::char_u32_cast(c, c as u32);
                assert(s1@[k] == c);
            } else if exists|k: int| 0 <= k < s2@.len() && (#[trigger] s2@[k]) as u32 == c
                as u32 {
                let k = choose|k: int| 0 <= k < s2@.len() && (#[trigger] s2@[k]) as u32 == c
                    as u32;
                vstd::utf8::char_u32_cast(s2@[k], s2@[k] as u32);
                vstd::utf8::char_u32_cast(c, c as u32);
                assert(s2@[k] == c);
            } else {
                lemma_count_char_absent(s1@, c);
                lemma_count_char_absent(s2@, c);
            }
        }
    }
    true
}

/// The character is an ASCII hexadecimal digit.
pub open spec fn hex_digit(c: char) -> bool {
    ascii_digit(c) || (97 <= c as u32 <= 102) || (65 <= c as u32 <= 70)
}

/// The value of the two decimal digits at `i` and `i + 1`.
pub open spec fn two_digit(s: Seq<char>, i: int) -> int {
    (s[i] as u32 - 48) * 10 + (s[i + 1] as u32 - 48)
}

/// The text is a calendar date `YYYY-MM-DD`: four digits, a month from 01
/// to 12 and a day from 01 to 31, separated by hyphens.
pub open spec fn valid_date(s: Seq<char>) -> bool {
    &&& s.len() == 10
    &&& ascii_digit(s[0]) && ascii_digit(s[1]) && ascii_digit(s[2]) && ascii_digit(s[3])
    &&& s[4] as u32 == 45 && s[7] as u32 == 45
    &&& ascii_digit(s[5]) && ascii_digit(s[6]) && ascii_digit(s[8]) && ascii_digit(s[9])
    &&& 1 <= two_digit(s, 5) <= 12
    &&& 1 <= two_digit(s, 8) <= 31
}

/// Whether the string is a date of the form `YYYY-MM-DD`.
pub fn have_valid_date(s: &str) -> (r: bool)
    ensures
        r == valid_date(s@),
{
    if s.unicode_len() != 10 {
        return false;
    }
    let c0 = s.get_char(0) as u32;
    let c1 = s.get_char(1) as u32;
    let c2 = s.get_char(2) as u32;
    let c3 = s.get_char(3) as u32;
    let c4 = s.get_char(4) as u32;
    let c5 = s.get_char(5) as u32;
    let c6 = s.get_char(6) as u32;
    let c7 = s.get_char(7) as u32;
    let c8 = s.get_char(8) as u32;
    let c9 = s.get_char(9) as u32;
    let digits = 48 <= c0 && c0 <= 57 && 48 <= c1 && c1 <= 57 && 48 <= c2 && c2 <= 57 && 48 <= c3
        && c3 <= 57 && 48 <= c5 && c5 <= 57 && 48 <= c6 && c6 <= 57 && 48 <= c8 && c8 <= 57 && 48
        <= c9 && c9 <= 57;
    if !digits || c4 != 45 || c7 != 45 {
        return false;
    }
    let month = (c5 - 48) * 10 + (c6 - 48);
    let day = (c8 - 48) * 10 + (c9 - 48);
    1 <= month && month <= 12 && 1 <= day && day <= 31
}

/// The text is a clock time `HH:MM:SS`: hours 00 to 23, minutes and
/// seconds 00 to 59, separated by colons.
pub open spec fn valid_time(s: Seq<char>) -> bool {
    &&& s.len() == 8
    &&& ascii_digit(s[0]) && ascii_digit(s[1]) && ascii_digit(s[3]) && ascii_digit(s[4])
    &&& ascii_digit(s[6]) && ascii_digit(s[7])
    &&& s[2] as u32 == 58 && s[5] as u32 == 58
    &&& 0 <= two_digit(s, 0) <= 23
    &&& 0 <= two_digit(s, 3) <= 59
    &&& 0 <= two_digit(s, 6) <= 59
}

/// Whether the string is a time of the form `HH:MM:SS`.
pub fn have_valid_time(s: &str) -> (r: bool)
    ensures
        r == valid_time(s@),
{
    if s.unicode_len() != 8 {
        return false;
    }
    let c0 = s.get_char(0) as u32;
    let c1 = s.get_char(1) as u32;
    let c2 = s.get_char(2) as u32;
    let c3 = s.get_char(3) as u32;
    let c4 = s.get_char(4) as u32;
    let c5 = s.get_char(5) as u32;
    let c6 = s.get_char(6) as u32;
    let c7 = s.get_char(7) as u32;
    let digits = 48 <= c0 && c0 <= 57 && 48 <= c1 && c1 <= 57 && 48 <= c3 && c3 <= 57 && 48 <= c4
        && c4 <= 57 && 48 <= c6 && c6 <= 57 && 48 <= c7 && c7 <= 57;
    if !digits || c2 != 58 || c5 != 58 {
        return false;
    }
    let hh = (c0 - 48) * 10 + (c1 - 48);
    let mm = (c3 - 48) * 10 + (c4 - 48);
    let ss = (c6 - 48) * 10 + (c7 - 48);
    hh <= 23 && mm <= 59 && ss <= 59
}

/// The text is a hexadecimal colour code: an optional `#`, then exactly
/// three or six hexadecimal digits.
pub open spec fn valid_hex_color(s: Seq<char>) -> bool {
    let off: int = if s.len() > 0 && s[0] as u32 == 35 {
        1
    } else {
        0
    };
    &&& (s.len() - off == 3 || s.len() - off == 6)
    &&& forall|i: int| off <= i < s.len() ==> hex_digit(#[trigger] s[i])
}

/// Whether the string is a hexadecimal colour code such as `#1a2b3c`.
pub fn have_valid_hex_color(s: &str) -> (r: bool)
    ensures
        r == valid_hex_color(s@),
{
    let n = s.unicode_len();
    let off: usize = if n > 0 && s.get_char(0) as u32 == 35 {
        1
    } else {
        0
    };
    proof {
        assert(off as int == (if s@.len() > 0 && s@[0] as u32 == 35 {
            1int
        } else {
            0
        }));
    }
    if !(n - off == 3 || n - off == 6) {
        return false;
    }
    let mut i: usize = off;
    while i < n
        invariant
            off <= i <= n,
            n == s@.len(),
            off as int == (if s@.len() > 0 && s@[0] as u32 == 35 {
                1int
            } else {
                0
            }),
            forall|k: int| off <= k < i ==> hex_digit(#[trigger] s@[k]),
        decreases n - i,
    {
        let u = s.get_char(i) as u32;
        if !((48 <= u && u <= 57) || (97 <= u && u <= 102) || (65 <= u && u <= 70)) {
            return false;
        }
        i = i + 1;
    }
    true
}

/// The text is a postal code: five digits, optionally followed by a hyphen
/// and four more digits.
pub open spec fn valid_postal_code(s: Seq<char>) -> bool {
    &&& (s.len() == 5 || s.len() == 10)
    &&& s.len() == 10 ==> s[5] as u32 == 45
    &&& forall|i: int|
        0 <= i < s.len() && i != 5 ==> ascii_digit(#[trigger] s[i])
}

/// Whether the string is a postal code such as `12345` or `12345-6789`.
pub fn have_valid_postal_code(s: &str) -> (r: bool)
    ensures
        r == valid_postal_code(s@),
{
    let n = s.unicode_len();
    if n != 5 && n != 10 {
        return false;
    }
    if n == 10 && s.get_char(5) as u32 != 45 {
        return false;
    }
    let mut i: usize = 0;
    while i < n
        invariant
            0 <= i <= n,
            n == s@.len(),
            forall|k: int| 0 <= k < i && k != 5 ==> ascii_digit(#[trigger] s@[k]),
        decreases n - i,
    {
        if i != 5 {
            let u = s.get_char(i) as u32;
            if !(48 <= u && u <= 57) {
                return false;
            }
        }
        i = i + 1;
    }
    true
}

/// The character may stand in a slug: an ASCII lower-case letter or digit.
pub open spec fn slug_char(c: char) -> bool {
    ascii_digit(c) || (97 <= c as u32 <= 122)
}

/// The text is a slug: non-empty groups of lower-case letters and digits,
/// joined by single hyphens.
pub open spec fn valid_slug(s: Seq<char>) -> bool {
    &&& s.len() >= 1
    &&& slug_char(s[0])
    &&& slug_char(s[s.len() - 1])
    &&& forall|i: int| 0 <= i < s.len() ==> slug_char(#[trigger] s[i]) || s[i] as u32 == 45
    &&& forall|i: int|
        0 <= i < s.len() - 1 ==> !((#[trigger] s[i]) as u32 == 45 && s[i + 1] as u32 == 45)
}

/// Whether the string is a slug such as `a-slug-2024`.
pub fn have_valid_slug(s: &str) -> (r: bool)
    ensures
        r == valid_slug(s@),
{
    let n = s.unicode_len();
    if n == 0 {
        return false;
    }
    let mut i: usize = 0;
    while i < n
        invariant
            0 <= i <= n,
            n == s@.len(),
            n >= 1,
            forall|k: int| 0 <= k < i ==> slug_char(#[trigger] s@[k]) || s@[k] as u32 == 45,
            forall|k: int|
                0 <= k < i - 1 ==> !((#[trigger] s@[k]) as u32 == 45 && s@[k + 1] as u32 == 45),
        decreases n - i,
    {
        let u = s.get_char(i) as u32;
        let ok = (48 <= u && u <= 57) || (97 <= u && u <= 122) || u == 45;
        if !ok {
            return false;
        }
        if u == 45 && i > 0 {
            if s.get_char(i - 1) as u32 == 45 {
                return false;
            }
        }
        i = i + 1;
    }
    let first = s.get_char(0) as u32;
    if !((48 <= first && first <= 57) || (97 <= first && first <= 122)) {
        return false;
    }
    let last = s.get_char(n - 1) as u32;
    (48 <= last && last <= 57) || (97 <= last && last <= 122)
}

/// The text is a phone number: an optional `+`, a leading digit 1 to 9,
/// then one to fourteen more digits.
pub open spec fn valid_phone_number(s: Seq<char>) -> bool {
    let off: int = if s.len() > 0 && s[0] as u32 == 43 {
        1
    } else {
        0
    };
    &&& 2 <= s.len() - off <= 15
    &&& 49 <= s[off] as u32 <= 57
    &&& forall|i: int| off < i < s.len() ==> ascii_digit(#[trigger] s[i])
}

/// Whether the string is a phone number such as `+141555501`.
pub fn have_valid_phone_number(s: &str) -> (r: bool)
    ensures
        r == valid_phone_number(s@),
{
    let n = s.unicode_len();
    let off: usize = if n > 0 && s.get_char(0) as u32 == 43 {
        1
    } else {
        0
    };
    if n - off < 2 || n - off > 15 {
        return false;
    }
    let lead = s.get_char(off) as u32;
    if !(49 <= lead && lead <= 57) {
        return false;
    }
    let mut i: usize = off + 1;
    while i < n
        invariant
            off < i <= n,
            n == s@.len(),
            off as int == (if s@.len() > 0 && s@[0] as u32 == 43 {
                1int
            } else {
                0
            }),
            forall|k: int| off < k < i ==> ascii_digit(#[trigger] s@[k]),
        decreases n - i,
    {
        let u = s.get_char(i) as u32;
        if !(48 <= u && u <= 57) {
            return false;
        }
        i = i + 1;
    }
    true
}

/// The text is a UUID: five groups of hexadecimal digits, 8-4-4-4-12, with
/// hyphens between them.
pub open spec fn valid_uuid(s: Seq<char>) -> bool {
    &&& s.len() == 36
    &&& forall|i: int|
        0 <= i < 36 ==> (if i == 8 || i == 13 || i == 18 || i == 23 {
            (#[trigger] s[i]) as u32 == 45
        } else {
            hex_digit(s[i])
        })
}

/// Whether the string is a UUID in its canonical hyphenated form.
pub fn have_valid_uuid(s: &str) -> (r: bool)
    ensures
        r == valid_uuid(s@),
{
    let n = s.unicode_len();
    if n != 36 {
        return false;
    }
    let mut i: usize = 0;
    while i < 36
        invariant
            0 <= i <= 36,
            n == s@.len(),
            n == 36,
            forall|k: int|
                0 <= k < i ==> (if k == 8 || k == 13 || k == 18 || k == 23 {
                    (#[trigger] s@[k]) as u32 == 45
                } else {
                    hex_digit(s@[k])
                }),
        decreases 36 - i,
    {
        let u = s.get_char(i) as u32;
        if i == 8 || i == 13 || i == 18 || i == 23 {
            if u != 45 {
                return false;
            }
        } else {
            if !((48 <= u && u <= 57) || (97 <= u && u <= 102) || (65 <= u && u <= 70)) {
                return false;
            }
        }
        i = i + 1;
    }
    true
}

/// The character may stand in a strong password: a letter, a digit, or one
/// of `@ $ ! % * ? &`.
pub open spec fn password_char(c: char) -> bool {
    let u = c as u32;
    ascii_letter(c) || ascii_digit(c) || u == 64 || u == 36 || u == 33 || u == 37 || u == 42 || u
        == 63 || u == 38
}

/// The character is one of the special characters `@ $ ! % * ? &`.
pub open spec fn password_special(c: char) -> bool {
    let u = c as u32;
    u == 64 || u == 36 || u == 33 || u == 37 || u == 42 || u == 63 || u == 38
}

/// The text is a strong password: at least eight characters from the
/// allowed set, with at least one lower-case letter, one upper-case
/// letter, one digit and one special character.
pub open spec fn strong_password(s: Seq<char>) -> bool {
    &&& s.len() >= 8
    &&& forall|i: int| 0 <= i < s.len() ==> password_char(#[trigger] s[i])
    &&& exists|i: int| 0 <= i < s.len() && 97 <= (#[trigger] s[i]) as u32 <= 122
    &&& exists|i: int| 0 <= i < s.len() && 65 <= (#[trigger] s[i]) as u32 <= 90
    &&& exists|i: int| 0 <= i < s.len() && ascii_digit(#[trigger] s[i])
    &&& exists|i: int| 0 <= i < s.len() && password_special(#[trigger] s[i])
}

/// Whether the string is a strong password.
pub fn have_valid_password(s: &str) -> (r: bool)
    ensures
        r == strong_password(s@),
{
    let n = s.unicode_len();
    if n < 8 {
        return false;
    }
    let mut lower = false;
    let mut upper = false;
    let mut digit = false;
    let mut special = false;
    let mut i: usize = 0;
    while i < n
        invariant
            0 <= i <= n,
            n == s@.len(),
            forall|k: int| 0 <= k < i ==> password_char(#[trigger] s@[k]),
            lower == exists|k: int| 0 <= k < i && 97 <= (#[trigger] s@[k]) as u32 <= 122,
            upper == exists|k: int| 0 <= k < i && 65 <= (#[trigger] s@[k]) as u32 <= 90,
            digit == exists|k: int| 0 <= k < i && ascii_digit(#[trigger] s@[k]),
            special == exists|k: int| 0 <= k < i && password_special(#[trigger] s@[k]),
        decreases n - i,
    {
        let u = s.get_char(i) as u32;
        let is_lower = 97 <= u && u <= 122;
        let is_upper = 65 <= u && u <= 90;
        let is_digit = 48 <= u && u <= 57;
        let is_special = u == 64 || u == 36 || u == 33 || u == 37 || u == 42 || u == 63 || u
            == 38;
        if !(is_lower || is_upper || is_digit || is_special) {
            return false;
        }
        lower = lower || is_lower;
        upper = upper || is_upper;
        digit = digit || is_digit;
        special = special || is_special;
        i = i + 1;
    }
    lower && upper && digit && special
}

/// Whether the text parses as JSON.
pub uninterp spec fn json_valid_of(s: Seq<char>) -> bool;

/// Relies on serde_json::from_str: whether the text is valid JSON is a
/// function of the text alone.
#[verifier::external_body]
pub fn have_valid_json(s: &str) -> (r: bool)
    ensures
        r == json_valid_of(s@),
{
    serde_json::from_str::<serde_json::Value>(s).is_ok()
}

/// The decimal value of the digits of `s` from `from` to `to`.
pub open spec fn decimal_val(s: Seq<char>, from: int, to: int) -> int
    decreases to - from,
{
    if to <= from {
        0
    } else {
        decimal_val(s, from, to - 1) * 10 + (s[to - 1] as u32 - 48)
    }
}

/// The characters of `s` from `from` to `to` form an IPv4 octet: one to
/// three digits whose value is at most 255.
pub open spec fn octet_ok(s: Seq<char>, from: int, to: int) -> bool {
    &&& 1 <= to - from <= 3
    &&& forall|i: int| from <= i < to ==> ascii_digit(#[trigger] s[i])
    &&& decimal_val(s, from, to) <= 255
}

/// The text is a dotted-quad IPv4 address: four octets, each 0 to 255,
/// separated by periods.
pub open spec fn valid_ipv4(s: Seq<char>) -> bool {
    let d1 = find_char_from(s, '.', 0);
    let d2 = find_char_from(s, '.', d1 + 1);
    let d3 = find_char_from(s, '.', d2 + 1);
    &&& d1 >= 0 && d2 >= 0 && d3 >= 0
    &&& find_char_from(s, '.', d3 + 1) == -1
    &&& octet_ok(s, 0, d1)
    &&& octet_ok(s, d1 + 1, d2)
    &&& octet_ok(s, d2 + 1, d3)
    &&& octet_ok(s, d3 + 1, s.len() as int)
}

/// Decides whether the characters from `from` to `to` form an octet.
fn octet_check(s: &str, from: usize, to: usize) -> (r: bool)
    requires
        from <= to <= s@.len(),
    ensures
        r == octet_ok(s@, from as int, to as int),
{
    if to - from < 1 || to - from > 3 {
        return false;
    }
    let mut v: u32 = 0;
    let mut i: usize = from;
    while i < to
        invariant
            from <= i <= to,
            to <= s@.len(),
            1 <= to - from <= 3,
            forall|k: int| from <= k < i ==> ascii_digit(#[trigger] s@[k]),
            v == decimal_val(s@, from as int, i as int),
            i - from == 0 ==> v == 0,
            i - from == 1 ==> v <= 9,
            i - from == 2 ==> v <= 99,
            i - from == 3 ==> v <= 999,
        decreases to - i,
    {
        let u = s.get_char(i) as u32;
        if !(48 <= u && u <= 57) {
            return false;
        }
        v = v * 10 + (u - 48);
        i = i + 1;
    }
    v <= 255
}

/// Whether the string is an IPv4 address such as `192.168.0.1`.
pub fn have_valid_ipv4(s: &str) -> (r: bool)
    ensures
        r == valid_ipv4(s@),
{
    let n = s.unicode_len();
    let d1 = match str_find_char(s, '.', 0) {
        Some(d) => d,
        None => {
            return false;
        },
    };
    let d2 = match str_find_char(s, '.', d1 + 1) {
        Some(d) => d,
        None => {
            return false;
        },
    };
    let d3 = match str_find_char(s, '.', d2 + 1) {
        Some(d) => d,
        None => {
            return false;
        },
    };
    match str_find_char(s, '.', d3 + 1) {
        Some(_) => {
            return false;
        },
        None => {},
    }
    octet_check(s, 0, d1) && octet_check(s, d1 + 1, d2) && octet_check(s, d2 + 1, d3)
        && octet_check(s, d3 + 1, n)
}

/// The text is a payment card number: digits only, with the issuer
/// prefixes and lengths of the major networks.
pub open spec fn valid_credit_card(s: Seq<char>) -> bool {
    &&& forall|i: int| 0 <= i < s.len() ==> ascii_digit(#[trigger] s[i])
    &&& ({
        let c0 = s[0] as u32;
        let c1 = s[1] as u32;
        let c2 = s[2] as u32;
        let c3 = s[3] as u32;
        ||| (c0 == 52 && (s.len() == 13 || s.len() == 16))
        ||| (c0 == 53 && 49 <= c1 <= 53 && s.len() == 16)
        ||| (c0 == 51 && (c1 == 52 || c1 == 55) && s.len() == 15)
        ||| (c0 == 51 && c1 == 48 && 48 <= c2 <= 53 && s.len() == 14)
        ||| (c0 == 51 && (c1 == 54 || c1 == 56) && s.len() == 14)
        ||| (c0 == 54 && c1 == 48 && c2 == 49 && c3 == 49 && s.len() == 16)
        ||| (c0 == 54 && c1 == 53 && s.len() == 16)
        ||| (c0 == 50 && c1 == 49 && c2 == 51 && c3 == 49 && s.len() == 15)
        ||| (c0 == 49 && c1 == 56 && c2 == 48 && c3 == 48 && s.len() == 15)
        ||| (c0 == 51 && c1 == 53 && s.len() == 16)
    })
}

/// Whether the string is a payment card number of one of the major
/// networks.
pub fn have_valid_credit_card(s: &str) -> (r: bool)
    ensures
        r == valid_credit_card(s@),
{
    let n = s.unicode_len();
    if n < 13 || n > 16 {
        return false;
    }
    let mut i: usize = 0;
    while i < n
        invariant
            0 <= i <= n,
            n == s@.len(),
            forall|k: int| 0 <= k < i ==> ascii_digit(#[trigger] s@[k]),
        decreases n - i,
    {
        let u = s.get_char(i) as u32;
        if !(48 <= u && u <= 57) {
            return false;
        }
        i = i + 1;
    }
    let c0 = s.get_char(0) as u32;
    let c1 = s.get_char(1) as u32;
    let c2 = s.get_char(2) as u32;
    let c3 = s.get_char(3) as u32;
    (c0 == 52 && (n == 13 || n == 16)) || (c0 == 53 && 49 <= c1 && c1 <= 53 && n == 16) || (c0
        == 51 && (c1 == 52 || c1 == 55) && n == 15) || (c0 == 51 && c1 == 48 && 48 <= c2 && c2
        <= 53 && n == 14) || (c0 == 51 && (c1 == 54 || c1 == 56) && n == 14) || (c0 == 54 && c1
        == 48 && c2 == 49 && c3 == 49 && n == 16) || (c0 == 54 && c1 == 53 && n == 16) || (c0
        == 50 && c1 == 49 && c2 == 51 && c3 == 49 && n == 15) || (c0 == 49 && c1 == 56 && c2
        == 48 && c3 == 48 && n == 15) || (c0 == 51 && c1 == 53 && n == 16)
}

/// A word character: an ASCII letter, a digit or an underscore.
pub open spec fn word_char(c: char) -> bool {
    ascii_letter(c) || ascii_digit(c) || c as u32 == 95
}

/// A character of an address part: a word character, a period or a
/// hyphen.
pub open spec fn addr_char(c: char) -> bool {
    word_char(c) || c as u32 == 46 || c as u32 == 45
}

/// The text is an email address: a non-empty local part of word
/// characters, periods and hyphens; one `@`; a non-empty domain of the
/// same characters; then a final period and a non-empty label of word
/// characters.
pub open spec fn valid_email(s: Seq<char>) -> bool {
    let at = find_char_from(s, '@', 0);
    let dot = rfind_char_before(s, '.', s.len() as int);
    &&& at >= 1
    &&& find_char_from(s, '@', at + 1) == -1
    &&& forall|i: int| 0 <= i < at ==> addr_char(#[trigger] s[i])
    &&& dot > at + 1
    &&& dot < s.len() - 1
    &&& forall|i: int| at + 1 <= i < dot ==> addr_char(#[trigger] s[i])
    &&& forall|i: int| dot < i < s.len() ==> word_char(#[trigger] s[i])
}

/// Whether the string is an email address such as `a.reader@mail.example`.
pub fn have_valid_email(s: &str) -> (r: bool)
    ensures
        r == valid_email(s@),
{
    let n = s.unicode_len();
    let at = match str_find_char(s, '@', 0) {
        Some(a) => a,
        None => {
            return false;
        },
    };
    if at < 1 {
        return false;
    }
    match str_find_char(s, '@', at + 1) {
        Some(_) => {
            return false;
        },
        None => {},
    }
    let dot = match str_rfind_char(s, '.') {
        Some(d) => d,
        None => {
            return false;
        },
    };
    if dot <= at + 1 || dot >= n - 1 {
        return false;
    }
    let mut i: usize = 0;
    while i < at
        invariant
            0 <= i <= at,
            at < n,
            n == s@.len(),
            at as int == find_char_from(s@, '@', 0),
            forall|k: int| 0 <= k < i ==> addr_char(#[trigger] s@[k]),
        decreases at - i,
    {
        let u = s.get_char(i) as u32;
        let ok = (48 <= u && u <= 57) || (65 <= u && u <= 90) || (97 <= u && u <= 122) || u == 95
            || u == 46 || u == 45;
        if !ok {
            return false;
        }
        i = i + 1;
    }
    let mut j: usize = at + 1;
    while j < dot
        invariant
            at + 1 <= j <= dot,
            dot < n,
            n == s@.len(),
            at as int == find_char_from(s@, '@', 0),
            dot as int == rfind_char_before(s@, '.', s@.len() as int),
            forall|k: int| at + 1 <= k < j ==> addr_char(#[trigger] s@[k]),
        decreases dot - j,
    {
        let u = s.get_char(j) as u32;
        let ok = (48 <= u && u <= 57) || (65 <= u && u <= 90) || (97 <= u && u <= 122) || u == 95
            || u == 46 || u == 45;
        if !ok {
            return false;
        }
        j = j + 1;
    }
    let mut k: usize = dot + 1;
    while k < n
        invariant
            dot + 1 <= k <= n,
            n == s@.len(),
            at < dot,
            at as int == find_char_from(s@, '@', 0),
            dot as int == rfind_char_before(s@, '.', s@.len() as int),
            forall|m: int| dot < m < k ==> word_char(#[trigger] s@[m]),
        decreases n - k,
    {
        let u = s.get_char(k) as u32;
        let ok = (48 <= u && u <= 57) || (65 <= u && u <= 90) || (97 <= u && u <= 122) || u == 95;
        if !ok {
            return false;
        }
        k = k + 1;
    }
    true
}

/// The scheme prefix `http://`.
pub open spec fn http_prefix() -> Seq<char> {
    seq!['h', 't', 't', 'p', ':', '/', '/']
}

/// The scheme prefix `https://`.
pub open spec fn https_prefix() -> Seq<char> {
    seq!['h', 't', 't', 'p', 's', ':', '/', '/']
}

/// A character a web address may hold after its scheme: an address
/// character or a slash.
pub open spec fn url_tail_char(c: char) -> bool {
    addr_char(c) || c as u32 == 47
}

/// What follows a scheme: address characters and slashes, with a host
/// before the first slash that holds a period after a non-empty label and
/// before a non-empty label.
pub open spec fn url_body_ok(t: Seq<char>) -> bool {
    let slash = find_char_from(t, '/', 0);
    let f = if slash == -1 {
        t.len() as int
    } else {
        slash
    };
    &&& forall|i: int| 0 <= i < t.len() ==> url_tail_char(#[trigger] t[i])
    &&& exists|p: int| 1 <= p <= f - 2 && (#[trigger] t[p]) as u32 == 46
}

/// The text is a web address: `http://` or `https://`, then a dotted host
/// of address characters, optionally followed by a path.
pub open spec fn valid_url(s: Seq<char>) -> bool {
    ||| (has_prefix(s, http_prefix()) && url_body_ok(s.skip(7)))
    ||| (has_prefix(s, https_prefix()) && url_body_ok(s.skip(8)))
}

/// Whether the string is a web address such as `https://site.example/page`.
pub fn have_valid_url(s: &str) -> (r: bool)
    ensures
        r == valid_url(s@),
{
    proof {
        reveal_strlit("http://");
        reveal_strlit("https://");
        assert("http://"@ =~= http_prefix());
        assert("https://"@ =~= https_prefix());
    }
    let k: usize;
    if str_starts_with(s, "https://") {
        k = 8;
        proof {
            assert(s@[4] == 's');
            assert(!has_prefix(s@, http_prefix())) by {
                if has_prefix(s@, http_prefix()) {
                    assert(s@.subrange(0, 7)[4] == s@[4]);
                }
            }
        }
    } else if str_starts_with(s, "http://") {
        k = 7;
    } else {
        return false;
    }
    let n = s.unicode_len();
    let rest = s.substring_char(k, n);
    proof {
        assert(rest@ =~= s@.skip(k as int));
    }
    let m = rest.unicode_len();
    let f = match str_find_char(rest, '/', 0) {
        Some(x) => x,
        None => m,
    };
    let mut i: usize = 0;
    while i < m
        invariant
            0 <= i <= m,
            m == rest@.len(),
            k == 7 || k == 8,
            rest@ == s@.skip(k as int),
            k == 7 ==> has_prefix(s@, http_prefix()) && !has_prefix(s@, https_prefix()),
            k == 8 ==> has_prefix(s@, https_prefix()) && !has_prefix(s@, http_prefix()),
            forall|j: int| 0 <= j < i ==> url_tail_char(#[trigger] rest@[j]),
        decreases m - i,
    {
        let u = rest.get_char(i) as u32;
        let ok = (48 <= u && u <= 57) || (65 <= u && u <= 90) || (97 <= u && u <= 122) || u == 95
            || u == 46 || u == 45 || u == 47;
        if !ok {
            return false;
        }
        i = i + 1;
    }
    if f < 3 {
        proof {
            assert(!url_body_ok(rest@));
        }
        return false;
    }
    let mut p: usize = 1;
    while p <= f - 2
        invariant
            1 <= p <= f - 1,
            3 <= f <= m,
            m == rest@.len(),
            k == 7 || k == 8,
            rest@ == s@.skip(k as int),
            k == 7 ==> has_prefix(s@, http_prefix()) && !has_prefix(s@, https_prefix()),
            k == 8 ==> has_prefix(s@, https_prefix()) && !has_prefix(s@, http_prefix()),
            forall|j: int| 0 <= j < m ==> url_tail_char(#[trigger] rest@[j]),
            f as int == (if find_char_from(rest@, '/', 0) == -1 {
                rest@.len() as int
            } else {
                find_char_from(rest@, '/', 0)
            }),
            forall|q: int| 1 <= q < p ==> ((#[trigger] rest@[q]) as u32) != 46,
        decreases f - p,
    {
        if rest.get_char(p) as u32 == 46 {
            return true;
        }
        p = p + 1;
    }
    proof {
        assert(!url_body_ok(rest@));
    }
    false
}

/// The character is a hexadecimal digit or a colon.
pub open spec fn ipv6_char(c: char) -> bool {
    hex_digit(c) || c as u32 == 58
}

/// How many colons `s` holds at or after `i`.
pub open spec fn colons_from(s: Seq<char>, i: int) -> int
    decreases s.len() - i,
{
    if i < 0 || i >= s.len() {
        0
    } else {
        (if s[i] as u32 == 58 {
            1int
        } else {
            0
        }) + colons_from(s, i + 1)
    }
}

/// How many adjacent colon pairs begin at or after `i`.
pub open spec fn colon_pairs_from(s: Seq<char>, i: int) -> int
    decreases s.len() - i,
{
    if i < 0 || i + 1 >= s.len() {
        0
    } else {
        (if s[i] as u32 == 58 && s[i + 1] as u32 == 58 {
            1int
        } else {
            0
        }) + colon_pairs_from(s, i + 1)
    }
}

/// How many hexadecimal groups begin at or after `i`.
pub open spec fn hex_runs_from(s: Seq<char>, i: int) -> int
    decreases s.len() - i,
{
    if i < 0 || i >= s.len() {
        0
    } else {
        (if hex_digit(s[i]) && (i == 0 || s[i - 1] as u32 == 58) {
            1int
        } else {
            0
        }) + hex_runs_from(s, i + 1)
    }
}

/// Every hexadecimal group holds at most four digits: no five in a row.
pub open spec fn groups_at_most_four(s: Seq<char>) -> bool {
    forall|i: int|
        0 <= i && i + 5 <= s.len() ==> !(hex_digit(#[trigger] s[i]) && hex_digit(s[i + 1])
            && hex_digit(s[i + 2]) && hex_digit(s[i + 3]) && hex_digit(s[i + 4]))
}

/// The text is an IPv6 address in its hexadecimal textual forms: groups
/// of one to four hexadecimal digits separated by colons — eight groups
/// in full, or fewer with exactly one `::` compression. Zone suffixes and
/// embedded dotted forms are not in this grammar.
pub open spec fn valid_ipv6(s: Seq<char>) -> bool {
    &&& s.len() >= 2
    &&& forall|i: int| 0 <= i < s.len() ==> ipv6_char(#[trigger] s[i])
    &&& groups_at_most_four(s)
    &&& if colon_pairs_from(s, 0) == 0 {
        &&& colons_from(s, 0) == 7
        &&& s[0] as u32 != 58
        &&& s[s.len() - 1] as u32 != 58
    } else {
        &&& colon_pairs_from(s, 0) == 1
        &&& hex_runs_from(s, 0) <= 7
        &&& (s[0] as u32 == 58 ==> s[1] as u32 == 58)
        &&& (s[s.len() - 1] as u32 == 58 ==> s[s.len() - 2] as u32 == 58)
    }
}

/// Whether the string is an IPv6 address such as `2001:db8::1`.
pub fn have_valid_ipv6(s: &str) -> (r: bool)
    ensures
        r == valid_ipv6(s@),
{
    let n = s.unicode_len();
    if n < 2 {
        return false;
    }
    let mut colons: usize = 0;
    let mut pairs: usize = 0;
    let mut runs: usize = 0;
    let mut i: usize = 0;
    while i < n
        invariant
            0 <= i <= n,
            2 <= n,
            n == s@.len(),
            colons <= i,
            pairs <= i,
            runs <= i,
            forall|k: int| 0 <= k < i ==> ipv6_char(#[trigger] s@[k]),
            colons as int + colons_from(s@, i as int) == colons_from(s@, 0),
            pairs as int + colon_pairs_from(s@, i as int) == colon_pairs_from(s@, 0),
            runs as int + hex_runs_from(s@, i as int) == hex_runs_from(s@, 0),
        decreases n - i,
    {
        let u = s.get_char(i) as u32;
        let ishex = (48 <= u && u <= 57) || (97 <= u && u <= 102) || (65 <= u && u <= 70);
        if !(ishex || u == 58) {
            return false;
        }
        if u == 58 {
            colons = colons + 1;
        }
        if u == 58 && i + 1 < n {
            if s.get_char(i + 1) as u32 == 58 {
                pairs = pairs + 1;
            }
        }
        if ishex {
            if i == 0 {
                runs = runs + 1;
            } else {
                if s.get_char(i - 1) as u32 == 58 {
                    runs = runs + 1;
                }
            }
        }
        i = i + 1;
    }
    proof {
        assert(colons_from(s@, n as int) == 0);
        assert(colon_pairs_from(s@, n as int) == 0);
        assert(hex_runs_from(s@, n as int) == 0);
    }
    let first = s.get_char(0) as u32;
    let last = s.get_char(n - 1) as u32;
    let shape_ok: bool;
    if pairs == 0 {
        shape_ok = colons == 7 && first != 58 && last != 58;
    } else {
        let second = s.get_char(1) as u32;
        let penult = s.get_char(n - 2) as u32;
        shape_ok = pairs == 1 && runs <= 7 && (first != 58 || second == 58) && (last != 58
            || penult == 58);
    }
    if !shape_ok {
        return false;
    }
    let mut j: usize = 0;
    while n - j >= 5
        invariant
            0 <= j,
            j <= n,
            n == s@.len(),
            forall|k: int|
                0 <= k < j && k + 5 <= n ==> !(hex_digit(#[trigger] s@[k]) && hex_digit(
                    s@[k + 1],
                ) && hex_digit(s@[k + 2]) && hex_digit(s@[k + 3]) && hex_digit(s@[k + 4])),
        decreases n - j,
    {
        let h0 = is_hex_exec(s.get_char(j));
        let h1 = is_hex_exec(s.get_char(j + 1));
        let h2 = is_hex_exec(s.get_char(j + 2));
        let h3 = is_hex_exec(s.get_char(j + 3));
        let h4 = is_hex_exec(s.get_char(j + 4));
        if h0 && h1 && h2 && h3 && h4 {
            return false;
        }
        j = j + 1;
    }
    true
}

/// Decides whether the character is a hexadecimal digit.
fn is_hex_exec(c: char) -> (r: bool)
    ensures
        r == hex_digit(c),
{
    let u = c as u32;
    (48 <= u && u <= 57) || (97 <= u && u <= 102) || (65 <= u && u <= 70)
}

} // verus!
