use std::collections::HashMap;
use std::collections::HashSet;
use this_me::have::{
    have, have_alpha_str, have_anagrams, have_bool, have_char_in_str, have_common_elements,
    have_duplicates, have_even_number, have_hashmap, have_hashset, have_lowercase_str,
    have_number, have_number_in_range, have_numeric_str, have_odd_number, have_option_value,
    have_palindrome, have_prime_number, have_ref, have_result, have_result_value, have_slice,
    have_slice_elem, have_sorted_vec, have_str, have_str_prefix, have_str_suffix, have_substr,
    have_unique_elements, have_uppercase_str, have_vec, have_vec_elem, have_whitespace_str,
};
use this_me::have::{
    have_valid_credit_card, have_valid_date, have_valid_email, have_valid_hex_color,
    have_valid_ipv4, have_valid_ipv6, have_valid_json, have_valid_password,
    have_valid_phone_number, have_valid_postal_code, have_valid_slug, have_valid_time,
    have_valid_url, have_valid_uuid,
};
use this_me::manager::MeSummary;
use this_me::owns::{have_relation, Relation};
use this_me::subjects::SubjectState;
use this_me::verbs::Verbs;

#[test]
fn presence_predicates() {
    assert!(have(&Some(5)));
    assert!(!have::<i32>(&None));
    let ok: Result<i32, ()> = Ok(1);
    let err: Result<i32, ()> = Err(());
    assert!(have_result(&ok));
    assert!(!have_result(&err));
    assert!(have_str("x"));
    assert!(!have_str(""));
    assert!(have_vec(&vec![1]));
    assert!(!have_vec(&Vec::<i32>::new()));
    assert!(have_slice(&[1, 2][..]));
    assert!(!have_slice(&[][..] as &[i32]));
    assert!(have_bool(true));
    assert!(!have_bool(false));
    let v = 7;
    assert!(have_ref(&Some(&v)));
    assert!(!have_ref::<i32>(&None));
}

#[test]
fn collection_predicates() {
    let mut m: HashMap<u32, u32> = HashMap::new();
    assert!(!have_hashmap(&m));
    m.insert(1, 2);
    assert!(have_hashmap(&m));
    let mut s: HashSet<u32> = HashSet::new();
    assert!(!have_hashset(&s));
    s.insert(3);
    assert!(have_hashset(&s));
}

#[test]
fn element_predicates() {
    assert!(have_vec_elem(&vec![1, 2, 3], &2));
    assert!(!have_vec_elem(&vec![1, 2, 3], &4));
    assert!(have_slice_elem(&[5, 6], &5));
    assert!(!have_slice_elem(&[], &5));
    assert!(have_common_elements(&[1, 2], &[2, 3]));
    assert!(!have_common_elements(&[1, 2], &[3, 4]));
    assert!(have_unique_elements(&vec![1, 2, 3]));
    assert!(!have_unique_elements(&vec![1, 2, 1]));
    assert!(have_duplicates(&vec![1, 2, 1]));
    assert!(!have_duplicates(&vec![1, 2, 3]));
}

#[test]
fn string_predicates() {
    assert!(have_substr("hello world", "lo wo"));
    assert!(!have_substr("hello", "world"));
    assert!(have_substr("abc", ""));
    assert!(have_str_prefix("hello", "he"));
    assert!(!have_str_prefix("hello", "lo"));
    assert!(have_str_suffix("hello", "lo"));
    assert!(!have_str_suffix("hello", "he"));
    assert!(have_char_in_str("hello", 'e'));
    assert!(!have_char_in_str("hello", 'z'));
    assert!(have_numeric_str("12345"));
    assert!(!have_numeric_str("123a5"));
    assert!(have_alpha_str("Hello"));
    assert!(!have_alpha_str("Hello1"));
    assert!(have_whitespace_str(" \t\n"));
    assert!(!have_whitespace_str(" x "));
    assert!(have_uppercase_str("HELLO 123"));
    assert!(!have_uppercase_str("HELLo"));
    assert!(have_lowercase_str("hello 123"));
    assert!(!have_lowercase_str("hellO"));
}

#[test]
fn numeric_predicates() {
    assert!(have_number(5));
    assert!(!have_number(0));
    assert!(have_number_in_range(5, 1, 10));
    assert!(!have_number_in_range(11, 1, 10));
    assert!(have_even_number(4));
    assert!(!have_even_number(3));
    assert!(have_odd_number(3));
    assert!(!have_odd_number(4));
    assert!(have_even_number(-2));
    assert!(have_odd_number(-3));
}

#[test]
fn option_and_result_values() {
    assert!(have_option_value(&Some(5), &5));
    assert!(!have_option_value(&Some(5), &6));
    assert!(!have_option_value(&None, &5));
    let ok: Result<i64, ()> = Ok(5);
    let err: Result<i64, ()> = Err(());
    assert!(have_result_value(&ok, &5));
    assert!(!have_result_value(&ok, &6));
    assert!(!have_result_value(&err, &5));
}

#[test]
fn palindromes() {
    assert!(have_palindrome("A man, a plan, a canal: Panama"));
    assert!(have_palindrome("racecar"));
    assert!(have_palindrome(""));
    assert!(have_palindrome("!!"));
    assert!(!have_palindrome("hello"));
    assert!(have_palindrome("\u{00f1}"));
    assert!(!have_palindrome("\u{00f1}x"));
    assert!(have_palindrome("x\u{00f1}x"));
}

#[test]
fn anagrams() {
    assert!(have_anagrams("listen", "silent"));
    assert!(have_anagrams("", ""));
    assert!(!have_anagrams("listen", "silenx"));
    assert!(!have_anagrams("aab", "abb"));
    assert!(!have_anagrams("ab", "abc"));
}

#[test]
fn sortedness() {
    assert!(have_sorted_vec(&vec![1, 2, 2, 3]));
    assert!(!have_sorted_vec(&vec![2, 1]));
    assert!(have_sorted_vec(&Vec::new()));
    assert!(have_sorted_vec(&vec![7]));
}

#[test]
fn primes() {
    assert!(!have_prime_number(0));
    assert!(!have_prime_number(1));
    assert!(have_prime_number(2));
    assert!(have_prime_number(3));
    assert!(!have_prime_number(4));
    assert!(have_prime_number(97));
    assert!(!have_prime_number(91));
}

#[test]
fn relations() {
    let empty = Relation { data: Vec::new() };
    assert!(!have_relation(&empty));
    let one = Relation { data: vec![("car".to_string(), "red one".to_string())] };
    assert!(have_relation(&one));
}

#[test]
fn verbs_record_actions() {
    let mut v = Verbs::new();
    assert!(v.be.is_empty() && v.have.is_empty() && v.say.is_empty());
    v.be("mood", "curious").unwrap();
    v.have("keys", "two").unwrap();
    v.at("city", "harbour").unwrap();
    v.relate("friend", "bob").unwrap();
    v.react("post", "smile").unwrap();
    v.say("greeting", "hello").unwrap();
    assert_eq!(v.be.len(), 1);
    assert_eq!(v.be[0].key, "mood");
    assert_eq!(v.be[0].value, "curious");
    assert!(!v.be[0].timestamp.is_empty());
    assert_eq!(v.have.len(), 1);
    assert_eq!(v.at.len(), 1);
    assert_eq!(v.relate.len(), 1);
    assert_eq!(v.react.len(), 1);
    assert_eq!(v.say.len(), 1);
    let d = Verbs::default();
    assert!(d.relate.is_empty());
}

#[test]
fn subject_state_defaults() {
    let s = SubjectState::new();
    assert!(!s.alive);
    assert!(!s.conscious);
    assert!(s.position.is_none());
    let d = SubjectState::default();
    assert!(!d.alive);
}

#[test]
fn summaries_hold_their_parts() {
    let s = MeSummary::new("alice123", "/data/alice123.db");
    assert_eq!(s.alias, "alice123");
    assert_eq!(s.path, "/data/alice123.db");
}

#[test]
fn format_validators() {
    assert!(have_valid_date("2024-02-29"));
    assert!(!have_valid_date("2024-13-01"));
    assert!(!have_valid_date("2024-00-10"));
    assert!(!have_valid_date("2024-1-10"));
    assert!(!have_valid_date("2024-01-32"));

    assert!(have_valid_time("23:59:59"));
    assert!(have_valid_time("00:00:00"));
    assert!(!have_valid_time("24:00:00"));
    assert!(!have_valid_time("12:60:00"));
    assert!(!have_valid_time("12:00"));

    assert!(have_valid_hex_color("#1a2B3c"));
    assert!(have_valid_hex_color("fff"));
    assert!(have_valid_hex_color("#abc"));
    assert!(!have_valid_hex_color("#ab"));
    assert!(!have_valid_hex_color("12345g"));

    assert!(have_valid_postal_code("12345"));
    assert!(have_valid_postal_code("12345-6789"));
    assert!(!have_valid_postal_code("1234"));
    assert!(!have_valid_postal_code("12345-678"));
    assert!(!have_valid_postal_code("12a45"));

    assert!(have_valid_slug("a-slug-2024"));
    assert!(have_valid_slug("slug"));
    assert!(!have_valid_slug(""));
    assert!(!have_valid_slug("-slug"));
    assert!(!have_valid_slug("slug-"));
    assert!(!have_valid_slug("a--b"));
    assert!(!have_valid_slug("Slug"));

    assert!(have_valid_phone_number("+141555501"));
    assert!(have_valid_phone_number("1415555012"));
    assert!(!have_valid_phone_number("+0415555012"));
    assert!(!have_valid_phone_number("1"));
    assert!(!have_valid_phone_number("+1234567890123456"));

    assert!(have_valid_uuid("123e4567-e89b-12d3-a456-426614174000"));
    assert!(!have_valid_uuid("123e4567e89b12d3a456426614174000"));
    assert!(!have_valid_uuid("123e4567-e89b-12d3-a456-42661417400g"));

    assert!(have_valid_password("Abcdef1!"));
    assert!(!have_valid_password("abcdef1!"));
    assert!(!have_valid_password("ABCDEF1!"));
    assert!(!have_valid_password("Abcdefg!"));
    assert!(!have_valid_password("Abcdef12"));
    assert!(!have_valid_password("Abc1!"));
    assert!(!have_valid_password("Abcdef1! "));
}

#[test]
fn network_and_payment_validators() {
    assert!(have_valid_ipv4("192.168.0.1"));
    assert!(have_valid_ipv4("0.0.0.0"));
    assert!(have_valid_ipv4("255.255.255.255"));
    assert!(!have_valid_ipv4("256.1.1.1"));
    assert!(!have_valid_ipv4("1.2.3"));
    assert!(!have_valid_ipv4("1.2.3.4.5"));
    assert!(!have_valid_ipv4("1.2.3.4a"));
    assert!(!have_valid_ipv4("1..3.4"));
    assert!(!have_valid_ipv4("1.2.3.2550"));

    assert!(have_valid_ipv6("2001:db8:0:0:0:0:0:1"));
    assert!(have_valid_ipv6("2001:db8::1"));
    assert!(have_valid_ipv6("::1"));
    assert!(have_valid_ipv6("::"));
    assert!(have_valid_ipv6("1:2:3:4:5:6:7::"));
    assert!(!have_valid_ipv6("1:2:3:4:5:6:7:8:9"));
    assert!(!have_valid_ipv6("1::2::3"));
    assert!(!have_valid_ipv6(":::"));
    assert!(!have_valid_ipv6("12345::"));
    assert!(!have_valid_ipv6("1:2:3:4:5:6:7"));
    assert!(!have_valid_ipv6("g::1"));

    assert!(have_valid_credit_card("4111111111111"));
    assert!(have_valid_credit_card("4111111111111111"));
    assert!(have_valid_credit_card("5105105105105100"));
    assert!(have_valid_credit_card("371449635398431"));
    assert!(have_valid_credit_card("30569309025904"));
    assert!(have_valid_credit_card("6011111111111117"));
    assert!(have_valid_credit_card("3530111333300000"));
    assert!(!have_valid_credit_card("1234567890123456"));
    assert!(!have_valid_credit_card("41111111111111"));
    assert!(!have_valid_credit_card("411111111111a"));
}

#[test]
fn text_format_validators() {
    assert!(have_valid_email("a.reader@mail.example"));
    assert!(have_valid_email("x_y-z@host.org"));
    assert!(!have_valid_email("no-at-sign.example"));
    assert!(!have_valid_email("two@@host.example"));
    assert!(!have_valid_email("a@b"));
    assert!(!have_valid_email("a@.example"));
    assert!(!have_valid_email("a@host.exam ple"));
    assert!(!have_valid_email("@host.example"));
    assert!(!have_valid_email("a@host.example."));

    assert!(have_valid_url("http://site.example"));
    assert!(have_valid_url("https://site.example/page/one"));
    assert!(!have_valid_url("ftp://site.example"));
    assert!(!have_valid_url("https://nodot/page"));
    assert!(!have_valid_url("https://.x/page"));
    assert!(!have_valid_url("https://site.example/pa ge"));

    assert!(have_valid_json("{\"a\":1}"));
    assert!(have_valid_json("[1,2,3]"));
    assert!(have_valid_json("\"text\""));
    assert!(!have_valid_json("{broken"));
    assert!(!have_valid_json(""));
}
