#![allow(unused_variables, unused_mut)]

use plexrbac::utils::text::{regex_find, regex_match};

#[test]
fn test_regex_find() {
    assert!(regex_find(r"(?m)^line \d+", "line one\nline 2\n"));
}

#[test]
fn text_test_regex_match() {
    assert!(regex_match(r"^\d{4}-\d{2}-\d{2}$", "2014-01-01"));
}
