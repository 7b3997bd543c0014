use newick::length;
use nom::error::ErrorKind;
use nom::number::complete::{double, recognize_float};

fn number(text: &str) -> Option<(String, String)> {
    let input = format!(":{}", text);
    match length(&input) {
        Ok((rest, Some(number))) => Some((number, rest.to_owned())),
        Ok((rest, None)) => {
            assert_eq!(rest, input.as_str());
            None
        }
        Err(error) => panic!("{:?}", error),
    }
}

fn taken(text: &str, number: &str, rest: &str) {
    assert_eq!(number_pair(text), Some((number.to_owned(), rest.to_owned())));
}

fn number_pair(text: &str) -> Option<(String, String)> {
    number(text)
}

#[test]
fn digits_with_fraction_and_exponent() {
    taken("0", "0", "");
    taken("12", "12", "");
    taken("12.5", "12.5", "");
    taken("12.", "12.", "");
    taken(".5", ".5", "");
    taken("1e5", "1e5", "");
    taken("1E5", "1E5", "");
    taken("1.5e-3", "1.5e-3", "");
    taken("1.5E+30", "1.5E+30", "");
    taken(".5e1", ".5e1", "");
    taken("007", "007", "");
}

#[test]
fn a_sign_in_front() {
    taken("+1", "+1", "");
    taken("-1", "-1", "");
    taken("-.5", "-.5", "");
    taken("+0.0", "+0.0", "");
    assert_eq!(number_pair("--1"), None);
    assert_eq!(number_pair("+-1"), None);
    assert_eq!(number_pair("-"), None);
    assert_eq!(number_pair("+"), None);
}

#[test]
fn a_number_ends_where_it_cannot_go_on() {
    taken("1,", "1", ",");
    taken("1.5)", "1.5", ")");
    taken("1.5.2", "1.5", ".2");
    taken("1..2", "1.", ".2");
    taken("1e5e6", "1e5", "e6");
    taken("1-2", "1", "-2");
    taken("1 2", "1", " 2");
    taken("1x", "1", "x");
}

#[test]
fn an_exponent_needs_digits() {
    taken("1e", "1", "e");
    taken("1e+", "1", "e+");
    taken("1.5E-x", "1.5", "E-x");
    taken("1e,", "1", "e,");
}

#[test]
fn what_is_no_number() {
    assert_eq!(number_pair(""), None);
    assert_eq!(number_pair("."), None);
    assert_eq!(number_pair(".e5"), None);
    assert_eq!(number_pair("e5"), None);
    assert_eq!(number_pair("x"), None);
    assert_eq!(number_pair("inf"), None);
    assert_eq!(number_pair("NaN"), None);
    assert_eq!(number_pair(",1"), None);
}

#[test]
fn the_same_numbers_as_the_parser_of_floats() {
    let texts = [
        "0", "12", "12.5", "12.", ".5", "1e5", "1E5", "1.5e-3", "1.5E+30", ".5e1", "007", "+1",
        "-1", "-.5", "+0.0", "--1", "+-1", "-", "+", "1,", "1.5)", "1.5.2", "1..2", "1e5e6",
        "1-2", "1 2", "1x", "", ".", ".e5", "e5", "x", "inf", "NaN", ",1", "123K-01", "11e-1",
        "123E-02", "abc", "0.1;", "-0", "1e-0005)",
    ];
    for text in texts {
        let expected = match recognize_float::<&str, (&str, ErrorKind)>(text) {
            Ok((rest, number)) => Some((number.to_owned(), rest.to_owned())),
            Err(_) => None,
        };
        assert_eq!(number_pair(text), expected, "on {:?}", text);
    }
}

#[test]
fn every_number_has_a_value() {
    let texts = [
        "0", "12", "12.5", "12.", ".5", "1e5", "1E5", "1.5e-3", "1.5E+30", ".5e1", "007", "+1",
        "-1", "-.5", "+0.0", "-0", "1e-0005", "1e999", "0.000000000000000000000000001",
    ];
    for text in texts {
        let (number, rest) = number_pair(text).unwrap();
        assert_eq!(rest, "".to_owned());
        let (left, value) = double::<&str, (&str, ErrorKind)>(number.as_str()).unwrap();
        assert_eq!(left, "");
        assert_eq!(value, text.parse::<f64>().unwrap());
    }
}
