//! Unit tests for the numeric text handling, splitting, and output naming.

use gml_geojson::assemble::{keep_projected, pair_numeric};
use gml_geojson::feature::{Feature, PropertyValue};
use gml_geojson::emit::output_stem;
use gml_geojson::numbers::{i64_to_chars, parse_i64, split_ws_chars, u64_to_chars};

fn chars(s: &str) -> Vec<char> {
    s.chars().collect()
}

fn string_of(v: &[char]) -> String {
    v.iter().collect()
}

#[test]
fn parse_i64_accepts_plain_and_signed() {
    assert_eq!(parse_i64(&chars("42")), Some(42));
    assert_eq!(parse_i64(&chars("+7")), Some(7));
    assert_eq!(parse_i64(&chars("-13")), Some(-13));
    assert_eq!(parse_i64(&chars("0")), Some(0));
    assert_eq!(parse_i64(&chars("007")), Some(7));
}

#[test]
fn parse_i64_rejects_bad_text() {
    assert_eq!(parse_i64(&chars("")), None);
    assert_eq!(parse_i64(&chars("-")), None);
    assert_eq!(parse_i64(&chars("+")), None);
    assert_eq!(parse_i64(&chars("4x2")), None);
    assert_eq!(parse_i64(&chars(" 42")), None);
    assert_eq!(parse_i64(&chars("42 ")), None);
    assert_eq!(parse_i64(&chars("3.5")), None);
}

#[test]
fn parse_i64_handles_the_range_edges() {
    assert_eq!(parse_i64(&chars("9223372036854775807")), Some(i64::MAX));
    assert_eq!(parse_i64(&chars("-9223372036854775808")), Some(i64::MIN));
    assert_eq!(parse_i64(&chars("9223372036854775808")), None);
    assert_eq!(parse_i64(&chars("-9223372036854775809")), None);
    assert_eq!(parse_i64(&chars("99999999999999999999")), None);
}

#[test]
fn parse_i64_matches_std_acceptance() {
    for s in ["42", "+7", "-13", "", "-", "+", "4x2", " 42", "3.5", "007",
              "9223372036854775807", "9223372036854775808", "-9223372036854775808"] {
        assert_eq!(parse_i64(&chars(s)), s.parse::<i64>().ok(), "on {:?}", s);
    }
}

#[test]
fn decimal_formatting_exact() {
    assert_eq!(string_of(&u64_to_chars(0)), "0");
    assert_eq!(string_of(&u64_to_chars(7)), "7");
    assert_eq!(string_of(&u64_to_chars(10)), "10");
    assert_eq!(string_of(&u64_to_chars(90210)), "90210");
    assert_eq!(string_of(&i64_to_chars(-42)), "-42");
    assert_eq!(string_of(&i64_to_chars(42)), "42");
    assert_eq!(string_of(&i64_to_chars(i64::MIN)), "-9223372036854775808");
}

#[test]
fn whitespace_splitting_exact() {
    let toks = split_ws_chars(&chars(" 1  2\n3\t4 \r\n"));
    let words: Vec<String> = toks.iter().map(|t| string_of(t)).collect();
    assert_eq!(words, vec!["1", "2", "3", "4"]);
    assert!(split_ws_chars(&chars("   ")).is_empty());
    assert!(split_ws_chars(&chars("")).is_empty());
}

#[test]
fn pairing_drops_trailing_odd_value() {
    let parsed: Vec<Option<u64>> = vec![Some(1), Some(2), Some(3)];
    let pairs = pair_numeric(&parsed);
    assert_eq!(pairs, vec![(1, 2)]);
}

#[test]
fn keep_projected_drops_failures_only() {
    let projected: Vec<Option<(u64, u64)>> = vec![Some((1, 2)), None, Some((5, 6))];
    assert_eq!(keep_projected(&projected), vec![(1, 2), (5, 6)]);
}

#[test]
fn output_stem_uses_text_and_int_identifiers() {
    let f = Feature {
        properties: vec![
            (chars("NAME"), PropertyValue::Text(chars("R9"))),
            (chars("NUM"), PropertyValue::Int(-5)),
            (chars("D"), PropertyValue::Double(0)),
            (chars("N"), PropertyValue::Null),
        ],
        coordinates: Vec::new(),
    };
    assert_eq!(string_of(&output_stem(&f, &chars("NAME"), 0).unwrap()), "R9");
    assert_eq!(string_of(&output_stem(&f, &chars("NUM"), 0).unwrap()), "-5");
    assert_eq!(string_of(&output_stem(&f, &chars("D"), 17).unwrap()), "object_17");
    assert_eq!(string_of(&output_stem(&f, &chars("N"), 3).unwrap()), "object_3");
    assert!(output_stem(&f, &chars("MISSING"), 0).is_none());
}

#[test]
fn later_insert_replaces_earlier_key() {
    let frag = chars(
        "<g:GenericCityObject>\
<g:stringAttribute name=\"K\"><g:value>first</g:value></g:stringAttribute>\
<g:stringAttribute name=\"K\"><g:value>second</g:value></g:stringAttribute>\
</g:GenericCityObject>",
    );
    let raw = gml_geojson::pipeline::extract_fragment(&frag);
    let feature = gml_geojson::assemble::build_feature(&raw.events, &Vec::new(), Vec::new());
    assert_eq!(feature.properties.len(), 1);
    match &feature.properties[0].1 {
        PropertyValue::Text(s) => assert_eq!(string_of(s), "second"),
        _ => panic!("wrong kind"),
    }
}
