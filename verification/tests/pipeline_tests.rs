//! End-to-end and scenario tests for the extraction pipeline, with the
//! real XML tokenizer and the real cartographic transform linked in.

use gml_geojson::assemble::{build_feature, keep_projected, pair_numeric};
use gml_geojson::emit::output_stem;
use gml_geojson::extractor::{AttrKind, RawObject};
use gml_geojson::feature::{Feature, PropertyValue};
use gml_geojson::pipeline::{extract_fragment, segment_document};

const HK80_DEF: &str = "+proj=tmerc +lat_0=22.31213333333334 +lon_0=114.1785555555556 +k=1 +x_0=836694.05 +y_0=819069.8 +ellps=intl +towgs84=-162.619,-276.959,-161.764,0.067753,-2.24365,-1.15883,-1.09425 +units=m +no_defs";
const WGS84_DEF: &str = "+proj=longlat +datum=WGS84 +no_defs";

fn chars(s: &str) -> Vec<char> {
    s.chars().collect()
}

fn string_of(v: &[char]) -> String {
    v.iter().collect()
}

fn parse_bits(tok: &[char]) -> Option<u64> {
    let s: String = tok.iter().collect();
    s.parse::<f64>().ok().map(|x| x.to_bits())
}

fn project(e_bits: u64, n_bits: u64) -> Option<(u64, u64)> {
    let from = proj4rs::Proj::from_proj_string(HK80_DEF).ok()?;
    let to = proj4rs::Proj::from_proj_string(WGS84_DEF).ok()?;
    let mut point = (f64::from_bits(e_bits), f64::from_bits(n_bits), 0.0);
    proj4rs::transform::transform(&from, &to, &mut point).ok()?;
    Some((point.0.to_degrees().to_bits(), point.1.to_degrees().to_bits()))
}

/// The same resolution the program performs around the library: answer the
/// float-parse question for each double attribute and position-list token,
/// project each pair, and assemble the feature.
fn resolve(raw: &RawObject) -> Feature {
    let dvals: Vec<Option<u64>> = raw
        .events
        .iter()
        .filter(|e| e.kind == AttrKind::Double)
        .map(|e| parse_bits(&e.text))
        .collect();
    let mut coords: Vec<(u64, u64)> = Vec::new();
    for pl in &raw.pos_lists {
        let parsed: Vec<Option<u64>> = pl.iter().map(|t| parse_bits(t)).collect();
        let pairs = pair_numeric(&parsed);
        let projected: Vec<Option<(u64, u64)>> = pairs.iter().map(|&(e, n)| project(e, n)).collect();
        let mut kept = keep_projected(&projected);
        coords.append(&mut kept);
    }
    build_feature(&raw.events, &dvals, coords)
}

fn lookup<'a>(f: &'a Feature, key: &str) -> Option<&'a PropertyValue> {
    let kv = chars(key);
    f.properties
        .iter()
        .find(|(k, _)| k.len() == kv.len() && k.iter().zip(kv.iter()).all(|(a, b)| a == b))
        .map(|(_, v)| v)
}

const MINIMAL_DOC: &str = "<root xmlns:gen=\"g\"><gen:GenericCityObject>\
<gen:stringAttribute name=\"ROUTE_ID\"><gen:value>R1</gen:value></gen:stringAttribute>\
<gen:stringAttribute name=\"NOTE\"><gen:value>main</gen:value></gen:stringAttribute>\
<gml:posList>820000 818000 820100 818100</gml:posList>\
</gen:GenericCityObject></root>";

#[test]
fn end_to_end_minimal_document() {
    let suffix = chars(":GenericCityObject");
    let frags = segment_document(MINIMAL_DOC, &suffix).unwrap();
    assert_eq!(frags.len(), 1);
    let raw = extract_fragment(&frags[0]);
    let feature = resolve(&raw);
    match lookup(&feature, "ROUTE_ID") {
        Some(PropertyValue::Text(s)) => assert_eq!(string_of(s), "R1"),
        other => panic!("ROUTE_ID missing or wrong: {:?}", other.is_some()),
    }
    assert_eq!(feature.coordinates.len(), 2);
    for &(lon_bits, lat_bits) in &feature.coordinates {
        let lon = f64::from_bits(lon_bits);
        let lat = f64::from_bits(lat_bits);
        assert!(lon > 113.0 && lon < 115.0, "longitude {} out of range", lon);
        assert!(lat > 22.0 && lat < 23.0, "latitude {} out of range", lat);
    }
    let stem = output_stem(&feature, &chars("ROUTE_ID"), 0).unwrap();
    assert_eq!(string_of(&stem), "R1");
}

#[test]
fn segmenter_keeps_nested_same_name() {
    let doc = "<root><gen:GenericCityObject id=\"a\">\
<gen:GenericCityObject id=\"b\"></gen:GenericCityObject>\
</gen:GenericCityObject></root>";
    let suffix = chars(":GenericCityObject");
    let frags = segment_document(doc, &suffix).unwrap();
    assert_eq!(frags.len(), 1);
    let text = string_of(&frags[0]);
    assert_eq!(
        text,
        "<gen:GenericCityObject id=\"a\"><gen:GenericCityObject id=\"b\">\
</gen:GenericCityObject></gen:GenericCityObject>"
    );
}

#[test]
fn segmenter_ignores_non_matching_elements() {
    let doc = "<root><other>x</other><gen:GenericCityObject>\
<gen:stringAttribute name=\"K\"><gen:value>v</gen:value></gen:stringAttribute>\
</gen:GenericCityObject><tail>y</tail></root>";
    let suffix = chars(":GenericCityObject");
    let frags = segment_document(doc, &suffix).unwrap();
    assert_eq!(frags.len(), 1);
    assert!(!string_of(&frags[0]).contains("tail"));
}

#[test]
fn segmenter_truncates_on_malformed_markup() {
    let doc = "<root><gen:GenericCityObject></gen:GenericCityObject>\
<gen:GenericCityObject><broken </root>";
    let suffix = chars(":GenericCityObject");
    let frags = segment_document(doc, &suffix).unwrap();
    assert_eq!(frags.len(), 1);
}

#[test]
fn malformed_fragment_yields_empty_feature() {
    let frag = chars("<gen:GenericCityObject><gen:stringAttribute name=\"X\">t");
    let raw = extract_fragment(&frag);
    assert!(raw.events.is_empty());
    assert!(raw.pos_lists.is_empty());
    let feature = resolve(&raw);
    assert!(feature.properties.is_empty());
    assert!(feature.coordinates.is_empty());
    assert!(output_stem(&feature, &chars("ROUTE_ID"), 0).is_none());
}

#[test]
fn missing_identifier_yields_no_output_name() {
    let frag = chars(
        "<gen:GenericCityObject>\
<gen:stringAttribute name=\"OTHER\"><gen:value>v</gen:value></gen:stringAttribute>\
</gen:GenericCityObject>",
    );
    let raw = extract_fragment(&frag);
    let feature = resolve(&raw);
    assert!(lookup(&feature, "OTHER").is_some());
    assert!(output_stem(&feature, &chars("ROUTE_ID"), 3).is_none());
}

#[test]
fn attribute_kinds_present_iff_parse_succeeds() {
    let frag = chars(
        "<gen:GenericCityObject>\
<gen:stringAttribute name=\"S\"><gen:value>hello</gen:value></gen:stringAttribute>\
<gen:intAttribute name=\"I_OK\"><gen:value>42</gen:value></gen:intAttribute>\
<gen:intAttribute name=\"I_BAD\"><gen:value>4x2</gen:value></gen:intAttribute>\
<gen:doubleAttribute name=\"D_OK\"><gen:value>3.5</gen:value></gen:doubleAttribute>\
<gen:doubleAttribute name=\"D_BAD\"><gen:value>oops</gen:value></gen:doubleAttribute>\
</gen:GenericCityObject>",
    );
    let raw = extract_fragment(&frag);
    let feature = resolve(&raw);
    match lookup(&feature, "S") {
        Some(PropertyValue::Text(s)) => assert_eq!(string_of(s), "hello"),
        _ => panic!("S missing"),
    }
    match lookup(&feature, "I_OK") {
        Some(PropertyValue::Int(n)) => assert_eq!(*n, 42),
        _ => panic!("I_OK missing"),
    }
    assert!(lookup(&feature, "I_BAD").is_none());
    match lookup(&feature, "D_OK") {
        Some(PropertyValue::Double(b)) => assert_eq!(f64::from_bits(*b), 3.5),
        _ => panic!("D_OK missing"),
    }
    assert!(lookup(&feature, "D_BAD").is_none());
}

#[test]
fn projection_round_trip_reference_point() {
    let e = 820000.0f64;
    let n = 818000.0f64;
    let (lon_bits, lat_bits) = project(e.to_bits(), n.to_bits()).unwrap();
    let lon = f64::from_bits(lon_bits);
    let lat = f64::from_bits(lat_bits);
    assert!(lon > 113.0 && lon < 115.0);
    assert!(lat > 22.0 && lat < 23.0);
    // The documented WGS84 equivalent of this survey-grid point.
    assert!((lon - 114.0189986401).abs() < 1e-6, "longitude {}", lon);
    assert!((lat - 22.3008647759).abs() < 1e-6, "latitude {}", lat);
    // Inverse transform back to the survey grid must land on the input.
    let from = proj4rs::Proj::from_proj_string(WGS84_DEF).unwrap();
    let to = proj4rs::Proj::from_proj_string(HK80_DEF).unwrap();
    let mut point = (lon.to_radians(), lat.to_radians(), 0.0);
    proj4rs::transform::transform(&from, &to, &mut point).unwrap();
    assert!((point.0 - e).abs() < 1e-3, "easting came back as {}", point.0);
    assert!((point.1 - n).abs() < 1e-3, "northing came back as {}", point.1);
}

#[test]
fn stray_token_shifts_pairing() {
    // The filter runs before pairing, so one non-numeric token realigns
    // everything after it.
    let frag = chars(
        "<gen:GenericCityObject>\
<gml:posList>820000 oops 818000 820100 818100</gml:posList>\
</gen:GenericCityObject>",
    );
    let raw = extract_fragment(&frag);
    assert_eq!(raw.pos_lists.len(), 1);
    let parsed: Vec<Option<u64>> = raw.pos_lists[0].iter().map(|t| parse_bits(t)).collect();
    assert_eq!(parsed.len(), 5);
    assert!(parsed[1].is_none());
    let pairs = pair_numeric(&parsed);
    assert_eq!(pairs.len(), 2);
    assert_eq!(f64::from_bits(pairs[0].0), 820000.0);
    assert_eq!(f64::from_bits(pairs[0].1), 818000.0);
    assert_eq!(f64::from_bits(pairs[1].0), 820100.0);
    assert_eq!(f64::from_bits(pairs[1].1), 818100.0);
}

fn feature_to_value(f: &Feature) -> serde_json::Value {
    let mut props = serde_json::Map::new();
    for (k, v) in &f.properties {
        let key: String = k.iter().collect();
        let val = match v {
            PropertyValue::Text(s) => serde_json::Value::String(s.iter().collect()),
            PropertyValue::Int(n) => serde_json::Value::Number(serde_json::Number::from(*n)),
            PropertyValue::Double(b) => match serde_json::Number::from_f64(f64::from_bits(*b)) {
                Some(num) => serde_json::Value::Number(num),
                None => serde_json::Value::Null,
            },
            PropertyValue::Null => serde_json::Value::Null,
        };
        props.insert(key, val);
    }
    let coords: Vec<serde_json::Value> = f
        .coordinates
        .iter()
        .map(|&(lon, lat)| {
            serde_json::Value::Array(vec![
                serde_json::Number::from_f64(f64::from_bits(lon)).map(serde_json::Value::Number).unwrap_or(serde_json::Value::Null),
                serde_json::Number::from_f64(f64::from_bits(lat)).map(serde_json::Value::Number).unwrap_or(serde_json::Value::Null),
            ])
        })
        .collect();
    let mut geometry = serde_json::Map::new();
    geometry.insert("type".to_string(), serde_json::Value::String("LineString".to_string()));
    geometry.insert("coordinates".to_string(), serde_json::Value::Array(coords));
    let mut top = serde_json::Map::new();
    top.insert("type".to_string(), serde_json::Value::String("Feature".to_string()));
    top.insert("geometry".to_string(), serde_json::Value::Object(geometry));
    top.insert("properties".to_string(), serde_json::Value::Object(props));
    serde_json::Value::Object(top)
}

#[test]
fn pipeline_is_idempotent_byte_for_byte() {
    let suffix = chars(":GenericCityObject");
    let mut outputs: Vec<String> = Vec::new();
    for _ in 0..2 {
        let frags = segment_document(MINIMAL_DOC, &suffix).unwrap();
        let raw = extract_fragment(&frags[0]);
        let feature = resolve(&raw);
        let json = serde_json::to_string_pretty(&feature_to_value(&feature)).unwrap();
        outputs.push(json);
    }
    assert_eq!(outputs[0], outputs[1]);
    assert!(outputs[0].contains("\"R1\""));
}

#[test]
fn attribute_values_kept_verbatim_in_fragments() {
    // Attribute values are written back still escaped; element text is
    // written back unescaped.
    let doc = "<root><gen:GenericCityObject name=\"a&amp;b\">\
<gen:stringAttribute name=\"K\"><gen:value>x&amp;y</gen:value></gen:stringAttribute>\
</gen:GenericCityObject></root>";
    let suffix = chars(":GenericCityObject");
    let frags = segment_document(doc, &suffix).unwrap();
    assert_eq!(frags.len(), 1);
    let text = string_of(&frags[0]);
    assert!(text.contains("name=\"a&amp;b\""));
    assert!(text.contains(">x&y<"));
}

#[test]
fn two_objects_yield_two_features() {
    let doc = "<root><gen:GenericCityObject>\
<gen:stringAttribute name=\"ROUTE_ID\"><gen:value>R1</gen:value></gen:stringAttribute>\
</gen:GenericCityObject><gen:GenericCityObject>\
<gen:stringAttribute name=\"ROUTE_ID\"><gen:value>R2</gen:value></gen:stringAttribute>\
</gen:GenericCityObject></root>";
    let suffix = chars(":GenericCityObject");
    let frags = segment_document(doc, &suffix).unwrap();
    assert_eq!(frags.len(), 2);
    let id = chars("ROUTE_ID");
    let mut stems: Vec<String> = Vec::new();
    for frag in &frags {
        let feature = resolve(&extract_fragment(frag));
        stems.push(string_of(&output_stem(&feature, &id, 0).unwrap()));
    }
    assert_eq!(stems, vec!["R1", "R2"]);
}

#[test]
fn text_accumulates_across_nested_elements() {
    let frag = chars(
        "<g:GenericCityObject>\
<g:stringAttribute name=\"K\"><g:value>a</g:value><g:value>b</g:value></g:stringAttribute>\
</g:GenericCityObject>",
    );
    let feature = resolve(&extract_fragment(&frag));
    match lookup(&feature, "K") {
        Some(PropertyValue::Text(s)) => assert_eq!(string_of(s), "ab"),
        _ => panic!("K missing"),
    }
}

#[test]
fn empty_attribute_element_is_ignored() {
    // A self-closing attribute element is a different token kind and is
    // passed over entirely, so it produces no property.
    let frag = chars("<g:GenericCityObject><g:stringAttribute name=\"K\"/></g:GenericCityObject>");
    let feature = resolve(&extract_fragment(&frag));
    assert!(lookup(&feature, "K").is_none());
    assert!(feature.properties.is_empty());
}
