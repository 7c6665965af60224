use smartdata_browser::error::ParseError;
use smartdata_browser::schema::{GeoProperty, Model, Property, XNgsi};

fn prop(description: &str) -> Property {
    Property {
        any_of: None,
        format: None,
        one_of: None,
        enums: None,
        description: Some(description.to_string()),
        typ: Some("string".to_string()),
        xngsi: None,
        checked: false,
        name: String::new(),
        required: false,
    }
}

fn model(names: &[&str], required: &[&str]) -> Model {
    Model {
        description: "A model".to_string(),
        properties: names.iter().map(|n| (n.to_string(), prop(n))).collect(),
        required: required.iter().map(|n| n.to_string()).collect(),
        typ: "object".to_string(),
        derived_from: "derived".to_string(),
        disclaimer: "disclaimer".to_string(),
        license_url: "https://example.org/license".to_string(),
        schema: "https://example.org/schema.json".to_string(),
        tags: "tags".to_string(),
        version: "0.1.0".to_string(),
        url: String::new(),
    }
}

fn order(m: Model) -> Vec<(String, bool, bool)> {
    m.into_parsed()
        .properties
        .into_iter()
        .map(|p| (p.name, p.checked, p.required))
        .collect()
}

fn row(name: &str, flag: bool) -> (String, bool, bool) {
    (name.to_string(), flag, flag)
}

#[test]
fn required_properties_come_first() {
    assert_eq!(order(model(&["a", "bb"], &["bb"])), vec![row("bb", true), row("a", false)]);
}

#[test]
fn required_properties_shorter_name_first() {
    assert_eq!(order(model(&["yz", "x"], &["x", "yz"])), vec![row("x", true), row("yz", true)]);
}

#[test]
fn unchecked_properties_alphabetical() {
    assert_eq!(
        order(model(&["zebra", "apple"], &[])),
        vec![row("apple", false), row("zebra", false)]
    );
}

#[test]
fn unchecked_properties_ignore_length() {
    assert_eq!(
        order(model(&["b", "aaa", "id", "location", "type"], &["type", "id"])),
        vec![row("id", true), row("type", true), row("aaa", false), row("b", false), row("location", false)]
    );
}

#[test]
fn checked_equal_length_alphabetical() {
    assert_eq!(
        order(model(&["zz", "ab", "aa"], &["aa", "zz", "ab"])),
        vec![row("aa", true), row("ab", true), row("zz", true)]
    );
}

#[test]
fn normalisation_keeps_other_fields() {
    let mut m = model(&["speed"], &["speed"]);
    m.properties[0].1.xngsi = Some(XNgsi {
        model: Some("https://schema.org/Number".to_string()),
        typ: Some("Property".to_string()),
        units: Some("km/h".to_string()),
    });
    m.url = "https://example.org/page".to_string();
    let p = m.into_parsed();
    assert_eq!(p.description, "A model");
    assert_eq!(p.required, vec!["speed".to_string()]);
    assert_eq!(p.typ, "object");
    assert_eq!(p.version, "0.1.0");
    assert_eq!(p.url, "https://example.org/page");
    assert_eq!(p.properties[0].description.as_deref(), Some("speed"));
    assert_eq!(p.properties[0].xngsi.as_ref().and_then(|x| x.units.as_deref()), Some("km/h"));
}

#[test]
fn document_without_key_is_empty() {
    let r = Model::from_document(vec![], "Weather", "WeatherObserved");
    assert_eq!(r, Err(ParseError::EmptyDocument));
}

#[test]
fn document_takes_least_key_and_sets_url() {
    let doc = vec![
        ("WeatherObserved".to_string(), model(&["b"], &[])),
        ("Alert".to_string(), model(&["a"], &[])),
    ];
    let m = Model::from_document(doc, "Weather", "WeatherObserved").unwrap();
    assert_eq!(m.properties[0].0, "a");
    assert_eq!(m.url, "https://github.com/smart-data-models/dataModel.Weather/tree/master/WeatherObserved");
}

#[test]
fn geometry_names() {
    let names: Vec<&str> = GeoProperty::array().iter().map(|g| g.str()).collect();
    assert_eq!(
        names,
        vec!["Point", "LineString", "Polygon", "MultiPoint", "MultiLineString", "MultiPolygon"]
    );
}

#[test]
fn geometry_choice_only_for_location_with_alternatives() {
    let mut p = prop("location");
    p.name = "location".to_string();
    assert!(!p.offers_geometry_choice());
    p.one_of = Some(vec![]);
    assert!(p.offers_geometry_choice());
    p.name = "position".to_string();
    assert!(!p.offers_geometry_choice());
}

#[test]
fn property_clone_is_equal() {
    let mut p = prop("x");
    p.enums = Some(vec!["a".to_string(), "b".to_string()]);
    p.any_of = Some(vec![serde_yaml::Value::Bool(true)]);
    assert_eq!(p.clone(), p);
}

#[test]
fn document_with_equal_keys_takes_the_first() {
    let doc = vec![
        ("B".to_string(), model(&["second"], &[])),
        ("A".to_string(), model(&["first"], &[])),
        ("A".to_string(), model(&["third"], &[])),
    ];
    let m = Model::from_document(doc, "R", "A").unwrap();
    assert_eq!(m.properties[0].0, "first");
}

#[test]
fn empty_model_normalises_to_no_properties() {
    assert!(order(model(&[], &["ghost"])).is_empty());
}
