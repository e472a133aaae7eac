// The result tree on its own: writing, merging and the JSON text.

use shadow_api::{ShadowData, ShadowDataValue, ShadowMap};

fn text(v: &str) -> ShadowData {
    ShadowData::new_string(Some(1), Some(1), v.to_string())
}

fn object(fields: Vec<(&str, ShadowData)>) -> ShadowData {
    let mut o = ShadowData::new_object(Some(1), Some(1));
    for (k, v) in fields {
        o.set(k, v);
    }
    o
}

#[test]
fn empty_values_as_json() {
    assert_eq!(ShadowData::new_string(None, None, String::new()).to_string(), "\"\"");
    assert_eq!(ShadowData::new_array(None, None).to_string(), "[]");
    assert_eq!(ShadowData::new_object(None, None).to_string(), "{}");
}

#[test]
fn constructors_keep_rule_and_parent() {
    let s = ShadowData::new_string(Some(7), Some(2), "x".to_string());
    assert_eq!(s.id, Some(7));
    assert_eq!(s.parent, Some(2));
    assert!(s.is_string() && !s.is_array() && !s.is_object());
    let a = ShadowData::new_array(Some(8), None);
    assert_eq!(a.id, Some(8));
    assert_eq!(a.parent, None);
    assert!(a.is_array() && !a.is_string() && !a.is_object());
    let o = ShadowData::new_object(None, Some(1));
    assert_eq!(o.id, None);
    assert!(o.is_object() && !o.is_array() && !o.is_string());
}

#[test]
fn keys_keep_insertion_order() {
    let o = object(vec![("z", text("1")), ("a", text("2")), ("m", text("3"))]);
    assert_eq!(o.to_string(), "{\"z\":\"1\",\"a\":\"2\",\"m\":\"3\"}");
    assert_eq!(o.len(), 3);
    assert_eq!(o.place("a"), Some(1));
    assert_eq!(o.place("q"), None);
}

#[test]
fn replaced_key_keeps_its_place() {
    let mut o = object(vec![("z", text("1")), ("a", text("2"))]);
    o.set("z", text("9"));
    assert_eq!(o.to_string(), "{\"z\":\"9\",\"a\":\"2\"}");
}

#[test]
fn get_finds_a_field_or_none() {
    let o = object(vec![("k", text("v"))]);
    assert_eq!(o.get("k").unwrap().to_string(), "\"v\"");
    assert!(o.get("other").is_none());
}

#[test]
fn two_objects_at_one_key_are_merged() {
    let mut root = ShadowData::new_object(Some(0), None);
    root.set("k", object(vec![("x", text("1"))]));
    root.set("k", object(vec![("y", text("2"))]));
    assert_eq!(root.to_string(), "{\"k\":{\"x\":\"1\",\"y\":\"2\"}}");
}

#[test]
fn merged_object_keeps_the_rule_of_the_first() {
    let mut root = ShadowData::new_object(Some(0), None);
    let mut first = ShadowData::new_object(Some(5), Some(3));
    first.set("x", text("1"));
    let mut second = ShadowData::new_object(Some(6), Some(4));
    second.set("y", text("2"));
    root.set("k", first);
    root.set("k", second);
    let k = root.get("k").unwrap();
    assert_eq!(k.id, Some(5));
    assert_eq!(k.parent, Some(3));
}

#[test]
fn merge_goes_down_into_shared_objects() {
    let mut root = ShadowData::new_object(Some(0), None);
    root.set("k", object(vec![("a", object(vec![("x", text("1"))])), ("s", text("old"))]));
    root.set(
        "k",
        object(vec![
            ("a", object(vec![("y", text("2")), ("x", text("3"))])),
            ("s", text("new")),
            ("t", text("added")),
        ]),
    );
    assert_eq!(
        root.to_string(),
        "{\"k\":{\"a\":{\"x\":\"3\",\"y\":\"2\"},\"s\":\"new\",\"t\":\"added\"}}"
    );
}

#[test]
fn object_over_string_replaces_wholly() {
    let mut root = ShadowData::new_object(Some(0), None);
    root.set("k", text("plain"));
    root.set("k", object(vec![("y", text("2"))]));
    assert_eq!(root.to_string(), "{\"k\":{\"y\":\"2\"}}");
}

#[test]
fn string_over_object_replaces_wholly() {
    let mut root = ShadowData::new_object(Some(0), None);
    root.set("k", object(vec![("y", text("2"))]));
    root.set("k", text("plain"));
    assert_eq!(root.to_string(), "{\"k\":\"plain\"}");
}

#[test]
fn array_over_object_replaces_wholly() {
    let mut root = ShadowData::new_object(Some(0), None);
    root.set("k", object(vec![("y", text("2"))]));
    root.set("k", ShadowData::new_array(Some(1), Some(1)));
    assert_eq!(root.to_string(), "{\"k\":[]}");
}

#[test]
fn merge_of_maps_appends_new_keys_in_order() {
    let mut a: ShadowMap<ShadowData> = ShadowMap::new();
    a.insert("x".to_string(), text("1"));
    let mut b: ShadowMap<ShadowData> = ShadowMap::new();
    b.insert("y".to_string(), text("2"));
    b.insert("x".to_string(), text("3"));
    b.insert("z".to_string(), text("4"));
    ShadowData::merge(&mut a, b);
    let merged = ShadowData { id: None, parent: None, v: ShadowDataValue::Object(a) };
    assert_eq!(merged.to_string(), "{\"x\":\"3\",\"y\":\"2\",\"z\":\"4\"}");
}

#[test]
fn push_appends_in_order() {
    let mut a = ShadowData::new_array(Some(1), None);
    a.push(text("1"));
    a.push(text("3"));
    a.push(object(vec![("k", text("v"))]));
    assert_eq!(a.to_string(), "[\"1\",\"3\",{\"k\":\"v\"}]");
    assert_eq!(a.len(), 3);
    assert_eq!(a.child(1).to_string(), "\"3\"");
}

#[test]
fn force_object_adds_an_element_to_an_array() {
    let mut a = ShadowData::new_array(Some(4), Some(2));
    a.push(text("1"));
    assert_eq!(a.force_object(), Some(1));
    assert_eq!(a.to_string(), "[\"1\",{}]");
    let added = a.child(1);
    assert_eq!(added.id, Some(4));
    assert_eq!(added.parent, Some(1));
}

#[test]
fn force_object_leaves_an_object_alone() {
    let mut o = object(vec![("k", text("v"))]);
    assert_eq!(o.force_object(), None);
    assert_eq!(o.to_string(), "{\"k\":\"v\"}");
}

#[test]
fn strings_are_json_escaped() {
    assert_eq!(text("say \"hi\"").to_string(), "\"say \\\"hi\\\"\"");
    assert_eq!(text("a\\b").to_string(), "\"a\\\\b\"");
    assert_eq!(text("line1\nline2\ttab").to_string(), "\"line1\\nline2\\ttab\"");
    assert_eq!(text("\u{1}").to_string(), "\"\\u0001\"");
    assert_eq!(text("世界").to_string(), "\"世界\"");
}

#[test]
fn accessors_by_kind() {
    let s = text("v");
    assert_eq!(s.as_string().unwrap(), "v");
    assert!(s.as_array().is_none());
    assert!(s.as_object().is_none());
    let mut a = ShadowData::new_array(None, None);
    a.push(text("1"));
    assert_eq!(a.as_array().unwrap().len(), 1);
    assert!(a.as_string().is_none());
    let o = object(vec![("k", text("v"))]);
    assert_eq!(o.as_object().unwrap().len(), 1);
    assert!(o.as_array().is_none());
}

#[test]
fn transform_strings_rewrites_every_text() {
    let mut root = object(vec![
        ("a", text("x")),
        ("b", object(vec![("c", text("y"))])),
    ]);
    let mut arr = ShadowData::new_array(Some(1), Some(1));
    arr.push(text("z"));
    root.set("d", arr);
    root.transform_strings(&|s: String| format!("<{}>", s));
    assert_eq!(root.to_string(), "{\"a\":\"<x>\",\"b\":{\"c\":\"<y>\"},\"d\":[\"<z>\"]}");
}

#[test]
fn map_insert_returns_the_older_value() {
    let mut m: ShadowMap<usize> = ShadowMap::new();
    assert!(m.is_empty());
    assert_eq!(m.insert("a".to_string(), 1), None);
    assert_eq!(m.insert("b".to_string(), 2), None);
    assert_eq!(m.insert("a".to_string(), 3), Some(1));
    assert_eq!(m.len(), 2);
    assert_eq!(m.find("a"), Some(0));
    assert_eq!(m.find("b"), Some(1));
    assert_eq!(m.find("c"), None);
    assert_eq!(m.key(0), "a");
    assert_eq!(m.key(1), "b");
    assert_eq!(*m.item(0), 3);
    assert_eq!(m.get("b"), Some(&2));
    assert_eq!(m.get("zz"), None);
    *m.item_mut(1) = 9;
    let (keys, items) = m.into_entries();
    assert_eq!(keys, vec!["a".to_string(), "b".to_string()]);
    assert_eq!(items, vec![3, 9]);
}

#[test]
fn containers_can_be_changed_in_place() {
    let mut a = ShadowData::new_array(Some(1), None);
    a.as_array_mut().unwrap().push(text("x"));
    assert!(a.as_object_mut().is_none());
    assert_eq!(a.to_string(), "[\"x\"]");
    let mut o = ShadowData::new_object(Some(1), None);
    o.as_object_mut().unwrap().insert("k".to_string(), text("v"));
    assert!(o.as_array_mut().is_none());
    assert_eq!(o.to_string(), "{\"k\":\"v\"}");
    let mut s = text("t");
    assert!(s.as_array_mut().is_none() && s.as_object_mut().is_none());
}

#[test]
fn the_default_node_is_the_empty_string() {
    let d = ShadowData::default();
    assert_eq!(d.id, None);
    assert_eq!(d.parent, None);
    assert_eq!(d.to_string(), "\"\"");
}
