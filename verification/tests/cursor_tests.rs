// The cursor: where the values of a rule land as elements open and close.

use shadow_api::{ShadowData, ShadowDataCursor, ShadowJson, ShadowJsonData};

fn with_path(path: Option<&str>) -> ShadowJson {
    ShadowJson {
        s: "x".to_string(),
        data: Some(ShadowJsonData { path: path.map(|p| p.to_string()), values: None }),
        ..ShadowJson::default()
    }
}

fn open(cursor: &mut ShadowDataCursor, rule_id: usize, path: Option<&str>) -> Result<bool, String> {
    ShadowData::on_data_tag_open(rule_id, &with_path(path), cursor).map_err(|e| e.msg)
}

fn close(cursor: &mut ShadowDataCursor, rule_id: usize, path: Option<&str>) -> Result<(), String> {
    ShadowData::on_data_tag_close(rule_id, &with_path(path), cursor).map_err(|e| e.msg)
}

#[test]
fn a_pass_starts_on_an_empty_object() {
    let cursor = ShadowDataCursor::init();
    assert_eq!(cursor.to_string(), "{}");
    assert_eq!(cursor.shadow_data, Vec::<usize>::new());
    assert_eq!(cursor.root.id, Some(0));
    assert_eq!(cursor.root.parent, None);
    assert!(cursor.position().is_object());
    assert!(!cursor.in_array());
}

#[test]
fn new_takes_tree_and_position() {
    let mut root = ShadowData::new_object(Some(0), None);
    root.set("k", ShadowData::new_object(Some(1), Some(1)));
    let cursor = ShadowDataCursor::new(vec![0], root);
    assert_eq!(cursor.shadow_data, vec![0]);
    assert_eq!(cursor.position().id, Some(1));
}

#[test]
fn going_up_from_the_root_is_an_error() {
    let mut cursor = ShadowDataCursor::init();
    let err = cursor.go_up().unwrap_err();
    assert_eq!(err.msg, "[go_up] cannot move up");
    assert_eq!(err.to_string(), "[ShadowError] [go_up] cannot move up");
    assert_eq!(cursor.shadow_data, Vec::<usize>::new());
}

#[test]
fn a_rule_without_data_leaves_the_cursor() {
    let mut cursor = ShadowDataCursor::init();
    let rule = ShadowJson { s: "x".to_string(), ..ShadowJson::default() };
    assert_eq!(ShadowData::on_data_tag_open(3, &rule, &mut cursor).unwrap(), false);
    assert!(ShadowData::on_data_tag_close(3, &rule, &mut cursor).is_ok());
    assert_eq!(cursor.to_string(), "{}");
}

#[test]
fn a_rule_without_path_writes_where_the_cursor_stands() {
    let mut cursor = ShadowDataCursor::init();
    open(&mut cursor, 1, Some("a")).unwrap();
    assert_eq!(open(&mut cursor, 2, None), Ok(true));
    cursor.write_text(2, "f", "v".to_string());
    assert_eq!(close(&mut cursor, 2, None), Ok(()));
    assert_eq!(cursor.shadow_data, vec![0]);
    assert_eq!(cursor.to_string(), "{\"a\":{\"f\":\"v\"}}");
}

#[test]
fn fields_land_at_the_keys_of_the_path() {
    let mut cursor = ShadowDataCursor::init();
    assert_eq!(open(&mut cursor, 1, Some("a.b")), Ok(true));
    cursor.write_text(1, "field", "v".to_string());
    cursor.write_text(9, "other", "w".to_string());
    assert_eq!(cursor.to_string(), "{\"a\":{\"b\":{\"field\":\"v\",\"other\":\"w\"}}}");
    assert_eq!(cursor.shadow_data, vec![0, 0]);
}

#[test]
fn closing_goes_back_to_where_the_path_started() {
    let mut cursor = ShadowDataCursor::init();
    open(&mut cursor, 1, Some("a.b")).unwrap();
    cursor.write_text(1, "f", "1".to_string());
    close(&mut cursor, 1, Some("a.b")).unwrap();
    assert_eq!(cursor.shadow_data, Vec::<usize>::new());
    open(&mut cursor, 1, Some("a.b")).unwrap();
    cursor.write_text(1, "g", "2".to_string());
    close(&mut cursor, 1, Some("a.b")).unwrap();
    assert_eq!(cursor.to_string(), "{\"a\":{\"b\":{\"f\":\"1\",\"g\":\"2\"}}}");
}

#[test]
fn created_nodes_carry_rule_and_parent() {
    let mut cursor = ShadowDataCursor::init();
    open(&mut cursor, 4, Some("a.b")).unwrap();
    let a = cursor.root.get("a").unwrap();
    assert_eq!(a.id, Some(4));
    assert_eq!(a.parent, Some(1));
    let b = a.get("b").unwrap();
    assert_eq!(b.id, Some(4));
    assert_eq!(b.parent, Some(2));
}

#[test]
fn each_match_of_an_array_path_adds_an_element() {
    let mut cursor = ShadowDataCursor::init();
    for i in 0..3 {
        assert_eq!(open(&mut cursor, 1, Some("a.b.")), Ok(true));
        assert!(cursor.in_array());
        cursor.write_text(1, "n", i.to_string());
        cursor.write_text(2, "m", format!("m{}", i));
        assert_eq!(close(&mut cursor, 1, Some("a.b.")), Ok(()));
    }
    assert_eq!(
        cursor.to_string(),
        "{\"a\":{\"b\":[{\"n\":\"0\",\"m\":\"m0\"},{\"n\":\"1\",\"m\":\"m1\"},{\"n\":\"2\",\"m\":\"m2\"}]}}"
    );
    assert!(cursor.position().is_array());
    assert_eq!(cursor.position().len(), 3);
}

#[test]
fn a_match_without_writes_leaves_an_empty_element() {
    let mut cursor = ShadowDataCursor::init();
    open(&mut cursor, 1, Some("items.")).unwrap();
    close(&mut cursor, 1, Some("items.")).unwrap();
    open(&mut cursor, 1, Some("items.")).unwrap();
    cursor.write_text(1, "t", "B".to_string());
    close(&mut cursor, 1, Some("items.")).unwrap();
    assert_eq!(cursor.to_string(), "{\"items\":[{},{\"t\":\"B\"}]}");
}

#[test]
fn another_rule_leaves_the_array_first() {
    let mut cursor = ShadowDataCursor::init();
    open(&mut cursor, 1, Some("items.")).unwrap();
    close(&mut cursor, 1, Some("items.")).unwrap();
    assert!(cursor.position().is_array());
    assert_eq!(open(&mut cursor, 2, Some("form")), Ok(true));
    cursor.write_text(2, "k", "v".to_string());
    close(&mut cursor, 2, Some("form")).unwrap();
    open(&mut cursor, 1, Some("items.")).unwrap();
    close(&mut cursor, 1, Some("items.")).unwrap();
    assert_eq!(cursor.to_string(), "{\"items\":[{},{}],\"form\":{\"k\":\"v\"}}");
}

#[test]
fn a_single_dot_is_refused() {
    let mut cursor = ShadowDataCursor::init();
    assert_eq!(
        open(&mut cursor, 1, Some(".")),
        Err("Invalid def : single dot is not a valid path".to_string())
    );
    assert_eq!(cursor.to_string(), "{}");
    assert_eq!(cursor.shadow_data, Vec::<usize>::new());
}

#[test]
fn a_path_of_keys_cannot_start_at_an_array() {
    let mut root = ShadowData::new_object(Some(0), None);
    root.set("k", ShadowData::new_array(Some(1), Some(1)));
    let mut cursor = ShadowDataCursor::new(vec![0], root);
    assert_eq!(
        open(&mut cursor, 1, Some("a")),
        Err("Invalid def : a path of keys cannot start at an array".to_string())
    );
    assert_eq!(cursor.to_string(), "{\"k\":[]}");
}

#[test]
fn leaving_an_array_without_parent_is_an_error() {
    let mut root = ShadowData::new_object(Some(0), None);
    root.set("k", ShadowData::new_array(Some(1), None));
    let mut cursor = ShadowDataCursor::new(vec![0], root);
    assert_eq!(open(&mut cursor, 2, Some("a")), Err("[go_up] cannot move up".to_string()));
    assert_eq!(cursor.shadow_data, vec![0]);
}

#[test]
fn an_array_replaces_a_stale_value() {
    let mut cursor = ShadowDataCursor::init();
    cursor.write_text(1, "k", "stale".to_string());
    open(&mut cursor, 2, Some("k.")).unwrap();
    cursor.write_text(2, "f", "v".to_string());
    assert_eq!(cursor.to_string(), "{\"k\":[{\"f\":\"v\"}]}");
}

#[test]
fn an_object_replaces_a_stale_value_on_the_way() {
    let mut cursor = ShadowDataCursor::init();
    cursor.write_text(1, "a", "stale".to_string());
    open(&mut cursor, 2, Some("a.b")).unwrap();
    assert_eq!(cursor.to_string(), "{\"a\":{\"b\":{}}}");
}

#[test]
fn empty_keys_are_keys() {
    let mut cursor = ShadowDataCursor::init();
    open(&mut cursor, 1, Some("a..b")).unwrap();
    assert_eq!(cursor.to_string(), "{\"a\":{\"\":{\"b\":{}}}}");
    let mut other = ShadowDataCursor::init();
    open(&mut other, 1, Some("")).unwrap();
    assert_eq!(other.to_string(), "{\"\":{}}");
}

#[test]
fn a_repeated_key_in_an_element_starts_a_sibling() {
    let mut cursor = ShadowDataCursor::init();
    open(&mut cursor, 1, Some("rows.")).unwrap();
    cursor.write_text(1, "a", "1".to_string());
    cursor.write_text(1, "b", "2".to_string());
    cursor.write_text(1, "a", "3".to_string());
    assert_eq!(cursor.to_string(), "{\"rows\":[{\"a\":\"1\",\"b\":\"2\"},{\"a\":\"3\"}]}");
    assert_eq!(cursor.shadow_data, vec![0, 1]);
    close(&mut cursor, 1, Some("rows.")).unwrap();
    assert!(cursor.position().is_array());
}

#[test]
fn a_repeated_key_outside_an_array_replaces() {
    let mut cursor = ShadowDataCursor::init();
    open(&mut cursor, 1, Some("o")).unwrap();
    cursor.write_text(1, "a", "1".to_string());
    cursor.write_text(1, "a", "2".to_string());
    assert_eq!(cursor.to_string(), "{\"o\":{\"a\":\"2\"}}");
}

#[test]
fn the_same_rule_on_its_own_element_stays() {
    let mut cursor = ShadowDataCursor::init();
    open(&mut cursor, 1, Some("rows.")).unwrap();
    cursor.write_text(1, "a", "1".to_string());
    assert_eq!(open(&mut cursor, 1, Some("rows.")), Ok(true));
    assert_eq!(cursor.shadow_data, vec![0, 0]);
    assert_eq!(cursor.to_string(), "{\"rows\":[{\"a\":\"1\"}]}");
}

#[test]
fn writing_on_an_array_forces_an_element() {
    let mut cursor = ShadowDataCursor::init();
    open(&mut cursor, 1, Some("rows.")).unwrap();
    close(&mut cursor, 1, Some("rows.")).unwrap();
    cursor.write_text(5, "late", "x".to_string());
    assert_eq!(cursor.to_string(), "{\"rows\":[{},{\"late\":\"x\"}]}");
    assert_eq!(cursor.position().id, Some(1));
}

#[test]
fn set_value_and_enter_move_as_told() {
    let mut cursor = ShadowDataCursor::init();
    cursor.set_value("list", ShadowData::new_array(Some(1), Some(1)));
    assert_eq!(cursor.to_string(), "{\"list\":[]}");
    let mut at_list = ShadowDataCursor::new(vec![0], cursor.root);
    at_list.enter(ShadowData::new_object(Some(2), Some(1)));
    assert_eq!(at_list.shadow_data, vec![0, 0]);
    at_list.begin_sibling();
    assert_eq!(at_list.shadow_data, vec![0, 1]);
    assert_eq!(at_list.to_string(), "{\"list\":[{},{}]}");
    at_list.go_up().unwrap();
    at_list.stand_on_object();
    assert_eq!(at_list.shadow_data, vec![0, 2]);
}

// The start of a new element is inferred from a key that comes again. A key
// that is missing in one element lets the values of the next one slip into
// it. This is how the inference works, and it is kept as it is.
#[test]
fn a_missing_key_lets_the_next_element_slip_in() {
    let mut cursor = ShadowDataCursor::init();
    open(&mut cursor, 1, Some("rows.")).unwrap();
    cursor.write_text(1, "a", "a1".to_string());
    cursor.write_text(1, "b", "b1".to_string());
    // the second element has no `a`
    cursor.write_text(1, "b", "b2".to_string());
    // the third element has both
    cursor.write_text(1, "a", "a3".to_string());
    cursor.write_text(1, "b", "b3".to_string());
    assert_eq!(
        cursor.to_string(),
        "{\"rows\":[{\"a\":\"a1\",\"b\":\"b1\"},{\"b\":\"b2\",\"a\":\"a3\"},{\"b\":\"b3\"}]}"
    );
}
