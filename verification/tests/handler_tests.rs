// The handlers on their own: a matched element or a chunk of text goes in,
// edits and collected values come out.

use shadow_api::{
    ElementAction, RegexCache, ShadowApi, ShadowDataCursor, ShadowElement, ShadowJson,
    ShadowJsonData, ShadowJsonEdit, ShadowJsonEditOne, ShadowJsonValueSource, ShadowMap,
};

fn element(tag: &str, attrs: Vec<(&str, &str)>, can_have_content: bool) -> ShadowElement {
    ShadowElement {
        tag_name: tag.to_string(),
        attributes: attrs.into_iter().map(|(k, v)| (k.to_string(), v.to_string())).collect(),
        can_have_content,
    }
}

fn rule(selector: &str) -> ShadowJson {
    ShadowJson { s: selector.to_string(), ..ShadowJson::default() }
}

fn one_edit(op: &str, val: Option<&str>, pattern: Option<&str>) -> ShadowJsonEditOne {
    ShadowJsonEditOne {
        op: op.to_string(),
        val: val.map(|v| v.to_string()),
        pattern: pattern.map(|v| v.to_string()),
    }
}

fn with_attr_edits(edits: Vec<(&str, ShadowJsonEditOne)>) -> ShadowJson {
    let mut map = ShadowMap::new();
    for (key, edit) in edits {
        map.insert(key.to_string(), edit);
    }
    let mut r = rule("x");
    r.edit = Some(ShadowJsonEdit { attrs: Some(map), content: None });
    r
}

fn with_content_edit(edit: ShadowJsonEditOne) -> ShadowJson {
    let mut r = rule("x");
    r.edit = Some(ShadowJsonEdit { attrs: None, content: Some(edit) });
    r
}

fn with_values(path: Option<&str>, list: Vec<(&str, ShadowJsonValueSource)>) -> ShadowJson {
    let mut map = ShadowMap::new();
    for (key, source) in list {
        map.insert(key.to_string(), source);
    }
    let mut r = rule("x");
    r.data = Some(ShadowJsonData { path: path.map(|p| p.to_string()), values: Some(map) });
    r
}

// What the handler returned, in a form that compares.
fn shown(actions: &Vec<ElementAction>) -> Vec<String> {
    actions.iter().map(|a| format!("{:?}", a)).collect()
}

struct Run {
    actions: Vec<String>,
    errors: Vec<String>,
    json: String,
    position: Vec<usize>,
}

fn handle(el: &ShadowElement, rule_id: usize, r: &ShadowJson) -> Run {
    let mut errors = Vec::new();
    let mut cache = RegexCache::new();
    let mut cursor = ShadowDataCursor::init();
    let actions =
        ShadowApi::element_content_handler(el, rule_id, r, &mut errors, &mut cache, &mut cursor);
    Run {
        actions: shown(&actions),
        errors,
        json: cursor.to_string(),
        position: cursor.shadow_data,
    }
}

#[test]
fn match_replace_rewrites_a_matching_attribute() {
    let r = with_attr_edits(vec![(
        "content",
        one_edit("match_replace", Some("just $1"), Some("^(.*) content$")),
    )]);
    let run = handle(&element("meta", vec![("name", "meta1"), ("content", "meta1 content")], false), 1, &r);
    assert_eq!(run.actions, vec!["SetAttribute(\"content\", \"just meta1\")"]);
    assert_eq!(run.errors.len(), 0);
}

#[test]
fn match_replace_leaves_a_value_without_match() {
    let r = with_attr_edits(vec![(
        "content",
        one_edit("match_replace", Some("just $1"), Some("^(.*) content$")),
    )]);
    let run = handle(&element("meta", vec![("content", "nothing here")], false), 1, &r);
    assert_eq!(run.actions, Vec::<String>::new());
    assert_eq!(run.errors.len(), 0);
}

#[test]
fn match_replace_takes_a_missing_attribute_as_empty() {
    let r = with_attr_edits(vec![("title", one_edit("match_replace", Some("none"), Some("^$")))]);
    let run = handle(&element("a", vec![], true), 1, &r);
    assert_eq!(run.actions, vec!["SetAttribute(\"title\", \"none\")"]);
}

#[test]
fn match_replace_without_operands_is_an_error() {
    let r = with_attr_edits(vec![("title", one_edit("match_replace", Some("x"), None))]);
    let run = handle(&element("a", vec![("title", "t")], true), 1, &r);
    assert_eq!(run.actions, Vec::<String>::new());
    assert_eq!(
        run.errors,
        vec!["Match_replace requires match and val attributes (edit.attrs.title)"]
    );
}

#[test]
fn an_unknown_operation_is_reported_once() {
    let r = with_attr_edits(vec![("href", one_edit("foo", Some("v"), None))]);
    let run = handle(&element("a", vec![("href", "http://x")], true), 1, &r);
    assert_eq!(run.actions, Vec::<String>::new());
    assert_eq!(run.errors.len(), 1);
    assert!(run.errors[0].contains("foo"));
    assert_eq!(
        run.errors[0],
        "Invalid operation (edit.attrs.href): foo. Allowed values : delete/upsert/match_replace"
    );
}

#[test]
fn delete_removes_the_attribute() {
    let r = with_attr_edits(vec![("style", one_edit("delete", None, None))]);
    let run = handle(&element("a", vec![("href", "http://x"), ("style", "display:none")], true), 1, &r);
    assert_eq!(run.actions, vec!["RemoveAttribute(\"style\")"]);
}

#[test]
fn upsert_sets_the_attribute() {
    let r = with_attr_edits(vec![("id", one_edit("upsert", Some("123"), None))]);
    let run = handle(&element("a", vec![], true), 1, &r);
    assert_eq!(run.actions, vec!["SetAttribute(\"id\", \"123\")"]);
}

#[test]
fn upsert_without_value_is_an_error() {
    let r = with_attr_edits(vec![("id", one_edit("upsert", None, None))]);
    let run = handle(&element("a", vec![], true), 1, &r);
    assert_eq!(run.actions, Vec::<String>::new());
    assert_eq!(run.errors, vec!["Upsert requires val attribute (edit.attrs.id)"]);
}

#[test]
fn a_pattern_that_does_not_compile_is_reported() {
    let r = with_attr_edits(vec![("id", one_edit("match_replace", Some("x"), Some("(")))]);
    let run = handle(&element("a", vec![("id", "(")], true), 1, &r);
    assert_eq!(run.actions, Vec::<String>::new());
    assert_eq!(run.errors.len(), 1);
    assert!(run.errors[0].starts_with("Invalid regex: ( | Error: "));
    assert!(run.errors[0].contains("unclosed group"));
}

#[test]
fn later_edits_see_earlier_ones() {
    let r = with_attr_edits(vec![
        ("title", one_edit("upsert", Some("one two"), None)),
        ("TITLE", one_edit("match_replace", Some("$2 $1"), Some("(\\w+) (\\w+)"))),
    ]);
    let mut r = r;
    r.data = with_values(None, vec![("t", ShadowJsonValueSource::Attribute("title".to_string()))]).data;
    let run = handle(&element("a", vec![("title", "old")], false), 1, &r);
    assert_eq!(
        run.actions,
        vec!["SetAttribute(\"title\", \"one two\")", "SetAttribute(\"TITLE\", \"two one\")"]
    );
    assert_eq!(run.json, "{\"t\":\"two one\"}");
}

#[test]
fn hide_adds_to_a_style_or_sets_one() {
    let mut r = rule("x");
    r.hide = Some(true);
    let run = handle(&element("div", vec![("style", "color:red")], true), 1, &r);
    assert_eq!(run.actions, vec!["SetAttribute(\"style\", \"color:red;display:none\")"]);
    let run = handle(&element("div", vec![], true), 1, &r);
    assert_eq!(run.actions, vec!["SetAttribute(\"style\", \"display:none\")"]);
    r.hide = Some(false);
    let run = handle(&element("div", vec![], true), 1, &r);
    assert_eq!(run.actions, Vec::<String>::new());
}

#[test]
fn insertions_take_the_first_usable_snippet() {
    let mut r = rule("x");
    r.insert_after = Some(vec!["".to_string(), "<i>1</i>".to_string(), "<i>2</i>".to_string()]);
    r.insert_before = Some(vec!["<b>1</b>".to_string()]);
    r.append = Some(vec![]);
    r.prepend = Some(vec!["".to_string()]);
    let run = handle(&element("div", vec![], true), 1, &r);
    assert_eq!(run.actions, vec!["After(\"<i>1</i>\")", "Before(\"<b>1</b>\")"]);
}

#[test]
fn insertions_come_in_a_fixed_order() {
    let mut r = rule("x");
    r.prepend = Some(vec!["p".to_string()]);
    r.append = Some(vec!["a".to_string()]);
    r.insert_before = Some(vec!["b".to_string()]);
    r.insert_after = Some(vec!["f".to_string()]);
    let run = handle(&element("div", vec![], true), 1, &r);
    assert_eq!(
        run.actions,
        vec!["After(\"f\")", "Before(\"b\")", "Append(\"a\")", "Prepend(\"p\")"]
    );
}

#[test]
fn a_deleted_element_is_not_edited_and_removed_last() {
    let mut r = with_attr_edits(vec![("id", one_edit("upsert", Some("1"), None))]);
    r.hide = Some(true);
    r.delete = Some(true);
    r.append = Some(vec!["<i></i>".to_string()]);
    r.data = with_values(Some("gone."), vec![("id", ShadowJsonValueSource::Attribute("id".to_string()))]).data;
    let run = handle(&element("div", vec![("id", "d")], true), 1, &r);
    assert_eq!(run.actions, vec!["Append(\"<i></i>\")", "OnEndTag", "Remove"]);
    assert_eq!(run.json, "{\"gone\":[{\"id\":\"d\"}]}");
}

#[test]
fn attributes_are_collected() {
    let r = with_values(
        Some("link"),
        vec![
            ("url", ShadowJsonValueSource::Attribute("href".to_string())),
            ("skipped", ShadowJsonValueSource::Attribute("".to_string())),
            ("absent", ShadowJsonValueSource::Attribute("rel".to_string())),
            ("name", ShadowJsonValueSource::Contents),
        ],
    );
    let run = handle(&element("a", vec![("href", "https://top.link")], true), 4, &r);
    assert_eq!(run.actions, vec!["OnEndTag"]);
    assert_eq!(run.json, "{\"link\":{\"url\":\"https://top.link\"}}");
    assert_eq!(run.position, vec![0]);
    assert_eq!(run.errors.len(), 0);
}

#[test]
fn an_element_without_content_asks_for_no_end_tag() {
    let r = with_values(None, vec![("v", ShadowJsonValueSource::Attribute("value".to_string()))]);
    let run = handle(&element("input", vec![("value", "1")], false), 1, &r);
    assert_eq!(run.actions, Vec::<String>::new());
    assert_eq!(run.json, "{\"v\":\"1\"}");
}

#[test]
fn empty_values_are_an_error() {
    let r = with_values(Some("a"), vec![]);
    let run = handle(&element("div", vec![], true), 1, &r);
    assert_eq!(run.errors, vec!["Invalid def : 'data.values' is not an object"]);
    assert_eq!(run.json, "{\"a\":{}}");
}

#[test]
fn an_error_of_the_cursor_is_reported_with_its_marker() {
    let r = with_values(Some("."), vec![("v", ShadowJsonValueSource::Value)]);
    let run = handle(&element("input", vec![("type", "text")], false), 1, &r);
    assert_eq!(run.errors, vec!["[ShadowError] Invalid def : single dot is not a valid path"]);
    assert_eq!(run.json, "{}");
    assert_eq!(run.actions, Vec::<String>::new());
}

fn form_pass(elements: Vec<ShadowElement>) -> (String, Vec<String>) {
    let r = with_values(None, vec![("k", ShadowJsonValueSource::Value)]);
    let mut errors = Vec::new();
    let mut cache = RegexCache::new();
    let mut cursor = ShadowDataCursor::init();
    for el in elements {
        ShadowApi::element_content_handler(&el, 1, &r, &mut errors, &mut cache, &mut cursor);
    }
    (cursor.to_string(), errors)
}

#[test]
fn a_checked_radio_button_gives_its_value() {
    let (json, errors) = form_pass(vec![
        element("input", vec![("type", "radio"), ("value", "no")], false),
        element("input", vec![("type", "radio"), ("value", "yes"), ("checked", "")], false),
        element("input", vec![("type", "radio"), ("value", "later")], false),
    ]);
    assert_eq!(json, "{\"k\":\"yes\"}");
    assert_eq!(errors.len(), 0);
}

#[test]
fn radio_buttons_without_a_checked_one_seed_the_field() {
    let (json, _) = form_pass(vec![
        element("input", vec![("type", "radio"), ("value", "a")], false),
        element("input", vec![("type", "radio"), ("value", "b")], false),
    ]);
    assert_eq!(json, "{\"k\":\"\"}");
}

#[test]
fn checkboxes_fill_an_array() {
    let (json, _) = form_pass(vec![
        element("input", vec![("type", "checkbox"), ("value", "1"), ("checked", "")], false),
        element("input", vec![("type", "checkbox"), ("value", "2")], false),
        element("input", vec![("type", "checkbox"), ("value", "3"), ("checked", "")], false),
        element("input", vec![("type", "checkbox"), ("checked", "")], false),
    ]);
    assert_eq!(json, "{\"k\":[\"1\",\"3\",\"\"]}");
}

#[test]
fn an_unchecked_checkbox_seeds_an_empty_array() {
    let (json, _) =
        form_pass(vec![element("input", vec![("type", "checkbox"), ("value", "1")], false)]);
    assert_eq!(json, "{\"k\":[]}");
}

#[test]
fn other_inputs_and_options_give_their_value() {
    let (json, _) =
        form_pass(vec![element("input", vec![("type", "text"), ("value", "text_val")], false)]);
    assert_eq!(json, "{\"k\":\"text_val\"}");
    let (json, _) = form_pass(vec![element("option", vec![("value", "select_val2")], true)]);
    assert_eq!(json, "{\"k\":\"select_val2\"}");
    let (json, _) = form_pass(vec![element("option", vec![], true)]);
    assert_eq!(json, "{\"k\":\"\"}");
}

#[test]
fn an_input_without_type_gives_nothing() {
    let (json, errors) = form_pass(vec![element("input", vec![("value", "v")], false)]);
    assert_eq!(json, "{}");
    assert_eq!(errors.len(), 0);
}

#[test]
fn a_tag_without_form_value_is_an_error() {
    let (json, errors) = form_pass(vec![element("textarea", vec![("value", "v")], true)]);
    assert_eq!(json, "{}");
    assert_eq!(errors, vec!["Unimplemented input: 'textarea'"]);
}

#[test]
fn the_cache_gives_what_a_fresh_compilation_gives() {
    let mut errors = Vec::new();
    let mut kept = RegexCache::new();
    for round in 0..4 {
        let mut fresh = RegexCache::new();
        let a = ShadowApi::match_replace("(\\S+) (\\S+)", "Apple Banana", "$2 $1", &mut errors, &mut kept);
        let b = ShadowApi::match_replace("(\\S+) (\\S+)", "Apple Banana", "$2 $1", &mut errors, &mut fresh);
        assert_eq!(a, Some("Banana Apple".to_string()));
        assert_eq!(a, b);
        assert_eq!(kept.len(), 1);
        assert_eq!(fresh.len(), 1);
        let none = ShadowApi::match_replace("(\\S+) (\\S+)", "single", "$2 $1", &mut errors, &mut kept);
        assert_eq!(none, None, "round {}", round);
    }
    assert_eq!(errors.len(), 0);
}

#[test]
fn a_bad_pattern_is_reported_at_each_use_and_not_kept() {
    let mut errors = Vec::new();
    let mut cache = RegexCache::new();
    assert_eq!(ShadowApi::match_replace("a(", "a(", "b", &mut errors, &mut cache), None);
    assert_eq!(ShadowApi::match_replace("a(", "a(", "b", &mut errors, &mut cache), None);
    assert_eq!(errors.len(), 2);
    assert_eq!(errors[0], errors[1]);
    assert_eq!(cache.len(), 0);
    assert_eq!(cache.replace_all("a+", "caat", "o"), Ok("cot".to_string()));
    assert!(cache.replace_all("a(", "x", "y").is_err());
    assert_eq!(cache.len(), 1);
}

struct TextRun {
    outputs: Vec<Option<String>>,
    errors: Vec<String>,
    buffer: String,
    json: String,
}

fn feed(r: &ShadowJson, chunks: Vec<&str>) -> TextRun {
    let mut errors = Vec::new();
    let mut cache = RegexCache::new();
    let mut cursor = ShadowDataCursor::init();
    let mut buffer = String::new();
    let mut outputs = Vec::new();
    let n = chunks.len();
    for (i, chunk) in chunks.into_iter().enumerate() {
        outputs.push(ShadowApi::text_content_handler(
            chunk,
            i + 1 == n,
            1,
            r,
            &mut errors,
            &mut buffer,
            &mut cache,
            &mut cursor,
        ));
    }
    TextRun { outputs, errors, buffer, json: cursor.to_string() }
}

#[test]
fn an_upsert_is_given_out_once_at_the_end_of_the_text() {
    let r = with_content_edit(one_edit("upsert", Some("New Title"), None));
    for chunks in [
        vec!["O", "l", "d", " ", "Title"],
        vec!["Old Ti", "", "t", "l", "e"],
        vec!["", "", "", "", "Old Title"],
    ] {
        let run = feed(&r, chunks);
        assert_eq!(
            run.outputs,
            vec![None, None, None, None, Some("New Title".to_string())]
        );
        assert_eq!(run.buffer, "");
        assert_eq!(run.errors.len(), 0);
    }
}

#[test]
fn text_without_edit_is_given_out_whole() {
    let run = feed(&rule("x"), vec!["Apple", " ", "Banana"]);
    assert_eq!(run.outputs, vec![None, None, Some("Apple Banana".to_string())]);
}

#[test]
fn chunks_before_the_last_are_held_back() {
    let r = rule("x");
    let mut errors = Vec::new();
    let mut cache = RegexCache::new();
    let mut cursor = ShadowDataCursor::init();
    let mut buffer = String::new();
    let out = ShadowApi::text_content_handler("ab", false, 1, &r, &mut errors, &mut buffer, &mut cache, &mut cursor);
    assert_eq!(out, None);
    assert_eq!(buffer, "ab");
    let out = ShadowApi::text_content_handler("cd", false, 1, &r, &mut errors, &mut buffer, &mut cache, &mut cursor);
    assert_eq!(out, None);
    assert_eq!(buffer, "abcd");
}

#[test]
fn deleting_the_text_gives_the_empty_text() {
    let run = feed(&with_content_edit(one_edit("delete", None, None)), vec!["Apple", " Banana"]);
    assert_eq!(run.outputs, vec![None, Some(String::new())]);
}

#[test]
fn match_replace_sees_the_whole_text() {
    let r = with_content_edit(one_edit("match_replace", Some("$2 $1"), Some("(\\S+) (\\S+)")));
    let run = feed(&r, vec!["App", "le Ban", "ana"]);
    assert_eq!(run.outputs, vec![None, None, Some("Banana Apple".to_string())]);
    let run = feed(&r, vec!["single"]);
    assert_eq!(run.outputs, vec![Some("single".to_string())]);
}

#[test]
fn content_edit_errors_leave_the_text() {
    let run = feed(&with_content_edit(one_edit("foo", Some("v"), None)), vec!["te", "xt"]);
    assert_eq!(run.outputs, vec![None, Some("text".to_string())]);
    assert_eq!(run.errors.len(), 1);
    assert!(run.errors[0].contains("foo"));
    assert_eq!(
        run.errors[0],
        "Invalid operation (edit.content): foo. Allowed values : delete/upsert/match_replace"
    );
    let run = feed(&with_content_edit(one_edit("upsert", None, None)), vec!["text"]);
    assert_eq!(run.outputs, vec![Some("text".to_string())]);
    assert_eq!(run.errors, vec!["Upsert requires an existing val content string"]);
    let run = feed(&with_content_edit(one_edit("match_replace", None, Some("t"))), vec!["text"]);
    assert_eq!(run.outputs, vec![Some("text".to_string())]);
    assert_eq!(run.errors, vec!["Match_replace requires match and val content strings"]);
    let run = feed(&with_content_edit(one_edit("match_replace", Some("v"), Some("["))), vec!["text"]);
    assert_eq!(run.outputs, vec![Some("text".to_string())]);
    assert_eq!(run.errors.len(), 1);
    assert!(run.errors[0].starts_with("Invalid regex: [ | Error: "));
}

#[test]
fn the_edited_text_is_collected() {
    let mut r = with_values(
        None,
        vec![
            ("name", ShadowJsonValueSource::Contents),
            ("url", ShadowJsonValueSource::Attribute("href".to_string())),
            ("copy", ShadowJsonValueSource::Contents),
        ],
    );
    r.edit = Some(ShadowJsonEdit {
        attrs: None,
        content: Some(one_edit("upsert", Some("New Top Link"), None)),
    });
    let run = feed(&r, vec!["Top", "Link"]);
    assert_eq!(run.outputs, vec![None, Some("New Top Link".to_string())]);
    assert_eq!(run.json, "{\"name\":\"New Top Link\",\"copy\":\"New Top Link\"}");
}

#[test]
fn open_write_close_over_two_matches() {
    let r = with_values(Some("items."), vec![("t", ShadowJsonValueSource::Contents)]);
    let mut errors = Vec::new();
    let mut cache = RegexCache::new();
    let mut cursor = ShadowDataCursor::init();
    let mut buffer = String::new();
    for text in ["A", "B"] {
        let el = element("div", vec![("class", "x")], true);
        let actions = ShadowApi::element_content_handler(&el, 1, &r, &mut errors, &mut cache, &mut cursor);
        assert_eq!(shown(&actions), vec!["OnEndTag"]);
        let out = ShadowApi::text_content_handler(text, true, 1, &r, &mut errors, &mut buffer, &mut cache, &mut cursor);
        assert_eq!(out, Some(text.to_string()));
        shadow_api::ShadowData::on_data_tag_close(1, &r, &mut cursor).unwrap();
    }
    assert_eq!(cursor.to_string(), "{\"items\":[{\"t\":\"A\"},{\"t\":\"B\"}]}");
    assert_eq!(errors.len(), 0);
}
