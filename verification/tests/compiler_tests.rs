// The compiler: which handlers a tree of rules asks for, and what it reports.

use shadow_api::{
    HandlerKind, RegexCache, ShadowApi, ShadowApiOptions, ShadowElement, ShadowJson,
    ShadowJsonData, ShadowJsonEdit, ShadowJsonEditOne, ShadowJsonValueSource, ShadowMap,
    TextAction,
};

fn rule(selector: &str) -> ShadowJson {
    ShadowJson { s: selector.to_string(), ..ShadowJson::default() }
}

fn values(list: Vec<(&str, ShadowJsonValueSource)>) -> ShadowMap<ShadowJsonValueSource> {
    let mut map = ShadowMap::new();
    for (key, source) in list {
        map.insert(key.to_string(), source);
    }
    map
}

fn listed(api: &ShadowApi) -> Vec<(String, usize, HandlerKind, Vec<usize>)> {
    api.ech.iter().map(|h| (h.selector.clone(), h.selector_id, h.kind, h.rule.clone())).collect()
}

fn compile(rules: &Vec<ShadowJson>, options: Option<ShadowApiOptions>) -> (ShadowApi, Vec<String>) {
    let mut api = ShadowApi::new(options);
    let mut errors = Vec::new();
    let cache = api.parse(rules, &mut errors);
    assert_eq!(cache.len(), 0);
    (api, errors)
}

#[test]
fn a_new_pass_is_empty() {
    let api = ShadowApi::new(None);
    assert_eq!(api.ech.len(), 0);
    assert_eq!(api.max_chunk_bytesize, 8096);
    assert_eq!(api.next_id, 1);
    assert!(api.options.is_none());
    assert!(api.dom_written());
    assert_eq!(api.data(), "{}");
    let api = ShadowApi::new(Some(ShadowApiOptions { as_json: true }));
    assert!(!api.dom_written());
    let api = ShadowApi::new(Some(ShadowApiOptions::default()));
    assert!(api.dom_written());
}

#[test]
fn selectors_are_joined_down_the_tree() {
    let mut inner = rule("a");
    inner.hide = Some(true);
    let mut middle = rule(".coll1");
    middle.delete = Some(true);
    middle.sub = Some(vec![inner]);
    let mut outer = rule("body");
    outer.sub = Some(vec![middle]);
    let mut second = rule("head > title");
    second.hide = Some(true);
    let (api, errors) = compile(&vec![outer, second], None);
    assert_eq!(errors.len(), 0);
    assert_eq!(
        listed(&api),
        vec![
            ("body .coll1".to_string(), 2, HandlerKind::Element, vec![0, 0]),
            ("body .coll1 a".to_string(), 3, HandlerKind::Element, vec![0, 0, 0]),
            ("head > title".to_string(), 4, HandlerKind::Element, vec![1]),
            ("body".to_string(), 0, HandlerKind::Data, vec![]),
        ]
    );
    assert_eq!(api.next_id, 5);
}

#[test]
fn element_handler_comes_before_text_handler() {
    let mut r = rule("a.top_link");
    r.data = Some(ShadowJsonData {
        path: Some("top_link".to_string()),
        values: Some(values(vec![
            ("url", ShadowJsonValueSource::Attribute("href".to_string())),
            ("name", ShadowJsonValueSource::Contents),
        ])),
    });
    let (api, errors) = compile(&vec![r], Some(ShadowApiOptions { as_json: true }));
    assert_eq!(errors.len(), 0);
    assert_eq!(
        listed(&api),
        vec![
            ("a.top_link".to_string(), 1, HandlerKind::Element, vec![0]),
            ("a.top_link".to_string(), 1, HandlerKind::Text, vec![0]),
        ]
    );
}

#[test]
fn what_each_directive_asks_for() {
    let mut content = rule("title");
    content.edit = Some(ShadowJsonEdit {
        attrs: None,
        content: Some(ShadowJsonEditOne { op: "delete".to_string(), val: None, pattern: None }),
    });
    let mut only_text = rule("p");
    only_text.data = Some(ShadowJsonData {
        path: None,
        values: Some(values(vec![("t", ShadowJsonValueSource::Contents)])),
    });
    let mut form_value = rule("input");
    form_value.data = Some(ShadowJsonData {
        path: None,
        values: Some(values(vec![("v", ShadowJsonValueSource::Value)])),
    });
    let mut insert = rule("div");
    insert.append = Some(vec!["<i></i>".to_string()]);
    let mut empty_list = rule("span");
    empty_list.append = Some(vec![]);
    let mut empty_path = rule("em");
    empty_path.data = Some(ShadowJsonData { path: Some(String::new()), values: None });
    let mut not_hidden = rule("b");
    not_hidden.hide = Some(false);
    let rules = vec![content, only_text, form_value, insert, empty_list, empty_path, not_hidden];
    let (api, errors) = compile(&rules, Some(ShadowApiOptions { as_json: true }));
    assert_eq!(errors.len(), 0);
    assert_eq!(
        listed(&api),
        vec![
            ("title".to_string(), 1, HandlerKind::Element, vec![0]),
            ("title".to_string(), 1, HandlerKind::Text, vec![0]),
            ("p".to_string(), 2, HandlerKind::Text, vec![1]),
            ("input".to_string(), 3, HandlerKind::Element, vec![2]),
            ("div".to_string(), 4, HandlerKind::Element, vec![3]),
        ]
    );
    assert_eq!(api.next_id, 8);
}

#[test]
fn an_empty_selector_is_reported_and_skipped() {
    let mut inside = rule("a");
    inside.hide = Some(true);
    let mut nameless = rule("");
    nameless.hide = Some(true);
    nameless.sub = Some(vec![inside]);
    let mut after = rule("p");
    after.hide = Some(true);
    let (api, errors) = compile(&vec![nameless, after], Some(ShadowApiOptions { as_json: true }));
    assert_eq!(errors, vec!["Empty selector"]);
    assert_eq!(listed(&api), vec![("p".to_string(), 1, HandlerKind::Element, vec![1])]);
}

#[test]
fn an_invalid_selector_is_reported_with_its_cause() {
    let mut inside = rule("a");
    inside.hide = Some(true);
    let mut broken = rule("div >");
    broken.hide = Some(true);
    broken.sub = Some(vec![inside]);
    let mut after = rule("p");
    after.hide = Some(true);
    let (api, errors) = compile(&vec![broken, after], Some(ShadowApiOptions { as_json: true }));
    assert_eq!(errors.len(), 1);
    assert_eq!(errors[0], "Selector div > is invalid : Dangling combinator in selector.");
    assert_eq!(
        listed(&api),
        vec![
            ("div > a".to_string(), 1, HandlerKind::Element, vec![0, 0]),
            ("p".to_string(), 2, HandlerKind::Element, vec![1]),
        ]
    );
}

#[test]
fn an_invalid_fragment_also_fails_what_is_inside() {
    let mut inside = rule("a");
    inside.hide = Some(true);
    let mut broken = rule("div:hover");
    broken.sub = Some(vec![inside]);
    let (api, errors) = compile(&vec![broken], Some(ShadowApiOptions { as_json: true }));
    assert_eq!(
        errors,
        vec![
            "Selector div:hover is invalid : Unsupported pseudo-class or pseudo-element in selector.",
            "Selector div:hover a is invalid : Unsupported pseudo-class or pseudo-element in selector.",
        ]
    );
    assert_eq!(api.ech.len(), 0);
}

#[test]
fn empty_values_give_an_error_and_no_handler() {
    let mut r = rule("div");
    r.hide = Some(true);
    r.edit = Some(ShadowJsonEdit {
        attrs: None,
        content: Some(ShadowJsonEditOne { op: "delete".to_string(), val: None, pattern: None }),
    });
    r.data = Some(ShadowJsonData { path: Some("a".to_string()), values: Some(values(vec![])) });
    let (api, errors) = compile(&vec![r], Some(ShadowApiOptions { as_json: true }));
    assert_eq!(errors, vec!["Invalid def : 'data.values' is not an object"]);
    assert_eq!(api.ech.len(), 0);
    assert_eq!(api.next_id, 2);
}

#[test]
fn rules_are_found_by_their_address() {
    let mut outer = rule("body");
    outer.sub = Some(vec![rule("a"), rule("b")]);
    let rules = vec![rule("head"), outer];
    assert_eq!(ShadowApi::rule_at(&rules, &vec![0]).unwrap().s, "head");
    assert_eq!(ShadowApi::rule_at(&rules, &vec![1]).unwrap().s, "body");
    assert_eq!(ShadowApi::rule_at(&rules, &vec![1, 1]).unwrap().s, "b");
    assert!(ShadowApi::rule_at(&rules, &vec![]).is_none());
    assert!(ShadowApi::rule_at(&rules, &vec![2]).is_none());
    assert!(ShadowApi::rule_at(&rules, &vec![0, 0]).is_none());
    assert!(ShadowApi::rule_at(&rules, &vec![1, 2]).is_none());
}

#[test]
fn a_second_parse_goes_on_counting() {
    let mut a = rule("a");
    a.hide = Some(true);
    let mut b = rule("b");
    b.hide = Some(true);
    let mut api = ShadowApi::new(Some(ShadowApiOptions { as_json: true }));
    let mut errors = Vec::new();
    api.parse(&vec![a], &mut errors);
    api.parse(&vec![b], &mut errors);
    assert_eq!(
        listed(&api),
        vec![
            ("a".to_string(), 1, HandlerKind::Element, vec![0]),
            ("b".to_string(), 2, HandlerKind::Element, vec![0]),
        ]
    );
}

#[test]
fn transform_strings_rewrites_the_texts_of_a_rule() {
    let mut edits = ShadowMap::new();
    edits.insert(
        "title".to_string(),
        ShadowJsonEditOne { op: "upsert".to_string(), val: Some("Append".to_string()), pattern: Some("Append".to_string()) },
    );
    let mut inner = rule("Append");
    inner.insert_before = Some(vec!["<div>Append</div>".to_string()]);
    let mut r = rule("#second > #el_anchor");
    r.append = Some(vec!["<div>Append</div>".to_string(), "Append 2".to_string()]);
    r.prepend = Some(vec!["<div>Prepend</div>".to_string()]);
    r.insert_after = Some(vec!["after Append".to_string()]);
    r.edit = Some(ShadowJsonEdit {
        attrs: Some(edits),
        content: Some(ShadowJsonEditOne { op: "Append".to_string(), val: Some("Append".to_string()), pattern: None }),
    });
    r.data = Some(ShadowJsonData { path: Some("Append".to_string()), values: None });
    r.sub = Some(vec![inner]);
    r.transform_strings(&|s: String| s.replace("Append", "AppendModified"));
    assert_eq!(r.s, "#second > #el_anchor");
    assert_eq!(
        r.append,
        Some(vec!["<div>AppendModified</div>".to_string(), "AppendModified 2".to_string()])
    );
    assert_eq!(r.prepend, Some(vec!["<div>Prepend</div>".to_string()]));
    assert_eq!(r.insert_after, Some(vec!["after AppendModified".to_string()]));
    assert_eq!(r.insert_before, None);
    let edit = r.edit.as_ref().unwrap();
    let title = edit.attrs.as_ref().unwrap().get("title").unwrap();
    assert_eq!(title.val, Some("AppendModified".to_string()));
    assert_eq!(title.pattern, Some("Append".to_string()));
    assert_eq!(title.op, "upsert");
    let content = edit.content.as_ref().unwrap();
    assert_eq!(content.op, "Append");
    assert_eq!(content.val, Some("AppendModified".to_string()));
    assert_eq!(r.data.as_ref().unwrap().path, Some("Append".to_string()));
    let inner = &r.sub.as_ref().unwrap()[0];
    assert_eq!(inner.s, "AppendModified");
    assert_eq!(inner.insert_before, Some(vec!["<div>AppendModified</div>".to_string()]));
}

#[test]
fn the_default_rule_does_nothing() {
    let r = ShadowJson::default();
    assert_eq!(r.s, "");
    assert!(r.hide.is_none() && r.delete.is_none() && r.edit.is_none() && r.data.is_none());
    assert!(r.append.is_none() && r.prepend.is_none());
    assert!(r.insert_before.is_none() && r.insert_after.is_none() && r.sub.is_none());
}

#[test]
fn a_match_is_handled_for_the_rule_of_its_handler() {
    let mut r = rule("a");
    r.data = Some(ShadowJsonData {
        path: Some("link".to_string()),
        values: Some(values(vec![
            ("url", ShadowJsonValueSource::Attribute("href".to_string())),
            ("name", ShadowJsonValueSource::Contents),
        ])),
    });
    let rules = vec![r];
    let (mut api, mut errors) = compile(&rules, None);
    let mut cache = RegexCache::new();
    let mut buffer = String::new();
    let el = ShadowElement {
        tag_name: "a".to_string(),
        attributes: vec![("href".to_string(), "u".to_string())],
        can_have_content: true,
    };
    // place 0: the elements of the rule, place 1: its text, place 2: the body
    let actions = api.dispatch_element(&rules, 0, &el, &mut errors, &mut cache);
    assert_eq!(actions.len(), 1);
    assert!(api.dispatch_element(&rules, 1, &el, &mut errors, &mut cache).is_empty());
    assert!(api.dispatch_element(&rules, 2, &el, &mut errors, &mut cache).is_empty());
    assert!(api.dispatch_element(&rules, 9, &el, &mut errors, &mut cache).is_empty());
    assert!(matches!(
        api.dispatch_text(&rules, 1, "T", false, &mut errors, &mut buffer, &mut cache),
        TextAction::Remove
    ));
    match api.dispatch_text(&rules, 1, "op", true, &mut errors, &mut buffer, &mut cache) {
        TextAction::Replace(text) => assert_eq!(text, "Top"),
        other => panic!("unexpected {:?}", other),
    }
    assert!(matches!(
        api.dispatch_text(&rules, 0, "x", true, &mut errors, &mut buffer, &mut cache),
        TextAction::Keep
    ));
    assert_eq!(buffer, "");
    assert_eq!(api.shadow_data_cursor.shadow_data, vec![0]);
    assert!(api.dispatch_end_tag(&rules, 1).is_ok());
    assert_eq!(api.shadow_data_cursor.shadow_data, vec![0]);
    assert!(api.dispatch_end_tag(&rules, 0).is_ok());
    assert_eq!(api.shadow_data_cursor.shadow_data, Vec::<usize>::new());
    assert_eq!(api.dispatch_end_tag(&rules, 0).unwrap_err().msg, "[go_up] cannot move up");
    assert_eq!(api.data(), "{\"link\":{\"url\":\"u\",\"name\":\"Top\"}}");
    assert_eq!(errors.len(), 0);
}
