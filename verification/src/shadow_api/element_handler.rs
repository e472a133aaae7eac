//! What happens when an element matches a rule: the edits of the element and
//! the values taken from it.

use vstd::prelude::*;
use vstd::string::*;
use crate::shadow_api::regex_cache::RegexCache;
use crate::shadow_api::shadow_data::{
    field_place, lemma_object_keys, lemma_with_field, with_child_at, ShadowData,
};
use crate::shadow_api::shadow_data_cursor::{
    fresh_array, on_object, opened, text_node, text_of, with_array_at, with_element, with_value,
    wrote_text, CursorView, ShadowDataCursor,
};
use crate::shadow_api::shadow_element::{
    action_views, attr_or_empty, attr_value, attr_views, attrs_with, attrs_without, copy_attrs,
    get_attr, remove_attr, set_attr, ActionView, ElementAction, ShadowElement,
};
use crate::shadow_api::shadow_error::ShadowError;
use crate::shadow_api::shadow_json::{ShadowJson, ShadowJsonEditOne, ShadowJsonValueSource};
use crate::shadow_api::shadow_map::ShadowMap;
use crate::shadow_api::text::{lower, same_text, texts, to_lower};
use crate::shadow_api::{match_errors, match_replaced, report, ShadowApi};

verus! {

/// Where the handling of an element stands: the attributes of the element as
/// the edits so far leave them, the edits asked for so far, the errors, and
/// the cursor.
pub struct ElementPass {
    pub attrs: Seq<(Seq<char>, Seq<char>)>,
    pub actions: Seq<ActionView>,
    pub errors: Seq<Seq<char>>,
    pub cursor: CursorView,
}

impl ElementPass {
    /// The pass with one more edit.
    pub open spec fn act(self, action: ActionView) -> ElementPass {
        ElementPass { actions: self.actions.push(action), ..self }
    }

    /// The pass with one more error.
    pub open spec fn fail(self, message: Seq<char>) -> ElementPass {
        ElementPass { errors: self.errors.push(message), ..self }
    }

    /// The pass with the attribute `name` set to `value`, as the edit of the
    /// attribute that the rule calls `key`.
    pub open spec fn set(self, key: Seq<char>, name: Seq<char>, value: Seq<char>) -> ElementPass {
        ElementPass {
            attrs: attrs_with(self.attrs, name, value),
            actions: self.actions.push(ActionView::SetAttribute(key, value)),
            ..self
        }
    }

    /// The pass with the cursor `cursor`.
    pub open spec fn at(self, cursor: CursorView) -> ElementPass {
        ElementPass { cursor, ..self }
    }
}

/// The first text of `list` at or after `from` that is not empty.
pub open spec fn first_usable(list: Seq<String>, from: int) -> Option<Seq<char>>
    decreases list.len() - from,
{
    if from < 0 || from >= list.len() {
        None
    } else if list[from]@.len() > 0 {
        Some(list[from]@)
    } else {
        first_usable(list, from + 1)
    }
}

/// The markup that a list of snippets inserts: its first snippet that is not
/// empty.
pub open spec fn usable(list: Option<Vec<String>>) -> Option<Seq<char>> {
    match list {
        Some(v) => first_usable(v@, 0),
        None => None,
    }
}

/// The pass after the insertions of the rule: after the element, before it,
/// as its last child and as its first child, in this order, each with the
/// first usable snippet of its list.
pub open spec fn inserted(st: ElementPass, rule: ShadowJson) -> ElementPass {
    let a = match usable(rule.insert_after) {
        Some(x) => st.act(ActionView::After(x)),
        None => st,
    };
    let b = match usable(rule.insert_before) {
        Some(x) => a.act(ActionView::Before(x)),
        None => a,
    };
    let c = match usable(rule.append) {
        Some(x) => b.act(ActionView::Append(x)),
        None => b,
    };
    match usable(rule.prepend) {
        Some(x) => c.act(ActionView::Prepend(x)),
        None => c,
    }
}

/// The pass after the element is hidden: `display:none` is added to its
/// style, behind a semicolon where it has a style already.
pub open spec fn hidden(st: ElementPass) -> ElementPass {
    let style = match attr_value(st.attrs, "style"@) {
        Some(s) => s + ";display:none"@,
        None => "display:none"@,
    };
    st.set("style"@, "style"@, style)
}

/// The message for an upsert of an attribute without a value.
pub open spec fn upsert_attr_message(key: Seq<char>) -> Seq<char> {
    "Upsert requires val attribute (edit.attrs."@ + key + ")"@
}

/// The message for a match-replace of an attribute without a pattern or
/// without a replacement.
pub open spec fn match_attr_message(key: Seq<char>) -> Seq<char> {
    "Match_replace requires match and val attributes (edit.attrs."@ + key + ")"@
}

/// The message for an edit of an attribute with an unknown operation.
pub open spec fn attr_op_message(key: Seq<char>, op: Seq<char>) -> Seq<char> {
    "Invalid operation (edit.attrs."@ + key + "): "@ + op
        + ". Allowed values : delete/upsert/match_replace"@
}

/// The message for a data block whose values are empty.
pub open spec fn values_message() -> Seq<char> {
    "Invalid def : 'data.values' is not an object"@
}

/// The message for a form value asked of a tag that has none.
pub open spec fn input_message(tag: Seq<char>) -> Seq<char> {
    "Unimplemented input: '"@ + tag + "'"@
}

/// The pass after the edit `edit` of the attribute `key`. The engine knows
/// attributes by their names in lower case.
///
/// `delete` removes the attribute. `upsert` sets it to the value of the edit,
/// and is an error without one. `match_replace` replaces each match of the
/// pattern in the value of the attribute, taken as empty where the element
/// has no such attribute, and sets the attribute only where that changes the
/// value; it is an error without a pattern or a replacement. Any other
/// operation is an error.
pub open spec fn attr_edited(
    st: ElementPass,
    key: Seq<char>,
    edit: ShadowJsonEditOne,
) -> ElementPass {
    let name = lower(key);
    if edit.op@ == "delete"@ {
        ElementPass {
            attrs: attrs_without(st.attrs, name),
            actions: st.actions.push(ActionView::RemoveAttribute(key)),
            ..st
        }
    } else if edit.op@ == "upsert"@ {
        match edit.val {
            Some(v) => st.set(key, name, v@),
            None => st.fail(upsert_attr_message(key)),
        }
    } else if edit.op@ == "match_replace"@ {
        match (edit.pattern, edit.val) {
            (Some(p), Some(v)) => {
                let st1 = ElementPass { errors: match_errors(st.errors, p@), ..st };
                match match_replaced(p@, attr_or_empty(st.attrs, name), v@) {
                    Some(out) => st1.set(key, name, out),
                    None => st1,
                }
            },
            _ => st.fail(match_attr_message(key)),
        }
    } else {
        st.fail(attr_op_message(key, edit.op@))
    }
}

/// The pass after the first `upto` edits of `edits`, in their order.
pub open spec fn attrs_edited(
    st: ElementPass,
    edits: ShadowMap<ShadowJsonEditOne>,
    upto: int,
) -> ElementPass
    decreases upto,
{
    if upto <= 0 {
        st
    } else {
        attr_edited(
            attrs_edited(st, edits, upto - 1),
            edits.keys()[upto - 1],
            edits.items@[upto - 1],
        )
    }
}

/// The cursor after the form value of an `input` of the type `kind` is
/// written at the field `key`.
///
/// A radio button that is checked writes its value; one that is not checked
/// writes the empty text where the field does not exist yet. A checkbox makes
/// the field an array, and adds its value to it where it is checked. Every
/// other input writes its value.
pub open spec fn input_taken(
    c: CursorView,
    rule_id: usize,
    key: Seq<char>,
    kind: Seq<char>,
    checked: bool,
    value: Seq<char>,
) -> CursorView {
    if kind == "radio"@ {
        if checked {
            with_value(c, key, text_node(rule_id, value))
        } else if field_place(c.position().fields(), key) is None {
            with_value(c, key, text_node(rule_id, Seq::empty()))
        } else {
            c
        }
    } else if kind == "checkbox"@ {
        let holder = with_array_at(c.position(), key, rule_id, 1);
        if checked {
            let i = field_place(holder.fields(), key)->0;
            c.with_position(
                with_child_at(
                    holder,
                    i,
                    with_element(holder.fields()[i].1, text_node(rule_id, value)),
                ),
            )
        } else {
            c.with_position(holder)
        }
    } else {
        with_value(c, key, text_node(rule_id, value))
    }
}

/// The pass after the form value of the element is written at the field
/// `key`: an `input` with a type writes by its type, an `option` writes its
/// value, an `input` without a type writes nothing, and any other tag is an
/// error. The value is that of the attribute `value`, or empty.
pub open spec fn form_taken(
    st: ElementPass,
    rule_id: usize,
    tag: Seq<char>,
    key: Seq<char>,
) -> ElementPass {
    let value = attr_or_empty(st.attrs, "value"@);
    if tag == "input"@ {
        match attr_value(st.attrs, "type"@) {
            Some(kind) => st.at(
                input_taken(
                    on_object(st.cursor),
                    rule_id,
                    key,
                    kind,
                    attr_value(st.attrs, "checked"@) is Some,
                    value,
                ),
            ),
            None => st,
        }
    } else if tag == "option"@ {
        st.at(with_value(on_object(st.cursor), key, text_node(rule_id, value)))
    } else {
        st.fail(input_message(tag))
    }
}

/// The pass after the value `source` is taken for the field `key`. An
/// attribute that the element has is written as a text; one without a name
/// or that the element lacks is passed over. The text of the element is left
/// to the text handler.
pub open spec fn value_taken(
    st: ElementPass,
    rule_id: usize,
    tag: Seq<char>,
    key: Seq<char>,
    source: ShadowJsonValueSource,
) -> ElementPass {
    match source {
        ShadowJsonValueSource::Attribute(name) => if name@.len() == 0 {
            st
        } else {
            match attr_value(st.attrs, name@) {
                Some(v) => st.at(wrote_text(st.cursor, rule_id, key, v)),
                None => st,
            }
        },
        ShadowJsonValueSource::Contents => st,
        ShadowJsonValueSource::Value => form_taken(st, rule_id, tag, key),
    }
}

/// The pass after the first `upto` values of `values` are taken, in their
/// order.
pub open spec fn values_taken(
    st: ElementPass,
    rule_id: usize,
    tag: Seq<char>,
    values: ShadowMap<ShadowJsonValueSource>,
    upto: int,
) -> ElementPass
    decreases upto,
{
    if upto <= 0 {
        st
    } else {
        value_taken(
            values_taken(st, rule_id, tag, values, upto - 1),
            rule_id,
            tag,
            values.keys()[upto - 1],
            values.items@[upto - 1],
        )
    }
}

/// The pass after the data block of the rule is applied: the cursor moves as
/// for an element that opens; an error of the cursor is reported and ends
/// the step. Otherwise an element that can have content asks for its end
/// tag, and the values are taken; values that are empty are an error.
pub open spec fn data_taken(
    st: ElementPass,
    rule_id: usize,
    tag: Seq<char>,
    can_have_content: bool,
    rule: ShadowJson,
) -> ElementPass {
    match rule.data {
        None => st,
        Some(data) => {
            let o = opened(st.cursor, rule_id, text_of(data.path));
            match o.1 {
                Some(m) => st.at(o.0).fail(ShadowError::display(m)),
                None => {
                    let st1 = if can_have_content {
                        st.at(o.0).act(ActionView::OnEndTag)
                    } else {
                        st.at(o.0)
                    };
                    match data.values {
                        Some(values) => if values.items@.len() > 0 {
                            values_taken(st1, rule_id, tag, values, values.items@.len() as int)
                        } else {
                            st1.fail(values_message())
                        },
                        None => st1,
                    }
                },
            }
        },
    }
}

/// The pass after the edits of the rule that change the element itself: it
/// is hidden where the rule says so, and its attributes are edited.
pub open spec fn changed(st: ElementPass, rule: ShadowJson) -> ElementPass {
    let h = if rule.hide == Some(true) {
        hidden(st)
    } else {
        st
    };
    match rule.edit {
        Some(edit) => match edit.attrs {
            Some(edits) => attrs_edited(h, edits, edits.items@.len() as int),
            None => h,
        },
        None => h,
    }
}

/// What the match of an element by the rule `rule` with the number `rule_id`
/// does: the insertions; for an element that is not deleted, the hiding and
/// the edits of the attributes; the data block; and last, for an element
/// that is deleted, its removal.
pub open spec fn element_handled(
    el: ShadowElement,
    rule_id: usize,
    rule: ShadowJson,
    errors: Seq<Seq<char>>,
    cursor: CursorView,
) -> ElementPass {
    let st0 = ElementPass {
        attrs: attr_views(el.attributes@),
        actions: Seq::empty(),
        errors,
        cursor,
    };
    let st1 = inserted(st0, rule);
    let st2 = if rule.delete == Some(true) {
        st1
    } else {
        changed(st1, rule)
    };
    let st3 = data_taken(st2, rule_id, el.tag_name@, el.can_have_content, rule);
    if rule.delete == Some(true) {
        st3.act(ActionView::Remove)
    } else {
        st3
    }
}

/// A beginning of a beginning is a beginning.
pub proof fn lemma_prefix_chain(a: Seq<Seq<char>>, b: Seq<Seq<char>>, c: Seq<Seq<char>>)
    requires
        a.is_prefix_of(b),
        b.is_prefix_of(c),
    ensures
        a.is_prefix_of(c),
{
    assert forall|i: int| 0 <= i < a.len() implies a[i] == c[i] by {
        assert(a[i] == b[i]);
        assert(b[i] == c[i]);
    }
}

/// The edits of the attributes only add to the errors.
pub proof fn lemma_attrs_edited_errors(
    st: ElementPass,
    edits: ShadowMap<ShadowJsonEditOne>,
    upto: int,
)
    ensures
        st.errors.is_prefix_of(attrs_edited(st, edits, upto).errors),
    decreases upto,
{
    if upto > 0 {
        lemma_attrs_edited_errors(st, edits, upto - 1);
        let before = attrs_edited(st, edits, upto - 1);
        let after = attr_edited(before, edits.keys()[upto - 1], edits.items@[upto - 1]);
        assert(before.errors.is_prefix_of(after.errors));
        lemma_prefix_chain(st.errors, before.errors, after.errors);
    }
}

/// Taking the values only adds to the errors.
pub proof fn lemma_values_taken_errors(
    st: ElementPass,
    rule_id: usize,
    tag: Seq<char>,
    values: ShadowMap<ShadowJsonValueSource>,
    upto: int,
)
    ensures
        st.errors.is_prefix_of(values_taken(st, rule_id, tag, values, upto).errors),
    decreases upto,
{
    if upto > 0 {
        lemma_values_taken_errors(st, rule_id, tag, values, upto - 1);
        let before = values_taken(st, rule_id, tag, values, upto - 1);
        let after = value_taken(
            before,
            rule_id,
            tag,
            values.keys()[upto - 1],
            values.items@[upto - 1],
        );
        assert(before.errors.is_prefix_of(after.errors));
        lemma_prefix_chain(st.errors, before.errors, after.errors);
    }
}

/// The errors are only added to: what was reported before an element is
/// handled is still there afterwards, in its place.
pub proof fn lemma_element_errors_grow(
    el: ShadowElement,
    rule_id: usize,
    rule: ShadowJson,
    errors: Seq<Seq<char>>,
    cursor: CursorView,
)
    ensures
        errors.is_prefix_of(element_handled(el, rule_id, rule, errors, cursor).errors),
{
    let st0 = ElementPass {
        attrs: attr_views(el.attributes@),
        actions: Seq::empty(),
        errors,
        cursor,
    };
    let st1 = inserted(st0, rule);
    assert(st1.errors == errors);
    let st2 = if rule.delete == Some(true) {
        st1
    } else {
        changed(st1, rule)
    };
    assert(errors.is_prefix_of(st2.errors)) by {
        if rule.delete != Some(true) {
            let h = if rule.hide == Some(true) {
                hidden(st1)
            } else {
                st1
            };
            assert(h.errors == errors);
            match rule.edit {
                Some(edit) => match edit.attrs {
                    Some(edits) => {
                        lemma_attrs_edited_errors(h, edits, edits.items@.len() as int);
                    },
                    None => {},
                },
                None => {},
            }
        }
    }
    let st3 = data_taken(st2, rule_id, el.tag_name@, el.can_have_content, rule);
    assert(st2.errors.is_prefix_of(st3.errors)) by {
        match rule.data {
            Some(data) => {
                let o = opened(st2.cursor, rule_id, text_of(data.path));
                if o.1 is None {
                    let st = if el.can_have_content {
                        st2.at(o.0).act(ActionView::OnEndTag)
                    } else {
                        st2.at(o.0)
                    };
                    match data.values {
                        Some(values) => {
                            lemma_values_taken_errors(
                                st,
                                rule_id,
                                el.tag_name@,
                                values,
                                values.items@.len() as int,
                            );
                        },
                        None => {},
                    }
                }
            },
            None => {},
        }
    }
    lemma_prefix_chain(errors, st2.errors, st3.errors);
}

/// The pass that the values of a handler at work stand for.
pub open spec fn pass_of(
    attrs: Vec<(String, String)>,
    actions: Vec<ElementAction>,
    errors: Vec<String>,
    cursor: ShadowDataCursor,
) -> ElementPass {
    ElementPass {
        attrs: attr_views(attrs@),
        actions: action_views(actions@),
        errors: texts(errors@),
        cursor: cursor@,
    }
}

/// Adds an edit to the list.
fn emit(actions: &mut Vec<ElementAction>, action: ElementAction)
    ensures
        action_views(final(actions)@) == action_views(old(actions)@).push(action@),
{
    actions.push(action);
    assert(action_views(actions@) =~= action_views(old(actions)@).push(action@));
}

/// A copy of the first snippet of `list` that is not empty.
fn pick_usable(list: &Option<Vec<String>>) -> (snippet: Option<String>)
    ensures
        text_of(snippet) == usable(*list),
{
    match list {
        Some(v) => {
            let n: usize = v.len();
            let mut i: usize = 0;
            while i < n
                invariant
                    *list == Some(*v),
                    n == v@.len(),
                    0 <= i <= n,
                    first_usable(v@, 0) == first_usable(v@, i as int),
                decreases n - i,
            {
                if v[i].as_str().unicode_len() > 0 {
                    assert(first_usable(v@, i as int) == Some(v@[i as int]@));
                    return Some(v[i].clone());
                }
                i = i + 1;
            }
            None
        },
        None => None,
    }
}

/// Sets the attribute that the rule calls `key` to `value`, in the copy of
/// the attributes and as an edit.
fn set_and_emit(
    attrs: &mut Vec<(String, String)>,
    actions: &mut Vec<ElementAction>,
    key: &str,
    name: &str,
    value: String,
)
    ensures
        attr_views(final(attrs)@) == attrs_with(attr_views(old(attrs)@), name@, value@),
        action_views(final(actions)@) == action_views(old(actions)@).push(
            ActionView::SetAttribute(key@, value@),
        ),
{
    set_attr(attrs, name, value.clone());
    emit(actions, ElementAction::SetAttribute(String::from_str(key), value));
}

impl ShadowApi {
    /// Asks for the insertions of the rule.
    fn insert_snippets(json_def: &ShadowJson, actions: &mut Vec<ElementAction>)
        ensures
            forall|attrs: Vec<(String, String)>, errors: Vec<String>, cursor: ShadowDataCursor|
                #[trigger] pass_of(attrs, *final(actions), errors, cursor) == inserted(
                    pass_of(attrs, *old(actions), errors, cursor),
                    *json_def,
                ),
    {
        match pick_usable(&json_def.insert_after) {
            Some(x) => emit(actions, ElementAction::After(x)),
            None => {},
        }
        match pick_usable(&json_def.insert_before) {
            Some(x) => emit(actions, ElementAction::Before(x)),
            None => {},
        }
        match pick_usable(&json_def.append) {
            Some(x) => emit(actions, ElementAction::Append(x)),
            None => {},
        }
        match pick_usable(&json_def.prepend) {
            Some(x) => emit(actions, ElementAction::Prepend(x)),
            None => {},
        }
    }

    /// Hides the element.
    fn hide_element(attrs: &mut Vec<(String, String)>, actions: &mut Vec<ElementAction>)
        ensures
            forall|errors: Vec<String>, cursor: ShadowDataCursor|
                #[trigger] pass_of(*final(attrs), *final(actions), errors, cursor) == hidden(
                    pass_of(*old(attrs), *old(actions), errors, cursor),
                ),
    {
        let style = match get_attr(attrs, "style") {
            Some(s) => s.clone().concat(";display:none"),
            None => String::from_str("display:none"),
        };
        set_and_emit(attrs, actions, "style", "style", style);
    }

    /// Applies one edit to the attribute `key`.
    fn edit_attr(
        key: &str,
        edit: &ShadowJsonEditOne,
        attrs: &mut Vec<(String, String)>,
        actions: &mut Vec<ElementAction>,
        errors: &mut Vec<String>,
        cache: &mut RegexCache,
    )
        requires
            old(cache).wf(),
        ensures
            final(cache).wf(),
            forall|cursor: ShadowDataCursor|
                #[trigger] pass_of(*final(attrs), *final(actions), *final(errors), cursor)
                    == attr_edited(
                    pass_of(*old(attrs), *old(actions), *old(errors), cursor),
                    key@,
                    *edit,
                ),
    {
        let name = to_lower(key);
        let op = edit.op.as_str();
        if same_text(op, "delete") {
            remove_attr(attrs, name.as_str());
            emit(actions, ElementAction::RemoveAttribute(String::from_str(key)));
        } else if same_text(op, "upsert") {
            match &edit.val {
                Some(v) => {
                    set_and_emit(attrs, actions, key, name.as_str(), v.clone());
                },
                None => {
                    report(
                        errors,
                        String::from_str("Upsert requires val attribute (edit.attrs.").concat(
                            key,
                        ).concat(")"),
                    );
                },
            }
        } else if same_text(op, "match_replace") {
            match (&edit.pattern, &edit.val) {
                (Some(p), Some(v)) => {
                    let empty = String::new();
                    let old_value = match get_attr(attrs, name.as_str()) {
                        Some(x) => x.clone(),
                        None => empty,
                    };
                    match ShadowApi::match_replace(
                        p.as_str(),
                        old_value.as_str(),
                        v.as_str(),
                        errors,
                        cache,
                    ) {
                        Some(out) => {
                            set_and_emit(attrs, actions, key, name.as_str(), out);
                        },
                        None => {},
                    }
                },
                _ => {
                    report(
                        errors,
                        String::from_str(
                            "Match_replace requires match and val attributes (edit.attrs.",
                        ).concat(key).concat(")"),
                    );
                },
            }
        } else {
            report(
                errors,
                String::from_str("Invalid operation (edit.attrs.").concat(key).concat("): ").concat(
                    op,
                ).concat(". Allowed values : delete/upsert/match_replace"),
            );
        }
    }

    /// Applies the edits of the attributes, in their order.
    fn edit_attrs(
        edits: &ShadowMap<ShadowJsonEditOne>,
        attrs: &mut Vec<(String, String)>,
        actions: &mut Vec<ElementAction>,
        errors: &mut Vec<String>,
        cache: &mut RegexCache,
    )
        requires
            edits.wf(),
            old(cache).wf(),
        ensures
            final(cache).wf(),
            forall|cursor: ShadowDataCursor|
                #[trigger] pass_of(*final(attrs), *final(actions), *final(errors), cursor)
                    == attrs_edited(
                    pass_of(*old(attrs), *old(actions), *old(errors), cursor),
                    *edits,
                    edits.items@.len() as int,
                ),
    {
        let n: usize = edits.len();
        let mut i: usize = 0;
        while i < n
            invariant
                edits.wf(),
                cache.wf(),
                n == edits.items@.len(),
                0 <= i <= n,
                forall|cursor: ShadowDataCursor|
                    #[trigger] pass_of(*attrs, *actions, *errors, cursor) == attrs_edited(
                        pass_of(*old(attrs), *old(actions), *old(errors), cursor),
                        *edits,
                        i as int,
                    ),
            decreases n - i,
        {
            ShadowApi::edit_attr(edits.key(i).as_str(), edits.item(i), attrs, actions, errors, cache);
            i = i + 1;
        }
    }

    /// Writes the form value of an `input` of the type `kind`.
    fn take_input(
        cursor: &mut ShadowDataCursor,
        rule_id: usize,
        key: &str,
        kind: &str,
        checked: bool,
        value: String,
    )
        requires
            old(cursor).wf(),
            old(cursor)@.position().is_object(),
        ensures
            final(cursor).wf(),
            final(cursor)@ == input_taken(old(cursor)@, rule_id, key@, kind@, checked, value@),
    {
        if same_text(kind, "radio") {
            if checked {
                cursor.set_value(key, ShadowData::new_string(Some(rule_id), Some(1), value));
            } else if cursor.position().place(key).is_none() {
                cursor.set_value(key, ShadowData::new_string(Some(rule_id), Some(1), String::new()));
            }
        } else if same_text(kind, "checkbox") {
            let ghost c = cursor@;
            let node = cursor.position_mut();
            let found: bool = match node.get(key) {
                Some(x) => x.is_array(),
                None => false,
            };
            proof {
                lemma_object_keys(*node);
            }
            if !found {
                proof {
                    lemma_with_field(node@.fields(), key@, fresh_array(rule_id, 1));
                }
                node.set(key, ShadowData::new_array(Some(rule_id), Some(1)));
            }
            assert(node@ == with_array_at(c.position(), key@, rule_id, 1));
            if checked {
                let i: usize = match node.place(key) {
                    Some(i) => i,
                    None => 0,
                };
                let arr = node.child_mut(i);
                assert(arr@.is_array());
                arr.push(ShadowData::new_string(Some(rule_id), Some(1), value));
            }
        } else {
            cursor.set_value(key, ShadowData::new_string(Some(rule_id), Some(1), value));
        }
    }

    /// Writes the form value of the element at the field `key`.
    fn take_form(
        tag: &str,
        attrs: &Vec<(String, String)>,
        rule_id: usize,
        key: &str,
        errors: &mut Vec<String>,
        cursor: &mut ShadowDataCursor,
    )
        requires
            old(cursor).wf(),
        ensures
            final(cursor).wf(),
            forall|actions: Vec<ElementAction>|
                #[trigger] pass_of(*attrs, actions, *final(errors), *final(cursor)) == form_taken(
                    pass_of(*attrs, actions, *old(errors), *old(cursor)),
                    rule_id,
                    tag@,
                    key@,
                ),
    {
        let value = match get_attr(attrs, "value") {
            Some(v) => v.clone(),
            None => String::new(),
        };
        if same_text(tag, "input") {
            match get_attr(attrs, "type") {
                Some(kind) => {
                    let checked: bool = get_attr(attrs, "checked").is_some();
                    cursor.stand_on_object();
                    ShadowApi::take_input(cursor, rule_id, key, kind.as_str(), checked, value);
                },
                None => {},
            }
        } else if same_text(tag, "option") {
            cursor.stand_on_object();
            cursor.set_value(key, ShadowData::new_string(Some(rule_id), Some(1), value));
        } else {
            report(errors, String::from_str("Unimplemented input: '").concat(tag).concat("'"));
        }
    }

    /// Takes one value of the data block.
    fn take_value(
        tag: &str,
        attrs: &Vec<(String, String)>,
        rule_id: usize,
        key: &str,
        source: &ShadowJsonValueSource,
        errors: &mut Vec<String>,
        cursor: &mut ShadowDataCursor,
    )
        requires
            old(cursor).wf(),
        ensures
            final(cursor).wf(),
            forall|actions: Vec<ElementAction>|
                #[trigger] pass_of(*attrs, actions, *final(errors), *final(cursor)) == value_taken(
                    pass_of(*attrs, actions, *old(errors), *old(cursor)),
                    rule_id,
                    tag@,
                    key@,
                    *source,
                ),
    {
        match source {
            ShadowJsonValueSource::Attribute(name) => {
                if name.as_str().unicode_len() > 0 {
                    match get_attr(attrs, name.as_str()) {
                        Some(v) => {
                            cursor.write_text(rule_id, key, v.clone());
                        },
                        None => {},
                    }
                }
            },
            ShadowJsonValueSource::Contents => {},
            ShadowJsonValueSource::Value => {
                ShadowApi::take_form(tag, attrs, rule_id, key, errors, cursor);
            },
        }
    }

    /// Takes the values of the data block, in their order.
    fn take_values(
        tag: &str,
        attrs: &Vec<(String, String)>,
        rule_id: usize,
        values: &ShadowMap<ShadowJsonValueSource>,
        errors: &mut Vec<String>,
        cursor: &mut ShadowDataCursor,
    )
        requires
            values.wf(),
            old(cursor).wf(),
        ensures
            final(cursor).wf(),
            forall|actions: Vec<ElementAction>|
                #[trigger] pass_of(*attrs, actions, *final(errors), *final(cursor)) == values_taken(
                    pass_of(*attrs, actions, *old(errors), *old(cursor)),
                    rule_id,
                    tag@,
                    *values,
                    values.items@.len() as int,
                ),
    {
        let n: usize = values.len();
        let mut i: usize = 0;
        while i < n
            invariant
                values.wf(),
                cursor.wf(),
                n == values.items@.len(),
                0 <= i <= n,
                forall|actions: Vec<ElementAction>|
                    #[trigger] pass_of(*attrs, actions, *errors, *cursor) == values_taken(
                        pass_of(*attrs, actions, *old(errors), *old(cursor)),
                        rule_id,
                        tag@,
                        *values,
                        i as int,
                    ),
            decreases n - i,
        {
            ShadowApi::take_value(
                tag,
                attrs,
                rule_id,
                values.key(i).as_str(),
                values.item(i),
                errors,
                cursor,
            );
            i = i + 1;
        }
    }

    /// Applies the data block of the rule.
    fn take_data(
        el: &ShadowElement,
        attrs: &Vec<(String, String)>,
        selector_id: usize,
        json_def: &ShadowJson,
        actions: &mut Vec<ElementAction>,
        errors: &mut Vec<String>,
        cursor: &mut ShadowDataCursor,
    )
        requires
            json_def.wf(),
            old(cursor).wf(),
        ensures
            final(cursor).wf(),
            pass_of(*attrs, *final(actions), *final(errors), *final(cursor)) == data_taken(
                pass_of(*attrs, *old(actions), *old(errors), *old(cursor)),
                selector_id,
                el.tag_name@,
                el.can_have_content,
                *json_def,
            ),
    {
        match ShadowData::on_data_tag_open(selector_id, json_def, cursor) {
            Ok(has_data) => {
                if has_data {
                    if el.can_have_content {
                        emit(actions, ElementAction::OnEndTag);
                    }
                    match &json_def.data {
                        Some(data) => {
                            match &data.values {
                                Some(values) => {
                                    if values.len() > 0 {
                                        ShadowApi::take_values(
                                            el.tag_name.as_str(),
                                            attrs,
                                            selector_id,
                                            values,
                                            errors,
                                            cursor,
                                        );
                                    } else {
                                        report(
                                            errors,
                                            String::from_str(
                                                "Invalid def : 'data.values' is not an object",
                                            ),
                                        );
                                    }
                                },
                                None => {},
                            }
                        },
                        None => {},
                    }
                }
            },
            Err(err) => {
                report(errors, err.to_string());
            },
        }
    }

    /// Handles the match of an element by the rule `json_def`, which has the
    /// number `selector_id`. Returns the edits of the element for the engine
    /// to carry out, in their order. The values that the rule collects are
    /// written through the cursor, and what goes wrong is added to the
    /// errors.
    pub fn element_content_handler(
        el: &ShadowElement,
        selector_id: usize,
        json_def: &ShadowJson,
        errors: &mut Vec<String>,
        cache: &mut RegexCache,
        cursor: &mut ShadowDataCursor,
    ) -> (actions: Vec<ElementAction>)
        requires
            json_def.wf(),
            old(cache).wf(),
            old(cursor).wf(),
        ensures
            final(cache).wf(),
            final(cursor).wf(),
            ({
                let done = element_handled(
                    *el,
                    selector_id,
                    *json_def,
                    texts(old(errors)@),
                    old(cursor)@,
                );
                &&& action_views(actions@) == done.actions
                &&& texts(final(errors)@) == done.errors
                &&& final(cursor)@ == done.cursor
            }),
    {
        let mut attrs = copy_attrs(&el.attributes);
        let mut actions: Vec<ElementAction> = Vec::new();
        assert(action_views(actions@) =~= Seq::<ActionView>::empty());
        let delete: bool = match json_def.delete {
            Some(d) => d,
            None => false,
        };
        ShadowApi::insert_snippets(json_def, &mut actions);
        if !delete {
            let hide: bool = match json_def.hide {
                Some(h) => h,
                None => false,
            };
            if hide {
                ShadowApi::hide_element(&mut attrs, &mut actions);
            }
            match &json_def.edit {
                Some(edit) => {
                    match &edit.attrs {
                        Some(edits) => {
                            ShadowApi::edit_attrs(edits, &mut attrs, &mut actions, errors, cache);
                        },
                        None => {},
                    }
                },
                None => {},
            }
        }
        ShadowApi::take_data(el, &attrs, selector_id, json_def, &mut actions, errors, cursor);
        if delete {
            emit(&mut actions, ElementAction::Remove);
        }
        actions
    }
}

}
