//! A matched element as the handlers see it, and the edits that they ask the
//! markup engine to make.

use vstd::prelude::*;
use vstd::string::*;
use crate::shadow_api::text::same_text;

verus! {

/// What a handler reads of a matched element. The engine gives the names of
/// the tag and of the attributes in lower case.
#[derive(Debug)]
pub struct ShadowElement {
    pub tag_name: String,
    /// The attributes in the order of the markup, each with its value.
    pub attributes: Vec<(String, String)>,
    /// Whether the element can have content, and so has an end tag.
    pub can_have_content: bool,
}

/// One edit of a matched element, for the engine to carry out.
#[derive(Debug)]
pub enum ElementAction {
    /// Insert markup after the element.
    After(String),
    /// Insert markup before the element.
    Before(String),
    /// Insert markup as the last child.
    Append(String),
    /// Insert markup as the first child.
    Prepend(String),
    /// Set the attribute with the given name to the given value.
    SetAttribute(String, String),
    /// Remove the attribute with the given name.
    RemoveAttribute(String),
    /// Call the closing handler of the rule at the end tag of the element.
    OnEndTag,
    /// Remove the element with its content.
    Remove,
}

/// What the engine does with a chunk of text.
#[derive(Debug)]
pub enum TextAction {
    /// Leave the chunk as it is.
    Keep,
    /// Take the chunk out of the output.
    Remove,
    /// Put the given text in the place of the chunk.
    Replace(String),
}

/// The mathematical value of an edit.
pub enum ActionView {
    After(Seq<char>),
    Before(Seq<char>),
    Append(Seq<char>),
    Prepend(Seq<char>),
    SetAttribute(Seq<char>, Seq<char>),
    RemoveAttribute(Seq<char>),
    OnEndTag,
    Remove,
}

impl View for ElementAction {
    type V = ActionView;

    open spec fn view(&self) -> ActionView {
        match self {
            ElementAction::After(s) => ActionView::After(s@),
            ElementAction::Before(s) => ActionView::Before(s@),
            ElementAction::Append(s) => ActionView::Append(s@),
            ElementAction::Prepend(s) => ActionView::Prepend(s@),
            ElementAction::SetAttribute(k, v) => ActionView::SetAttribute(k@, v@),
            ElementAction::RemoveAttribute(k) => ActionView::RemoveAttribute(k@),
            ElementAction::OnEndTag => ActionView::OnEndTag,
            ElementAction::Remove => ActionView::Remove,
        }
    }
}

/// The edits that a sequence of actions stands for.
pub open spec fn action_views(actions: Seq<ElementAction>) -> Seq<ActionView> {
    Seq::new(actions.len(), |i: int| actions[i]@)
}

/// The attributes that a list of pairs of strings stands for.
pub open spec fn attr_views(attrs: Seq<(String, String)>) -> Seq<(Seq<char>, Seq<char>)> {
    Seq::new(attrs.len(), |i: int| (attrs[i].0@, attrs[i].1@))
}

/// The place of the first attribute named `name` at or after `from`.
pub open spec fn attr_place_from(
    attrs: Seq<(Seq<char>, Seq<char>)>,
    name: Seq<char>,
    from: int,
) -> Option<int>
    decreases attrs.len() - from,
{
    if from < 0 || from >= attrs.len() {
        None
    } else if attrs[from].0 == name {
        Some(from)
    } else {
        attr_place_from(attrs, name, from + 1)
    }
}

/// The place of the first attribute named `name`.
pub open spec fn attr_place(attrs: Seq<(Seq<char>, Seq<char>)>, name: Seq<char>) -> Option<int> {
    attr_place_from(attrs, name, 0)
}

/// The value of the first attribute named `name`.
pub open spec fn attr_value(
    attrs: Seq<(Seq<char>, Seq<char>)>,
    name: Seq<char>,
) -> Option<Seq<char>> {
    match attr_place(attrs, name) {
        Some(i) => Some(attrs[i].1),
        None => None,
    }
}

/// The value of the first attribute named `name`, or the empty text where
/// there is none.
pub open spec fn attr_or_empty(attrs: Seq<(Seq<char>, Seq<char>)>, name: Seq<char>) -> Seq<char> {
    match attr_value(attrs, name) {
        Some(v) => v,
        None => Seq::empty(),
    }
}

/// The attributes after the one named `name` is set to `value`: the first
/// attribute of that name takes the value, and where there is none, a new
/// attribute is added last.
pub open spec fn attrs_with(
    attrs: Seq<(Seq<char>, Seq<char>)>,
    name: Seq<char>,
    value: Seq<char>,
) -> Seq<(Seq<char>, Seq<char>)> {
    match attr_place(attrs, name) {
        Some(i) => attrs.update(i, (name, value)),
        None => attrs.push((name, value)),
    }
}

/// The attributes without the first one named `name`.
pub open spec fn attrs_without(
    attrs: Seq<(Seq<char>, Seq<char>)>,
    name: Seq<char>,
) -> Seq<(Seq<char>, Seq<char>)> {
    match attr_place(attrs, name) {
        Some(i) => attrs.remove(i),
        None => attrs,
    }
}

/// The place of the first attribute named `name`.
pub fn find_attr(attrs: &Vec<(String, String)>, name: &str) -> (place: Option<usize>)
    ensures
        match place {
            Some(i) => attr_place(attr_views(attrs@), name@) == Some(i as int) && i < attrs@.len(),
            None => attr_place(attr_views(attrs@), name@) is None,
        },
{
    let n: usize = attrs.len();
    let mut i: usize = 0;
    while i < n
        invariant
            n == attrs@.len(),
            0 <= i <= n,
            attr_place(attr_views(attrs@), name@) == attr_place_from(
                attr_views(attrs@),
                name@,
                i as int,
            ),
        decreases n - i,
    {
        if same_text(attrs[i].0.as_str(), name) {
            return Some(i);
        }
        i = i + 1;
    }
    None
}

/// The value of the first attribute named `name`.
pub fn get_attr<'a>(attrs: &'a Vec<(String, String)>, name: &str) -> (value: Option<&'a String>)
    ensures
        match value {
            Some(v) => attr_value(attr_views(attrs@), name@) == Some(v@),
            None => attr_value(attr_views(attrs@), name@) is None,
        },
{
    match find_attr(attrs, name) {
        Some(i) => Some(&attrs[i].1),
        None => None,
    }
}

/// Sets the attribute named `name` to `value`.
pub fn set_attr(attrs: &mut Vec<(String, String)>, name: &str, value: String)
    ensures
        attr_views(final(attrs)@) == attrs_with(attr_views(old(attrs)@), name@, value@),
{
    match find_attr(attrs, name) {
        Some(i) => {
            attrs.remove(i);
            attrs.insert(i, (String::from_str(name), value));
            assert(attr_views(attrs@) =~= attrs_with(attr_views(old(attrs)@), name@, value@));
        },
        None => {
            attrs.push((String::from_str(name), value));
            assert(attr_views(attrs@) =~= attrs_with(attr_views(old(attrs)@), name@, value@));
        },
    }
}

/// Removes the first attribute named `name`, if there is one.
pub fn remove_attr(attrs: &mut Vec<(String, String)>, name: &str)
    ensures
        attr_views(final(attrs)@) == attrs_without(attr_views(old(attrs)@), name@),
{
    match find_attr(attrs, name) {
        Some(i) => {
            attrs.remove(i);
            assert(attr_views(attrs@) =~= attrs_without(attr_views(old(attrs)@), name@));
        },
        None => {},
    }
}

/// A copy of a list of attributes.
pub fn copy_attrs(attrs: &Vec<(String, String)>) -> (copy: Vec<(String, String)>)
    ensures
        attr_views(copy@) == attr_views(attrs@),
{
    let mut copy: Vec<(String, String)> = Vec::new();
    let n: usize = attrs.len();
    let mut i: usize = 0;
    while i < n
        invariant
            n == attrs@.len(),
            0 <= i <= n,
            copy@.len() == i,
            attr_views(copy@) == attr_views(attrs@).take(i as int),
        decreases n - i,
    {
        let ghost before = attr_views(copy@);
        copy.push((attrs[i].0.clone(), attrs[i].1.clone()));
        proof {
            let want = attr_views(attrs@).take(i + 1);
            assert(attr_views(copy@).len() == want.len());
            assert forall|j: int| 0 <= j < want.len() implies attr_views(copy@)[j] == want[j] by {
                if j < i {
                    assert(before[j] == attr_views(attrs@).take(i as int)[j]);
                }
            }
            assert(attr_views(copy@) =~= want);
        }
        i = i + 1;
    }
    assert(attr_views(attrs@).take(n as int) =~= attr_views(attrs@));
    copy
}

}
