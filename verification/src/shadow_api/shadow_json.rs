//! The rules: what to match, how to edit what was matched and which values to
//! collect from it.

use vstd::prelude::*;
use vstd::string::*;
use crate::shadow_api::shadow_map::ShadowMap;

verus! {

/// Where a collected value comes from.
#[derive(Debug)]
pub enum ShadowJsonValueSource {
    /// The text inside the matched element.
    Contents,
    /// The attribute of the matched element with the given name.
    Attribute(String),
    /// The value of a form element.
    Value,
}

/// Which values a rule collects, and where in the result tree they go.
#[derive(Debug)]
pub struct ShadowJsonData {
    /// The keys, separated by dots, of the nested objects that lead from the
    /// cursor to the object that takes the values. A dot at the end makes the
    /// last key an array, and each match a new element of it. A rule without
    /// a path writes where the cursor stands.
    pub path: Option<String>,
    /// The source of each value by the name of its field.
    pub values: Option<ShadowMap<ShadowJsonValueSource>>,
}

/// One edit of an attribute or of the text of an element.
#[derive(Debug)]
pub struct ShadowJsonEditOne {
    /// The operation: `delete`, `upsert` or `match_replace`.
    pub op: String,
    /// The new value of an upsert, or the replacement of a match-replace.
    pub val: Option<String>,
    /// The pattern of a match-replace.
    pub pattern: Option<String>,
}

/// The edits of a rule.
#[derive(Debug)]
pub struct ShadowJsonEdit {
    /// The edit of each attribute by its name.
    pub attrs: Option<ShadowMap<ShadowJsonEditOne>>,
    /// The edit of the text.
    pub content: Option<ShadowJsonEditOne>,
}

/// A rule, with the rules that apply inside what it matches.
#[derive(Debug)]
pub struct ShadowJson {
    /// The selector of the elements to match, relative to the enclosing rule.
    pub s: String,
    /// Whether the element is hidden.
    pub hide: Option<bool>,
    /// Whether the element is deleted.
    pub delete: Option<bool>,
    pub edit: Option<ShadowJsonEdit>,
    pub data: Option<ShadowJsonData>,
    /// Markup to add as the last child.
    pub append: Option<Vec<String>>,
    /// Markup to add as the first child.
    pub prepend: Option<Vec<String>>,
    /// Markup to add before the element.
    pub insert_before: Option<Vec<String>>,
    /// Markup to add after the element.
    pub insert_after: Option<Vec<String>>,
    /// The rules for what is inside the element.
    pub sub: Option<Vec<ShadowJson>>,
}

impl ShadowJsonData {
    /// The map of the values is well formed.
    pub open spec fn wf(&self) -> bool {
        match self.values {
            Some(values) => values.wf(),
            None => true,
        }
    }
}

impl ShadowJsonEdit {
    /// The map of the attribute edits is well formed.
    pub open spec fn wf(&self) -> bool {
        match self.attrs {
            Some(attrs) => attrs.wf(),
            None => true,
        }
    }
}

impl ShadowJson {
    /// The maps of the rule and of the rules inside it are well formed.
    pub open spec fn wf(&self) -> bool
        decreases self,
    {
        &&& match self.edit {
            Some(edit) => edit.wf(),
            None => true,
        }
        &&& match self.data {
            Some(data) => data.wf(),
            None => true,
        }
        &&& match self.sub {
            Some(sub) => forall|i: int| 0 <= i < sub.len() ==> (#[trigger] sub[i]).wf(),
            None => true,
        }
    }
}

/// Each of the rules is well formed.
pub open spec fn all_wf(rules: Vec<ShadowJson>) -> bool {
    forall|i: int| 0 <= i < rules.len() ==> (#[trigger] rules[i]).wf()
}

impl Default for ShadowJson {
    /// The rule without a selector that does nothing.
    fn default() -> (rule: ShadowJson)
        ensures
            rule.wf(),
            rule.s@ == Seq::<char>::empty(),
            rule.hide is None,
            rule.delete is None,
            rule.edit is None,
            rule.data is None,
            rule.append is None,
            rule.prepend is None,
            rule.insert_before is None,
            rule.insert_after is None,
            rule.sub is None,
    {
        ShadowJson {
            s: String::new(),
            hide: None,
            delete: None,
            edit: None,
            data: None,
            append: None,
            prepend: None,
            insert_before: None,
            insert_after: None,
            sub: None,
        }
    }
}

/// The function `f` rewrites the text `a` to the text `b`.
pub open spec fn text_rewritten<F: Fn(String) -> String>(f: F, a: String, b: String) -> bool {
    call_ensures(f, (a,), b)
}

/// The function `f` rewrites the optional text `a` to `b`.
pub open spec fn value_rewritten<F: Fn(String) -> String>(
    f: F,
    a: Option<String>,
    b: Option<String>,
) -> bool {
    match (a, b) {
        (Some(x), Some(y)) => text_rewritten(f, x, y),
        (None, None) => true,
        _ => false,
    }
}

/// The function `f` rewrites each text of the list `a` to the text at the
/// same place of `b`.
pub open spec fn texts_rewritten<F: Fn(String) -> String>(
    f: F,
    a: Seq<String>,
    b: Seq<String>,
) -> bool {
    &&& a.len() == b.len()
    &&& forall|i: int| 0 <= i < a.len() ==> text_rewritten(f, #[trigger] a[i], b[i])
}

/// The function `f` rewrites each snippet of the optional list `a` to the
/// snippet at the same place of `b`.
pub open spec fn list_rewritten<F: Fn(String) -> String>(
    f: F,
    a: Option<Vec<String>>,
    b: Option<Vec<String>>,
) -> bool {
    match (a, b) {
        (Some(x), Some(y)) => texts_rewritten(f, x@, y@),
        (None, None) => true,
        _ => false,
    }
}

/// The edit `b` is the edit `a` with its value rewritten by `f`.
pub open spec fn edit_rewritten<F: Fn(String) -> String>(
    f: F,
    a: ShadowJsonEditOne,
    b: ShadowJsonEditOne,
) -> bool {
    &&& a.op == b.op
    &&& a.pattern == b.pattern
    &&& value_rewritten(f, a.val, b.val)
}

/// The edits `b` are the edits `a` with each value rewritten by `f`.
pub open spec fn edits_rewritten<F: Fn(String) -> String>(
    f: F,
    a: Option<ShadowJsonEdit>,
    b: Option<ShadowJsonEdit>,
) -> bool {
    match (a, b) {
        (Some(x), Some(y)) => {
            &&& match (x.attrs, y.attrs) {
                (Some(m), Some(n)) => {
                    &&& m.index == n.index
                    &&& m.items@.len() == n.items@.len()
                    &&& forall|i: int|
                        0 <= i < m.items@.len() ==> edit_rewritten(f, #[trigger] m.items@[i], n.items@[i])
                },
                (None, None) => true,
                _ => false,
            }
            &&& match (x.content, y.content) {
                (Some(c), Some(d)) => edit_rewritten(f, c, d),
                (None, None) => true,
                _ => false,
            }
        },
        (None, None) => true,
        _ => false,
    }
}

/// The rule `b` is the rule `a` with its texts rewritten by `f`: the
/// selector, the values of the edits and the snippets to insert, in the rule
/// and in the rules inside it. Everything else is the same.
pub open spec fn rule_rewritten<F: Fn(String) -> String>(f: F, a: ShadowJson, b: ShadowJson) -> bool
    decreases a,
{
    &&& text_rewritten(f, a.s, b.s)
    &&& a.hide == b.hide
    &&& a.delete == b.delete
    &&& a.data == b.data
    &&& edits_rewritten(f, a.edit, b.edit)
    &&& list_rewritten(f, a.append, b.append)
    &&& list_rewritten(f, a.prepend, b.prepend)
    &&& list_rewritten(f, a.insert_before, b.insert_before)
    &&& list_rewritten(f, a.insert_after, b.insert_after)
    &&& match (a.sub, b.sub) {
        (Some(x), Some(y)) => {
            &&& x@.len() == y@.len()
            &&& forall|i: int| 0 <= i < x@.len() ==> rule_rewritten(f, #[trigger] x@[i], y@[i])
        },
        (None, None) => true,
        _ => false,
    }
}

/// Rewrites an optional text.
fn rewrite_value<F: Fn(String) -> String>(value: Option<String>, f: &F) -> (out: Option<String>)
    requires
        forall|s: String| call_requires(*f, (s,)),
    ensures
        value_rewritten(*f, value, out),
{
    match value {
        Some(v) => Some(f(v)),
        None => None,
    }
}

/// Rewrites each snippet of a list.
fn rewrite_list<F: Fn(String) -> String>(list: Option<Vec<String>>, f: &F) -> (out: Option<
    Vec<String>,
>)
    requires
        forall|s: String| call_requires(*f, (s,)),
    ensures
        list_rewritten(*f, list, out),
{
    match list {
        Some(v) => {
            let mut out: Vec<String> = Vec::new();
            let n: usize = v.len();
            let mut i: usize = 0;
            while i < n
                invariant
                    forall|s: String| call_requires(*f, (s,)),
                    n == v@.len(),
                    0 <= i <= n,
                    out@.len() == i,
                    forall|j: int| 0 <= j < i ==> text_rewritten(*f, #[trigger] v@[j], out@[j]),
                decreases n - i,
            {
                out.push(f(v[i].clone()));
                i = i + 1;
            }
            Some(out)
        },
        None => None,
    }
}

/// Rewrites the value of an edit.
fn rewrite_edit<F: Fn(String) -> String>(edit: &mut ShadowJsonEditOne, f: &F)
    requires
        forall|s: String| call_requires(*f, (s,)),
    ensures
        edit_rewritten(*f, *old(edit), *final(edit)),
{
    let mut val: Option<String> = None;
    std::mem::swap(&mut edit.val, &mut val);
    edit.val = rewrite_value(val, f);
}

/// Rewrites the values of the edits of a rule.
fn rewrite_edits<F: Fn(String) -> String>(edit: Option<ShadowJsonEdit>, f: &F) -> (out: Option<
    ShadowJsonEdit,
>)
    requires
        forall|s: String| call_requires(*f, (s,)),
    ensures
        edits_rewritten(*f, edit, out),
{
    match edit {
        Some(e) => {
            let mut e = e;
            let ghost before = e;
            match &mut e.attrs {
                Some(m) => {
                    let n: usize = m.len();
                    let mut i: usize = 0;
                    while i < n
                        invariant
                            forall|s: String| call_requires(*f, (s,)),
                            before.attrs is Some,
                            n == m.items@.len(),
                            n == before.attrs->0.items@.len(),
                            m.index == before.attrs->0.index,
                            0 <= i <= n,
                            forall|j: int|
                                0 <= j < i ==> edit_rewritten(
                                    *f,
                                    #[trigger] before.attrs->0.items@[j],
                                    m.items@[j],
                                ),
                            forall|j: int|
                                i <= j < n ==> m.items@[j] == before.attrs->0.items@[j],
                        decreases n - i,
                    {
                        rewrite_edit(m.item_mut(i), f);
                        i = i + 1;
                    }
                },
                None => {},
            }
            match &mut e.content {
                Some(c) => {
                    rewrite_edit(c, f);
                },
                None => {},
            }
            Some(e)
        },
        None => None,
    }
}

impl ShadowJson {
    /// Rewrites the texts of the rule with `f`: the selector, the values of
    /// the edits and the snippets to insert, in the rule and in the rules
    /// inside it.
    pub fn transform_strings<F: Fn(String) -> String>(&mut self, f: &F)
        requires
            forall|s: String| call_requires(*f, (s,)),
        ensures
            rule_rewritten(*f, *old(self), *final(self)),
        decreases *old(self),
    {
        self.s = f(self.s.clone());
        let mut edit: Option<ShadowJsonEdit> = None;
        std::mem::swap(&mut self.edit, &mut edit);
        self.edit = rewrite_edits(edit, f);
        let mut list: Option<Vec<String>> = None;
        std::mem::swap(&mut self.append, &mut list);
        self.append = rewrite_list(list, f);
        let mut list: Option<Vec<String>> = None;
        std::mem::swap(&mut self.prepend, &mut list);
        self.prepend = rewrite_list(list, f);
        let mut list: Option<Vec<String>> = None;
        std::mem::swap(&mut self.insert_before, &mut list);
        self.insert_before = rewrite_list(list, f);
        let mut list: Option<Vec<String>> = None;
        std::mem::swap(&mut self.insert_after, &mut list);
        self.insert_after = rewrite_list(list, f);
        let mut sub: Option<Vec<ShadowJson>> = None;
        std::mem::swap(&mut self.sub, &mut sub);
        match sub {
            Some(rules) => {
                let mut rules = rules;
                let ghost before = rules;
                let n: usize = rules.len();
                let mut i: usize = 0;
                while i < n
                    invariant
                        forall|s: String| call_requires(*f, (s,)),
                        old(self).sub == Some(before),
                        n == rules@.len(),
                        n == before@.len(),
                        0 <= i <= n,
                        forall|j: int|
                            0 <= j < i ==> rule_rewritten(*f, #[trigger] before@[j], rules@[j]),
                        forall|j: int| i <= j < n ==> rules@[j] == before@[j],
                    decreases n - i,
                {
                    proof {
                        assert(rules@[i as int] == before@[i as int]);
                        assert(decreases_to!(old(self).sub => old(self).sub->0));
                    }
                    let rule = &mut rules[i];
                    rule.transform_strings(f);
                    i = i + 1;
                }
                self.sub = Some(rules);
            },
            None => {},
        }
    }
}

}
