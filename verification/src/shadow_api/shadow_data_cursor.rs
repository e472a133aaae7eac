//! The cursor: the place in the result tree where the element that is open
//! writes its values.

use vstd::prelude::*;
use vstd::string::*;
use crate::shadow_api::shadow_data::{
    child_at, field_place, field_value, json_of, lemma_child_wf, lemma_object_keys, lemma_view_wf,
    lemma_with_child_wf, lemma_with_field, lemma_with_field_wf, with_child_at, with_field,
    DataView, ShadowData, ValueView,
};
use crate::shadow_api::shadow_json::ShadowJson;
use crate::shadow_api::text::{split_at_dots, split_dots, texts};
use crate::shadow_api::shadow_error::ShadowError;

verus! {

/// The node that `path` leads to from `d`, taking at each node the child at
/// the place that the path names, if the path leads to a node.
pub open spec fn node_at(d: DataView, path: Seq<int>) -> Option<DataView>
    decreases path.len(),
{
    if path.len() == 0 {
        Some(d)
    } else {
        match child_at(d, path[0]) {
            Some(c) => node_at(c, path.drop_first()),
            None => None,
        }
    }
}

/// The tree `d` with the node that `path` leads to replaced by `x`.
pub open spec fn with_node_at(d: DataView, path: Seq<int>, x: DataView) -> DataView
    decreases path.len(),
{
    if path.len() == 0 {
        x
    } else {
        match child_at(d, path[0]) {
            Some(c) => with_child_at(d, path[0], with_node_at(c, path.drop_first(), x)),
            None => d,
        }
    }
}

/// The places of a path as mathematical integers.
pub open spec fn ints(s: Seq<usize>) -> Seq<int> {
    Seq::new(s.len(), |i: int| s[i] as int)
}

/// A path of one place leads to the child at that place.
pub proof fn lemma_node_at_child(d: DataView, i: int)
    ensures
        node_at(d, seq![i]) == child_at(d, i),
{
    assert(seq![i].drop_first() =~= Seq::<int>::empty());
    match child_at(d, i) {
        Some(c) => {
            assert(node_at(c, Seq::<int>::empty()) == Some(c));
        },
        None => {},
    }
}

/// Replacing the node at a path of one place replaces the child at that
/// place.
pub proof fn lemma_with_node_child(d: DataView, i: int, x: DataView)
    requires
        child_at(d, i) is Some,
    ensures
        with_node_at(d, seq![i], x) == with_child_at(d, i, x),
{
    assert(seq![i].drop_first() =~= Seq::<int>::empty());
    let c = child_at(d, i)->0;
    assert(with_node_at(c, Seq::<int>::empty(), x) == x);
}

/// The node that the part of `path` from place `from` on leads to.
fn node_ref<'a>(n: &'a ShadowData, path: &Vec<usize>, from: usize) -> (r: &'a ShadowData)
    requires
        from <= path@.len(),
        n.wf(),
        node_at(n@, ints(path@).skip(from as int)) is Some,
    ensures
        r.wf(),
        Some(r@) == node_at(n@, ints(path@).skip(from as int)),
    decreases path@.len() - from,
{
    if from == path.len() {
        n
    } else {
        let i: usize = path[from];
        proof {
            assert(ints(path@).skip(from as int)[0] == i);
            assert(ints(path@).skip(from as int).drop_first() =~= ints(path@).skip(from + 1));
        }
        node_ref(n.child(i), path, from + 1)
    }
}

/// The node that the part of `path` from place `from` on leads to, to be
/// changed in place.
fn node_mut<'a>(n: &'a mut ShadowData, path: &Vec<usize>, from: usize) -> (r: &'a mut ShadowData)
    requires
        from <= path@.len(),
        old(n).wf(),
        node_at(old(n)@, ints(path@).skip(from as int)) is Some,
    ensures
        r.wf(),
        Some(r@) == node_at(old(n)@, ints(path@).skip(from as int)),
        final(n)@ == with_node_at(old(n)@, ints(path@).skip(from as int), final(r)@),
        final(r).wf() ==> final(n).wf(),
    decreases path@.len() - from,
{
    if from == path.len() {
        return n;
    }
    let i: usize = path[from];
    proof {
        assert(ints(path@).skip(from as int)[0] == i);
        assert(ints(path@).skip(from as int).drop_first() =~= ints(path@).skip(from + 1));
    }
    node_mut(n.child_mut(i), path, from + 1)
}

/// A path followed by another leads to the node that the second leads to from
/// the node that the first leads to.
pub proof fn lemma_node_at_concat(d: DataView, p: Seq<int>, q: Seq<int>)
    ensures
        node_at(d, p + q) == match node_at(d, p) {
            Some(n) => node_at(n, q),
            None => None,
        },
    decreases p.len(),
{
    if p.len() == 0 {
        assert(p + q =~= q);
    } else {
        assert((p + q)[0] == p[0]);
        assert((p + q).drop_first() =~= p.drop_first() + q);
        match child_at(d, p[0]) {
            Some(c) => {
                lemma_node_at_concat(c, p.drop_first(), q);
            },
            None => {},
        }
    }
}

/// Where a path leads to a node, each shorter start of it leads to a node
/// that holds children.
pub proof fn lemma_node_at_prefix(d: DataView, p: Seq<int>, k: int)
    requires
        node_at(d, p) is Some,
        0 <= k <= p.len(),
    ensures
        node_at(d, p.take(k)) is Some,
        k < p.len() ==> !node_at(d, p.take(k))->0.is_string(),
        node_at(node_at(d, p.take(k))->0, p.skip(k)) == node_at(d, p),
{
    assert(p.take(k) + p.skip(k) =~= p);
    lemma_node_at_concat(d, p.take(k), p.skip(k));
    if k < p.len() {
        let n = node_at(d, p.take(k))->0;
        assert(node_at(n, p.skip(k)) is Some);
        assert(child_at(n, p.skip(k)[0]) is Some);
    }
}

/// After the node that a path leads to is replaced, the path leads to the
/// new node.
pub proof fn lemma_node_at_replaced(d: DataView, p: Seq<int>, x: DataView)
    requires
        node_at(d, p) is Some,
    ensures
        node_at(with_node_at(d, p, x), p) == Some(x),
    decreases p.len(),
{
    if p.len() > 0 {
        let c = child_at(d, p[0])->0;
        lemma_node_at_replaced(c, p.drop_first(), x);
    }
}

/// An empty object made by the rule `rule_id`, with its parent `levels`
/// levels above it.
pub open spec fn fresh_object(rule_id: usize, levels: usize) -> DataView {
    DataView { id: Some(rule_id), parent: Some(levels), v: ValueView::Object(Seq::empty()) }
}

/// An empty array made by the rule `rule_id`, with its parent `levels` levels
/// above it.
pub open spec fn fresh_array(rule_id: usize, levels: usize) -> DataView {
    DataView { id: Some(rule_id), parent: Some(levels), v: ValueView::Array(Seq::empty()) }
}

/// One level more than `level`, as far as the machine counts.
pub open spec fn deeper(level: usize) -> usize {
    if level < usize::MAX {
        (level + 1) as usize
    } else {
        level
    }
}

/// The object `n` with the fields `fields`.
pub open spec fn with_fields(n: DataView, fields: Seq<(Seq<char>, DataView)>) -> DataView {
    DataView { id: n.id, parent: n.parent, v: ValueView::Object(fields) }
}

/// The array `arr` with `x` added as its last element.
pub open spec fn with_element(arr: DataView, x: DataView) -> DataView {
    DataView { id: arr.id, parent: arr.parent, v: ValueView::Array(arr.elements().push(x)) }
}

/// The object `n` after an object is fetched or created at `key`: an object
/// that stands there stays, anything else gives way to a fresh object.
pub open spec fn with_object_at(
    n: DataView,
    key: Seq<char>,
    rule_id: usize,
    levels: usize,
) -> DataView {
    with_fields(n, with_field(n.fields(), key, fresh_object(rule_id, levels)))
}

/// Whether the object `n` has an array at `key`.
pub open spec fn holds_array(n: DataView, key: Seq<char>) -> bool {
    match field_value(n.fields(), key) {
        Some(x) => x.is_array(),
        None => false,
    }
}

/// The object `n` after an array is fetched or created at `key`: an array
/// that stands there stays, anything else gives way to a fresh array.
pub open spec fn with_array_at(
    n: DataView,
    key: Seq<char>,
    rule_id: usize,
    levels: usize,
) -> DataView {
    if holds_array(n, key) {
        n
    } else {
        with_fields(n, with_field(n.fields(), key, fresh_array(rule_id, levels)))
    }
}

/// Walking the keys `segs` down from the object `n`: the object afterwards,
/// and the path from it to the node where the walk ends. Each key but the
/// last fetches or creates an object. The last one does the same, or in array
/// mode fetches or creates an array and adds a fresh object to it, where the
/// walk then ends. A node that the walk creates at the key number `k` has its
/// parent `k` levels above it, which is where the walk started; the new
/// element of the array has the array as its parent.
pub open spec fn walked(
    n: DataView,
    segs: Seq<Seq<char>>,
    level: usize,
    rule_id: usize,
    array_mode: bool,
) -> (DataView, Seq<int>)
    decreases segs.len(),
{
    if segs.len() == 0 {
        (n, Seq::empty())
    } else if segs.len() == 1 {
        if array_mode {
            let n1 = with_array_at(n, segs[0], rule_id, level);
            let i = field_place(n1.fields(), segs[0])->0;
            let arr = n1.fields()[i].1;
            (
                with_child_at(n1, i, with_element(arr, fresh_object(rule_id, 1))),
                seq![i, arr.elements().len() as int],
            )
        } else {
            let n1 = with_object_at(n, segs[0], rule_id, level);
            (n1, seq![field_place(n1.fields(), segs[0])->0])
        }
    } else {
        let n1 = with_object_at(n, segs[0], rule_id, level);
        let i = field_place(n1.fields(), segs[0])->0;
        let below = walked(n1.fields()[i].1, segs.drop_first(), deeper(level), rule_id, array_mode);
        (with_child_at(n1, i, below.0), seq![i] + below.1)
    }
}

/// Where a walk ends: the walk leaves a well-formed object with the same rule
/// and parent as before, and the path that it returns leads to an object in
/// it, through one node for each key and one more in array mode.
pub proof fn lemma_walked(
    n: DataView,
    segs: Seq<Seq<char>>,
    level: usize,
    rule_id: usize,
    array_mode: bool,
)
    requires
        n.wf(),
        n.is_object(),
        segs.len() >= 1,
    ensures
        ({
            let w = walked(n, segs, level, rule_id, array_mode);
            &&& w.0.wf()
            &&& w.0.is_object()
            &&& w.0.id == n.id
            &&& w.0.parent == n.parent
            &&& w.1.len() == segs.len() + if array_mode {
                1int
            } else {
                0int
            }
            &&& node_at(w.0, w.1) is Some
            &&& node_at(w.0, w.1)->0.is_object()
            &&& node_at(w.0, w.1)->0.wf()
        }),
    decreases segs.len(),
{
    let w = walked(n, segs, level, rule_id, array_mode);
    let key = segs[0];
    if segs.len() == 1 && array_mode {
        let n1 = with_array_at(n, key, rule_id, level);
        lemma_with_field(n.fields(), key, fresh_array(rule_id, level));
        lemma_with_field_wf(n.fields(), key, fresh_array(rule_id, level));
        let i = field_place(n1.fields(), key)->0;
        let arr = n1.fields()[i].1;
        assert(arr.is_array());
        assert(arr.wf());
        let arr2 = with_element(arr, fresh_object(rule_id, 1));
        assert(arr2.wf()) by {
            let els = arr2.v->Array_0;
            let before = arr.v->Array_0;
            assert forall|j: int| 0 <= j < els.len() implies (#[trigger] els[j]).wf() by {
                if j < before.len() {
                    assert(before[j].wf());
                }
            }
        }
        lemma_with_child_wf(n1, i, arr2);
        assert(w.1.drop_first() =~= seq![arr.elements().len() as int]);
        assert(w.1.drop_first().drop_first() =~= Seq::<int>::empty());
        lemma_node_at_child(arr2, arr.elements().len() as int);
    } else {
        let n1 = with_object_at(n, key, rule_id, level);
        lemma_with_field(n.fields(), key, fresh_object(rule_id, level));
        lemma_with_field_wf(n.fields(), key, fresh_object(rule_id, level));
        let i = field_place(n1.fields(), key)->0;
        let below = n1.fields()[i].1;
        assert(below.is_object());
        assert(below.wf());
        if segs.len() == 1 {
            assert(w.1.drop_first() =~= Seq::<int>::empty());
        } else {
            lemma_walked(below, segs.drop_first(), deeper(level), rule_id, array_mode);
            let b = walked(below, segs.drop_first(), deeper(level), rule_id, array_mode);
            lemma_with_child_wf(n1, i, b.0);
            assert(w.1.drop_first() =~= b.1);
        }
    }
}

/// A tree in which the node that a path leads to is replaced by a
/// well-formed value is well formed.
pub proof fn lemma_with_node_wf(d: DataView, p: Seq<int>, x: DataView)
    requires
        d.wf(),
        x.wf(),
    ensures
        with_node_at(d, p, x).wf(),
    decreases p.len(),
{
    if p.len() > 0 {
        match child_at(d, p[0]) {
            Some(c) => {
                lemma_child_wf(d, p[0]);
                lemma_with_node_wf(c, p.drop_first(), x);
                lemma_with_child_wf(d, p[0], with_node_at(c, p.drop_first(), x));
            },
            None => {},
        }
    }
}

/// The node that a path leads to in a well-formed tree is well formed.
pub proof fn lemma_node_at_wf(d: DataView, p: Seq<int>)
    requires
        d.wf(),
        node_at(d, p) is Some,
    ensures
        node_at(d, p)->0.wf(),
    decreases p.len(),
{
    if p.len() > 0 {
        lemma_child_wf(d, p[0]);
        lemma_node_at_wf(child_at(d, p[0])->0, p.drop_first());
    }
}

/// Walks the keys `segs[from..]` down from the object `n`, creating what is
/// missing, and adds the places it went through to `out`.
fn walk(
    n: &mut ShadowData,
    segs: &Vec<String>,
    from: usize,
    rule_id: usize,
    array_mode: bool,
    out: &mut Vec<usize>,
)
    requires
        old(n).wf(),
        old(n)@.is_object(),
        from < segs@.len(),
    ensures
        final(n).wf(),
        final(n)@.is_object(),
        final(n)@ == walked(
            old(n)@,
            texts(segs@).skip(from as int),
            (from + 1) as usize,
            rule_id,
            array_mode,
        ).0,
        ints(final(out)@) == ints(old(out)@) + walked(
            old(n)@,
            texts(segs@).skip(from as int),
            (from + 1) as usize,
            rule_id,
            array_mode,
        ).1,
    decreases segs@.len() - from,
{
    let ghost rest = texts(segs@).skip(from as int);
    let ghost before = n@;
    let key = segs[from].as_str();
    let total: usize = segs.len();
    let last: bool = from + 1 == total;
    proof {
        assert(rest[0] == key@);
        assert(rest.drop_first() =~= texts(segs@).skip(from + 1));
        lemma_object_keys(*n);
    }
    if last && array_mode {
        let found: bool = match n.get(key) {
            Some(x) => x.is_array(),
            None => false,
        };
        if !found {
            proof {
                lemma_with_field(before.fields(), key@, fresh_array(rule_id, (from + 1) as usize));
            }
            n.set(key, ShadowData::new_array(Some(rule_id), Some(from + 1)));
        }
        assert(n@ == with_array_at(before, key@, rule_id, (from + 1) as usize));
        let i: usize = match n.place(key) {
            Some(i) => i,
            None => 0,
        };
        let ghost n1 = n@;
        assert(field_place(n1.fields(), key@) == Some(i as int));
        let arr = n.child_mut(i);
        assert(arr@.is_array());
        let len: usize = arr.len();
        arr.push(ShadowData::new_object(Some(rule_id), Some(1)));
        out.push(i);
        out.push(len);
        assert(ints(out@) =~= ints(old(out)@) + seq![i as int, len as int]);
    } else {
        proof {
            lemma_with_field(before.fields(), key@, fresh_object(rule_id, (from + 1) as usize));
        }
        n.set(key, ShadowData::new_object(Some(rule_id), Some(from + 1)));
        let i: usize = match n.place(key) {
            Some(i) => i,
            None => 0,
        };
        out.push(i);
        if last {
            assert(ints(out@) =~= ints(old(out)@) + seq![i as int]);
        } else {
            let below = n.child_mut(i);
            let ghost rel = walked(
                below@,
                rest.drop_first(),
                (from + 2) as usize,
                rule_id,
                array_mode,
            ).1;
            assert(below@.is_object());
            let ghost mid = out@;
            walk(below, segs, from + 1, rule_id, array_mode, out);
            assert(ints(mid) =~= ints(old(out)@) + seq![i as int]);
            assert(ints(out@) =~= ints(old(out)@) + (seq![i as int] + rel));
        }
    }
}

/// The two nodes are of one kind: both strings, both arrays or both objects.
pub open spec fn same_kind(a: DataView, b: DataView) -> bool {
    &&& a.is_string() == b.is_string()
    &&& a.is_array() == b.is_array()
    &&& a.is_object() == b.is_object()
}

/// Replacing a node by one of its kind leaves the root of the kind it was.
pub proof fn lemma_root_kind(d: DataView, p: Seq<int>, x: DataView)
    requires
        node_at(d, p) is Some,
        same_kind(node_at(d, p)->0, x),
    ensures
        same_kind(d, with_node_at(d, p, x)),
{
}

/// The mathematical value of a cursor: the tree and the path from its root to
/// the position.
pub struct CursorView {
    pub root: DataView,
    pub path: Seq<int>,
}

impl CursorView {
    /// The path leads to a node, and that node is an array or an object.
    pub open spec fn valid(self) -> bool {
        &&& node_at(self.root, self.path) is Some
        &&& !node_at(self.root, self.path)->0.is_string()
    }

    /// The node at which the cursor stands.
    pub open spec fn position(self) -> DataView {
        node_at(self.root, self.path)->0
    }

    /// The node at which the cursor would stand in the tree `root`.
    pub open spec fn position_in(self, root: DataView) -> DataView {
        node_at(root, self.path)->0
    }

    /// The path to the parent of the position, if the position has a parent
    /// that stands above it in the tree.
    pub open spec fn parent_path(self) -> Option<Seq<int>> {
        match self.position().parent {
            Some(levels) => if 1 <= levels <= self.path.len() {
                Some(self.path.take(self.path.len() - levels))
            } else {
                None
            },
            None => None,
        }
    }

    /// The cursor with the node at its position replaced by `x`.
    pub open spec fn with_position(self, x: DataView) -> CursorView {
        CursorView { root: with_node_at(self.root, self.path, x), path: self.path }
    }

    /// Whether the position is an element of an array.
    pub open spec fn in_array(self) -> bool {
        &&& self.path.len() > 0
        &&& node_at(self.root, self.path.drop_last()) is Some
        &&& node_at(self.root, self.path.drop_last())->0.is_array()
    }
}

/// Whether a path asks for an array: its last character is a dot.
pub open spec fn is_array_path(path: Seq<char>) -> bool {
    path.len() > 0 && path.last() == '.'
}

/// The keys of a path, still joined by dots: the path without the dot that
/// marks an array.
pub open spec fn path_body(path: Seq<char>) -> Seq<char> {
    if is_array_path(path) {
        path.drop_last()
    } else {
        path
    }
}

/// The message of the error for a path that is a single dot.
pub open spec fn single_dot_message() -> Seq<char> {
    "Invalid def : single dot is not a valid path"@
}

/// The message of the error for a path of keys that meets an array.
pub open spec fn array_position_message() -> Seq<char> {
    "Invalid def : a path of keys cannot start at an array"@
}

/// The cursor after it has left an array that another rule made: it stands
/// on the parent of that array. `None` where there is no parent to go to.
/// In every other case the cursor stays.
pub open spec fn settled(c: CursorView, rule_id: usize) -> Option<CursorView> {
    if c.position().is_array() && c.position().id != Some(rule_id) {
        match c.parent_path() {
            Some(p) => Some(CursorView { root: c.root, path: p }),
            None => None,
        }
    } else {
        Some(c)
    }
}

/// The cursor after the rule `rule_id` has applied `path` at it, or the
/// message of the error.
///
/// On an array, a path in array mode adds a fresh object to the array and
/// moves onto it. On an element of an array that the same rule made, a path
/// in array mode leaves the cursor where it is. In every other case the keys
/// of the path are walked down from the position.
pub open spec fn opened_at(c: CursorView, rule_id: usize, path: Seq<char>) -> Result<
    CursorView,
    Seq<char>,
> {
    let array_mode = is_array_path(path);
    if array_mode && path_body(path).len() == 0 {
        Err(single_dot_message())
    } else if c.position().is_array() {
        if array_mode {
            Ok(entered(c, fresh_object(rule_id, 1)))
        } else {
            Err(array_position_message())
        }
    } else if array_mode && c.position().id == Some(rule_id) && c.in_array() {
        Ok(c)
    } else {
        let w = walked(c.position(), split_dots(path_body(path)), 1, rule_id, array_mode);
        Ok(CursorView { root: with_node_at(c.root, c.path, w.0), path: c.path + w.1 })
    }
}

/// The cursor after an element that the rule `rule_id` matches has opened,
/// and the message of the error if there was one. `path` is the path of the
/// rule's data block.
pub open spec fn opened(c: CursorView, rule_id: usize, path: Option<Seq<char>>) -> (
    CursorView,
    Option<Seq<char>>,
) {
    match settled(c, rule_id) {
        None => (c, Some(go_up_message())),
        Some(c1) => match path {
            None => (c1, None),
            Some(p) => match opened_at(c1, rule_id, p) {
                Ok(c2) => (c2, None),
                Err(m) => (c1, Some(m)),
            },
        },
    }
}

/// The cursor after an element has closed whose rule has a data block with
/// the path `path`, and the message of the error if there was one: a rule
/// with a path moves the cursor to the parent of its position.
pub open spec fn closed(c: CursorView, path: Option<Seq<char>>) -> (CursorView, Option<Seq<char>>) {
    match path {
        None => (c, None),
        Some(_) => match c.parent_path() {
            Some(p) => (CursorView { root: c.root, path: p }, None),
            None => (c, Some(go_up_message())),
        },
    }
}

/// The text of an optional string.
pub open spec fn text_of(s: Option<String>) -> Option<Seq<char>> {
    match s {
        Some(t) => Some(t@),
        None => None,
    }
}

/// A string node that the rule `rule_id` wrote, with the node that holds it
/// as its parent.
pub open spec fn text_node(rule_id: usize, text: Seq<char>) -> DataView {
    DataView { id: Some(rule_id), parent: Some(1usize), v: ValueView::String(text) }
}

/// An empty object with the rule `id` and the parent `parent`.
pub open spec fn empty_object(id: Option<usize>, parent: Option<usize>) -> DataView {
    DataView { id, parent, v: ValueView::Object(Seq::empty()) }
}

/// The cursor `c`, which stands on an array, after `x` is added to the array
/// and the cursor has moved onto it.
pub open spec fn entered(c: CursorView, x: DataView) -> CursorView {
    CursorView {
        root: with_node_at(c.root, c.path, with_element(c.position(), x)),
        path: c.path.push(c.position().elements().len() as int),
    }
}

/// The cursor on an object to write to: a cursor on an array moves onto a
/// new empty element, which has the rule of the array and the array as its
/// parent; a cursor on an object stays.
pub open spec fn on_object(c: CursorView) -> CursorView {
    if c.position().is_array() {
        entered(c, empty_object(c.position().id, Some(1usize)))
    } else {
        c
    }
}

/// The cursor `c`, which stands on an element of an array, after a new
/// sibling has begun: the array has a new empty object as its last element,
/// with the rule and the parent of the element that the cursor left, and the
/// cursor stands on it.
pub open spec fn next_sibling(c: CursorView) -> CursorView {
    entered(
        CursorView { root: c.root, path: c.path.drop_last() },
        empty_object(c.position().id, c.position().parent),
    )
}

/// The cursor at the object that takes the field `key`: the object that the
/// cursor stands on or has moved onto, or a new sibling of it where that
/// object is an element of an array and has the field already.
pub open spec fn ready_for(c: CursorView, key: Seq<char>) -> CursorView {
    let c1 = on_object(c);
    if field_place(c1.position().fields(), key) is Some && c1.in_array() {
        next_sibling(c1)
    } else {
        c1
    }
}

/// The cursor `c`, which stands on an object, after `value` is written at the
/// field `key` of that object.
pub open spec fn with_value(c: CursorView, key: Seq<char>, value: DataView) -> CursorView {
    c.with_position(with_fields(c.position(), with_field(c.position().fields(), key, value)))
}

/// The cursor after the rule `rule_id` has written the text `text` at the
/// field `key`.
pub open spec fn wrote_text(
    c: CursorView,
    rule_id: usize,
    key: Seq<char>,
    text: Seq<char>,
) -> CursorView {
    with_value(ready_for(c, key), key, text_node(rule_id, text))
}

/// The message of the error that `go_up` reports.
pub open spec fn go_up_message() -> Seq<char> {
    "[go_up] cannot move up"@
}

/// Where a pass writes: the result tree and a position in it.
#[derive(Debug)]
pub struct ShadowDataCursor {
    /// The result tree.
    pub root: ShadowData,
    /// The position, as the places of the children that lead to it from the
    /// root.
    pub shadow_data: Vec<usize>,
}

impl View for ShadowDataCursor {
    type V = CursorView;

    open spec fn view(&self) -> CursorView {
        CursorView { root: self.root@, path: ints(self.shadow_data@) }
    }
}

impl ShadowDataCursor {
    /// The tree is well formed, its root is an object, and the position is
    /// an array or an object of the tree.
    pub open spec fn wf(&self) -> bool {
        &&& self.root.wf()
        &&& self@.root.is_object()
        &&& self@.valid()
    }

    /// The cursor at the start of a pass: the tree is an empty object made by
    /// the rule 0, and the cursor stands on it.
    pub open spec fn start() -> CursorView {
        CursorView {
            root: DataView { id: Some(0usize), parent: None, v: ValueView::Object(Seq::empty()) },
            path: Seq::empty(),
        }
    }

    /// A cursor on the tree `root` at the position `shadow_data`.
    pub fn new(shadow_data: Vec<usize>, root: ShadowData) -> (cursor: ShadowDataCursor)
        ensures
            cursor.root == root,
            cursor.shadow_data == shadow_data,
    {
        ShadowDataCursor { root, shadow_data }
    }

    /// The cursor at the start of a pass.
    pub fn init() -> (cursor: ShadowDataCursor)
        ensures
            cursor.wf(),
            cursor@ == ShadowDataCursor::start(),
    {
        let cursor = ShadowDataCursor {
            root: ShadowData::new_object(Some(0), None),
            shadow_data: Vec::new(),
        };
        assert(cursor@.path =~= Seq::<int>::empty());
        cursor
    }

    /// The node at which the cursor stands.
    pub fn position(&self) -> (node: &ShadowData)
        requires
            self.wf(),
        ensures
            node.wf(),
            node@ == self@.position(),
    {
        assert(ints(self.shadow_data@).skip(0) =~= ints(self.shadow_data@));
        node_ref(&self.root, &self.shadow_data, 0)
    }

    /// The node at which the cursor stands, to be changed in place. The
    /// cursor stays well formed as long as the node does and stays an array
    /// or an object, whichever it was.
    pub fn position_mut(&mut self) -> (node: &mut ShadowData)
        requires
            old(self).wf(),
        ensures
            node.wf(),
            node@ == old(self)@.position(),
            final(self)@ == old(self)@.with_position(final(node)@),
            final(node).wf() ==> final(self).root.wf(),
            final(node).wf() && same_kind(node@, final(node)@) ==> final(self).wf(),
    {
        assert(ints(self.shadow_data@).skip(0) =~= ints(self.shadow_data@));
        proof {
            let c = self@;
            assert forall|x: DataView| same_kind(c.position(), x) implies {
                &&& #[trigger] c.with_position(x).valid()
                &&& c.with_position(x).root.is_object()
            } by {
                lemma_node_at_replaced(c.root, c.path, x);
                lemma_root_kind(c.root, c.path, x);
            }
        }
        node_mut(&mut self.root, &self.shadow_data, 0)
    }

    /// Moves the cursor to the parent of its position. A position without a
    /// parent above it in the tree is an error, and the cursor stays.
    pub fn go_up(&mut self) -> (r: Result<(), ShadowError>)
        requires
            old(self).wf(),
        ensures
            final(self).wf(),
            match old(self)@.parent_path() {
                Some(p) => r is Ok && final(self)@ == (CursorView { root: old(self)@.root, path: p }),
                None => r is Err && r->Err_0.msg@ == go_up_message() && final(self)@ == old(self)@,
            },
    {
        let parent = self.position().parent;
        let n: usize = self.shadow_data.len();
        match parent {
            Some(levels) => {
                if 1 <= levels && levels <= n {
                    proof {
                        lemma_node_at_prefix(self@.root, self@.path, n - levels);
                    }
                    self.shadow_data.truncate(n - levels);
                    assert(ints(self.shadow_data@) =~= ints(old(self).shadow_data@).take(n - levels));
                    return Ok(());
                }
            },
            None => {},
        }
        Err(ShadowError { msg: String::from_str("[go_up] cannot move up") })
    }

    /// Whether the position is an element of an array.
    pub fn in_array(&self) -> (inside: bool)
        requires
            self.wf(),
        ensures
            inside == self@.in_array(),
    {
        let n: usize = self.shadow_data.len();
        if n == 0 {
            return false;
        }
        let mut above: Vec<usize> = Vec::new();
        let mut i: usize = 0;
        while i + 1 < n
            invariant
                n == self.shadow_data@.len(),
                0 <= i < n,
                above@ == self.shadow_data@.take(i as int),
            decreases n - i,
        {
            above.push(self.shadow_data[i]);
            assert(above@ =~= self.shadow_data@.take(i + 1));
            i = i + 1;
        }
        proof {
            assert(ints(above@) =~= self@.path.drop_last());
            lemma_node_at_prefix(self@.root, self@.path, n - 1);
            assert(ints(above@).skip(0) =~= ints(above@));
        }
        node_ref(&self.root, &above, 0).is_array()
    }

    /// Adds `x` to the array on which the cursor stands and moves the cursor
    /// onto it.
    pub fn enter(&mut self, x: ShadowData)
        requires
            old(self).wf(),
            old(self)@.position().is_array(),
            x.wf(),
            !x@.is_string(),
        ensures
            final(self).wf(),
            final(self)@ == entered(old(self)@, x@),
            final(self)@.position() == x@,
    {
        let ghost c = self@;
        let node = self.position_mut();
        let len: usize = node.len();
        node.push(x);
        proof {
            let arr = with_element(c.position(), x@);
            lemma_node_at_replaced(c.root, c.path, arr);
            lemma_node_at_concat(self@.root, c.path, seq![len as int]);
            lemma_node_at_child(arr, len as int);
        }
        self.shadow_data.push(len);
        assert(self@.path =~= c.path + seq![len as int]);
        assert(self@.path =~= c.path.push(len as int));
    }

    /// Makes sure that the cursor stands on an object: on an array it adds a
    /// new empty element and moves onto it.
    pub fn stand_on_object(&mut self)
        requires
            old(self).wf(),
        ensures
            final(self).wf(),
            final(self)@ == on_object(old(self)@),
            final(self)@.position().is_object(),
    {
        let pos = self.position();
        if pos.is_array() {
            let id = pos.id;
            self.enter(ShadowData::new_object(id, Some(1)));
        }
    }

    /// Begins a new sibling of the element of an array on which the cursor
    /// stands, and moves the cursor onto it.
    pub fn begin_sibling(&mut self)
        requires
            old(self).wf(),
            old(self)@.in_array(),
        ensures
            final(self).wf(),
            final(self)@ == next_sibling(old(self)@),
            final(self)@.position() == empty_object(
                old(self)@.position().id,
                old(self)@.position().parent,
            ),
    {
        let pos = self.position();
        let id = pos.id;
        let parent = pos.parent;
        let n: usize = self.shadow_data.len();
        proof {
            lemma_node_at_prefix(self@.root, self@.path, n - 1);
        }
        self.shadow_data.truncate(n - 1);
        assert(self@.path =~= old(self)@.path.drop_last());
        self.enter(ShadowData::new_object(id, parent));
    }

    /// Writes `value` at the field `key` of the object on which the cursor
    /// stands, as `ShadowData::set` does.
    pub fn set_value(&mut self, key: &str, value: ShadowData)
        requires
            old(self).wf(),
            old(self)@.position().is_object(),
            value.wf(),
        ensures
            final(self).wf(),
            final(self)@ == with_value(old(self)@, key@, value@),
            final(self)@.position().is_object(),
    {
        let ghost c = self@;
        let node = self.position_mut();
        node.set(key, value);
        proof {
            lemma_node_at_replaced(
                c.root,
                c.path,
                with_fields(c.position(), with_field(c.position().fields(), key@, value@)),
            );
        }
    }

    /// Writes the text `value` at the field `key` for the rule `rule_id`.
    /// The text goes to the object on which the cursor stands; a cursor on an
    /// array first moves onto a new element. Where that object is an element
    /// of an array and has the field already, a new sibling begins and takes
    /// the text.
    pub fn write_text(&mut self, rule_id: usize, key: &str, value: String)
        requires
            old(self).wf(),
        ensures
            final(self).wf(),
            final(self)@ == wrote_text(old(self)@, rule_id, key@, value@),
    {
        self.stand_on_object();
        let taken: bool = self.position().place(key).is_some();
        if taken && self.in_array() {
            self.begin_sibling();
        }
        self.set_value(key, ShadowData::new_string(Some(rule_id), Some(1), value));
    }

    /// The result tree as compact JSON text.
    pub fn to_string(&self) -> (text: String)
        requires
            self.root.wf(),
        ensures
            text@ == json_of(self.root@),
    {
        self.root.to_string()
    }
}

/// Whether a node was made by the rule `rule_id`.
fn made_by(node: &ShadowData, rule_id: usize) -> (same: bool)
    ensures
        same == (node@.id == Some(rule_id)),
{
    match node.id {
        Some(id) => id == rule_id,
        None => false,
    }
}

impl ShadowData {
    /// Moves the cursor for an element that the rule `selector_id` matches
    /// and that has just opened. A rule without a data block leaves the
    /// cursor alone and `Ok(false)` is returned. Otherwise the cursor first
    /// leaves an array that another rule made, and then follows the path of
    /// the data block, if it has one; `Ok(true)` is returned, or the error
    /// that stopped the cursor.
    pub fn on_data_tag_open(
        selector_id: usize,
        json_def: &ShadowJson,
        cursor: &mut ShadowDataCursor,
    ) -> (r: Result<bool, ShadowError>)
        requires
            old(cursor).wf(),
        ensures
            final(cursor).wf(),
            match json_def.data {
                None => r == Ok::<bool, ShadowError>(false) && final(cursor)@ == old(cursor)@,
                Some(data) => {
                    let after = opened(old(cursor)@, selector_id, text_of(data.path));
                    &&& final(cursor)@ == after.0
                    &&& match after.1 {
                        None => r == Ok::<bool, ShadowError>(true),
                        Some(m) => r is Err && r->Err_0.msg@ == m,
                    }
                },
            },
    {
        let data = match &json_def.data {
            Some(data) => data,
            None => {
                return Ok(false);
            },
        };
        let pos = cursor.position();
        if pos.is_array() && !made_by(pos, selector_id) {
            match cursor.go_up() {
                Ok(_) => {},
                Err(e) => {
                    return Err(e);
                },
            }
        }
        let ghost c1 = cursor@;
        assert(settled(old(cursor)@, selector_id) == Some(c1));
        let path = match &data.path {
            Some(path) => path.as_str(),
            None => {
                return Ok(true);
            },
        };
        let n: usize = path.unicode_len();
        let array_mode: bool = n > 0 && path.get_char(n - 1) == '.';
        let body = if array_mode {
            path.substring_char(0, n - 1)
        } else {
            path
        };
        assert(array_mode == is_array_path(path@));
        assert(body@ =~= path_body(path@));
        if array_mode && n == 1 {
            return Err(
                ShadowError { msg: String::from_str("Invalid def : single dot is not a valid path") },
            );
        }
        let pos = cursor.position();
        if pos.is_array() {
            if !array_mode {
                return Err(
                    ShadowError {
                        msg: String::from_str("Invalid def : a path of keys cannot start at an array"),
                    },
                );
            }
            cursor.enter(ShadowData::new_object(Some(selector_id), Some(1)));
            return Ok(true);
        }
        if array_mode && made_by(pos, selector_id) && cursor.in_array() {
            return Ok(true);
        }
        let segs = split_at_dots(body);
        let mut rel: Vec<usize> = Vec::new();
        proof {
            lemma_view_wf(*pos);
            lemma_walked(c1.position(), split_dots(body@), 1, selector_id, array_mode);
            assert(texts(segs@).skip(0) =~= texts(segs@));
        }
        let ghost w = walked(c1.position(), split_dots(body@), 1, selector_id, array_mode);
        let node = cursor.position_mut();
        walk(node, &segs, 0, selector_id, array_mode, &mut rel);
        proof {
            assert(ints(rel@) =~= w.1);
            lemma_node_at_replaced(c1.root, c1.path, w.0);
            lemma_node_at_concat(cursor@.root, c1.path, w.1);
        }
        let ghost tail = rel@;
        cursor.shadow_data.append(&mut rel);
        assert(cursor@.path =~= c1.path + ints(tail));
        Ok(true)
    }

    /// Moves the cursor for an element that has just closed: where the rule
    /// has a data block with a path, the cursor goes to the parent of its
    /// position, and it is an error if there is none.
    pub fn on_data_tag_close(
        _selector_id: usize,
        json_def: &ShadowJson,
        cursor: &mut ShadowDataCursor,
    ) -> (r: Result<(), ShadowError>)
        requires
            old(cursor).wf(),
        ensures
            final(cursor).wf(),
            match json_def.data {
                None => r is Ok && final(cursor)@ == old(cursor)@,
                Some(data) => {
                    let after = closed(old(cursor)@, text_of(data.path));
                    &&& final(cursor)@ == after.0
                    &&& match after.1 {
                        None => r is Ok,
                        Some(m) => r is Err && r->Err_0.msg@ == m,
                    }
                },
            },
    {
        match &json_def.data {
            Some(data) => {
                if data.path.is_some() {
                    return cursor.go_up();
                }
                Ok(())
            },
            None => Ok(()),
        }
    }
}

}
