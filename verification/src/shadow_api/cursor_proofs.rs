//! What holds of the cursor whatever the document: where the values of a rule
//! with a path land, and what the matches of a rule with an array path leave.

use vstd::prelude::*;
use crate::shadow_api::shadow_data::{
    child_at, combined, field_keys, field_place, field_value, lemma_with_field,
    lemma_with_field_wf, merged, with_child_at, with_field, DataView, ValueView,
};
use crate::shadow_api::shadow_data_cursor::{
    closed, deeper, entered, fresh_array, fresh_object, holds_array, is_array_path,
    lemma_node_at_child, lemma_node_at_concat, lemma_node_at_replaced, lemma_node_at_wf,
    lemma_walked, lemma_with_node_child, lemma_with_node_wf, node_at, on_object, opened, path_body,
    ready_for, text_node, walked, with_array_at, with_element, with_fields, with_node_at,
    with_object_at, wrote_text, CursorView,
};
use crate::shadow_api::text::{lemma_split_dots_len, split_dots};

verus! {

/// The node that the keys `keys` lead to from `n`, taking at each object the
/// field with the next key.
pub open spec fn descend(n: DataView, keys: Seq<Seq<char>>) -> Option<DataView>
    decreases keys.len(),
{
    if keys.len() == 0 {
        Some(n)
    } else if !n.is_object() {
        None
    } else {
        match field_value(n.fields(), keys[0]) {
            Some(c) => descend(c, keys.drop_first()),
            None => None,
        }
    }
}

/// The places `rel` are those of the fields with the keys `keys`, one after
/// the other down from `n`.
pub open spec fn leads(n: DataView, keys: Seq<Seq<char>>, rel: Seq<int>) -> bool
    decreases keys.len(),
{
    if keys.len() == 0 {
        rel.len() == 0
    } else {
        &&& rel.len() == keys.len()
        &&& n.is_object()
        &&& field_place(n.fields(), keys[0]) == Some(rel[0])
        &&& 0 <= rel[0] < n.fields().len()
        &&& leads(n.fields()[rel[0]].1, keys.drop_first(), rel.drop_first())
    }
}

/// Places that belong to keys lead to the node that the keys lead to.
pub proof fn lemma_leads_descend(n: DataView, keys: Seq<Seq<char>>, rel: Seq<int>)
    requires
        leads(n, keys, rel),
    ensures
        descend(n, keys) == node_at(n, rel),
        node_at(n, rel) is Some,
    decreases keys.len(),
{
    if keys.len() > 0 {
        lemma_leads_descend(n.fields()[rel[0]].1, keys.drop_first(), rel.drop_first());
    }
}

/// Replacing the node at the end of a path of keys leaves the keys and their
/// places as they were, and the keys then lead to the new node.
pub proof fn lemma_leads_replaced(n: DataView, keys: Seq<Seq<char>>, rel: Seq<int>, x: DataView)
    requires
        leads(n, keys, rel),
    ensures
        leads(with_node_at(n, rel, x), keys, rel),
        descend(with_node_at(n, rel, x), keys) == Some(x),
    decreases keys.len(),
{
    if keys.len() > 0 {
        let c = n.fields()[rel[0]].1;
        lemma_leads_replaced(c, keys.drop_first(), rel.drop_first(), x);
        let after = with_node_at(n, rel, x);
        assert(after == with_child_at(n, rel[0], with_node_at(c, rel.drop_first(), x)));
        assert(field_keys(after.fields()) =~= field_keys(n.fields()));
    } else {
        assert(rel =~= Seq::<int>::empty());
    }
}

/// The places of a walk without array mode are those of its keys.
pub proof fn lemma_walked_leads(n: DataView, segs: Seq<Seq<char>>, level: usize, rule_id: usize)
    requires
        n.wf(),
        n.is_object(),
        segs.len() >= 1,
    ensures
        leads(
            walked(n, segs, level, rule_id, false).0,
            segs,
            walked(n, segs, level, rule_id, false).1,
        ),
    decreases segs.len(),
{
    let w = walked(n, segs, level, rule_id, false);
    let key = segs[0];
    let n1 = with_object_at(n, key, rule_id, level);
    lemma_with_field(n.fields(), key, fresh_object(rule_id, level));
    lemma_with_field_wf(n.fields(), key, fresh_object(rule_id, level));
    let i = field_place(n1.fields(), key)->0;
    if segs.len() == 1 {
        assert(w.1.drop_first() =~= Seq::<int>::empty());
        assert(segs.drop_first() =~= Seq::<Seq<char>>::empty());
        assert(w.0 == n1);
        assert(w.1[0] == i);
        assert(leads(n1.fields()[i].1, segs.drop_first(), w.1.drop_first()));
    } else {
        let below = n1.fields()[i].1;
        assert(below.wf());
        assert(below.is_object());
        lemma_walked_leads(below, segs.drop_first(), deeper(level), rule_id);
        let b = walked(below, segs.drop_first(), deeper(level), rule_id, false);
        assert(w.1.drop_first() =~= b.1);
        assert(w.1[0] == i);
        assert(w.0 == with_child_at(n1, i, b.0));
        assert(field_keys(w.0.fields()) =~= field_keys(n1.fields()));
        assert(w.0.fields()[i].1 == b.0);
        lemma_walked(below, segs.drop_first(), deeper(level), rule_id, false);
        assert(w.1.len() == segs.len());
    }
}

/// The node at the start of a longer path, after the node at its end is
/// replaced, is the old node at the start with the same replacement made
/// inside it.
pub proof fn lemma_replaced_inside(d: DataView, p: Seq<int>, q: Seq<int>, x: DataView)
    requires
        node_at(d, p) is Some,
    ensures
        node_at(with_node_at(d, p + q, x), p) == Some(with_node_at(node_at(d, p)->0, q, x)),
        with_node_at(d, p + q, x) == with_node_at(d, p, with_node_at(node_at(d, p)->0, q, x)),
    decreases p.len(),
{
    if p.len() == 0 {
        assert(p + q =~= q);
    } else {
        assert((p + q)[0] == p[0]);
        assert((p + q).drop_first() =~= p.drop_first() + q);
        let c = child_at(d, p[0])->0;
        lemma_replaced_inside(c, p.drop_first(), q, x);
    }
}

/// Where the values of a rule with a path of keys land. The cursor stands on
/// an object, and the rule `rule_id` applies the path `path`, which does not
/// ask for an array. Then the cursor stands on the object that the keys of
/// the path lead to from where the cursor stood. A text that any rule then
/// writes at a field is the value of that field of this object, and the
/// cursor stays.
pub proof fn lemma_path_values(
    c: CursorView,
    rule_id: usize,
    path: Seq<char>,
    writer: usize,
    field: Seq<char>,
    text: Seq<char>,
)
    requires
        c.root.wf(),
        c.valid(),
        c.position().is_object(),
        !is_array_path(path),
    ensures
        ({
            let o = opened(c, rule_id, Some(path));
            let c3 = wrote_text(o.0, writer, field, text);
            &&& o.1 is None
            &&& o.0.valid()
            &&& o.0.position().is_object()
            &&& descend(c.position_in(o.0.root), split_dots(path)) == Some(o.0.position())
            &&& c3.valid()
            &&& c3.path == o.0.path
            &&& descend(c.position_in(c3.root), split_dots(path)) == Some(c3.position())
            &&& field_value(c3.position().fields(), field) == Some(text_node(writer, text))
        }),
{
    let segs = split_dots(path);
    lemma_split_dots_len(path);
    lemma_node_at_wf(c.root, c.path);
    let pos = c.position();
    let w = walked(pos, segs, 1, rule_id, false);
    lemma_walked(pos, segs, 1, rule_id, false);
    lemma_walked_leads(pos, segs, 1, rule_id);
    let o = opened(c, rule_id, Some(path));
    let c2 = o.0;
    assert(c2 == CursorView { root: with_node_at(c.root, c.path, w.0), path: c.path + w.1 });
    lemma_node_at_replaced(c.root, c.path, w.0);
    lemma_node_at_concat(c2.root, c.path, w.1);
    lemma_leads_descend(w.0, segs, w.1);
    // the position after the walk is a field of an object, or the walk's start
    assert(!c2.in_array()) by {
        let up = c2.path.drop_last();
        assert(up =~= c.path + w.1.drop_last());
        lemma_node_at_concat(c2.root, c.path, w.1.drop_last());
        lemma_leads_prefix(w.0, segs, w.1);
    }
    let spot = c2.position();
    let filled = with_fields(spot, with_field(spot.fields(), field, text_node(writer, text)));
    let c3 = wrote_text(c2, writer, field, text);
    assert(c3 == c2.with_position(filled));
    lemma_node_at_replaced(c2.root, c2.path, filled);
    lemma_with_node_wf(c.root, c.path, w.0);
    lemma_node_at_wf(c2.root, c2.path);
    lemma_with_field(spot.fields(), field, text_node(writer, text));
    lemma_replaced_inside(c2.root, c.path, w.1, filled);
    lemma_leads_replaced(w.0, segs, w.1, filled);
}

/// The node above the end of a path of keys is an object.
pub proof fn lemma_leads_prefix(n: DataView, keys: Seq<Seq<char>>, rel: Seq<int>)
    requires
        leads(n, keys, rel),
        keys.len() >= 1,
    ensures
        node_at(n, rel.drop_last()) is Some,
        node_at(n, rel.drop_last())->0.is_object(),
    decreases keys.len(),
{
    if keys.len() == 1 {
        assert(rel.drop_last() =~= Seq::<int>::empty());
    } else {
        let c = n.fields()[rel[0]].1;
        lemma_leads_prefix(c, keys.drop_first(), rel.drop_first());
        assert(rel.drop_last().drop_first() =~= rel.drop_first().drop_last());
        assert(rel.drop_last()[0] == rel[0]);
    }
}

/// Replacing a node twice is replacing it by the second value.
pub proof fn lemma_replaced_twice(d: DataView, p: Seq<int>, x: DataView, y: DataView)
    requires
        node_at(d, p) is Some,
    ensures
        with_node_at(with_node_at(d, p, x), p, y) == with_node_at(d, p, y),
    decreases p.len(),
{
    if p.len() > 0 {
        let c = child_at(d, p[0])->0;
        lemma_replaced_twice(c, p.drop_first(), x, y);
        let once = with_node_at(d, p, x);
        let inner = with_node_at(c, p.drop_first(), x);
        assert(once == with_child_at(d, p[0], inner));
        assert(child_at(once, p[0]) == Some(inner));
        match d.v {
            ValueView::String(_) => {},
            ValueView::Array(items) => {
                assert(items.update(p[0], inner).update(
                    p[0],
                    with_node_at(c, p.drop_first(), y),
                ) =~= items.update(p[0], with_node_at(c, p.drop_first(), y)));
            },
            ValueView::Object(fields) => {
                assert(fields.update(p[0], (fields[p[0]].0, inner)).update(
                    p[0],
                    (fields[p[0]].0, with_node_at(c, p.drop_first(), y)),
                ) =~= fields.update(p[0], (fields[p[0]].0, with_node_at(c, p.drop_first(), y))));
            },
        }
    }
}

/// The fields that the rule `rule_id` leaves for the texts `texts`, each by
/// its key.
pub open spec fn text_fields(
    rule_id: usize,
    texts: Seq<(Seq<char>, Seq<char>)>,
) -> Seq<(Seq<char>, DataView)> {
    Seq::new(texts.len(), |i: int| (texts[i].0, text_node(rule_id, texts[i].1)))
}

/// The keys of a list of texts.
pub open spec fn text_keys(texts: Seq<(Seq<char>, Seq<char>)>) -> Seq<Seq<char>> {
    Seq::new(texts.len(), |i: int| texts[i].0)
}

/// The element of an array that one match of the rule `rule_id` leaves, with
/// the texts `texts` written while the match was open.
pub open spec fn record(rule_id: usize, texts: Seq<(Seq<char>, Seq<char>)>) -> DataView {
    DataView {
        id: Some(rule_id),
        parent: Some(1usize),
        v: ValueView::Object(text_fields(rule_id, texts)),
    }
}

/// The cursor after the rule `rule_id` has written the first `upto` of the
/// texts `texts`, each at its key, in their order.
pub open spec fn wrote_all(
    c: CursorView,
    rule_id: usize,
    texts: Seq<(Seq<char>, Seq<char>)>,
    upto: int,
) -> CursorView
    decreases upto,
{
    if upto <= 0 {
        c
    } else {
        wrote_text(
            wrote_all(c, rule_id, texts, upto - 1),
            rule_id,
            texts[upto - 1].0,
            texts[upto - 1].1,
        )
    }
}

/// The cursor after one match of the rule `rule_id`, whose data block has the
/// path `path`: the element opens, the texts `texts` are written, and the
/// element closes.
pub open spec fn matched(
    c: CursorView,
    rule_id: usize,
    path: Seq<char>,
    texts: Seq<(Seq<char>, Seq<char>)>,
) -> CursorView {
    closed(
        wrote_all(opened(c, rule_id, Some(path)).0, rule_id, texts, texts.len() as int),
        Some(path),
    ).0
}

/// The cursor after the first `upto` of the matches `matches` of the rule
/// `rule_id`, one after the other.
pub open spec fn matched_all(
    c: CursorView,
    rule_id: usize,
    path: Seq<char>,
    matches: Seq<Seq<(Seq<char>, Seq<char>)>>,
    upto: int,
) -> CursorView
    decreases upto,
{
    if upto <= 0 {
        c
    } else {
        matched(matched_all(c, rule_id, path, matches, upto - 1), rule_id, path, matches[upto - 1])
    }
}

/// The records of the first `upto` matches.
pub open spec fn records(
    rule_id: usize,
    matches: Seq<Seq<(Seq<char>, Seq<char>)>>,
    upto: int,
) -> Seq<DataView> {
    Seq::new(
        if upto <= 0 {
            0nat
        } else {
            upto as nat
        },
        |i: int| record(rule_id, matches[i]),
    )
}

/// All the writes of one match land on one element. The cursor stands on an
/// empty object that is an element of an array, and the rule writes texts at
/// keys that differ from each other. Then the cursor stays, and the element
/// holds those texts as its fields, in their order, and nothing else.
pub proof fn lemma_writes_land(
    c: CursorView,
    rule_id: usize,
    texts: Seq<(Seq<char>, Seq<char>)>,
    upto: int,
)
    requires
        c.valid(),
        c.in_array(),
        c.position().is_object(),
        c.position().fields().len() == 0,
        text_keys(texts).no_duplicates(),
        0 <= upto <= texts.len(),
    ensures
        wrote_all(c, rule_id, texts, upto) == c.with_position(
            with_fields(c.position(), text_fields(rule_id, texts.take(upto))),
        ),
    decreases upto,
{
    let pos = c.position();
    if upto == 0 {
        assert(text_fields(rule_id, texts.take(0)) =~= Seq::empty());
        assert(pos.fields() =~= Seq::empty());
        assert(with_fields(pos, Seq::empty()) == pos);
        lemma_same_node(c.root, c.path);
    } else {
        lemma_writes_land(c, rule_id, texts, upto - 1);
        let before = wrote_all(c, rule_id, texts, upto - 1);
        let held = text_fields(rule_id, texts.take(upto - 1));
        let kept = with_fields(pos, held);
        lemma_node_at_replaced(c.root, c.path, kept);
        assert(before.position() == kept);
        let key = texts[upto - 1].0;
        let text = texts[upto - 1].1;
        assert(field_place(held, key) is None) by {
            let keys = field_keys(held);
            if keys.contains(key) {
                let j = choose|j: int| 0 <= j < keys.len() && keys[j] == key;
                assert(text_keys(texts)[j] == key);
                assert(text_keys(texts)[upto - 1] == key);
            }
        }
        assert(on_object(before) == before);
        assert(ready_for(before, key) == before);
        let spot = with_fields(kept, with_field(held, key, text_node(rule_id, text)));
        assert(with_field(held, key, text_node(rule_id, text)) =~= text_fields(
            rule_id,
            texts.take(upto),
        ));
        lemma_replaced_twice(c.root, c.path, kept, spot);
    }
}

/// Replacing a node by itself changes nothing.
pub proof fn lemma_same_node(d: DataView, p: Seq<int>)
    requires
        node_at(d, p) is Some,
    ensures
        with_node_at(d, p, node_at(d, p)->0) == d,
    decreases p.len(),
{
    if p.len() > 0 {
        let c = child_at(d, p[0])->0;
        lemma_same_node(c, p.drop_first());
        match d.v {
            ValueView::String(_) => {},
            ValueView::Array(items) => {
                assert(items.update(p[0], c) =~= items);
            },
            ValueView::Object(fields) => {
                assert(fields.update(p[0], (fields[p[0]].0, c)) =~= fields);
            },
        }
    }
}

/// One match adds one element. The cursor stands on an array that the rule
/// `rule_id` made, and the rule has a path that asks for an array. Then a
/// match of the rule, in which texts are written at keys that differ from
/// each other, adds one element to the array, which holds those texts and
/// nothing else, and leaves the cursor on the array.
pub proof fn lemma_match_adds_one(
    c: CursorView,
    rule_id: usize,
    path: Seq<char>,
    texts: Seq<(Seq<char>, Seq<char>)>,
)
    requires
        c.valid(),
        c.position().is_array(),
        c.position().id == Some(rule_id),
        is_array_path(path),
        path_body(path).len() > 0,
        text_keys(texts).no_duplicates(),
    ensures
        matched(c, rule_id, path, texts) == c.with_position(
            with_element(c.position(), record(rule_id, texts)),
        ),
        matched(c, rule_id, path, texts).valid(),
{
    let arr = c.position();
    let len = arr.elements().len() as int;
    let fresh = fresh_object(rule_id, 1);
    let o = opened(c, rule_id, Some(path));
    let c2 = o.0;
    assert(c2 == entered(c, fresh));
    let a2 = with_element(arr, fresh);
    lemma_node_at_replaced(c.root, c.path, a2);
    lemma_node_at_concat(c2.root, c.path, seq![len]);
    lemma_node_at_child(a2, len);
    assert(c2.path =~= c.path + seq![len]);
    assert(c2.path.drop_last() =~= c.path);
    assert(c2.position() == fresh);
    lemma_writes_land(c2, rule_id, texts, texts.len() as int);
    assert(texts.take(texts.len() as int) =~= texts);
    let rec = record(rule_id, texts);
    assert(with_fields(fresh, text_fields(rule_id, texts)) == rec);
    let c3 = wrote_all(c2, rule_id, texts, texts.len() as int);
    assert(c3 == c2.with_position(rec));
    lemma_node_at_replaced(c2.root, c2.path, rec);
    assert(c3.path.take(c3.path.len() - 1) =~= c.path);
    // the tree: the fresh element gives way to the record
    lemma_replaced_inside(c2.root, c.path, seq![len], rec);
    assert(with_node_at(a2, seq![len], rec) == with_element(arr, rec)) by {
        lemma_with_node_child(a2, len, rec);
        assert(a2.elements().update(len, rec) =~= arr.elements().push(rec));
    }
    lemma_replaced_twice(c.root, c.path, a2, with_element(arr, rec));
    lemma_node_at_replaced(c.root, c.path, with_element(arr, rec));
}

/// The sibling-array law. The cursor stands on an array that the rule
/// `rule_id` made, and the rule has a path that asks for an array. Then
/// after any number of matches of the rule, in each of which texts are
/// written at keys that differ from each other, the array has one more
/// element for each match, in the order of the matches; each holds the texts
/// written while its match was open and nothing else. The cursor stands on
/// the array again.
pub proof fn lemma_sibling_array(
    c: CursorView,
    rule_id: usize,
    path: Seq<char>,
    matches: Seq<Seq<(Seq<char>, Seq<char>)>>,
    upto: int,
)
    requires
        c.valid(),
        c.position().is_array(),
        c.position().id == Some(rule_id),
        is_array_path(path),
        path_body(path).len() > 0,
        0 <= upto <= matches.len(),
        forall|i: int| 0 <= i < matches.len() ==> text_keys(#[trigger] matches[i]).no_duplicates(),
    ensures
        matched_all(c, rule_id, path, matches, upto).valid(),
        matched_all(c, rule_id, path, matches, upto).path == c.path,
        matched_all(c, rule_id, path, matches, upto).position() == (DataView {
            id: c.position().id,
            parent: c.position().parent,
            v: ValueView::Array(c.position().elements() + records(rule_id, matches, upto)),
        }),
        matched_all(c, rule_id, path, matches, upto).position().elements().len()
            == c.position().elements().len() + upto,
    decreases upto,
{
    let arr = c.position();
    if upto == 0 {
        assert(arr.elements() + records(rule_id, matches, 0) =~= arr.elements());
    } else {
        lemma_sibling_array(c, rule_id, path, matches, upto - 1);
        let before = matched_all(c, rule_id, path, matches, upto - 1);
        lemma_match_adds_one(before, rule_id, path, matches[upto - 1]);
        let after = matched(before, rule_id, path, matches[upto - 1]);
        lemma_node_at_replaced(
            before.root,
            before.path,
            with_element(before.position(), record(rule_id, matches[upto - 1])),
        );
        assert((arr.elements() + records(rule_id, matches, upto - 1)).push(
            record(rule_id, matches[upto - 1]),
        ) =~= arr.elements() + records(rule_id, matches, upto));
    }
}

/// The elements of the array that the keys `keys` lead to from `n`; none
/// where the keys do not lead to an array.
pub open spec fn held(n: DataView, keys: Seq<Seq<char>>) -> Seq<DataView> {
    match descend(n, keys) {
        Some(a) => if a.is_array() {
            a.elements()
        } else {
            Seq::empty()
        },
        None => Seq::empty(),
    }
}

/// Whether the keys `keys` lead to an array from `n`.
pub open spec fn leads_to_array(n: DataView, keys: Seq<Seq<char>>) -> bool {
    match descend(n, keys) {
        Some(a) => a.is_array(),
        None => false,
    }
}

/// Fetching or creating an object where an object stands changes nothing.
pub proof fn lemma_object_stays(n: DataView, key: Seq<char>, rule_id: usize, level: usize)
    requires
        n.is_object(),
        field_keys(n.fields()).no_duplicates(),
        field_value(n.fields(), key) is Some,
        field_value(n.fields(), key)->0.is_object(),
    ensures
        with_object_at(n, key, rule_id, level) == n,
{
    lemma_with_field(n.fields(), key, fresh_object(rule_id, level));
    let i = field_place(n.fields(), key)->0;
    let c = n.fields()[i].1;
    assert(merged(c.fields(), Seq::empty()) == c.fields());
    assert(combined(c, fresh_object(rule_id, level)) == c);
    assert(n.fields().update(i, (key, c)) =~= n.fields());
}

/// What a walk in array mode leaves: the keys lead to an array, which holds
/// what the array at that place held before, if there was one, and behind it
/// one fresh object, on which the walk ends. An array that the walk had to
/// create is made by the rule of the walk.
pub proof fn lemma_walked_array(n: DataView, segs: Seq<Seq<char>>, level: usize, rule_id: usize)
    requires
        n.wf(),
        n.is_object(),
        segs.len() >= 1,
    ensures
        ({
            let w = walked(n, segs, level, rule_id, true);
            let arr = node_at(w.0, w.1.drop_last());
            &&& w.1.len() == segs.len() + 1
            &&& leads(w.0, segs, w.1.drop_last())
            &&& arr is Some
            &&& arr->0.is_array()
            &&& arr->0.elements() == held(n, segs).push(fresh_object(rule_id, 1))
            &&& w.1.last() == held(n, segs).len()
            &&& !leads_to_array(n, segs) ==> arr->0.id == Some(rule_id)
        }),
    decreases segs.len(),
{
    let w = walked(n, segs, level, rule_id, true);
    let key = segs[0];
    lemma_walked(n, segs, level, rule_id, true);
    if segs.len() == 1 {
        assert(segs.drop_first() =~= Seq::<Seq<char>>::empty());
        let n1 = with_array_at(n, key, rule_id, level);
        lemma_with_field(n.fields(), key, fresh_array(rule_id, level));
        let i = field_place(n1.fields(), key)->0;
        let arr = n1.fields()[i].1;
        let arr2 = with_element(arr, fresh_object(rule_id, 1));
        assert(w.1 =~= seq![i, arr.elements().len() as int]);
        assert(w.1.drop_last() =~= seq![i]);
        assert(w.1.drop_last().drop_first() =~= Seq::<int>::empty());
        assert(field_keys(w.0.fields()) =~= field_keys(n1.fields()));
        lemma_node_at_child(w.0, i);
        assert(descend(n, segs) == field_value(n.fields(), key)) by {
            match field_value(n.fields(), key) {
                Some(x) => {
                    assert(descend(x, segs.drop_first()) == Some(x));
                },
                None => {},
            }
        }
        if holds_array(n, key) {
            assert(n1 == n);
        } else {
            assert(arr == fresh_array(rule_id, level));
            assert(held(n, segs) =~= Seq::<DataView>::empty());
            assert(arr.elements() =~= Seq::<DataView>::empty());
        }
        assert(leads(w.0.fields()[i].1, segs.drop_first(), w.1.drop_last().drop_first()));
    } else {
        let n1 = with_object_at(n, key, rule_id, level);
        lemma_with_field(n.fields(), key, fresh_object(rule_id, level));
        lemma_with_field_wf(n.fields(), key, fresh_object(rule_id, level));
        let i = field_place(n1.fields(), key)->0;
        let below = n1.fields()[i].1;
        assert(below.wf());
        assert(below.is_object());
        let rest = segs.drop_first();
        lemma_walked_array(below, rest, deeper(level), rule_id);
        lemma_walked(below, rest, deeper(level), rule_id, true);
        let b = walked(below, rest, deeper(level), rule_id, true);
        assert(w.0 == with_child_at(n1, i, b.0));
        assert(w.1 =~= seq![i] + b.1);
        assert(w.1.drop_last() =~= seq![i] + b.1.drop_last());
        assert(w.1.drop_last().drop_first() =~= b.1.drop_last());
        assert(field_keys(w.0.fields()) =~= field_keys(n1.fields()));
        assert(w.0.fields()[i].1 == b.0);
        lemma_node_at_concat(w.0, seq![i], b.1.drop_last());
        lemma_node_at_child(w.0, i);
        // what the keys led to before the walk
        assert(descend(n, segs) == descend(below, rest)) by {
            match field_value(n.fields(), key) {
                Some(x) => {
                    if x.is_object() {
                        lemma_object_stays(n, key, rule_id, level);
                    } else {
                        assert(below == fresh_object(rule_id, level));
                        assert(descend(x, rest) is None);
                        assert(field_keys(below.fields()) =~= Seq::<Seq<char>>::empty());
                        assert(descend(below, rest) is None);
                    }
                },
                None => {
                    assert(below == fresh_object(rule_id, level));
                    assert(field_keys(below.fields()) =~= Seq::<Seq<char>>::empty());
                    assert(descend(below, rest) is None);
                },
            }
        }
    }
}

/// Where the matches of a rule with an array path land. The cursor stands on
/// an object, and the rule `rule_id` applies the path `path`, which asks for
/// an array; the cursor does not stand on an element that the rule itself
/// made. Then the keys of the path lead from where the cursor stood to an
/// array, which holds what the array at that place held before, if there was
/// one, and behind it a fresh object, on which the cursor stands.
pub proof fn lemma_array_path_opens(c: CursorView, rule_id: usize, path: Seq<char>)
    requires
        c.root.wf(),
        c.valid(),
        c.position().is_object(),
        is_array_path(path),
        path_body(path).len() > 0,
        !(c.position().id == Some(rule_id) && c.in_array()),
    ensures
        ({
            let o = opened(c, rule_id, Some(path));
            let segs = split_dots(path_body(path));
            let arr = descend(c.position_in(o.0.root), segs);
            &&& o.1 is None
            &&& o.0.valid()
            &&& o.0.root.wf()
            &&& o.0.in_array()
            &&& o.0.position() == fresh_object(rule_id, 1)
            &&& arr is Some
            &&& arr->0.is_array()
            &&& arr->0.elements() == held(c.position(), segs).push(fresh_object(rule_id, 1))
            &&& !leads_to_array(c.position(), segs) ==> arr->0.id == Some(rule_id)
            &&& node_at(o.0.root, o.0.path.drop_last()) == arr
            &&& o.0.path.len() == c.path.len() + segs.len() + 1
            &&& o.0.path.take(c.path.len() as int) == c.path
        }),
{
    let segs = split_dots(path_body(path));
    lemma_split_dots_len(path_body(path));
    lemma_node_at_wf(c.root, c.path);
    let pos = c.position();
    let w = walked(pos, segs, 1, rule_id, true);
    lemma_walked(pos, segs, 1, rule_id, true);
    lemma_walked_array(pos, segs, 1, rule_id);
    let o = opened(c, rule_id, Some(path));
    let c2 = o.0;
    assert(c2 == CursorView { root: with_node_at(c.root, c.path, w.0), path: c.path + w.1 });
    lemma_node_at_replaced(c.root, c.path, w.0);
    lemma_with_node_wf(c.root, c.path, w.0);
    lemma_node_at_concat(c2.root, c.path, w.1);
    lemma_node_at_concat(c2.root, c.path, w.1.drop_last());
    assert(c2.path.drop_last() =~= c.path + w.1.drop_last());
    lemma_leads_descend(w.0, segs, w.1.drop_last());
    assert(c2.path.take(c.path.len() as int) =~= c.path);
    // the walk ends on the last element of the array
    let arr = node_at(w.0, w.1.drop_last())->0;
    assert(w.1 =~= w.1.drop_last() + seq![w.1.last()]);
    lemma_node_at_concat(w.0, w.1.drop_last(), seq![w.1.last()]);
    lemma_node_at_child(arr, w.1.last());
}

/// Matches after a first one are matches from where the first one left the
/// cursor.
pub proof fn lemma_matched_all_split(
    c: CursorView,
    rule_id: usize,
    path: Seq<char>,
    matches: Seq<Seq<(Seq<char>, Seq<char>)>>,
    upto: int,
)
    requires
        1 <= upto <= matches.len(),
    ensures
        matched_all(c, rule_id, path, matches, upto) == matched_all(
            matched(c, rule_id, path, matches[0]),
            rule_id,
            path,
            matches.drop_first(),
            upto - 1,
        ),
    decreases upto,
{
    if upto == 1 {
        assert(matched_all(c, rule_id, path, matches, 0) == c);
    } else {
        lemma_matched_all_split(c, rule_id, path, matches, upto - 1);
        assert(matches.drop_first()[upto - 2] == matches[upto - 1]);
    }
}

/// The first match of a rule with an array path, where the keys of the path
/// did not lead to an array before: the keys then lead to an array that the
/// rule made and that holds one element, with the texts written while the
/// match was open, and the cursor stands on that array.
pub proof fn lemma_first_match(
    c: CursorView,
    rule_id: usize,
    path: Seq<char>,
    texts: Seq<(Seq<char>, Seq<char>)>,
)
    requires
        c.root.wf(),
        c.valid(),
        c.position().is_object(),
        is_array_path(path),
        path_body(path).len() > 0,
        !(c.position().id == Some(rule_id) && c.in_array()),
        !leads_to_array(c.position(), split_dots(path_body(path))),
        text_keys(texts).no_duplicates(),
    ensures
        ({
            let m = matched(c, rule_id, path, texts);
            let segs = split_dots(path_body(path));
            &&& m.valid()
            &&& m.position().is_array()
            &&& m.position().id == Some(rule_id)
            &&& m.position().elements() == seq![record(rule_id, texts)]
            &&& m.path.len() == c.path.len() + segs.len()
            &&& m.path.take(c.path.len() as int) == c.path
            &&& node_at(m.root, c.path) is Some
            &&& leads(c.position_in(m.root), segs, m.path.skip(c.path.len() as int))
        }),
{
    let segs = split_dots(path_body(path));
    lemma_array_path_opens(c, rule_id, path);
    lemma_split_dots_len(path_body(path));
    lemma_node_at_wf(c.root, c.path);
    let pos = c.position();
    lemma_walked_array(pos, segs, 1, rule_id);
    let w = walked(pos, segs, 1, rule_id, true);
    let c1 = opened(c, rule_id, Some(path)).0;
    assert(c1 == CursorView { root: with_node_at(c.root, c.path, w.0), path: c.path + w.1 });
    lemma_writes_land(c1, rule_id, texts, texts.len() as int);
    assert(texts.take(texts.len() as int) =~= texts);
    let rec = record(rule_id, texts);
    assert(with_fields(fresh_object(rule_id, 1), text_fields(rule_id, texts)) == rec);
    let c2 = wrote_all(c1, rule_id, texts, texts.len() as int);
    assert(c2 == c1.with_position(rec));
    lemma_node_at_replaced(c1.root, c1.path, rec);
    let up = c1.path.drop_last();
    assert(c2.path.take(c2.path.len() - 1) =~= up);
    let m = matched(c, rule_id, path, texts);
    assert(m == CursorView { root: c2.root, path: up });
    // the array above the record
    let arr = node_at(c1.root, up)->0;
    assert(held(pos, segs) =~= Seq::<DataView>::empty());
    assert(c1.path =~= up + seq![c1.path.last()]);
    assert(c1.path.last() == 0);
    lemma_replaced_inside(c1.root, up, seq![0int], rec);
    lemma_with_node_child(arr, 0, rec);
    assert(arr.elements().update(0, rec) =~= seq![rec]);
    // the keys still lead to the array
    assert(up =~= c.path + w.1.drop_last());
    lemma_node_at_replaced(c.root, c.path, w.0);
    lemma_replaced_inside(c1.root, c.path, w.1.drop_last(), with_child_at(arr, 0, rec));
    lemma_replaced_inside(c1.root, c.path, w.1, rec);
    lemma_leads_replaced(w.0, segs, w.1.drop_last(), with_child_at(arr, 0, rec));
    assert(m.path.take(c.path.len() as int) =~= c.path);
    assert(m.path.skip(c.path.len() as int) =~= w.1.drop_last());
    assert(c2.root == with_node_at(c1.root, up, with_child_at(arr, 0, rec)));
}

/// The matches of a rule with an array path fill an array. The cursor stands
/// on an object from which the keys of the path do not lead to an array, and
/// not on an element that the rule itself made. Then after one or more
/// matches of the rule, in each of which texts are written at keys that
/// differ from each other, the keys of the path lead from where the cursor
/// stood to an array with exactly one element for each match, in the order of
/// the matches; each holds the texts written while its match was open and
/// nothing else.
pub proof fn lemma_matches_fill_array(
    c: CursorView,
    rule_id: usize,
    path: Seq<char>,
    matches: Seq<Seq<(Seq<char>, Seq<char>)>>,
)
    requires
        c.root.wf(),
        c.valid(),
        c.position().is_object(),
        is_array_path(path),
        path_body(path).len() > 0,
        !(c.position().id == Some(rule_id) && c.in_array()),
        !leads_to_array(c.position(), split_dots(path_body(path))),
        matches.len() >= 1,
        forall|i: int| 0 <= i < matches.len() ==> text_keys(#[trigger] matches[i]).no_duplicates(),
    ensures
        ({
            let after = matched_all(c, rule_id, path, matches, matches.len() as int);
            let arr = descend(c.position_in(after.root), split_dots(path_body(path)));
            &&& arr is Some
            &&& arr->0.is_array()
            &&& arr->0.elements() == records(rule_id, matches, matches.len() as int)
            &&& arr->0.elements().len() == matches.len()
        }),
{
    let segs = split_dots(path_body(path));
    let n = matches.len() as int;
    lemma_first_match(c, rule_id, path, matches[0]);
    let m = matched(c, rule_id, path, matches[0]);
    let rest = matches.drop_first();
    lemma_matched_all_split(c, rule_id, path, matches, n);
    assert forall|i: int| 0 <= i < rest.len() implies text_keys(#[trigger] rest[i]).no_duplicates() by {
        assert(rest[i] == matches[i + 1]);
    }
    lemma_sibling_array(m, rule_id, path, rest, n - 1);
    let after = matched_all(m, rule_id, path, rest, n - 1);
    let arr = after.position();
    assert(arr.elements() =~= records(rule_id, matches, n)) by {
        assert forall|i: int| 0 <= i < n implies (seq![record(rule_id, matches[0])] + records(
            rule_id,
            rest,
            n - 1,
        ))[i] == records(rule_id, matches, n)[i] by {
            if i > 0 {
                assert(rest[i - 1] == matches[i]);
            }
        }
    }
    // the keys lead to the array in the tree after all matches
    lemma_tree_after(m, rule_id, path, rest, n - 1);
    let rel = m.path.skip(c.path.len() as int);
    assert(m.path =~= c.path + rel);
    lemma_replaced_inside(m.root, c.path, rel, arr);
    lemma_leads_replaced(c.position_in(m.root), segs, rel, arr);
}

/// The matches of a rule on its array change the tree at the array alone.
pub proof fn lemma_tree_after(
    c: CursorView,
    rule_id: usize,
    path: Seq<char>,
    matches: Seq<Seq<(Seq<char>, Seq<char>)>>,
    upto: int,
)
    requires
        c.valid(),
        c.position().is_array(),
        c.position().id == Some(rule_id),
        is_array_path(path),
        path_body(path).len() > 0,
        0 <= upto <= matches.len(),
        forall|i: int| 0 <= i < matches.len() ==> text_keys(#[trigger] matches[i]).no_duplicates(),
    ensures
        matched_all(c, rule_id, path, matches, upto).root == with_node_at(
            c.root,
            c.path,
            matched_all(c, rule_id, path, matches, upto).position(),
        ),
    decreases upto,
{
    if upto == 0 {
        lemma_same_node(c.root, c.path);
    } else {
        lemma_tree_after(c, rule_id, path, matches, upto - 1);
        lemma_sibling_array(c, rule_id, path, matches, upto - 1);
        lemma_sibling_array(c, rule_id, path, matches, upto);
        let before = matched_all(c, rule_id, path, matches, upto - 1);
        lemma_match_adds_one(before, rule_id, path, matches[upto - 1]);
        let x = with_element(before.position(), record(rule_id, matches[upto - 1]));
        lemma_replaced_twice(c.root, c.path, before.position(), x);
        lemma_node_at_replaced(c.root, c.path, x);
    }
}

}
