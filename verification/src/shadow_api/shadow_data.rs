//! The result tree: a JSON-like value made of strings, arrays and objects.

use vstd::prelude::*;
use vstd::string::*;
use crate::shadow_api::shadow_map::{key_slots, lemma_place_of, place_of, ShadowMap};

verus! {

/// One node of the result tree.
#[derive(Debug)]
pub struct ShadowData {
    /// The rule that made the node.
    pub id: Option<usize>,
    /// How many levels above the node its parent stands, for a node that has
    /// one. The parent is where the cursor goes when it leaves the node.
    pub parent: Option<usize>,
    /// What the node holds.
    pub v: ShadowDataValue,
}

/// What a node of the result tree holds.
#[derive(Debug)]
pub enum ShadowDataValue {
    String(String),
    Array(Vec<ShadowData>),
    Object(ShadowMap<ShadowData>),
}

/// The mathematical value of a node.
pub struct DataView {
    pub id: Option<usize>,
    pub parent: Option<usize>,
    pub v: ValueView,
}

/// The mathematical value of what a node holds. An object is the sequence of
/// its fields in the order of insertion.
pub enum ValueView {
    String(Seq<char>),
    Array(Seq<DataView>),
    Object(Seq<(Seq<char>, DataView)>),
}

/// The keys of the fields of an object.
pub open spec fn field_keys(fields: Seq<(Seq<char>, DataView)>) -> Seq<Seq<char>> {
    Seq::new(fields.len(), |i: int| fields[i].0)
}

/// The place of the field `key` among `fields`, if there is such a field.
pub open spec fn field_place(fields: Seq<(Seq<char>, DataView)>, key: Seq<char>) -> Option<int> {
    place_of(field_keys(fields), key)
}

/// The value of the field `key` among `fields`, if there is such a field.
pub open spec fn field_value(
    fields: Seq<(Seq<char>, DataView)>,
    key: Seq<char>,
) -> Option<DataView> {
    match field_place(fields, key) {
        Some(i) => Some(fields[i].1),
        None => None,
    }
}

/// The child of a node at place `i`: an element of an array, or the value of
/// a field of an object.
pub open spec fn child_at(d: DataView, i: int) -> Option<DataView> {
    match d.v {
        ValueView::String(_) => None,
        ValueView::Array(items) => if 0 <= i < items.len() {
            Some(items[i])
        } else {
            None
        },
        ValueView::Object(fields) => if 0 <= i < fields.len() {
            Some(fields[i].1)
        } else {
            None
        },
    }
}

/// The node `d` with its child at place `i` replaced by `x`.
pub open spec fn with_child_at(d: DataView, i: int, x: DataView) -> DataView {
    match d.v {
        ValueView::String(_) => d,
        ValueView::Array(items) => if 0 <= i < items.len() {
            DataView { id: d.id, parent: d.parent, v: ValueView::Array(items.update(i, x)) }
        } else {
            d
        },
        ValueView::Object(fields) => if 0 <= i < fields.len() {
            DataView {
                id: d.id,
                parent: d.parent,
                v: ValueView::Object(fields.update(i, (fields[i].0, x))),
            }
        } else {
            d
        },
    }
}

/// What stands at a key after `newer` is written where `older` stood: two
/// objects are merged, and the older one keeps its rule and parent; in every
/// other case the newer value replaces the older one.
pub open spec fn combined(older: DataView, newer: DataView) -> DataView
    decreases newer, 0nat,
{
    match (older.v, newer.v) {
        (ValueView::Object(a), ValueView::Object(b)) => DataView {
            id: older.id,
            parent: older.parent,
            v: ValueView::Object(merged(a, b)),
        },
        _ => newer,
    }
}

/// The fields of an object after `value` is written at `key`: a new key is
/// added last, a key that exists keeps its place and holds the combination of
/// the two values.
pub open spec fn with_field(
    fields: Seq<(Seq<char>, DataView)>,
    key: Seq<char>,
    value: DataView,
) -> Seq<(Seq<char>, DataView)>
    decreases value, 1nat,
{
    match field_place(fields, key) {
        Some(i) => fields.update(i, (key, combined(fields[i].1, value))),
        None => fields.push((key, value)),
    }
}

/// The fields of an object after the fields `b` are written into it one by
/// one, in their order.
pub open spec fn merged(
    a: Seq<(Seq<char>, DataView)>,
    b: Seq<(Seq<char>, DataView)>,
) -> Seq<(Seq<char>, DataView)>
    decreases b, 2nat,
{
    if b.len() == 0 {
        a
    } else {
        with_field(merged(a, b.drop_last()), b.last().0, b.last().1)
    }
}

/// The JSON string literal for a text: the text between double quotes, with
/// the characters that JSON does not take as they are written as escapes.
pub uninterp spec fn json_text(s: Seq<char>) -> Seq<char>;

/// Calls `serde_json::to_string` on a text, which writes the text as one JSON
/// string literal. Writing a text into memory does not fail.
#[verifier::external_body]
fn json_quote(s: &str) -> (text: String)
    ensures
        text@ == json_text(s@),
{
    serde_json::to_string(s).unwrap_or_default()
}

/// The compact JSON text of a value: strings as JSON string literals, arrays
/// and objects without added whitespace, the fields of an object in their
/// order, each key between double quotes.
pub open spec fn json_of(d: DataView) -> Seq<char>
    decreases d, 0nat,
{
    match d.v {
        ValueView::String(s) => json_text(s),
        ValueView::Array(items) => "["@ + json_elements(items) + "]"@,
        ValueView::Object(fields) => "{"@ + json_fields(fields) + "}"@,
    }
}

/// The JSON texts of `items`, with a comma between each two.
pub open spec fn json_elements(items: Seq<DataView>) -> Seq<char>
    decreases items, 1nat,
{
    if items.len() == 0 {
        Seq::empty()
    } else if items.len() == 1 {
        json_of(items[0])
    } else {
        json_elements(items.drop_last()) + ","@ + json_of(items.last())
    }
}

/// The JSON text of one field of an object.
pub open spec fn json_field(key: Seq<char>, value: DataView) -> Seq<char>
    decreases value, 1nat,
{
    "\""@ + key + "\":"@ + json_of(value)
}

/// The JSON texts of `fields`, with a comma between each two.
pub open spec fn json_fields(fields: Seq<(Seq<char>, DataView)>) -> Seq<char>
    decreases fields, 2nat,
{
    if fields.len() == 0 {
        Seq::empty()
    } else if fields.len() == 1 {
        json_field(fields[0].0, fields[0].1)
    } else {
        json_fields(fields.drop_last()) + ","@ + json_field(fields.last().0, fields.last().1)
    }
}

impl DataView {
    pub open spec fn is_string(self) -> bool {
        self.v is String
    }

    pub open spec fn is_array(self) -> bool {
        self.v is Array
    }

    pub open spec fn is_object(self) -> bool {
        self.v is Object
    }

    /// The fields of an object.
    pub open spec fn fields(self) -> Seq<(Seq<char>, DataView)> {
        self.v->Object_0
    }

    /// The elements of an array.
    pub open spec fn elements(self) -> Seq<DataView> {
        self.v->Array_0
    }

    /// No object in the value holds a key twice.
    pub open spec fn wf(self) -> bool
        decreases self,
    {
        match self.v {
            ValueView::String(_) => true,
            ValueView::Array(items) => forall|i: int|
                0 <= i < items.len() ==> (#[trigger] items[i]).wf(),
            ValueView::Object(fields) => {
                &&& field_keys(fields).no_duplicates()
                &&& forall|i: int| 0 <= i < fields.len() ==> (#[trigger] fields[i]).1.wf()
            },
        }
    }
}

/// The mathematical value of the node `d`.
pub open spec fn value_of(d: ShadowData) -> DataView
    decreases d,
{
    DataView {
        id: d.id,
        parent: d.parent,
        v: match d.v {
            ShadowDataValue::String(s) => ValueView::String(s@),
            ShadowDataValue::Array(items) => ValueView::Array(
                Seq::new(
                    items.len() as nat,
                    |i: int|
                        if 0 <= i < items.len() {
                            value_of(items[i])
                        } else {
                            arbitrary()
                        },
                ),
            ),
            ShadowDataValue::Object(m) => ValueView::Object(
                Seq::new(
                    m.items.len() as nat,
                    |i: int|
                        if 0 <= i < m.items.len() {
                            (key_slots(m.index)[i].0, value_of(m.items[i]))
                        } else {
                            arbitrary()
                        },
                ),
            ),
        },
    }
}

impl View for ShadowData {
    type V = DataView;

    open spec fn view(&self) -> DataView {
        value_of(*self)
    }
}

impl ShadowData {
    /// Every object in the tree is a well-formed map.
    pub open spec fn wf(&self) -> bool
        decreases self,
    {
        match self.v {
            ShadowDataValue::String(_) => true,
            ShadowDataValue::Array(items) => forall|i: int|
                0 <= i < items.len() ==> (#[trigger] items[i]).wf(),
            ShadowDataValue::Object(m) => {
                &&& m.wf()
                &&& forall|i: int| 0 <= i < m.items.len() ==> (#[trigger] m.items[i]).wf()
            },
        }
    }

    /// The children of the node: the elements of an array, the values of the
    /// fields of an object; a string has none.
    pub open spec fn nodes(&self) -> Seq<ShadowData> {
        match self.v {
            ShadowDataValue::String(_) => Seq::empty(),
            ShadowDataValue::Array(items) => items@,
            ShadowDataValue::Object(m) => m.items@,
        }
    }

    /// The two nodes are alike but for their children and their text: they
    /// have the same rule and parent, are of the same kind, and as objects
    /// have the same keys.
    pub open spec fn same_frame(&self, other: ShadowData) -> bool {
        &&& self.id == other.id
        &&& self.parent == other.parent
        &&& match (self.v, other.v) {
            (ShadowDataValue::String(_), ShadowDataValue::String(_)) => true,
            (ShadowDataValue::Array(_), ShadowDataValue::Array(_)) => true,
            (ShadowDataValue::Object(m), ShadowDataValue::Object(n)) => m.index == n.index,
            _ => false,
        }
    }

    /// A string node.
    pub fn new_string(id: Option<usize>, parent: Option<usize>, v: String) -> (data: ShadowData)
        ensures
            data.wf(),
            data@ == (DataView { id, parent, v: ValueView::String(v@) }),
    {
        ShadowData { id, parent, v: ShadowDataValue::String(v) }
    }

    /// An array node without elements.
    pub fn new_array(id: Option<usize>, parent: Option<usize>) -> (data: ShadowData)
        ensures
            data.wf(),
            data@ == (DataView { id, parent, v: ValueView::Array(Seq::empty()) }),
    {
        let data = ShadowData { id, parent, v: ShadowDataValue::Array(Vec::new()) };
        assert(data@.v->Array_0 =~= Seq::empty());
        data
    }

    /// An object node without fields.
    pub fn new_object(id: Option<usize>, parent: Option<usize>) -> (data: ShadowData)
        ensures
            data.wf(),
            data@ == (DataView { id, parent, v: ValueView::Object(Seq::empty()) }),
    {
        let data = ShadowData { id, parent, v: ShadowDataValue::Object(ShadowMap::new()) };
        assert(data@.v->Object_0 =~= Seq::empty());
        data
    }

    pub fn is_string(&self) -> (r: bool)
        ensures
            r == self@.is_string(),
    {
        match &self.v {
            ShadowDataValue::String(_) => true,
            _ => false,
        }
    }

    pub fn is_array(&self) -> (r: bool)
        ensures
            r == self@.is_array(),
    {
        match &self.v {
            ShadowDataValue::Array(_) => true,
            _ => false,
        }
    }

    pub fn is_object(&self) -> (r: bool)
        ensures
            r == self@.is_object(),
    {
        match &self.v {
            ShadowDataValue::Object(_) => true,
            _ => false,
        }
    }

    /// The value of the field `key` of an object, if it has such a field.
    pub fn get(&self, key: &str) -> (value: Option<&ShadowData>)
        requires
            self.wf(),
            self@.is_object(),
        ensures
            match value {
                Some(d) => field_value(self@.fields(), key@) == Some(d@) && d.wf(),
                None => field_value(self@.fields(), key@) is None,
            },
    {
        match &self.v {
            ShadowDataValue::Object(m) => {
                proof {
                    lemma_fields_keys(*m);
                    lemma_view_object(*self);
                }
                match m.find(key) {
                    Some(i) => Some(m.item(i)),
                    None => None,
                }
            },
            _ => None,
        }
    }

    /// Writes `val` at the field `key` of an object. A new key is added
    /// last. Where the key exists and both values are objects, the fields of
    /// `val` are merged into the existing object; in every other case `val`
    /// replaces the existing value.
    pub fn set(&mut self, key: &str, val: ShadowData)
        requires
            old(self).wf(),
            old(self)@.is_object(),
            val.wf(),
        ensures
            final(self).wf(),
            final(self)@ == (DataView {
                id: old(self)@.id,
                parent: old(self)@.parent,
                v: ValueView::Object(with_field(old(self)@.fields(), key@, val@)),
            }),
    {
        proof {
            lemma_view_object(*self);
        }
        match &mut self.v {
            ShadowDataValue::Object(m) => {
                set_field(m, key, val);
            },
            _ => {},
        }
        proof {
            lemma_view_object(*self);
        }
    }

    /// Adds `val` as the last element of an array.
    pub fn push(&mut self, val: ShadowData)
        requires
            old(self).wf(),
            old(self)@.is_array(),
            val.wf(),
        ensures
            final(self).wf(),
            final(self)@ == (DataView {
                id: old(self)@.id,
                parent: old(self)@.parent,
                v: ValueView::Array(old(self)@.elements().push(val@)),
            }),
    {
        match &mut self.v {
            ShadowDataValue::Array(items) => {
                items.push(val);
            },
            _ => {},
        }
        assert(self@.elements() =~= old(self)@.elements().push(val@));
    }

    /// Makes sure that there is an object to write to: an array gets a new
    /// empty object as its last element, made by the rule that made the array
    /// and with the array as its parent, and the place of that element is
    /// returned; an object is left as it is.
    pub fn force_object(&mut self) -> (place: Option<usize>)
        requires
            old(self).wf(),
            !old(self)@.is_string(),
        ensures
            final(self).wf(),
            match old(self)@.v {
                ValueView::Array(items) => {
                    &&& place == Some(items.len() as usize)
                    &&& final(self)@ == (DataView {
                        id: old(self)@.id,
                        parent: old(self)@.parent,
                        v: ValueView::Array(
                            items.push(
                                DataView {
                                    id: old(self)@.id,
                                    parent: Some(1usize),
                                    v: ValueView::Object(Seq::empty()),
                                },
                            ),
                        ),
                    })
                },
                _ => place is None && final(self)@ == old(self)@,
            },
    {
        let id = self.id;
        match &mut self.v {
            ShadowDataValue::Array(items) => {
                let n: usize = items.len();
                items.push(ShadowData::new_object(id, Some(1)));
                assert(self@.elements() =~= old(self)@.elements().push(
                    DataView { id, parent: Some(1usize), v: ValueView::Object(Seq::empty()) },
                ));
                Some(n)
            },
            _ => None,
        }
    }

    /// The text of a string node.
    pub fn as_string(&self) -> (s: Option<&String>)
        ensures
            match s {
                Some(text) => self@.v == ValueView::String(text@),
                None => !self@.is_string(),
            },
    {
        match &self.v {
            ShadowDataValue::String(s) => Some(s),
            _ => None,
        }
    }

    /// The elements of an array node.
    pub fn as_array(&self) -> (a: Option<&Vec<ShadowData>>)
        ensures
            match a {
                Some(items) => self.v == ShadowDataValue::Array(*items),
                None => !self@.is_array(),
            },
    {
        match &self.v {
            ShadowDataValue::Array(items) => Some(items),
            _ => None,
        }
    }

    /// The fields of an object node.
    pub fn as_object(&self) -> (o: Option<&ShadowMap<ShadowData>>)
        ensures
            match o {
                Some(m) => self.v == ShadowDataValue::Object(*m) && self@.fields() == fields_of(*m),
                None => !self@.is_object(),
            },
    {
        match &self.v {
            ShadowDataValue::Object(m) => {
                proof {
                    lemma_view_object(*self);
                }
                Some(m)
            },
            _ => None,
        }
    }

    /// The elements of an array node, to be changed in place.
    pub fn as_array_mut(&mut self) -> (a: Option<&mut Vec<ShadowData>>)
        ensures
            match a {
                Some(items) => {
                    &&& old(self).v == ShadowDataValue::Array(*items)
                    &&& *final(self) == (ShadowData {
                        id: old(self).id,
                        parent: old(self).parent,
                        v: ShadowDataValue::Array(*final(items)),
                    })
                },
                None => !old(self)@.is_array() && *final(self) == *old(self),
            },
    {
        match &mut self.v {
            ShadowDataValue::Array(items) => Some(items),
            _ => None,
        }
    }

    /// The fields of an object node, to be changed in place.
    pub fn as_object_mut(&mut self) -> (o: Option<&mut ShadowMap<ShadowData>>)
        ensures
            match o {
                Some(m) => {
                    &&& old(self).v == ShadowDataValue::Object(*m)
                    &&& *final(self) == (ShadowData {
                        id: old(self).id,
                        parent: old(self).parent,
                        v: ShadowDataValue::Object(*final(m)),
                    })
                },
                None => !old(self)@.is_object() && *final(self) == *old(self),
            },
    {
        match &mut self.v {
            ShadowDataValue::Object(m) => Some(m),
            _ => None,
        }
    }

    /// The value as compact JSON text.
    pub fn to_string(&self) -> (text: String)
        requires
            self.wf(),
        ensures
            text@ == json_of(self@),
        decreases self,
    {
        match &self.v {
            ShadowDataValue::String(s) => json_quote(s.as_str()),
            ShadowDataValue::Array(items) => {
                let mut out = String::from_str("[");
                let n: usize = items.len();
                let mut i: usize = 0;
                assert(self@.elements().take(0) =~= Seq::empty());
                while i < n
                    invariant
                        self.wf(),
                        self.v == ShadowDataValue::Array(*items),
                        n == items@.len(),
                        0 <= i <= n,
                        out@ == "["@ + json_elements(self@.elements().take(i as int)),
                    decreases n - i,
                {
                    let ghost done = self@.elements().take(i as int);
                    let ghost next = self@.elements().take(i + 1);
                    proof {
                        assert(next.drop_last() =~= done);
                        assert(next.last() == items@[i as int]@);
                    }
                    if i > 0 {
                        out.append(",");
                    }
                    let t = items[i].to_string();
                    out.append(t.as_str());
                    proof {
                        if i == 0 {
                            assert(done =~= Seq::empty());
                            assert(out@ =~= "["@ + json_elements(next));
                        } else {
                            assert(out@ =~= "["@ + json_elements(next));
                        }
                    }
                    i = i + 1;
                }
                assert(self@.elements().take(n as int) =~= self@.elements());
                out.append("]");
                out
            },
            ShadowDataValue::Object(m) => {
                let mut out = String::from_str("{");
                let n: usize = m.len();
                let mut i: usize = 0;
                proof {
                    lemma_view_object(*self);
                }
                assert(self@.fields().take(0) =~= Seq::empty());
                while i < n
                    invariant
                        self.wf(),
                        self.v == ShadowDataValue::Object(*m),
                        self@.fields() == fields_of(*m),
                        n == m.items@.len(),
                        0 <= i <= n,
                        out@ == "{"@ + json_fields(self@.fields().take(i as int)),
                    decreases n - i,
                {
                    let ghost done = self@.fields().take(i as int);
                    let ghost next = self@.fields().take(i + 1);
                    proof {
                        assert(next.drop_last() =~= done);
                        assert(next.last() == (m.keys()[i as int], m.items@[i as int]@));
                    }
                    if i > 0 {
                        out.append(",");
                    }
                    out.append("\"");
                    out.append(m.key(i).as_str());
                    out.append("\":");
                    let t = m.item(i).to_string();
                    out.append(t.as_str());
                    proof {
                        let field = json_field(next.last().0, next.last().1);
                        assert(field =~= "\""@ + m.keys()[i as int] + "\":"@ + t@);
                        if i == 0 {
                            assert(done =~= Seq::empty());
                            assert(json_fields(next) == field);
                            assert(out@ =~= "{"@ + field);
                        } else {
                            assert(json_fields(next) == json_fields(done) + ","@ + field);
                            assert(out@ =~= "{"@ + (json_fields(done) + ","@ + field));
                        }
                    }
                    i = i + 1;
                }
                assert(self@.fields().take(n as int) =~= self@.fields());
                out.append("}");
                out
            },
        }
    }

    /// The place of the field `key` of an object, if it has such a field.
    pub fn place(&self, key: &str) -> (place: Option<usize>)
        requires
            self.wf(),
            self@.is_object(),
        ensures
            match place {
                Some(i) => field_place(self@.fields(), key@) == Some(i as int) && i
                    < self@.fields().len(),
                None => field_place(self@.fields(), key@) is None,
            },
    {
        match &self.v {
            ShadowDataValue::Object(m) => {
                proof {
                    lemma_fields_keys(*m);
                    lemma_view_object(*self);
                }
                m.find(key)
            },
            _ => None,
        }
    }

    /// The number of children: of the elements of an array, of the fields of
    /// an object; a string has none.
    pub fn len(&self) -> (n: usize)
        ensures
            n == match self@.v {
                ValueView::String(_) => 0,
                ValueView::Array(items) => items.len(),
                ValueView::Object(fields) => fields.len(),
            },
    {
        match &self.v {
            ShadowDataValue::String(_) => 0,
            ShadowDataValue::Array(items) => items.len(),
            ShadowDataValue::Object(m) => m.len(),
        }
    }

    /// The child at place `i`.
    pub fn child(&self, i: usize) -> (c: &ShadowData)
        requires
            self.wf(),
            child_at(self@, i as int) is Some,
        ensures
            c.wf(),
            Some(c@) == child_at(self@, i as int),
    {
        match &self.v {
            ShadowDataValue::Array(items) => &items[i],
            ShadowDataValue::Object(m) => m.item(i),
            ShadowDataValue::String(_) => self,
        }
    }

    /// The child at place `i`, to be changed in place.
    pub fn child_mut(&mut self, i: usize) -> (c: &mut ShadowData)
        requires
            old(self).wf(),
            child_at(old(self)@, i as int) is Some,
        ensures
            c.wf(),
            Some(c@) == child_at(old(self)@, i as int),
            *c == old(self).nodes()[i as int],
            final(self)@ == with_child_at(old(self)@, i as int, final(c)@),
            final(c).wf() ==> final(self).wf(),
            final(self).same_frame(*old(self)),
            final(self).nodes() == old(self).nodes().update(i as int, *final(c)),
    {
        proof {
            let a = *self;
            assert forall|b: ShadowData, c: ShadowData|
                a.v is Array && b.v is Array && a.id == b.id && a.parent == b.parent
                    && b.v->Array_0@ == a.v->Array_0@.update(i as int, c) implies #[trigger] value_of(
                b,
            ) == with_child_at(a@, i as int, #[trigger] value_of(c)) && (c.wf() ==> b.wf()) by {
                lemma_array_child(a, b, i as int, c);
            }
            assert forall|b: ShadowData, c: ShadowData|
                a.v is Object && b.v is Object && a.id == b.id && a.parent == b.parent
                    && b.v->Object_0.items@ == a.v->Object_0.items@.update(i as int, c)
                    && b.v->Object_0.index == a.v->Object_0.index implies #[trigger] value_of(b)
                == with_child_at(a@, i as int, #[trigger] value_of(c)) && (c.wf() ==> b.wf()) by {
                lemma_object_child(a, b, i as int, c);
            }
        }
        if let ShadowDataValue::String(_) = &self.v {
            return self;
        }
        match &mut self.v {
            ShadowDataValue::Array(items) => &mut items[i],
            ShadowDataValue::Object(m) => m.item_mut(i),
            ShadowDataValue::String(_) => unreached(),
        }
    }

    /// Rewrites the text of every string in the tree with `f`. Nothing else
    /// changes.
    pub fn transform_strings<F: Fn(String) -> String>(&mut self, f: &F)
        requires
            old(self).wf(),
            forall|s: String| call_requires(*f, (s,)),
        ensures
            final(self).wf(),
            data_rewritten(*f, *old(self), *final(self)),
        decreases *old(self),
    {
        match &mut self.v {
            ShadowDataValue::String(s) => {
                let mut text = String::new();
                std::mem::swap(s, &mut text);
                *s = f(text);
                return ;
            },
            _ => {},
        }
        let n: usize = self.len();
        let mut i: usize = 0;
        proof {
            lemma_children(*self);
        }
        while i < n
            invariant
                forall|s: String| call_requires(*f, (s,)),
                self.wf(),
                !(old(self).v is String),
                self.same_frame(*old(self)),
                n == old(self).nodes().len(),
                n == self.nodes().len(),
                0 <= i <= n,
                forall|j: int|
                    0 <= j < i ==> data_rewritten(*f, #[trigger] old(self).nodes()[j], self.nodes()[j]),
                forall|j: int| i <= j < n ==> self.nodes()[j] == old(self).nodes()[j],
            decreases n - i,
        {
            proof {
                lemma_children(*self);
                assert(self.nodes()[i as int] == old(self).nodes()[i as int]);
                lemma_child_smaller(*old(self), i as int);
            }
            let child = self.child_mut(i);
            child.transform_strings(f);
            i = i + 1;
        }
    }

    /// Merges the fields of `map2` into `map1`, one by one in their order.
    pub fn merge(map1: &mut ShadowMap<ShadowData>, map2: ShadowMap<ShadowData>)
        requires
            fields_wf(*old(map1)),
            fields_wf(map2),
        ensures
            fields_wf(*final(map1)),
            fields_of(*final(map1)) == merged(fields_of(*old(map1)), fields_of(map2)),
    {
        merge_fields(map1, map2)
    }
}

/// The node `b` is the node `a` with the text of each of its strings
/// rewritten by `f`.
pub open spec fn data_rewritten<F: Fn(String) -> String>(f: F, a: ShadowData, b: ShadowData) -> bool
    decreases a,
{
    &&& b.same_frame(a)
    &&& match (a.v, b.v) {
        (ShadowDataValue::String(x), ShadowDataValue::String(y)) => call_ensures(f, (x,), y),
        _ => {
            &&& a.nodes().len() == b.nodes().len()
            &&& forall|i: int|
                0 <= i < a.nodes().len() ==> data_rewritten(f, #[trigger] a.nodes()[i], b.nodes()[i])
        },
    }
}

/// An array or an object has a child at each place below the number of its
/// children.
pub proof fn lemma_children(d: ShadowData)
    ensures
        forall|i: int| 0 <= i < d.nodes().len() ==> child_at(d@, i) is Some,
        d.v is String ==> d.nodes().len() == 0,
{
    if d.v is Object {
        lemma_view_object(d);
    }
}

/// A child of a node is smaller than the node.
pub proof fn lemma_child_smaller(d: ShadowData, i: int)
    requires
        0 <= i < d.nodes().len(),
    ensures
        decreases_to!(d => d.nodes()[i]),
{
    match d.v {
        ShadowDataValue::String(_) => {},
        ShadowDataValue::Array(items) => {
            assert(decreases_to!(d => d.v));
            assert(decreases_to!(d.v => d.v->Array_0));
            assert(decreases_to!(items => items[i]));
        },
        ShadowDataValue::Object(m) => {
            assert(decreases_to!(d => d.v));
            assert(decreases_to!(d.v => d.v->Object_0));
            assert(decreases_to!(m => m.items));
            assert(decreases_to!(m.items => m.items[i]));
        },
    }
}

impl Default for ShadowData {
    /// The empty string, made by no rule and without a parent.
    fn default() -> (data: ShadowData)
        ensures
            data.wf(),
            data@ == (DataView { id: None, parent: None, v: ValueView::String(Seq::empty()) }),
    {
        ShadowData { id: None, parent: None, v: ShadowDataValue::String(String::new()) }
    }
}

/// The fields that a map of nodes stands for.
pub open spec fn fields_of(m: ShadowMap<ShadowData>) -> Seq<(Seq<char>, DataView)> {
    Seq::new(
        m.items.len() as nat,
        |i: int|
            if 0 <= i < m.items.len() {
                (key_slots(m.index)[i].0, m.items[i]@)
            } else {
                arbitrary()
            },
    )
}

/// The map is well formed, and so is each of its values.
pub open spec fn fields_wf(m: ShadowMap<ShadowData>) -> bool {
    &&& m.wf()
    &&& forall|i: int| 0 <= i < m.items.len() ==> (#[trigger] m.items[i]).wf()
}

/// What writing a field does to the keys of an object: a key that exists
/// keeps its place and holds the combination of the older and the newer
/// value; a new key stands last with the newer value. No other field changes.
pub proof fn lemma_with_field(fields: Seq<(Seq<char>, DataView)>, key: Seq<char>, value: DataView)
    requires
        field_keys(fields).no_duplicates(),
    ensures
        field_keys(with_field(fields, key, value)).no_duplicates(),
        match field_place(fields, key) {
            Some(i) => {
                &&& 0 <= i < fields.len()
                &&& fields[i].0 == key
                &&& with_field(fields, key, value) == fields.update(
                    i,
                    (key, combined(fields[i].1, value)),
                )
                &&& field_place(with_field(fields, key, value), key) == Some(i)
                &&& field_keys(with_field(fields, key, value)) == field_keys(fields)
            },
            None => {
                &&& with_field(fields, key, value) == fields.push((key, value))
                &&& field_place(with_field(fields, key, value), key) == Some(fields.len() as int)
                &&& field_keys(with_field(fields, key, value)) == field_keys(fields).push(key)
            },
        },
{
    let keys = field_keys(fields);
    let after = with_field(fields, key, value);
    match field_place(fields, key) {
        Some(i) => {
            assert(keys.contains(key));
            assert(keys[i] == key);
            assert(field_keys(after) =~= keys);
            lemma_place_of(keys, i);
        },
        None => {
            assert(field_keys(after) =~= keys.push(key));
            assert forall|a: int, b: int|
                0 <= a < keys.len() + 1 && 0 <= b < keys.len() + 1 && a != b implies keys.push(
                key,
            )[a] != keys.push(key)[b] by {
                if a < keys.len() && b < keys.len() {
                } else if a < keys.len() {
                    assert(keys.contains(keys[a]));
                } else {
                    assert(keys.contains(keys[b]));
                }
            }
            assert(keys.push(key)[keys.len() as int] == key);
            lemma_place_of(keys.push(key), keys.len() as int);
        },
    }
}

/// The merge law, first half: fields whose keys are all new are added behind
/// the fields that were there, so that the result is the union of the two.
pub proof fn lemma_merge_union(a: Seq<(Seq<char>, DataView)>, b: Seq<(Seq<char>, DataView)>)
    requires
        field_keys(b).no_duplicates(),
        forall|i: int| 0 <= i < b.len() ==> !field_keys(a).contains(#[trigger] b[i].0),
    ensures
        merged(a, b) == a + b,
    decreases b.len(),
{
    if b.len() == 0 {
        assert(a + b =~= a);
    } else {
        let init = b.drop_last();
        assert(field_keys(init) =~= field_keys(b).drop_last());
        assert(field_keys(init).no_duplicates()) by {
            assert forall|x: int, y: int|
                0 <= x < init.len() && 0 <= y < init.len() && x != y implies field_keys(init)[x]
                != field_keys(init)[y] by {
                assert(field_keys(b)[x] != field_keys(b)[y]);
            }
        }
        assert forall|i: int| 0 <= i < init.len() implies !field_keys(a).contains(
            #[trigger] init[i].0,
        ) by {
            assert(init[i] == b[i]);
        }
        lemma_merge_union(a, init);
        let key = b.last().0;
        let keys = field_keys(a + init);
        assert(!keys.contains(key)) by {
            if keys.contains(key) {
                let j = choose|j: int| 0 <= j < keys.len() && keys[j] == key;
                if j < a.len() {
                    assert(field_keys(a)[j] == key);
                    assert(b[b.len() - 1].0 == key);
                } else {
                    assert(field_keys(b)[j - a.len()] == key);
                    assert(field_keys(b)[b.len() - 1] == key);
                }
            }
        }
        assert(field_place(a + init, key) is None);
        assert(merged(a, b) == with_field(merged(a, init), key, b.last().1));
        assert((a + init).push(b.last()) =~= a + b);
    }
}

/// The merge law for one key: writing an object and then another object at
/// a key that was free leaves one object there, which has the rule and the
/// parent of the first and the fields of both: those of the second merged
/// into those of the first.
pub proof fn lemma_set_merges(
    fields: Seq<(Seq<char>, DataView)>,
    key: Seq<char>,
    first: DataView,
    second: DataView,
)
    requires
        field_keys(fields).no_duplicates(),
        field_place(fields, key) is None,
        first.is_object(),
        second.is_object(),
    ensures
        field_value(with_field(with_field(fields, key, first), key, second), key) == Some(
            DataView {
                id: first.id,
                parent: first.parent,
                v: ValueView::Object(merged(first.fields(), second.fields())),
            },
        ),
        with_field(with_field(fields, key, first), key, second).len() == fields.len() + 1,
{
    lemma_with_field(fields, key, first);
    let once = with_field(fields, key, first);
    lemma_with_field(once, key, second);
}

/// The merge law, second half: where the older or the newer value is not an
/// object, the newer value replaces the older one wholly.
pub proof fn lemma_set_replaces(
    fields: Seq<(Seq<char>, DataView)>,
    key: Seq<char>,
    first: DataView,
    second: DataView,
)
    requires
        field_keys(fields).no_duplicates(),
        !(first.is_object() && second.is_object()),
    ensures
        field_value(with_field(with_field(fields, key, first), key, second), key) == Some(second),
{
    lemma_with_field(fields, key, first);
    let once = with_field(fields, key, first);
    lemma_with_field(once, key, second);
    let i = field_place(once, key)->0;
    assert(once[i].1 == first || !once[i].1.is_object() || !second.is_object()) by {
        match field_place(fields, key) {
            Some(j) => {
                if second.is_object() {
                    assert(!first.is_object());
                    assert(combined(fields[j].1, first) == first);
                }
            },
            None => {},
        }
    }
}

/// The fields `fields` hold no key twice, and each value is well formed.
pub open spec fn fields_ok(fields: Seq<(Seq<char>, DataView)>) -> bool {
    &&& field_keys(fields).no_duplicates()
    &&& forall|i: int| 0 <= i < fields.len() ==> (#[trigger] fields[i]).1.wf()
}

/// Combining two well-formed values gives a well-formed value.
pub proof fn lemma_combined_wf(older: DataView, newer: DataView)
    requires
        older.wf(),
        newer.wf(),
    ensures
        combined(older, newer).wf(),
    decreases newer, 0nat,
{
    match (older.v, newer.v) {
        (ValueView::Object(a), ValueView::Object(b)) => {
            lemma_merged_wf(a, b);
        },
        _ => {},
    }
}

/// Writing a well-formed value into well-formed fields gives well-formed
/// fields.
pub proof fn lemma_with_field_wf(
    fields: Seq<(Seq<char>, DataView)>,
    key: Seq<char>,
    value: DataView,
)
    requires
        fields_ok(fields),
        value.wf(),
    ensures
        fields_ok(with_field(fields, key, value)),
    decreases value, 1nat,
{
    lemma_with_field(fields, key, value);
    let after = with_field(fields, key, value);
    match field_place(fields, key) {
        Some(i) => {
            assert(fields[i].1.wf());
            lemma_combined_wf(fields[i].1, value);
            assert forall|j: int| 0 <= j < after.len() implies (#[trigger] after[j]).1.wf() by {
                if j != i {
                    assert(fields[j].1.wf());
                }
            }
        },
        None => {
            assert forall|j: int| 0 <= j < after.len() implies (#[trigger] after[j]).1.wf() by {
                if j < fields.len() {
                    assert(fields[j].1.wf());
                }
            }
        },
    }
}

/// Merging well-formed fields into well-formed fields gives well-formed
/// fields.
pub proof fn lemma_merged_wf(a: Seq<(Seq<char>, DataView)>, b: Seq<(Seq<char>, DataView)>)
    requires
        fields_ok(a),
        fields_ok(b),
    ensures
        fields_ok(merged(a, b)),
    decreases b, 2nat,
{
    if b.len() > 0 {
        assert forall|i: int| 0 <= i < b.drop_last().len() implies (#[trigger] b.drop_last()[i]).1.wf() by {
            assert(b[i].1.wf());
        }
        assert(field_keys(b.drop_last()) =~= field_keys(b).drop_last());
        assert(field_keys(b.drop_last()).no_duplicates()) by {
            let k = field_keys(b);
            assert forall|x: int, y: int|
                0 <= x < k.drop_last().len() && 0 <= y < k.drop_last().len() && x
                    != y implies k.drop_last()[x] != k.drop_last()[y] by {
                assert(k[x] != k[y]);
            }
        }
        lemma_merged_wf(a, b.drop_last());
        assert(b[b.len() - 1].1.wf());
        lemma_with_field_wf(merged(a, b.drop_last()), b.last().0, b.last().1);
    }
}

/// A node with one child replaced by a well-formed value is well formed.
pub proof fn lemma_with_child_wf(d: DataView, i: int, x: DataView)
    requires
        d.wf(),
        x.wf(),
    ensures
        with_child_at(d, i, x).wf(),
{
    let after = with_child_at(d, i, x);
    match d.v {
        ValueView::String(_) => {},
        ValueView::Array(items) => {
            if 0 <= i < items.len() {
                assert forall|j: int| 0 <= j < items.len() implies (#[trigger] after.elements()[j]).wf() by {
                    if j != i {
                        assert(items[j].wf());
                    }
                }
            }
        },
        ValueView::Object(fields) => {
            if 0 <= i < fields.len() {
                assert(field_keys(after.fields()) =~= field_keys(fields));
                assert forall|j: int| 0 <= j < fields.len() implies (#[trigger] after.fields()[j]).1.wf() by {
                    if j != i {
                        assert(fields[j].1.wf());
                    }
                }
            }
        },
    }
}

/// A child of a well-formed node is well formed.
pub proof fn lemma_child_wf(d: DataView, i: int)
    requires
        d.wf(),
        child_at(d, i) is Some,
    ensures
        child_at(d, i)->0.wf(),
{
    match d.v {
        ValueView::String(_) => {},
        ValueView::Array(items) => {
            assert(items[i].wf());
        },
        ValueView::Object(fields) => {
            assert(fields[i].1.wf());
        },
    }
}

/// The value of a well-formed node is well formed.
pub proof fn lemma_view_wf(d: ShadowData)
    requires
        d.wf(),
    ensures
        d@.wf(),
    decreases d,
{
    match d.v {
        ShadowDataValue::String(_) => {},
        ShadowDataValue::Array(items) => {
            let els = d@.v->Array_0;
            assert forall|i: int| 0 <= i < els.len() implies (#[trigger] els[i]).wf() by {
                assert(items[i].wf());
                lemma_view_wf(items[i]);
            }
        },
        ShadowDataValue::Object(m) => {
            lemma_object_keys(d);
            let fields = d@.v->Object_0;
            assert forall|i: int| 0 <= i < fields.len() implies (#[trigger] fields[i]).1.wf() by {
                assert(m.items[i].wf());
                lemma_view_wf(m.items[i]);
            }
        },
    }
}

/// The fields of a well-formed object node hold no key twice.
pub proof fn lemma_object_keys(d: ShadowData)
    requires
        d.wf(),
        d.v is Object,
    ensures
        field_keys(d@.fields()).no_duplicates(),
{
    lemma_view_object(d);
    lemma_fields_keys(d.v->Object_0);
}

/// The value of an object node is made of the fields of its map.
pub proof fn lemma_view_object(d: ShadowData)
    requires
        d.v is Object,
    ensures
        d@ == (DataView { id: d.id, parent: d.parent, v: ValueView::Object(fields_of(d.v->Object_0)) }),
{
    assert(d@.v->Object_0 =~= fields_of(d.v->Object_0));
}

/// An array whose element at place `i` is replaced stands for the value with
/// that child replaced.
proof fn lemma_array_child(a: ShadowData, b: ShadowData, i: int, c: ShadowData)
    requires
        a.v is Array,
        b.v is Array,
        a.id == b.id,
        a.parent == b.parent,
        0 <= i < a.v->Array_0@.len(),
        b.v->Array_0@ == a.v->Array_0@.update(i, c),
    ensures
        b@ == with_child_at(a@, i, c@),
        a.wf() && c.wf() ==> b.wf(),
{
    assert(b@.v->Array_0 =~= a@.v->Array_0.update(i, c@));
    if a.wf() && c.wf() {
        assert forall|j: int| 0 <= j < b.v->Array_0.len() implies (#[trigger] b.v->Array_0[j]).wf() by {
            if j != i {
                assert(a.v->Array_0[j].wf());
            }
        }
    }
}

/// An object whose value at place `i` is replaced stands for the value with
/// that child replaced.
proof fn lemma_object_child(a: ShadowData, b: ShadowData, i: int, c: ShadowData)
    requires
        a.v is Object,
        b.v is Object,
        a.id == b.id,
        a.parent == b.parent,
        0 <= i < a.v->Object_0.items@.len(),
        b.v->Object_0.items@ == a.v->Object_0.items@.update(i, c),
        b.v->Object_0.index == a.v->Object_0.index,
    ensures
        b@ == with_child_at(a@, i, c@),
        a.wf() && c.wf() ==> b.wf(),
{
    assert(b@.v->Object_0 =~= a@.v->Object_0.update(i, (a@.v->Object_0[i].0, c@)));
    if a.wf() && c.wf() {
        assert(b.v->Object_0.keys() =~= a.v->Object_0.keys());
        assert forall|j: int| 0 <= j < b.v->Object_0.items.len() implies (
        #[trigger] b.v->Object_0.items[j]).wf() by {
            if j != i {
                assert(a.v->Object_0.items[j].wf());
            }
        }
    }
}

/// The keys of the fields that a map stands for are the keys of the map.
pub proof fn lemma_fields_keys(m: ShadowMap<ShadowData>)
    ensures
        field_keys(fields_of(m)) == m.keys(),
{
    assert(field_keys(fields_of(m)) =~= m.keys());
}

fn set_field(m: &mut ShadowMap<ShadowData>, key: &str, val: ShadowData)
    requires
        fields_wf(*old(m)),
        val.wf(),
    ensures
        fields_wf(*final(m)),
        fields_of(*final(m)) == with_field(fields_of(*old(m)), key@, val@),
    decreases val, 1nat,
{
    proof {
        lemma_fields_keys(*m);
    }
    match m.find(key) {
        Some(i) => {
            let ghost before = m.items@[i as int];
            let slot = m.item_mut(i);
            let both: bool = slot.is_object() && val.is_object();
            if both {
                proof {
                    lemma_view_object(*slot);
                    lemma_view_object(val);
                }
                match &mut slot.v {
                    ShadowDataValue::Object(sm) => {
                        match val.v {
                            ShadowDataValue::Object(vm) => {
                                merge_fields(sm, vm);
                            },
                            _ => {},
                        }
                    },
                    _ => {},
                }
                proof {
                    lemma_view_object(*slot);
                }
            } else {
                *slot = val;
            }
            assert(slot@ == combined(before@, val@));
            assert(slot.wf());
            proof {
                assert(m.items@[i as int]@ == combined(before@, val@));
                assert(m.keys() =~= old(m).keys());
                assert(fields_of(*m) =~= with_field(fields_of(*old(m)), key@, val@));
            }
        },
        None => {
            m.insert(String::from_str(key), val);
            proof {
                let want = fields_of(*old(m)).push((key@, val@));
                assert(fields_of(*m).len() == want.len());
                assert forall|j: int| 0 <= j < want.len() implies fields_of(*m)[j] == want[j] by {
                    assert(m.keys()[j] == old(m).keys().push(key@)[j]);
                }
                assert(fields_of(*m) =~= want);
            }
        },
    }
}

fn merge_fields(map1: &mut ShadowMap<ShadowData>, map2: ShadowMap<ShadowData>)
    requires
        fields_wf(*old(map1)),
        fields_wf(map2),
    ensures
        fields_wf(*final(map1)),
        fields_of(*final(map1)) == merged(fields_of(*old(map1)), fields_of(map2)),
    decreases map2, 0nat,
{
    let n: usize = map2.len();
    let ghost all = fields_of(map2);
    let (keys, items) = map2.into_entries();
    let mut rest: Vec<ShadowData> = reversed(items);
    let mut i: usize = 0;
    assert(all.take(0) =~= Seq::empty());
    while i < n
        invariant
            n == map2.items@.len(),
            all == fields_of(map2),
            0 <= i <= n,
            keys@.len() == n,
            forall|j: int| 0 <= j < n ==> (#[trigger] keys@[j])@ == map2.keys()[j],
            rest@.len() == n - i,
            forall|j: int| 0 <= j < n - i ==> rest@[j] == map2.items@[n - 1 - j],
            forall|j: int| 0 <= j < n ==> (#[trigger] map2.items@[j]).wf(),
            fields_wf(*map1),
            fields_of(*map1) == merged(fields_of(*old(map1)), all.take(i as int)),
        decreases n - i,
    {
        let value = rest.pop().unwrap();
        assert(value == map2.items@[i as int]);
        proof {
            let next = all.take(i + 1);
            assert(next.drop_last() =~= all.take(i as int));
            assert(next.last() == (keys@[i as int]@, value@));
        }
        set_field(map1, keys[i].as_str(), value);
        i = i + 1;
    }
    assert(all.take(n as int) =~= all);
}

/// The elements of `v` in the opposite order.
fn reversed(v: Vec<ShadowData>) -> (r: Vec<ShadowData>)
    ensures
        r@.len() == v@.len(),
        forall|j: int| 0 <= j < v@.len() ==> r@[j] == v@[v@.len() - 1 - j],
{
    let mut v = v;
    let mut r: Vec<ShadowData> = Vec::new();
    let ghost all = v@;
    while v.len() > 0
        invariant
            v@.len() + r@.len() == all.len(),
            forall|j: int| 0 <= j < v@.len() ==> v@[j] == all[j],
            forall|j: int| 0 <= j < r@.len() ==> r@[j] == all[all.len() - 1 - j],
        decreases v@.len(),
    {
        let x = v.pop().unwrap();
        r.push(x);
    }
    r
}

}
