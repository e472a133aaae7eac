//! The compiler: it walks the tree of rules once and lists, for each rule
//! that needs one, a handler with the selector that finds its elements
//! wherever they stand in the document.

use vstd::prelude::*;
use vstd::string::*;
use lol_html::Selector;
use crate::shadow_api::element_handler::values_message;

use crate::shadow_api::shadow_json::{ShadowJson, ShadowJsonValueSource};
use crate::shadow_api::shadow_map::ShadowMap;
use crate::shadow_api::text::texts;
use crate::shadow_api::{report, ShadowApi};

verus! {

/// What parsing a selector gives: `None` for a selector that the engine
/// takes, and for one that it refuses, the text of the error.
pub uninterp spec fn selector_fault(selector: Seq<char>) -> Option<Seq<char>>;

/// Calls `Selector::from_str` of lol_html, by way of `str::parse`. It parses
/// a selector and checks that the engine supports each part of it; the error
/// is handed out as its text.
#[verifier::external_body]
fn check_selector(selector: &str) -> (fault: Option<String>)
    ensures
        match fault {
            Some(message) => selector_fault(selector@) == Some(message@),
            None => selector_fault(selector@) is None,
        },
{
    match selector.parse::<Selector>() {
        Ok(_) => None,
        Err(e) => Some(e.to_string()),
    }
}

/// What a handler is called for.
#[derive(Debug, Clone, Copy, PartialEq, Eq, Structural)]
pub enum HandlerKind {
    /// The start of a matched element.
    Element,
    /// A chunk of text inside a matched element.
    Text,
    /// The element whose end takes the collected values.
    Data,
}

/// One handler for the engine to register.
#[derive(Debug)]
pub struct ShadowHandler {
    /// The selector of the elements that the handler is called for, from the
    /// root of the document.
    pub selector: String,
    /// The number of the rule.
    pub selector_id: usize,
    pub kind: HandlerKind,
    /// Where the rule stands in the tree of rules: its place among the top
    /// rules, then the place of each rule on the way down among the rules
    /// inside the one before.
    pub rule: Vec<usize>,
}

/// The mathematical value of a handler.
pub struct HandlerView {
    pub selector: Seq<char>,
    pub selector_id: usize,
    pub kind: HandlerKind,
    pub rule: Seq<usize>,
}

impl View for ShadowHandler {
    type V = HandlerView;

    open spec fn view(&self) -> HandlerView {
        HandlerView {
            selector: self.selector@,
            selector_id: self.selector_id,
            kind: self.kind,
            rule: self.rule@,
        }
    }
}

/// The handlers that a list stands for.
pub open spec fn handler_views(handlers: Seq<ShadowHandler>) -> Seq<HandlerView> {
    Seq::new(handlers.len(), |i: int| handlers[i]@)
}

/// Where compiling stands: the handlers listed so far, the errors, and the
/// number that the next rule gets.
pub struct Compiled {
    pub handlers: Seq<HandlerView>,
    pub errors: Seq<Seq<char>>,
    pub next_id: usize,
}

impl Compiled {
    /// The state with one more error.
    pub open spec fn fail(self, message: Seq<char>) -> Compiled {
        Compiled { errors: self.errors.push(message), ..self }
    }

    /// The state with one more handler.
    pub open spec fn list(self, handler: HandlerView) -> Compiled {
        Compiled { handlers: self.handlers.push(handler), ..self }
    }
}

/// The texts of `parts` joined by single spaces.
pub open spec fn joined(parts: Seq<Seq<char>>) -> Seq<char>
    decreases parts.len(),
{
    if parts.len() == 0 {
        Seq::empty()
    } else if parts.len() == 1 {
        parts[0]
    } else {
        joined(parts.drop_last()) + " "@ + parts.last()
    }
}

/// The message for a rule without a selector.
pub open spec fn empty_selector_message() -> Seq<char> {
    "Empty selector"@
}

/// The message for a selector that the engine refuses.
pub open spec fn selector_message(selector: Seq<char>, fault: Seq<char>) -> Seq<char> {
    "Selector "@ + selector + " is invalid : "@ + fault
}

/// The message for a rule that cannot be numbered.
pub open spec fn numbering_message() -> Seq<char> {
    "Too many rules"@
}

/// Whether a list of snippets holds a snippet.
pub open spec fn has_snippets(list: Option<Vec<String>>) -> bool {
    match list {
        Some(v) => v@.len() > 0,
        None => false,
    }
}

/// Whether one of the first `upto` values has the text of the element as its
/// source.
pub open spec fn reads_text(values: ShadowMap<ShadowJsonValueSource>, upto: int) -> bool {
    exists|i: int| 0 <= i < upto && #[trigger] values.items@[i] is Contents
}

/// Whether one of the first `upto` values has the element itself as its
/// source: an attribute or the form value.
pub open spec fn reads_element(values: ShadowMap<ShadowJsonValueSource>, upto: int) -> bool {
    exists|i: int| 0 <= i < upto && !(#[trigger] values.items@[i] is Contents)
}

/// Whether the values of the rule are there but empty.
pub open spec fn values_empty(rule: ShadowJson) -> bool {
    match rule.data {
        Some(data) => match data.values {
            Some(values) => values.items@.len() == 0,
            None => false,
        },
        None => false,
    }
}

/// Whether the rule needs a handler for its elements: it hides, inserts,
/// edits or deletes, its data block has a path that is not empty, or it
/// collects a value from the element itself.
pub open spec fn needs_element(rule: ShadowJson) -> bool {
    ||| rule.hide == Some(true)
    ||| has_snippets(rule.insert_after)
    ||| has_snippets(rule.insert_before)
    ||| has_snippets(rule.append)
    ||| has_snippets(rule.prepend)
    ||| rule.edit is Some
    ||| rule.delete == Some(true)
    ||| match rule.data {
        Some(data) => {
            ||| match data.path {
                Some(p) => p@.len() > 0,
                None => false,
            }
            ||| match data.values {
                Some(values) => reads_element(values, values.items@.len() as int),
                None => false,
            }
        },
        None => false,
    }
}

/// Whether the rule needs a handler for the text of its elements: it edits
/// the text, or it collects it.
pub open spec fn needs_text(rule: ShadowJson) -> bool {
    ||| match rule.edit {
        Some(edit) => edit.content is Some,
        None => false,
    }
    ||| match rule.data {
        Some(data) => match data.values {
            Some(values) => reads_text(values, values.items@.len() as int),
            None => false,
        },
        None => false,
    }
}

/// The state after the handlers of the rule `rule` are listed, for a rule
/// whose selector from the root is `selector` and that stands at `address`.
/// A rule whose values are empty gets an error and no handler. Otherwise the
/// handler for the elements comes first, then the one for the text, each
/// where the rule needs it. The rule takes the next number.
pub open spec fn registered(
    st: Compiled,
    rule: ShadowJson,
    selector: Seq<char>,
    address: Seq<usize>,
) -> Compiled {
    let id = st.next_id;
    let next = Compiled { next_id: (id + 1) as usize, ..st };
    if values_empty(rule) {
        next.fail(values_message())
    } else {
        let a = if needs_element(rule) {
            next.list(
                HandlerView { selector, selector_id: id, kind: HandlerKind::Element, rule: address },
            )
        } else {
            next
        };
        if needs_text(rule) {
            a.list(HandlerView { selector, selector_id: id, kind: HandlerKind::Text, rule: address })
        } else {
            a
        }
    }
}

/// The state after the rule `rule` itself is compiled, for a rule with a
/// selector. The selector of the rule from the root is its own selector
/// behind those of the rules around it, joined by spaces. A selector that the
/// engine refuses is an error, and so is a rule for which no number is left;
/// such a rule gets no handler.
pub open spec fn compiled_own(
    st: Compiled,
    rule: ShadowJson,
    stack: Seq<Seq<char>>,
    address: Seq<usize>,
) -> Compiled {
    let selector = joined(stack.push(rule.s@));
    match selector_fault(selector) {
        Some(fault) => st.fail(selector_message(selector, fault)),
        None => if st.next_id == usize::MAX {
            st.fail(numbering_message())
        } else {
            registered(st, rule, selector, address)
        },
    }
}

/// The state after the rule `rule` and the rules inside it are compiled.
/// `stack` holds the selectors of the rules around it, from the outermost
/// in, and `address` is where the rule stands in the tree.
///
/// A rule without a selector is an error, and nothing inside it is compiled.
/// Any other rule is compiled itself, and then the rules inside it, whether
/// or not the rule itself got a handler.
pub open spec fn compiled_one(
    st: Compiled,
    rule: ShadowJson,
    stack: Seq<Seq<char>>,
    address: Seq<usize>,
) -> Compiled
    decreases rule, 0int,
{
    if rule.s@.len() == 0 {
        st.fail(empty_selector_message())
    } else {
        let own = compiled_own(st, rule, stack, address);
        match rule.sub {
            Some(sub) => compiled_all(own, sub, stack.push(rule.s@), address, sub.len() as int),
            None => own,
        }
    }
}

/// The state after the first `upto` rules of `rules` are compiled, in their
/// order. `address` is where the rule stands that holds them.
pub open spec fn compiled_all(
    st: Compiled,
    rules: Vec<ShadowJson>,
    stack: Seq<Seq<char>>,
    address: Seq<usize>,
    upto: int,
) -> Compiled
    decreases rules, upto,
{
    if upto <= 0 || upto > rules.len() {
        st
    } else {
        compiled_one(
            compiled_all(st, rules, stack, address, upto - 1),
            rules[upto - 1],
            stack,
            address.push((upto - 1) as usize),
        )
    }
}

/// The state that the values of a compiler at work stand for.
pub open spec fn compile_state(
    ech: Vec<ShadowHandler>,
    errors: Vec<String>,
    next_id: usize,
) -> Compiled {
    Compiled { handlers: handler_views(ech@), errors: texts(errors@), next_id }
}

/// Adds a handler to the list.
fn enlist(ech: &mut Vec<ShadowHandler>, handler: ShadowHandler)
    ensures
        handler_views(final(ech)@) == handler_views(old(ech)@).push(handler@),
{
    ech.push(handler);
    assert(handler_views(ech@) =~= handler_views(old(ech)@).push(handler@));
}

/// A copy of an address.
fn copy_places(places: &Vec<usize>) -> (copy: Vec<usize>)
    ensures
        copy@ == places@,
{
    let mut copy: Vec<usize> = Vec::new();
    let n: usize = places.len();
    let mut i: usize = 0;
    while i < n
        invariant
            n == places@.len(),
            0 <= i <= n,
            copy@ == places@.take(i as int),
        decreases n - i,
    {
        copy.push(places[i]);
        assert(copy@ =~= places@.take(i + 1));
        i = i + 1;
    }
    assert(places@.take(n as int) =~= places@);
    copy
}

/// The selectors of `stack` joined by single spaces.
fn join_selectors(stack: &Vec<String>) -> (selector: String)
    ensures
        selector@ == joined(texts(stack@)),
{
    let mut selector = String::new();
    let n: usize = stack.len();
    let mut i: usize = 0;
    assert(texts(stack@).take(0) =~= Seq::<Seq<char>>::empty());
    while i < n
        invariant
            n == stack@.len(),
            0 <= i <= n,
            selector@ == joined(texts(stack@).take(i as int)),
        decreases n - i,
    {
        let ghost done = texts(stack@).take(i as int);
        let ghost next = texts(stack@).take(i + 1);
        proof {
            assert(next.drop_last() =~= done);
            assert(next.last() == stack@[i as int]@);
        }
        if i > 0 {
            selector.append(" ");
        }
        selector.append(stack[i].as_str());
        proof {
            if i == 0 {
                assert(selector@ =~= next[0]);
            } else {
                assert(selector@ =~= joined(done) + " "@ + next.last());
            }
        }
        i = i + 1;
    }
    assert(texts(stack@).take(n as int) =~= texts(stack@));
    selector
}

/// Whether one of the values has the text of the element as its source, and
/// whether one has the element itself.
fn value_kinds(values: &ShadowMap<ShadowJsonValueSource>) -> (kinds: (bool, bool))
    ensures
        kinds.0 == reads_text(*values, values.items@.len() as int),
        kinds.1 == reads_element(*values, values.items@.len() as int),
{
    let n: usize = values.len();
    let mut text: bool = false;
    let mut element: bool = false;
    let mut i: usize = 0;
    while i < n
        invariant
            n == values.items@.len(),
            0 <= i <= n,
            text == reads_text(*values, i as int),
            element == reads_element(*values, i as int),
        decreases n - i,
    {
        match values.item(i) {
            ShadowJsonValueSource::Contents => {
                text = true;
            },
            _ => {
                element = true;
            },
        }
        proof {
            if !text {
                assert(!reads_text(*values, i + 1));
            }
            if !element {
                assert(!reads_element(*values, i + 1));
            }
        }
        i = i + 1;
    }
    (text, element)
}

/// Whether a list of snippets holds a snippet.
fn holds_snippets(list: &Option<Vec<String>>) -> (r: bool)
    ensures
        r == has_snippets(*list),
{
    match list {
        Some(v) => v.len() > 0,
        None => false,
    }
}

/// Whether an optional flag is set.
fn is_set(flag: &Option<bool>) -> (r: bool)
    ensures
        r == (*flag == Some(true)),
{
    match flag {
        Some(b) => *b,
        None => false,
    }
}

impl ShadowApi {
    /// Lists the handlers of one rule whose selector from the root is valid.
    fn register(
        json_def: &ShadowJson,
        selector: &String,
        address: &Vec<usize>,
        errors: &mut Vec<String>,
        ech: &mut Vec<ShadowHandler>,
        next_id: &mut usize,
    )
        requires
            *old(next_id) < usize::MAX,
        ensures
            compile_state(*final(ech), *final(errors), *final(next_id)) == registered(
                compile_state(*old(ech), *old(errors), *old(next_id)),
                *json_def,
                selector@,
                address@,
            ),
    {
        let id: usize = *next_id;
        *next_id = id + 1;
        let mut use_element: bool = is_set(&json_def.hide) || holds_snippets(&json_def.insert_after)
            || holds_snippets(&json_def.insert_before) || holds_snippets(&json_def.append)
            || holds_snippets(&json_def.prepend) || json_def.edit.is_some() || is_set(
            &json_def.delete,
        );
        let mut use_text: bool = match &json_def.edit {
            Some(edit) => edit.content.is_some(),
            None => false,
        };
        match &json_def.data {
            Some(data) => {
                match &data.path {
                    Some(p) => {
                        if p.as_str().unicode_len() > 0 {
                            use_element = true;
                        }
                    },
                    None => {},
                }
                match &data.values {
                    Some(values) => {
                        if values.len() == 0 {
                            report(
                                errors,
                                String::from_str("Invalid def : 'data.values' is not an object"),
                            );
                            return ;
                        }
                        let kinds = value_kinds(values);
                        if kinds.0 {
                            use_text = true;
                        }
                        if kinds.1 {
                            use_element = true;
                        }
                    },
                    None => {},
                }
            },
            None => {},
        }
        if use_element {
            enlist(
                ech,
                ShadowHandler {
                    selector: selector.clone(),
                    selector_id: id,
                    kind: HandlerKind::Element,
                    rule: copy_places(address),
                },
            );
        }
        if use_text {
            enlist(
                ech,
                ShadowHandler {
                    selector: selector.clone(),
                    selector_id: id,
                    kind: HandlerKind::Text,
                    rule: copy_places(address),
                },
            );
        }
    }

    /// Compiles one rule and the rules inside it.
    pub fn parse_one(
        json_def: &ShadowJson,
        errors: &mut Vec<String>,
        ech: &mut Vec<ShadowHandler>,
        selector_stack: &mut Vec<String>,
        address: &mut Vec<usize>,
        next_id: &mut usize,
    )
        ensures
            compile_state(*final(ech), *final(errors), *final(next_id)) == compiled_one(
                compile_state(*old(ech), *old(errors), *old(next_id)),
                *json_def,
                texts(old(selector_stack)@),
                old(address)@,
            ),
            final(selector_stack)@ == old(selector_stack)@,
            final(address)@ == old(address)@,
        decreases json_def, 0int,
    {
        if json_def.s.as_str().unicode_len() == 0 {
            report(errors, String::from_str("Empty selector"));
            return ;
        }
        selector_stack.push(json_def.s.clone());
        assert(texts(selector_stack@) =~= texts(old(selector_stack)@).push(json_def.s@));
        let selector = join_selectors(selector_stack);
        match check_selector(selector.as_str()) {
            Some(fault) => {
                report(
                    errors,
                    String::from_str("Selector ").concat(selector.as_str()).concat(
                        " is invalid : ",
                    ).concat(fault.as_str()),
                );
            },
            None => {
                if *next_id == usize::MAX {
                    report(errors, String::from_str("Too many rules"));
                } else {
                    ShadowApi::register(json_def, &selector, address, errors, ech, next_id);
                }
            },
        }
        match &json_def.sub {
            Some(sub) => {
                ShadowApi::parse_rec(sub, errors, ech, selector_stack, address, next_id);
            },
            None => {},
        }
        selector_stack.pop();
        assert(selector_stack@ =~= old(selector_stack)@);
    }

    /// Compiles the rules `json_def` in their order.
    pub fn parse_rec(
        json_def: &Vec<ShadowJson>,
        errors: &mut Vec<String>,
        ech: &mut Vec<ShadowHandler>,
        selector_stack: &mut Vec<String>,
        address: &mut Vec<usize>,
        next_id: &mut usize,
    )
        ensures
            compile_state(*final(ech), *final(errors), *final(next_id)) == compiled_all(
                compile_state(*old(ech), *old(errors), *old(next_id)),
                *json_def,
                texts(old(selector_stack)@),
                old(address)@,
                json_def@.len() as int,
            ),
            final(selector_stack)@ == old(selector_stack)@,
            final(address)@ == old(address)@,
        decreases json_def, json_def@.len(),
    {
        let n: usize = json_def.len();
        let mut i: usize = 0;
        while i < n
            invariant
                n == json_def@.len(),
                0 <= i <= n,
                compile_state(*ech, *errors, *next_id) == compiled_all(
                    compile_state(*old(ech), *old(errors), *old(next_id)),
                    *json_def,
                    texts(old(selector_stack)@),
                    old(address)@,
                    i as int,
                ),
                selector_stack@ == old(selector_stack)@,
                address@ == old(address)@,
            decreases n - i,
        {
            address.push(i);
            ShadowApi::parse_one(&json_def[i], errors, ech, selector_stack, address, next_id);
            address.pop();
            assert(address@ =~= old(address)@);
            i = i + 1;
        }
    }
}

}
