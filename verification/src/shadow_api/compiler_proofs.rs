//! What holds of every compilation: nothing that was listed or reported
//! before is lost, and each handler that is listed belongs to a rule of the
//! tree whose selector the engine takes.

use vstd::prelude::*;
use crate::shadow_api::found_rule;
use crate::shadow_api::rule_compiler::{
    compiled_all, compiled_one, compiled_own, selector_fault, Compiled, HandlerKind,
};
use crate::shadow_api::shadow_json::ShadowJson;

verus! {

/// The rules that stand at the address `address[from..]` below `rules`: the
/// rules themselves for the empty address, else the rules inside the rule
/// that the address leads to.
pub open spec fn rules_at(
    rules: Vec<ShadowJson>,
    address: Seq<usize>,
    from: int,
) -> Option<Vec<ShadowJson>>
    decreases address.len() - from,
{
    if from < 0 || from > address.len() {
        None
    } else if from == address.len() {
        Some(rules)
    } else if address[from] >= rules.len() {
        None
    } else {
        match rules[address[from] as int].sub {
            Some(sub) => rules_at(sub, address, from + 1),
            None => None,
        }
    }
}

/// The state `after` is the state `before` with more in it: what was listed
/// and reported is still there, in its place, and the numbers went up. Each
/// handler that was added is for a rule of the tree `top`, has a number from
/// `before.next_id` on that is free again in `after`, and a selector that the
/// engine takes.
pub open spec fn grown(top: Vec<ShadowJson>, before: Compiled, after: Compiled) -> bool {
    &&& before.handlers.is_prefix_of(after.handlers)
    &&& before.errors.is_prefix_of(after.errors)
    &&& before.next_id <= after.next_id
    &&& forall|k: int|
        before.handlers.len() <= k < after.handlers.len() ==> {
            &&& found_rule(top, (#[trigger] after.handlers[k]).rule, 0) is Some
            &&& after.handlers[k].kind != HandlerKind::Data
            &&& selector_fault(after.handlers[k].selector) is None
            &&& before.next_id <= after.handlers[k].selector_id < after.next_id
        }
}

/// Growing twice is growing.
pub proof fn lemma_grown_twice(top: Vec<ShadowJson>, a: Compiled, b: Compiled, c: Compiled)
    requires
        grown(top, a, b),
        grown(top, b, c),
    ensures
        grown(top, a, c),
{
    assert forall|k: int| a.handlers.len() <= k < c.handlers.len() implies {
        &&& found_rule(top, (#[trigger] c.handlers[k]).rule, 0) is Some
        &&& c.handlers[k].kind != HandlerKind::Data
        &&& selector_fault(c.handlers[k].selector) is None
        &&& a.next_id <= c.handlers[k].selector_id < c.next_id
    } by {
        if k < b.handlers.len() {
            assert(c.handlers[k] == b.handlers[k]);
        }
    }
}

/// The rule at an address that is one place longer is one of the rules at
/// the address.
pub proof fn lemma_found_rule_push(rules: Vec<ShadowJson>, address: Seq<usize>, i: usize, from: int)
    requires
        0 <= from <= address.len(),
    ensures
        found_rule(rules, address.push(i), from) == match rules_at(rules, address, from) {
            Some(inside) => if i < inside.len() {
                Some(inside[i as int])
            } else {
                None
            },
            None => None,
        },
    decreases address.len() - from,
{
    let longer = address.push(i);
    if from < address.len() {
        assert(longer[from] == address[from]);
        if address[from] < rules.len() {
            match rules[address[from] as int].sub {
                Some(sub) => {
                    lemma_found_rule_push(sub, address, i, from + 1);
                },
                None => {},
            }
        }
    }
}

/// The rules at an address that is one place longer are the rules inside
/// one of the rules at the address.
pub proof fn lemma_rules_at_push(rules: Vec<ShadowJson>, address: Seq<usize>, i: usize, from: int)
    requires
        0 <= from <= address.len(),
    ensures
        rules_at(rules, address.push(i), from) == match rules_at(rules, address, from) {
            Some(inside) => if i < inside.len() {
                match inside[i as int].sub {
                    Some(sub) => Some(sub),
                    None => None,
                }
            } else {
                None
            },
            None => None,
        },
    decreases address.len() - from,
{
    let longer = address.push(i);
    if from < address.len() {
        assert(longer[from] == address[from]);
        if address[from] < rules.len() {
            match rules[address[from] as int].sub {
                Some(sub) => {
                    lemma_rules_at_push(sub, address, i, from + 1);
                },
                None => {},
            }
        }
    } else {
        assert(longer[from] == i);
        if i < rules.len() {
            match rules[i as int].sub {
                Some(sub) => {
                    assert(rules_at(sub, longer, from + 1) == Some(sub));
                },
                None => {},
            }
        }
    }
}

/// Compiling one rule that stands in the tree grows the state.
pub proof fn lemma_compiled_one_grows(
    top: Vec<ShadowJson>,
    st: Compiled,
    rule: ShadowJson,
    stack: Seq<Seq<char>>,
    address: Seq<usize>,
)
    requires
        found_rule(top, address, 0) == Some(rule),
        match rule.sub {
            Some(sub) => rules_at(top, address, 0) == Some(sub),
            None => true,
        },
    ensures
        grown(top, st, compiled_one(st, rule, stack, address)),
    decreases rule, 0int,
{
    if rule.s@.len() > 0 {
        let own = compiled_own(st, rule, stack, address);
        assert(grown(top, st, own));
        match rule.sub {
            Some(sub) => {
                lemma_compiled_all_grows(top, own, sub, stack.push(rule.s@), address, sub.len() as int);
                lemma_grown_twice(
                    top,
                    st,
                    own,
                    compiled_all(own, sub, stack.push(rule.s@), address, sub.len() as int),
                );
            },
            None => {},
        }
    }
}

/// Compiling the rules that stand at an address of the tree grows the state.
pub proof fn lemma_compiled_all_grows(
    top: Vec<ShadowJson>,
    st: Compiled,
    rules: Vec<ShadowJson>,
    stack: Seq<Seq<char>>,
    address: Seq<usize>,
    upto: int,
)
    requires
        rules_at(top, address, 0) == Some(rules),
    ensures
        grown(top, st, compiled_all(st, rules, stack, address, upto)),
    decreases rules, upto,
{
    if 0 < upto <= rules.len() {
        lemma_compiled_all_grows(top, st, rules, stack, address, upto - 1);
        let before = compiled_all(st, rules, stack, address, upto - 1);
        let i = (upto - 1) as usize;
        lemma_found_rule_push(top, address, i, 0);
        lemma_rules_at_push(top, address, i, 0);
        lemma_compiled_one_grows(top, before, rules[upto - 1], stack, address.push(i));
        lemma_grown_twice(
            top,
            st,
            before,
            compiled_one(before, rules[upto - 1], stack, address.push(i)),
        );
    }
}

/// Compiling a tree of rules loses nothing and lists only what the tree
/// holds: the handlers and errors from before stay in their places, and each
/// handler that is added is for a rule of the tree, with a selector that the
/// engine takes and a number that no handler from before has.
pub proof fn lemma_compiled_grows(st: Compiled, rules: Vec<ShadowJson>)
    ensures
        grown(
            rules,
            st,
            compiled_all(st, rules, Seq::empty(), Seq::empty(), rules.len() as int),
        ),
{
    lemma_compiled_all_grows(rules, st, rules, Seq::empty(), Seq::empty(), rules.len() as int);
}

}
