//! From a handler of the list to the rule that it is for: the engine says
//! which handler it calls, and the pass looks up the rule and handles the
//! match.

use vstd::prelude::*;
use crate::shadow_api::element_handler::element_handled;
use crate::shadow_api::regex_cache::RegexCache;
use crate::shadow_api::rule_compiler::{HandlerKind, ShadowHandler};
use crate::shadow_api::shadow_data::ShadowData;
use crate::shadow_api::shadow_data_cursor::{closed, text_of};
use crate::shadow_api::shadow_element::{action_views, ElementAction, ShadowElement, TextAction};
use crate::shadow_api::shadow_error::ShadowError;
use crate::shadow_api::shadow_json::{all_wf, ShadowJson};
use crate::shadow_api::text::texts;
use crate::shadow_api::text_handler::text_handled;
use crate::shadow_api::{found_rule, ShadowApi};

verus! {

/// The rule that the handler at place `handler` of the list `ech` is for,
/// with its number, where that handler is of the kind `kind` and its rule
/// stands in the tree `rules`.
pub open spec fn handler_rule(
    ech: Seq<ShadowHandler>,
    rules: Vec<ShadowJson>,
    handler: int,
    kind: HandlerKind,
) -> Option<(usize, ShadowJson)> {
    if 0 <= handler < ech.len() && ech[handler].kind == kind {
        match found_rule(rules, ech[handler].rule@, 0) {
            Some(rule) => Some((ech[handler].selector_id, rule)),
            None => None,
        }
    } else {
        None
    }
}

impl ShadowApi {
    /// The rule that the handler at place `handler` is for, with its number.
    fn rule_of<'a>(&self, json_def: &'a Vec<ShadowJson>, handler: usize, kind: HandlerKind) -> (r:
        Option<(usize, &'a ShadowJson)>)
        ensures
            match r {
                Some(found) => handler_rule(self.ech@, *json_def, handler as int, kind) == Some(
                    (found.0, *found.1),
                ) && (all_wf(*json_def) ==> found.1.wf()),
                None => handler_rule(self.ech@, *json_def, handler as int, kind) is None,
            },
    {
        if handler >= self.ech.len() {
            return None;
        }
        let h = &self.ech[handler];
        if h.kind != kind {
            return None;
        }
        match ShadowApi::rule_at(json_def, &h.rule) {
            Some(rule) => Some((h.selector_id, rule)),
            None => None,
        }
    }

    /// Handles the match of an element for the handler at place `handler` of
    /// the list. A place that holds no handler for elements of a rule of
    /// `json_def` changes nothing and gives no edit.
    pub fn dispatch_element(
        &mut self,
        json_def: &Vec<ShadowJson>,
        handler: usize,
        el: &ShadowElement,
        errors: &mut Vec<String>,
        cache: &mut RegexCache,
    ) -> (actions: Vec<ElementAction>)
        requires
            all_wf(*json_def),
            old(cache).wf(),
            old(self).shadow_data_cursor.wf(),
        ensures
            final(cache).wf(),
            final(self).shadow_data_cursor.wf(),
            final(self).ech == old(self).ech,
            final(self).next_id == old(self).next_id,
            final(self).options == old(self).options,
            final(self).max_chunk_bytesize == old(self).max_chunk_bytesize,
            match handler_rule(old(self).ech@, *json_def, handler as int, HandlerKind::Element) {
                Some(found) => {
                    let done = element_handled(
                        *el,
                        found.0,
                        found.1,
                        texts(old(errors)@),
                        old(self).shadow_data_cursor@,
                    );
                    &&& action_views(actions@) == done.actions
                    &&& texts(final(errors)@) == done.errors
                    &&& final(self).shadow_data_cursor@ == done.cursor
                },
                None => {
                    &&& actions@.len() == 0
                    &&& final(errors)@ == old(errors)@
                    &&& final(self).shadow_data_cursor == old(self).shadow_data_cursor
                },
            },
    {
        match self.rule_of(json_def, handler, HandlerKind::Element) {
            Some(found) => ShadowApi::element_content_handler(
                el,
                found.0,
                found.1,
                errors,
                cache,
                &mut self.shadow_data_cursor,
            ),
            None => Vec::new(),
        }
    }

    /// Handles a chunk of text for the handler at place `handler` of the
    /// list, which holds back text in `content_buffer`. A chunk that is not
    /// the last of its text is taken out of the output; the last one gives
    /// way to the whole text as the rule leaves it. A place that holds no
    /// handler for the text of a rule of `json_def` changes nothing and keeps
    /// the chunk.
    pub fn dispatch_text(
        &mut self,
        json_def: &Vec<ShadowJson>,
        handler: usize,
        chunk: &str,
        last_in_text_node: bool,
        errors: &mut Vec<String>,
        content_buffer: &mut String,
        cache: &mut RegexCache,
    ) -> (output: TextAction)
        requires
            all_wf(*json_def),
            old(cache).wf(),
            old(self).shadow_data_cursor.wf(),
        ensures
            final(cache).wf(),
            final(self).shadow_data_cursor.wf(),
            final(self).ech == old(self).ech,
            final(self).next_id == old(self).next_id,
            final(self).options == old(self).options,
            final(self).max_chunk_bytesize == old(self).max_chunk_bytesize,
            match handler_rule(old(self).ech@, *json_def, handler as int, HandlerKind::Text) {
                Some(found) => {
                    let done = text_handled(
                        chunk@,
                        last_in_text_node,
                        found.0,
                        found.1,
                        old(content_buffer)@,
                        texts(old(errors)@),
                        old(self).shadow_data_cursor@,
                    );
                    &&& final(content_buffer)@ == done.buffer
                    &&& texts(final(errors)@) == done.errors
                    &&& final(self).shadow_data_cursor@ == done.cursor
                    &&& match done.output {
                        Some(text) => output matches TextAction::Replace(t) && t@ == text,
                        None => output is Remove,
                    }
                },
                None => {
                    &&& output is Keep
                    &&& final(content_buffer)@ == old(content_buffer)@
                    &&& final(errors)@ == old(errors)@
                    &&& final(self).shadow_data_cursor == old(self).shadow_data_cursor
                },
            },
    {
        match self.rule_of(json_def, handler, HandlerKind::Text) {
            Some(found) => {
                match ShadowApi::text_content_handler(
                    chunk,
                    last_in_text_node,
                    found.0,
                    found.1,
                    errors,
                    content_buffer,
                    cache,
                    &mut self.shadow_data_cursor,
                ) {
                    Some(text) => TextAction::Replace(text),
                    None => TextAction::Remove,
                }
            },
            None => TextAction::Keep,
        }
    }

    /// Handles the end tag of an element that the handler at place `handler`
    /// of the list asked for: the cursor moves as for an element that closes.
    /// A place that holds no handler for elements of a rule of `json_def`
    /// changes nothing.
    pub fn dispatch_end_tag(&mut self, json_def: &Vec<ShadowJson>, handler: usize) -> (r: Result<
        (),
        ShadowError,
    >)
        requires
            old(self).shadow_data_cursor.wf(),
        ensures
            final(self).shadow_data_cursor.wf(),
            final(self).ech == old(self).ech,
            final(self).next_id == old(self).next_id,
            final(self).options == old(self).options,
            final(self).max_chunk_bytesize == old(self).max_chunk_bytesize,
            match handler_rule(old(self).ech@, *json_def, handler as int, HandlerKind::Element) {
                Some(found) => match found.1.data {
                    Some(data) => {
                        let after = closed(old(self).shadow_data_cursor@, text_of(data.path));
                        &&& final(self).shadow_data_cursor@ == after.0
                        &&& match after.1 {
                            None => r is Ok,
                            Some(m) => r is Err && r->Err_0.msg@ == m,
                        }
                    },
                    None => r is Ok && final(self).shadow_data_cursor@ == old(
                        self,
                    ).shadow_data_cursor@,
                },
                None => r is Ok && final(self).shadow_data_cursor == old(self).shadow_data_cursor,
            },
    {
        match self.rule_of(json_def, handler, HandlerKind::Element) {
            Some(found) => ShadowData::on_data_tag_close(
                found.0,
                found.1,
                &mut self.shadow_data_cursor,
            ),
            None => Ok(()),
        }
    }
}

}
