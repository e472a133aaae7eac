//! The rule compiler and the node handlers.

pub mod compiler_proofs;
pub mod cursor_proofs;
pub mod dispatch;
pub mod element_handler;
pub mod regex_cache;
pub mod rule_compiler;
pub mod shadow_api_async;
pub mod shadow_api_replacer;
pub mod shadow_data;
pub mod shadow_data_cursor;
pub mod shadow_element;
pub mod shadow_error;
pub mod shadow_json;
pub mod shadow_map;
pub mod text;
pub mod text_handler;

use vstd::prelude::*;
use vstd::string::*;
use crate::shadow_api::regex_cache::{pattern_fault, replaced, RegexCache};
use vstd::slice::{slice_subrange, slice_to_vec};
use vstd::utf8::encode_utf8;
use crate::shadow_api::rule_compiler::{
    compile_state, compiled_all, handler_views, HandlerKind, HandlerView, ShadowHandler,
};
use crate::shadow_api::shadow_data::json_of;
use crate::shadow_api::shadow_data_cursor::{text_of, ShadowDataCursor};
use crate::shadow_api::shadow_json::{all_wf, ShadowJson};
use crate::shadow_api::text::{same_text, texts};

verus! {

/// The options of a pass.
#[derive(Debug, Default, Clone, Copy)]
pub struct ShadowApiOptions {
    /// Whether the pass gives the collected values alone, as JSON, and no
    /// markup.
    pub as_json: bool,
}

/// The message for a pattern that does not compile.
pub open spec fn regex_message(pattern: Seq<char>, fault: Seq<char>) -> Seq<char> {
    "Invalid regex: "@ + pattern + " | Error: "@ + fault
}

/// What a match-replace gives: the text in which each match of `pattern` in
/// `old_value` is replaced by `new_value`, where that text differs from
/// `old_value`; `None` where it does not differ, and where the pattern does
/// not compile.
pub open spec fn match_replaced(
    pattern: Seq<char>,
    old_value: Seq<char>,
    new_value: Seq<char>,
) -> Option<Seq<char>> {
    match pattern_fault(pattern) {
        Some(_) => None,
        None => if replaced(pattern, old_value, new_value) != old_value {
            Some(replaced(pattern, old_value, new_value))
        } else {
            None
        },
    }
}

/// The errors after a match-replace with `pattern`: a pattern that does not
/// compile adds one message.
pub open spec fn match_errors(errors: Seq<Seq<char>>, pattern: Seq<char>) -> Seq<Seq<char>> {
    match pattern_fault(pattern) {
        Some(fault) => errors.push(regex_message(pattern, fault)),
        None => errors,
    }
}

/// Adds a message to the errors.
pub(crate) fn report(errors: &mut Vec<String>, message: String)
    ensures
        texts(final(errors)@) == texts(old(errors)@).push(message@),
{
    errors.push(message);
    assert(texts(errors@) =~= texts(old(errors)@).push(message@));
}

/// The rule at the address `address[from..]` among `rules`: the first place
/// picks one of the rules, and each further place one of the rules inside the
/// rule before.
pub open spec fn found_rule(
    rules: Vec<ShadowJson>,
    address: Seq<usize>,
    from: int,
) -> Option<ShadowJson>
    decreases address.len() - from,
{
    if from < 0 || from >= address.len() || address[from] >= rules.len() {
        None
    } else if from + 1 == address.len() {
        Some(rules[address[from] as int])
    } else {
        match rules[address[from] as int].sub {
            Some(sub) => found_rule(sub, address, from + 1),
            None => None,
        }
    }
}

/// The compiler of rules and the handlers of matches, with the state of one
/// pass.
#[derive(Debug)]
pub struct ShadowApi {
    /// The handlers that the rules compiled so far ask for, in the order in
    /// which the engine is to know them.
    pub ech: Vec<ShadowHandler>,
    /// The largest number of bytes that is written at once.
    pub max_chunk_bytesize: usize,
    pub options: Option<ShadowApiOptions>,
    /// The result tree and the position in it.
    pub shadow_data_cursor: ShadowDataCursor,
    /// The number that the next rule gets.
    pub next_id: usize,
}

/// The number of bytes that is written at once unless another is set.
pub const MAX_CHUNK_BYTESIZE: usize = 8096;

/// The markup that carries the collected values into the document.
pub open spec fn formatted(data: Seq<char>) -> Seq<char> {
    "<script>var shadow_api_data = "@ + data + ";</script>"@
}

/// The handler that puts the collected values before the end of the body.
pub open spec fn data_handler() -> HandlerView {
    HandlerView {
        selector: "body"@,
        selector_id: 0,
        kind: HandlerKind::Data,
        rule: Seq::empty(),
    }
}

/// Whether a pass with the options `options` writes markup: it does unless
/// the options ask for the values alone.
pub open spec fn writes_markup(options: Option<ShadowApiOptions>) -> bool {
    match options {
        Some(o) => !o.as_json,
        None => true,
    }
}

/// The contents of a list of byte vectors.
pub open spec fn byte_views(chunks: Seq<Vec<u8>>) -> Seq<Seq<u8>> {
    Seq::new(chunks.len(), |i: int| chunks[i]@)
}

/// The bytes `bytes` cut into pieces of `size` bytes, the last of which may
/// be shorter. No bytes give no piece.
pub open spec fn chunked(bytes: Seq<u8>, size: int) -> Seq<Seq<u8>>
    decreases bytes.len(),
{
    if size <= 0 || bytes.len() == 0 {
        Seq::empty()
    } else if bytes.len() <= size {
        seq![bytes]
    } else {
        seq![bytes.take(size)] + chunked(bytes.skip(size), size)
    }
}

/// Cuts `data` into pieces of `size` bytes.
pub fn chunks(data: &[u8], size: usize) -> (pieces: Vec<Vec<u8>>)
    requires
        size > 0,
    ensures
        byte_views(pieces@) == chunked(data@, size as int),
{
    let n: usize = data.len();
    let mut pieces: Vec<Vec<u8>> = Vec::new();
    let mut start: usize = 0;
    assert(data@.skip(0) =~= data@);
    assert(byte_views(pieces@) =~= Seq::<Seq<u8>>::empty());
    while start < n
        invariant
            n == data@.len(),
            size > 0,
            0 <= start <= n,
            chunked(data@, size as int) == byte_views(pieces@) + chunked(
                data@.skip(start as int),
                size as int,
            ),
        decreases n - start,
    {
        let end: usize = if n - start <= size {
            n
        } else {
            start + size
        };
        let piece = slice_to_vec(slice_subrange(data, start, end));
        let ghost rest = data@.skip(start as int);
        let ghost before = byte_views(pieces@);
        proof {
            if n - start <= size {
                assert(rest =~= piece@);
                assert(data@.skip(end as int) =~= Seq::<u8>::empty());
                assert(chunked(rest, size as int) =~= seq![piece@] + chunked(
                    data@.skip(end as int),
                    size as int,
                ));
            } else {
                assert(rest.take(size as int) =~= piece@);
                assert(rest.skip(size as int) =~= data@.skip(end as int));
            }
        }
        pieces.push(piece);
        proof {
            assert(byte_views(pieces@) =~= before + seq![piece@]);
            assert(before + (seq![piece@] + chunked(data@.skip(end as int), size as int)) =~= (before
                + seq![piece@]) + chunked(data@.skip(end as int), size as int));
        }
        start = end;
    }
    assert(chunked(data@.skip(n as int), size as int) =~= Seq::<Seq<u8>>::empty());
    pieces
}

impl ShadowApi {
    /// A pass with the options `options` that has compiled no rule yet: no
    /// handler is listed, the result tree is empty, and the first rule gets
    /// the number 1.
    pub fn new(options: Option<ShadowApiOptions>) -> (api: ShadowApi)
        ensures
            api.ech@.len() == 0,
            api.max_chunk_bytesize == MAX_CHUNK_BYTESIZE,
            api.options == options,
            api.shadow_data_cursor.wf(),
            api.shadow_data_cursor@ == ShadowDataCursor::start(),
            api.next_id == 1,
    {
        ShadowApi {
            ech: Vec::new(),
            max_chunk_bytesize: MAX_CHUNK_BYTESIZE,
            options,
            shadow_data_cursor: ShadowDataCursor::init(),
            next_id: 1,
        }
    }

    /// Sets the largest number of bytes that is written at once.
    pub fn set_max_chunk_bytesize(&mut self, bytesize: usize)
        ensures
            *final(self) == (ShadowApi { max_chunk_bytesize: bytesize, ..*old(self) }),
    {
        self.max_chunk_bytesize = bytesize;
    }

    /// The markup that carries the collected values `data` into the
    /// document: a script that binds them to `shadow_api_data`.
    pub fn default_data_formatter(data: String) -> (markup: String)
        ensures
            markup@ == formatted(data@),
    {
        String::from_str("<script>var shadow_api_data = ").concat(data.as_str()).concat(
            ";</script>",
        )
    }

    /// Whether the pass writes markup.
    pub fn dom_written(&self) -> (r: bool)
        ensures
            r == writes_markup(self.options),
    {
        match &self.options {
            Some(o) => !o.as_json,
            None => true,
        }
    }

    /// Lists the handler that puts the collected values before the end of
    /// the body.
    pub fn data_content_handler(ech: &mut Vec<ShadowHandler>)
        ensures
            handler_views(final(ech)@) == handler_views(old(ech)@).push(data_handler()),
    {
        ech.push(
            ShadowHandler {
                selector: String::from_str("body"),
                selector_id: 0,
                kind: HandlerKind::Data,
                rule: Vec::new(),
            },
        );
        assert(handler_views(ech@) =~= handler_views(old(ech)@).push(data_handler()));
    }

    /// Compiles the rules `json_def`: the handlers that they need are added
    /// to the list of the pass, and what is wrong with a rule is added to the
    /// errors. A pass that writes markup gets one more handler at the end,
    /// which puts the collected values into the document. Returns the cache
    /// for the patterns of the pass, which is empty.
    pub fn parse(&mut self, json_def: &Vec<ShadowJson>, errors: &mut Vec<String>) -> (cache:
        RegexCache)
        ensures
            cache.wf(),
            cache.patterns() == Seq::<Seq<char>>::empty(),
            final(self).max_chunk_bytesize == old(self).max_chunk_bytesize,
            final(self).options == old(self).options,
            final(self).shadow_data_cursor == old(self).shadow_data_cursor,
            ({
                let done = compiled_all(
                    compile_state(old(self).ech, *old(errors), old(self).next_id),
                    *json_def,
                    Seq::empty(),
                    Seq::empty(),
                    json_def@.len() as int,
                );
                &&& texts(final(errors)@) == done.errors
                &&& final(self).next_id == done.next_id
                &&& handler_views(final(self).ech@) == if writes_markup(old(self).options) {
                    done.handlers.push(data_handler())
                } else {
                    done.handlers
                }
            }),
    {
        let mut selector_stack: Vec<String> = Vec::new();
        let mut address: Vec<usize> = Vec::new();
        assert(texts(selector_stack@) =~= Seq::<Seq<char>>::empty());
        ShadowApi::parse_rec(
            json_def,
            errors,
            &mut self.ech,
            &mut selector_stack,
            &mut address,
            &mut self.next_id,
        );
        if self.dom_written() {
            ShadowApi::data_content_handler(&mut self.ech);
        }
        RegexCache::new()
    }

    /// The rule at `address` in the tree of rules `json_def`.
    pub fn rule_at<'a>(json_def: &'a Vec<ShadowJson>, address: &Vec<usize>) -> (rule: Option<
        &'a ShadowJson,
    >)
        ensures
            match rule {
                Some(r) => found_rule(*json_def, address@, 0) == Some(*r) && (all_wf(*json_def)
                    ==> r.wf()),
                None => found_rule(*json_def, address@, 0) is None,
            },
    {
        let n: usize = address.len();
        if n == 0 {
            return None;
        }
        let mut rules: &Vec<ShadowJson> = json_def;
        let mut i: usize = 0;
        while i + 1 < n
            invariant
                n == address@.len(),
                0 <= i < n,
                found_rule(*json_def, address@, 0) == found_rule(*rules, address@, i as int),
                all_wf(*json_def) ==> all_wf(*rules),
            decreases n - i,
        {
            let place: usize = address[i];
            if place >= rules.len() {
                return None;
            }
            match &rules[place].sub {
                Some(sub) => {
                    rules = sub;
                },
                None => {
                    return None;
                },
            }
            i = i + 1;
        }
        let place: usize = address[i];
        if place >= rules.len() {
            return None;
        }
        Some(&rules[place])
    }

    /// The collected values as compact JSON text.
    pub fn data(&self) -> (text: String)
        requires
            self.shadow_data_cursor.root.wf(),
        ensures
            text@ == json_of(self.shadow_data_cursor@.root),
    {
        self.shadow_data_cursor.to_string()
    }

    /// The collected values as JSON, cut into the pieces in which they are
    /// written.
    pub fn process_json(&self) -> (pieces: Vec<Vec<u8>>)
        requires
            self.shadow_data_cursor.root.wf(),
            self.max_chunk_bytesize > 0,
        ensures
            byte_views(pieces@) == chunked(
                encode_utf8(json_of(self.shadow_data_cursor@.root)),
                self.max_chunk_bytesize as int,
            ),
    {
        let text = self.data();
        chunks(text.as_str().as_bytes(), self.max_chunk_bytesize)
    }

    /// The pieces in which the markup `output` that the engine gives out is
    /// written: none where the pass gives the values alone.
    pub fn output_chunks(&self, output: &[u8]) -> (pieces: Vec<Vec<u8>>)
        requires
            self.max_chunk_bytesize > 0,
        ensures
            byte_views(pieces@) == if writes_markup(self.options) {
                chunked(output@, self.max_chunk_bytesize as int)
            } else {
                Seq::empty()
            },
    {
        if self.dom_written() {
            chunks(output, self.max_chunk_bytesize)
        } else {
            let pieces: Vec<Vec<u8>> = Vec::new();
            assert(byte_views(pieces@) =~= Seq::<Seq<u8>>::empty());
            pieces
        }
    }

    /// Replaces each match of the pattern `pattern` in `old_value` by
    /// `new_value`. Returns the new text where it differs from `old_value`.
    /// A pattern is compiled at its first use and then taken from the cache;
    /// one that does not compile adds a message to the errors at each use and
    /// replaces nothing.
    pub fn match_replace(
        pattern: &str,
        old_value: &str,
        new_value: &str,
        errors: &mut Vec<String>,
        cache: &mut RegexCache,
    ) -> (r: Option<String>)
        requires
            old(cache).wf(),
        ensures
            final(cache).wf(),
            text_of(r) == match_replaced(pattern@, old_value@, new_value@),
            texts(final(errors)@) == match_errors(texts(old(errors)@), pattern@),
    {
        match cache.replace_all(pattern, old_value, new_value) {
            Ok(out) => {
                if same_text(out.as_str(), old_value) {
                    None
                } else {
                    Some(out)
                }
            },
            Err(fault) => {
                let message = String::from_str("Invalid regex: ").concat(pattern).concat(
                    " | Error: ",
                ).concat(fault.as_str());
                report(errors, message);
                None
            },
        }
    }
}

}
