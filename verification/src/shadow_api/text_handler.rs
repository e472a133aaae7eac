//! What happens when text inside a matched element arrives: the chunks are
//! held back, and at the end of the text the whole is edited, collected and
//! given out.

use vstd::prelude::*;
use vstd::string::*;
use crate::shadow_api::regex_cache::RegexCache;
use crate::shadow_api::shadow_data_cursor::{wrote_text, CursorView, ShadowDataCursor};
use crate::shadow_api::shadow_json::{ShadowJson, ShadowJsonEditOne, ShadowJsonValueSource};
use crate::shadow_api::shadow_map::ShadowMap;
use crate::shadow_api::text::{same_text, texts};
use crate::shadow_api::{match_errors, match_replaced, report, ShadowApi};

verus! {

/// What the handling of a chunk of text leaves: the text held back, the
/// errors, the cursor, and what stands in the output in place of the chunk,
/// which is nothing where `output` is `None`.
pub struct TextPass {
    pub buffer: Seq<char>,
    pub errors: Seq<Seq<char>>,
    pub cursor: CursorView,
    pub output: Option<Seq<char>>,
}

/// The message for an upsert of the text without a value.
pub open spec fn upsert_content_message() -> Seq<char> {
    "Upsert requires an existing val content string"@
}

/// The message for a match-replace of the text without a pattern or without
/// a replacement.
pub open spec fn match_content_message() -> Seq<char> {
    "Match_replace requires match and val content strings"@
}

/// The message for an edit of the text with an unknown operation.
pub open spec fn content_op_message(op: Seq<char>) -> Seq<char> {
    "Invalid operation (edit.content): "@ + op + ". Allowed values : delete/upsert/match_replace"@
}

/// The text and the errors after the edit `edit` of the text `text`.
///
/// `delete` leaves the empty text. `upsert` leaves the value of the edit,
/// and is an error without one. `match_replace` replaces each match of the
/// pattern; it is an error without a pattern or a replacement. Any other
/// operation is an error. An error leaves the text as it is.
pub open spec fn content_edited(
    text: Seq<char>,
    errors: Seq<Seq<char>>,
    edit: ShadowJsonEditOne,
) -> (
    Seq<char>,
    Seq<Seq<char>>,
) {
    if edit.op@ == "delete"@ {
        (Seq::empty(), errors)
    } else if edit.op@ == "upsert"@ {
        match edit.val {
            Some(v) => (v@, errors),
            None => (text, errors.push(upsert_content_message())),
        }
    } else if edit.op@ == "match_replace"@ {
        match (edit.pattern, edit.val) {
            (Some(p), Some(v)) => (
                match match_replaced(p@, text, v@) {
                    Some(out) => out,
                    None => text,
                },
                match_errors(errors, p@),
            ),
            _ => (text, errors.push(match_content_message())),
        }
    } else {
        (text, errors.push(content_op_message(edit.op@)))
    }
}

/// The text and the errors after the edit of the text that the rule asks
/// for, if it asks for one.
pub open spec fn rule_edited(text: Seq<char>, errors: Seq<Seq<char>>, rule: ShadowJson) -> (
    Seq<char>,
    Seq<Seq<char>>,
) {
    match rule.edit {
        Some(edit) => match edit.content {
            Some(e) => content_edited(text, errors, e),
            None => (text, errors),
        },
        None => (text, errors),
    }
}

/// The cursor after `text` is written at each of the first `upto` values of
/// `values` whose source is the text of the element, in their order.
pub open spec fn contents_taken(
    c: CursorView,
    rule_id: usize,
    values: ShadowMap<ShadowJsonValueSource>,
    text: Seq<char>,
    upto: int,
) -> CursorView
    decreases upto,
{
    if upto <= 0 {
        c
    } else {
        let before = contents_taken(c, rule_id, values, text, upto - 1);
        match values.items@[upto - 1] {
            ShadowJsonValueSource::Contents => wrote_text(
                before,
                rule_id,
                values.keys()[upto - 1],
                text,
            ),
            _ => before,
        }
    }
}

/// The cursor after the rule has collected `text`.
pub open spec fn rule_collected(
    c: CursorView,
    rule_id: usize,
    rule: ShadowJson,
    text: Seq<char>,
) -> CursorView {
    match rule.data {
        Some(data) => match data.values {
            Some(values) => contents_taken(c, rule_id, values, text, values.items@.len() as int),
            None => c,
        },
        None => c,
    }
}

/// What a chunk of text does that arrives for the rule `rule` with the number
/// `rule_id`. A chunk that is not the last of its text is added to the text
/// held back, and nothing stands in its place. With the last chunk the text
/// is whole: it is edited, collected, and stands in the place of the chunk,
/// and nothing is held back any more.
pub open spec fn text_handled(
    chunk: Seq<char>,
    last: bool,
    rule_id: usize,
    rule: ShadowJson,
    buffer: Seq<char>,
    errors: Seq<Seq<char>>,
    cursor: CursorView,
) -> TextPass {
    if !last {
        TextPass { buffer: buffer + chunk, errors, cursor, output: None }
    } else {
        let edited = rule_edited(buffer + chunk, errors, rule);
        TextPass {
            buffer: Seq::empty(),
            errors: edited.1,
            cursor: rule_collected(cursor, rule_id, rule, edited.0),
            output: Some(edited.0),
        }
    }
}

/// The errors are only added to: what was reported before a chunk of text is
/// handled is still there afterwards, in its place.
pub proof fn lemma_text_errors_grow(
    chunk: Seq<char>,
    last: bool,
    rule_id: usize,
    rule: ShadowJson,
    buffer: Seq<char>,
    errors: Seq<Seq<char>>,
    cursor: CursorView,
)
    ensures
        errors.is_prefix_of(text_handled(chunk, last, rule_id, rule, buffer, errors, cursor).errors),
{
}

/// The text `buffer` followed by the first `upto` of the chunks `chunks`.
pub open spec fn gathered(buffer: Seq<char>, chunks: Seq<Seq<char>>, upto: int) -> Seq<char>
    decreases upto,
{
    if upto <= 0 {
        buffer
    } else {
        gathered(buffer, chunks, upto - 1) + chunks[upto - 1]
    }
}

/// What is left after the first `upto` of the chunks `chunks` have arrived,
/// none of them the last of its text.
pub open spec fn chunks_held(
    chunks: Seq<Seq<char>>,
    upto: int,
    rule_id: usize,
    rule: ShadowJson,
    buffer: Seq<char>,
    errors: Seq<Seq<char>>,
    cursor: CursorView,
) -> TextPass
    decreases upto,
{
    if upto <= 0 {
        TextPass { buffer, errors, cursor, output: None }
    } else {
        let before = chunks_held(chunks, upto - 1, rule_id, rule, buffer, errors, cursor);
        text_handled(
            chunks[upto - 1],
            false,
            rule_id,
            rule,
            before.buffer,
            before.errors,
            before.cursor,
        )
    }
}

/// However a text is cut into chunks, the chunks before the last one put
/// nothing into the output and only add to the text held back; they leave
/// the errors and the cursor alone.
pub proof fn lemma_chunks_held(
    chunks: Seq<Seq<char>>,
    upto: int,
    rule_id: usize,
    rule: ShadowJson,
    buffer: Seq<char>,
    errors: Seq<Seq<char>>,
    cursor: CursorView,
)
    requires
        0 <= upto <= chunks.len(),
    ensures
        chunks_held(chunks, upto, rule_id, rule, buffer, errors, cursor) == (TextPass {
            buffer: gathered(buffer, chunks, upto),
            errors,
            cursor,
            output: None,
        }),
    decreases upto,
{
    if upto > 0 {
        lemma_chunks_held(chunks, upto - 1, rule_id, rule, buffer, errors, cursor);
    }
}

/// A text is given out once, whole, at its end. However the text is cut into
/// chunks, the last chunk puts into the output what the edit of the rule
/// makes of the whole text, and nothing is held back after it. An upsert
/// puts its value there, whatever the text was.
pub proof fn lemma_text_emitted_once(
    chunks: Seq<Seq<char>>,
    rule_id: usize,
    rule: ShadowJson,
    errors: Seq<Seq<char>>,
    cursor: CursorView,
)
    requires
        chunks.len() >= 1,
    ensures
        ({
            let n = chunks.len() as int;
            let before = chunks_held(chunks, n - 1, rule_id, rule, Seq::empty(), errors, cursor);
            let done = text_handled(
                chunks[n - 1],
                true,
                rule_id,
                rule,
                before.buffer,
                before.errors,
                before.cursor,
            );
            let whole = gathered(Seq::empty(), chunks, n);
            &&& before.output is None
            &&& done.output == Some(rule_edited(whole, errors, rule).0)
            &&& done.buffer == Seq::<char>::empty()
            &&& (rule.edit is Some && rule.edit->0.content is Some && rule.edit->0.content->0.op@
                == "upsert"@ && rule.edit->0.content->0.val is Some) ==> done.output == Some(
                rule.edit->0.content->0.val->0@,
            )
        }),
{
    let n = chunks.len() as int;
    lemma_chunks_held(chunks, n - 1, rule_id, rule, Seq::empty(), errors, cursor);
    if rule.edit is Some && rule.edit->0.content is Some && rule.edit->0.content->0.op@ == "upsert"@ {
        lemma_upsert_is_not_delete();
    }
}

/// The names of two operations differ.
proof fn lemma_upsert_is_not_delete()
    ensures
        "upsert"@ != "delete"@,
{
    reveal_strlit("upsert");
    reveal_strlit("delete");
    assert("upsert"@[0] == 'u');
    assert("delete"@[0] == 'd');
}

impl ShadowApi {
    /// Applies one edit to the whole text.
    fn edit_content(
        text: String,
        edit: &ShadowJsonEditOne,
        errors: &mut Vec<String>,
        cache: &mut RegexCache,
    ) -> (out: String)
        requires
            old(cache).wf(),
        ensures
            final(cache).wf(),
            (out@, texts(final(errors)@)) == content_edited(text@, texts(old(errors)@), *edit),
    {
        let op = edit.op.as_str();
        if same_text(op, "delete") {
            String::new()
        } else if same_text(op, "upsert") {
            match &edit.val {
                Some(v) => v.clone(),
                None => {
                    report(errors, String::from_str("Upsert requires an existing val content string"));
                    text
                },
            }
        } else if same_text(op, "match_replace") {
            match (&edit.pattern, &edit.val) {
                (Some(p), Some(v)) => {
                    match ShadowApi::match_replace(
                        p.as_str(),
                        text.as_str(),
                        v.as_str(),
                        errors,
                        cache,
                    ) {
                        Some(out) => out,
                        None => text,
                    }
                },
                _ => {
                    report(
                        errors,
                        String::from_str("Match_replace requires match and val content strings"),
                    );
                    text
                },
            }
        } else {
            report(
                errors,
                String::from_str("Invalid operation (edit.content): ").concat(op).concat(
                    ". Allowed values : delete/upsert/match_replace",
                ),
            );
            text
        }
    }

    /// Writes the whole text at each value whose source is the text of the
    /// element.
    fn take_contents(
        rule_id: usize,
        values: &ShadowMap<ShadowJsonValueSource>,
        text: &String,
        cursor: &mut ShadowDataCursor,
    )
        requires
            values.wf(),
            old(cursor).wf(),
        ensures
            final(cursor).wf(),
            final(cursor)@ == contents_taken(
                old(cursor)@,
                rule_id,
                *values,
                text@,
                values.items@.len() as int,
            ),
    {
        let n: usize = values.len();
        let mut i: usize = 0;
        while i < n
            invariant
                values.wf(),
                cursor.wf(),
                n == values.items@.len(),
                0 <= i <= n,
                cursor@ == contents_taken(old(cursor)@, rule_id, *values, text@, i as int),
            decreases n - i,
        {
            match values.item(i) {
                ShadowJsonValueSource::Contents => {
                    cursor.write_text(rule_id, values.key(i).as_str(), text.clone());
                },
                _ => {},
            }
            i = i + 1;
        }
    }

    /// Handles a chunk of the text inside an element that the rule
    /// `json_def` with the number `selector_id` matches. `content_buffer`
    /// holds the chunks of the text that came before. Returns what the engine
    /// puts in the place of the chunk: nothing for `None`, where the chunk is
    /// not the last of its text, else the whole text as the rule leaves it.
    pub fn text_content_handler(
        chunk: &str,
        last_in_text_node: bool,
        selector_id: usize,
        json_def: &ShadowJson,
        errors: &mut Vec<String>,
        content_buffer: &mut String,
        cache: &mut RegexCache,
        cursor: &mut ShadowDataCursor,
    ) -> (output: Option<String>)
        requires
            json_def.wf(),
            old(cache).wf(),
            old(cursor).wf(),
        ensures
            final(cache).wf(),
            final(cursor).wf(),
            ({
                let done = text_handled(
                    chunk@,
                    last_in_text_node,
                    selector_id,
                    *json_def,
                    old(content_buffer)@,
                    texts(old(errors)@),
                    old(cursor)@,
                );
                &&& final(content_buffer)@ == done.buffer
                &&& texts(final(errors)@) == done.errors
                &&& final(cursor)@ == done.cursor
                &&& match output {
                    Some(text) => done.output == Some(text@),
                    None => done.output is None,
                }
            }),
    {
        content_buffer.append(chunk);
        if !last_in_text_node {
            return None;
        }
        let mut text = String::new();
        std::mem::swap(content_buffer, &mut text);
        let text = match &json_def.edit {
            Some(edit) => match &edit.content {
                Some(e) => ShadowApi::edit_content(text, e, errors, cache),
                None => text,
            },
            None => text,
        };
        match &json_def.data {
            Some(data) => match &data.values {
                Some(values) => {
                    ShadowApi::take_contents(selector_id, values, &text, cursor);
                },
                None => {},
            },
            None => {},
        }
        Some(text)
    }
}

}
