// What goes out: the pieces in which bytes are written, the buffers of the
// adapters, the markup that carries the values, and the error.

use shadow_api::shadow_api::text::split_at_dots;
use shadow_api::shadow_api::chunks;
use shadow_api::{
    LoLOutputter, PollStep, ShadowApi, ShadowApiOptions, ShadowApiReplacer,
    ShadowApiRewriterAsync, ShadowError,
};

#[test]
fn error_text_has_marker() {
    let e = ShadowError::from("boom");
    assert_eq!(e.msg, "boom");
    assert_eq!(e.to_string(), "[ShadowError] boom");
    let e = ShadowError::from(String::from("bang"));
    assert_eq!(e.msg, "bang");
    assert_eq!(e.to_string(), "[ShadowError] bang");
}

#[test]
fn bytes_are_cut_into_pieces() {
    assert_eq!(chunks(b"abcdefg", 3), vec![b"abc".to_vec(), b"def".to_vec(), b"g".to_vec()]);
    assert_eq!(chunks(b"abcdef", 3), vec![b"abc".to_vec(), b"def".to_vec()]);
    assert_eq!(chunks(b"ab", 3), vec![b"ab".to_vec()]);
    assert_eq!(chunks(b"abc", 1), vec![b"a".to_vec(), b"b".to_vec(), b"c".to_vec()]);
    assert_eq!(chunks(b"", 3), Vec::<Vec<u8>>::new());
}

#[test]
fn collected_values_are_written_in_pieces() {
    let mut api = ShadowApi::new(Some(ShadowApiOptions { as_json: true }));
    api.shadow_data_cursor.write_text(1, "k", "värde".to_string());
    assert_eq!(api.data(), "{\"k\":\"värde\"}");
    api.set_max_chunk_bytesize(4);
    let pieces = api.process_json();
    assert_eq!(pieces.concat(), "{\"k\":\"värde\"}".as_bytes().to_vec());
    assert_eq!(pieces.len(), 4);
    assert!(pieces[..3].iter().all(|p| p.len() == 4));
    assert_eq!(pieces[3].len(), 2);
}

#[test]
fn markup_is_written_unless_values_alone_are_asked() {
    let mut api = ShadowApi::new(None);
    api.set_max_chunk_bytesize(2);
    assert_eq!(api.output_chunks(b"<p>"), vec![b"<p".to_vec(), b">".to_vec()]);
    let mut api = ShadowApi::new(Some(ShadowApiOptions { as_json: true }));
    api.set_max_chunk_bytesize(2);
    assert_eq!(api.output_chunks(b"<p>"), Vec::<Vec<u8>>::new());
}

#[test]
fn the_default_formatter_binds_the_values() {
    assert_eq!(
        ShadowApi::default_data_formatter("{\"a\":\"b\"}".to_string()),
        "<script>var shadow_api_data = {\"a\":\"b\"};</script>"
    );
}

#[test]
fn the_outputter_holds_output_until_written() {
    let mut out = LoLOutputter::new(false);
    out.handle_chunk(b"ab");
    out.handle_chunk(b"cd");
    assert_eq!(out.buffer, b"abcd".to_vec());
    assert!(!out.done);
    out.handle_chunk(b"");
    assert!(out.done);
    assert_eq!(out.buffer, b"abcd".to_vec());
    let mut silent = LoLOutputter::new(true);
    silent.handle_chunk(b"ab");
    assert_eq!(silent.buffer, Vec::<u8>::new());
    assert!(!silent.done);
    silent.handle_chunk(b"");
    assert!(silent.done);
}

#[test]
fn a_waiting_write_is_not_fed_again() {
    let mut out = LoLOutputter::new(false);
    let mut w = ShadowApiRewriterAsync::new(false);
    assert_eq!(w.poll_write(), PollStep::FeedAndWrite);
    out.handle_chunk(b"abc");
    w.after_write(false, &mut out);
    assert!(w.is_write_pending);
    assert_eq!(out.buffer, b"abc".to_vec());
    assert_eq!(w.poll_write(), PollStep::WriteOnly);
    w.after_write(true, &mut out);
    assert!(!w.is_write_pending);
    assert_eq!(out.buffer, Vec::<u8>::new());
    assert_eq!(w.poll_write(), PollStep::FeedAndWrite);
    let silent = ShadowApiRewriterAsync::new(true);
    assert_eq!(silent.poll_write(), PollStep::FeedOnly);
}

#[test]
fn the_replacer_uses_its_buffer_again() {
    let mut r = ShadowApiReplacer::new();
    r.handle_chunk(b"hello");
    r.handle_chunk(b" world");
    assert_eq!(r.write_idx, 11);
    assert_eq!(r.replace(), 11);
    assert_eq!(r.buffer[..11].to_vec(), b"hello world".to_vec());
    assert_eq!(r.write_idx, 0);
    assert_eq!(r.replace(), 0);
    r.handle_chunk(b"HEY");
    assert_eq!(r.buffer, b"HEYlo world".to_vec());
    assert_eq!(r.replace(), 3);
    r.handle_chunk(b"");
    assert_eq!(r.replace(), 0);
}

#[test]
fn paths_are_split_at_their_dots() {
    assert_eq!(split_at_dots("a.b"), vec!["a", "b"]);
    assert_eq!(split_at_dots("top_link"), vec!["top_link"]);
    assert_eq!(split_at_dots(""), vec![""]);
    assert_eq!(split_at_dots("."), vec!["", ""]);
    assert_eq!(split_at_dots("a..b"), vec!["a", "", "b"]);
    assert_eq!(split_at_dots("é.ü.ß"), vec!["é", "ü", "ß"]);
}
