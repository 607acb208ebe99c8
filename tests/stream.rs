use chat_stream::events::StreamChunk;
use chat_stream::stream::StreamParser;

fn run(parts: &[&[u8]]) -> (Vec<(String, bool)>, String) {
    let mut parser = StreamParser::new();
    let mut emitted = Vec::new();
    for part in parts {
        for c in parser.feed(part) {
            emitted.push((c.delta, c.done));
        }
    }
    (emitted, parser.finish())
}

fn pairs(chunks: Vec<StreamChunk>) -> Vec<(String, bool)> {
    chunks.into_iter().map(|c| (c.delta, c.done)).collect()
}

const STREAM: &str = "event: message_start\ndata: {\"type\":\"message_start\"}\n\n\
event: content_block_delta\ndata: {\"type\":\"content_block_delta\",\"delta\":{\"text\":\"Hé\"}}\n\n\
data: {\"type\":\"content_block_delta\",\"delta\":{\"text\":\"llo, \"}}\n\n\
data: {\"type\":\"ping\"}\n\n\
data: {\"type\":\"content_block_delta\",\"delta\":{\"text\":\"wörld\"}}\n\n\
data: {\"type\":\"message_stop\"}\n\n";

#[test]
fn delta_split_across_chunks() {
    let (emitted, text) = run(&[
        b"event: x\ndata: {\"type\":\"content_block_delta\",\"delta\":{\"text\":\"Hel",
        b"lo\"}}\n\n",
        b"data: {\"type\":\"message_stop\"}\n\n",
    ]);
    assert_eq!(emitted, vec![("Hello".to_string(), false), (String::new(), true)]);
    assert_eq!(text, "Hello");
}

#[test]
fn done_sentinel_alone_emits_nothing() {
    let (emitted, text) = run(&[b"data: [DONE]\n\n"]);
    assert!(emitted.is_empty());
    assert_eq!(text, "");
}

#[test]
fn every_split_gives_the_same_output() {
    let bytes = STREAM.as_bytes();
    let whole = run(&[bytes]);
    assert_eq!(whole.1, "Héllo, wörld");
    assert_eq!(whole.0.len(), 4);
    let singles: Vec<&[u8]> = bytes.chunks(1).collect();
    assert_eq!(run(&singles), whole);
    for cut in 0..=bytes.len() {
        let (a, b) = bytes.split_at(cut);
        assert_eq!(run(&[a, b]), whole, "cut at {}", cut);
    }
    for size in [2usize, 3, 7, 13] {
        let parts: Vec<&[u8]> = bytes.chunks(size).collect();
        assert_eq!(run(&parts), whole, "size {}", size);
    }
}

#[test]
fn end_mark_is_emitted_once_and_last() {
    let (emitted, _) = run(&[STREAM.as_bytes()]);
    let marks = emitted.iter().filter(|c| c.1).count();
    assert_eq!(marks, 1);
    assert_eq!(emitted.last(), Some(&(String::new(), true)));
}

#[test]
fn text_is_the_concatenation_of_deltas() {
    let (emitted, text) = run(&[STREAM.as_bytes()]);
    let joined: String = emitted.iter().filter(|c| !c.1).map(|c| c.0.as_str()).collect();
    assert_eq!(joined, text);
}

#[test]
fn malformed_payload_is_skipped() {
    let (emitted, text) = run(&[
        b"data: {\"type\":\"content_block_delta\",\"delta\":{\"text\":\"A\"}}\n\n",
        b"data: {not json at all\n\n",
        b"data: {\"type\":\"content_block_delta\",\"delta\":{\"text\":\"B\"}}\n\n",
    ]);
    assert_eq!(emitted, vec![("A".to_string(), false), ("B".to_string(), false)]);
    assert_eq!(text, "AB");
}

#[test]
fn malformed_line_inside_a_frame_is_skipped() {
    let mut parser = StreamParser::new();
    let out = parser.feed(
        b"data: oops\ndata: {\"type\":\"content_block_delta\",\"delta\":{\"text\":\"ok\"}}\n\n",
    );
    assert_eq!(pairs(out), vec![("ok".to_string(), false)]);
}

#[test]
fn unfinished_frame_is_dropped_at_the_end() {
    let (emitted, text) = run(&[
        b"data: {\"type\":\"content_block_delta\",\"delta\":{\"text\":\"kept\"}}\n\n",
        b"data: {\"type\":\"content_block_delta\",\"delta\":{\"text\":\"lost\"}}\n",
    ]);
    assert_eq!(emitted, vec![("kept".to_string(), false)]);
    assert_eq!(text, "kept");
}

#[test]
fn delimiter_split_between_chunks() {
    let (emitted, _) = run(&[
        b"data: {\"type\":\"content_block_delta\",\"delta\":{\"text\":\"x\"}}\n",
        b"\ndata: {\"type\":\"message_stop\"}\n",
        b"\n",
    ]);
    assert_eq!(emitted, vec![("x".to_string(), false), (String::new(), true)]);
}

#[test]
fn events_without_text_or_of_other_types_are_ignored() {
    let (emitted, text) = run(&[
        b"data: {\"type\":\"content_block_delta\",\"delta\":{}}\n\n",
        b"data: {\"type\":\"content_block_start\",\"delta\":{\"text\":\"no\"}}\n\n",
        b"data: {\"delta\":{\"text\":\"no type\"}}\n\n",
        b"event: ping\n\n",
    ]);
    assert!(emitted.is_empty());
    assert_eq!(text, "");
}

#[test]
fn carriage_return_before_line_feed_is_dropped() {
    let (emitted, _) = run(&[
        b"event: x\r\ndata: {\"type\":\"content_block_delta\",\"delta\":{\"text\":\"cr\"}}\r\n\n",
    ]);
    assert_eq!(emitted, vec![("cr".to_string(), false)]);
}

#[test]
fn several_frames_in_one_chunk() {
    let mut parser = StreamParser::new();
    let out = parser.feed(
        b"data: {\"type\":\"content_block_delta\",\"delta\":{\"text\":\"1\"}}\n\n\
data: {\"type\":\"content_block_delta\",\"delta\":{\"text\":\"2\"}}\n\ndata: {\"type\":\"con",
    );
    assert_eq!(pairs(out), vec![("1".to_string(), false), ("2".to_string(), false)]);
    let out = parser.feed(b"tent_block_delta\",\"delta\":{\"text\":\"3\"}}\n\n");
    assert_eq!(pairs(out), vec![("3".to_string(), false)]);
    assert_eq!(parser.finish(), "123");
}

#[test]
fn empty_stream() {
    let (emitted, text) = run(&[]);
    assert!(emitted.is_empty());
    assert_eq!(text, "");
}

#[test]
fn second_stop_event_gives_no_second_end_mark() {
    let (emitted, text) = run(&[
        b"data: {\"type\":\"content_block_delta\",\"delta\":{\"text\":\"a\"}}\n\n",
        b"data: {\"type\":\"message_stop\"}\n\n",
        b"data: {\"type\":\"content_block_delta\",\"delta\":{\"text\":\"late\"}}\n\n",
        b"data: {\"type\":\"message_stop\"}\n\n",
    ]);
    assert_eq!(emitted, vec![("a".to_string(), false), (String::new(), true)]);
    assert_eq!(text, "a");
}

#[test]
fn stop_and_later_frames_in_one_chunk() {
    let mut parser = StreamParser::new();
    let out = parser.feed(
        b"data: {\"type\":\"message_stop\"}\n\ndata: {\"type\":\"content_block_delta\",\"delta\":{\"text\":\"x\"}}\n\n",
    );
    assert_eq!(pairs(out), vec![(String::new(), true)]);
    assert!(parser.feed(b"data: {\"type\":\"message_stop\"}\n\n").is_empty());
    assert_eq!(parser.finish(), "");
}
