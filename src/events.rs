//! Interpreting the payload lines of one frame as stream events and chunks.
use vstd::prelude::*;
use vstd::string::*;
use crate::frames::{LF, copy_range};
use vstd::slice::slice_subrange;

verus! {

/// The carriage return byte.
pub const CR: u8 = 13;

/// The unit delivered to a listener: a piece of generated text, or the end mark.
pub struct StreamChunk {
    pub delta: String,
    pub done: bool,
}

impl View for StreamChunk {
    type V = (Seq<char>, bool);

    open spec fn view(&self) -> (Seq<char>, bool) {
        (self.delta@, self.done)
    }
}

/// One decoded frame payload: its `type` field and, if present, `delta.text`.
pub struct ProtocolEvent {
    pub event_type: String,
    pub delta_text: Option<String>,
}

impl View for ProtocolEvent {
    type V = (Seq<char>, Option<Seq<char>>);

    open spec fn view(&self) -> (Seq<char>, Option<Seq<char>>) {
        (self.event_type@, opt_text(self.delta_text))
    }
}

pub open spec fn opt_text(o: Option<String>) -> Option<Seq<char>> {
    match o {
        Some(s) => Some(s@),
        None => None,
    }
}

pub open spec fn opt_event(o: Option<ProtocolEvent>) -> Option<(Seq<char>, Option<Seq<char>>)> {
    match o {
        Some(e) => Some(e@),
        None => None,
    }
}

pub open spec fn opt_chunk(o: Option<StreamChunk>) -> Option<(Seq<char>, bool)> {
    match o {
        Some(c) => Some(c@),
        None => None,
    }
}

pub open spec fn chunks_view(v: Seq<StreamChunk>) -> Seq<(Seq<char>, bool)> {
    v.map_values(|c: StreamChunk| c@)
}

/// What a payload decodes to as a stream event: `None` when it is not a JSON
/// object with a string `type` field.
pub uninterp spec fn stream_event_of(payload: Seq<u8>) -> Option<(Seq<char>, Option<Seq<char>>)>;

/// Relies on serde_json::from_slice into a serde_json::Value, read through
/// Value::get and Value::as_str: the outcome depends on the payload bytes alone.
#[verifier::external_body]
fn decode_event(payload: &[u8]) -> (r: Option<ProtocolEvent>)
    ensures
        opt_event(r) == stream_event_of(payload@),
{
    let v: serde_json::Value = serde_json::from_slice(payload).ok()?;
    let event_type = v.get("type")?.as_str()?.to_string();
    let delta_text = v.get("delta").and_then(|d| d.get("text")).and_then(|t| t.as_str());
    Some(ProtocolEvent { event_type, delta_text: delta_text.map(|t| t.to_string()) })
}

/// The chunk that an event yields: a text delta, the end mark, or nothing.
pub open spec fn event_chunk(e: (Seq<char>, Option<Seq<char>>)) -> Option<(Seq<char>, bool)> {
    if e.0 == "content_block_delta"@ {
        match e.1 {
            Some(t) => Some((t, false)),
            None => None,
        }
    } else if e.0 == "message_stop"@ {
        Some((Seq::<char>::empty(), true))
    } else {
        None
    }
}

/// The bytes of `data: `, which start a payload line.
pub open spec fn data_prefix() -> Seq<u8> {
    seq![100u8, 97u8, 116u8, 97u8, 58u8, 32u8]
}

/// The bytes of `[DONE]`, the payload that marks the end of the transport stream.
pub open spec fn done_sentinel() -> Seq<u8> {
    seq![91u8, 68u8, 79u8, 78u8, 69u8, 93u8]
}

/// The payload of a line that starts with the data prefix.
pub open spec fn line_payload(line: Seq<u8>) -> Option<Seq<u8>> {
    if line.len() >= 6 && line.subrange(0, 6) == data_prefix() {
        Some(line.subrange(6, line.len() as int))
    } else {
        None
    }
}

/// The chunk that a payload yields: none for the sentinel or an undecodable payload.
pub open spec fn payload_chunk(p: Seq<u8>) -> Option<(Seq<char>, bool)> {
    if p == done_sentinel() {
        None
    } else {
        match stream_event_of(p) {
            Some(e) => event_chunk(e),
            None => None,
        }
    }
}

pub open spec fn line_chunk(line: Seq<u8>) -> Option<(Seq<char>, bool)> {
    match line_payload(line) {
        Some(p) => payload_chunk(p),
        None => None,
    }
}

/// The index of the first line feed of `s` at or after `from`.
pub open spec fn find_lf_from(s: Seq<u8>, from: nat) -> Option<nat>
    decreases s.len() - from,
{
    if from >= s.len() {
        None
    } else if s[from as int] == LF {
        Some(from)
    } else {
        find_lf_from(s, from + 1)
    }
}

/// A line without the carriage return that ended it.
pub open spec fn strip_cr(line: Seq<u8>) -> Seq<u8> {
    if line.len() > 0 && line.last() == CR {
        line.drop_last()
    } else {
        line
    }
}

/// The lines of a frame: the pieces between line feeds, a piece that a line
/// feed ends losing its carriage return.
pub open spec fn split_lines(s: Seq<u8>) -> Seq<Seq<u8>>
    decreases s.len(),
{
    match find_lf_from(s, 0) {
        Some(j) => if j < s.len() {
            seq![strip_cr(s.subrange(0, j as int))] + split_lines(s.subrange(j + 1 as int, s.len() as int))
        } else {
            seq![s]
        },
        None => seq![s],
    }
}

/// The chunks that a sequence of lines yields, in order.
pub open spec fn lines_chunks(ls: Seq<Seq<u8>>) -> Seq<(Seq<char>, bool)>
    decreases ls.len(),
{
    if ls.len() == 0 {
        Seq::empty()
    } else {
        let rest = lines_chunks(ls.drop_first());
        match line_chunk(ls[0]) {
            Some(c) => seq![c] + rest,
            None => rest,
        }
    }
}

/// The chunks that one frame yields, in order.
pub open spec fn frame_chunks(frame: Seq<u8>) -> Seq<(Seq<char>, bool)> {
    lines_chunks(split_lines(frame))
}

/// The chunk for a decoded event: content deltas with text become text chunks,
/// the stop event becomes the end mark, and every other event yields nothing.
pub fn chunk_for_event(e: ProtocolEvent) -> (r: Option<StreamChunk>)
    ensures
        opt_chunk(r) == event_chunk(e@),
{
    let delta_type = String::from_str("content_block_delta");
    let stop_type = String::from_str("message_stop");
    if e.event_type == delta_type {
        match e.delta_text {
            Some(t) => Some(StreamChunk { delta: t, done: false }),
            None => None,
        }
    } else if e.event_type == stop_type {
        Some(StreamChunk { delta: String::new(), done: true })
    } else {
        None
    }
}

/// Find the first line feed in `buf` at or after `from`.
pub fn find_lf(buf: &Vec<u8>, from: usize) -> (r: Option<usize>)
    ensures
        match r {
            Some(i) => find_lf_from(buf@, from as nat) == Some(i as nat) && i < buf@.len(),
            None => find_lf_from(buf@, from as nat).is_none(),
        },
{
    let n = buf.len();
    let mut i: usize = from;
    while i < n
        invariant
            n == buf@.len(),
            from <= i,
            find_lf_from(buf@, from as nat) == find_lf_from(buf@, i as nat),
        decreases n - i,
    {
        if buf[i] == LF {
            return Some(i);
        }
        i = i + 1;
    }
    None
}

/// The chunk that one line yields.
pub fn chunk_for_line(line: &Vec<u8>) -> (r: Option<StreamChunk>)
    ensures
        opt_chunk(r) == line_chunk(line@),
{
    let n = line.len();
    if n < 6 {
        return None;
    }
    let is_data = line[0] == 100u8 && line[1] == 97u8 && line[2] == 116u8 && line[3] == 97u8
        && line[4] == 58u8 && line[5] == 32u8;
    assert(is_data == (line@.subrange(0, 6) =~= data_prefix()));
    if !is_data {
        return None;
    }
    let payload = slice_subrange(line.as_slice(), 6, n);
    let is_done = n == 12 && payload[0] == 91u8 && payload[1] == 68u8 && payload[2] == 79u8
        && payload[3] == 78u8 && payload[4] == 69u8 && payload[5] == 93u8;
    assert(is_done == (payload@ =~= done_sentinel()));
    if is_done {
        return None;
    }
    match decode_event(payload) {
        Some(e) => chunk_for_event(e),
        None => None,
    }
}

pub proof fn lemma_lines_chunks_cons(l: Seq<u8>, rest: Seq<Seq<u8>>)
    ensures
        lines_chunks(seq![l] + rest) == match line_chunk(l) {
            Some(c) => seq![c] + lines_chunks(rest),
            None => lines_chunks(rest),
        },
{
    let s = seq![l] + rest;
    assert(s[0] == l);
    assert(s.drop_first() =~= rest);
}

pub proof fn lemma_chunks_view_push(v: Seq<StreamChunk>, c: StreamChunk)
    ensures
        chunks_view(v.push(c)) == chunks_view(v).push(c@),
{
    assert(chunks_view(v.push(c)) =~= chunks_view(v).push(c@));
}

/// Append to `out` the chunks that one frame yields, in order.
pub fn push_frame_chunks(frame: Vec<u8>, out: &mut Vec<StreamChunk>)
    ensures
        chunks_view(final(out)@) == chunks_view(old(out)@) + frame_chunks(frame@),
{
    let ghost start = chunks_view(out@);
    let ghost whole = frame@;
    let mut rest = frame;
    loop
        invariant_except_break
            chunks_view(out@) + lines_chunks(split_lines(rest@)) == start + lines_chunks(split_lines(whole)),
        ensures
            chunks_view(out@) == start + lines_chunks(split_lines(whole)),
        decreases rest@.len(),
    {
        let n = rest.len();
        match find_lf(&rest, 0) {
            Some(j) => {
                let end: usize = if j > 0 && rest[j - 1] == CR { j - 1 } else { j };
                let line = copy_range(&rest, 0, end);
                assert(line@ =~= strip_cr(rest@.subrange(0, j as int)));
                let next = copy_range(&rest, j + 1, n);
                proof {
                    lemma_lines_chunks_cons(line@, split_lines(next@));
                }
                let ghost prev = out@;
                match chunk_for_line(&line) {
                    Some(c) => {
                        out.push(c);
                        proof {
                            lemma_chunks_view_push(prev, c);
                            assert(seq![c@] + lines_chunks(split_lines(next@)) =~= seq![c@].add(lines_chunks(split_lines(next@))));
                        }
                    },
                    None => {},
                }
                rest = next;
            },
            None => {
                proof {
                    lemma_lines_chunks_cons(rest@, Seq::empty());
                    assert(seq![rest@] + Seq::<Seq<u8>>::empty() =~= seq![rest@]);
                }
                let ghost prev = out@;
                match chunk_for_line(&rest) {
                    Some(c) => {
                        out.push(c);
                        proof {
                            lemma_chunks_view_push(prev, c);
                        }
                    },
                    None => {},
                }
                break;
            },
        }
    }
}

} // verus!
