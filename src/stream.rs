//! The incremental stream parser: bytes in, ordered chunks and accumulated text out.
use vstd::prelude::*;
use vstd::string::*;
use vstd::slice::slice_to_vec;
use crate::frames::{split_frames, find_delim, find_delim_from, copy_range, lemma_find_delim_bounds,
    lemma_split_frames_append, lemma_pending_has_no_delim,
    lemma_find_delim_first, is_delim_at, LF};
use crate::events::{StreamChunk, chunks_view, lemma_chunks_view_push, frame_chunks, push_frame_chunks, lines_chunks, line_chunk,
    line_payload, split_lines, stream_event_of, done_sentinel, event_chunk};

verus! {

/// The chunks that a sequence of frames yields, in order.
pub open spec fn frames_chunks(fs: Seq<Seq<u8>>) -> Seq<(Seq<char>, bool)>
    decreases fs.len(),
{
    if fs.len() == 0 {
        Seq::empty()
    } else {
        frame_chunks(fs[0]) + frames_chunks(fs.drop_first())
    }
}

/// The chunks that `bytes` yields when parsed as one piece.
pub open spec fn stream_chunks(bytes: Seq<u8>) -> Seq<(Seq<char>, bool)> {
    frames_chunks(split_frames(bytes).0)
}

/// The deltas of the chunks that are not the end mark, concatenated in order.
pub open spec fn chunks_text(cs: Seq<(Seq<char>, bool)>) -> Seq<char>
    decreases cs.len(),
{
    if cs.len() == 0 {
        Seq::empty()
    } else {
        let last = cs.last();
        chunks_text(cs.drop_last()) + if last.1 { Seq::empty() } else { last.0 }
    }
}

/// All the parts, joined in order.
pub open spec fn concat_parts(parts: Seq<Seq<u8>>) -> Seq<u8>
    decreases parts.len(),
{
    if parts.len() == 0 {
        Seq::empty()
    } else {
        parts[0] + concat_parts(parts.drop_first())
    }
}

/// The chunks up to and including the first end mark; all of them when
/// there is none.
pub open spec fn until_end(cs: Seq<(Seq<char>, bool)>) -> Seq<(Seq<char>, bool)>
    decreases cs.len(),
{
    if cs.len() == 0 {
        Seq::empty()
    } else if cs[0].1 {
        seq![cs[0]]
    } else {
        seq![cs[0]] + until_end(cs.drop_first())
    }
}

/// Some chunk is an end mark.
pub open spec fn has_end(cs: Seq<(Seq<char>, bool)>) -> bool
    decreases cs.len(),
{
    cs.len() > 0 && (cs[0].1 || has_end(cs.drop_first()))
}

/// No chunk but the last is an end mark: there is at most one, and it is last.
pub open spec fn end_only_last(cs: Seq<(Seq<char>, bool)>) -> bool {
    forall|i: int| 0 <= i < cs.len() - 1 ==> !(#[trigger] cs[i]).1
}

pub proof fn lemma_frames_chunks_append(a: Seq<Seq<u8>>, b: Seq<Seq<u8>>)
    ensures
        frames_chunks(a + b) == frames_chunks(a) + frames_chunks(b),
    decreases a.len(),
{
    if a.len() == 0 {
        assert(a + b =~= b);
    } else {
        assert((a + b)[0] == a[0]);
        assert((a + b).drop_first() =~= a.drop_first() + b);
        lemma_frames_chunks_append(a.drop_first(), b);
        assert(frame_chunks(a[0]) + (frames_chunks(a.drop_first()) + frames_chunks(b))
            =~= frame_chunks(a[0]) + frames_chunks(a.drop_first()) + frames_chunks(b));
    }
}

pub proof fn lemma_chunks_text_append(a: Seq<(Seq<char>, bool)>, b: Seq<(Seq<char>, bool)>)
    ensures
        chunks_text(a + b) == chunks_text(a) + chunks_text(b),
    decreases b.len(),
{
    if b.len() == 0 {
        assert(a + b =~= a);
        assert(chunks_text(a) + Seq::<char>::empty() =~= chunks_text(a));
    } else {
        let last = b.last();
        assert((a + b).drop_last() =~= a + b.drop_last());
        assert((a + b).last() == last);
        lemma_chunks_text_append(a, b.drop_last());
        let tail = if last.1 { Seq::<char>::empty() } else { last.0 };
        assert(chunks_text(a) + chunks_text(b.drop_last()) + tail
            =~= chunks_text(a) + (chunks_text(b.drop_last()) + tail));
    }
}

pub proof fn lemma_concat_parts_push(parts: Seq<Seq<u8>>, c: Seq<u8>)
    ensures
        concat_parts(parts.push(c)) == concat_parts(parts) + c,
    decreases parts.len(),
{
    if parts.len() == 0 {
        assert(parts.push(c)[0] == c);
        assert(parts.push(c).drop_first() =~= Seq::<Seq<u8>>::empty());
        assert(c + Seq::<u8>::empty() =~= c);
        assert(concat_parts(parts.push(c).drop_first()) == Seq::<u8>::empty());
        assert(concat_parts(parts.push(c)) == c + Seq::<u8>::empty());
        assert(concat_parts(parts) + c =~= c);
    } else {
        assert(parts.push(c)[0] == parts[0]);
        assert(parts.push(c).drop_first() =~= parts.drop_first().push(c));
        lemma_concat_parts_push(parts.drop_first(), c);
        assert(concat_parts(parts.push(c)) == parts[0] + concat_parts(parts.drop_first().push(c)));
        assert(parts[0] + (concat_parts(parts.drop_first()) + c) =~= parts[0] + concat_parts(parts.drop_first()) + c);
    }
}

/// Bytes appended to a stream add the chunks of the frames they complete,
/// parsed from what was pending.
pub proof fn lemma_stream_chunks_extend(x: Seq<u8>, c: Seq<u8>)
    ensures
        stream_chunks(x + c) == stream_chunks(x) + frames_chunks(split_frames(split_frames(x).1 + c).0),
        split_frames(x + c).1 == split_frames(split_frames(x).1 + c).1,
{
    lemma_split_frames_append(x, c);
    lemma_frames_chunks_append(split_frames(x).0, split_frames(split_frames(x).1 + c).0);
}

pub proof fn lemma_has_end_append(a: Seq<(Seq<char>, bool)>, b: Seq<(Seq<char>, bool)>)
    ensures
        has_end(a + b) == (has_end(a) || has_end(b)),
    decreases a.len(),
{
    if a.len() == 0 {
        assert(a + b =~= b);
    } else {
        assert((a + b)[0] == a[0]);
        assert((a + b).drop_first() =~= a.drop_first() + b);
        lemma_has_end_append(a.drop_first(), b);
    }
}

pub proof fn lemma_until_end_append(a: Seq<(Seq<char>, bool)>, b: Seq<(Seq<char>, bool)>)
    ensures
        until_end(a + b) == if has_end(a) { until_end(a) } else { a + until_end(b) },
    decreases a.len(),
{
    if a.len() == 0 {
        assert(a + b =~= b);
        assert(a + until_end(b) =~= until_end(b));
    } else {
        assert((a + b)[0] == a[0]);
        assert((a + b).drop_first() =~= a.drop_first() + b);
        lemma_until_end_append(a.drop_first(), b);
        if !a[0].1 && !has_end(a.drop_first()) {
            assert(seq![a[0]] + (a.drop_first() + until_end(b)) =~= a + until_end(b));
        }
    }
}

/// What `until_end` keeps has an end mark exactly when the input has one,
/// and then only as its last chunk; without one it keeps everything.
pub proof fn lemma_until_end_shape(cs: Seq<(Seq<char>, bool)>)
    ensures
        end_only_last(until_end(cs)),
        has_end(until_end(cs)) == has_end(cs),
        !has_end(cs) ==> until_end(cs) == cs,
    decreases cs.len(),
{
    if cs.len() > 0 {
        lemma_until_end_shape(cs.drop_first());
        let u = until_end(cs);
        let r = until_end(cs.drop_first());
        assert(u[0] == cs[0]);
        if !cs[0].1 {
            assert(u.drop_first() =~= r);
            assert forall|i: int| 0 <= i < u.len() - 1 implies !(#[trigger] u[i]).1 by {
                if i > 0 {
                    assert(u[i] == r[i - 1]);
                }
            }
            if !has_end(cs) {
                assert(seq![cs[0]] + cs.drop_first() =~= cs);
            }
        }
    }
}

/// Take every complete frame off the front of `buf`: the chunks they yield,
/// in order, and the bytes left pending.
pub fn take_frames(buf: Vec<u8>) -> (r: (Vec<StreamChunk>, Vec<u8>))
    ensures
        chunks_view(r.0@) == stream_chunks(buf@),
        r.1@ == split_frames(buf@).1,
{
    let ghost all = buf@;
    let mut buf = buf;
    let mut out: Vec<StreamChunk> = Vec::new();
    loop
        invariant_except_break
            chunks_view(out@) + frames_chunks(split_frames(buf@).0) == frames_chunks(split_frames(all).0),
            split_frames(buf@).1 == split_frames(all).1,
        ensures
            chunks_view(out@) == frames_chunks(split_frames(all).0),
            buf@ == split_frames(all).1,
        decreases buf@.len(),
    {
        match find_delim(&buf, 0) {
            Some(i) => {
                proof {
                    lemma_find_delim_bounds(buf@, 0);
                }
                let n = buf.len();
                let frame = copy_range(&buf, 0, i);
                let next = copy_range(&buf, i + 2, n);
                let ghost prev = chunks_view(out@);
                push_frame_chunks(frame, &mut out);
                proof {
                    let fs = split_frames(buf@).0;
                    assert(fs[0] == frame@);
                    assert(fs.drop_first() =~= split_frames(next@).0);
                    assert(prev + frame_chunks(frame@) + frames_chunks(split_frames(next@).0)
                        =~= prev + (frame_chunks(frame@) + frames_chunks(split_frames(next@).0)));
                }
                buf = next;
            },
            None => {
                assert(chunks_view(out@) + Seq::<(Seq<char>, bool)>::empty() =~= chunks_view(out@));
                break;
            },
        }
    }
    (out, buf)
}

/// Append to `text` the deltas of the chunks that are not the end mark, in order.
pub fn append_text(text: &mut String, out: &Vec<StreamChunk>)
    ensures
        final(text)@ == old(text)@ + chunks_text(chunks_view(out@)),
{
    let ghost before = text@;
    let mut k: usize = 0;
    while k < out.len()
        invariant
            0 <= k <= out@.len(),
            text@ == before + chunks_text(chunks_view(out@).subrange(0, k as int)),
        decreases out@.len() - k,
    {
        let ghost done_part = chunks_view(out@).subrange(0, k as int);
        let ghost next_part = chunks_view(out@).subrange(0, k + 1 as int);
        assert(next_part.drop_last() =~= done_part);
        assert(next_part.last() == out@[k as int]@);
        if !out[k].done {
            text.append(out[k].delta.as_str());
        }
        assert(before + chunks_text(done_part) + (if out@[k as int].done { Seq::<char>::empty() } else { out@[k as int].delta@ })
            =~= before + (chunks_text(done_part) + (if out@[k as int].done { Seq::<char>::empty() } else { out@[k as int].delta@ })));
        k = k + 1;
    }
    assert(chunks_view(out@).subrange(0, out@.len() as int) =~= chunks_view(out@));
}

/// Keep the chunks up to and including the first end mark.
pub fn until_end_exec(raw: &Vec<StreamChunk>) -> (r: Vec<StreamChunk>)
    ensures
        chunks_view(r@) == until_end(chunks_view(raw@)),
{
    let ghost rv = chunks_view(raw@);
    let n = raw.len();
    let mut out: Vec<StreamChunk> = Vec::new();
    let mut k: usize = 0;
    assert(rv.subrange(0, n as int) =~= rv);
    assert(chunks_view(out@) + until_end(rv) =~= until_end(rv));
    while k < n
        invariant_except_break
            n == raw@.len(),
            rv == chunks_view(raw@),
            k <= n,
            chunks_view(out@) + until_end(rv.subrange(k as int, n as int)) == until_end(rv),
        ensures
            chunks_view(out@) == until_end(rv),
        decreases n - k,
    {
        let ghost rest = rv.subrange(k as int, n as int);
        assert(rest[0] == raw@[k as int]@);
        assert(rest.drop_first() =~= rv.subrange(k + 1 as int, n as int));
        let is_done = raw[k].done;
        let c = StreamChunk { delta: raw[k].delta.clone(), done: is_done };
        let ghost prev = out@;
        out.push(c);
        proof {
            lemma_chunks_view_push(prev, c);
        }
        if is_done {
            assert(chunks_view(out@) =~= chunks_view(prev) + until_end(rest));
            break;
        }
        assert(chunks_view(prev) + until_end(rest) =~= chunks_view(out@) + until_end(rv.subrange(k + 1 as int, n as int)));
        k = k + 1;
    }
    proof {
        if k == n {
            assert(rv.subrange(n as int, n as int) =~= Seq::<(Seq<char>, bool)>::empty());
            assert(chunks_view(out@) + Seq::<(Seq<char>, bool)>::empty() =~= chunks_view(out@));
        }
    }
    out
}

/// The parser of one response stream. It holds the bytes of an unfinished
/// frame and the text accumulated so far; after the first end mark it emits
/// and accumulates nothing more.
pub struct StreamParser {
    buffer: Vec<u8>,
    text: String,
    stopped: bool,
    received: Ghost<Seq<Seq<u8>>>,
    emitted: Ghost<Seq<(Seq<char>, bool)>>,
}

impl StreamParser {
    /// The bytes received after the last complete frame.
    pub closed spec fn pending(&self) -> Seq<u8> {
        self.buffer@
    }

    /// Every chunk of bytes received so far, in order.
    pub closed spec fn received(&self) -> Seq<Seq<u8>> {
        self.received@
    }

    /// Every chunk emitted so far, in order.
    pub closed spec fn emitted(&self) -> Seq<(Seq<char>, bool)> {
        self.emitted@
    }

    /// The text accumulated so far.
    pub closed spec fn text(&self) -> Seq<char> {
        self.text@
    }

    /// What was emitted is what the received bytes yield as one piece, up
    /// to the first end mark; the accumulated text is the text of it.
    pub closed spec fn wf(&self) -> bool {
        &&& self.emitted@ == until_end(stream_chunks(concat_parts(self.received@)))
        &&& self.buffer@ == split_frames(concat_parts(self.received@)).1
        &&& self.stopped == has_end(self.emitted@)
        &&& self.text@ == chunks_text(self.emitted@)
    }

    pub fn new() -> (r: StreamParser)
        ensures
            r.wf(),
            r.pending() == Seq::<u8>::empty(),
            r.received() == Seq::<Seq<u8>>::empty(),
            r.emitted() == Seq::<(Seq<char>, bool)>::empty(),
            r.text() == Seq::<char>::empty(),
    {
        let r = StreamParser {
            buffer: Vec::new(),
            text: String::new(),
            stopped: false,
            received: Ghost(Seq::empty()),
            emitted: Ghost(Seq::empty()),
        };
        assert(split_frames(Seq::<u8>::empty()).0 =~= Seq::<Seq<u8>>::empty());
        r
    }

    /// Take in one chunk of bytes as it arrived. Return the chunks of every
    /// frame that it completes, in order, up to the first end mark of the
    /// stream, and add their text to the accumulated text. However the bytes
    /// were cut into chunks, what has been emitted is what they yield as one
    /// piece; it holds at most one end mark, and only as its last chunk.
    pub fn feed(&mut self, chunk: &[u8]) -> (r: Vec<StreamChunk>)
        requires
            old(self).wf(),
        ensures
            final(self).wf(),
            final(self).received() == old(self).received().push(chunk@),
            final(self).emitted() == until_end(stream_chunks(concat_parts(final(self).received()))),
            final(self).pending() == split_frames(concat_parts(final(self).received())).1,
            final(self).emitted() == old(self).emitted() + chunks_view(r@),
            final(self).text() == old(self).text() + chunks_text(chunks_view(r@)),
            chunks_view(r@) == if has_end(old(self).emitted()) {
                Seq::empty()
            } else {
                until_end(frames_chunks(split_frames(old(self).pending() + chunk@).0))
            },
            final(self).pending() == split_frames(old(self).pending() + chunk@).1,
            find_delim_from(final(self).pending(), 0).is_none(),
            end_only_last(final(self).emitted()),
            has_end(final(self).emitted()) == has_end(stream_chunks(concat_parts(final(self).received()))),
    {
        let ghost x = concat_parts(self.received@);
        let ghost all = x + chunk@;
        let mut incoming = slice_to_vec(chunk);
        let mut buf = Vec::new();
        std::mem::swap(&mut buf, &mut self.buffer);
        buf.append(&mut incoming);
        let (raw, rest) = take_frames(buf);
        proof {
            lemma_pending_has_no_delim(buf@);
            lemma_concat_parts_push(self.received@, chunk@);
            lemma_stream_chunks_extend(x, chunk@);
            lemma_until_end_append(stream_chunks(x), chunks_view(raw@));
            lemma_until_end_shape(stream_chunks(x));
            lemma_until_end_shape(stream_chunks(all));
        }
        self.buffer = rest;
        let out = if self.stopped { Vec::new() } else { until_end_exec(&raw) };
        if !self.stopped {
            proof {
                lemma_until_end_shape(chunks_view(raw@));
            }
            self.stopped = has_end_exec(&out);
        }
        append_text(&mut self.text, &out);
        proof {
            lemma_chunks_text_append(self.emitted@, chunks_view(out@));
            lemma_has_end_append(self.emitted@, chunks_view(out@));
            assert(chunks_view(out@) + Seq::<(Seq<char>, bool)>::empty() =~= chunks_view(out@));
            assert(self.emitted@ + Seq::<(Seq<char>, bool)>::empty() =~= self.emitted@);
        }
        self.received = Ghost(self.received@.push(chunk@));
        self.emitted = Ghost(self.emitted@ + chunks_view(out@));
        out
    }

    /// End the stream: the accumulated text, which is the deltas of every
    /// emitted chunk but the end mark, in order. Bytes of an unfinished
    /// frame are dropped.
    pub fn finish(self) -> (r: String)
        requires
            self.wf(),
        ensures
            r@ == self.text(),
            r@ == chunks_text(self.emitted()),
    {
        self.text
    }
}

/// Whether one of the chunks is an end mark.
pub fn has_end_exec(cs: &Vec<StreamChunk>) -> (r: bool)
    ensures
        r == has_end(chunks_view(cs@)),
{
    let ghost cv = chunks_view(cs@);
    let n = cs.len();
    let mut k: usize = n;
    let mut found = false;
    while k > 0
        invariant
            n == cs@.len(),
            cv == chunks_view(cs@),
            k <= n,
            found == has_end(cv.subrange(k as int, n as int)),
        decreases k,
    {
        k = k - 1;
        let ghost tail = cv.subrange(k as int, n as int);
        assert(tail[0] == cs@[k as int]@);
        assert(tail.drop_first() =~= cv.subrange(k + 1 as int, n as int));
        found = cs[k].done || found;
    }
    assert(cv.subrange(0, n as int) =~= cv);
    found
}

/// The event of a line: the decoded payload of a data line that is not the sentinel.
pub open spec fn line_event(line: Seq<u8>) -> Option<(Seq<char>, Option<Seq<char>>)> {
    match line_payload(line) {
        Some(p) => if p == done_sentinel() { None } else { stream_event_of(p) },
        None => None,
    }
}

/// The events of a sequence of lines, in order.
pub open spec fn lines_events(ls: Seq<Seq<u8>>) -> Seq<(Seq<char>, Option<Seq<char>>)>
    decreases ls.len(),
{
    if ls.len() == 0 {
        Seq::empty()
    } else {
        let rest = lines_events(ls.drop_first());
        match line_event(ls[0]) {
            Some(e) => seq![e] + rest,
            None => rest,
        }
    }
}

/// The events of a sequence of frames, in order.
pub open spec fn frames_events(fs: Seq<Seq<u8>>) -> Seq<(Seq<char>, Option<Seq<char>>)>
    decreases fs.len(),
{
    if fs.len() == 0 {
        Seq::empty()
    } else {
        lines_events(split_lines(fs[0])) + frames_events(fs.drop_first())
    }
}

/// The events that `bytes` carries in its complete frames, in order.
pub open spec fn stream_events(bytes: Seq<u8>) -> Seq<(Seq<char>, Option<Seq<char>>)> {
    frames_events(split_frames(bytes).0)
}

/// The chunks that a sequence of events yields, in order.
pub open spec fn events_chunks(es: Seq<(Seq<char>, Option<Seq<char>>)>) -> Seq<(Seq<char>, bool)>
    decreases es.len(),
{
    if es.len() == 0 {
        Seq::empty()
    } else {
        let rest = events_chunks(es.drop_first());
        match event_chunk(es[0]) {
            Some(c) => seq![c] + rest,
            None => rest,
        }
    }
}

pub open spec fn is_stop(e: (Seq<char>, Option<Seq<char>>)) -> bool {
    e.0 == "message_stop"@
}

pub proof fn lemma_events_chunks_append(a: Seq<(Seq<char>, Option<Seq<char>>)>, b: Seq<(Seq<char>, Option<Seq<char>>)>)
    ensures
        events_chunks(a + b) == events_chunks(a) + events_chunks(b),
    decreases a.len(),
{
    if a.len() == 0 {
        assert(a + b =~= b);
    } else {
        assert((a + b)[0] == a[0]);
        assert((a + b).drop_first() =~= a.drop_first() + b);
        lemma_events_chunks_append(a.drop_first(), b);
        match event_chunk(a[0]) {
            Some(c) => {
                assert(seq![c] + (events_chunks(a.drop_first()) + events_chunks(b))
                    =~= seq![c] + events_chunks(a.drop_first()) + events_chunks(b));
            },
            None => {},
        }
    }
}

proof fn lemma_lines_chunks_via_events(ls: Seq<Seq<u8>>)
    ensures
        lines_chunks(ls) == events_chunks(lines_events(ls)),
    decreases ls.len(),
{
    if ls.len() > 0 {
        lemma_lines_chunks_via_events(ls.drop_first());
        match line_event(ls[0]) {
            Some(e) => {
                let es = seq![e] + lines_events(ls.drop_first());
                assert(es[0] == e);
                assert(es.drop_first() =~= lines_events(ls.drop_first()));
            },
            None => {},
        }
    }
}

/// The chunks of a stream are those of its events, in order.
pub proof fn lemma_stream_chunks_via_events(fs: Seq<Seq<u8>>)
    ensures
        frames_chunks(fs) == events_chunks(frames_events(fs)),
    decreases fs.len(),
{
    if fs.len() > 0 {
        lemma_stream_chunks_via_events(fs.drop_first());
        lemma_lines_chunks_via_events(split_lines(fs[0]));
        lemma_events_chunks_append(lines_events(split_lines(fs[0])), frames_events(fs.drop_first()));
    }
}

proof fn lemma_end_iff_stop(es: Seq<(Seq<char>, Option<Seq<char>>)>)
    ensures
        has_end(events_chunks(es)) <==> exists|i: int| 0 <= i < es.len() && is_stop(#[trigger] es[i]),
    decreases es.len(),
{
    if es.len() > 0 {
        let e = es[0];
        let tail = es.drop_first();
        lemma_end_iff_stop(tail);
        reveal_strlit("message_stop");
        reveal_strlit("content_block_delta");
        assert("message_stop"@.len() != "content_block_delta"@.len());
        if exists|j: int| 0 <= j < tail.len() && is_stop(#[trigger] tail[j]) {
            let j = choose|j: int| 0 <= j < tail.len() && is_stop(#[trigger] tail[j]);
            assert(es[j + 1] == tail[j]);
        }
        if exists|i: int| 0 <= i < es.len() && is_stop(#[trigger] es[i]) {
            let i = choose|i: int| 0 <= i < es.len() && is_stop(#[trigger] es[i]);
            if i > 0 {
                assert(tail[i - 1] == es[i]);
            }
        }
        match event_chunk(e) {
            Some(c) => {
                let cs = seq![c] + events_chunks(tail);
                assert(cs[0] == c);
                assert(cs.drop_first() =~= events_chunks(tail));
                assert(c.1 == is_stop(e));
            },
            None => {
                assert(!is_stop(e));
            },
        }
    }
}

/// The stream holds an end mark exactly when one of its events is a stop
/// event; with the parser's cut at the first end mark, it is then emitted
/// once.
pub proof fn lemma_end_mark_iff_stop_event(bytes: Seq<u8>)
    ensures
        has_end(stream_chunks(bytes))
            <==> exists|i: int| 0 <= i < stream_events(bytes).len() && is_stop(#[trigger] stream_events(bytes)[i]),
        has_end(until_end(stream_chunks(bytes))) == has_end(stream_chunks(bytes)),
        end_only_last(until_end(stream_chunks(bytes))),
{
    lemma_stream_chunks_via_events(split_frames(bytes).0);
    lemma_end_iff_stop(stream_events(bytes));
    lemma_until_end_shape(stream_chunks(bytes));
}

/// A line whose payload does not decode yields nothing, and the lines around
/// it yield what they yield without it.
pub proof fn lemma_malformed_line_skipped(a: Seq<Seq<u8>>, line: Seq<u8>, b: Seq<Seq<u8>>)
    requires
        line_payload(line) matches Some(p) && stream_event_of(p).is_none(),
    ensures
        lines_chunks(a + seq![line] + b) == lines_chunks(a) + lines_chunks(b),
    decreases a.len(),
{
    if a.len() == 0 {
        let s = seq![line] + b;
        assert(a + seq![line] + b =~= s);
        assert(s[0] == line);
        assert(s.drop_first() =~= b);
        assert(line_chunk(line).is_none());
    } else {
        let s = a + seq![line] + b;
        assert(s[0] == a[0]);
        assert(s.drop_first() =~= a.drop_first() + seq![line] + b);
        lemma_malformed_line_skipped(a.drop_first(), line, b);
        match line_chunk(a[0]) {
            Some(c) => {
                assert(seq![c] + (lines_chunks(a.drop_first()) + lines_chunks(b))
                    =~= seq![c] + lines_chunks(a.drop_first()) + lines_chunks(b));
            },
            None => {},
        }
    }
}

/// A frame whose data payloads all fail to decode yields nothing: the frames
/// before and after it yield what they yield without it.
pub proof fn lemma_malformed_frame_skipped(a: Seq<Seq<u8>>, frame: Seq<u8>, b: Seq<Seq<u8>>)
    requires
        forall|i: int| 0 <= i < split_lines(frame).len() ==>
            (#[trigger] line_payload(split_lines(frame)[i]) matches Some(p) ==> stream_event_of(p).is_none()),
    ensures
        frames_chunks(a + seq![frame] + b) == frames_chunks(a) + frames_chunks(b),
{
    let ls = split_lines(frame);
    lemma_no_line_events(ls);
    lemma_lines_chunks_via_events(ls);
    assert(frame_chunks(frame) =~= Seq::<(Seq<char>, bool)>::empty());
    lemma_frames_chunks_append(a, seq![frame] + b);
    let s = seq![frame] + b;
    assert(s[0] == frame);
    assert(s.drop_first() =~= b);
    assert(a + seq![frame] + b =~= a + s);
    assert(frames_chunks(s) =~= frames_chunks(b));
}

proof fn lemma_no_line_events(ls: Seq<Seq<u8>>)
    requires
        forall|i: int| 0 <= i < ls.len() ==>
            (#[trigger] line_payload(ls[i]) matches Some(p) ==> stream_event_of(p).is_none()),
    ensures
        lines_events(ls).len() == 0,
    decreases ls.len(),
{
    if ls.len() > 0 {
        assert(line_payload(ls[0]) matches Some(p) ==> stream_event_of(p).is_none());
        assert forall|i: int| 0 <= i < ls.drop_first().len() implies
            (#[trigger] line_payload(ls.drop_first()[i]) matches Some(p) ==> stream_event_of(p).is_none()) by {
            assert(ls.drop_first()[i] == ls[i + 1]);
        }
        lemma_no_line_events(ls.drop_first());
    }
}

/// In a byte stream, a frame whose data payloads all fail to decode, sent
/// after complete frames, changes nothing: the stream yields the chunks, and
/// leaves pending the bytes, that it would without that frame.
pub proof fn lemma_malformed_frame_in_stream(before: Seq<u8>, frame: Seq<u8>, after: Seq<u8>)
    requires
        split_frames(before).1.len() == 0,
        find_delim_from(frame, 0).is_none(),
        frame.len() == 0 || frame.last() != LF,
        forall|i: int| 0 <= i < split_lines(frame).len() ==>
            (#[trigger] line_payload(split_lines(frame)[i]) matches Some(p) ==> stream_event_of(p).is_none()),
    ensures
        stream_chunks(before + (frame + seq![LF, LF] + after)) == stream_chunks(before + after),
        split_frames(before + (frame + seq![LF, LF] + after)).1 == split_frames(before + after).1,
{
    let y = frame + seq![LF, LF] + after;
    let n = frame.len();
    lemma_split_frames_append(before, y);
    lemma_split_frames_append(before, after);
    assert(split_frames(before).1 + y =~= y);
    assert(split_frames(before).1 + after =~= after);
    lemma_find_delim_bounds(frame, 0);
    assert forall|k: int| 0 <= k < n implies !is_delim_at(y, k) by {
        assert(y[k] == frame[k]);
        if k + 1 < n {
            assert(!is_delim_at(frame, k));
            assert(y[k + 1] == frame[k + 1]);
        } else {
            assert(y[k + 1] == LF);
            assert(frame.last() == frame[k]);
        }
    }
    assert(y[n as int] == LF && y[n + 1 as int] == LF);
    lemma_find_delim_first(y, 0, n);
    assert(y.subrange(0, n as int) =~= frame);
    assert(y.subrange(n + 2 as int, y.len() as int) =~= after);
    let a = split_frames(before).0;
    let b = split_frames(after).0;
    assert(split_frames(y).0 == seq![frame] + b);
    lemma_malformed_frame_skipped(a, frame, b);
    lemma_frames_chunks_append(a, b);
    assert(a + (seq![frame] + b) =~= a + seq![frame] + b);
    assert(split_frames(before + y).0 == a + (seq![frame] + b));
    assert(split_frames(before + after).0 == a + b);
}

} // verus!
