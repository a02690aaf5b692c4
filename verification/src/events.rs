//! The Hyprland event socket: lines of the form `name>>data`, read in
//! chunks and split into events.

use vstd::prelude::*;
use crate::text::{
    chars_of, index_of_char, index_of_char_exec, slice_vec, starts_with, starts_with_exec,
    string_of, string_of_range, trim, trim_vec,
};

verus! {

/// Events emitted by the Hyprland event stream.
#[derive(Debug, Clone)]
pub enum HyprEvent {
    /// Active window changed. Contains the window address.
    ActiveWindowV2(String),
    /// Monitor added or removed.
    MonitorChanged,
    /// Any other event we don't specifically handle.
    Other(String),
}

/// The event that a line of the socket stands for.
pub open spec fn is_event_for_line(e: HyprEvent, line: Seq<char>) -> bool {
    if starts_with(line, "activewindowv2>>"@) {
        e matches HyprEvent::ActiveWindowV2(a) && a@ == trim(
            line.skip("activewindowv2>>"@.len() as int),
        )
    } else if starts_with(line, "monitoraddedv2>>"@) || starts_with(line, "monitorremoved>>"@) {
        e is MonitorChanged
    } else {
        e matches HyprEvent::Other(s) && s@ == line
    }
}

/// Whether `s` begins with the literal `p`.
fn str_starts_with(s: &Vec<char>, p: &str) -> (r: bool)
    ensures
        r == starts_with(s@, p@),
{
    starts_with_exec(s, &chars_of(p))
}

/// Parses one line of the event socket.
pub fn parse_event(line: &str) -> (e: HyprEvent)
    ensures
        is_event_for_line(e, line@),
{
    let v = chars_of(line);
    let prefix = "activewindowv2>>";
    if str_starts_with(&v, prefix) {
        let p = chars_of(prefix);
        let rest = slice_vec(&v, p.len(), v.len());
        proof {
            assert(rest@ =~= line@.skip(prefix@.len() as int));
        }
        HyprEvent::ActiveWindowV2(string_of(&trim_vec(&rest)))
    } else if str_starts_with(&v, "monitoraddedv2>>") || str_starts_with(&v, "monitorremoved>>") {
        HyprEvent::MonitorChanged
    } else {
        HyprEvent::Other(line.to_owned())
    }
}

/// Maximum event line buffer size in bytes (64KB), against a misbehaving socket.
pub const MAX_EVENT_BUFFER: usize = 65536;

/// The first non-empty line of `rem` and what follows its newline, or
/// no line when `rem` holds no more newlines (empty lines are skipped).
pub open spec fn next_line(rem: Seq<char>) -> (Option<Seq<char>>, Seq<char>)
    decreases rem.len(),
{
    match index_of_char(rem, '\n') {
        Some(p) => if 0 <= p < rem.len() {
            if p == 0 {
                next_line(rem.skip(1))
            } else {
                (Some(rem.take(p)), rem.skip(p + 1))
            }
        } else {
            (None, rem)
        },
        None => (None, rem),
    }
}

pub proof fn lemma_next_line_shorter(rem: Seq<char>)
    ensures
        next_line(rem).1.len() <= rem.len(),
        next_line(rem).0 is Some ==> next_line(rem).1.len() < rem.len(),
    decreases rem.len(),
{
    crate::text::lemma_index_of_char(rem, '\n');
    if let Some(p) = index_of_char(rem, '\n') {
        if p == 0 {
            lemma_next_line_shorter(rem.skip(1));
        }
    }
}

/// The non-empty lines complete in `rem`, in order, and the text left
/// after them (which holds no complete line).
pub open spec fn stream_lines(rem: Seq<char>) -> (Seq<Seq<char>>, Seq<char>)
    decreases rem.len(),
{
    match next_line(rem).0 {
        Some(l) => {
            proof {
                lemma_next_line_shorter(rem);
            }
            let more = stream_lines(next_line(rem).1);
            (seq![l] + more.0, more.1)
        },
        None => (Seq::empty(), next_line(rem).1),
    }
}

proof fn lemma_index_concat(a: Seq<char>, b: Seq<char>, c: char)
    ensures
        index_of_char(a, c) matches Some(k) ==> index_of_char(a + b, c) == Some(k),
        index_of_char(a, c) is None ==> index_of_char(a + b, c) == match index_of_char(b, c) {
            Some(k) => Some(a.len() + k),
            None => None::<int>,
        },
{
    crate::text::lemma_index_of_char(a, c);
    crate::text::lemma_index_of_char(b, c);
    crate::text::lemma_index_of_char(a + b, c);
    let ab = a + b;
    match index_of_char(a, c) {
        Some(k) => {
            assert(ab[k] == c);
            if let Some(m) = index_of_char(ab, c) {
                if m < k {
                    assert(ab[m] == a[m]);
                }
            }
        },
        None => {
            match index_of_char(b, c) {
                Some(k) => {
                    assert(ab[a.len() + k] == c);
                    if let Some(m) = index_of_char(ab, c) {
                        if m < a.len() {
                            assert(ab[m] == a[m]);
                        } else if m < a.len() + k {
                            assert(ab[m] == b[m - a.len()]);
                        }
                    }
                },
                None => {
                    if let Some(m) = index_of_char(ab, c) {
                        if m < a.len() {
                            assert(ab[m] == a[m]);
                        } else {
                            assert(ab[m] == b[m - a.len()]);
                        }
                    }
                },
            }
        },
    }
}

proof fn lemma_next_line_concat(a: Seq<char>, b: Seq<char>)
    ensures
        next_line(a).0 is Some ==> next_line(a + b) == (next_line(a).0, next_line(a).1 + b),
        next_line(a).0 is None ==> next_line(a + b) == next_line(next_line(a).1 + b),
    decreases a.len(),
{
    lemma_index_concat(a, b, '\n');
    crate::text::lemma_index_of_char(a, '\n');
    match index_of_char(a, '\n') {
        Some(p) => {
            if p == 0 {
                lemma_next_line_concat(a.skip(1), b);
                assert((a + b).skip(1) =~= a.skip(1) + b);
            } else {
                assert((a + b).take(p) =~= a.take(p));
                assert((a + b).skip(p + 1) =~= a.skip(p + 1) + b);
            }
        },
        None => {},
    }
}

/// Reading the event socket in chunks gives the same lines as reading it
/// at once: the lines of `a` then `b` are those complete in `a`, then
/// those of what was left of `a` followed by `b`.
pub proof fn chunking_law(a: Seq<char>, b: Seq<char>)
    ensures
        ({
            let sa = stream_lines(a);
            let rest = stream_lines(sa.1 + b);
            stream_lines(a + b) == (sa.0 + rest.0, rest.1)
        }),
    decreases a.len(),
{
    lemma_next_line_concat(a, b);
    lemma_next_line_shorter(a);
    match next_line(a).0 {
        Some(l) => {
            let r = next_line(a).1;
            chunking_law(r, b);
            let sr = stream_lines(r);
            let rest = stream_lines(sr.1 + b);
            assert(seq![l] + (sr.0 + rest.0) =~= (seq![l] + sr.0) + rest.0);
        },
        None => {
            assert(stream_lines(a).0 =~= Seq::<Seq<char>>::empty());
            assert(stream_lines(a).0 + stream_lines(stream_lines(a).1 + b).0 =~= stream_lines(
                stream_lines(a).1 + b,
            ).0);
        },
    }
}

/// The length in bytes of the UTF-8 encoding of `s` (`str::len`).
pub open spec fn utf8_len(s: Seq<char>) -> usize {
    vstd::utf8::encode_utf8(s).len() as usize
}

/// What the stream yields after looking at its buffer.
pub enum EventStep {
    /// A complete line was found.
    Event(HyprEvent),
    /// No complete line yet: read more from the socket.
    NeedMore,
    /// The buffered partial line exceeds the size limit.
    Overflow,
}

/// The part of the Hyprland event stream that reassembles lines: bytes
/// read from the socket are appended, and complete lines are taken out.
pub struct EventBuffer {
    pub remainder: String,
}

impl EventBuffer {
    /// An empty buffer.
    pub fn new() -> (b: Self)
        ensures
            b.remainder@ == Seq::<char>::empty(),
    {
        EventBuffer { remainder: String::new() }
    }

    /// Appends a decoded chunk read from the socket.
    pub fn push_chunk(&mut self, chunk: &str)
        ensures
            final(self).remainder@ == old(self).remainder@ + chunk@,
    {
        self.remainder.append(chunk);
    }

    /// Takes the next non-empty line out of the buffer and parses it;
    /// without a complete line, asks for more data unless the buffered
    /// text exceeds `MAX_EVENT_BUFFER` bytes.
    pub fn next_step(&mut self) -> (r: EventStep)
        ensures
            final(self).remainder@ == next_line(old(self).remainder@).1,
            match r {
                EventStep::Event(e) => next_line(old(self).remainder@).0 matches Some(l)
                    && is_event_for_line(e, l),
                EventStep::NeedMore => next_line(old(self).remainder@).0 is None
                    && utf8_len(final(self).remainder@) <= MAX_EVENT_BUFFER,
                EventStep::Overflow => next_line(old(self).remainder@).0 is None
                    && utf8_len(final(self).remainder@) > MAX_EVENT_BUFFER,
            },
    {
        let ghost start = self.remainder@;
        let mut v = chars_of(self.remainder.as_str());
        loop
            invariant
                start == old(self).remainder@,
                next_line(start) == next_line(v@),
            decreases v@.len(),
        {
            match index_of_char_exec(&v, '\n') {
                Some(p) => {
                    proof {
                        crate::text::lemma_index_of_char(v@, '\n');
                    }
                    if p == 0 {
                        let w = slice_vec(&v, 1, v.len());
                        assert(w@ =~= v@.skip(1));
                        v = w;
                    } else {
                        let line = string_of_range(&v, 0, p);
                        let rest = string_of_range(&v, p + 1, v.len());
                        proof {
                            assert(line@ =~= v@.take(p as int));
                            assert(rest@ =~= v@.skip(p + 1));
                        }
                        self.remainder = rest;
                        return EventStep::Event(parse_event(line.as_str()));
                    }
                },
                None => {
                    assert(next_line(v@) == (None::<Seq<char>>, v@));
                    let rest = string_of(&v);
                    self.remainder = rest;
                    if self.remainder.as_str().len() > MAX_EVENT_BUFFER {
                        return EventStep::Overflow;
                    }
                    return EventStep::NeedMore;
                },
            }
        }
    }
}

} // verus!
