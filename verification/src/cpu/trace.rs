//! An optional, purely observational event log.  When a sink is bound,
//! every fetch-for-execution, memory load, memory store and I/O event is
//! appended as one line with a monotonically increasing sequence number.
//! Tracing is strictly additive: it never affects execution semantics, and
//! an in-memory sink cannot fail to append.
//!
//! The contracts here pin the log down exactly: each event appends one
//! line, rendered by `at_line` or `io_line` from the event's words and the
//! sequence number the event drew, and nothing else ever touches the log.

use vstd::prelude::*;

use crate::cpu::word::Word;
use crate::text::{dec_chars, i64_to_string, int_chars, u64_to_string};

verus! {

/// An append-only sink of trace lines.
pub struct TraceLog {
    lines: Vec<String>,
}

impl View for TraceLog {
    type V = Seq<Seq<char>>;

    /// The recorded lines, oldest first, as character sequences.
    closed spec fn view(&self) -> Seq<Seq<char>> {
        self.lines@.map_values(|l: String| l@)
    }
}

impl TraceLog {
    /// An empty log.
    pub fn new() -> (r: TraceLog)
        ensures
            r@ == Seq::<Seq<char>>::empty(),
    {
        let r = TraceLog { lines: Vec::new() };
        proof {
            assert(r@ =~= Seq::<Seq<char>>::empty());
        }
        r
    }

    /// The recorded lines, oldest first.
    pub fn lines(&self) -> (r: &Vec<String>)
        ensures
            r@.map_values(|l: String| l@) == self@,
    {
        &self.lines
    }

    fn append(&mut self, line: String)
        ensures
            final(self)@ == old(self)@.push(line@),
    {
        let ghost pre = self.lines@;
        self.lines.push(line);
        proof {
            assert(self@ =~= pre.map_values(|l: String| l@).push(line@));
        }
    }
}

/// The semantic state of a tracer: the sequence number its next event will
/// carry, and the lines of its sink, when one is bound.
#[verifier::ext_equal]
pub struct TraceState {
    /// The sequence number the next event draws.
    pub seqno: u64,
    /// The recorded lines of the bound sink, oldest first, or nothing when
    /// no sink is bound.
    pub sink: Option<Seq<Seq<char>>>,
}

/// The sequence number after one event: the successor, wrapping at the top
/// of the range.
pub open spec fn next_seqno(n: u64) -> u64 {
    if n == u64::MAX {
        0
    } else {
        (n + 1) as u64
    }
}

/// The line recorded for an event at an address:
/// `<seq> @<addr>: <kind> <value>`.
pub open spec fn at_line(seq: u64, kind: Seq<char>, addr: i64, value: i64) -> Seq<char> {
    dec_chars(seq as nat) + " @"@ + int_chars(addr as int) + ": "@ + kind + " "@ + int_chars(
        value as int,
    )
}

/// The line recorded for an I/O event: `<seq> <kind>:<value>`.
pub open spec fn io_line(seq: u64, kind: Seq<char>, value: i64) -> Seq<char> {
    dec_chars(seq as nat) + " "@ + kind + ":"@ + int_chars(value as int)
}

/// What recording one event does to a tracer's state: the sequence number
/// advances, and when a sink is bound the event's line is appended to it.
pub open spec fn traced(pre: TraceState, line: Seq<char>) -> TraceState {
    TraceState {
        seqno: next_seqno(pre.seqno),
        sink: match pre.sink {
            Some(lines) => Some(lines.push(line)),
            None => None,
        },
    }
}

/// Whether `post` can follow `pre` by recording zero or more events: the
/// binding of a sink is unchanged, and a bound sink's lines only grow at
/// the end.  Every processor step extends its trace in this sense.
pub open spec fn trace_extends(pre: TraceState, post: TraceState) -> bool {
    match (pre.sink, post.sink) {
        (Some(a), Some(b)) => a.is_prefix_of(b),
        (None, None) => true,
        _ => false,
    }
}

/// Recording nothing extends a trace.
pub proof fn lemma_trace_extends_refl(t: TraceState)
    ensures
        trace_extends(t, t),
{
    match t.sink {
        Some(a) => {
            assert(a =~= a.subrange(0, a.len() as int));
        },
        None => (),
    }
}

/// Recording one event extends a trace.
pub proof fn lemma_traced_extends(t: TraceState, line: Seq<char>)
    ensures
        trace_extends(t, traced(t, line)),
{
    match t.sink {
        Some(a) => {
            assert(a =~= a.push(line).subrange(0, a.len() as int));
        },
        None => (),
    }
}

/// Extension composes: a trace recorded in two stretches is an extension
/// of where it began.
pub proof fn lemma_trace_extends_trans(a: TraceState, b: TraceState, c: TraceState)
    requires
        trace_extends(a, b),
        trace_extends(b, c),
    ensures
        trace_extends(a, c),
{
    match (a.sink, b.sink, c.sink) {
        (Some(x), Some(y), Some(z)) => {
            assert(x =~= z.subrange(0, x.len() as int));
        },
        _ => (),
    }
}

/// The event recorder bound to one processor.
pub struct Tracer {
    event_seqno: u64,
    output: Option<TraceLog>,
}

impl View for Tracer {
    type V = TraceState;

    closed spec fn view(&self) -> TraceState {
        TraceState {
            seqno: self.event_seqno,
            sink: match self.output {
                Some(log) => Some(log@),
                None => None,
            },
        }
    }
}

impl Tracer {
    /// A tracer with no sink bound: events are counted but not recorded.
    pub fn new() -> (r: Tracer)
        ensures
            r@ == (TraceState { seqno: 0, sink: None }),
    {
        Tracer { event_seqno: 0, output: None }
    }

    /// Bind a sink; subsequent events are appended to it.
    pub fn enable(&mut self, sink: TraceLog)
        ensures
            final(self)@ == (TraceState { seqno: old(self)@.seqno, sink: Some(sink@) }),
    {
        self.output = Some(sink);
    }

    /// Unbind and return the sink, if one was bound.
    pub fn close(&mut self) -> (r: Option<TraceLog>)
        ensures
            final(self)@ == (TraceState { seqno: old(self)@.seqno, sink: None }),
            match r {
                Some(log) => old(self)@.sink == Some(log@),
                None => old(self)@.sink is None,
            },
    {
        self.output.take()
    }

    /// Draw the next sequence number.
    fn next_seq(&mut self) -> (r: u64)
        ensures
            r == old(self)@.seqno,
            final(self)@ == (TraceState { seqno: next_seqno(old(self)@.seqno), ..old(self)@ }),
    {
        let result = self.event_seqno;
        self.event_seqno = if self.event_seqno == u64::MAX {
            0
        } else {
            self.event_seqno + 1
        };
        result
    }

    /// Append `line` to the sink, when one is bound.
    fn record(&mut self, line: String)
        ensures
            final(self)@.seqno == old(self)@.seqno,
            match old(self)@.sink {
                Some(lines) => final(self)@.sink == Some(lines.push(line@)),
                None => final(self)@.sink is None,
            },
    {
        let taken = self.output.take();
        match taken {
            Some(mut log) => {
                log.append(line);
                self.output = Some(log);
            },
            None => (),
        }
    }

    /// One line for an event at an address: "<seq> @<addr>: <kind> <value>".
    fn trace_at(&mut self, kind: &str, addr: Word, value: Word)
        ensures
            final(self)@ == traced(old(self)@, at_line(old(self)@.seqno, kind@, addr.0, value.0)),
            trace_extends(old(self)@, final(self)@),
    {
        proof {
            lemma_traced_extends(self@, at_line(self@.seqno, kind@, addr.0, value.0));
        }
        let seq = self.next_seq();
        if self.output.is_some() {
            let mut line = u64_to_string(seq);
            line.append(" @");
            line.append(i64_to_string(addr.0).as_str());
            line.append(": ");
            line.append(kind);
            line.append(" ");
            line.append(i64_to_string(value.0).as_str());
            self.record(line);
        }
    }

    /// One line for an I/O event: "<seq> <kind>:<value>".
    fn trace_io(&mut self, kind: &str, value: Word)
        ensures
            final(self)@ == traced(old(self)@, io_line(old(self)@.seqno, kind@, value.0)),
            trace_extends(old(self)@, final(self)@),
    {
        proof {
            lemma_traced_extends(self@, io_line(self@.seqno, kind@, value.0));
        }
        let seq = self.next_seq();
        if self.output.is_some() {
            let mut line = u64_to_string(seq);
            line.append(" ");
            line.append(kind);
            line.append(":");
            line.append(i64_to_string(value.0).as_str());
            self.record(line);
        }
    }

    /// Record the fetch of `instruction` for execution at `pc`.
    pub fn trace_execution(&mut self, pc: Word, instruction: Word)
        ensures
            final(self)@ == traced(
                old(self)@,
                at_line(old(self)@.seqno, "execute"@, pc.0, instruction.0),
            ),
            trace_extends(old(self)@, final(self)@),
    {
        self.trace_at("execute", pc, instruction);
    }

    /// Record a memory load.
    pub fn trace_mem_load(&mut self, addr: Word, value: Word)
        ensures
            final(self)@ == traced(
                old(self)@,
                at_line(old(self)@.seqno, "load"@, addr.0, value.0),
            ),
            trace_extends(old(self)@, final(self)@),
    {
        self.trace_at("load", addr, value);
    }

    /// Record a memory store.
    pub fn trace_mem_store(&mut self, addr: Word, value: Word)
        ensures
            final(self)@ == traced(
                old(self)@,
                at_line(old(self)@.seqno, "store"@, addr.0, value.0),
            ),
            trace_extends(old(self)@, final(self)@),
    {
        self.trace_at("store", addr, value);
    }

    /// Record a word read from the input port.
    pub fn trace_io_read(&mut self, value: Word)
        ensures
            final(self)@ == traced(old(self)@, io_line(old(self)@.seqno, "io-read"@, value.0)),
            trace_extends(old(self)@, final(self)@),
    {
        self.trace_io("io-read", value);
    }

    /// Record a word offered to the output port.
    pub fn trace_io_write(&mut self, value: Word)
        ensures
            final(self)@ == traced(old(self)@, io_line(old(self)@.seqno, "io-write"@, value.0)),
            trace_extends(old(self)@, final(self)@),
    {
        self.trace_io("io-write", value);
    }
}

} // verus!
