//! Pluggable input and output for the processor.
//!
//! Callers supply an input source and an output sink; any concrete I/O
//! strategy (a fixed list, a cooperating bus between several processors,
//! an interactive console) implements these traits.  An input port that
//! currently has nothing on offer answers `NoInput`, which an orchestrator
//! may treat as "yield" rather than as a crash.

use vstd::prelude::*;

use crate::cpu::fault::InputOutputError;
use crate::cpu::word::Word;

verus! {

/// A source of input words.
///
/// `avail()` models the words the port has on offer, in order.  A call
/// with something on offer must return the first word; a call with nothing
/// on offer must report `NoInput`.  A port for which `fifo()` holds is a
/// plain queue: a successful call removes exactly the word it returned,
/// and nothing else disturbs the queue.  A port may instead compute its
/// offer from mutable state of its own (`fifo()` false); the contract then
/// says nothing about its offer after the call.
pub trait InputPort: Sized {
    /// The words this port will supply next, in order.
    spec fn avail(&self) -> Seq<i64>;

    /// Whether this port behaves as a plain depleting queue.
    spec fn fifo(&self) -> bool;

    /// Supply the next input word, or report that none is available.
    fn next_input(&mut self) -> (r: Result<Word, InputOutputError>)
        ensures
            final(self).fifo() == old(self).fifo(),
            old(self).avail().len() > 0 ==> r == Ok::<Word, InputOutputError>(
                Word(old(self).avail()[0]),
            ),
            old(self).avail().len() == 0 ==> r == Err::<Word, InputOutputError>(
                InputOutputError::NoInput,
            ),
            old(self).fifo() ==> final(self).avail() =~= if old(self).avail().len() > 0 {
                old(self).avail().skip(1)
            } else {
                old(self).avail()
            },
    ;
}

/// A sink for output words.
///
/// `sent()` models the words the sink has accepted so far, in order.  A
/// sink may reject a word (an interactive console that cannot render it);
/// a sink for which `accepts_all()` holds never does.
pub trait OutputPort: Sized {
    /// The words this sink has accepted, in order.
    spec fn sent(&self) -> Seq<i64>;

    /// Whether this sink accepts every word offered to it.
    spec fn accepts_all(&self) -> bool;

    /// Offer one word to the sink.
    fn emit_output(&mut self, w: Word) -> (r: Result<(), InputOutputError>)
        ensures
            final(self).accepts_all() == old(self).accepts_all(),
            r is Ok ==> final(self).sent() == old(self).sent().push(w.0),
            r is Err ==> final(self).sent() == old(self).sent(),
            old(self).accepts_all() ==> r is Ok,
    ;
}

/// A fixed, pre-supplied list of input words, consumed in order.
pub struct FixedInput {
    values: Vec<Word>,
    cursor: usize,
}

impl FixedInput {
    /// A port offering exactly the given words, in order.
    pub fn new(values: Vec<Word>) -> (r: FixedInput)
        ensures
            r.avail() == values@.map_values(|w: Word| w.0),
            r.fifo(),
    {
        FixedInput { values, cursor: 0 }
    }
}

impl InputPort for FixedInput {
    closed spec fn avail(&self) -> Seq<i64> {
        if self.cursor <= self.values@.len() {
            self.values@.map_values(|w: Word| w.0).skip(self.cursor as int)
        } else {
            Seq::empty()
        }
    }

    closed spec fn fifo(&self) -> bool {
        true
    }

    fn next_input(&mut self) -> (r: Result<Word, InputOutputError>) {
        if self.cursor < self.values.len() {
            let w = self.values[self.cursor];
            proof {
                assert(old(self).avail()[0] == self.values@.map_values(|x: Word| x.0)[
                    self.cursor as int
                ]);
            }
            self.cursor = self.cursor + 1;
            proof {
                assert(self.avail() =~= old(self).avail().skip(1));
            }
            Ok(w)
        } else {
            proof {
                assert(old(self).avail().len() == 0);
            }
            Err(InputOutputError::NoInput)
        }
    }
}

/// An input port that is always exhausted.
pub struct NoInputPort {}

impl InputPort for NoInputPort {
    open spec fn avail(&self) -> Seq<i64> {
        Seq::empty()
    }

    open spec fn fifo(&self) -> bool {
        true
    }

    fn next_input(&mut self) -> (r: Result<Word, InputOutputError>) {
        Err(InputOutputError::NoInput)
    }
}

/// An output sink that accepts and records every word.
pub struct OutputLog {
    words: Vec<Word>,
}

impl OutputLog {
    /// An empty log.
    pub fn new() -> (r: OutputLog)
        ensures
            r.sent() == Seq::<i64>::empty(),
            r.accepts_all(),
    {
        OutputLog { words: Vec::new() }
    }

    /// The words accepted so far, in order.
    pub fn words(&self) -> (r: &Vec<Word>)
        ensures
            r@.map_values(|w: Word| w.0) == self.sent(),
    {
        &self.words
    }

    /// Give up the words accepted so far.
    pub fn into_words(self) -> (r: Vec<Word>)
        ensures
            r@.map_values(|w: Word| w.0) == self.sent(),
    {
        self.words
    }
}

impl OutputPort for OutputLog {
    closed spec fn sent(&self) -> Seq<i64> {
        self.words@.map_values(|w: Word| w.0)
    }

    closed spec fn accepts_all(&self) -> bool {
        true
    }

    fn emit_output(&mut self, w: Word) -> (r: Result<(), InputOutputError>) {
        self.words.push(w);
        proof {
            assert(self.sent() =~= old(self).sent().push(w.0));
        }
        Ok(())
    }
}

/// An output sink that accepts and discards every word, remembering only
/// (in ghost state) what it was offered.
pub struct DiscardOutput {
    accepted: Ghost<Seq<i64>>,
}

impl DiscardOutput {
    /// A sink that has discarded nothing yet.
    pub fn new() -> (r: DiscardOutput)
        ensures
            r.sent() == Seq::<i64>::empty(),
            r.accepts_all(),
    {
        DiscardOutput { accepted: Ghost(Seq::empty()) }
    }
}

impl OutputPort for DiscardOutput {
    closed spec fn sent(&self) -> Seq<i64> {
        self.accepted@
    }

    closed spec fn accepts_all(&self) -> bool {
        true
    }

    fn emit_output(&mut self, w: Word) -> (r: Result<(), InputOutputError>) {
        self.accepted = Ghost(self.accepted@.push(w.0));
        Ok(())
    }
}

} // verus!
