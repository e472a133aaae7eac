//! The state of a writer that takes the output of the engine without
//! blocking: what the engine gave out and could not be written yet.

use vstd::prelude::*;
use vstd::slice::slice_to_vec;

verus! {

/// Takes the output of the engine into memory.
#[derive(Debug)]
pub struct LoLOutputter {
    /// Whether the engine has said that its output is complete.
    pub done: bool,
    /// The output that was not written yet.
    pub buffer: Vec<u8>,
    /// Whether the output is thrown away.
    pub no_output: bool,
}

impl LoLOutputter {
    /// An outputter that holds nothing.
    pub fn new(no_output: bool) -> (out: LoLOutputter)
        ensures
            !out.done,
            out.buffer@ == Seq::<u8>::empty(),
            out.no_output == no_output,
    {
        LoLOutputter { done: false, buffer: Vec::new(), no_output }
    }

    /// Takes a chunk of output. The empty chunk is how the engine says that
    /// its output is complete. Any other chunk is added to what is held,
    /// unless the output is thrown away.
    pub fn handle_chunk(&mut self, chunk: &[u8])
        ensures
            final(self).no_output == old(self).no_output,
            final(self).done == (old(self).done || chunk@.len() == 0),
            final(self).buffer@ == if chunk@.len() > 0 && !old(self).no_output {
                old(self).buffer@ + chunk@
            } else {
                old(self).buffer@
            },
    {
        if chunk.len() == 0 {
            self.done = true;
        } else if !self.no_output {
            let mut bytes = slice_to_vec(chunk);
            self.buffer.append(&mut bytes);
        }
    }
}

/// What a writer without blocking has to remember between two calls.
#[derive(Debug)]
pub struct ShadowApiRewriterAsync {
    /// Whether the output is thrown away.
    pub no_output: bool,
    /// Whether the write before this one is still waiting for the sink. The
    /// input of a call that finds it waiting was fed to the engine already.
    pub is_write_pending: bool,
}

/// What the writer does with the input of a call.
#[derive(Debug, Clone, Copy, PartialEq, Eq, Structural)]
pub enum PollStep {
    /// Feed the input to the engine, and say that nothing was written.
    FeedOnly,
    /// Feed the input to the engine, then write what is held to the sink.
    FeedAndWrite,
    /// Write what is held to the sink, without feeding the input again.
    WriteOnly,
}

impl ShadowApiRewriterAsync {
    /// A writer for which no write is waiting.
    pub fn new(no_output: bool) -> (w: ShadowApiRewriterAsync)
        ensures
            w.no_output == no_output,
            !w.is_write_pending,
    {
        ShadowApiRewriterAsync { no_output, is_write_pending: false }
    }

    /// What to do with the input of a call: it is fed to the engine unless
    /// the write before is still waiting, and what is held goes to the sink
    /// unless the output is thrown away.
    pub fn poll_write(&self) -> (step: PollStep)
        ensures
            step == if self.no_output {
                PollStep::FeedOnly
            } else if self.is_write_pending {
                PollStep::WriteOnly
            } else {
                PollStep::FeedAndWrite
            },
    {
        if self.no_output {
            PollStep::FeedOnly
        } else if self.is_write_pending {
            PollStep::WriteOnly
        } else {
            PollStep::FeedAndWrite
        }
    }

    /// Takes note of what the sink said to a write: a sink that was ready has
    /// taken what was held, which is dropped; a sink that was not leaves the
    /// write waiting.
    pub fn after_write(&mut self, ready: bool, out: &mut LoLOutputter)
        ensures
            final(self).no_output == old(self).no_output,
            final(self).is_write_pending == !ready,
            final(out).done == old(out).done,
            final(out).no_output == old(out).no_output,
            final(out).buffer@ == if ready {
                Seq::<u8>::empty()
            } else {
                old(out).buffer@
            },
    {
        if ready {
            self.is_write_pending = false;
            out.buffer.clear();
        } else {
            self.is_write_pending = true;
        }
    }
}

}
