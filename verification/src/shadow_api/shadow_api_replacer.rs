//! The buffer of a replacer, which hands the output of the engine back chunk
//! by chunk in a buffer that is used again for each chunk.

use vstd::prelude::*;

verus! {

/// The output of the engine for the chunk of input at hand.
#[derive(Debug)]
pub struct ShadowApiReplacer {
    /// The bytes of the output, from the start of the buffer on. What
    /// follows them is left over from earlier chunks.
    pub buffer: Vec<u8>,
    /// The number of bytes of output in the buffer.
    pub write_idx: usize,
}

impl ShadowApiReplacer {
    /// The output fits in the buffer.
    pub open spec fn wf(&self) -> bool {
        self.write_idx <= self.buffer@.len()
    }

    /// The output that the buffer holds.
    pub open spec fn written(&self) -> Seq<u8> {
        self.buffer@.take(self.write_idx as int)
    }

    /// A replacer that holds no output.
    pub fn new() -> (r: ShadowApiReplacer)
        ensures
            r.wf(),
            r.write_idx == 0,
            r.buffer@.len() == 0,
    {
        ShadowApiReplacer { buffer: Vec::new(), write_idx: 0 }
    }

    /// Takes a chunk of output behind the output that the buffer holds. The
    /// buffer grows where it is too short, and never shrinks.
    pub fn handle_chunk(&mut self, c: &[u8])
        requires
            old(self).wf(),
            old(self).write_idx + c@.len() <= usize::MAX,
        ensures
            final(self).wf(),
            final(self).write_idx == old(self).write_idx + c@.len(),
            final(self).written() == old(self).written() + c@,
            final(self).buffer@.len() == if old(self).buffer@.len() < old(self).write_idx
                + c@.len() {
                old(self).write_idx + c@.len()
            } else {
                old(self).buffer@.len() as int
            },
            forall|i: int|
                final(self).write_idx <= i < old(self).buffer@.len() ==> final(self).buffer@[i]
                    == old(self).buffer@[i],
    {
        let n: usize = c.len();
        let start: usize = self.write_idx;
        let mut i: usize = 0;
        while i < n
            invariant
                n == c@.len(),
                0 <= i <= n,
                start == old(self).write_idx,
                start + n <= usize::MAX,
                start + i <= self.buffer@.len(),
                self.write_idx == start,
                self.buffer@.len() >= old(self).buffer@.len(),
                self.buffer@.len() == if old(self).buffer@.len() < start + i {
                    start + i
                } else {
                    old(self).buffer@.len() as int
                },
                self.buffer@.take(start as int) == old(self).buffer@.take(start as int),
                self.buffer@.subrange(start as int, start + i) == c@.take(i as int),
                forall|j: int|
                    start + i <= j < old(self).buffer@.len() ==> self.buffer@[j] == old(
                        self,
                    ).buffer@[j],
            decreases n - i,
        {
            let ghost before = self.buffer@;
            if start + i < self.buffer.len() {
                self.buffer[start + i] = c[i];
            } else {
                self.buffer.push(c[i]);
            }
            proof {
                assert(self.buffer@.take(start as int) =~= before.take(start as int));
                assert(self.buffer@.subrange(start as int, start + i + 1) =~= before.subrange(
                    start as int,
                    start + i,
                ).push(c@[i as int]));
                assert(c@.take(i + 1) =~= c@.take(i as int).push(c@[i as int]));
            }
            i = i + 1;
        }
        self.write_idx = start + n;
        proof {
            assert(c@.take(n as int) =~= c@);
            assert(self.written() =~= old(self).written() + c@);
        }
    }

    /// Hands the output over: returns the number of bytes of output, which
    /// stand at the start of the buffer, and holds no output afterwards.
    pub fn replace(&mut self) -> (written: usize)
        ensures
            written == old(self).write_idx,
            final(self).write_idx == 0,
            final(self).buffer == old(self).buffer,
    {
        let written: usize = self.write_idx;
        self.write_idx = 0;
        written
    }
}

}
