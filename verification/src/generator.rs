//! Extraction of matched data from a sequence of input chunks, one
//! `(path, data)` item at a time.

use crate::error;
use crate::handler::{Buffer, Handler};
use crate::matcher::MatchMaker;
use crate::strategy::{Strategy, Trigger};
use vstd::prelude::*;

verus! {

/// Wraps the extraction of matched data around a sequence of input chunks.
pub struct StreamsonGenerator {
    input: Vec<Vec<u8>>,
    next_input: usize,
    trigger: Trigger,
    buffer: usize,
    error_occured: bool,
    exitting: bool,
}

impl StreamsonGenerator {
    /// Input chunks which were not processed yet.
    pub closed spec fn remaining(&self) -> Seq<Vec<u8>> {
        self.input@.skip(self.next_input as int)
    }

    /// Whether an error occured (nothing is produced after it).
    pub closed spec fn failed(&self) -> bool {
        self.error_occured
    }

    /// Invariant of the generator.
    pub closed spec fn inv(&self) -> bool {
        &&& self.next_input <= self.input@.len()
        &&& !self.error_occured ==> self.trigger.ready()
        &&& self.exitting ==> self.next_input == self.input@.len()
    }

    /// Creates a generator of the data matched by `matcher` in the input chunks.
    pub fn new<M: MatchMaker>(input: Vec<Vec<u8>>, matcher: M) -> (r: Self)
        ensures
            r.inv(),
            !r.failed(),
            r.remaining() == input@,
    {
        let mut trigger = Trigger::new();
        let buffer = match trigger.add_handler(Handler::Buffer(Buffer::new().set_use_path(true))) {
            Ok(id) => id,
            Err(_) => 0,
        };
        let _ = trigger.add_matcher(matcher, buffer);
        let r = StreamsonGenerator {
            input,
            next_input: 0,
            trigger,
            buffer,
            error_occured: false,
            exitting: false,
        };
        assert(r.input@.skip(0) =~= input@);
        r
    }

    /// Produces the next matched item: its path and data, or an error (after
    /// which nothing more is produced).
    pub fn next(&mut self) -> (r: Option<Result<(String, Vec<u8>), error::General>>)
        requires
            old(self).inv(),
        ensures
            final(self).inv(),
            old(self).failed() ==> r is None && final(self).failed(),
            r matches Some(Err(_)) ==> final(self).failed(),
            r matches Some(Ok(_)) ==> !final(self).failed(),
            r is None ==> old(self).failed() || final(self).remaining().len() == 0,
            final(self).remaining().len() <= old(self).remaining().len(),
            final(self).remaining() == old(self).remaining().skip(
                old(self).remaining().len() - final(self).remaining().len(),
            ),
    {
        if self.error_occured {
            return None;
        }
        loop
            invariant
                self.inv(),
                !self.error_occured,
                !old(self).error_occured,
                self.input@ == old(self).input@,
                old(self).next_input <= self.next_input,
            decreases self.input@.len() - self.next_input + if self.exitting {
                0int
            } else {
                1int
            },
        {
            if let Some((path, data)) = self.trigger.buffer_pop(self.buffer) {
                let p = match path {
                    Some(p) => p,
                    None => String::new(),
                };
                return Some(Ok((p, data)));
            }
            if self.exitting {
                return None;
            }
            if self.next_input < self.input.len() {
                let chunk = &self.input[self.next_input];
                self.next_input = self.next_input + 1;
                let done = self.trigger.input_len();
                if chunk.len() > usize::MAX - done {
                    self.error_occured = true;
                    return Some(
                        Err(error::General::InputTerminated(error::InputTerminated::new(done))),
                    );
                }
                match self.trigger.process(chunk.as_slice()) {
                    Ok(_) => {},
                    Err(e) => {
                        self.error_occured = true;
                        return Some(Err(e));
                    },
                }
            } else {
                self.exitting = true;
            }
        }
    }
}

} // verus!
