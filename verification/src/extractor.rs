//! Decoding of `(path, data)` items from a byte buffer which is filled
//! from an asynchronous reader (the reader and the frame handling live in
//! the program around the library).

use crate::error;
use crate::handler::{Buffer, Handler};
use crate::matcher::MatchMaker;
use crate::path::SpecElement;
use crate::streamer::ParsedKind;
use crate::strategy::{Strategy, Trigger};
use vstd::prelude::*;

verus! {

/// Extracts matched data from the decoded bytes.
pub struct Extractor {
    trigger: Trigger,
    handler: usize,
    failed: bool,
}

impl Extractor {
    /// Invariant of the extractor.
    pub closed spec fn inv(&self) -> bool {
        !self.failed ==> self.trigger.ready()
    }

    /// Whether the data of a value with the given path and kind are
    /// extracted.
    pub closed spec fn matches(&self, path: Seq<SpecElement>, kind: ParsedKind) -> bool {
        self.trigger.matchers_view().len() > 0 && self.trigger.matchers_view()[0].0.matches_spec(
            path,
            kind,
        )
    }

    /// Whether the extracted items carry their paths.
    pub closed spec fn includes_path(&self) -> bool {
        &&& self.handler < self.trigger.handlers_view().count()
        &&& self.trigger.handlers_view().items()[self.handler as int] matches Handler::Buffer(b)
            && b@.use_path
    }

    /// Whether processing failed (nothing more is decoded then).
    pub closed spec fn failed(&self) -> bool {
        self.failed
    }

    /// Creates a new extractor of the data matched by `matcher`; the paths
    /// are included when `include_path` is set.
    pub fn new<M: MatchMaker>(matcher: M, include_path: bool) -> (r: Self)
        ensures
            r.inv(),
            !r.failed(),
            forall|p: Seq<SpecElement>, k: ParsedKind| r.matches(p, k) == matcher.spec_match(p, k),
            r.includes_path() == include_path,
    {
        let mut trigger = Trigger::new();
        let handler = match trigger.add_handler(
            Handler::Buffer(Buffer::new().set_use_path(include_path)),
        ) {
            Ok(id) => id,
            Err(_) => 0,
        };
        let _ = trigger.add_matcher(matcher, handler);
        Extractor { trigger, handler, failed: false }
    }

    /// Decodes the next item: the buffered bytes are processed (and taken
    /// from the buffer) until an item is extracted; `Ok(None)` when the
    /// buffer is exhausted.
    pub fn decode(&mut self, buf: &mut Vec<u8>) -> (r: Result<
        Option<(Option<String>, Vec<u8>)>,
        error::General,
    >)
        requires
            old(self).inv(),
        ensures
            final(self).inv(),
            old(self).failed() ==> r == Ok::<Option<(Option<String>, Vec<u8>)>, error::General>(
                None,
            ) && final(self).failed(),
            r is Err ==> final(self).failed(),
            r matches Ok(None) && !old(self).failed() ==> final(buf)@.len() == 0,
            final(buf)@.len() == 0 || final(buf)@ == old(buf)@,
    {
        if self.failed {
            return Ok(None);
        }
        loop
            invariant
                self.inv(),
                !self.failed,
                !old(self).failed,
                buf@.len() == 0 || buf@ == old(buf)@,
            decreases buf@.len(),
        {
            if let Some(item) = self.trigger.buffer_pop(self.handler) {
                return Ok(Some(item));
            }
            if buf.len() == 0 {
                return Ok(None);
            }
            let mut data: Vec<u8> = Vec::new();
            std::mem::swap(&mut data, buf);
            let done = self.trigger.input_len();
            if data.len() > usize::MAX - done {
                self.failed = true;
                return Err(error::General::InputTerminated(error::InputTerminated::new(done)));
            }
            if let Err(e) = self.trigger.process(data.as_slice()) {
                self.failed = true;
                return Err(e);
            }
        }
    }
}

} // verus!
