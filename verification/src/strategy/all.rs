//! All strategy: handlers are triggered on every element of the JSON; no
//! matchers are needed. When converting, the output of the handlers forms
//! the output (one record per top-level JSON).

use super::{Output, Strategy};
use crate::error;
use crate::handler::{Handler, HandlerOutput, Handlers};
use crate::streamer::{Streamer, Token};
use vstd::prelude::*;

verus! {

/// Triggers handlers on every element.
pub struct All {
    convert: bool,
    input_start: usize,
    streamer: Streamer,
    handlers: Handlers,
    members: Vec<usize>,
    level: usize,
}

impl All {
    /// All the input data processed so far.
    pub closed spec fn input(&self) -> Seq<u8> {
        self.streamer.input()
    }

    /// The next JSON value is awaited: nothing of it was read yet.
    pub closed spec fn awaits_json(&self) -> bool {
        self.streamer.awaits_root()
    }

    /// Registered handlers.
    pub closed spec fn handlers_view(&self) -> Handlers {
        self.handlers
    }

    /// Whether the handlers' output is emitted.
    pub closed spec fn converts(&self) -> bool {
        self.convert
    }

    /// Number of values which are open (started, not ended).
    pub closed spec fn level(&self) -> usize {
        self.level
    }

    /// Handlers are well-formed and all of them are triggered.
    closed spec fn handlers_ok(&self) -> bool {
        &&& self.handlers.wf()
        &&& forall|j: int|
            0 <= j < self.members@.len() ==> #[trigger] self.members@[j] < self.handlers.count()
    }

    /// Invariant of the strategy.
    closed spec fn inv(&self) -> bool {
        &&& self.streamer.wf()
        &&& self.input_start == self.streamer.input().len()
        &&& (self.streamer.cursor() == self.input_start || self.streamer.stalled())
        &&& self.handlers_ok()
    }

    /// Creates a new strategy with no handler (not converting).
    pub fn new() -> (r: Self)
        ensures
            r.input() == Seq::<u8>::empty(),
            r.awaits_json(),
            r.ready(),
            r.consumed() == 0,
            r.handlers_view().count() == 0,
            !r.converts(),
            r.level() == 0,
    {
        All {
            convert: false,
            input_start: 0,
            streamer: Streamer::new(),
            handlers: Handlers::new(),
            members: Vec::new(),
            level: 0,
        }
    }

    /// Sets whether the handlers' output is emitted.
    pub fn set_convert(&mut self, convert: bool)
        requires
            old(self).ready(),
        ensures
            final(self).ready(),
            final(self).converts() == convert,
            final(self).consumed() == old(self).consumed(),
            final(self).handlers_view() == old(self).handlers_view(),
            final(self).level() == old(self).level(),
    {
        self.convert = convert;
    }

    /// Adds a handler which is triggered on every element; returns its
    /// index among the handlers.
    pub fn add_handler(&mut self, handler: Handler) -> (r: Result<usize, error::Handler>)
        requires
            old(self).ready(),
        ensures
            final(self).ready(),
            final(self).converts() == old(self).converts(),
            final(self).consumed() == old(self).consumed(),
            r is Ok <==> old(self).handlers_view().can_add(handler),
            r matches Ok(id) ==> id == old(self).handlers_view().count()
                && final(self).handlers_view().items() == old(self).handlers_view().items().push(
                handler,
            ),
            r is Err ==> final(self).handlers_view().items() == old(self).handlers_view().items(),
    {
        let id = self.handlers.add(handler)?;
        let ghost old_members = self.members@;
        self.members.push(id);
        proof {
            assert forall|j: int| 0 <= j < self.members@.len() implies #[trigger] self.members@[j]
                < self.handlers.count() by {
                if j < old_members.len() {
                    assert(self.members@[j] == old_members[j]);
                }
            }
        }
        Ok(id)
    }

    /// Takes the bytes written by an output handler; see [`Handlers::output_take`].
    pub fn output_take(&mut self, id: usize) -> (r: Vec<u8>)
        requires
            old(self).ready(),
        ensures
            crate::handler::only_changed(
                old(self).handlers_view(),
                final(self).handlers_view(),
                id,
                crate::handler::output_taken(
                    old(self).handlers_view().items()[id as int],
                    final(self).handlers_view().items()[id as int],
                    r@,
                ),
            ),
            id >= old(self).handlers_view().count() ==> r@.len() == 0,
            final(self).ready(),
            final(self).consumed() == old(self).consumed(),
    {
        self.handlers.output_take(id)
    }

    /// The handlers (to read their results).
    pub fn handlers(&self) -> (r: &Handlers)
        ensures
            *r == self.handlers_view(),
    {
        &self.handlers
    }

    /// Feeds all the handlers with data.
    fn feed(&mut self, data: &[u8]) -> (r: HandlerOutput)
        requires
            old(self).handlers_ok(),
        ensures
            crate::handler::plain_members(old(self).handlers.items(), old(self).members@) ==> (r is Ok
                ==> crate::handler::out_view(r) == Some(Some(data@))),
            old(self).members@.len() == 0 ==> crate::handler::out_view(r) == Some(Some(data@))
                && final(self).handlers.items() == old(self).handlers.items(),
            r is Err ==> old(self).members@.len() > 0,
            final(self).handlers_ok(),
            final(self).streamer == old(self).streamer,
            final(self).input_start == old(self).input_start,
            final(self).members@ == old(self).members@,
            final(self).convert == old(self).convert,
            final(self).level == old(self).level,
            final(self).handlers.count() == old(self).handlers.count(),
    {
        let n = self.handlers.len();
        self.handlers.feed_group(self.members.as_slice(), n, data, 0)
    }

    /// Notifies all the handlers that a value starts or ends.
    fn notify(&mut self, token: Token) -> (r: HandlerOutput)
        requires
            old(self).handlers_ok(),
        ensures
            crate::handler::plain_members(old(self).handlers.items(), old(self).members@) ==> (r is Ok
                ==> r == Ok::<Option<Vec<u8>>, error::Handler>(None)),
            old(self).members@.len() == 0 ==> r == Ok::<Option<Vec<u8>>, error::Handler>(None)
                && final(self).handlers.items() == old(self).handlers.items(),
            r is Err ==> old(self).members@.len() > 0,
            final(self).handlers_ok(),
            final(self).streamer == old(self).streamer,
            final(self).input_start == old(self).input_start,
            final(self).members@ == old(self).members@,
            final(self).convert == old(self).convert,
            final(self).level == old(self).level,
            final(self).handlers.count() == old(self).handlers.count(),
    {
        let n = self.handlers.len();
        let path = self.streamer.current_path();
        if token.is_end() {
            self.handlers.end_group(self.members.as_slice(), n, path, 0, token)
        } else {
            self.handlers.start_group(self.members.as_slice(), n, path, 0, token)
        }
    }
}

impl Strategy for All {
    closed spec fn ready(&self) -> bool {
        self.inv()
    }

    closed spec fn consumed(&self) -> nat {
        self.streamer.input().len()
    }

    fn process(&mut self, input: &[u8]) -> (r: Result<Vec<Output>, error::General>)
        ensures
            r is Ok ==> final(self).converts() == old(self).converts(),
            !old(self).converts() ==> (r matches Ok(v) ==> v@.len() == 0),
            r matches Err(e) ==> (e is Handler && old(self).handlers_view().count() > 0)
                || crate::streamer::error_ok(old(self).input() + input@, 0, e),
            old(self).awaits_json() && crate::streamer::bad_value_at(
                old(self).input() + input@,
                old(self).input().len() as int,
            ) ==> r == Err::<Vec<Output>, error::General>(
                crate::streamer::incorrect_at(old(self).input() + input@, old(self).input().len() as int),
            ),
    {
        proof {
            if old(self).awaits_json() {
                old(self).streamer.lemma_awaits_not_stalled();
            }
        }
        self.streamer.feed(input);
        let ghost mut first = true;
        let ghost total = self.streamer.input();
        let mut inner_idx: usize = 0;
        let mut result: Vec<Output> = Vec::new();
        proof {
            if self.members@.len() > 0 {
                assert(self.members@[0] < self.handlers.count());
            }
        }
        loop
            invariant
                old(self).awaits_json() ==> old(self).streamer.cursor() == old(self).input().len(),
                first ==> self.streamer.awaits_root() == old(self).streamer.awaits_root()
                    && self.streamer.cursor() == old(self).streamer.cursor(),
                old(self).awaits_json() && crate::streamer::bad_value_at(total, old(self).input().len() as int)
                    ==> first,
                self.streamer.wf(),
                self.handlers_ok(),
                self.streamer.input() == total,
                total == old(self).streamer.input() + input@,
                self.input_start == old(self).input_start,
                old(self).input_start == old(self).streamer.input().len(),
                total.len() == self.input_start + input@.len(),
                total.len() <= usize::MAX,
                inner_idx <= input@.len(),
                self.input_start + inner_idx <= self.streamer.cursor() || self.streamer.stalled(),
                self.convert == old(self).convert,
                !self.convert ==> result@.len() == 0,
                self.members@ == old(self).members@,
                self.handlers.count() == old(self).handlers.count(),
                self.members@.len() > 0 ==> old(self).handlers.count() > 0,
            decreases self.streamer.progress(),
        {
            proof {
                self.streamer.lemma_cursor_bound();
            }
            let token = self.streamer.read();
            proof {
                if token is Ok {
                    self.streamer.lemma_cursor_bound();
                }
                first = false;
            }
            match token {
                Err(e) => {
                    return Err(e);
                },
                Ok(Token::Start(idx, kind)) => {
                    let to = idx - self.input_start;
                    match self.feed(&input[inner_idx..to]) {
                        Ok(Some(d)) => {
                            if self.convert {
                                result.push(Output::Data(d));
                            }
                        },
                        Ok(None) => {},
                        Err(e) => {
                            return Err(error::General::Handler(e));
                        },
                    }
                    inner_idx = to;
                    if self.level == 0 && self.convert {
                        result.push(Output::Start(None));
                    }
                    self.level = self.level.saturating_add(1);
                    match self.notify(Token::Start(idx, kind)) {
                        Ok(Some(d)) => {
                            if self.convert {
                                result.push(Output::Data(d));
                            }
                        },
                        Ok(None) => {},
                        Err(e) => {
                            return Err(error::General::Handler(e));
                        },
                    }
                },
                Ok(Token::End(idx, kind)) => {
                    let to = idx - self.input_start;
                    match self.feed(&input[inner_idx..to]) {
                        Ok(Some(d)) => {
                            if self.convert {
                                result.push(Output::Data(d));
                            }
                        },
                        Ok(None) => {},
                        Err(e) => {
                            return Err(error::General::Handler(e));
                        },
                    }
                    inner_idx = to;
                    match self.notify(Token::End(idx, kind)) {
                        Ok(Some(d)) => {
                            if self.convert {
                                result.push(Output::Data(d));
                            }
                        },
                        Ok(None) => {},
                        Err(e) => {
                            return Err(error::General::Handler(e));
                        },
                    }
                    self.level = self.level.saturating_sub(1);
                    if self.level == 0 && self.convert {
                        result.push(Output::End);
                    }
                },
                Ok(Token::Pending) => {
                    self.input_start = self.input_start + input.len();
                    match self.feed(&input[inner_idx..input.len()]) {
                        Ok(Some(d)) => {
                            if self.convert {
                                result.push(Output::Data(d));
                            }
                        },
                        Ok(None) => {},
                        Err(e) => {
                            return Err(error::General::Handler(e));
                        },
                    }
                    return Ok(result);
                },
                Ok(Token::Separator(_)) => {},
            }
        }
    }

    fn terminate(&mut self) -> (r: Result<Vec<Output>, error::General>)
        ensures
            r is Ok <==> old(self).level() == 0,
            r matches Ok(v) ==> v@.len() == 0,
            *final(self) == *old(self),
    {
        if self.level == 0 {
            Ok(Vec::new())
        } else {
            Err(error::General::InputTerminated(error::InputTerminated::new(self.input_start)))
        }
    }

    fn json_finished(&mut self) -> (r: Result<Vec<Output>, error::General>)
        ensures
            r matches Ok(v) && v@.len() == 0,
            *final(self) == *old(self),
    {
        Ok(Vec::new())
    }
}

} // verus!
