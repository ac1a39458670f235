//! Trigger strategy: handlers are notified about the matched parts of the
//! input; the input is not changed, nothing is emitted.

use super::{Output, Strategy};
use crate::error;
use crate::handler::{Handler, Handlers};
use crate::matcher::{Combinator, MatchMaker};
use crate::streamer::{Streamer, Token};
use vstd::prelude::*;

verus! {

/// Processes data from input and triggers handlers.
pub struct Trigger {
    input_start: usize,
    matchers: Vec<(Combinator, usize)>,
    streamer: Streamer,
    matched_stack: Vec<Vec<usize>>,
    level: usize,
    handlers: Handlers,
    /// Whether a value matched since the strategy was created
    any_match: Ghost<bool>,
}

/// No open match has a matcher.
pub open spec fn no_open_matches(stack: Seq<Vec<usize>>) -> bool {
    forall|i: int| 0 <= i < stack.len() ==> (#[trigger] stack[i])@.len() == 0
}

impl Trigger {
    /// All the input data processed so far.
    pub closed spec fn input(&self) -> Seq<u8> {
        self.streamer.input()
    }

    /// The next JSON value is awaited: nothing of it was read yet.
    pub closed spec fn awaits_json(&self) -> bool {
        self.streamer.awaits_root()
    }

    /// Whether a value matched since the strategy was created.
    pub closed spec fn matched_any(&self) -> bool {
        self.any_match@
    }

    /// Registered handlers.
    pub closed spec fn handlers_view(&self) -> Handlers {
        self.handlers
    }

    /// Matchers with the indexes of their handlers.
    pub closed spec fn matchers_view(&self) -> Seq<(Combinator, usize)> {
        self.matchers@
    }

    /// Number of values which are open (started, not ended).
    pub closed spec fn level(&self) -> usize {
        self.level
    }

    /// Invariant of the strategy.
    pub closed spec fn inv(&self) -> bool {
        &&& self.streamer.wf()
        &&& self.input_start == self.streamer.input().len()
        &&& (self.streamer.cursor() == self.input_start || self.streamer.stalled())
        &&& self.handlers_ok()
        &&& !self.any_match@ ==> no_open_matches(self.matched_stack@)
        &&& self.matchers@.len() == 0 ==> !self.any_match@
    }

    /// Handlers are well-formed and the matchers and open matches refer to
    /// existing handlers and matchers.
    closed spec fn handlers_ok(&self) -> bool {
        &&& self.handlers.wf()
        &&& forall|i: int|
            0 <= i < self.matchers@.len() ==> #[trigger] self.matchers@[i].1 < self.handlers.count()
        &&& forall|i: int, j: int|
            0 <= i < self.matched_stack@.len() && 0 <= j < self.matched_stack@[i]@.len()
                ==> #[trigger] self.matched_stack@[i]@[j] < self.matchers@.len()
    }

    /// Creates a new trigger strategy with no matcher and no handler.
    pub fn new() -> (r: Self)
        ensures
            r.input() == Seq::<u8>::empty(),
            r.awaits_json(),
            r.ready(),
            r.consumed() == 0,
            r.matchers_view().len() == 0,
            r.handlers_view().count() == 0,
            r.level() == 0,
            !r.matched_any(),
    {
        Trigger {
            input_start: 0,
            matchers: Vec::new(),
            streamer: Streamer::new(),
            matched_stack: Vec::new(),
            level: 0,
            handlers: Handlers::new(),
            any_match: Ghost(false),
        }
    }

    /// Registers a handler; see [`Handlers::add`].
    pub fn add_handler(&mut self, handler: Handler) -> (r: Result<usize, error::Handler>)
        requires
            old(self).ready(),
        ensures
            final(self).matched_any() == old(self).matched_any(),
            final(self).ready(),
            final(self).consumed() == old(self).consumed(),
            final(self).matchers_view() == old(self).matchers_view(),
            r is Ok <==> old(self).handlers_view().can_add(handler),
            r matches Ok(id) ==> id == old(self).handlers_view().count()
                && final(self).handlers_view().items() == old(self).handlers_view().items().push(
                handler,
            ),
            r is Err ==> final(self).handlers_view().items() == old(self).handlers_view().items(),
    {
        self.handlers.add(handler)
    }

    /// Adds a matcher and the index of the handler which is triggered when a
    /// path matches; fails when no such handler is registered.
    pub fn add_matcher<M: MatchMaker>(&mut self, matcher: M, handler: usize) -> (r: Result<
        (),
        error::Handler,
    >)
        requires
            old(self).ready(),
        ensures
            final(self).matched_any() == old(self).matched_any(),
            final(self).ready(),
            final(self).consumed() == old(self).consumed(),
            final(self).handlers_view() == old(self).handlers_view(),
            r is Ok <==> handler < old(self).handlers_view().count(),
            r is Ok ==> final(self).matchers_view().len() == old(self).matchers_view().len() + 1
                && final(self).matchers_view().last().1 == handler && forall|p, k|
                final(self).matchers_view().last().0.matches_spec(p, k) == matcher.spec_match(p, k),
            r is Err ==> final(self).matchers_view() == old(self).matchers_view(),
    {
        if handler >= self.handlers.len() {
            return Err(error::Handler::new("Unknown handler"));
        }
        let c = matcher.into_combinator();
        self.matchers.push((c, handler));
        proof {
            assert forall|i: int| 0 <= i < self.matchers@.len() implies #[trigger] self.matchers@[i].1
                < self.handlers.count() by {
                if i < old(self).matchers@.len() {
                    assert(self.matchers@[i] == old(self).matchers@[i]);
                }
            }
        }
        Ok(())
    }

    /// Number of input bytes processed so far.
    pub fn input_len(&self) -> (r: usize)
        requires
            self.ready(),
        ensures
            r == self.consumed(),
    {
        self.input_start
    }

    /// Takes the bytes written by an output handler; see [`Handlers::output_take`].
    pub fn output_take(&mut self, id: usize) -> (r: Vec<u8>)
        requires
            old(self).ready(),
        ensures
            crate::handler::only_changed(
                old(self).handlers_view(),
                final(self).handlers_view(),
                id,
                crate::handler::output_taken(
                    old(self).handlers_view().items()[id as int],
                    final(self).handlers_view().items()[id as int],
                    r@,
                ),
            ),
            id >= old(self).handlers_view().count() ==> r@.len() == 0,
            final(self).matched_any() == old(self).matched_any(),
            final(self).ready(),
            final(self).consumed() == old(self).consumed(),
            final(self).matchers_view() == old(self).matchers_view(),
    {
        self.handlers.output_take(id)
    }

    /// The handlers (to read their results).
    pub fn handlers(&self) -> (r: &Handlers)
        ensures
            *r == self.handlers_view(),
    {
        &self.handlers
    }

    /// Takes the oldest record of a buffer handler; see [`Handlers::buffer_pop`].
    pub fn buffer_pop(&mut self, id: usize) -> (r: Option<(Option<String>, Vec<u8>)>)
        requires
            old(self).ready(),
        ensures
            crate::handler::only_changed(
                old(self).handlers_view(),
                final(self).handlers_view(),
                id,
                crate::handler::buffer_popped(
                    old(self).handlers_view().items()[id as int],
                    final(self).handlers_view().items()[id as int],
                    r,
                ),
            ),
            id >= old(self).handlers_view().count() ==> r is None,
            final(self).matched_any() == old(self).matched_any(),
            final(self).ready(),
            final(self).consumed() == old(self).consumed(),
            final(self).matchers_view() == old(self).matchers_view(),
    {
        self.handlers.buffer_pop(id)
    }

    /// Takes the oldest record of an indexer handler; see [`Handlers::indexer_pop`].
    pub fn indexer_pop(&mut self, id: usize) -> (r: Option<(Option<String>, Token)>)
        requires
            old(self).ready(),
        ensures
            crate::handler::only_changed(
                old(self).handlers_view(),
                final(self).handlers_view(),
                id,
                crate::handler::indexer_popped(
                    old(self).handlers_view().items()[id as int],
                    final(self).handlers_view().items()[id as int],
                    r,
                ),
            ),
            id >= old(self).handlers_view().count() ==> r is None,
            final(self).matched_any() == old(self).matched_any(),
            final(self).ready(),
            final(self).consumed() == old(self).consumed(),
            final(self).matchers_view() == old(self).matchers_view(),
    {
        self.handlers.indexer_pop(id)
    }

    /// Feeds the handlers of all open matches with data; a handler which
    /// serves several open matches is fed only once.
    fn feed(&mut self, data: &[u8]) -> (r: Result<(), error::Handler>)
        requires
            old(self).handlers_ok(),
        ensures
            no_open_matches(old(self).matched_stack@) ==> r is Ok,
            no_open_matches(old(self).matched_stack@) ==> final(self).handlers == old(self).handlers,
            final(self).any_match == old(self).any_match,
            final(self).handlers_ok(),
            final(self).streamer == old(self).streamer,
            final(self).input_start == old(self).input_start,
            final(self).matchers@ == old(self).matchers@,
            final(self).matched_stack@ == old(self).matched_stack@,
            final(self).level == old(self).level,
            final(self).handlers.count() == old(self).handlers.count(),
    {
        let nm = self.matchers.len();
        let mut seen: Vec<bool> = Vec::new();
        for _k in 0..nm
            invariant
                seen@.len() == _k,
        {
            seen.push(false);
        }
        let n = self.matched_stack.len();
        for i in 0..n
            invariant
                self.handlers_ok(),
                self.any_match == old(self).any_match,
                no_open_matches(old(self).matched_stack@) ==> self.handlers == old(self).handlers,
                self.streamer == old(self).streamer,
                self.input_start == old(self).input_start,
                self.matchers@ == old(self).matchers@,
                self.matched_stack@ == old(self).matched_stack@,
                self.level == old(self).level,
                self.handlers.count() == old(self).handlers.count(),
                n == self.matched_stack@.len(),
                nm == self.matchers@.len(),
                seen@.len() == nm,
        {
            let m = self.matched_stack[i].len();
            for j in 0..m
                invariant
                    self.handlers_ok(),
                    self.any_match == old(self).any_match,
                    no_open_matches(old(self).matched_stack@) ==> self.handlers == old(self).handlers,
                self.any_match == old(self).any_match,
                no_open_matches(old(self).matched_stack@) ==> self.handlers == old(self).handlers,
                    self.streamer == old(self).streamer,
                    self.input_start == old(self).input_start,
                    self.matchers@ == old(self).matchers@,
                    self.matched_stack@ == old(self).matched_stack@,
                    self.level == old(self).level,
                    self.handlers.count() == old(self).handlers.count(),
                    n == self.matched_stack@.len(),
                    nm == self.matchers@.len(),
                    seen@.len() == nm,
                    i < n,
                    m == self.matched_stack@[i as int]@.len(),
            {
                let match_idx = self.matched_stack[i][j];
                assert(match_idx < nm);
                if !seen[match_idx] {
                    seen.set(match_idx, true);
                    let handler = self.matchers[match_idx].1;
                    self.handlers.feed(handler, data, match_idx)?;
                }
            }
        }
        Ok(())
    }
}

impl Strategy for Trigger {
    closed spec fn ready(&self) -> bool {
        self.inv()
    }

    closed spec fn consumed(&self) -> nat {
        self.streamer.input().len()
    }

    fn process(&mut self, input: &[u8]) -> (r: Result<Vec<Output>, error::General>)
        ensures
            r matches Ok(v) ==> v@.len() == 0,
            r matches Err(e) ==> (e is Handler && final(self).matched_any())
                || crate::streamer::error_ok(old(self).input() + input@, 0, e),
            r is Ok && !final(self).matched_any() ==> final(self).handlers_view() == old(
                self,
            ).handlers_view(),
            r is Ok && old(self).matchers_view().len() == 0 ==> final(self).matched_any() == old(
                self,
            ).matched_any(),
            old(self).awaits_json() && crate::streamer::bad_value_at(
                old(self).input() + input@,
                old(self).input().len() as int,
            ) ==> r == Err::<Vec<Output>, error::General>(
                crate::streamer::incorrect_at(old(self).input() + input@, old(self).input().len() as int),
            ),
    {
        proof {
            if old(self).awaits_json() {
                old(self).streamer.lemma_awaits_not_stalled();
            }
        }
        self.streamer.feed(input);
        let ghost mut first = true;
        let ghost total = self.streamer.input();
        let mut inner_idx: usize = 0;
        loop
            invariant
                old(self).awaits_json() ==> old(self).streamer.cursor() == old(self).input().len(),
                first ==> self.streamer.awaits_root() == old(self).streamer.awaits_root()
                    && self.streamer.cursor() == old(self).streamer.cursor(),
                old(self).awaits_json() && crate::streamer::bad_value_at(total, old(self).input().len() as int)
                    ==> first,
                self.streamer.wf(),
                self.handlers_ok(),
                self.streamer.input() == total,
                total == old(self).streamer.input() + input@,
                self.input_start == old(self).input_start,
                old(self).input_start == old(self).streamer.input().len(),
                total.len() == self.input_start + input@.len(),
                total.len() <= usize::MAX,
                inner_idx <= input@.len(),
                self.input_start + inner_idx <= self.streamer.cursor() || self.streamer.stalled(),
                !self.any_match@ ==> no_open_matches(self.matched_stack@) && self.handlers == old(
                    self,
                ).handlers,
                self.matchers@ == old(self).matchers@,
                self.matchers@.len() == 0 ==> self.any_match@ == old(self).any_match@,
                self.matchers@.len() == 0 ==> !self.any_match@,
            decreases self.streamer.progress(),
        {
            let ghost before = self.streamer.cursor();
            let ghost was_stalled = self.streamer.stalled();
            proof {
                self.streamer.lemma_cursor_bound();
            }
            let token = self.streamer.read();
            proof {
                if token is Ok {
                    self.streamer.lemma_cursor_bound();
                }
                first = false;
            }
            match token {
                Err(e) => {
                    return Err(e);
                },
                Ok(Token::Start(idx, kind)) => {
                    self.level = self.level.saturating_add(1);
                    let to = idx - self.input_start;
                    if let Err(e) = self.feed_slice(input, inner_idx, to) {
                        return Err(error::General::Handler(e));
                    }
                    inner_idx = to;
                    let matched = match self.start_matches(idx, kind) {
                        Ok(m) => m,
                        Err(e) => {
                            // a matcher matched the value before a handler failed
                            self.any_match = Ghost(true);
                            return Err(error::General::Handler(e));
                        },
                    };
                    if matched.len() > 0 {
                        self.any_match = Ghost(true);
                    }
                    let ghost old_stack = self.matched_stack@;
                    self.matched_stack.push(matched);
                    proof {
                        assert forall|i: int, j: int|
                            0 <= i < self.matched_stack@.len() && 0 <= j
                                < self.matched_stack@[i]@.len() implies #[trigger] self.matched_stack@[i]@[j]
                            < self.matchers@.len() by {
                            if i < old_stack.len() {
                                assert(self.matched_stack@[i] == old_stack[i]);
                            } else {
                                assert(self.matched_stack@[i]@ == matched@);
                            }
                        }
                    }
                },
                Ok(Token::End(idx, kind)) => {
                    self.level = self.level.saturating_sub(1);
                    let to = idx - self.input_start;
                    if let Err(e) = self.feed_slice(input, inner_idx, to) {
                        return Err(error::General::Handler(e));
                    }
                    inner_idx = to;
                    let ghost old_stack = self.matched_stack@;
                    let items = match self.matched_stack.pop() {
                        Some(items) => items,
                        None => Vec::new(),
                    };
                    proof {
                        if old_stack.len() > 0 {
                            assert(items == old_stack.last());
                            assert forall|j: int| 0 <= j < items@.len() implies #[trigger] items@[j]
                                < self.matchers@.len() by {
                                assert(old_stack[old_stack.len() - 1]@[j] < self.matchers@.len());
                            }
                            assert forall|i: int, j: int|
                                0 <= i < self.matched_stack@.len() && 0 <= j
                                    < self.matched_stack@[i]@.len() implies #[trigger] self.matched_stack@[i]@[j]
                                < self.matchers@.len() by {
                                assert(self.matched_stack@[i] == old_stack[i]);
                            }
                        }
                    }
                    if let Err(e) = self.end_matches(&items, idx, kind) {
                        return Err(error::General::Handler(e));
                    }
                },
                Ok(Token::Pending) => {
                    self.input_start = self.input_start + input.len();
                    if let Err(e) = self.feed_slice(input, inner_idx, input.len()) {
                        return Err(error::General::Handler(e));
                    }
                    return Ok(Vec::new());
                },
                Ok(Token::Separator(_)) => {},
            }
        }
    }

    fn terminate(&mut self) -> (r: Result<Vec<Output>, error::General>)
        ensures
            r is Ok <==> old(self).level() == 0,
            r matches Ok(v) ==> v@.len() == 0,
            *final(self) == *old(self),
    {
        if self.level == 0 {
            Ok(Vec::new())
        } else {
            Err(error::General::InputTerminated(error::InputTerminated::new(self.input_start)))
        }
    }

    fn json_finished(&mut self) -> (r: Result<Vec<Output>, error::General>)
        ensures
            r matches Ok(v) && v@.len() == 0,
            *final(self) == *old(self),
    {
        Ok(Vec::new())
    }
}


impl Trigger {
    /// Starts the handlers of the matchers which match the current path.
    fn start_matches(&mut self, idx: usize, kind: crate::streamer::ParsedKind) -> (r: Result<
        Vec<usize>,
        error::Handler,
    >)
        requires
            old(self).handlers_ok(),
        ensures
            r matches Ok(v) && v@.len() == 0 ==> final(self).handlers == old(self).handlers,
            old(self).matchers@.len() == 0 ==> (r matches Ok(v) && v@.len() == 0),
            final(self).any_match == old(self).any_match,
            final(self).handlers_ok(),
            final(self).streamer == old(self).streamer,
            final(self).input_start == old(self).input_start,
            final(self).matchers@ == old(self).matchers@,
            final(self).matched_stack@ == old(self).matched_stack@,
            final(self).level == old(self).level,
            final(self).handlers.count() == old(self).handlers.count(),
            r matches Ok(v) ==> forall|j: int| 0 <= j < v@.len() ==> #[trigger] v@[j] < old(
                self,
            ).matchers@.len(),
            r matches Ok(v) ==> v@ == crate::strategy::matching_indexes(
                old(self).matchers@,
                old(self).streamer.path_view(),
                kind,
            ),
            r is Err ==> exists|i: int|
                0 <= i < old(self).matchers@.len() && (#[trigger] old(self).matchers@[i]).0.matches_spec(
                    old(self).streamer.path_view(),
                    kind,
                ),
    {
        let mut matched: Vec<usize> = Vec::new();
        let nm = self.matchers.len();
        proof {
            assert(self.matchers@.take(0) =~= Seq::<(Combinator, usize)>::empty());
        }
        for match_idx in 0..nm
            invariant
                matched@ == crate::strategy::matching_indexes(
                    self.matchers@.take(match_idx as int),
                    self.streamer.path_view(),
                    kind,
                ),
                self.handlers_ok(),
                self.any_match == old(self).any_match,
                matched@.len() == 0 ==> self.handlers == old(self).handlers,
                matched@.len() <= match_idx,
                self.streamer == old(self).streamer,
                self.input_start == old(self).input_start,
                self.matchers@ == old(self).matchers@,
                self.matched_stack@ == old(self).matched_stack@,
                self.level == old(self).level,
                self.handlers.count() == old(self).handlers.count(),
                nm == self.matchers@.len(),
                forall|j: int| 0 <= j < matched@.len() ==> #[trigger] matched@[j] < nm,
        {
            proof {
                crate::strategy::lemma_matching_step(self.matchers@, self.streamer.path_view(), kind, match_idx as int);
            }
            let path = self.streamer.current_path();
            if self.matchers[match_idx].0.match_path(path, kind) {
                let handler = self.matchers[match_idx].1;
                self.handlers.start(handler, path, match_idx, Token::Start(idx, kind))?;
                matched.push(match_idx);
            }
        }
        proof {
            assert(self.matchers@.take(nm as int) =~= self.matchers@);
        }
        Ok(matched)
    }

    /// Ends the handlers of the given matchers.
    fn end_matches(&mut self, items: &Vec<usize>, idx: usize, kind: crate::streamer::ParsedKind) -> (r:
        Result<(), error::Handler>)
        requires
            old(self).handlers_ok(),
            forall|j: int| 0 <= j < items@.len() ==> #[trigger] items@[j] < old(self).matchers@.len(),
        ensures
            items@.len() == 0 ==> r is Ok,
            items@.len() == 0 ==> final(self).handlers == old(self).handlers,
            final(self).any_match == old(self).any_match,
            final(self).handlers_ok(),
            final(self).streamer == old(self).streamer,
            final(self).input_start == old(self).input_start,
            final(self).matchers@ == old(self).matchers@,
            final(self).matched_stack@ == old(self).matched_stack@,
            final(self).level == old(self).level,
            final(self).handlers.count() == old(self).handlers.count(),
    {
        let ni = items.len();
        for k in 0..ni
            invariant
                self.handlers_ok(),
                self.any_match == old(self).any_match,
                ni == 0 ==> self.handlers == old(self).handlers,
                self.streamer == old(self).streamer,
                self.input_start == old(self).input_start,
                self.matchers@ == old(self).matchers@,
                self.matched_stack@ == old(self).matched_stack@,
                self.level == old(self).level,
                self.handlers.count() == old(self).handlers.count(),
                ni == items@.len(),
                forall|j: int| 0 <= j < ni ==> #[trigger] items@[j] < self.matchers@.len(),
        {
            let match_idx = items[k];
            let handler = self.matchers[match_idx].1;
            let path = self.streamer.current_path();
            self.handlers.end(handler, path, match_idx, Token::End(idx, kind))?;
        }
        Ok(())
    }

    /// Feeds the handlers of the open matches with `input[from..to]`.
    fn feed_slice(&mut self, input: &[u8], from: usize, to: usize) -> (r: Result<(), error::Handler>)
        requires
            old(self).handlers_ok(),
            from <= to <= input@.len(),
        ensures
            no_open_matches(old(self).matched_stack@) ==> r is Ok,
            no_open_matches(old(self).matched_stack@) ==> final(self).handlers == old(self).handlers,
            final(self).any_match == old(self).any_match,
            final(self).handlers_ok(),
            final(self).streamer == old(self).streamer,
            final(self).input_start == old(self).input_start,
            final(self).matchers@ == old(self).matchers@,
            final(self).matched_stack@ == old(self).matched_stack@,
            final(self).level == old(self).level,
            final(self).handlers.count() == old(self).handlers.count(),
    {
        let data = &input[from..to];
        self.feed(data)
    }
}

} // verus!
