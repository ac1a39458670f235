//! Convert strategy: matched parts of the input are replaced by the output
//! of the handlers; the rest of the input passes unchanged.
//!
//! Nested matches are not considered: data are converted by the first match.

use crate::error;
use crate::handler::{Handler, HandlerOutput, Handlers};
use crate::matcher::{Combinator, MatchMaker};
use crate::path::Path;
use crate::streamer::{bad_value_at, incorrect_at, Streamer, Token};
use vstd::prelude::*;

verus! {

/// All the chunks, concatenated.
pub open spec fn concat_chunks(chunks: Seq<Vec<u8>>) -> Seq<u8>
    decreases chunks.len(),
{
    if chunks.len() == 0 {
        Seq::empty()
    } else {
        concat_chunks(chunks.drop_last()) + chunks.last()@
    }
}

/// Processes data from input and converts the matched parts by handlers.
pub struct Convert {
    input_start: usize,
    matched: Option<(Path, usize)>,
    matchers: Vec<(Combinator, Vec<usize>)>,
    streamer: Streamer,
    handlers: Handlers,
    /// Whether a value matched since the strategy was created
    any_match: Ghost<bool>,
}

impl Convert {
    /// All the input data processed so far.
    pub closed spec fn input(&self) -> Seq<u8> {
        self.streamer.input()
    }

    /// The next JSON value is awaited: nothing of it was read yet.
    pub closed spec fn awaits_json(&self) -> bool {
        self.streamer.awaits_root()
    }

    /// Whether a value matched since the strategy was created.
    pub closed spec fn matched_any(&self) -> bool {
        self.any_match@
    }

    /// Registered handlers.
    pub closed spec fn handlers_view(&self) -> Handlers {
        self.handlers
    }

    /// Number of matchers.
    pub closed spec fn matcher_count(&self) -> nat {
        self.matchers@.len()
    }

    /// Number of input bytes processed so far.
    pub closed spec fn consumed(&self) -> nat {
        self.streamer.input().len()
    }

    /// Handlers are well-formed, matchers refer to existing handlers and the
    /// current match to an existing matcher.
    closed spec fn handlers_ok(&self) -> bool {
        &&& self.handlers.wf()
        &&& forall|i: int, j: int|
            0 <= i < self.matchers@.len() && 0 <= j < self.matchers@[i].1@.len()
                ==> #[trigger] self.matchers@[i].1@[j] < self.handlers.count()
        &&& self.matched matches Some((_, m)) ==> m < self.matchers@.len()
    }

    /// Invariant of the strategy.
    pub closed spec fn inv(&self) -> bool {
        &&& self.streamer.wf()
        &&& self.input_start == self.streamer.input().len()
        &&& (self.streamer.cursor() == self.input_start || self.streamer.stalled())
        &&& self.handlers_ok()
        &&& !self.any_match@ ==> self.matched is None
        &&& self.matchers@.len() == 0 ==> !self.any_match@
    }

    /// Creates a new convert strategy.
    pub fn new() -> (r: Self)
        ensures
            r.input() == Seq::<u8>::empty(),
            r.inv(),
            r.consumed() == 0,
            r.matcher_count() == 0,
            r.handlers_view().count() == 0,
            !r.matched_any(),
            r.awaits_json(),
    {
        Convert {
            input_start: 0,
            matched: None,
            matchers: Vec::new(),
            streamer: Streamer::new(),
            handlers: Handlers::new(),
            any_match: Ghost(false),
        }
    }

    /// Registers a handler; see [`Handlers::add`].
    pub fn add_handler(&mut self, handler: Handler) -> (r: Result<usize, error::Handler>)
        requires
            old(self).inv(),
        ensures
            final(self).matched_any() == old(self).matched_any(),
            final(self).inv(),
            final(self).consumed() == old(self).consumed(),
            final(self).matcher_count() == old(self).matcher_count(),
            r is Ok <==> old(self).handlers_view().can_add(handler),
            r matches Ok(id) ==> id == old(self).handlers_view().count()
                && final(self).handlers_view().items() == old(self).handlers_view().items().push(
                handler,
            ),
            r is Err ==> final(self).handlers_view().items() == old(self).handlers_view().items(),
    {
        self.handlers.add(handler)
    }

    /// Adds a matcher with the chain of handlers (their indexes) which
    /// convert the matched data: the output of a handler is the input of the
    /// next one. Fails when a handler is not registered.
    pub fn add_matcher<M: MatchMaker>(&mut self, matcher: M, handlers: Vec<usize>) -> (r: Result<
        (),
        error::Handler,
    >)
        requires
            old(self).inv(),
        ensures
            final(self).matched_any() == old(self).matched_any(),
            final(self).inv(),
            final(self).consumed() == old(self).consumed(),
            final(self).handlers_view() == old(self).handlers_view(),
            r is Ok <==> forall|j: int|
                0 <= j < handlers@.len() ==> #[trigger] handlers@[j] < old(
                    self,
                ).handlers_view().count(),
            r is Ok ==> final(self).matcher_count() == old(self).matcher_count() + 1,
            r is Err ==> final(self).matcher_count() == old(self).matcher_count(),
    {
        let n = self.handlers.len();
        let m = handlers.len();
        for k in 0..m
            invariant
                self.inv(),
                self.matchers@ == old(self).matchers@,
                self.streamer == old(self).streamer,
                m == handlers@.len(),
                n == self.handlers.count(),
                forall|j: int| 0 <= j < k ==> #[trigger] handlers@[j] < n,
        {
            if handlers[k] >= n {
                return Err(error::Handler::new("Unknown handler"));
            }
        }
        let c = matcher.into_combinator();
        let ghost old_matchers = self.matchers@;
        self.matchers.push((c, handlers));
        proof {
            assert forall|i: int, j: int|
                0 <= i < self.matchers@.len() && 0 <= j < self.matchers@[i].1@.len() implies #[trigger] self.matchers@[i].1@[j]
                < self.handlers.count() by {
                if i < old_matchers.len() {
                    assert(self.matchers@[i] == old_matchers[i]);
                }
            }
        }
        Ok(())
    }

    /// Takes the bytes written by an output handler; see [`Handlers::output_take`].
    pub fn output_take(&mut self, id: usize) -> (r: Vec<u8>)
        requires
            old(self).inv(),
        ensures
            crate::handler::only_changed(
                old(self).handlers_view(),
                final(self).handlers_view(),
                id,
                crate::handler::output_taken(
                    old(self).handlers_view().items()[id as int],
                    final(self).handlers_view().items()[id as int],
                    r@,
                ),
            ),
            id >= old(self).handlers_view().count() ==> r@.len() == 0,
            final(self).matched_any() == old(self).matched_any(),
            final(self).inv(),
            final(self).consumed() == old(self).consumed(),
            final(self).matcher_count() == old(self).matcher_count(),
    {
        self.handlers.output_take(id)
    }

    /// The handlers (to read their results).
    pub fn handlers(&self) -> (r: &Handlers)
        ensures
            *r == self.handlers_view(),
    {
        &self.handlers
    }

    /// Takes the oldest record of a buffer handler; see [`Handlers::buffer_pop`].
    pub fn buffer_pop(&mut self, id: usize) -> (r: Option<(Option<String>, Vec<u8>)>)
        requires
            old(self).inv(),
        ensures
            crate::handler::only_changed(
                old(self).handlers_view(),
                final(self).handlers_view(),
                id,
                crate::handler::buffer_popped(
                    old(self).handlers_view().items()[id as int],
                    final(self).handlers_view().items()[id as int],
                    r,
                ),
            ),
            id >= old(self).handlers_view().count() ==> r is None,
            final(self).matched_any() == old(self).matched_any(),
            final(self).inv(),
            final(self).consumed() == old(self).consumed(),
            final(self).matcher_count() == old(self).matcher_count(),
    {
        self.handlers.buffer_pop(id)
    }

    /// Passes data through the chain of handlers of a matcher; `None` when a
    /// handler consumed them.
    fn feed(&mut self, matcher_idx: usize, data: &[u8]) -> (r: HandlerOutput)
        requires
            old(self).handlers_ok(),
            matcher_idx < old(self).matchers@.len(),
        ensures
            old(self).matchers@[matcher_idx as int].1@.len() == 0 ==> crate::handler::out_view(r)
                == Some(Some(data@)) && final(self).handlers == old(self).handlers,
            r is Err ==> old(self).matchers@[matcher_idx as int].1@.len() > 0,
            final(self).any_match == old(self).any_match,
            final(self).handlers_ok(),
            final(self).streamer == old(self).streamer,
            final(self).input_start == old(self).input_start,
            final(self).matchers@ == old(self).matchers@,
            final(self).matched == old(self).matched,
            final(self).handlers.count() == old(self).handlers.count(),
    {
        let mut first: Vec<u8> = Vec::new();
        first.extend_from_slice(data);
        let mut handler_input: Option<Vec<u8>> = Some(first);
        let n = self.matchers[matcher_idx].1.len();
        for k in 0..n
            invariant
                k == 0 ==> (handler_input matches Some(v) && v@ == data@),
                n == 0 ==> self.handlers == old(self).handlers,
                self.any_match == old(self).any_match,
                self.handlers_ok(),
                self.streamer == old(self).streamer,
                self.input_start == old(self).input_start,
                self.matchers@ == old(self).matchers@,
                self.matched == old(self).matched,
                self.handlers.count() == old(self).handlers.count(),
                matcher_idx < self.matchers@.len(),
                n == self.matchers@[matcher_idx as int].1@.len(),
        {
            match handler_input.take() {
                Some(input_data) => {
                    let h = self.matchers[matcher_idx].1[k];
                    handler_input = self.handlers.feed(h, input_data.as_slice(), matcher_idx)?;
                },
                None => {
                    break;
                },
            }
        }
        Ok(handler_input)
    }

    /// Notifies the chain of handlers that a match starts (or ends): the
    /// output of a handler is fed to the next one and appended to its own
    /// output.
    fn notify(&mut self, matcher_idx: usize, token: Token) -> (r: HandlerOutput)
        requires
            old(self).handlers_ok(),
            matcher_idx < old(self).matchers@.len(),
        ensures
            old(self).matchers@[matcher_idx as int].1@.len() == 0 ==> r == Ok::<
                Option<Vec<u8>>,
                error::Handler,
            >(None) && final(self).handlers == old(self).handlers,
            r is Err ==> old(self).matchers@[matcher_idx as int].1@.len() > 0,
            final(self).any_match == old(self).any_match,
            final(self).handlers_ok(),
            final(self).streamer == old(self).streamer,
            final(self).input_start == old(self).input_start,
            final(self).matchers@ == old(self).matchers@,
            final(self).matched == old(self).matched,
            final(self).handlers.count() == old(self).handlers.count(),
    {
        let mut buff: Option<Vec<u8>> = None;
        let n = self.matchers[matcher_idx].1.len();
        for k in 0..n
            invariant
                k == 0 ==> buff is None,
                n == 0 ==> self.handlers == old(self).handlers,
                self.any_match == old(self).any_match,
                self.handlers_ok(),
                self.streamer == old(self).streamer,
                self.input_start == old(self).input_start,
                self.matchers@ == old(self).matchers@,
                self.matched == old(self).matched,
                self.handlers.count() == old(self).handlers.count(),
                matcher_idx < self.matchers@.len(),
                n == self.matchers@[matcher_idx as int].1@.len(),
        {
            let h = self.matchers[matcher_idx].1[k];
            let prev_output = buff.take();
            let path = self.streamer.current_path();
            buff = if token.is_end() {
                self.handlers.end(h, path, matcher_idx, token)?
            } else {
                self.handlers.start(h, path, matcher_idx, token)?
            };
            if let Some(data) = prev_output {
                if let Some(feed_data) = self.handlers.feed(h, data.as_slice(), matcher_idx)? {
                    match buff.take() {
                        Some(mut own) => {
                            own.extend_from_slice(feed_data.as_slice());
                            buff = Some(own);
                        },
                        None => {
                            buff = Some(feed_data);
                        },
                    }
                }
            }
        }
        Ok(buff)
    }

    /// Index of the first matcher which matches the current path.
    fn first_match(&self, kind: crate::streamer::ParsedKind) -> (r: Option<usize>)
        ensures
            r matches Some(m) ==> m < self.matchers@.len() && self.matchers@[m as int].0.matches_spec(
                self.streamer.path_view(),
                kind,
            ) && forall|j: int|
                0 <= j < m ==> !(#[trigger] self.matchers@[j]).0.matches_spec(
                    self.streamer.path_view(),
                    kind,
                ),
            r is None ==> forall|j: int|
                0 <= j < self.matchers@.len() ==> !(#[trigger] self.matchers@[j]).0.matches_spec(
                    self.streamer.path_view(),
                    kind,
                ),
            self.matchers@.len() == 0 ==> r is None,
    {
        let n = self.matchers.len();
        for k in 0..n
            invariant
                n == self.matchers@.len(),
                forall|j: int|
                    0 <= j < k ==> !(#[trigger] self.matchers@[j]).0.matches_spec(
                        self.streamer.path_view(),
                        kind,
                    ),
        {
            if self.matchers[k].0.match_path(self.streamer.current_path(), kind) {
                return Some(k);
            }
        }
        None
    }

    /// Processes input data; returns the converted data in parts.
    ///
    /// An error is returned when the input can not be processed (note that
    /// the JSON is not validated) or when a handler fails; the strategy
    /// should not be used after an error.
    pub fn process(&mut self, input: &[u8]) -> (r: Result<Vec<Vec<u8>>, error::General>)
        requires
            old(self).inv(),
            old(self).consumed() + input@.len() <= usize::MAX,
        ensures
            r is Ok ==> final(self).inv() && final(self).consumed() == old(self).consumed()
                + input@.len() && final(self).matcher_count() == old(self).matcher_count(),
            old(self).matcher_count() == 0 ==> (r matches Ok(v) ==> concat_chunks(v@)
                == input@),
            !final(self).matched_any() ==> (r matches Ok(v) ==> concat_chunks(v@) == input@),
            r matches Err(e) ==> (e is Handler && final(self).matched_any())
                || crate::streamer::error_ok(old(self).input() + input@, 0, e),
            old(self).awaits_json() && bad_value_at(
                old(self).input() + input@,
                old(self).input().len() as int,
            ) ==> r == Err::<Vec<Vec<u8>>, error::General>(
                incorrect_at(old(self).input() + input@, old(self).input().len() as int),
            ),
    {
        proof {
            if old(self).awaits_json() {
                old(self).streamer.lemma_awaits_not_stalled();
            }
        }
        self.streamer.feed(input);
        let ghost mut first = true;
        let ghost total = self.streamer.input();
        let mut inner_idx: usize = 0;
        let mut result: Vec<Vec<u8>> = Vec::new();
        assert(concat_chunks(result@) =~= input@.subrange(0, 0));
        loop
            invariant
                old(self).awaits_json() ==> old(self).streamer.cursor() == old(self).input().len(),
                first ==> self.streamer.awaits_root() == old(self).streamer.awaits_root()
                    && self.streamer.cursor() == old(self).streamer.cursor(),
                old(self).awaits_json() && bad_value_at(total, old(self).input().len() as int)
                    ==> first,
                self.streamer.wf(),
                self.handlers_ok(),
                self.streamer.input() == total,
                total == old(self).streamer.input() + input@,
                self.input_start == old(self).input_start,
                old(self).input_start == old(self).streamer.input().len(),
                total.len() == self.input_start + input@.len(),
                total.len() <= usize::MAX,
                inner_idx <= input@.len(),
                self.input_start + inner_idx <= self.streamer.cursor() || self.streamer.stalled(),
                self.matchers@.len() == old(self).matchers@.len(),
                !self.any_match@ ==> self.matched is None,
                self.matchers@.len() == 0 ==> !self.any_match@,
                !self.any_match@ ==> concat_chunks(result@) == input@.subrange(
                    0,
                    inner_idx as int,
                ),
            decreases self.streamer.progress(),
        {
            proof {
                self.streamer.lemma_cursor_bound();
            }
            let token = self.streamer.read();
            proof {
                if token is Ok {
                    self.streamer.lemma_cursor_bound();
                }
                first = false;
            }
            match token {
                Err(e) => {
                    return Err(e);
                },
                Ok(Token::Start(idx, kind)) => {
                    if self.matched.is_none() {
                        if let Some(matcher_idx) = self.first_match(kind) {
                            self.matched = Some((self.streamer.current_path().clone(), matcher_idx));
                            self.any_match = Ghost(true);
                            let to = idx - self.input_start;
                            let mut chunk: Vec<u8> = Vec::new();
                            chunk.extend_from_slice(&input[inner_idx..to]);
                            result.push(chunk);
                            inner_idx = to;
                            match self.notify(matcher_idx, Token::Start(idx, kind)) {
                                Ok(Some(data)) => {
                                    result.push(data);
                                },
                                Ok(None) => {},
                                Err(e) => {
                                    return Err(error::General::Handler(e));
                                },
                            }
                        }
                    }
                },
                Ok(Token::End(idx, kind)) => {
                    match self.matched.take() {
                        Some((matched_path, matcher_idx)) => {
                            if self.streamer.current_path().same_as(&matched_path) {
                                let to = idx - self.input_start;
                                let data = &input[inner_idx..to];
                                inner_idx = to;
                                match self.feed(matcher_idx, data) {
                                    Ok(Some(d)) => {
                                        result.push(d);
                                    },
                                    Ok(None) => {},
                                    Err(e) => {
                                        return Err(error::General::Handler(e));
                                    },
                                }
                                match self.notify(matcher_idx, Token::End(idx, kind)) {
                                    Ok(Some(d)) => {
                                        result.push(d);
                                    },
                                    Ok(None) => {},
                                    Err(e) => {
                                        return Err(error::General::Handler(e));
                                    },
                                }
                            } else {
                                self.matched = Some((matched_path, matcher_idx));
                            }
                        },
                        None => {},
                    }
                },
                Ok(Token::Pending) => {
                    self.input_start = self.input_start + input.len();
                    match &self.matched {
                        Some((_, matcher_idx)) => {
                            let m = *matcher_idx;
                            match self.feed(m, &input[inner_idx..input.len()]) {
                                Ok(Some(d)) => {
                                    result.push(d);
                                },
                                Ok(None) => {},
                                Err(e) => {
                                    return Err(error::General::Handler(e));
                                },
                            }
                        },
                        None => {
                            let mut chunk: Vec<u8> = Vec::new();
                            chunk.extend_from_slice(&input[inner_idx..input.len()]);
                            let ghost prev = result@;
                            result.push(chunk);
                            proof {
                                assert(result@.drop_last() == prev);
                                assert(input@.subrange(0, inner_idx as int) + input@.subrange(
                                    inner_idx as int,
                                    input@.len() as int,
                                ) =~= input@);
                            }
                        },
                    }
                    return Ok(result);
                },
                Ok(Token::Separator(_)) => {},
            }
        }
    }
}

} // verus!
