//! Extract strategy: matched parts of the input are emitted (nested matches
//! have no meaning here), everything else is dropped.

use super::{input_pieces, outputs_view, pieces_end, pieces_of, push_other, push_piece, Output, SpecOutput, Strategy};
use crate::error;
use crate::handler::{Handler, Handlers};
use crate::matcher::{Combinator, MatchMaker};
use crate::path::Path;
use crate::streamer::{ParsedKind, Streamer, Token};
use vstd::prelude::*;

verus! {

/// Whether an optional index is below the bound.
pub open spec fn opt_below(o: Option<usize>, n: nat) -> bool {
    match o {
        Some(h) => h < n,
        None => true,
    }
}

/// Extracts matched parts of the input.
pub struct Extract {
    export_path: bool,
    input_start: usize,
    matches: Option<(Path, Vec<usize>)>,
    matchers: Vec<(Combinator, Option<usize>)>,
    streamer: Streamer,
    handlers: Handlers,
    /// Whether a value matched since the strategy was created
    any_match: Ghost<bool>,
}

impl Extract {
    /// All the input data processed so far.
    pub closed spec fn input(&self) -> Seq<u8> {
        self.streamer.input()
    }

    /// The next JSON value is awaited: nothing of it was read yet.
    pub closed spec fn awaits_json(&self) -> bool {
        self.streamer.awaits_root()
    }

    /// Whether a value matched since the strategy was created.
    pub closed spec fn matched_any(&self) -> bool {
        self.any_match@
    }

    /// Registered handlers.
    pub closed spec fn handlers_view(&self) -> Handlers {
        self.handlers
    }

    /// Number of matchers.
    pub closed spec fn matcher_count(&self) -> nat {
        self.matchers@.len()
    }

    /// Whether the path of a match is emitted with it.
    pub closed spec fn exports_path(&self) -> bool {
        self.export_path
    }

    /// Handlers are well-formed, matchers refer to existing handlers and the
    /// current match to existing matchers.
    closed spec fn handlers_ok(&self) -> bool {
        &&& self.handlers.wf()
        &&& forall|i: int|
            0 <= i < self.matchers@.len() ==> opt_below((#[trigger] self.matchers@[i]).1, self.handlers.count())
        &&& self.matches matches Some((_, idxs)) ==> forall|j: int|
            0 <= j < idxs@.len() ==> #[trigger] idxs@[j] < self.matchers@.len()
    }

    /// Invariant of the strategy.
    closed spec fn inv(&self) -> bool {
        &&& self.streamer.wf()
        &&& self.input_start == self.streamer.input().len()
        &&& (self.streamer.cursor() == self.input_start || self.streamer.stalled())
        &&& self.handlers_ok()
        &&& !self.any_match@ ==> self.matches is None
        &&& self.matchers@.len() == 0 ==> !self.any_match@
    }

    /// Creates a new extract strategy.
    pub fn new() -> (r: Self)
        ensures
            r.input() == Seq::<u8>::empty(),
            r.awaits_json(),
            r.ready(),
            r.consumed() == 0,
            r.matcher_count() == 0,
            r.handlers_view().count() == 0,
            !r.exports_path(),
            !r.matched_any(),
    {
        Extract {
            export_path: false,
            input_start: 0,
            matches: None,
            matchers: Vec::new(),
            streamer: Streamer::new(),
            handlers: Handlers::new(),
            any_match: Ghost(false),
        }
    }

    /// Sets whether the path of a match is emitted with it.
    pub fn set_export_path(self, export: bool) -> (r: Self)
        requires
            self.ready(),
        ensures
            r.ready(),
            r.exports_path() == export,
            r.consumed() == self.consumed(),
            r.matcher_count() == self.matcher_count(),
            r.handlers_view() == self.handlers_view(),
            r.matched_any() == self.matched_any(),
    {
        Extract { export_path: export, ..self }
    }

    /// Registers a handler; see [`Handlers::add`].
    pub fn add_handler(&mut self, handler: Handler) -> (r: Result<usize, error::Handler>)
        requires
            old(self).ready(),
        ensures
            final(self).matched_any() == old(self).matched_any(),
            final(self).ready(),
            final(self).consumed() == old(self).consumed(),
            final(self).matcher_count() == old(self).matcher_count(),
            r is Ok <==> old(self).handlers_view().can_add(handler),
            r matches Ok(id) ==> id == old(self).handlers_view().count()
                && final(self).handlers_view().items() == old(self).handlers_view().items().push(
                handler,
            ),
            r is Err ==> final(self).handlers_view().items() == old(self).handlers_view().items(),
    {
        self.handlers.add(handler)
    }

    /// Adds a matcher with an optional handler (its index) which is notified
    /// about the extracted data. Fails when the handler is not registered.
    pub fn add_matcher<M: MatchMaker>(&mut self, matcher: M, handler: Option<usize>) -> (r: Result<
        (),
        error::Handler,
    >)
        requires
            old(self).ready(),
        ensures
            final(self).matched_any() == old(self).matched_any(),
            final(self).ready(),
            final(self).consumed() == old(self).consumed(),
            final(self).handlers_view() == old(self).handlers_view(),
            r is Ok <==> (handler matches Some(h) ==> h < old(self).handlers_view().count()),
            r is Ok ==> final(self).matcher_count() == old(self).matcher_count() + 1,
            r is Err ==> final(self).matcher_count() == old(self).matcher_count(),
    {
        if let Some(h) = handler {
            if h >= self.handlers.len() {
                return Err(error::Handler::new("Unknown handler"));
            }
        }
        let c = matcher.into_combinator();
        let ghost old_matchers = self.matchers@;
        self.matchers.push((c, handler));
        proof {
            assert forall|i: int| 0 <= i < self.matchers@.len() implies opt_below(
                (#[trigger] self.matchers@[i]).1,
                self.handlers.count(),
            ) by {
                if i < old_matchers.len() {
                    assert(self.matchers@[i] == old_matchers[i]);
                }
            }
        }
        Ok(())
    }

    /// Takes the bytes written by an output handler; see [`Handlers::output_take`].
    pub fn output_take(&mut self, id: usize) -> (r: Vec<u8>)
        requires
            old(self).ready(),
        ensures
            crate::handler::only_changed(
                old(self).handlers_view(),
                final(self).handlers_view(),
                id,
                crate::handler::output_taken(
                    old(self).handlers_view().items()[id as int],
                    final(self).handlers_view().items()[id as int],
                    r@,
                ),
            ),
            id >= old(self).handlers_view().count() ==> r@.len() == 0,
            final(self).matched_any() == old(self).matched_any(),
            final(self).ready(),
            final(self).consumed() == old(self).consumed(),
            final(self).matcher_count() == old(self).matcher_count(),
    {
        self.handlers.output_take(id)
    }

    /// The handlers (to read their results).
    pub fn handlers(&self) -> (r: &Handlers)
        ensures
            *r == self.handlers_view(),
    {
        &self.handlers
    }

    /// Takes the oldest record of a buffer handler; see [`Handlers::buffer_pop`].
    pub fn buffer_pop(&mut self, id: usize) -> (r: Option<(Option<String>, Vec<u8>)>)
        requires
            old(self).ready(),
        ensures
            crate::handler::only_changed(
                old(self).handlers_view(),
                final(self).handlers_view(),
                id,
                crate::handler::buffer_popped(
                    old(self).handlers_view().items()[id as int],
                    final(self).handlers_view().items()[id as int],
                    r,
                ),
            ),
            id >= old(self).handlers_view().count() ==> r is None,
            final(self).matched_any() == old(self).matched_any(),
            final(self).ready(),
            final(self).consumed() == old(self).consumed(),
            final(self).matcher_count() == old(self).matcher_count(),
    {
        self.handlers.buffer_pop(id)
    }

    /// Indexes of the matchers which match the current path.
    fn matching(&self, kind: ParsedKind) -> (r: Vec<usize>)
        ensures
            r@ == crate::strategy::matching_indexes(self.matchers@, self.streamer.path_view(), kind),
            self.matchers@.len() == 0 ==> r@.len() == 0,
            forall|j: int| 0 <= j < r@.len() ==> #[trigger] r@[j] < self.matchers@.len(),
    {
        let mut r: Vec<usize> = Vec::new();
        let n = self.matchers.len();
        proof {
            assert(self.matchers@.take(0) =~= Seq::<(Combinator, Option<usize>)>::empty());
        }
        for k in 0..n
            invariant
                n == self.matchers@.len(),
                r@ == crate::strategy::matching_indexes(
                    self.matchers@.take(k as int),
                    self.streamer.path_view(),
                    kind,
                ),
        {
            proof {
                crate::strategy::lemma_matching_step(self.matchers@, self.streamer.path_view(), kind, k as int);
            }
            if self.matchers[k].0.match_path(self.streamer.current_path(), kind) {
                r.push(k);
            }
        }
        proof {
            assert(self.matchers@.take(n as int) =~= self.matchers@);
            crate::strategy::lemma_matching_indexes(self.matchers@, self.streamer.path_view(), kind);
        }
        r
    }

    /// Notifies the handlers of the given matchers (start, data and end).
    fn notify(&mut self, idxs: &Vec<usize>, data: &[u8], token: Option<Token>) -> (r: Result<
        (),
        error::Handler,
    >)
        requires
            old(self).handlers_ok(),
            forall|j: int| 0 <= j < idxs@.len() ==> #[trigger] idxs@[j] < old(self).matchers@.len(),
        ensures
            (forall|j: int| 0 <= j < idxs@.len() ==> (#[trigger] old(self).matchers@[idxs@[j] as int]).1 is None)
                ==> r is Ok && final(self).handlers == old(self).handlers,
            final(self).any_match == old(self).any_match,
            final(self).handlers_ok(),
            final(self).streamer == old(self).streamer,
            final(self).input_start == old(self).input_start,
            final(self).matchers@ == old(self).matchers@,
            final(self).matches == old(self).matches,
            final(self).export_path == old(self).export_path,
            final(self).handlers.count() == old(self).handlers.count(),
    {
        let n = idxs.len();
        for k in 0..n
            invariant
                (forall|j: int| 0 <= j < idxs@.len() ==> (#[trigger] old(self).matchers@[idxs@[j] as int]).1 is None)
                    ==> self.handlers == old(self).handlers,
                self.any_match == old(self).any_match,
                self.handlers_ok(),
                self.streamer == old(self).streamer,
                self.input_start == old(self).input_start,
                self.matchers@ == old(self).matchers@,
                self.matches == old(self).matches,
                self.export_path == old(self).export_path,
                self.handlers.count() == old(self).handlers.count(),
                n == idxs@.len(),
                forall|j: int| 0 <= j < n ==> #[trigger] idxs@[j] < self.matchers@.len(),
        {
            let matcher_idx = idxs[k];
            if let Some(h) = self.matchers[matcher_idx].1 {
                match token {
                    Some(Token::Start(idx, kind)) => {
                        let path = self.streamer.current_path();
                        self.handlers.start(h, path, matcher_idx, Token::Start(idx, kind))?;
                    },
                    Some(t) => {
                        self.handlers.feed(h, data, matcher_idx)?;
                        let path = self.streamer.current_path();
                        self.handlers.end(h, path, matcher_idx, t)?;
                    },
                    None => {
                        self.handlers.feed(h, data, matcher_idx)?;
                    },
                }
            }
        }
        Ok(())
    }
}

impl Strategy for Extract {
    closed spec fn ready(&self) -> bool {
        self.inv()
    }

    closed spec fn consumed(&self) -> nat {
        self.streamer.input().len()
    }

    fn process(&mut self, input: &[u8]) -> (r: Result<Vec<Output>, error::General>)
        ensures
            r is Ok ==> final(self).matcher_count() == old(self).matcher_count()
                && final(self).exports_path() == old(self).exports_path(),
            old(self).matcher_count() == 0 ==> (r matches Ok(v) ==> v@.len() == 0),
            !final(self).matched_any() ==> (r matches Ok(v) ==> v@.len() == 0),
            r matches Err(e) ==> (e is Handler && final(self).matched_any())
                || crate::streamer::error_ok(old(self).input() + input@, 0, e),
            r is Ok && old(self).matcher_count() == 0 ==> final(self).matched_any() == old(
                self,
            ).matched_any(),
            r matches Ok(v) ==> pieces_of(outputs_view(v@), input@, 0, input@.len() as int),
            old(self).awaits_json() && crate::streamer::bad_value_at(
                old(self).input() + input@,
                old(self).input().len() as int,
            ) ==> r == Err::<Vec<Output>, error::General>(
                crate::streamer::incorrect_at(old(self).input() + input@, old(self).input().len() as int),
            ),
    {
        proof {
            if old(self).awaits_json() {
                old(self).streamer.lemma_awaits_not_stalled();
            }
        }
        self.streamer.feed(input);
        let ghost mut first = true;
        let ghost total = self.streamer.input();
        let mut input_idx: usize = 0;
        let mut result: Vec<Output> = Vec::new();
        let ghost mut offs: Seq<int> = Seq::empty();
        proof {
            assert(outputs_view(result@) =~= Seq::<SpecOutput>::empty());
        }
        loop
            invariant
                old(self).awaits_json() ==> old(self).streamer.cursor() == old(self).input().len(),
                first ==> self.streamer.awaits_root() == old(self).streamer.awaits_root()
                    && self.streamer.cursor() == old(self).streamer.cursor(),
                old(self).awaits_json() && crate::streamer::bad_value_at(total, old(self).input().len() as int)
                    ==> first,
                self.streamer.wf(),
                self.handlers_ok(),
                self.streamer.input() == total,
                total == old(self).streamer.input() + input@,
                self.input_start == old(self).input_start,
                old(self).input_start == old(self).streamer.input().len(),
                total.len() == self.input_start + input@.len(),
                total.len() <= usize::MAX,
                input_idx <= input@.len(),
                self.input_start + input_idx <= self.streamer.cursor() || self.streamer.stalled(),
                self.matchers@.len() == old(self).matchers@.len(),
                self.export_path == old(self).export_path,
                !self.any_match@ ==> self.matches is None && result@.len() == 0,
                self.matchers@.len() == 0 ==> !self.any_match@,
                self.matchers@.len() == 0 ==> self.any_match@ == old(self).any_match@,
                input_pieces(outputs_view(result@), input@, offs, 0),
                pieces_end(outputs_view(result@), offs, 0) <= input_idx,
            decreases self.streamer.progress(),
        {
            proof {
                self.streamer.lemma_cursor_bound();
            }
            let token = self.streamer.read();
            proof {
                if token is Ok {
                    self.streamer.lemma_cursor_bound();
                }
                first = false;
            }
            match token {
                Err(e) => {
                    return Err(e);
                },
                Ok(Token::Start(idx, kind)) => {
                    if self.matches.is_none() {
                        let matched = self.matching(kind);
                        if matched.len() > 0 {
                            input_idx = idx - self.input_start;
                            self.any_match = Ghost(true);
                            if let Err(e) = self.notify(&matched, &[], Some(Token::Start(idx, kind))) {
                                return Err(error::General::Handler(e));
                            }
                            let path = self.streamer.current_path().clone();
                            let exported = if self.export_path {
                                Some(path.clone())
                            } else {
                                None
                            };
                            self.matches = Some((path, matched));
                            push_other(&mut result, Output::Start(exported), Ghost(input@), Ghost(0), Ghost(offs));
                            proof {
                                offs = offs.push(0);
                            }
                        }
                    }
                },
                Ok(Token::Pending) => {
                    let m = self.matches.take();
                    match m {
                        Some((path, idxs)) => {
                            let data = &input[input_idx..input.len()];
                            if let Err(e) = self.notify(&idxs, data, None) {
                                return Err(error::General::Handler(e));
                            }
                            let mut chunk: Vec<u8> = Vec::new();
                            chunk.extend_from_slice(data);
                            proof {
                                assert(chunk@ =~= input@.subrange(input_idx as int, input_idx + chunk@.len()));
                            }
                            push_piece(&mut result, chunk, Ghost(input@), Ghost(0), Ghost(input_idx as int), Ghost(offs));
                            proof {
                                offs = offs.push(input_idx as int);
                            }
                            self.matches = Some((path, idxs));
                        },
                        None => {},
                    }
                    self.input_start = self.input_start + input.len();
                    assert(input_pieces(outputs_view(result@), input@, offs, 0));
                    return Ok(result);
                },
                Ok(Token::End(idx, kind)) => {
                    let m = self.matches.take();
                    match m {
                        Some((path, idxs)) => {
                            if path.same_as(self.streamer.current_path()) {
                                let old_idx = input_idx;
                                input_idx = idx - self.input_start;
                                let data = &input[old_idx..input_idx];
                                let mut chunk: Vec<u8> = Vec::new();
                                chunk.extend_from_slice(data);
                                proof {
                                    assert(chunk@ =~= input@.subrange(old_idx as int, old_idx + chunk@.len()));
                                }
                                push_piece(&mut result, chunk, Ghost(input@), Ghost(0), Ghost(old_idx as int), Ghost(offs));
                                proof {
                                    offs = offs.push(old_idx as int);
                                }
                                push_other(&mut result, Output::End, Ghost(input@), Ghost(0), Ghost(offs));
                                proof {
                                    offs = offs.push(0);
                                }
                                if let Err(e) = self.notify(&idxs, data, Some(Token::End(idx, kind))) {
                                    return Err(error::General::Handler(e));
                                }
                            } else {
                                self.matches = Some((path, idxs));
                            }
                        },
                        None => {},
                    }
                },
                Ok(Token::Separator(_)) => {},
            }
        }
    }

    fn terminate(&mut self) -> (r: Result<Vec<Output>, error::General>)
        ensures
            r matches Ok(v) && v@.len() == 0,
            *final(self) == *old(self),
    {
        Ok(Vec::new())
    }

    fn json_finished(&mut self) -> (r: Result<Vec<Output>, error::General>)
        ensures
            r matches Ok(v) && v@.len() == 0,
            *final(self) == *old(self),
    {
        Ok(Vec::new())
    }
}

} // verus!
