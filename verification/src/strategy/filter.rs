//! Filter strategy: matched parts of the input are removed (keeping the
//! JSON valid: a comma following a removed first element is dropped too).

use super::{
    input_pieces, output_data, outputs_view, pieces_end, pieces_of, push_other, push_piece, Output,
    SpecOutput, Strategy,
};
use crate::error;
use crate::handler::{Handler, Handlers};
use crate::matcher::{Combinator, MatchMaker};
use crate::path::Path;
use crate::strategy::extract::opt_below;
use crate::streamer::{ParsedKind, Streamer, Token};
use vstd::prelude::*;

verus! {

/// Where the buffer is cut: the distance of `idx` from the buffer start,
/// clamped to the buffer.
pub open spec fn cut_at(idx: usize, buffer_idx: usize, len: nat) -> nat {
    if idx <= buffer_idx {
        0
    } else if idx - buffer_idx > len {
        len
    } else {
        (idx - buffer_idx) as nat
    }
}

/// Removes matched parts from the input.
pub struct Filter {
    input_start: usize,
    buffer_idx: usize,
    buffer: Vec<u8>,
    streamer: Streamer,
    matchers: Vec<(Combinator, Option<usize>)>,
    matches: Option<(Path, Vec<usize>)>,
    last_streaming_path: Option<Path>,
    level: usize,
    handlers: Handlers,
    /// Whether a value matched since the strategy was created
    any_match: Ghost<bool>,
}

impl Filter {
    /// Registered handlers.
    pub closed spec fn handlers_view(&self) -> Handlers {
        self.handlers
    }

    /// Number of matchers.
    pub closed spec fn matcher_count(&self) -> nat {
        self.matchers@.len()
    }

    /// Whether a value matched since the strategy was created.
    pub closed spec fn matched_any(&self) -> bool {
        self.any_match@
    }

    /// Number of values which are open (started, not ended).
    pub closed spec fn level(&self) -> usize {
        self.level
    }

    /// Input data which were not emitted or dropped yet.
    pub closed spec fn buffered(&self) -> Seq<u8> {
        self.buffer@
    }

    /// All the input data processed so far.
    pub closed spec fn input(&self) -> Seq<u8> {
        self.streamer.input()
    }

    /// The next JSON value is awaited: nothing of it was read yet.
    pub closed spec fn awaits_json(&self) -> bool {
        self.streamer.awaits_root()
    }

    /// Number of input bytes which were already emitted or removed.
    pub closed spec fn position(&self) -> nat {
        self.buffer_idx as nat
    }

    /// Handlers are well-formed, matchers refer to existing handlers and the
    /// current match to existing matchers.
    closed spec fn handlers_ok(&self) -> bool {
        &&& self.handlers.wf()
        &&& forall|i: int|
            0 <= i < self.matchers@.len() ==> opt_below(
                (#[trigger] self.matchers@[i]).1,
                self.handlers.count(),
            )
        &&& self.matches matches Some((_, idxs)) ==> forall|j: int|
            0 <= j < idxs@.len() ==> #[trigger] idxs@[j] < self.matchers@.len()
    }

    /// While no value matched, there is no current match, and the path of
    /// the value which was streamed last is not the one of the container
    /// which is in progress once the value was left (so no separator is
    /// removed).
    closed spec fn unmatched_ok(&self) -> bool {
        !self.any_match@ ==> {
            &&& self.matches is None
            &&& self.streamer.after_end() ==> match self.last_streaming_path {
                Some(p) => p@.len() == self.streamer.path_after_leave().len() + 1
                    || self.streamer.open_paths().len() == 0,
                None => true,
            }
        }
    }

    /// Invariant of the strategy.
    closed spec fn inv(&self) -> bool {
        &&& self.streamer.wf()
        &&& self.input_start == self.streamer.input().len()
        &&& (self.streamer.cursor() == self.input_start || self.streamer.stalled())
        &&& self.handlers_ok()
        &&& self.buffer_idx + self.buffer@.len() == self.input_start
        &&& self.buffer@ == self.streamer.input().subrange(
            self.buffer_idx as int,
            self.input_start as int,
        )
        &&& self.unmatched_ok()
    }

    /// Creates a new filter strategy.
    pub fn new() -> (r: Self)
        ensures
            r.awaits_json(),
            r.ready(),
            r.consumed() == 0,
            r.matcher_count() == 0,
            r.handlers_view().count() == 0,
            r.level() == 0,
            r.buffered().len() == 0,
            r.input().len() == 0,
            r.position() == 0,
            !r.matched_any(),
    {
        let r = Filter {
            input_start: 0,
            buffer_idx: 0,
            buffer: Vec::new(),
            streamer: Streamer::new(),
            matchers: Vec::new(),
            matches: None,
            last_streaming_path: None,
            level: 0,
            handlers: Handlers::new(),
            any_match: Ghost(false),
        };
        assert(r.buffer@ =~= r.streamer.input().subrange(0, 0));
        r
    }

    /// Registers a handler; see [`Handlers::add`].
    pub fn add_handler(&mut self, handler: Handler) -> (r: Result<usize, error::Handler>)
        requires
            old(self).ready(),
        ensures
            final(self).matched_any() == old(self).matched_any(),
            final(self).ready(),
            final(self).consumed() == old(self).consumed(),
            final(self).matcher_count() == old(self).matcher_count(),
            r is Ok <==> old(self).handlers_view().can_add(handler),
            r matches Ok(id) ==> id == old(self).handlers_view().count()
                && final(self).handlers_view().items() == old(self).handlers_view().items().push(
                handler,
            ),
            r is Err ==> final(self).handlers_view().items() == old(self).handlers_view().items(),
    {
        self.handlers.add(handler)
    }

    /// Adds a matcher with an optional handler (its index) which gets the
    /// removed data. Fails when the handler is not registered.
    pub fn add_matcher<M: MatchMaker>(&mut self, matcher: M, handler: Option<usize>) -> (r: Result<
        (),
        error::Handler,
    >)
        requires
            old(self).ready(),
        ensures
            final(self).matched_any() == old(self).matched_any(),
            final(self).ready(),
            final(self).consumed() == old(self).consumed(),
            final(self).handlers_view() == old(self).handlers_view(),
            r is Ok <==> (handler matches Some(h) ==> h < old(self).handlers_view().count()),
            r is Ok ==> final(self).matcher_count() == old(self).matcher_count() + 1,
            r is Err ==> final(self).matcher_count() == old(self).matcher_count(),
    {
        if let Some(h) = handler {
            if h >= self.handlers.len() {
                return Err(error::Handler::new("Unknown handler"));
            }
        }
        let c = matcher.into_combinator();
        let ghost old_matchers = self.matchers@;
        self.matchers.push((c, handler));
        proof {
            assert forall|i: int| 0 <= i < self.matchers@.len() implies opt_below(
                (#[trigger] self.matchers@[i]).1,
                self.handlers.count(),
            ) by {
                if i < old_matchers.len() {
                    assert(self.matchers@[i] == old_matchers[i]);
                }
            }
        }
        Ok(())
    }

    /// Takes the bytes written by an output handler; see [`Handlers::output_take`].
    pub fn output_take(&mut self, id: usize) -> (r: Vec<u8>)
        requires
            old(self).ready(),
        ensures
            crate::handler::only_changed(
                old(self).handlers_view(),
                final(self).handlers_view(),
                id,
                crate::handler::output_taken(
                    old(self).handlers_view().items()[id as int],
                    final(self).handlers_view().items()[id as int],
                    r@,
                ),
            ),
            id >= old(self).handlers_view().count() ==> r@.len() == 0,
            final(self).matched_any() == old(self).matched_any(),
            final(self).ready(),
            final(self).consumed() == old(self).consumed(),
            final(self).matcher_count() == old(self).matcher_count(),
    {
        self.handlers.output_take(id)
    }

    /// The handlers (to read their results).
    pub fn handlers(&self) -> (r: &Handlers)
        ensures
            *r == self.handlers_view(),
    {
        &self.handlers
    }

    /// Takes the oldest record of a buffer handler; see [`Handlers::buffer_pop`].
    pub fn buffer_pop(&mut self, id: usize) -> (r: Option<(Option<String>, Vec<u8>)>)
        requires
            old(self).ready(),
        ensures
            crate::handler::only_changed(
                old(self).handlers_view(),
                final(self).handlers_view(),
                id,
                crate::handler::buffer_popped(
                    old(self).handlers_view().items()[id as int],
                    final(self).handlers_view().items()[id as int],
                    r,
                ),
            ),
            id >= old(self).handlers_view().count() ==> r is None,
            final(self).matched_any() == old(self).matched_any(),
            final(self).ready(),
            final(self).consumed() == old(self).consumed(),
            final(self).matcher_count() == old(self).matcher_count(),
    {
        self.handlers.buffer_pop(id)
    }

    /// Splits the buffer at the (total) index `idx` and returns the part
    /// before it.
    fn move_forward(&mut self, idx: usize) -> (r: Vec<u8>)
        ensures
            final(self).any_match == old(self).any_match,
            ({
                let t = old(self).streamer.input();
                let end = old(self).buffer_idx + old(self).buffer@.len();
                (end <= t.len() && old(self).buffer@ == t.subrange(old(self).buffer_idx as int, end))
                    ==> (final(self).buffer@ == t.subrange(final(self).buffer_idx as int, end)
                    && r@ == t.subrange(old(self).buffer_idx as int, final(self).buffer_idx as int))
            }),
            ({
                let cut = cut_at(idx, old(self).buffer_idx, old(self).buffer@.len());
                &&& r@ == old(self).buffer@.subrange(0, cut as int)
                &&& final(self).buffer@ == old(self).buffer@.subrange(
                    cut as int,
                    old(self).buffer@.len() as int,
                )
                &&& final(self).buffer_idx == old(self).buffer_idx + cut
            }),
            final(self).streamer == old(self).streamer,
            final(self).input_start == old(self).input_start,
            final(self).matchers@ == old(self).matchers@,
            final(self).matches == old(self).matches,
            final(self).level == old(self).level,
            final(self).handlers == old(self).handlers,
            final(self).last_streaming_path == old(self).last_streaming_path,
    {
        let len = self.buffer.len();
        let cut = if idx <= self.buffer_idx {
            0
        } else if idx - self.buffer_idx > len {
            len
        } else {
            idx - self.buffer_idx
        };
        let mut front = self.buffer.split_off(cut);
        std::mem::swap(&mut front, &mut self.buffer);
        proof {
            assert(self.buffer_idx + cut <= usize::MAX) by {
                assert(cut <= len);
            }
        }
        self.buffer_idx = self.buffer_idx + cut;
        front
    }

    /// Notifies the handlers of the given matchers about a start, data or an end.
    fn notify(&mut self, idxs: &Vec<usize>, path: &Path, data: &[u8], token: Option<Token>) -> (r:
        Result<(), error::Handler>)
        requires
            old(self).handlers_ok(),
            forall|j: int| 0 <= j < idxs@.len() ==> #[trigger] idxs@[j] < old(self).matchers@.len(),
        ensures
            (forall|j: int| 0 <= j < idxs@.len() ==> (#[trigger] old(self).matchers@[idxs@[j] as int]).1 is None)
                ==> r is Ok && final(self).handlers == old(self).handlers,
            final(self).any_match == old(self).any_match,
            final(self).handlers_ok(),
            final(self).streamer == old(self).streamer,
            final(self).input_start == old(self).input_start,
            final(self).matchers@ == old(self).matchers@,
            final(self).matches == old(self).matches,
            final(self).level == old(self).level,
            final(self).buffer == old(self).buffer,
            final(self).buffer_idx == old(self).buffer_idx,
            final(self).last_streaming_path == old(self).last_streaming_path,
            final(self).handlers.count() == old(self).handlers.count(),
    {
        let n = idxs.len();
        for k in 0..n
            invariant
                (forall|j: int| 0 <= j < idxs@.len() ==> (#[trigger] old(self).matchers@[idxs@[j] as int]).1 is None)
                    ==> self.handlers == old(self).handlers,
                self.any_match == old(self).any_match,
                self.handlers_ok(),
                self.streamer == old(self).streamer,
                self.input_start == old(self).input_start,
                self.matchers@ == old(self).matchers@,
                self.matches == old(self).matches,
                self.level == old(self).level,
                self.buffer == old(self).buffer,
                self.buffer_idx == old(self).buffer_idx,
                self.last_streaming_path == old(self).last_streaming_path,
                self.handlers.count() == old(self).handlers.count(),
                n == idxs@.len(),
                forall|j: int| 0 <= j < n ==> #[trigger] idxs@[j] < self.matchers@.len(),
        {
            let matcher_idx = idxs[k];
            if let Some(h) = self.matchers[matcher_idx].1 {
                match token {
                    Some(Token::Start(i, kind)) => {
                        self.handlers.start(h, path, matcher_idx, Token::Start(i, kind))?;
                    },
                    Some(t) => {
                        self.handlers.end(h, path, matcher_idx, t)?;
                    },
                    None => {
                        self.handlers.feed(h, data, matcher_idx)?;
                    },
                }
            }
        }
        Ok(())
    }

    /// Indexes of the matchers which match the current path.
    fn matching(&self, kind: ParsedKind) -> (r: Vec<usize>)
        ensures
            r@ == crate::strategy::matching_indexes(self.matchers@, self.streamer.path_view(), kind),
            self.matchers@.len() == 0 ==> r@.len() == 0,
            forall|j: int| 0 <= j < r@.len() ==> #[trigger] r@[j] < self.matchers@.len(),
    {
        let mut r: Vec<usize> = Vec::new();
        let n = self.matchers.len();
        proof {
            assert(self.matchers@.take(0) =~= Seq::<(Combinator, Option<usize>)>::empty());
        }
        for k in 0..n
            invariant
                n == self.matchers@.len(),
                r@ == crate::strategy::matching_indexes(
                    self.matchers@.take(k as int),
                    self.streamer.path_view(),
                    kind,
                ),
        {
            proof {
                crate::strategy::lemma_matching_step(self.matchers@, self.streamer.path_view(), kind, k as int);
            }
            if self.matchers[k].0.match_path(self.streamer.current_path(), kind) {
                r.push(k);
            }
        }
        proof {
            assert(self.matchers@.take(n as int) =~= self.matchers@);
            crate::strategy::lemma_matching_indexes(self.matchers@, self.streamer.path_view(), kind);
        }
        r
    }
}

impl Strategy for Filter {
    closed spec fn ready(&self) -> bool {
        self.inv()
    }

    closed spec fn consumed(&self) -> nat {
        self.streamer.input().len()
    }

    #[verifier::rlimit(40)]
    fn process(&mut self, input: &[u8]) -> (r: Result<Vec<Output>, error::General>)
        ensures
            r is Ok ==> final(self).matcher_count() == old(self).matcher_count(),
            r is Ok ==> final(self).input() == old(self).input() + input@ && old(self).position()
                <= final(self).position(),
            r matches Ok(v) ==> pieces_of(
                outputs_view(v@),
                final(self).input(),
                old(self).position() as int,
                final(self).position() as int,
            ),
            !final(self).matched_any() ==> (r matches Ok(v) ==> output_data(outputs_view(v@))
                + final(self).buffered() == old(self).buffered() + input@),
            r matches Err(e) ==> (e is Handler && final(self).matched_any())
                || crate::streamer::error_ok(old(self).input() + input@, 0, e),
            r is Ok && old(self).matcher_count() == 0 ==> final(self).matched_any() == old(
                self,
            ).matched_any(),
            old(self).awaits_json() && crate::streamer::bad_value_at(
                old(self).input() + input@,
                old(self).input().len() as int,
            ) ==> r == Err::<Vec<Output>, error::General>(
                crate::streamer::incorrect_at(old(self).input() + input@, old(self).input().len() as int),
            ),
    {
        proof {
            if old(self).awaits_json() {
                old(self).streamer.lemma_awaits_not_stalled();
            }
        }
        self.streamer.feed(input);
        let ghost mut first = true;
        self.buffer.extend_from_slice(input);
        let ghost total = self.streamer.input();
        let ghost pos0 = self.buffer_idx as int;
        let ghost mut offs: Seq<int> = Seq::empty();
        let mut result: Vec<Output> = Vec::new();
        proof {
            assert(self.buffer@ =~= total.subrange(self.buffer_idx as int, total.len() as int));
            assert(outputs_view(result@) =~= Seq::<SpecOutput>::empty());
        }
        loop
            invariant
                old(self).awaits_json() ==> old(self).streamer.cursor() == old(self).input().len(),
                first ==> self.streamer.awaits_root() == old(self).streamer.awaits_root()
                    && self.streamer.cursor() == old(self).streamer.cursor(),
                old(self).awaits_json() && crate::streamer::bad_value_at(total, old(self).input().len() as int)
                    ==> first,
                self.streamer.wf(),
                self.handlers_ok(),
                self.streamer.input() == total,
                total == old(self).streamer.input() + input@,
                self.input_start == old(self).input_start,
                old(self).input_start == old(self).streamer.input().len(),
                total.len() == self.input_start + input@.len(),
                total.len() <= usize::MAX,
                self.buffer_idx + self.buffer@.len() == total.len(),
                self.buffer@ == total.subrange(self.buffer_idx as int, total.len() as int),
                self.matchers@.len() == old(self).matchers@.len(),
                pos0 == old(self).buffer_idx,
                pos0 <= self.buffer_idx,
                input_pieces(outputs_view(result@), total, offs, pos0),
                pieces_end(outputs_view(result@), offs, pos0) <= self.buffer_idx,
                self.unmatched_ok(),
                pos0 + old(self).buffer@.len() == old(self).input_start,
                old(self).buffer@ == old(self).streamer.input().subrange(
                    pos0,
                    old(self).input_start as int,
                ),
                self.matchers@.len() == 0 ==> self.any_match@ == old(self).any_match@,
                !self.any_match@ ==> output_data(outputs_view(result@)) == total.subrange(
                    pos0,
                    self.buffer_idx as int,
                ),
            decreases self.streamer.progress(),
        {
            proof {
                self.streamer.lemma_cursor_bound();
            }
            let token = self.streamer.read();
            proof {
                if token is Ok {
                    self.streamer.lemma_cursor_bound();
                }
                first = false;
            }
            match token {
                Err(e) => {
                    return Err(e);
                },
                Ok(Token::Start(idx, kind)) => {
                    if self.level == 0 {
                        push_other(&mut result, Output::Start(None), Ghost(total), Ghost(pos0), Ghost(offs));
                        proof {
                            offs = offs.push(0);
                        }
                    }
                    self.level = self.level.saturating_add(1);
                    let m = self.matches.take();
                    match m {
                        Some((path, idxs)) => {
                            let data = self.move_forward(idx);
                            self.matches = Some((path, idxs));
                            if let Err(e) = self.feed_matched(data.as_slice()) {
                                return Err(error::General::Handler(e));
                            }
                        },
                        None => {
                            let current_path = self.streamer.current_path().clone();
                            let idxs = self.matching(kind);
                            if idxs.len() > 0 {
                                self.any_match = Ghost(true);
                                if let Err(e) = self.notify(
                                    &idxs,
                                    &current_path,
                                    &[],
                                    Some(Token::Start(idx, kind)),
                                ) {
                                    return Err(error::General::Handler(e));
                                }
                                self.matches = Some((current_path, idxs));
                                self.move_forward(idx);
                            } else {
                                self.last_streaming_path = Some(current_path);
                                let ghost at = self.buffer_idx as int;
                                let data = self.move_forward(idx + 1);
                                push_piece(&mut result, data, Ghost(total), Ghost(pos0), Ghost(at), Ghost(offs));
                                proof {
                                    offs = offs.push(at);
                                    assert(total.subrange(pos0, at) + total.subrange(at, self.buffer_idx as int)
                                        =~= total.subrange(pos0, self.buffer_idx as int));
                                }
                            }
                        },
                    }
                },
                Ok(Token::End(idx, kind)) => {
                    self.level = self.level.saturating_sub(1);
                    let m = self.matches.take();
                    match m {
                        Some((path, idxs)) => {
                            let data = self.move_forward(idx);
                            self.matches = Some((path, idxs));
                            if let Err(e) = self.feed_matched(data.as_slice()) {
                                return Err(error::General::Handler(e));
                            }
                            let m2 = self.matches.take();
                            if let Some((path, idxs)) = m2 {
                                if path.same_as(self.streamer.current_path()) {
                                    if let Err(e) = self.notify(
                                        &idxs,
                                        &path,
                                        &[],
                                        Some(Token::End(idx, kind)),
                                    ) {
                                        return Err(error::General::Handler(e));
                                    }
                                } else {
                                    self.matches = Some((path, idxs));
                                }
                            }
                        },
                        None => {
                            self.last_streaming_path = Some(self.streamer.current_path().clone());
                            let ghost at = self.buffer_idx as int;
                            let data = self.move_forward(idx);
                            push_piece(&mut result, data, Ghost(total), Ghost(pos0), Ghost(at), Ghost(offs));
                            proof {
                                offs = offs.push(at);
                                assert(total.subrange(pos0, at) + total.subrange(at, self.buffer_idx as int)
                                    =~= total.subrange(pos0, self.buffer_idx as int));
                            }
                        },
                    }
                    if self.level == 0 {
                        push_other(&mut result, Output::End, Ghost(total), Ghost(pos0), Ghost(offs));
                        proof {
                            offs = offs.push(0);
                        }
                    }
                },
                Ok(Token::Pending) => {
                    self.input_start = self.input_start + input.len();
                    assert(input_pieces(outputs_view(result@), self.input(), offs, pos0));
                    proof {
                        if !self.any_match@ {
                            assert(total.subrange(pos0, self.buffer_idx as int) + total.subrange(
                                self.buffer_idx as int,
                                total.len() as int,
                            ) =~= total.subrange(pos0, total.len() as int));
                            assert(total.subrange(pos0, total.len() as int) =~= old(self).buffer@
                                + input@);
                        }
                    }
                    return Ok(result);
                },
                Ok(Token::Separator(idx)) => {
                    let drop_comma = match &self.last_streaming_path {
                        Some(p) => self.streamer.current_path().same_as(p),
                        None => false,
                    };
                    if drop_comma {
                        self.move_forward(idx + 1);
                    }
                },
            }
        }
    }

    fn terminate(&mut self) -> (r: Result<Vec<Output>, error::General>)
        ensures
            r is Ok <==> old(self).level() == 0,
            r matches Ok(v) ==> v@.len() == 0,
            *final(self) == *old(self),
    {
        if self.level == 0 {
            Ok(Vec::new())
        } else {
            Err(error::General::InputTerminated(error::InputTerminated::new(self.input_start)))
        }
    }

    fn json_finished(&mut self) -> (r: Result<Vec<Output>, error::General>)
        ensures
            r matches Ok(v) && v@.len() == 0,
            *final(self) == *old(self),
    {
        Ok(Vec::new())
    }
}

impl Filter {
    /// Feeds the handlers of the current match with removed data.
    fn feed_matched(&mut self, data: &[u8]) -> (r: Result<(), error::Handler>)
        requires
            old(self).handlers_ok(),
        ensures
            old(self).matches is None ==> r is Ok && final(self).handlers == old(self).handlers,
            old(self).matches matches Some((_, idxs)) && (forall|j: int|
                0 <= j < idxs@.len() ==> (#[trigger] old(self).matchers@[idxs@[j] as int]).1 is None)
                ==> r is Ok && final(self).handlers == old(self).handlers,
            final(self).any_match == old(self).any_match,
            final(self).handlers_ok(),
            final(self).streamer == old(self).streamer,
            final(self).input_start == old(self).input_start,
            final(self).matchers@ == old(self).matchers@,
            final(self).matches == old(self).matches,
            final(self).level == old(self).level,
            final(self).buffer == old(self).buffer,
            final(self).buffer_idx == old(self).buffer_idx,
            final(self).last_streaming_path == old(self).last_streaming_path,
            final(self).handlers.count() == old(self).handlers.count(),
    {
        match &self.matches {
            Some((path, idxs)) => {
                let p = path.clone();
                let ids = copy_indexes(idxs);
                self.notify(&ids, &p, data, None)
            },
            None => Ok(()),
        }
    }
}

/// Copies a list of indexes.
fn copy_indexes(v: &Vec<usize>) -> (r: Vec<usize>)
    ensures
        r@ == v@,
{
    let mut r: Vec<usize> = Vec::new();
    let n = v.len();
    for k in 0..n
        invariant
            n == v@.len(),
            r@ == v@.take(k as int),
    {
        r.push(v[k]);
        assert(r@ =~= v@.take(k + 1));
    }
    assert(v@.take(n as int) =~= v@);
    r
}

} // verus!
