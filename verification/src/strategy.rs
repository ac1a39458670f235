//! Strategies: how JSON data are processed (which data are kept, converted,
//! extracted or only shown to handlers).

pub mod all;
pub mod convert;
pub mod extract;
pub mod filter;
pub mod trigger;

pub use self::all::All;
pub use self::convert::Convert;
pub use self::extract::Extract;
pub use self::filter::Filter;
pub use self::trigger::Trigger;

use crate::error;
use crate::path::{Path, SpecElement};
use vstd::prelude::*;

verus! {

/// Indexes, in increasing order, of the matchers which match the path.
pub open spec fn matching_indexes<T>(
    matchers: Seq<(crate::matcher::Combinator, T)>,
    path: Seq<SpecElement>,
    kind: crate::streamer::ParsedKind,
) -> Seq<usize>
    decreases matchers.len(),
{
    if matchers.len() == 0 {
        Seq::empty()
    } else {
        let prev = matching_indexes(matchers.drop_last(), path, kind);
        if matchers.last().0.matches_spec(path, kind) {
            prev.push((matchers.len() - 1) as usize)
        } else {
            prev
        }
    }
}

/// Every index of `matching_indexes` is below the number of matchers, and
/// there are none when no matcher matches.
pub proof fn lemma_matching_indexes<T>(
    matchers: Seq<(crate::matcher::Combinator, T)>,
    path: Seq<SpecElement>,
    kind: crate::streamer::ParsedKind,
)
    ensures
        forall|j: int|
            0 <= j < matching_indexes(matchers, path, kind).len() ==> #[trigger] matching_indexes(
                matchers,
                path,
                kind,
            )[j] < matchers.len(),
        matching_indexes(matchers, path, kind).len() > 0 ==> exists|i: int|
            0 <= i < matchers.len() && (#[trigger] matchers[i]).0.matches_spec(path, kind),
    decreases matchers.len(),
{
    if matchers.len() > 0 {
        lemma_matching_indexes(matchers.drop_last(), path, kind);
        let prev = matching_indexes(matchers.drop_last(), path, kind);
        if prev.len() > 0 {
            let i = choose|i: int|
                0 <= i < matchers.drop_last().len() && (#[trigger] matchers.drop_last()[i]).0.matches_spec(path, kind);
            assert(matchers[i] == matchers.drop_last()[i]);
        }
        if matchers.last().0.matches_spec(path, kind) {
            assert(matchers[matchers.len() - 1] == matchers.last());
        }
    }
}

/// Matching step: the matchers up to `k + 1` give those up to `k` and `k`
/// itself when it matches.
pub proof fn lemma_matching_step<T>(
    matchers: Seq<(crate::matcher::Combinator, T)>,
    path: Seq<SpecElement>,
    kind: crate::streamer::ParsedKind,
    k: int,
)
    requires
        0 <= k < matchers.len(),
    ensures
        matching_indexes(matchers.take(k + 1), path, kind) == if matchers[k].0.matches_spec(
            path,
            kind,
        ) {
            matching_indexes(matchers.take(k), path, kind).push(k as usize)
        } else {
            matching_indexes(matchers.take(k), path, kind)
        },
{
    assert(matchers.take(k + 1).drop_last() =~= matchers.take(k));
    assert(matchers.take(k + 1).last() == matchers[k]);
}

/// A part of the output of a strategy.
#[derive(Debug, PartialEq)]
pub enum Output {
    /// A record starts (optionally with its path).
    Start(Option<Path>),
    /// Data of the current record.
    Data(Vec<u8>),
    /// The record ends.
    End,
}

/// Model of an output part.
pub enum SpecOutput {
    Start(Option<Seq<SpecElement>>),
    Data(Seq<u8>),
    End,
}

/// View of an optional path.
pub open spec fn opt_path_view(p: Option<Path>) -> Option<Seq<SpecElement>> {
    match p {
        Some(p) => Some(p@),
        None => None,
    }
}

impl View for Output {
    type V = SpecOutput;

    open spec fn view(&self) -> SpecOutput {
        match self {
            Output::Start(p) => SpecOutput::Start(opt_path_view(*p)),
            Output::Data(d) => SpecOutput::Data(d@),
            Output::End => SpecOutput::End,
        }
    }
}

/// Views of output parts.
pub open spec fn outputs_view(o: Seq<Output>) -> Seq<SpecOutput> {
    o.map_values(|x: Output| x@)
}

/// All the data of the output parts, concatenated.
pub open spec fn output_data(o: Seq<SpecOutput>) -> Seq<u8>
    decreases o.len(),
{
    if o.len() == 0 {
        Seq::empty()
    } else {
        output_data(o.drop_last()) + match o.last() {
            SpecOutput::Data(d) => d,
            _ => Seq::empty(),
        }
    }
}

/// Where the data parts of `o` end in the input, when the data parts start at
/// the offsets `offs` (one offset for each part; the ones of other parts are
/// not used) and `from` is where the parts may start.
pub open spec fn pieces_end(o: Seq<SpecOutput>, offs: Seq<int>, from: int) -> int
    decreases o.len(),
{
    if o.len() == 0 || offs.len() != o.len() {
        from
    } else {
        match o.last() {
            SpecOutput::Data(d) => offs.last() + d.len(),
            _ => pieces_end(o.drop_last(), offs.drop_last(), from),
        }
    }
}

/// The data parts of `o` are pieces of `input` taken in order, without
/// overlapping, at or after `from`: the part `i` is the input at
/// `offs[i]..offs[i] + len`.
pub open spec fn input_pieces(o: Seq<SpecOutput>, input: Seq<u8>, offs: Seq<int>, from: int) -> bool
    decreases o.len(),
{
    if o.len() == 0 {
        offs.len() == 0
    } else {
        &&& offs.len() == o.len()
        &&& input_pieces(o.drop_last(), input, offs.drop_last(), from)
        &&& match o.last() {
            SpecOutput::Data(d) => {
                &&& pieces_end(o.drop_last(), offs.drop_last(), from) <= offs.last()
                &&& offs.last() + d.len() <= input.len()
                &&& input.subrange(offs.last(), offs.last() + d.len()) == d
            },
            _ => true,
        }
    }
}

/// The data parts of `o` are pieces of `input`, taken in order without
/// overlapping, between the positions `from` and `to`.
pub open spec fn pieces_of(o: Seq<SpecOutput>, input: Seq<u8>, from: int, to: int) -> bool {
    exists|offs: Seq<int>|
        #[trigger] input_pieces(o, input, offs, from) && pieces_end(o, offs, from) <= to
}

/// Appending a part which is no data keeps the parts pieces of the input.
pub proof fn lemma_pieces_push_other(
    o: Seq<SpecOutput>,
    input: Seq<u8>,
    offs: Seq<int>,
    from: int,
    x: SpecOutput,
)
    requires
        input_pieces(o, input, offs, from),
        !(x is Data),
    ensures
        input_pieces(o.push(x), input, offs.push(0), from),
        pieces_end(o.push(x), offs.push(0), from) == pieces_end(o, offs, from),
{
    assert(o.push(x).drop_last() =~= o);
    assert(offs.push(0).drop_last() =~= offs);
    if o.len() > 0 {
        assert(offs.len() == o.len());
    }
}

/// Appending a piece of the input which starts after the previous pieces
/// keeps the parts pieces of the input.
pub proof fn lemma_pieces_push_data(
    o: Seq<SpecOutput>,
    input: Seq<u8>,
    offs: Seq<int>,
    from: int,
    d: Seq<u8>,
    a: int,
)
    requires
        input_pieces(o, input, offs, from),
        pieces_end(o, offs, from) <= a,
        a + d.len() <= input.len(),
        input.subrange(a, a + d.len()) == d,
    ensures
        input_pieces(o.push(SpecOutput::Data(d)), input, offs.push(a), from),
        pieces_end(o.push(SpecOutput::Data(d)), offs.push(a), from) == a + d.len(),
{
    assert(o.push(SpecOutput::Data(d)).drop_last() =~= o);
    assert(offs.push(a).drop_last() =~= offs);
    if o.len() > 0 {
        assert(offs.len() == o.len());
    }
}

/// Appends a data part which is the piece of `input` at `at`.
pub(crate) fn push_piece(
    result: &mut Vec<Output>,
    data: Vec<u8>,
    Ghost(input): Ghost<Seq<u8>>,
    Ghost(from): Ghost<int>,
    Ghost(at): Ghost<int>,
    Ghost(offs): Ghost<Seq<int>>,
)
    requires
        input_pieces(outputs_view(old(result)@), input, offs, from),
        pieces_end(outputs_view(old(result)@), offs, from) <= at,
        at + data@.len() <= input.len(),
        data@ == input.subrange(at, at + data@.len()),
    ensures
        input_pieces(outputs_view(final(result)@), input, offs.push(at), from),
        pieces_end(outputs_view(final(result)@), offs.push(at), from) == at + data@.len(),
        output_data(outputs_view(final(result)@)) == output_data(outputs_view(old(result)@))
            + data@,
{
    let ghost prev = result@;
    let ghost d = data@;
    result.push(Output::Data(data));
    proof {
        lemma_pieces_push_data(outputs_view(prev), input, offs, from, d, at);
        assert(outputs_view(result@) =~= outputs_view(prev).push(SpecOutput::Data(d)));
        assert(outputs_view(result@).drop_last() =~= outputs_view(prev));
    }
}

/// Appends a part which is no data.
pub(crate) fn push_other(
    result: &mut Vec<Output>,
    x: Output,
    Ghost(input): Ghost<Seq<u8>>,
    Ghost(from): Ghost<int>,
    Ghost(offs): Ghost<Seq<int>>,
)
    requires
        input_pieces(outputs_view(old(result)@), input, offs, from),
        !(x is Data),
    ensures
        input_pieces(outputs_view(final(result)@), input, offs.push(0), from),
        pieces_end(outputs_view(final(result)@), offs.push(0), from) == pieces_end(
            outputs_view(old(result)@),
            offs,
            from,
        ),
        final(result)@ == old(result)@.push(x),
        output_data(outputs_view(final(result)@)) == output_data(outputs_view(old(result)@)),
{
    let ghost prev = result@;
    let ghost xv = x@;
    result.push(x);
    proof {
        lemma_pieces_push_other(outputs_view(prev), input, offs, from, xv);
        assert(outputs_view(result@) =~= outputs_view(prev).push(xv));
        assert(outputs_view(result@).drop_last() =~= outputs_view(prev));
        assert(output_data(outputs_view(result@)) =~= output_data(outputs_view(prev)));
    }
}

/// State of an [`OutputConverter`]: data of the unfinished record and the
/// stack of the started records' paths.
pub struct ConverterState {
    pub buffer: Seq<u8>,
    pub paths: Seq<Option<Seq<SpecElement>>>,
}

/// Converts output parts to records: the converter state after the parts and
/// the finished records.
pub open spec fn convert_outputs(state: ConverterState, o: Seq<SpecOutput>) -> (
    ConverterState,
    Seq<(Option<Seq<SpecElement>>, Seq<u8>)>,
)
    decreases o.len(),
{
    if o.len() == 0 {
        (state, Seq::empty())
    } else {
        let (st, recs) = convert_outputs(state, o.drop_last());
        match o.last() {
            SpecOutput::Start(p) => (ConverterState { paths: st.paths.push(p), ..st }, recs),
            SpecOutput::Data(d) => (ConverterState { buffer: st.buffer + d, ..st }, recs),
            SpecOutput::End => {
                let path = if st.paths.len() > 0 {
                    st.paths.last()
                } else {
                    None
                };
                let paths = if st.paths.len() > 0 {
                    st.paths.drop_last()
                } else {
                    st.paths
                };
                (ConverterState { buffer: Seq::empty(), paths }, recs.push((path, st.buffer)))
            },
        }
    }
}

/// Clones an optional path.
fn clone_opt_path(p: &Option<Path>) -> (r: Option<Path>)
    ensures
        opt_path_view(r) == opt_path_view(*p),
{
    match p {
        Some(p) => Some(p.clone()),
        None => None,
    }
}

/// Converts output parts of a strategy to `(path, data)` records.
pub struct OutputConverter {
    buffer: Vec<u8>,
    paths: Vec<Option<Path>>,
}

/// View of a converted record.
pub open spec fn record_view(r: (Option<Path>, Vec<u8>)) -> (Option<Seq<SpecElement>>, Seq<u8>) {
    (opt_path_view(r.0), r.1@)
}

impl OutputConverter {
    /// State of the converter.
    pub closed spec fn state(&self) -> ConverterState {
        ConverterState {
            buffer: self.buffer@,
            paths: self.paths@.map_values(|p: Option<Path>| opt_path_view(p)),
        }
    }

    /// Creates a new converter.
    pub fn new() -> (r: Self)
        ensures
            r.state().buffer.len() == 0,
            r.state().paths.len() == 0,
    {
        let r = OutputConverter { buffer: Vec::new(), paths: Vec::new() };
        assert(r.state().paths =~= Seq::empty());
        r
    }

    /// Converts output parts to records; unfinished records are kept for the
    /// next call.
    pub fn convert(&mut self, input: &[Output]) -> (r: Vec<(Option<Path>, Vec<u8>)>)
        ensures
            ({
                let (st, recs) = convert_outputs(old(self).state(), outputs_view(input@));
                &&& final(self).state() == st
                &&& r@.map_values(|x: (Option<Path>, Vec<u8>)| record_view(x)) == recs
            }),
    {
        let mut res: Vec<(Option<Path>, Vec<u8>)> = Vec::new();
        let n = input.len();
        for i in 0..n
            invariant
                n == input@.len(),
                ({
                    let (st, recs) = convert_outputs(
                        old(self).state(),
                        outputs_view(input@).take(i as int),
                    );
                    &&& self.state() == st
                    &&& res@.map_values(|x: (Option<Path>, Vec<u8>)| record_view(x)) == recs
                }),
        {
            let ghost prev_res = res@;
            let ghost prev_state = self.state();
            assert(outputs_view(input@).take(i + 1).drop_last() =~= outputs_view(input@).take(
                i as int,
            ));
            assert(outputs_view(input@).take(i + 1).last() == input@[i as int]@);
            match &input[i] {
                Output::Start(p) => {
                    let ghost old_paths = self.paths@;
                    self.paths.push(clone_opt_path(p));
                    assert(self.state().paths =~= old_paths.map_values(
                        |p: Option<Path>| opt_path_view(p),
                    ).push(opt_path_view(*p)));
                    assert(self.state() =~= ConverterState {
                        paths: prev_state.paths.push(opt_path_view(*p)),
                        ..prev_state
                    });
                },
                Output::Data(d) => {
                    let ghost old_buf = self.buffer@;
                    self.buffer.extend_from_slice(d.as_slice());
                    assert(old_buf == prev_state.buffer);
                    assert(self.buffer@ =~= old_buf + d@);
                    assert(self.state().paths =~= prev_state.paths);
                    assert(self.state() =~= ConverterState {
                        buffer: prev_state.buffer + d@,
                        ..prev_state
                    });
                },
                Output::End => {
                    let mut output: Vec<u8> = Vec::new();
                    std::mem::swap(&mut output, &mut self.buffer);
                    let ghost old_paths = self.paths@;
                    let path = match self.paths.pop() {
                        Some(p) => p,
                        None => None,
                    };
                    assert(self.state().paths =~= if old_paths.len() > 0 {
                        old_paths.map_values(|p: Option<Path>| opt_path_view(p)).drop_last()
                    } else {
                        old_paths.map_values(|p: Option<Path>| opt_path_view(p))
                    });
                    assert(opt_path_view(path) == if prev_state.paths.len() > 0 {
                        prev_state.paths.last()
                    } else {
                        None
                    });
                    assert(self.state().buffer =~= Seq::<u8>::empty());
                    res.push((path, output));
                    assert(res@.map_values(|x: (Option<Path>, Vec<u8>)| record_view(x))
                        =~= prev_res.map_values(|x: (Option<Path>, Vec<u8>)| record_view(x)).push(
                        record_view((path, output)),
                    ));
                },
            }
        }
        assert(outputs_view(input@).take(n as int) =~= outputs_view(input@));
        res
    }
}

/// Common interface of the strategies which emit [`Output`] parts.
pub trait Strategy {
    /// Whether the strategy can process more data.
    spec fn ready(&self) -> bool;

    /// Number of input bytes processed so far.
    spec fn consumed(&self) -> nat;

    /// Processes input data.
    ///
    /// An error is returned when the input can not be processed (note that
    /// the JSON is not validated) or when a handler fails; the strategy should
    /// not be used after an error.
    fn process(&mut self, input: &[u8]) -> (r: Result<Vec<Output>, error::General>)
        requires
            old(self).ready(),
            old(self).consumed() + input@.len() <= usize::MAX,
        ensures
            r is Ok ==> final(self).ready() && final(self).consumed() == old(self).consumed()
                + input@.len(),
    ;

    /// Should be called when the input data terminate: fails when a JSON is
    /// not finished.
    fn terminate(&mut self) -> (r: Result<Vec<Output>, error::General>)
        requires
            old(self).ready(),
        ensures
            final(self).ready(),
            final(self).consumed() == old(self).consumed(),
    ;

    /// Should be called when a JSON on the input was read entirely.
    fn json_finished(&mut self) -> (r: Result<Vec<Output>, error::General>)
        requires
            old(self).ready(),
        ensures
            final(self).ready(),
            final(self).consumed() == old(self).consumed(),
    ;
}

} // verus!
