//! Handlers: what to do with matched paths and data.
//!
//! Handlers live in a [`Handlers`] registry and are referred to by their
//! index there, so one handler can serve several matchers and several
//! [`Group`]s, and its results can be read after the processing.

pub mod analyser;
pub mod buffer;
pub mod indenter;
pub mod indexer;
pub mod output;
pub mod println;
pub mod regex;
pub mod replace;
pub mod shorten;
pub mod unstringify;

pub use self::analyser::Analyser;
pub use self::buffer::Buffer;
pub use self::indenter::Indenter;
pub use self::indexer::Indexer;
pub use self::output::Output;
pub use self::println::PrintLn;
pub use self::regex::Regex;
pub use self::replace::Replace;
pub use self::shorten::Shorten;
pub use self::unstringify::Unstringify;

use crate::error;
use crate::path::{Path, SpecElement};
use crate::streamer::{ParsedKind, Token};
use vstd::prelude::*;

verus! {

/// What a handler returns: `Ok(None)` when it has no output, `Ok(Some(data))`
/// when it has some, `Err(_)` when it failed.
pub type HandlerOutput = Result<Option<Vec<u8>>, error::Handler>;

/// A group of handlers (their indexes in the registry) which are triggered
/// together, in order. Output of a converting member is passed to the
/// following members.
#[derive(Debug, Clone)]
pub struct Group {
    handlers: Vec<usize>,
}

impl Group {
    /// Members of the group.
    pub closed spec fn members(&self) -> Seq<usize> {
        self.handlers@
    }

    /// Creates an empty group.
    pub fn new() -> (r: Self)
        ensures
            r.members().len() == 0,
    {
        Group { handlers: Vec::new() }
    }

    /// Adds a handler (builder pattern).
    pub fn add_handler(self, handler: usize) -> (r: Self)
        ensures
            r.members() == self.members().push(handler),
    {
        let mut handlers = self.handlers;
        handlers.push(handler);
        Group { handlers }
    }

    /// Adds a handler.
    pub fn add_handler_mut(&mut self, handler: usize)
        ensures
            final(self).members() == old(self).members().push(handler),
    {
        self.handlers.push(handler);
    }

    /// Members of the group.
    pub fn subhandlers(&self) -> (r: &[usize])
        ensures
            r@ == self.members(),
    {
        self.handlers.as_slice()
    }
}

/// A handler.
pub enum Handler {
    Analyser(Analyser),
    Buffer(Buffer),
    Group(Group),
    Indenter(Indenter),
    Indexer(Indexer),
    Output(Output),
    PrintLn(PrintLn),
    Regex(Regex),
    Replace(Replace),
    Shorten(Shorten),
    Unstringify(Unstringify),
}

impl Handler {
    /// Whether a single (non-group) handler converts data, i.e. its output
    /// replaces the matched data.
    pub open spec fn converts(&self) -> bool {
        match self {
            Handler::Indenter(_) | Handler::Regex(_) | Handler::Replace(_) | Handler::Shorten(_)
            | Handler::Unstringify(_) => true,
            _ => false,
        }
    }
}

/// View of an optional output.
pub open spec fn out_view(r: HandlerOutput) -> Option<Option<Seq<u8>>> {
    match r {
        Ok(Some(v)) => Some(Some(v@)),
        Ok(None) => Some(None),
        Err(_) => None,
    }
}

/// `Ok(None)`.
pub open spec fn no_output(r: HandlerOutput) -> bool {
    out_view(r) == Some(None::<Seq<u8>>)
}

/// What `start` does to a single (non-group) handler and what it returns.
pub open spec fn single_started(
    old: Handler,
    new: Handler,
    path: Seq<SpecElement>,
    token: Token,
    r: HandlerOutput,
) -> bool {
    match (old, new) {
        (Handler::Analyser(o), Handler::Analyser(n)) => {
            &&& n.groups_types() == o.groups_types()
            &&& (r is Err <==> !(token is Start))
            &&& (r is Ok ==> no_output(r))
            &&& match token {
                Token::Start(_, kind) => n.entries() == analyser::analyser_add(
                    o.entries(),
                    analyser::analyser_key(
                        path,
                        if o.groups_types() {
                            Some(kind)
                        } else {
                            None
                        },
                    ),
                ),
                _ => n.entries() == o.entries(),
            }
        },
        (Handler::Buffer(o), Handler::Buffer(n)) => {
            &&& (r is Err <==> buffer::buffer_start_fails(o@, token))
            &&& (r is Ok ==> no_output(r) && n@ == buffer::buffer_started(o@, token))
            &&& (r is Err ==> n@ == o@)
        },
        (Handler::Indenter(o), Handler::Indenter(n)) => {
            &&& n.spaces() == o.spaces()
            &&& match token {
                Token::Start(_, kind) => match indenter::indenter_start_output(
                    o.stack(),
                    o.spaces(),
                    path,
                    kind,
                ) {
                    Some(out) => out_view(r) == Some(indenter::some_if_not_empty(out)) && n.stack()
                        == Some(indenter::started_stack(o.stack(), kind)),
                    None => r is Err,
                },
                _ => r is Err && n.stack() == o.stack(),
            }
        },
        (Handler::Indexer(o), Handler::Indexer(n)) => {
            &&& no_output(r)
            &&& n.uses_path() == o.uses_path()
            &&& n.stored() == o.stored().push(indexer::index_record(o.uses_path(), path, token))
        },
        (Handler::Output(o), Handler::Output(n)) => {
            &&& no_output(r)
            &&& n.writes_path() == o.writes_path()
            &&& n.separator() == o.separator()
            &&& n.written() == o.written() + if o.writes_path() {
                vstd::utf8::encode_utf8(crate::path::render_path(path) + ": "@)
            } else {
                Seq::empty()
            }
        },
        (Handler::PrintLn(o), Handler::PrintLn(n)) => no_output(r) && n == o,
        (Handler::Regex(o), Handler::Regex(n)) => {
            &&& no_output(r)
            &&& n.commands() == o.commands()
            &&& n.buffered() == o.buffered()
        },
        (Handler::Replace(o), Handler::Replace(n)) => no_output(r) && n.data() == o.data(),
        (Handler::Shorten(o), Handler::Shorten(n)) => {
            &&& no_output(r)
            &&& n.used() == 0
            &&& !n.cut()
            &&& n.max_length() == o.max_length()
            &&& n.terminator() == o.terminator()
        },
        (Handler::Unstringify(o), Handler::Unstringify(n)) => {
            &&& n.state() == unstringify::State::Initial
            &&& (r is Err <==> !(token matches Token::Start(_, k) && k == ParsedKind::Str))
            &&& (r is Ok ==> no_output(r))
        },
        _ => false,
    }
}

/// What `feed` does to a single (non-group) handler and what it returns.
pub open spec fn single_fed(old: Handler, new: Handler, data: Seq<u8>, r: HandlerOutput) -> bool {
    match (old, new) {
        (Handler::Analyser(o), Handler::Analyser(n)) => no_output(r) && n == o,
        (Handler::Buffer(o), Handler::Buffer(n)) => {
            &&& (r is Err <==> buffer::buffer_feed_fails(o@, data))
            &&& (r is Ok ==> no_output(r) && n@ == buffer::buffer_fed(o@, data))
            &&& (r is Err ==> n@ == o@)
        },
        (Handler::Indenter(o), Handler::Indenter(n)) => {
            &&& n.spaces() == o.spaces()
            &&& n.stack() == o.stack()
            &&& out_view(r) == Some(
                Some(
                    match o.stack() {
                        Some(st) => if st.len() > 0 && st.last().1 != ParsedKind::Obj && st.last().1
                            != ParsedKind::Arr {
                            data
                        } else {
                            Seq::empty()
                        },
                        None => Seq::empty(),
                    },
                ),
            )
        },
        (Handler::Indexer(o), Handler::Indexer(n)) => no_output(r) && n == o,
        (Handler::Output(o), Handler::Output(n)) => {
            &&& no_output(r)
            &&& n.writes_path() == o.writes_path()
            &&& n.separator() == o.separator()
            &&& n.written() == o.written() + data
        },
        (Handler::PrintLn(o), Handler::PrintLn(n)) => {
            &&& no_output(r)
            &&& n.uses_path() == o.uses_path()
            &&& n.separator() == o.separator()
            &&& n.buffered() == o.buffered() + data
            &&& n.records() == o.records()
        },
        (Handler::Regex(o), Handler::Regex(n)) => {
            &&& no_output(r)
            &&& n.commands() == o.commands()
            &&& n.buffered() == o.buffered() + data
        },
        (Handler::Replace(o), Handler::Replace(n)) => no_output(r) && n.data() == o.data(),
        (Handler::Shorten(o), Handler::Shorten(n)) => {
            let (used, cut, out) = shorten::shorten_feed(
                o.max_length(),
                o.used(),
                o.cut(),
                data,
                o.terminator(),
            );
            &&& n.max_length() == o.max_length()
            &&& n.terminator() == o.terminator()
            &&& n.used() == used
            &&& n.cut() == cut
            &&& out_view(r) == Some(out)
        },
        (Handler::Unstringify(o), Handler::Unstringify(n)) => match unstringify::unstringify_feed(
            o.state(),
            data,
        ) {
            Some((st, out)) => out_view(r) == Some(Some(out)) && n.state() == st,
            None => r is Err,
        },
        _ => false,
    }
}

/// What `end` does to a single (non-group) handler and what it returns.
pub open spec fn single_ended(
    old: Handler,
    new: Handler,
    path: Seq<SpecElement>,
    token: Token,
    r: HandlerOutput,
) -> bool {
    match (old, new) {
        (Handler::Analyser(o), Handler::Analyser(n)) => no_output(r) && n == o,
        (Handler::Buffer(o), Handler::Buffer(n)) => {
            &&& (r is Err <==> buffer::buffer_end_fails(o@))
            &&& (r is Ok ==> no_output(r) && n@ == buffer::buffer_ended(o@, path))
            &&& (r is Err ==> n@ == o@)
        },
        (Handler::Indenter(o), Handler::Indenter(n)) => {
            &&& n.spaces() == o.spaces()
            &&& match (token, o.stack()) {
                (Token::End(_, kind), Some(st)) => if st.len() > 0 {
                    out_view(r) == Some(
                        indenter::some_if_not_empty(
                            indenter::indenter_end_output(st, o.spaces(), kind),
                        ),
                    ) && n.stack() == indenter::ended_stack(st, o.spaces())
                } else {
                    r is Err && n.stack() == o.stack()
                },
                (Token::End(_, _), None) => no_output(r) && n.stack() is None,
                _ => r is Err && n.stack() == o.stack(),
            }
        },
        (Handler::Indexer(o), Handler::Indexer(n)) => {
            &&& no_output(r)
            &&& n.uses_path() == o.uses_path()
            &&& n.stored() == o.stored().push(indexer::index_record(o.uses_path(), path, token))
        },
        (Handler::Output(o), Handler::Output(n)) => {
            &&& no_output(r)
            &&& n.writes_path() == o.writes_path()
            &&& n.separator() == o.separator()
            &&& n.written() == o.written() + vstd::utf8::encode_utf8(o.separator())
        },
        (Handler::PrintLn(o), Handler::PrintLn(n)) => {
            &&& n.uses_path() == o.uses_path()
            &&& n.separator() == o.separator()
            &&& (r is Ok <==> vstd::utf8::valid_utf8(o.buffered()))
            &&& (r is Ok ==> no_output(r) && n.buffered().len() == 0 && n.records()
                == o.records().push(
                println::println_record(
                    o.uses_path(),
                    path,
                    vstd::utf8::decode_utf8(o.buffered()),
                    o.separator(),
                ),
            ))
            &&& (r is Err ==> n.buffered() == o.buffered() && n.records() == o.records())
        },
        (Handler::Regex(o), Handler::Regex(n)) => {
            &&& n.commands() == o.commands()
            &&& (r is Ok <==> vstd::utf8::valid_utf8(o.buffered())
                && regex::sed_commands_parse(o.commands()))
            &&& (r is Ok ==> n.buffered().len() == 0 && out_view(r) == Some(
                Some(
                    vstd::utf8::encode_utf8(
                        regex::sed_replaced(vstd::utf8::decode_utf8(o.buffered()), o.commands()),
                    ),
                ),
            ))
            &&& (r is Err ==> n.buffered() == o.buffered())
        },
        (Handler::Replace(o), Handler::Replace(n)) => {
            &&& out_view(r) == Some(Some(o.data()))
            &&& n.data() == o.data()
        },
        (Handler::Shorten(o), Handler::Shorten(n)) => {
            &&& no_output(r)
            &&& n.used() == o.used()
            &&& n.cut() == o.cut()
            &&& n.max_length() == o.max_length()
            &&& n.terminator() == o.terminator()
        },
        (Handler::Unstringify(o), Handler::Unstringify(n)) => {
            &&& n.state() == o.state()
            &&& (r is Err <==> o.state() != unstringify::State::Terminated)
            &&& (r is Ok ==> no_output(r))
        },
        _ => false,
    }
}

/// Whether all the indexes are below the bound.
fn members_below(members: &[usize], n: usize) -> (r: bool)
    ensures
        r == forall|k: int| 0 <= k < members@.len() ==> #[trigger] members@[k] < n,
{
    let m = members.len();
    for k in 0..m
        invariant
            m == members@.len(),
            forall|j: int| 0 <= j < k ==> #[trigger] members@[j] < n,
    {
        if members[k] >= n {
            return false;
        }
    }
    true
}

/// Registry of handlers; a handler is referred to by its index.
pub struct Handlers {
    items: Vec<Handler>,
}

/// A group refers only to handlers registered before it.
pub open spec fn group_members_before(items: Seq<Handler>, i: int) -> bool {
    items[i] matches Handler::Group(g) ==> forall|k: int|
        0 <= k < g.members().len() ==> #[trigger] g.members()[k] < i
}

/// What taking the oldest record of a handler gives (`record`) and leaves
/// (`new`): a buffer hands out its oldest record, other handlers nothing.
pub open spec fn buffer_popped(
    old: Handler,
    new: Handler,
    record: Option<(Option<String>, Vec<u8>)>,
) -> bool {
    match old {
        Handler::Buffer(b) => new matches Handler::Buffer(b2) && match record {
            Some(rec) => {
                &&& b@.results.len() > 0
                &&& buffer::record_view(rec) == b@.results[0]
                &&& b2@ == (buffer::BufferModel {
                    results: b@.results.drop_first(),
                    current: buffer::saturate(
                        (buffer::results_size(b@.results.drop_first()) + b@.buffer.len()) as int,
                    ),
                    ..b@
                })
            },
            None => b@.results.len() == 0 && b2@ == b@,
        },
        _ => record is None && new == old,
    }
}

/// What taking the oldest record of a handler gives and leaves: an indexer
/// hands out its oldest record, other handlers nothing.
pub open spec fn indexer_popped(
    old: Handler,
    new: Handler,
    record: Option<(Option<String>, Token)>,
) -> bool {
    match old {
        Handler::Indexer(h) => new matches Handler::Indexer(h2) && h2.uses_path() == h.uses_path()
            && match record {
            Some(rec) => {
                &&& h.stored().len() > 0
                &&& indexer::index_record_view(rec) == h.stored()[0]
                &&& h2.stored() == h.stored().drop_first()
            },
            None => h.stored().len() == 0 && h2.stored() == h.stored(),
        },
        _ => record is None && new == old,
    }
}

/// What taking the oldest line of a handler gives and leaves: a print
/// handler hands out its oldest line, other handlers nothing.
pub open spec fn println_popped(old: Handler, new: Handler, record: Option<String>) -> bool {
    match old {
        Handler::PrintLn(h) => new matches Handler::PrintLn(h2) && h2.uses_path() == h.uses_path()
            && h2.separator() == h.separator() && h2.buffered() == h.buffered() && match record {
            Some(line) => h.records().len() > 0 && line@ == h.records()[0] && h2.records()
                == h.records().drop_first(),
            None => h.records().len() == 0 && h2.records() == h.records(),
        },
        _ => record is None && new == old,
    }
}

/// What taking the written bytes of a handler gives and leaves: an output
/// handler hands out all it wrote, other handlers nothing.
pub open spec fn output_taken(old: Handler, new: Handler, data: Seq<u8>) -> bool {
    match old {
        Handler::Output(h) => new matches Handler::Output(h2) && data == h.written()
            && h2.written().len() == 0 && h2.writes_path() == h.writes_path() && h2.separator()
            == h.separator(),
        _ => data.len() == 0 && new == old,
    }
}

/// Only the handler `id` changed (its change is told by `changed`), and an
/// index which is not registered changes nothing.
pub open spec fn only_changed(old: Handlers, new: Handlers, id: usize, changed: bool) -> bool {
    &&& new.count() == old.count()
    &&& forall|j: int| 0 <= j < old.count() && j != id ==> new.items()[j] == old.items()[j]
    &&& id < old.count() ==> changed
}

/// The members are single handlers which do not convert: data passes them
/// unchanged.
pub open spec fn plain_members(items: Seq<Handler>, members: Seq<usize>) -> bool {
    forall|k: int|
        0 <= k < members.len() ==> members[k] < items.len() && !(#[trigger] items[members[k] as int] is Group)
            && !items[members[k] as int].converts()
}

impl Handlers {
    /// Registered handlers.
    pub closed spec fn items(&self) -> Seq<Handler> {
        self.items@
    }

    /// Number of registered handlers.
    pub open spec fn count(&self) -> nat {
        self.items().len()
    }

    /// Well-formedness: groups refer only to handlers registered before them.
    pub open spec fn wf(&self) -> bool {
        forall|i: int| 0 <= i < self.count() ==> group_members_before(self.items(), i)
    }

    /// Whether adding the handler keeps the registry well-formed.
    pub open spec fn can_add(&self, handler: Handler) -> bool {
        handler matches Handler::Group(g) ==> forall|k: int|
            0 <= k < g.members().len() ==> #[trigger] g.members()[k] < self.count()
    }

    /// Creates an empty registry.
    pub fn new() -> (r: Self)
        ensures
            r.wf(),
            r.count() == 0,
    {
        Handlers { items: Vec::new() }
    }

    /// Number of registered handlers.
    pub fn len(&self) -> (r: usize)
        ensures
            r == self.count(),
    {
        self.items.len()
    }

    /// Registers a handler and returns its index. A group can refer only to
    /// handlers which are registered already.
    pub fn add(&mut self, handler: Handler) -> (r: Result<usize, error::Handler>)
        requires
            old(self).wf(),
        ensures
            final(self).wf(),
            r is Ok <==> old(self).can_add(handler),
            r matches Ok(id) ==> id == old(self).count() && final(self).items() == old(
                self,
            ).items().push(handler),
            r is Err ==> final(self).items() == old(self).items(),
    {
        let n = self.items.len();
        let ok = match &handler {
            Handler::Group(g) => members_below(g.subhandlers(), n),
            _ => true,
        };
        if !ok {
            return Err(error::Handler::new("Group refers to an unknown handler"));
        }
        let ghost old_items = self.items@;
        assert(old_items == self.items());
        self.items.push(handler);
        proof {
            assert forall|i: int| 0 <= i < self.count() implies group_members_before(
                self.items(),
                i,
            ) by {
                if i < n {
                    assert(self.items()[i] == old_items[i]);
                    assert(group_members_before(old_items, i));
                }
            }
        }
        Ok(n)
    }

    /// The handler with the given index.
    pub fn get(&self, id: usize) -> (r: Option<&Handler>)
        ensures
            id < self.count() ==> r == Some(&self.items()[id as int]),
            id >= self.count() ==> r is None,
    {
        if id < self.items.len() {
            Some(&self.items[id])
        } else {
            None
        }
    }

    /// Takes the oldest record of a [`Buffer`] handler (`None` for other handlers).
    pub fn buffer_pop(&mut self, id: usize) -> (r: Option<(Option<String>, Vec<u8>)>)
        requires
            old(self).wf(),
        ensures
            final(self).wf(),
            final(self).count() == old(self).count(),
            only_changed(
                *old(self),
                *final(self),
                id,
                buffer_popped(old(self).items()[id as int], final(self).items()[id as int], r),
            ),
            id >= old(self).count() ==> r is None,
    {
        if id >= self.items.len() {
            return None;
        }
        let ghost old_items = self.items@;
        assert(old_items == old(self).items());
        let r = match &mut self.items[id] {
            Handler::Buffer(b) => b.pop(),
            _ => None,
        };
        proof {
            self.lemma_same_kinds_wf(old_items, id as int);
        }
        r
    }

    /// Number of records of a [`Buffer`] handler (0 for other handlers).
    pub fn buffer_len(&self, id: usize) -> (r: usize)
        ensures
            id < self.count() ==> match self.items()[id as int] {
                Handler::Buffer(b) => r == b@.results.len(),
                _ => r == 0,
            },
    {
        if id >= self.items.len() {
            return 0;
        }
        match &self.items[id] {
            Handler::Buffer(b) => b.len(),
            _ => 0,
        }
    }

    /// Takes the oldest record of an [`Indexer`] handler (`None` for other handlers).
    pub fn indexer_pop(&mut self, id: usize) -> (r: Option<(Option<String>, Token)>)
        requires
            old(self).wf(),
        ensures
            final(self).wf(),
            final(self).count() == old(self).count(),
            only_changed(
                *old(self),
                *final(self),
                id,
                indexer_popped(old(self).items()[id as int], final(self).items()[id as int], r),
            ),
            id >= old(self).count() ==> r is None,
    {
        if id >= self.items.len() {
            return None;
        }
        let ghost old_items = self.items@;
        assert(old_items == old(self).items());
        let r = match &mut self.items[id] {
            Handler::Indexer(h) => h.pop(),
            _ => None,
        };
        proof {
            self.lemma_same_kinds_wf(old_items, id as int);
        }
        r
    }

    /// Results of an [`Analyser`] handler (`None` for other handlers).
    pub fn analyser_results(&self, id: usize) -> (r: Option<Vec<(String, usize)>>)
        ensures
            id < self.count() && self.items()[id as int] is Analyser ==> (r matches Some(v)
                && analyser::entries_of(v@) == self.items()[id as int]->Analyser_0.entries()),
            !(id < self.count() && self.items()[id as int] is Analyser) ==> r is None,
    {
        if id >= self.items.len() {
            return None;
        }
        match &self.items[id] {
            Handler::Analyser(a) => Some(a.results()),
            _ => None,
        }
    }

    /// Takes the oldest record of a [`PrintLn`] handler (`None` for other handlers).
    pub fn println_pop(&mut self, id: usize) -> (r: Option<String>)
        requires
            old(self).wf(),
        ensures
            final(self).wf(),
            final(self).count() == old(self).count(),
            only_changed(
                *old(self),
                *final(self),
                id,
                println_popped(old(self).items()[id as int], final(self).items()[id as int], r),
            ),
            id >= old(self).count() ==> r is None,
    {
        if id >= self.items.len() {
            return None;
        }
        let ghost old_items = self.items@;
        assert(old_items == old(self).items());
        let r = match &mut self.items[id] {
            Handler::PrintLn(h) => h.pop_record(),
            _ => None,
        };
        proof {
            self.lemma_same_kinds_wf(old_items, id as int);
        }
        r
    }

    /// Takes the bytes written by an [`Output`] handler (empty for other handlers).
    pub fn output_take(&mut self, id: usize) -> (r: Vec<u8>)
        requires
            old(self).wf(),
        ensures
            final(self).wf(),
            final(self).count() == old(self).count(),
            only_changed(
                *old(self),
                *final(self),
                id,
                output_taken(old(self).items()[id as int], final(self).items()[id as int], r@),
            ),
            id >= old(self).count() ==> r@.len() == 0,
    {
        if id >= self.items.len() {
            return Vec::new();
        }
        let ghost old_items = self.items@;
        assert(old_items == old(self).items());
        let r = match &mut self.items[id] {
            Handler::Output(h) => h.take_written(),
            _ => Vec::new(),
        };
        proof {
            self.lemma_same_kinds_wf(old_items, id as int);
        }
        r
    }

    /// Members of the group with the given index (empty for other handlers).
    fn members_of(&self, id: usize) -> (r: Vec<usize>)
        requires
            id < self.count(),
        ensures
            match self.items()[id as int] {
                Handler::Group(g) => r@ == g.members(),
                _ => r@.len() == 0,
            },
    {
        let mut r: Vec<usize> = Vec::new();
        match &self.items[id] {
            Handler::Group(g) => {
                let members = g.subhandlers();
                let m = members.len();
                for k in 0..m
                    invariant
                        m == members@.len(),
                        r@ == members@.take(k as int),
                {
                    r.push(members[k]);
                    assert(r@ =~= members@.take(k + 1));
                }
                assert(members@.take(m as int) =~= members@);
            },
            _ => {},
        }
        r
    }

    /// Whether the handler converts data (a group does when one of its
    /// members does).
    pub fn is_converter(&self, id: usize) -> (r: bool)
        requires
            self.wf(),
            id < self.count(),
        ensures
            !(self.items()[id as int] is Group) ==> r == self.items()[id as int].converts(),
        decreases id,
    {
        let members = self.members_of(id);
        match &self.items[id] {
            Handler::Group(_) => {
                assert(group_members_before(self.items(), id as int));
                let m = members.len();
                for k in 0..m
                    invariant
                        self.wf(),
                        id < self.count(),
                        self.items()[id as int] is Group,
                        m == members@.len(),
                        forall|j: int| 0 <= j < m ==> #[trigger] members@[j] < id,
                {
                    if self.is_converter(members[k]) {
                        return true;
                    }
                }
                false
            },
            Handler::Indenter(_) | Handler::Regex(_) | Handler::Replace(_) | Handler::Shorten(_)
            | Handler::Unstringify(_) => true,
            _ => false,
        }
    }

    /// Calls `start` of a single (non-group) handler.
    fn start_single(&mut self, id: usize, path: &Path, matcher_idx: usize, token: Token) -> (r:
        HandlerOutput)
        requires
            old(self).wf(),
            id < old(self).count(),
            !(old(self).items()[id as int] is Group),
        ensures
            single_started(old(self).items()[id as int], final(self).items()[id as int], path@, token, r),
            final(self).wf(),
            final(self).count() == old(self).count(),
            forall|j: int| 0 <= j < old(self).count() && j != id ==> final(self).items()[j] == old(
                self,
            ).items()[j],
    {
        let ghost old_items = self.items@;
        assert(old_items == old(self).items());
        let r = match &mut self.items[id] {
            Handler::Analyser(h) => h.start(path, matcher_idx, token),
            Handler::Buffer(h) => h.start(path, matcher_idx, token),
            Handler::Group(_) => Ok(None),
            Handler::Indenter(h) => h.start(path, matcher_idx, token),
            Handler::Indexer(h) => h.start(path, matcher_idx, token),
            Handler::Output(h) => h.start(path, matcher_idx, token),
            Handler::PrintLn(h) => h.start(path, matcher_idx, token),
            Handler::Regex(h) => h.start(path, matcher_idx, token),
            Handler::Replace(h) => h.start(path, matcher_idx, token),
            Handler::Shorten(h) => h.start(path, matcher_idx, token),
            Handler::Unstringify(h) => h.start(path, matcher_idx, token),
        };
        proof {
            self.lemma_same_kinds_wf(old_items, id as int);
        }
        r
    }

    /// Calls `feed` of a single (non-group) handler.
    fn feed_single(&mut self, id: usize, data: &[u8], matcher_idx: usize) -> (r: HandlerOutput)
        requires
            old(self).wf(),
            id < old(self).count(),
            !(old(self).items()[id as int] is Group),
        ensures
            single_fed(old(self).items()[id as int], final(self).items()[id as int], data@, r),
            final(self).wf(),
            final(self).count() == old(self).count(),
            forall|j: int| 0 <= j < old(self).count() && j != id ==> final(self).items()[j] == old(
                self,
            ).items()[j],
    {
        let ghost old_items = self.items@;
        assert(old_items == old(self).items());
        let r = match &mut self.items[id] {
            Handler::Analyser(_) => Ok(None),
            Handler::Buffer(h) => h.feed(data, matcher_idx),
            Handler::Group(_) => Ok(None),
            Handler::Indenter(h) => h.feed(data, matcher_idx),
            Handler::Indexer(_) => Ok(None),
            Handler::Output(h) => h.feed(data, matcher_idx),
            Handler::PrintLn(h) => h.feed(data, matcher_idx),
            Handler::Regex(h) => h.feed(data, matcher_idx),
            Handler::Replace(h) => h.feed(data, matcher_idx),
            Handler::Shorten(h) => h.feed(data, matcher_idx),
            Handler::Unstringify(h) => h.feed(data, matcher_idx),
        };
        proof {
            self.lemma_same_kinds_wf(old_items, id as int);
        }
        r
    }

    /// Calls `end` of a single (non-group) handler.
    fn end_single(&mut self, id: usize, path: &Path, matcher_idx: usize, token: Token) -> (r:
        HandlerOutput)
        requires
            old(self).wf(),
            id < old(self).count(),
            !(old(self).items()[id as int] is Group),
        ensures
            single_ended(old(self).items()[id as int], final(self).items()[id as int], path@, token, r),
            final(self).wf(),
            final(self).count() == old(self).count(),
            forall|j: int| 0 <= j < old(self).count() && j != id ==> final(self).items()[j] == old(
                self,
            ).items()[j],
    {
        let ghost old_items = self.items@;
        assert(old_items == old(self).items());
        let r = match &mut self.items[id] {
            Handler::Analyser(_) => Ok(None),
            Handler::Buffer(h) => h.end(path, matcher_idx, token),
            Handler::Group(_) => Ok(None),
            Handler::Indenter(h) => h.end(path, matcher_idx, token),
            Handler::Indexer(h) => h.end(path, matcher_idx, token),
            Handler::Output(h) => h.end(path, matcher_idx, token),
            Handler::PrintLn(h) => h.end(path, matcher_idx, token),
            Handler::Regex(h) => h.end(path, matcher_idx, token),
            Handler::Replace(h) => h.end(path, matcher_idx, token),
            Handler::Shorten(h) => h.end(path, matcher_idx, token),
            Handler::Unstringify(h) => h.end(path, matcher_idx, token),
        };
        proof {
            self.lemma_same_kinds_wf(old_items, id as int);
        }
        r
    }

    /// Notifies a handler that a match starts (see [`Handlers::start_group`]
    /// for groups).
    pub fn start(&mut self, id: usize, path: &Path, matcher_idx: usize, token: Token) -> (r:
        HandlerOutput)
        requires
            old(self).wf(),
            id < old(self).count(),
        ensures
            final(self).wf(),
            final(self).count() == old(self).count(),
            forall|j: int| id < j < old(self).count() ==> final(self).items()[j] == old(
                self,
            ).items()[j],
            old(self).items()[id as int] is Group ==> final(self).items()[id as int] == old(
                self,
            ).items()[id as int],
            !(old(self).items()[id as int] is Group) ==> single_started(old(self).items()[id as int], final(self).items()[id as int], path@, token, r),
            !(old(self).items()[id as int] is Group) ==> forall|j: int|
                0 <= j < old(self).count() && j != id ==> final(self).items()[j] == old(
                    self,
                ).items()[j],
        decreases 2 * id + 1,
    {
        if !self.is_group(id) {
            return self.start_single(id, path, matcher_idx, token);
        }
        let members = self.members_of(id);
        assert(group_members_before(self.items(), id as int));
        self.start_group(members.as_slice(), id, path, matcher_idx, token)
    }

    /// Notifies the members of a group that a match starts.
    ///
    /// Members are started in order; data emitted by a converting member are
    /// fed to the following members (and to the next converting member,
    /// whose output is appended to its own start output).
    pub fn start_group(
        &mut self,
        members: &[usize],
        bound: usize,
        path: &Path,
        matcher_idx: usize,
        token: Token,
    ) -> (r: HandlerOutput)
        requires
            old(self).wf(),
            bound <= old(self).count(),
            forall|j: int| 0 <= j < members@.len() ==> #[trigger] members@[j] < bound,
        ensures
            plain_members(old(self).items(), members@) ==> (r is Ok ==> r == Ok::<Option<Vec<u8>>, error::Handler>(None)),
            members@.len() == 0 ==> r == Ok::<Option<Vec<u8>>, error::Handler>(None) && final(self).items() == old(self).items(),
            r is Err ==> members@.len() > 0,
            final(self).wf(),
            final(self).count() == old(self).count(),
            forall|j: int| bound <= j < old(self).count() ==> final(self).items()[j] == old(
                self,
            ).items()[j],
        decreases 2 * bound,
    {
        let mut result: Option<Vec<u8>> = None;
        let m = members.len();
        for k in 0..m
            invariant
                plain_members(old(self).items(), members@) ==> plain_members(self.items(), members@)
                    && result is None,
                k == 0 ==> result is None && self.items() == old(self).items(),
                self.wf(),
                self.count() == old(self).count(),
                bound <= self.count(),
                m == members@.len(),
                forall|j: int| 0 <= j < m ==> #[trigger] members@[j] < bound,
                forall|j: int| bound <= j < old(self).count() ==> self.items()[j] == old(
                    self,
                ).items()[j],
        {
            let h = members[k];
            if self.is_converter(h) {
                let orig = result.take();
                result = self.start(h, path, matcher_idx, token)?;
                if let Some(orig_data) = orig {
                    let feed_output = self.feed(h, orig_data.as_slice(), matcher_idx)?;
                    if let Some(mut data) = result.take() {
                        if let Some(feed_data) = feed_output {
                            data.extend_from_slice(feed_data.as_slice());
                            result = Some(data);
                        }
                    } else {
                        result = feed_output;
                    }
                }
            } else {
                self.start(h, path, matcher_idx, token)?;
                if let Some(data) = &result {
                    self.feed(h, data.as_slice(), matcher_idx)?;
                }
            }
        }
        Ok(result)
    }

    /// Feeds a handler with a part of matched data (see
    /// [`Handlers::feed_group`] for groups).
    pub fn feed(&mut self, id: usize, data: &[u8], matcher_idx: usize) -> (r: HandlerOutput)
        requires
            old(self).wf(),
            id < old(self).count(),
        ensures
            final(self).wf(),
            final(self).count() == old(self).count(),
            forall|j: int| id < j < old(self).count() ==> final(self).items()[j] == old(
                self,
            ).items()[j],
            old(self).items()[id as int] is Group ==> final(self).items()[id as int] == old(
                self,
            ).items()[id as int],
            !(old(self).items()[id as int] is Group) ==> single_fed(old(self).items()[id as int], final(self).items()[id as int], data@, r),
            !(old(self).items()[id as int] is Group) ==> forall|j: int|
                0 <= j < old(self).count() && j != id ==> final(self).items()[j] == old(
                    self,
                ).items()[j],
        decreases 2 * id + 1,
    {
        if !self.is_group(id) {
            return self.feed_single(id, data, matcher_idx);
        }
        let members = self.members_of(id);
        assert(group_members_before(self.items(), id as int));
        self.feed_group(members.as_slice(), id, data, matcher_idx)
    }

    /// Feeds the members of a group with a part of matched data.
    ///
    /// The data go through the members in order; a converting member
    /// replaces them by its output, and when it has no output the following
    /// members are not fed.
    pub fn feed_group(&mut self, members: &[usize], bound: usize, data: &[u8], matcher_idx: usize) -> (r:
        HandlerOutput)
        requires
            old(self).wf(),
            bound <= old(self).count(),
            forall|j: int| 0 <= j < members@.len() ==> #[trigger] members@[j] < bound,
        ensures
            plain_members(old(self).items(), members@) ==> (r is Ok ==> out_view(r) == Some(Some(data@))),
            members@.len() == 0 ==> out_view(r) == Some(Some(data@)) && final(self).items() == old(self).items(),
            r is Err ==> members@.len() > 0,
            final(self).wf(),
            final(self).count() == old(self).count(),
            forall|j: int| bound <= j < old(self).count() ==> final(self).items()[j] == old(
                self,
            ).items()[j],
        decreases 2 * bound,
    {
        let mut first: Vec<u8> = Vec::new();
        first.extend_from_slice(data);
        let mut result: Option<Vec<u8>> = Some(first);
        let m = members.len();
        for k in 0..m
            invariant
                plain_members(old(self).items(), members@) ==> plain_members(self.items(), members@)
                    && (result matches Some(v) && v@ == data@),
                k == 0 ==> (result matches Some(v) && v@ == data@) && self.items() == old(self).items(),
                self.wf(),
                self.count() == old(self).count(),
                bound <= self.count(),
                m == members@.len(),
                forall|j: int| 0 <= j < m ==> #[trigger] members@[j] < bound,
                forall|j: int| bound <= j < old(self).count() ==> self.items()[j] == old(
                    self,
                ).items()[j],
        {
            let h = members[k];
            match result.take() {
                Some(d) => {
                    if self.is_converter(h) {
                        result = self.feed(h, d.as_slice(), matcher_idx)?;
                    } else {
                        self.feed(h, d.as_slice(), matcher_idx)?;
                        result = Some(d);
                    }
                },
                None => {
                    break;
                },
            }
        }
        Ok(result)
    }

    /// Notifies a handler that a match ends (see [`Handlers::end_group`] for
    /// groups).
    pub fn end(&mut self, id: usize, path: &Path, matcher_idx: usize, token: Token) -> (r:
        HandlerOutput)
        requires
            old(self).wf(),
            id < old(self).count(),
        ensures
            final(self).wf(),
            final(self).count() == old(self).count(),
            forall|j: int| id < j < old(self).count() ==> final(self).items()[j] == old(
                self,
            ).items()[j],
            old(self).items()[id as int] is Group ==> final(self).items()[id as int] == old(
                self,
            ).items()[id as int],
            !(old(self).items()[id as int] is Group) ==> single_ended(old(self).items()[id as int], final(self).items()[id as int], path@, token, r),
            !(old(self).items()[id as int] is Group) ==> forall|j: int|
                0 <= j < old(self).count() && j != id ==> final(self).items()[j] == old(
                    self,
                ).items()[j],
        decreases 2 * id + 1,
    {
        if !self.is_group(id) {
            return self.end_single(id, path, matcher_idx, token);
        }
        let members = self.members_of(id);
        assert(group_members_before(self.items(), id as int));
        self.end_group(members.as_slice(), id, path, matcher_idx, token)
    }

    /// Notifies the members of a group that a match ends.
    ///
    /// Output of converting members is fed to the following members; the
    /// end outputs of converting members are concatenated.
    pub fn end_group(
        &mut self,
        members: &[usize],
        bound: usize,
        path: &Path,
        matcher_idx: usize,
        token: Token,
    ) -> (r: HandlerOutput)
        requires
            old(self).wf(),
            bound <= old(self).count(),
            forall|j: int| 0 <= j < members@.len() ==> #[trigger] members@[j] < bound,
        ensures
            plain_members(old(self).items(), members@) ==> (r is Ok ==> r == Ok::<Option<Vec<u8>>, error::Handler>(None)),
            members@.len() == 0 ==> r == Ok::<Option<Vec<u8>>, error::Handler>(None) && final(self).items() == old(self).items(),
            r is Err ==> members@.len() > 0,
            final(self).wf(),
            final(self).count() == old(self).count(),
            forall|j: int| bound <= j < old(self).count() ==> final(self).items()[j] == old(
                self,
            ).items()[j],
        decreases 2 * bound,
    {
        let mut result: Option<Vec<u8>> = None;
        let m = members.len();
        for k in 0..m
            invariant
                plain_members(old(self).items(), members@) ==> plain_members(self.items(), members@)
                    && result is None,
                k == 0 ==> result is None && self.items() == old(self).items(),
                self.wf(),
                self.count() == old(self).count(),
                bound <= self.count(),
                m == members@.len(),
                forall|j: int| 0 <= j < m ==> #[trigger] members@[j] < bound,
                forall|j: int| bound <= j < old(self).count() ==> self.items()[j] == old(
                    self,
                ).items()[j],
        {
            let h = members[k];
            if self.is_converter(h) {
                if let Some(d) = result.take() {
                    result = self.feed(h, d.as_slice(), matcher_idx)?;
                }
                if let Some(d) = self.end(h, path, matcher_idx, token)? {
                    match result.take() {
                        Some(mut rd) => {
                            rd.extend_from_slice(d.as_slice());
                            result = Some(rd);
                        },
                        None => {
                            result = Some(d);
                        },
                    }
                }
            } else {
                if let Some(d) = &result {
                    self.feed(h, d.as_slice(), matcher_idx)?;
                }
                self.end(h, path, matcher_idx, token)?;
            }
        }
        Ok(result)
    }

    /// Whether the handler is a group.
    fn is_group(&self, id: usize) -> (r: bool)
        requires
            id < self.count(),
        ensures
            r == self.items()[id as int] is Group,
    {
        match &self.items[id] {
            Handler::Group(_) => true,
            _ => false,
        }
    }

    /// Changing a handler in place keeps the registry well-formed when a
    /// group stays the same group.
    proof fn lemma_same_kinds_wf(&self, old_items: Seq<Handler>, id: int)
        requires
            forall|i: int| 0 <= i < old_items.len() ==> group_members_before(old_items, i),
            self.items().len() == old_items.len(),
            forall|i: int| 0 <= i < old_items.len() && i != id ==> self.items()[i] == old_items[i],
            0 <= id < old_items.len(),
            old_items[id] is Group ==> self.items()[id] == old_items[id],
            !(old_items[id] is Group) ==> !(self.items()[id] is Group),
        ensures
            self.wf(),
    {
        assert forall|i: int| 0 <= i < self.count() implies group_members_before(self.items(), i) by {
            assert(group_members_before(old_items, i));
        }
    }
}

} // verus!
