//! Handler which stores the tokens (indexes) where matched data start and end.
//! The data of a match lie within the `<start_idx, end_idx)` range.

use crate::error;
use crate::handler::buffer::opt_str_view;
use crate::path::{render_path, Path, SpecElement};
use crate::streamer::Token;
use std::collections::VecDeque;
use vstd::prelude::*;

verus! {

/// View of a stored index record.
pub open spec fn index_record_view(r: (Option<String>, Token)) -> (Option<Seq<char>>, Token) {
    (opt_str_view(r.0), r.1)
}

/// The record which is stored for a token at the given path.
pub open spec fn index_record(use_path: bool, path: Seq<SpecElement>, token: Token) -> (
    Option<Seq<char>>,
    Token,
) {
    (
        if use_path {
            Some(render_path(path))
        } else {
            None
        },
        token,
    )
}

/// Indexer handler responsible for storing index of the matches.
#[derive(Debug)]
pub struct Indexer {
    stored: VecDeque<(Option<String>, Token)>,
    use_path: bool,
}

impl Indexer {
    /// Stored records, oldest first.
    pub closed spec fn stored(&self) -> Seq<(Option<Seq<char>>, Token)> {
        self.stored@.map_values(|r: (Option<String>, Token)| index_record_view(r))
    }

    /// Whether the path is stored with the token.
    pub closed spec fn uses_path(&self) -> bool {
        self.use_path
    }

    /// Creates a new handler which stores indexes within itself.
    pub fn new() -> (r: Self)
        ensures
            r.stored().len() == 0,
            !r.uses_path(),
    {
        let r = Indexer { stored: VecDeque::new(), use_path: false };
        assert(r.stored() =~= Seq::empty());
        r
    }

    /// Sets whether the path is stored with the token.
    pub fn set_use_path(self, use_path: bool) -> (r: Self)
        ensures
            r.stored() == self.stored(),
            r.uses_path() == use_path,
    {
        Indexer { use_path, ..self }
    }

    /// Removes and returns the oldest stored record.
    pub fn pop(&mut self) -> (r: Option<(Option<String>, Token)>)
        ensures
            final(self).uses_path() == old(self).uses_path(),
            match r {
                Some(rec) => {
                    &&& old(self).stored().len() > 0
                    &&& index_record_view(rec) == old(self).stored()[0]
                    &&& final(self).stored() == old(self).stored().drop_first()
                },
                None => old(self).stored().len() == 0 && final(self).stored() == old(self).stored(),
            },
    {
        let r = self.stored.pop_front();
        assert(self.stored() =~= old(self).stored().drop_first() || r is None);
        r
    }

    fn store(&mut self, path: &Path, token: Token)
        ensures
            final(self).uses_path() == old(self).uses_path(),
            final(self).stored() == old(self).stored().push(
                index_record(old(self).uses_path(), path@, token),
            ),
    {
        let stored_path = if self.use_path {
            Some(path.to_string())
        } else {
            None
        };
        self.stored.push_back((stored_path, token));
        assert(self.stored() =~= old(self).stored().push(
            index_record(old(self).uses_path(), path@, token),
        ));
    }

    /// Handles the start of a match: the token is stored.
    pub fn start(&mut self, path: &Path, _matcher_idx: usize, token: Token) -> (r: Result<
        Option<Vec<u8>>,
        error::Handler,
    >)
        ensures
            r == Ok::<Option<Vec<u8>>, error::Handler>(None),
            final(self).uses_path() == old(self).uses_path(),
            final(self).stored() == old(self).stored().push(
                index_record(old(self).uses_path(), path@, token),
            ),
    {
        self.store(path, token);
        Ok(None)
    }

    /// Handles the end of a match: the token is stored.
    pub fn end(&mut self, path: &Path, _matcher_idx: usize, token: Token) -> (r: Result<
        Option<Vec<u8>>,
        error::Handler,
    >)
        ensures
            r == Ok::<Option<Vec<u8>>, error::Handler>(None),
            final(self).uses_path() == old(self).uses_path(),
            final(self).stored() == old(self).stored().push(
                index_record(old(self).uses_path(), path@, token),
            ),
    {
        self.store(path, token);
        Ok(None)
    }
}

} // verus!
