//! Handler which buffers matched data; the data can be taken out later.

use crate::error;
use crate::path::{decimal, push_decimal, render_path, Path};
use crate::streamer::Token;
use std::collections::VecDeque;
use vstd::prelude::*;

verus! {

/// Abstract state of a [`Buffer`].
#[verifier::ext_equal]
pub struct BufferModel {
    /// Data of the unterminated matches.
    pub buffer: Seq<u8>,
    /// Input index of the first byte of `buffer`.
    pub base: usize,
    /// Offsets into `buffer` where the open matches start.
    pub parts: Seq<usize>,
    /// Stored (path, data) records, oldest first.
    pub results: Seq<(Option<Seq<char>>, Seq<u8>)>,
    /// Whether the path is stored with the data.
    pub use_path: bool,
    /// Accounted size of the stored data.
    pub current: usize,
    /// Limit of the accounted size.
    pub max: Option<usize>,
}

/// View of an optional string.
pub open spec fn opt_str_view(s: Option<String>) -> Option<Seq<char>> {
    match s {
        Some(s) => Some(s@),
        None => None,
    }
}

/// View of a stored record.
pub open spec fn record_view(r: (Option<String>, Vec<u8>)) -> (Option<Seq<char>>, Seq<u8>) {
    (opt_str_view(r.0), r.1@)
}

/// Sum of the lengths of the stored data.
pub open spec fn results_size(results: Seq<(Option<Seq<char>>, Seq<u8>)>) -> nat
    decreases results.len(),
{
    if results.len() == 0 {
        0
    } else {
        results_size(results.drop_last()) + results.last().1.len()
    }
}

/// Saturating conversion of a size to `usize`.
pub open spec fn saturate(n: int) -> usize {
    if n > usize::MAX {
        usize::MAX
    } else {
        n as usize
    }
}

/// Handler which stores split JSONs into memory.
pub struct Buffer {
    buffer: Vec<u8>,
    buffer_idx: usize,
    buffer_parts: Vec<usize>,
    results: VecDeque<(Option<String>, Vec<u8>)>,
    use_path: bool,
    current_buffer_size: usize,
    max_buffer_size: Option<usize>,
}

impl View for Buffer {
    type V = BufferModel;

    closed spec fn view(&self) -> BufferModel {
        BufferModel {
            buffer: self.buffer@,
            base: self.buffer_idx,
            parts: self.buffer_parts@,
            results: self.results@.map_values(|r: (Option<String>, Vec<u8>)| record_view(r)),
            use_path: self.use_path,
            current: self.current_buffer_size,
            max: self.max_buffer_size,
        }
    }
}

/// A model with no data and no open match.
pub open spec fn buffer_empty_model(m: BufferModel) -> bool {
    &&& m.buffer.len() == 0
    &&& m.base == 0
    &&& m.parts.len() == 0
    &&& m.results.len() == 0
    &&& m.current == 0
}

/// Whether a start token is refused by the buffer.
pub open spec fn buffer_start_fails(m: BufferModel, token: Token) -> bool {
    match token {
        Token::Start(idx, _) => m.parts.len() > 0 && idx < m.base,
        _ => true,
    }
}

/// State of the buffer after a match starts.
pub open spec fn buffer_started(m: BufferModel, token: Token) -> BufferModel {
    match token {
        Token::Start(idx, _) => {
            let base = if m.parts.len() == 0 {
                idx
            } else {
                m.base
            };
            BufferModel { base, parts: m.parts.push((idx - base) as usize), ..m }
        },
        _ => m,
    }
}

/// Whether feeding data overflows the size limit.
pub open spec fn buffer_feed_fails(m: BufferModel, data: Seq<u8>) -> bool {
    m.parts.len() > 0 && match m.max {
        Some(limit) => m.current + data.len() > limit,
        None => false,
    }
}

/// State of the buffer after it is fed.
pub open spec fn buffer_fed(m: BufferModel, data: Seq<u8>) -> BufferModel {
    if m.parts.len() > 0 {
        BufferModel { buffer: m.buffer + data, current: saturate(m.current + data.len() as int), ..m }
    } else {
        m
    }
}

/// Whether the end of a match is refused by the buffer.
pub open spec fn buffer_end_fails(m: BufferModel) -> bool {
    m.parts.len() == 0 || m.parts.last() > m.buffer.len()
}

/// State of the buffer after a match ends at the given path.
pub open spec fn buffer_ended(m: BufferModel, path: Seq<crate::path::SpecElement>) -> BufferModel {
    let idx = m.parts.last();
    let parts = m.parts.drop_last();
    let record = (
        if m.use_path {
            Some(render_path(path))
        } else {
            None
        },
        m.buffer.subrange(idx as int, m.buffer.len() as int),
    );
    BufferModel {
        buffer: if parts.len() == 0 {
            Seq::empty()
        } else {
            m.buffer
        },
        parts,
        results: m.results.push(record),
        ..m
    }
}

impl Buffer {
    /// Creates a new handler which stores output within itself.
    pub fn new() -> (r: Self)
        ensures
            buffer_empty_model(r@),
            !r@.use_path,
            r@.max is None,
    {
        Buffer {
            buffer: Vec::new(),
            buffer_idx: 0,
            buffer_parts: Vec::new(),
            results: VecDeque::new(),
            use_path: false,
            current_buffer_size: 0,
            max_buffer_size: None,
        }
    }

    /// Creates the buffer from a string `USE_PATH[,MAX_SIZE]`.
    pub fn from_str(input: &str) -> (r: Result<Self, error::Handler>)
        ensures
            ({
                let parts = crate::text::split_seq(input@, ',');
                if parts.len() == 1 {
                    match crate::cli::parse_bool_spec(parts[0]) {
                        Some(b) => r matches Ok(h) && buffer_empty_model(h@) && h@.use_path == b
                            && h@.max is None,
                        None => r matches Err(e) && e.reason@ == "provided string was not `true` or `false`"@,
                    }
                } else if parts.len() == 2 {
                    match (crate::cli::parse_bool_spec(parts[0]), crate::text::parse_usize_spec(parts[1])) {
                        (Some(b), Some(n)) => r matches Ok(h) && buffer_empty_model(h@) && h@.use_path
                            == b && h@.max == Some(n),
                        (None, _) => r matches Err(e) && e.reason@ == "provided string was not `true` or `false`"@,
                        (Some(_), None) => r matches Err(e) && e.reason@
                            == crate::text::usize_error_text(parts[1]),
                    }
                } else {
                    r matches Err(e) && e.reason@ == "Failed to parse"@
                }
            }),
    {
        let chars = crate::path::collect_chars(input);
        let parts = crate::text::split_chars(chars.as_slice(), ',');
        if parts.len() == 1 {
            match crate::cli::parse_bool_chars(&parts[0]) {
                Some(b) => Ok(Buffer::new().set_use_path(b)),
                None => Err(error::Handler::new("provided string was not `true` or `false`")),
            }
        } else if parts.len() == 2 {
            let b = crate::cli::parse_bool_chars(&parts[0]);
            let n = crate::text::parse_usize(parts[1].as_slice());
            match (b, n) {
                (Some(b), Some(n)) => Ok(Buffer::new().set_use_path(b).set_max_buffer_size(Some(n))),
                (None, _) => Err(error::Handler::new("provided string was not `true` or `false`")),
                (Some(_), None) => Err(
                    error::Handler { reason: crate::text::usize_error_message(parts[1].as_slice()) },
                ),
            }
        } else {
            Err(error::Handler::new("Failed to parse"))
        }
    }

    /// Sets whether the path is stored with the data.
    pub fn set_use_path(self, use_path: bool) -> (r: Self)
        ensures
            r@ == (BufferModel { use_path, ..self@ }),
    {
        Buffer { use_path, ..self }
    }

    /// Sets the maximal size of the buffered data.
    pub fn set_max_buffer_size(self, max_size: Option<usize>) -> (r: Self)
        ensures
            r@ == (BufferModel { max: max_size, ..self@ }),
    {
        Buffer { max_buffer_size: max_size, ..self }
    }

    /// Number of the stored records.
    pub fn len(&self) -> (r: usize)
        ensures
            r == self@.results.len(),
    {
        self.results.len()
    }

    /// Whether no record is stored.
    pub fn is_empty(&self) -> (r: bool)
        ensures
            r == (self@.results.len() == 0),
    {
        self.results.len() == 0
    }

    /// Removes and returns the oldest stored record.
    ///
    /// The accounted size is recomputed from what remains.
    pub fn pop(&mut self) -> (r: Option<(Option<String>, Vec<u8>)>)
        ensures
            match r {
                Some(rec) => {
                    &&& old(self)@.results.len() > 0
                    &&& record_view(rec) == old(self)@.results[0]
                    &&& final(self)@ == (BufferModel {
                        results: old(self)@.results.drop_first(),
                        current: saturate(
                            (results_size(old(self)@.results.drop_first()) + old(self)@.buffer.len()) as int,
                        ),
                        ..old(self)@
                    })
                },
                None => old(self)@.results.len() == 0 && final(self)@ == old(self)@,
            },
    {
        let ghost old_results = self.results@;
        let popped = self.results.pop_front();
        if popped.is_some() {
            let ghost rest = self@.results;
            assert(rest =~= old(self)@.results.drop_first());
            let n = self.results.len();
            let mut total: usize = 0;
            let mut i: usize = 0;
            while i < n
                invariant
                    n == self.results@.len(),
                    i <= n,
                    rest == self.results@.map_values(|r: (Option<String>, Vec<u8>)| record_view(r)),
                    total == saturate(results_size(rest.take(i as int)) as int),
                decreases n - i,
            {
                assert(rest.take(i + 1).drop_last() =~= rest.take(i as int));
                let l = self.results[i].1.len();
                total = total.saturating_add(l);
                i = i + 1;
            }
            assert(rest.take(n as int) =~= rest);
            self.current_buffer_size = total.saturating_add(self.buffer.len());
        }
        popped
    }

    /// Handles the start of a match.
    pub fn start(&mut self, _path: &Path, _matcher_idx: usize, token: Token) -> (r: Result<
        Option<Vec<u8>>,
        error::Handler,
    >)
        ensures
            r is Err <==> buffer_start_fails(old(self)@, token),
            r is Ok ==> r == Ok::<Option<Vec<u8>>, error::Handler>(None) && final(self)@
                == buffer_started(old(self)@, token),
            r is Err ==> final(self)@ == old(self)@,
    {
        match token {
            Token::Start(idx, _) => {
                let base = if self.buffer_parts.len() == 0 {
                    idx
                } else {
                    self.buffer_idx
                };
                if idx < base {
                    return Err(error::Handler::new("Invalid token"));
                }
                self.buffer_idx = base;
                self.buffer_parts.push(idx - base);
                Ok(None)
            },
            _ => Err(error::Handler::new("Invalid token")),
        }
    }

    /// Handles a part of the matched data.
    pub fn feed(&mut self, data: &[u8], _matcher_idx: usize) -> (r: Result<
        Option<Vec<u8>>,
        error::Handler,
    >)
        ensures
            r is Err <==> buffer_feed_fails(old(self)@, data@),
            r is Ok ==> r == Ok::<Option<Vec<u8>>, error::Handler>(None) && final(self)@
                == buffer_fed(old(self)@, data@),
            r is Err ==> final(self)@ == old(self)@,
            r matches Err(e) ==> (old(self)@.max matches Some(limit) && e.reason@ == "Max buffer size "@
                + decimal(limit as nat) + " was reached"@),
    {
        if self.buffer_parts.len() > 0 {
            match self.max_buffer_size {
                Some(limit) => {
                    if data.len() > limit || self.current_buffer_size > limit - data.len() {
                        let mut msg = "Max buffer size ".to_string();
                        push_decimal(&mut msg, limit);
                        msg.append(" was reached");
                        return Err(error::Handler { reason: msg });
                    }
                },
                None => {},
            }
            self.buffer.extend_from_slice(data);
            self.current_buffer_size = self.current_buffer_size.saturating_add(data.len());
        }
        assert(self@ =~= buffer_fed(old(self)@, data@));
        Ok(None)
    }

    /// Handles the end of a match: the data of the match are stored.
    pub fn end(&mut self, path: &Path, _matcher_idx: usize, _token: Token) -> (r: Result<
        Option<Vec<u8>>,
        error::Handler,
    >)
        ensures
            r is Err <==> buffer_end_fails(old(self)@),
            r is Ok ==> r == Ok::<Option<Vec<u8>>, error::Handler>(None) && final(self)@
                == buffer_ended(old(self)@, path@),
            r is Err ==> final(self)@ == old(self)@,
    {
        let n = self.buffer_parts.len();
        if n == 0 {
            return Err(error::Handler::new("Invalid token"));
        }
        let idx = self.buffer_parts[n - 1];
        if idx > self.buffer.len() {
            return Err(error::Handler::new("Invalid token"));
        }
        self.buffer_parts.pop();
        let mut data: Vec<u8> = Vec::new();
        data.extend_from_slice(&self.buffer.as_slice()[idx..self.buffer.len()]);
        assert(data@ =~= old(self)@.buffer.subrange(idx as int, old(self)@.buffer.len() as int));
        let stored_path = if self.use_path {
            Some(path.to_string())
        } else {
            None
        };
        let ghost old_results = self.results@;
        self.results.push_back((stored_path, data));
        proof {
            assert(self.results@.map_values(|r: (Option<String>, Vec<u8>)| record_view(r))
                =~= old_results.map_values(|r: (Option<String>, Vec<u8>)| record_view(r)).push(
                record_view((stored_path, data))));
        }
        if self.buffer_parts.len() == 0 {
            self.buffer.clear();
        }
        proof {
            let e = buffer_ended(old(self)@, path@);
            assert(self.buffer_parts@ =~= old(self)@.parts.drop_last());
            assert(self@.parts =~= e.parts);
            assert(self@.buffer =~= e.buffer);
            assert(record_view((stored_path, data)) == (
                if old(self)@.use_path {
                    Some(render_path(path@))
                } else {
                    None
                },
                old(self)@.buffer.subrange(idx as int, old(self)@.buffer.len() as int),
            ));
            assert(self@.results =~= e.results);
            assert(self@ =~= e);
        }
        Ok(None)
    }
}

} // verus!
