//! Handler which prepares matched data for the standard output, one record
//! per match (the program around the library prints the records).

use crate::error;
use crate::path::{render_path, Path, SpecElement};
use crate::streamer::{utf8_to_string, Token};
use std::collections::VecDeque;
use vstd::prelude::*;

verus! {

/// The text printed for a match: optionally its path and `": "`, the data
/// and the separator.
pub open spec fn println_record(use_path: bool, path: Seq<SpecElement>, data: Seq<char>, separator: Seq<char>) -> Seq<char> {
    (if use_path {
        render_path(path) + ": "@
    } else {
        Seq::empty()
    }) + data + separator
}

/// Handler which prepares records for the standard output.
pub struct PrintLn {
    use_path: bool,
    separator: String,
    buffer: Vec<u8>,
    records: VecDeque<String>,
}

impl PrintLn {
    /// Whether the path is printed before the data.
    pub closed spec fn uses_path(&self) -> bool {
        self.use_path
    }

    /// Separator printed after every record.
    pub closed spec fn separator(&self) -> Seq<char> {
        self.separator@
    }

    /// Data of the current match collected so far.
    pub closed spec fn buffered(&self) -> Seq<u8> {
        self.buffer@
    }

    /// Records waiting to be printed, oldest first.
    pub closed spec fn records(&self) -> Seq<Seq<char>> {
        self.records@.map_values(|s: String| s@)
    }

    /// Creates a new handler (no path, records separated by a newline).
    pub fn new() -> (r: Self)
        ensures
            !r.uses_path(),
            r.separator() == "\n"@,
            r.buffered().len() == 0,
            r.records().len() == 0,
    {
        let r = PrintLn {
            use_path: false,
            separator: "\n".to_string(),
            buffer: Vec::new(),
            records: VecDeque::new(),
        };
        assert(r.records() =~= Seq::empty());
        r
    }

    /// Sets whether the path is printed.
    pub fn set_use_path(self, use_path: bool) -> (r: Self)
        ensures
            r.uses_path() == use_path,
            r.separator() == self.separator(),
            r.buffered() == self.buffered(),
            r.records() == self.records(),
    {
        PrintLn { use_path, ..self }
    }

    /// Sets the separator printed after every record.
    pub fn set_separator(self, separator: &str) -> (r: Self)
        ensures
            r.uses_path() == self.uses_path(),
            r.separator() == separator@,
            r.buffered() == self.buffered(),
            r.records() == self.records(),
    {
        PrintLn { separator: separator.to_string(), ..self }
    }

    /// Takes the oldest record which waits to be printed.
    pub fn pop_record(&mut self) -> (r: Option<String>)
        ensures
            final(self).uses_path() == old(self).uses_path(),
            final(self).separator() == old(self).separator(),
            final(self).buffered() == old(self).buffered(),
            match r {
                Some(s) => old(self).records().len() > 0 && s@ == old(self).records()[0]
                    && final(self).records() == old(self).records().drop_first(),
                None => old(self).records().len() == 0 && final(self).records() == old(
                    self,
                ).records(),
            },
    {
        let r = self.records.pop_front();
        assert(r is Some ==> self.records() =~= old(self).records().drop_first());
        r
    }

    /// Nothing happens when a match starts.
    pub fn start(&mut self, _path: &Path, _matcher_idx: usize, _token: Token) -> (r: Result<
        Option<Vec<u8>>,
        error::Handler,
    >)
        ensures
            r == Ok::<Option<Vec<u8>>, error::Handler>(None),
            *final(self) == *old(self),
    {
        Ok(None)
    }

    /// Matched data are collected.
    pub fn feed(&mut self, data: &[u8], _matcher_idx: usize) -> (r: Result<
        Option<Vec<u8>>,
        error::Handler,
    >)
        ensures
            r == Ok::<Option<Vec<u8>>, error::Handler>(None),
            final(self).uses_path() == old(self).uses_path(),
            final(self).separator() == old(self).separator(),
            final(self).buffered() == old(self).buffered() + data@,
            final(self).records() == old(self).records(),
    {
        self.buffer.extend_from_slice(data);
        Ok(None)
    }

    /// The collected data form a record.
    pub fn end(&mut self, path: &Path, _matcher_idx: usize, _token: Token) -> (r: Result<
        Option<Vec<u8>>,
        error::Handler,
    >)
        ensures
            final(self).uses_path() == old(self).uses_path(),
            final(self).separator() == old(self).separator(),
            r is Ok <==> vstd::utf8::valid_utf8(old(self).buffered()),
            r is Ok ==> r == Ok::<Option<Vec<u8>>, error::Handler>(None)
                && final(self).buffered().len() == 0 && final(self).records() == old(
                self,
            ).records().push(
                println_record(
                    old(self).uses_path(),
                    path@,
                    vstd::utf8::decode_utf8(old(self).buffered()),
                    old(self).separator(),
                ),
            ),
            r is Err ==> final(self).buffered() == old(self).buffered() && final(self).records()
                == old(self).records(),
            r matches Err(e) ==> e.reason@ == crate::streamer::utf8_error_text(old(self).buffered()),
    {
        let data = match utf8_to_string(self.buffer.as_slice()) {
            Ok(d) => d,
            Err(m) => {
                return Err(error::Handler { reason: m });
            },
        };
        let mut record = String::new();
        if self.use_path {
            record = path.to_string();
            record.append(": ");
        }
        record.append(data.as_str());
        record.append(self.separator.as_str());
        proof {
            reveal_strlit(": ");
        }
        assert(record@ =~= println_record(
            self.use_path,
            path@,
            vstd::utf8::decode_utf8(old(self).buffered()),
            self.separator@,
        ));
        let ghost old_records = self.records@;
        self.records.push_back(record);
        assert(self.records() =~= old(self).records().push(record@));
        self.buffer.clear();
        Ok(None)
    }
}

} // verus!
