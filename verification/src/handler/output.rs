//! Handler which writes matched data to an output: optionally the path and
//! `": "` when a match starts, the data as they come, and a separator when
//! the match ends. The written bytes are collected here and the program
//! around the library hands them to the real writer (a file, stdout).

use crate::error;
use crate::path::{render_path, Path};
use crate::streamer::Token;
use vstd::prelude::*;

verus! {

/// Handler which writes matched data to an output.
pub struct Output {
    write_path: bool,
    separator: String,
    written: Vec<u8>,
}

impl Output {
    /// Whether the path is written when a match starts.
    pub closed spec fn writes_path(&self) -> bool {
        self.write_path
    }

    /// Separator written when a match ends.
    pub closed spec fn separator(&self) -> Seq<char> {
        self.separator@
    }

    /// Bytes written and not taken yet.
    pub closed spec fn written(&self) -> Seq<u8> {
        self.written@
    }

    /// Creates a new output handler (no path, records separated by a newline).
    pub fn new() -> (r: Self)
        ensures
            !r.writes_path(),
            r.separator() == "\n"@,
            r.written().len() == 0,
    {
        Output { write_path: false, separator: "\n".to_string(), written: Vec::new() }
    }

    /// Sets whether the path is written.
    pub fn set_write_path(self, write_path: bool) -> (r: Self)
        ensures
            r.writes_path() == write_path,
            r.separator() == self.separator(),
            r.written() == self.written(),
    {
        Output { write_path, ..self }
    }

    /// Sets the separator written after every record.
    pub fn set_separator(self, separator: &str) -> (r: Self)
        ensures
            r.writes_path() == self.writes_path(),
            r.separator() == separator@,
            r.written() == self.written(),
    {
        Output { separator: separator.to_string(), ..self }
    }

    /// Bytes written and not taken yet.
    pub fn written_data(&self) -> (r: &[u8])
        ensures
            r@ == self.written(),
    {
        self.written.as_slice()
    }

    /// Takes the bytes written so far.
    pub fn take_written(&mut self) -> (r: Vec<u8>)
        ensures
            r@ == old(self).written(),
            final(self).written().len() == 0,
            final(self).writes_path() == old(self).writes_path(),
            final(self).separator() == old(self).separator(),
    {
        let mut out: Vec<u8> = Vec::new();
        std::mem::swap(&mut out, &mut self.written);
        out
    }

    /// A match starts: the path is written when requested.
    pub fn start(&mut self, path: &Path, _matcher_idx: usize, _token: Token) -> (r: Result<
        Option<Vec<u8>>,
        error::Handler,
    >)
        ensures
            r == Ok::<Option<Vec<u8>>, error::Handler>(None),
            final(self).writes_path() == old(self).writes_path(),
            final(self).separator() == old(self).separator(),
            final(self).written() == old(self).written() + if old(self).writes_path() {
                vstd::utf8::encode_utf8(render_path(path@) + ": "@)
            } else {
                Seq::empty()
            },
    {
        if self.write_path {
            let mut text = path.to_string();
            text.append(": ");
            self.written.extend_from_slice(text.as_str().as_bytes());
            proof {
                reveal_strlit(": ");
            }
        } else {
            assert(self.written@ =~= old(self).written() + Seq::<u8>::empty());
        }
        Ok(None)
    }

    /// Matched data are written.
    pub fn feed(&mut self, data: &[u8], _matcher_idx: usize) -> (r: Result<
        Option<Vec<u8>>,
        error::Handler,
    >)
        ensures
            r == Ok::<Option<Vec<u8>>, error::Handler>(None),
            final(self).writes_path() == old(self).writes_path(),
            final(self).separator() == old(self).separator(),
            final(self).written() == old(self).written() + data@,
    {
        self.written.extend_from_slice(data);
        Ok(None)
    }

    /// A match ends: the separator is written.
    pub fn end(&mut self, _path: &Path, _matcher_idx: usize, _token: Token) -> (r: Result<
        Option<Vec<u8>>,
        error::Handler,
    >)
        ensures
            r == Ok::<Option<Vec<u8>>, error::Handler>(None),
            final(self).writes_path() == old(self).writes_path(),
            final(self).separator() == old(self).separator(),
            final(self).written() == old(self).written() + vstd::utf8::encode_utf8(
                old(self).separator(),
            ),
    {
        self.written.extend_from_slice(self.separator.as_str().as_bytes());
        Ok(None)
    }
}

} // verus!
