//! Handler which replaces matched data by fixed data, e.g. to hide
//! sensitive data: `"secret_password"` -> `"***"`.

use crate::error;
use crate::path::Path;
use crate::streamer::Token;
use vstd::prelude::*;

verus! {

/// Replace handler which converts matched data to fixed output.
#[derive(Debug)]
pub struct Replace {
    new_data: Vec<u8>,
}

impl Replace {
    /// Data which are returned instead of the matched data.
    pub closed spec fn data(&self) -> Seq<u8> {
        self.new_data@
    }

    /// Creates a new handler which replaces matched data by fixed output.
    pub fn new(new_data: Vec<u8>) -> (r: Self)
        ensures
            r.data() == new_data@,
    {
        Replace { new_data }
    }

    /// Creates the handler from a string definition (its bytes are the new data).
    pub fn from_str(input: &str) -> (r: Result<Self, error::Handler>)
        ensures
            r matches Ok(h) && h.data() == vstd::utf8::encode_utf8(input@),
    {
        let mut new_data: Vec<u8> = Vec::new();
        new_data.extend_from_slice(input.as_bytes());
        Ok(Replace { new_data })
    }

    /// Nothing is emitted when a match starts.
    pub fn start(&mut self, _path: &Path, _matcher_idx: usize, _token: Token) -> (r: Result<
        Option<Vec<u8>>,
        error::Handler,
    >)
        ensures
            r == Ok::<Option<Vec<u8>>, error::Handler>(None),
            final(self).data() == old(self).data(),
    {
        Ok(None)
    }

    /// The matched data are consumed.
    pub fn feed(&mut self, _data: &[u8], _matcher_idx: usize) -> (r: Result<
        Option<Vec<u8>>,
        error::Handler,
    >)
        ensures
            r == Ok::<Option<Vec<u8>>, error::Handler>(None),
            final(self).data() == old(self).data(),
    {
        Ok(None)
    }

    /// The replacement is emitted when a match ends.
    pub fn end(&mut self, _path: &Path, _matcher_idx: usize, _token: Token) -> (r: Result<
        Option<Vec<u8>>,
        error::Handler,
    >)
        ensures
            r matches Ok(Some(d)) && d@ == old(self).data(),
            final(self).data() == old(self).data(),
    {
        let mut out: Vec<u8> = Vec::new();
        out.extend_from_slice(self.new_data.as_slice());
        Ok(Some(out))
    }
}

} // verus!
