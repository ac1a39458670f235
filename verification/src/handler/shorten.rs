//! Handler which shortens matched data, e.g. long strings:
//! `"some long text"` -> `"some lon.."`.

use crate::error;
use crate::path::Path;
use crate::streamer::Token;
use vstd::prelude::*;

verus! {

/// What feeding the shortener gives: the new number of used bytes, whether
/// the data were cut, and the output. Once the data do not fit any more,
/// the first `max_length + 1` bytes are kept, the terminator is appended and
/// nothing more is emitted for the match.
pub open spec fn shorten_feed(
    max_length: usize,
    used: usize,
    cut: bool,
    data: Seq<u8>,
    terminator: Seq<u8>,
) -> (usize, bool, Option<Seq<u8>>) {
    if cut || used > max_length {
        (used, cut, None)
    } else if data.len() <= max_length - used {
        ((used + data.len()) as usize, false, Some(data))
    } else {
        (max_length, true, Some(data.take(max_length - used + 1) + terminator))
    }
}

/// The bytes emitted for an output of [`shorten_feed`] (none for `None`).
pub open spec fn emitted(o: Option<Seq<u8>>) -> Seq<u8> {
    match o {
        Some(v) => v,
        None => Seq::empty(),
    }
}

/// Feeding matched data in two parts emits what feeding them at once emits,
/// and leaves the shortener in the same state.
pub proof fn lemma_shorten_split(
    max_length: usize,
    used: usize,
    cut: bool,
    a: Seq<u8>,
    b: Seq<u8>,
    terminator: Seq<u8>,
)
    ensures
        ({
            let (u1, c1, o1) = shorten_feed(max_length, used, cut, a, terminator);
            let (u2, c2, o2) = shorten_feed(max_length, u1, c1, b, terminator);
            let (u3, c3, o3) = shorten_feed(max_length, used, cut, a + b, terminator);
            u2 == u3 && c2 == c3 && emitted(o1) + emitted(o2) == emitted(o3)
        }),
{
    let (u1, c1, o1) = shorten_feed(max_length, used, cut, a, terminator);
    let (u2, c2, o2) = shorten_feed(max_length, u1, c1, b, terminator);
    let (u3, c3, o3) = shorten_feed(max_length, used, cut, a + b, terminator);
    if cut || used > max_length {
        assert(emitted(o1) + emitted(o2) =~= emitted(o3));
    } else if a.len() <= max_length - used {
        if b.len() <= max_length - u1 {
            assert(emitted(o1) + emitted(o2) =~= emitted(o3));
        } else {
            assert((a + b).take(max_length - used + 1) =~= a + b.take(max_length - u1 + 1));
            assert(emitted(o1) + emitted(o2) =~= emitted(o3));
        }
    } else {
        assert((a + b).take(max_length - used + 1) =~= a.take(max_length - used + 1));
        assert(emitted(o1) + emitted(o2) =~= emitted(o3));
    }
}

/// Handler which shortens the matched data.
///
/// At most `max_length + 1` bytes of the matched data are kept (the last one
/// is usually the closing quote of a string which is overwritten by the
/// terminator) and the terminator is appended.
#[derive(Debug)]
pub struct Shorten {
    max_length: usize,
    used: usize,
    cut: bool,
    terminator: String,
}

impl Shorten {
    /// Maximal length of the kept data.
    pub closed spec fn max_length(&self) -> usize {
        self.max_length
    }

    /// Number of bytes of the current match which were already emitted.
    pub closed spec fn used(&self) -> usize {
        self.used
    }

    /// Whether the data of the current match were already cut.
    pub closed spec fn cut(&self) -> bool {
        self.cut
    }

    /// Bytes appended when the data are shortened.
    pub closed spec fn terminator(&self) -> Seq<u8> {
        vstd::utf8::encode_utf8(self.terminator@)
    }

    /// Creates a new handler which shortens matched data.
    pub fn new(max_length: usize, terminator: String) -> (r: Self)
        ensures
            r.max_length() == max_length,
            r.used() == 0,
            !r.cut(),
            r.terminator() == vstd::utf8::encode_utf8(terminator@),
    {
        Shorten { max_length, used: 0, cut: false, terminator }
    }

    /// Creates the handler from a string `MAX_LENGTH[,TERMINATOR]`.
    pub fn from_str(input: &str) -> (r: Result<Self, error::Handler>)
        ensures
            ({
                let (len, term) = crate::cli::split_first(input@, ',');
                match crate::text::parse_usize_spec(len) {
                    Some(n) => r matches Ok(h) && h.max_length() == n && h.used() == 0
                        && !h.cut() && h.terminator() == vstd::utf8::encode_utf8(
                        match term {
                            Some(t) => t,
                            None => Seq::empty(),
                        },
                    ),
                    None => r matches Err(e) && e.reason@ == crate::text::usize_error_text(len),
                }
            }),
    {
        let chars = crate::path::collect_chars(input);
        let (len, term) = crate::cli::split_first_exec(&chars, ',');
        match crate::text::parse_usize(len.as_slice()) {
            Some(n) => {
                let terminator = match &term {
                    Some(t) => crate::path::chars_to_string(t, 0, t.len()),
                    None => String::new(),
                };
                proof {
                    if let Some(t) = &term {
                        assert(t@.subrange(0, t@.len() as int) =~= t@);
                    }
                }
                Ok(Shorten::new(n, terminator))
            },
            None => Err(error::Handler { reason: crate::text::usize_error_message(len.as_slice()) }),
        }
    }

    /// A new match starts: nothing was used yet.
    pub fn start(&mut self, _path: &Path, _matcher_idx: usize, _token: Token) -> (r: Result<
        Option<Vec<u8>>,
        error::Handler,
    >)
        ensures
            r == Ok::<Option<Vec<u8>>, error::Handler>(None),
            final(self).used() == 0,
            !final(self).cut(),
            final(self).max_length() == old(self).max_length(),
            final(self).terminator() == old(self).terminator(),
    {
        self.used = 0;
        self.cut = false;
        Ok(None)
    }

    /// Emits the part of the data which still fits.
    pub fn feed(&mut self, data: &[u8], _matcher_idx: usize) -> (r: Result<
        Option<Vec<u8>>,
        error::Handler,
    >)
        ensures
            final(self).max_length() == old(self).max_length(),
            final(self).terminator() == old(self).terminator(),
            ({
                let (used, cut, out) = shorten_feed(
                    old(self).max_length(),
                    old(self).used(),
                    old(self).cut(),
                    data@,
                    old(self).terminator(),
                );
                &&& final(self).used() == used
                &&& final(self).cut() == cut
                &&& r matches Ok(o) && match out {
                    Some(d) => o matches Some(v) && v@ == d,
                    None => o is None,
                }
            }),
    {
        if self.cut || self.used > self.max_length {
            return Ok(None);
        }
        let room = self.max_length - self.used;
        if data.len() <= room {
            self.used = self.used + data.len();
            let mut out: Vec<u8> = Vec::new();
            out.extend_from_slice(data);
            return Ok(Some(out));
        }
        let mut out: Vec<u8> = Vec::new();
        out.extend_from_slice(&data[0..room + 1]);
        out.extend_from_slice(self.terminator.as_str().as_bytes());
        self.used = self.max_length;
        self.cut = true;
        assert(out@ =~= data@.take(room + 1) + self.terminator());
        Ok(Some(out))
    }

    /// Nothing is emitted when a match ends.
    pub fn end(&mut self, _path: &Path, _matcher_idx: usize, _token: Token) -> (r: Result<
        Option<Vec<u8>>,
        error::Handler,
    >)
        ensures
            r == Ok::<Option<Vec<u8>>, error::Handler>(None),
            final(self).used() == old(self).used(),
            final(self).cut() == old(self).cut(),
            final(self).max_length() == old(self).max_length(),
            final(self).terminator() == old(self).terminator(),
    {
        Ok(None)
    }
}

} // verus!
