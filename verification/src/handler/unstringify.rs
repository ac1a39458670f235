//! Handler which unstringifies matched data:
//! `"{\"aa\": {\"bb\":2}, \"cc\": \"dd\"}"` -> `{"aa": {"bb":2}, "cc": "dd"}`.

use crate::error;
use crate::path::Path;
use crate::streamer::{ParsedKind, Token};
use vstd::prelude::*;

verus! {

/// State of the unstringification.
#[derive(Debug, Clone, Copy, PartialEq, Eq, Structural)]
pub enum State {
    /// The opening quote was not read yet.
    Initial,
    /// The next byte is escaped.
    Escaping,
    /// Inside of the string.
    Processing,
    /// The closing quote was read.
    Terminated,
}

impl Default for State {
    fn default() -> (r: Self)
        ensures
            r == State::Initial,
    {
        State::Initial
    }
}

/// Prepends emitted bytes to the result of the rest of a feed.
pub open spec fn prepend_out(prefix: Seq<u8>, rest: Option<(State, Seq<u8>)>) -> Option<(State, Seq<u8>)> {
    match rest {
        Some((s, out)) => Some((s, prefix + out)),
        None => None,
    }
}

/// Result of feeding the unstringifier: the new state and the emitted
/// bytes, or `None` when data follow the closing quote.
///
/// The first byte (the opening quote) is skipped, `\` escapes the next byte,
/// the closing quote terminates and the rest of the data is ignored.
pub open spec fn unstringify_feed(state: State, data: Seq<u8>) -> Option<(State, Seq<u8>)>
    decreases data.len(),
{
    if data.len() == 0 {
        Some((state, Seq::empty()))
    } else {
        match state {
            State::Initial => unstringify_feed(State::Processing, data.skip(1)),
            State::Processing => if data[0] == 0x5c {
                unstringify_feed(State::Escaping, data.skip(1))
            } else if data[0] == 0x22 {
                Some((State::Terminated, Seq::empty()))
            } else {
                prepend_out(seq![data[0]], unstringify_feed(State::Processing, data.skip(1)))
            },
            State::Escaping => prepend_out(
                seq![data[0]],
                unstringify_feed(State::Processing, data.skip(1)),
            ),
            State::Terminated => None,
        }
    }
}

/// Handler which unstringifies the matched data.
#[derive(Debug)]
pub struct Unstringify {
    state: State,
}

impl Unstringify {
    /// Current state.
    pub closed spec fn state(&self) -> State {
        self.state
    }

    /// Creates a new handler which unstringifies matched data.
    pub fn new() -> (r: Self)
        ensures
            r.state() == State::Initial,
    {
        Unstringify { state: State::Initial }
    }

    /// Creates the handler from a string definition (which has no parameters).
    pub fn from_str(_input: &str) -> (r: Result<Self, error::Handler>)
        ensures
            r matches Ok(h) && h.state() == State::Initial,
    {
        Ok(Unstringify::new())
    }

    /// A match starts; only strings can be unstringified.
    pub fn start(&mut self, _path: &Path, _matcher_idx: usize, token: Token) -> (r: Result<
        Option<Vec<u8>>,
        error::Handler,
    >)
        ensures
            final(self).state() == State::Initial,
            r is Err <==> !(token matches Token::Start(_, k) && k == ParsedKind::Str),
            r is Ok ==> r == Ok::<Option<Vec<u8>>, error::Handler>(None),
            r matches Err(e) ==> e.reason@ == (if token is Start {
                "Unstringified data is supposed to be a string."@
            } else {
                "Invalid token"@
            }),
    {
        self.state = State::Initial;
        match token {
            Token::Start(_, ParsedKind::Str) => Ok(None),
            Token::Start(_, _) => Err(
                error::Handler::new("Unstringified data is supposed to be a string."),
            ),
            _ => Err(error::Handler::new("Invalid token")),
        }
    }

    /// Emits the unescaped content of the string.
    pub fn feed(&mut self, data: &[u8], _matcher_idx: usize) -> (r: Result<
        Option<Vec<u8>>,
        error::Handler,
    >)
        ensures
            match unstringify_feed(old(self).state(), data@) {
                Some((s, out)) => r matches Ok(Some(v)) && v@ == out && final(self).state() == s,
                None => r matches Err(e) && e.reason@ == "Wrong unstringify format"@,
            },
    {
        let mut result: Vec<u8> = Vec::new();
        let n = data.len();
        let mut i: usize = 0;
        proof {
            assert(data@.skip(0) =~= data@);
            if let Some((st, o)) = unstringify_feed(self.state, data@) {
                assert(result@ + o =~= o);
            }
        }
        while i < n
            invariant
                n == data@.len(),
                i <= n,
                unstringify_feed(old(self).state(), data@) == prepend_out(
                    result@,
                    unstringify_feed(self.state, data@.skip(i as int)),
                ),
            decreases n - i,
        {
            let byte = data[i];
            let ghost rest = data@.skip(i as int);
            assert(rest.skip(1) =~= data@.skip(i + 1));
            assert(rest[0] == byte);
            match self.state {
                State::Initial => {
                    self.state = State::Processing;
                },
                State::Processing => {
                    if byte == 0x5c {
                        self.state = State::Escaping;
                    } else if byte == 0x22 {
                        self.state = State::Terminated;
                        assert(result@ + Seq::<u8>::empty() =~= result@);
                        return Ok(Some(result));
                    } else {
                        let ghost before = result@;
                        result.push(byte);
                        proof {
                            let x = unstringify_feed(State::Processing, data@.skip(i + 1));
                            if let Some((s, o)) = x {
                                assert(before + (seq![byte] + o) =~= result@ + o);
                            }
                        }
                    }
                },
                State::Escaping => {
                    let ghost before = result@;
                    result.push(byte);
                    self.state = State::Processing;
                    proof {
                        let x = unstringify_feed(State::Processing, data@.skip(i + 1));
                        if let Some((s, o)) = x {
                            assert(before + (seq![byte] + o) =~= result@ + o);
                        }
                    }
                },
                State::Terminated => {
                    return Err(error::Handler::new("Wrong unstringify format"));
                },
            }
            i = i + 1;
        }
        assert(data@.skip(n as int).len() == 0);
        assert(result@ + Seq::<u8>::empty() =~= result@);
        Ok(Some(result))
    }

    /// A match ends; the string has to be terminated.
    pub fn end(&mut self, _path: &Path, _matcher_idx: usize, _token: Token) -> (r: Result<
        Option<Vec<u8>>,
        error::Handler,
    >)
        ensures
            final(self).state() == old(self).state(),
            r is Err <==> old(self).state() != State::Terminated,
            r is Ok ==> r == Ok::<Option<Vec<u8>>, error::Handler>(None),
            r matches Err(e) ==> e.reason@ == "String does not ended"@,
    {
        if self.state != State::Terminated {
            return Err(error::Handler::new("String does not ended"));
        }
        Ok(None)
    }
}

} // verus!

verus! {

/// Escapes a byte of a JSON string: quotes and backslashes get a backslash.
pub open spec fn escape_byte(b: u8) -> Seq<u8> {
    if b == 0x22 || b == 0x5c {
        seq![0x5cu8, b]
    } else {
        seq![b]
    }
}

/// Escapes the content of a JSON string.
pub open spec fn escape_string(c: Seq<u8>) -> Seq<u8>
    decreases c.len(),
{
    if c.len() == 0 {
        Seq::empty()
    } else {
        escape_byte(c[0]) + escape_string(c.skip(1))
    }
}

/// Escaped content is read back as the content followed by what comes after it.
proof fn lemma_unstringify_escaped(c: Seq<u8>, tail: Seq<u8>)
    ensures
        unstringify_feed(State::Processing, escape_string(c) + tail) == prepend_out(
            c,
            unstringify_feed(State::Processing, tail),
        ),
    decreases c.len(),
{
    if c.len() == 0 {
        assert(escape_string(c) + tail =~= tail);
        if let Some((st, o)) = unstringify_feed(State::Processing, tail) {
            assert(c + o =~= o);
        }
    } else {
        let b = c[0];
        let rest = c.skip(1);
        lemma_unstringify_escaped(rest, tail);
        assert(escape_string(c) == escape_byte(b) + escape_string(rest));
        let s = escape_string(c) + tail;
        let inner = escape_string(rest) + tail;
        let after = unstringify_feed(State::Processing, inner);
        assert(after == prepend_out(rest, unstringify_feed(State::Processing, tail)));
        if b == 0x22 || b == 0x5c {
            assert(s =~= seq![0x5cu8, b] + inner);
            let s1 = s.skip(1);
            assert(s1 =~= seq![b] + inner);
            assert(s1.skip(1) =~= inner);
            assert(s[0] == 0x5c);
            assert(s1[0] == b);
            assert(unstringify_feed(State::Processing, s) == unstringify_feed(State::Escaping, s1));
            assert(unstringify_feed(State::Escaping, s1) == prepend_out(seq![b], after));
        } else {
            assert(s =~= seq![b] + inner);
            assert(s.skip(1) =~= inner);
            assert(s[0] == b);
            assert(unstringify_feed(State::Processing, s) == prepend_out(seq![b], after));
        }
        if let Some((st, o)) = unstringify_feed(State::Processing, tail) {
            assert(seq![b] + (rest + o) =~= c + o);
        }
    }
}

/// Unstringifying a JSON string gives back its content: feeding the quoted,
/// escaped content emits exactly the content and terminates.
pub proof fn lemma_unstringify_string(c: Seq<u8>)
    ensures
        unstringify_feed(State::Initial, seq![0x22u8] + escape_string(c) + seq![0x22u8]) == Some(
            (State::Terminated, c),
        ),
{
    let s = seq![0x22u8] + escape_string(c) + seq![0x22u8];
    assert(s.skip(1) =~= escape_string(c) + seq![0x22u8]);
    lemma_unstringify_escaped(c, seq![0x22u8]);
    let q = seq![0x22u8];
    assert(q[0] == 0x22);
    assert(unstringify_feed(State::Processing, q) == Some((State::Terminated, Seq::<u8>::empty())));
    assert(c + Seq::<u8>::empty() =~= c);
}

} // verus!
