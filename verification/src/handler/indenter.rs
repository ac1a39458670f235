//! Handler which alters the indentation of matched data.

use crate::error;
use crate::path::{Element, Path, SpecElement};
use crate::streamer::{ParsedKind, Token};
use vstd::prelude::*;

verus! {

/// Stack of the processed values: how many children were written and the kind.
pub type IndentStack = Seq<(usize, ParsedKind)>;

/// Spaces which indent a value at the given nesting (the stack length).
pub open spec fn indent(depth: nat, spaces: Option<usize>) -> Seq<u8> {
    let width = match spaces {
        Some(s) => s as nat,
        None => 0nat,
    };
    Seq::new(((depth - 1) * width) as nat, |i: int| 0x20u8)
}

/// Every level of nesting is indented by exactly the requested width: a
/// value at nesting depth `depth` (the open values, itself included) is
/// indented by `(depth - 1) * w` spaces, one level more adds `w` spaces, and
/// without a width nothing is indented.
pub proof fn lemma_indent_width(depth: nat, w: usize)
    requires
        depth >= 1,
    ensures
        indent(depth, Some(w)).len() == (depth - 1) * w,
        forall|i: int|
            0 <= i < indent(depth, Some(w)).len() ==> #[trigger] indent(depth, Some(w))[i] == 0x20u8,
        indent(depth + 1, Some(w)).len() == indent(depth, Some(w)).len() + w,
        indent(depth + 1, Some(w)) == indent(depth, Some(w)) + indent(2, Some(w)),
        indent(2, Some(w)).len() == w,
        indent(depth, None).len() == 0,
{
    assert((depth - 1) * w + w == depth * w) by (nonlinear_arith)
        requires
            depth >= 1,
    ;
    assert((depth - 1) * w >= 0) by (nonlinear_arith)
        requires
            depth >= 1,
    ;
    assert(indent(depth + 1, Some(w)) =~= indent(depth, Some(w)) + indent(2, Some(w)));
}

/// A value started inside an array at nesting depth `n` (the open values
/// around it) is written on a new line, after a comma unless it is the
/// array's first value, indented by `n * w` spaces, then its opening
/// bracket (if any).
pub proof fn lemma_indenter_array_child(
    st: IndentStack,
    w: usize,
    path: Seq<SpecElement>,
    kind: ParsedKind,
)
    requires
        st.len() >= 1,
        st.last().1 == ParsedKind::Arr,
    ensures
        ({
            let out = indenter_start_output(Some(st), Some(w), path, kind);
            &&& out is Some
            &&& out->0 == (if st.last().0 != 0 {
                seq![0x2cu8]
            } else {
                Seq::empty()
            }) + seq![0x0au8] + indent(st.len() + 1, Some(w)) + opening(kind)
            &&& indent(st.len() + 1, Some(w)).len() == st.len() * w
            &&& forall|i: int|
                0 <= i < indent(st.len() + 1, Some(w)).len() ==> #[trigger] indent(
                    st.len() + 1,
                    Some(w),
                )[i] == 0x20u8
        }),
{
    let st2 = started_stack(Some(st), kind);
    assert(st2[st2.len() - 2] == st.last());
    lemma_indent_width((st.len() + 1) as nat, w);
    let sep = separator_before(st2, Some(w));
    assert(sep == (if st.last().0 != 0 {
        seq![0x2cu8]
    } else {
        Seq::empty()
    }) + seq![0x0au8]);
    assert(key_before(st2, path, Some(w)) == Some(Seq::<u8>::empty()));
    let out = indenter_start_output(Some(st), Some(w), path, kind);
    assert(out->0 =~= sep + indent(st2.len(), Some(w)) + Seq::<u8>::empty() + opening(kind));
}

/// Bytes written before a nested value: a comma when it is not the first
/// child and a newline when indenting.
pub open spec fn separator_before(st: IndentStack, spaces: Option<usize>) -> Seq<u8> {
    (if st[st.len() - 2].0 != 0 {
        seq![0x2cu8]
    } else {
        Seq::empty()
    }) + (if spaces is Some {
        seq![0x0au8]
    } else {
        Seq::empty()
    })
}

/// Key written before a value nested in an object (`None` when the path does
/// not end with a key).
pub open spec fn key_before(st: IndentStack, path: Seq<SpecElement>, spaces: Option<usize>) -> Option<
    Seq<u8>,
> {
    if st.len() > 1 && st[st.len() - 2].1 == ParsedKind::Obj {
        if path.len() > 0 && path.last() is Key {
            Some(
                seq![0x22u8] + vstd::utf8::encode_utf8(path.last()->Key_0) + seq![0x22u8, 0x3au8] + (
                if spaces is Some {
                    seq![0x20u8]
                } else {
                    Seq::empty()
                }),
            )
        } else {
            None
        }
    } else {
        Some(Seq::empty())
    }
}

/// Opening bracket of a value.
pub open spec fn opening(kind: ParsedKind) -> Seq<u8> {
    match kind {
        ParsedKind::Arr => seq![0x5bu8],
        ParsedKind::Obj => seq![0x7bu8],
        _ => Seq::empty(),
    }
}

/// Closing bracket of a value.
pub open spec fn closing(kind: ParsedKind) -> Seq<u8> {
    match kind {
        ParsedKind::Arr => seq![0x5du8],
        ParsedKind::Obj => seq![0x7du8],
        _ => Seq::empty(),
    }
}

/// Stack after a value starts.
pub open spec fn started_stack(stack: Option<IndentStack>, kind: ParsedKind) -> IndentStack {
    match stack {
        Some(s) => s.push((0usize, kind)),
        None => seq![(0usize, kind)],
    }
}

/// Output when a value starts (`None`: the key of the value is missing).
pub open spec fn indenter_start_output(
    stack: Option<IndentStack>,
    spaces: Option<usize>,
    path: Seq<SpecElement>,
    kind: ParsedKind,
) -> Option<Seq<u8>> {
    let st = started_stack(stack, kind);
    let sep = if stack is Some && st.len() > 1 {
        separator_before(st, spaces)
    } else {
        Seq::empty()
    };
    match key_before(st, path, spaces) {
        Some(key) => Some(sep + indent(st.len(), spaces) + key + opening(kind)),
        None => None,
    }
}

/// Output when a value ends (the stack has to be non-empty).
pub open spec fn indenter_end_output(st: IndentStack, spaces: Option<usize>, kind: ParsedKind) -> Seq<
    u8,
> {
    let body = if (kind == ParsedKind::Arr || kind == ParsedKind::Obj) && st.last().0 != 0
        && spaces is Some {
        seq![0x0au8] + indent(st.len(), spaces)
    } else {
        Seq::empty()
    };
    let popped = st.drop_last();
    body + closing(kind) + if popped.len() == 0 && spaces is Some {
        seq![0x0au8]
    } else {
        Seq::empty()
    }
}

/// Stack after a value ends (the stack has to be non-empty).
pub open spec fn ended_stack(st: IndentStack, spaces: Option<usize>) -> Option<IndentStack> {
    let popped = st.drop_last();
    if popped.len() == 0 {
        if spaces is Some {
            None
        } else {
            Some(popped)
        }
    } else {
        let (n, k) = popped.last();
        Some(
            popped.update(
                popped.len() - 1,
                (
                    if n == usize::MAX {
                        n
                    } else {
                        (n + 1) as usize
                    },
                    k,
                ),
            ),
        )
    }
}

/// Emits `None` for empty output.
pub open spec fn some_if_not_empty(out: Seq<u8>) -> Option<Seq<u8>> {
    if out.len() == 0 {
        None
    } else {
        Some(out)
    }
}

/// View of an optional output.
pub open spec fn opt_bytes_view(o: Option<Vec<u8>>) -> Option<Seq<u8>> {
    match o {
        Some(v) => Some(v@),
        None => None,
    }
}

/// Handler which alters the indentation of matched data.
#[derive(Debug)]
pub struct Indenter {
    spaces: Option<usize>,
    stack: Option<Vec<(usize, ParsedKind)>>,
}

impl Indenter {
    /// How many spaces indent a nesting level (`None`: no newlines at all).
    pub closed spec fn spaces(&self) -> Option<usize> {
        self.spaces
    }

    /// Values which are being processed.
    pub closed spec fn stack(&self) -> Option<IndentStack> {
        match self.stack {
            Some(s) => Some(s@),
            None => None,
        }
    }

    /// Creates a new handler which alters indentation.
    pub fn new(spaces: Option<usize>) -> (r: Self)
        ensures
            r.spaces() == spaces,
            r.stack() is None,
    {
        Indenter { spaces, stack: None }
    }

    /// Creates the handler from a string: empty for no indentation or the
    /// number of spaces.
    pub fn from_str(input: &str) -> (r: Result<Self, error::Handler>)
        ensures
            input@.len() == 0 ==> (r matches Ok(h) && h.spaces() is None && h.stack() is None),
            input@.len() > 0 ==> match crate::text::parse_usize_spec(input@) {
                Some(n) => r matches Ok(h) && h.spaces() == Some(n) && h.stack() is None,
                None => r matches Err(e) && e.reason@ == crate::text::usize_error_text(input@),
            },
    {
        let chars = crate::path::collect_chars(input);
        if chars.len() == 0 {
            return Ok(Indenter::new(None));
        }
        match crate::text::parse_usize(chars.as_slice()) {
            Some(n) => Ok(Indenter::new(Some(n))),
            None => Err(error::Handler { reason: crate::text::usize_error_message(chars.as_slice()) }),
        }
    }

    fn write_indent(out: &mut Vec<u8>, depth: usize, spaces: Option<usize>)
        requires
            depth >= 1,
        ensures
            final(out)@ == old(out)@ + indent(depth as nat, spaces),
    {
        let width = match spaces {
            Some(s) => s,
            None => 0,
        };
        let ghost start = out@;
        let mut level: usize = 1;
        while level < depth
            invariant
                1 <= level <= depth,
                out@ == start + Seq::new(((level - 1) * width) as nat, |i: int| 0x20u8),
            decreases depth - level,
        {
            let mut j: usize = 0;
            while j < width
                invariant
                    j <= width,
                    1 <= level < depth,
                    out@ == start + Seq::new(((level - 1) * width + j) as nat, |i: int| 0x20u8),
                decreases width - j,
            {
                out.push(0x20);
                proof {
                    assert((level - 1) * width + j >= 0) by (nonlinear_arith)
                        requires
                            level >= 1,
                    ;
                }
                assert(out@ =~= start + Seq::new(
                    ((level - 1) * width + j + 1) as nat,
                    |i: int| 0x20u8,
                ));
                j = j + 1;
            }
            assert((level - 1) * width + width == level * width) by (nonlinear_arith);
            level = level + 1;
        }
        assert(out@ =~= old(out)@ + indent(depth as nat, spaces));
    }

    /// Bytes of the key which precede a value nested in an object.
    fn key_bytes(st: &Vec<(usize, ParsedKind)>, path: &Path, spaces: Option<usize>) -> (r: Option<
        Vec<u8>,
    >)
        requires
            st@.len() >= 1,
        ensures
            opt_bytes_view(r) == key_before(st@, path@, spaces),
    {
        let n = st.len();
        let mut res: Vec<u8> = Vec::new();
        if n > 1 && st[n - 2].1 == ParsedKind::Obj {
            let elements = path.get_path();
            let len = elements.len();
            if len == 0 {
                return None;
            }
            assert(elements@[len - 1]@ == path@.last());
            match &elements[len - 1] {
                Element::Key(key) => {
                    res.push(0x22);
                    res.extend_from_slice(key.as_str().as_bytes());
                    res.push(0x22);
                    res.push(0x3a);
                    if spaces.is_some() {
                        res.push(0x20);
                    }
                },
                _ => {
                    return None;
                },
            }
        }
        assert(res@ =~= key_before(st@, path@, spaces)->0);
        Some(res)
    }

    /// Output when a value starts, for the stack which already holds it.
    fn start_output(
        st: &Vec<(usize, ParsedKind)>,
        had_stack: bool,
        spaces: Option<usize>,
        path: &Path,
        kind: ParsedKind,
    ) -> (r: Option<Vec<u8>>)
        requires
            st@.len() >= 1,
        ensures
            match key_before(st@, path@, spaces) {
                Some(key) => r matches Some(v) && v@ == (if had_stack && st@.len() > 1 {
                    separator_before(st@, spaces)
                } else {
                    Seq::empty()
                }) + indent(st@.len(), spaces) + key + opening(kind),
                None => r is None,
            },
    {
        let n = st.len();
        let mut res: Vec<u8> = Vec::new();
        if had_stack && n > 1 {
            if st[n - 2].0 != 0 {
                res.push(0x2c);
            }
            if spaces.is_some() {
                res.push(0x0a);
            }
        }
        let ghost sep = res@;
        proof {
            if had_stack && n > 1 {
                assert(sep =~= separator_before(st@, spaces));
            } else {
                assert(sep =~= Seq::<u8>::empty());
            }
        }
        Self::write_indent(&mut res, n, spaces);
        let key = match Self::key_bytes(st, path, spaces) {
            Some(k) => k,
            None => {
                return None;
            },
        };
        res.extend_from_slice(key.as_slice());
        match kind {
            ParsedKind::Arr => res.push(0x5b),
            ParsedKind::Obj => res.push(0x7b),
            _ => {},
        }
        assert(res@ =~= sep + indent(n as nat, spaces) + key@ + opening(kind));
        Some(res)
    }

    /// A value starts: separators, indentation, the key and the opening
    /// bracket are emitted.
    pub fn start(&mut self, path: &Path, _matcher_idx: usize, token: Token) -> (r: Result<
        Option<Vec<u8>>,
        error::Handler,
    >)
        ensures
            final(self).spaces() == old(self).spaces(),
            match token {
                Token::Start(_, kind) => match indenter_start_output(
                    old(self).stack(),
                    old(self).spaces(),
                    path@,
                    kind,
                ) {
                    Some(out) => r matches Ok(o) && opt_bytes_view(o) == some_if_not_empty(out)
                        && final(self).stack() == Some(started_stack(old(self).stack(), kind)),
                    None => r is Err,
                },
                _ => r is Err && final(self).stack() == old(self).stack(),
            },
    {
        let kind = match token {
            Token::Start(_, kind) => kind,
            _ => {
                return Err(error::Handler::new("Invalid token"));
            },
        };
        let had_stack = self.stack.is_some();
        let mut st = match self.stack.take() {
            Some(s) => s,
            None => Vec::new(),
        };
        st.push((0, kind));
        assert(st@ == started_stack(old(self).stack(), kind));
        let out = Self::start_output(&st, had_stack, self.spaces, path, kind);
        self.stack = Some(st);
        match out {
            Some(res) => {
                if res.len() == 0 {
                    Ok(None)
                } else {
                    Ok(Some(res))
                }
            },
            None => Err(error::Handler::new("Missing key")),
        }
    }

    /// Data of scalar values are emitted as they are, data within objects and
    /// arrays (whitespace, colons and commas) are dropped.
    pub fn feed(&mut self, data: &[u8], _matcher_idx: usize) -> (r: Result<
        Option<Vec<u8>>,
        error::Handler,
    >)
        ensures
            final(self).spaces() == old(self).spaces(),
            final(self).stack() == old(self).stack(),
            r matches Ok(Some(v)) && v@ == match old(self).stack() {
                Some(st) => if st.len() > 0 && st.last().1 != ParsedKind::Obj && st.last().1
                    != ParsedKind::Arr {
                    data@
                } else {
                    Seq::empty()
                },
                None => Seq::empty(),
            },
    {
        let mut result: Vec<u8> = Vec::new();
        match &self.stack {
            Some(st) => {
                let n = st.len();
                if n > 0 {
                    let kind = st[n - 1].1;
                    if kind != ParsedKind::Obj && kind != ParsedKind::Arr {
                        result.extend_from_slice(data);
                    }
                }
            },
            None => {},
        }
        Ok(Some(result))
    }

    /// A value ends: the closing bracket (on its own line when indenting a
    /// non-empty container) is emitted.
    pub fn end(&mut self, _path: &Path, _matcher_idx: usize, token: Token) -> (r: Result<
        Option<Vec<u8>>,
        error::Handler,
    >)
        ensures
            final(self).spaces() == old(self).spaces(),
            match (token, old(self).stack()) {
                (Token::End(_, kind), Some(st)) => if st.len() > 0 {
                    r matches Ok(o) && opt_bytes_view(o) == some_if_not_empty(
                        indenter_end_output(st, old(self).spaces(), kind),
                    ) && final(self).stack() == ended_stack(st, old(self).spaces())
                } else {
                    r is Err && final(self).stack() == old(self).stack()
                },
                (Token::End(_, _), None) => r == Ok::<Option<Vec<u8>>, error::Handler>(None)
                    && final(self).stack() is None,
                _ => r is Err && final(self).stack() == old(self).stack(),
            },
    {
        let kind = match token {
            Token::End(_, kind) => kind,
            _ => {
                return Err(error::Handler::new("Invalid token"));
            },
        };
        let mut st = match self.stack.take() {
            Some(s) => s,
            None => {
                return Ok(None);
            },
        };
        let n = st.len();
        if n == 0 {
            self.stack = Some(st);
            return Err(error::Handler::new("Invalid token"));
        }
        let ghost st0 = st@;
        let mut res: Vec<u8> = Vec::new();
        if (kind == ParsedKind::Arr || kind == ParsedKind::Obj) && st[n - 1].0 != 0
            && self.spaces.is_some() {
            res.push(0x0a);
            Self::write_indent(&mut res, n, self.spaces);
        }
        match kind {
            ParsedKind::Arr => res.push(0x5d),
            ParsedKind::Obj => res.push(0x7d),
            _ => {},
        }
        st.pop();
        let m = st.len();
        if m > 0 {
            let (c, k) = st[m - 1];
            st.set(m - 1, (c.saturating_add(1), k));
        }
        if m == 0 && self.spaces.is_some() {
            res.push(0x0a);
            self.stack = None;
        } else {
            self.stack = Some(st);
        }
        proof {
            assert(st0.drop_last().len() == m);
            if m > 0 {
                assert(st@ =~= ended_stack(st0, self.spaces)->0);
            } else {
                assert(st@ =~= st0.drop_last());
            }
            assert(res@ =~= indenter_end_output(st0, self.spaces, kind));
        }
        if res.len() == 0 {
            Ok(None)
        } else {
            Ok(Some(res))
        }
    }
}

} // verus!
