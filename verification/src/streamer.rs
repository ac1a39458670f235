//! Streams significant points of a JSON document from input data.

use crate::error;
use crate::path::{Element, Path, SpecElement};
use vstd::prelude::*;

verus! {

/// Kind of a parsed value.
#[derive(Clone, Copy, Debug, PartialEq, Eq, Structural)]
pub enum ParsedKind {
    /// Object e.g. {}
    Obj,
    /// Array e.g. []
    Arr,
    /// String e.g. ""
    Str,
    /// Number e.g. 0
    Num,
    /// Null e.g. null
    Null,
    /// Boolean e.g. false
    Bool,
}

impl ParsedKind {
    /// Name of the kind.
    pub fn as_ref(&self) -> (r: &'static str)
        ensures
            r@ == kind_name(*self),
    {
        match self {
            ParsedKind::Obj => "object",
            ParsedKind::Arr => "array",
            ParsedKind::Str => "string",
            ParsedKind::Num => "number",
            ParsedKind::Bool => "boolean",
            ParsedKind::Null => "null",
        }
    }
}

/// Name of a kind.
pub open spec fn kind_name(kind: ParsedKind) -> Seq<char> {
    match kind {
        ParsedKind::Obj => "object"@,
        ParsedKind::Arr => "array"@,
        ParsedKind::Str => "string"@,
        ParsedKind::Num => "number"@,
        ParsedKind::Bool => "boolean"@,
        ParsedKind::Null => "null"@,
    }
}

/// Significant point of the input.
#[derive(Clone, Copy, Debug, PartialEq, Eq, Structural)]
pub enum Token {
    /// A value starts here (index of its first byte).
    Start(usize, ParsedKind),
    /// A value ends here (index just after its last byte).
    End(usize, ParsedKind),
    /// Index of `,` separating array or object elements.
    Separator(usize),
    /// More input data are needed.
    Pending,
}

impl Token {
    /// Whether the token marks the end of a value.
    pub fn is_end(&self) -> (r: bool)
        ensures
            r == (*self is End),
    {
        match self {
            Token::End(_, _) => true,
            _ => false,
        }
    }
}

/// Whether a byte is an ASCII whitespace.
pub open spec fn is_whitespace(b: u8) -> bool {
    b == 0x20 || b == 0x09 || b == 0x0a || b == 0x0c || b == 0x0d
}

/// Whether a value can start with the byte (or an empty array or object
/// can end with it): a string, a digit, `true`, `false`, `null`, `[`, `{`,
/// `]` or `}`.
pub open spec fn value_byte(b: u8) -> bool {
    b == 0x22 || (0x30 <= b && b <= 0x39) || b == 0x74 || b == 0x66 || b == 0x6e || b == 0x5b
        || b == 0x7b || b == 0x5d || b == 0x7d
}

/// Whether the byte at the cursor is neither whitespace nor the first byte
/// of a value.
pub open spec fn bad_value_at(input: Seq<u8>, c: int) -> bool {
    0 <= c < input.len() && !is_whitespace(input[c]) && !value_byte(input[c])
}

/// Position of the first byte at or after `c` which is no whitespace (the
/// length of the input when there is none).
pub open spec fn skip_ws(input: Seq<u8>, c: int) -> int
    decreases input.len() - c,
{
    if c < 0 || c >= input.len() {
        input.len() as int
    } else if is_whitespace(input[c]) {
        skip_ws(input, c + 1)
    } else {
        c
    }
}

/// The position of the byte which the state on the top of the stack
/// looks at: whitespace is skipped first when a whitespace removal is on
/// the top.
pub open spec fn awaited_pos(s: Seq<States>, input: Seq<u8>, c: int) -> int {
    if s.len() > 0 && s.last() is RemoveWhitespaces {
        skip_ws(input, c)
    } else {
        c
    }
}

/// The state below an optional whitespace removal on the top.
pub open spec fn awaiting(s: Seq<States>) -> Option<States> {
    if s.len() > 0 && s.last() is RemoveWhitespaces {
        if s.len() >= 2 {
            Some(s[s.len() - 2])
        } else {
            None
        }
    } else if s.len() > 0 {
        Some(s.last())
    } else {
        None
    }
}

/// Whether the byte lets the streamer go on in the awaiting state `x`: a
/// value byte where a value is awaited at the top level or in an array (`}`
/// ends only an object), `,` or the closing bracket after a value in an
/// array or an object.
pub open spec fn accepted_in(x: States, b: u8) -> bool {
    match x {
        States::Value(None) => value_byte(b),
        States::Value(Some(Element::Index(_))) => value_byte(b) && b != 0x7d,
        States::Array(_) => b == 0x2c || b == 0x5d,
        States::Object => b == 0x2c || b == 0x7d,
        _ => false,
    }
}

/// Whether reading goes on without an error from this stack: a string,
/// number, boolean or null is being read; or a value is awaited at the top
/// level or in an array, or a separator or the end after a value in an
/// array or an object, and the byte looked at (if any) is accepted there.
pub open spec fn proceeds_from(s: Seq<States>, input: Seq<u8>, c: int) -> bool {
    let p = awaited_pos(s, input, c);
    ||| s.len() > 0 && is_leaf(s.last())
    ||| s.len() == 0 && (skip_ws(input, c) >= input.len() || value_byte(input[skip_ws(input, c)]))
    ||| awaiting(s) matches Some(x) && (x is Value || x is Array || x is Object) && (p >= input.len()
        || accepted_in(x, input[p]))
}

/// A state popped from a stack from which reading proceeds is handled
/// without an error.
proof fn lemma_proceeds_popped(popped: Seq<States>, state: States, input: Seq<u8>, c: int)
    requires
        can_push(popped, state),
        proceeds_from(popped.push(state), input, c),
    ensures
        is_leaf(state) || state is RemoveWhitespaces || (state is Value && (c >= input.len()
            || value_byte(input[c]))) || (state is Array && (c >= input.len() || input[c] == 0x2c
            || input[c] == 0x5d)) || (state is Object && (c >= input.len() || input[c] == 0x2c
            || input[c] == 0x7d)),
{
    let s = popped.push(state);
    assert(s.last() == state);
}

/// Reading still proceeds after a state was handled without a token.
proof fn lemma_proceeds_next(
    popped: Seq<States>,
    state: States,
    after: Seq<States>,
    input: Seq<u8>,
    c0: int,
    c1: int,
)
    requires
        can_push(popped, state),
        proceeds_from(popped.push(state), input, c0),
        is_leaf(state) ==> after.len() > 0 && is_leaf(after.last()),
        state is RemoveWhitespaces ==> after == popped && c1 == skip_ws(input, c0) && c1
            < input.len(),
        state is Value ==> after == popped && c1 == c0 && closes_at(input, c0) && popped.len() > 0,
        !(state is Array || state is Object),
    ensures
        proceeds_from(after, input, c1),
{
    let s = popped.push(state);
    assert(s.last() == state);
    if state is RemoveWhitespaces {
        if popped.len() > 0 {
            assert(s[s.len() - 2] == popped.last());
        }
    } else if state is Value {
        match state {
            States::Value(Some(Element::Index(j))) => {
                assert(popped[popped.len() - 2] == States::Array(j));
                assert(!is_whitespace(input[c0]));
                assert(skip_ws(input, c0) == c0);
            },
            _ => {},
        }
    }
}

/// The error which reports the byte at the cursor.
pub open spec fn incorrect_at(input: Seq<u8>, c: int) -> error::General {
    error::General::IncorrectInput(error::IncorrectInput { byte: input[c], idx: c as usize })
}

/// Whether a byte is an ASCII digit.
pub open spec fn is_digit_byte(b: u8) -> bool {
    0x30 <= b <= 0x39
}

/// Whether a byte is an ASCII letter.
pub open spec fn is_alpha_byte(b: u8) -> bool {
    (0x41 <= b <= 0x5a) || (0x61 <= b <= 0x7a)
}

/// Whether a byte can continue a number.
pub open spec fn is_number_byte(b: u8) -> bool {
    is_digit_byte(b) || b == 0x2e
}

fn whitespace(b: u8) -> (r: bool)
    ensures
        r == is_whitespace(b),
{
    b == 0x20 || b == 0x09 || b == 0x0a || b == 0x0c || b == 0x0d
}

fn alpha(b: u8) -> (r: bool)
    ensures
        r == is_alpha_byte(b),
{
    (0x41 <= b && b <= 0x5a) || (0x61 <= b && b <= 0x7a)
}

/// The byte which starts a value of the given kind.
pub open spec fn starts_kind(b: u8, kind: ParsedKind) -> bool {
    match kind {
        ParsedKind::Str => b == 0x22,
        ParsedKind::Arr => b == 0x5b,
        ParsedKind::Obj => b == 0x7b,
        ParsedKind::Num => is_digit_byte(b),
        ParsedKind::Bool => b == 0x74 || b == 0x66,
        ParsedKind::Null => b == 0x6e,
    }
}

/// How many bytes of a value are consumed when its start is reported.
pub open spec fn start_width(kind: ParsedKind) -> nat {
    match kind {
        ParsedKind::Str | ParsedKind::Arr | ParsedKind::Obj => 1,
        _ => 0,
    }
}

/// Which byte terminates a value of the given kind at `idx`.
///
/// Strings, arrays and objects end just after their closing byte,
/// numbers, booleans and nulls end at the first byte which can not
/// continue them.
pub open spec fn ends_kind(input: Seq<u8>, idx: int, kind: ParsedKind) -> bool {
    match kind {
        ParsedKind::Str => 1 <= idx <= input.len() && input[idx - 1] == 0x22,
        ParsedKind::Arr => 1 <= idx <= input.len() && input[idx - 1] == 0x5d,
        ParsedKind::Obj => 1 <= idx <= input.len() && input[idx - 1] == 0x7d,
        ParsedKind::Num => 0 <= idx < input.len() && !is_number_byte(input[idx]),
        ParsedKind::Bool | ParsedKind::Null => 0 <= idx < input.len() && !is_alpha_byte(
            input[idx],
        ),
    }
}

/// The text of the error which `std::str::from_utf8` reports for bytes
/// which are not UTF-8.
pub uninterp spec fn utf8_error_text(bytes: Seq<u8>) -> Seq<char>;

/// Utf-8 decoding of bytes with `std::str::from_utf8`: the decoded text, or
/// the text of the error when the bytes are not UTF-8.
#[verifier::external_body]
pub(crate) fn utf8_to_string(bytes: &[u8]) -> (r: Result<String, String>)
    ensures
        r is Ok <==> vstd::utf8::valid_utf8(bytes@),
        r matches Ok(s) ==> s@ == vstd::utf8::decode_utf8(bytes@),
        r matches Err(m) ==> m@ == utf8_error_text(bytes@),
{
    match std::str::from_utf8(bytes) {
        Ok(s) => Ok(s.to_string()),
        Err(e) => Err(e.to_string()),
    }
}

/// Key parsing states.
#[derive(Debug, Clone, Copy, PartialEq, Eq, Structural)]
pub enum StringState {
    Normal,
    Escaped,
}

/// Object key parsing states.
#[derive(Debug, Clone, Copy, PartialEq, Eq, Structural)]
pub enum ObjectKeyState {
    Init,
    Parse(StringState),
}

/// JSON processing states.
#[derive(Debug)]
pub enum States {
    Value(Option<Element>),
    Str(StringState),
    Number,
    Bool,
    Null,
    Array(usize),
    Object,
    ObjectKey(ObjectKeyState),
    Colon,
    RemoveWhitespaces,
}

/// States which never lie at the bottom of the state stack.
pub open spec fn inner_only(s: States) -> bool {
    s is RemoveWhitespaces || s is ObjectKey || s is Colon
}

/// Whether the state is a key being parsed.
pub open spec fn is_key_parse(s: States) -> bool {
    s matches States::ObjectKey(ObjectKeyState::Parse(_))
}

/// Whether the state is an array or an object.
pub open spec fn is_container(s: States) -> bool {
    s is Array || s is Object
}

/// States of values which started and did not end yet.
pub open spec fn is_open(s: States) -> bool {
    s is Str || s is Number || s is Bool || s is Null || s is Array || s is Object
}

/// Number of started values on a state stack.
pub open spec fn open_count(s: Seq<States>) -> nat
    decreases s.len(),
{
    if s.len() == 0 {
        0
    } else {
        open_count(s.drop_last()) + if is_open(s.last()) {
            1nat
        } else {
            0nat
        }
    }
}

/// Whether the state `x` may lie on the stack `s`: a value without a key or
/// an index (the root value) lies at the bottom, the other values and states
/// (but whitespace removal) lie inside a started value.
pub open spec fn can_push(s: Seq<States>, x: States) -> bool {
    &&& x matches States::Value(None) ==> s.len() == 0
    &&& s.len() == 0 ==> !(x matches States::Value(Some(_)))
    &&& s.len() > 0 && !(x is RemoveWhitespaces) ==> open_count(s) >= 1
    &&& x is RemoveWhitespaces && s.len() > 0 ==> !(s.last() is RemoveWhitespaces)
    &&& x is Colon ==> s.len() >= 2 && s[s.len() - 2] is Value
    &&& s.len() > 0 ==> !is_leaf(s.last())
    &&& x is ObjectKey ==> s.len() >= 2 && s.last() is RemoveWhitespaces && s[s.len() - 2] is Object
    &&& x matches States::Value(Some(e)) ==> s.len() >= 2 && s.last() is RemoveWhitespaces
        && child_of(s[s.len() - 2], e)
}

/// Whether the element is the one of a value inside the container: an
/// array holds its current index, an object gives keys.
pub open spec fn child_of(container: States, e: Element) -> bool {
    match container {
        States::Array(j) => e == Element::Index(j),
        States::Object => e is Key,
        _ => false,
    }
}

/// States of a string, a number, a boolean or a null: nothing lies above
/// them on the stack.
pub open spec fn is_leaf(s: States) -> bool {
    s is Str || s is Number || s is Bool || s is Null
}

/// The state on the top of the stack, below a whitespace removal.
pub open spec fn nearest(s: Seq<States>) -> Option<States> {
    if s.len() == 0 {
        None
    } else if s.last() is RemoveWhitespaces {
        if s.len() >= 2 {
            Some(s[s.len() - 2])
        } else {
            None
        }
    } else {
        Some(s.last())
    }
}

/// Bound on the tokens which can be reported before the cursor moves: none
/// while a string, an array or an object is read or a number, boolean or
/// null was just started, one while a value is awaited, two once the first
/// byte of a number, boolean or null was read.
pub open spec fn potential(s: Seq<States>, pending_idx: usize) -> int {
    match nearest(s) {
        None => 1,
        Some(x) => state_potential(x, pending_idx),
    }
}

/// [`potential`] when the state `x` is the nearest one.
pub open spec fn state_potential(x: States, pending_idx: usize) -> int {
    if is_scalar(x) {
        if pending_idx == 0 {
            0
        } else {
            2
        }
    } else if x is Str || is_container(x) {
        0
    } else {
        1
    }
}

/// [`potential`] is never negative.
pub proof fn lemma_potential_nonneg(s: Seq<States>, pending_idx: usize)
    ensures
        potential(s, pending_idx) >= 0,
{
}

/// Kind of the value of a number, boolean or null state.
pub open spec fn scalar_kind(s: States) -> ParsedKind {
    match s {
        States::Number => ParsedKind::Num,
        States::Bool => ParsedKind::Bool,
        _ => ParsedKind::Null,
    }
}

/// Whether the state is a number, a boolean or a null.
pub open spec fn is_scalar(s: States) -> bool {
    s is Number || s is Bool || s is Null
}

/// A number, boolean or null whose first byte was not processed yet starts
/// at the cursor.
pub open spec fn scalar_fresh_ok(s: States, input: Seq<u8>, cursor: int, pending_idx: usize) -> bool {
    is_scalar(s) && pending_idx == 0 ==> 0 <= cursor < input.len() && starts_kind(
        input[cursor],
        scalar_kind(s),
    )
}

/// Whether an array or an object is on the top of the stack (possibly below
/// a whitespace removal): the next byte may separate its elements.
pub open spec fn near_container(s: Seq<States>) -> bool {
    s.len() > 0 && (is_container(s.last()) || (s.last() is RemoveWhitespaces && s.len() >= 2
        && is_container(s[s.len() - 2])))
}

/// Whether the last start or end reported is an end, after the token `t`
/// was reported (`b` before it).
pub open spec fn next_after_end(b: bool, t: Token) -> bool {
    match t {
        Token::Start(_, _) => false,
        Token::End(_, _) => true,
        _ => b,
    }
}

/// What a state adds to the open containers: the current index of an
/// array, `None` for an object, nothing for other states.
pub open spec fn container_entry(x: States) -> Seq<Option<usize>> {
    match x {
        States::Array(i) => seq![Some(i)],
        States::Object => seq![None],
        _ => Seq::empty(),
    }
}

/// The open arrays and objects of a state stack, outermost first: for an
/// array the index its next value gets, `None` for an object.
#[verifier::opaque]
pub open spec fn stack_containers(s: Seq<States>) -> Seq<Option<usize>>
    decreases s.len(),
{
    if s.len() == 0 {
        Seq::empty()
    } else {
        stack_containers(s.drop_last()) + container_entry(s.last())
    }
}

/// How a token changes the open containers: a started array begins with
/// index 0, a separator inside an array moves to the next index, and an
/// ended array or object is closed.
pub open spec fn containers_after(c: Seq<Option<usize>>, t: Token) -> Seq<Option<usize>> {
    match t {
        Token::Start(_, ParsedKind::Arr) => c.push(Some(0usize)),
        Token::Start(_, ParsedKind::Obj) => c.push(None),
        Token::End(_, ParsedKind::Arr) => c.drop_last(),
        Token::End(_, ParsedKind::Obj) => c.drop_last(),
        Token::Separator(_) => if c.len() > 0 {
            match c.last() {
                Some(i) => c.drop_last().push(Some((i + 1) as usize)),
                None => c,
            }
        } else {
            c
        },
        _ => c,
    }
}

/// Whether the element is the one which a value started inside the
/// container gets: the array's index, or a key inside an object.
pub open spec fn element_in(container: Option<usize>, e: SpecElement) -> bool {
    match container {
        Some(i) => e == SpecElement::Index(i),
        None => e is Key,
    }
}

/// The containers after a state is pushed.
pub proof fn lemma_containers_push(s: Seq<States>, x: States)
    ensures
        stack_containers(s.push(x)) == stack_containers(s) + container_entry(x),
{
    reveal(stack_containers);
    assert(s.push(x).drop_last() =~= s);
}

/// A value awaited on a stack belongs to its innermost container.
pub proof fn lemma_child_container(s: Seq<States>, e: Element)
    requires
        can_push(s, States::Value(Some(e))),
    ensures
        stack_containers(s).len() > 0,
        element_in(stack_containers(s).last(), e@),
{
    let t = s.drop_last();
    assert(t.push(s.last()) =~= s);
    lemma_containers_push(t, s.last());
    assert(t.drop_last().push(t.last()) =~= t);
    lemma_containers_push(t.drop_last(), t.last());
    assert(t.last() == s[s.len() - 2]);
}

/// Number of started values after a state is pushed.
pub proof fn lemma_open_count_push(s: Seq<States>, x: States)
    ensures
        open_count(s.push(x)) == open_count(s) + if is_open(x) {
            1nat
        } else {
            0nat
        },
{
    assert(s.push(x).drop_last() =~= s);
}

/// Pushing a whitespace removal on a stack whose top is no whitespace
/// removal does not change whether a container is near the top.
pub proof fn lemma_near_push_rw(s: Seq<States>)
    requires
        s.len() > 0 ==> !(s.last() is RemoveWhitespaces),
    ensures
        near_container(s.push(States::RemoveWhitespaces)) == near_container(s),
{
    let t = s.push(States::RemoveWhitespaces);
    if s.len() > 0 {
        assert(t[t.len() - 2] == s.last());
    }
}

/// `n`, or 1 when `n` is 0.
pub open spec fn max_one(n: nat) -> nat {
    if n == 0 {
        1
    } else {
        n
    }
}

/// The first `c` prefixes of `path` which hold at least one element.
pub open spec fn open_paths_of(path: Seq<SpecElement>, c: nat) -> Seq<Seq<SpecElement>> {
    Seq::new(c, |k: int| path.take(k + 1))
}

/// How a token changes the number of started values.
pub open spec fn token_delta(t: Token) -> int {
    match t {
        Token::Start(_, _) => 1,
        Token::End(_, _) => -1,
        _ => 0,
    }
}

/// How the open paths change with a token, from how the path and the number
/// of started values change.
pub proof fn lemma_open_paths(
    left: Seq<SpecElement>,
    c_old: nat,
    p: Seq<SpecElement>,
    after: Seq<SpecElement>,
    c_new: nat,
    t: Token,
)
    requires
        left.len() == max_one(c_old),
        path_moved(left, p, after, t),
        c_new == c_old + token_delta(t),
        t is Start ==> p.len() == c_old + 1,
    ensures
        after.len() == max_one(c_new),
        t is Start ==> open_paths_of(after, c_new) == open_paths_of(left, c_old).push(p),
        t is End ==> c_old > 0 && p == open_paths_of(left, c_old).last() && open_paths_of(
            after,
            c_new,
        ) == open_paths_of(left, c_old).drop_last(),
        !(t is Start) && !(t is End) ==> open_paths_of(after, c_new) == open_paths_of(left, c_old),
{
    match t {
        Token::Start(_, _) => {
            assert(p.len() > 0 ==> p.take(p.len() - 1) == p.drop_last());
            assert forall|k: int| 0 <= k < c_old implies #[trigger] p.take(k + 1) == left.take(
                k + 1,
            ) by {
                if p.drop_last() == left {
                    assert(p.take(k + 1) =~= left.take(k + 1));
                }
            }
            assert(p.take(c_old + 1int) =~= p);
            assert(open_paths_of(after, c_new) =~= open_paths_of(left, c_old).push(p));
        },
        Token::End(_, _) => {
            assert(left.take(c_old as int) =~= left);
            assert forall|k: int| 0 <= k < c_new implies #[trigger] after.take(k + 1) == left.take(
                k + 1,
            ) by {
                assert(after.take(k + 1) =~= left.take(k + 1));
            }
            assert(open_paths_of(after, c_new) =~= open_paths_of(left, c_old).drop_last());
        },
        _ => {
            assert(open_paths_of(after, c_new) =~= open_paths_of(left, c_old));
        },
    }
}

/// Reads parts of a UTF-8 JSON input and emits tokens.
pub struct Streamer {
    /// Path stack
    path: Path,
    /// Parsing states stack
    states: Vec<States>,
    /// Pending buffer
    pending: Vec<u8>,
    /// Cursor within the pending buffer
    pending_idx: usize,
    /// Total index of the first byte of the pending buffer
    total_idx: usize,
    /// Whether to pop the path in the next read
    pop_path: bool,
    /// All data fed so far
    input: Ghost<Seq<u8>>,
    /// Whether the last start or end of a value which was reported is an end
    after_end: Ghost<bool>,
}

impl Streamer {
    /// All bytes fed to the streamer so far.
    pub closed spec fn input(&self) -> Seq<u8> {
        self.input@
    }

    /// Index (in the whole input) of the first unprocessed byte.
    pub closed spec fn cursor(&self) -> int {
        self.total_idx + self.pending_idx
    }

    /// The current path.
    pub closed spec fn path_view(&self) -> Seq<SpecElement> {
        self.path@
    }

    /// The open arrays and objects, outermost first: for an array the index
    /// which the next value started in it gets, `None` for an object.
    pub closed spec fn open_containers(&self) -> Seq<Option<usize>> {
        stack_containers(self.states@)
    }

    /// A new value is awaited at the top level (nothing of it was read yet).
    pub closed spec fn awaits_root(&self) -> bool {
        self.states@ == seq![States::Value(None), States::RemoveWhitespaces]
    }

    /// Reading goes on without an error: a string, number, boolean or null is
    /// being read, or the next byte which is no whitespace (if any) is one
    /// which the streamer accepts where it stands (see [`proceeds_from`]).
    pub closed spec fn proceeds(&self) -> bool {
        proceeds_from(self.states@, self.input@, self.cursor())
    }

    /// A streamer which awaits a top level value proceeds when the next byte
    /// which is no whitespace (if any) can start a value.
    pub proof fn lemma_awaits_root_proceeds(&self)
        requires
            self.awaits_root(),
            skip_ws(self.input(), self.cursor()) >= self.input().len() || value_byte(
                self.input()[skip_ws(self.input(), self.cursor())],
            ),
        ensures
            self.proceeds(),
    {
    }

    /// A streamer which awaits a value is not stalled.
    pub proof fn lemma_awaits_not_stalled(&self)
        requires
            self.awaits_root(),
        ensures
            !self.stalled(),
    {
    }

    /// The path once the value which ended last is left: its element is
    /// removed from the path when the next token is read.
    pub closed spec fn path_after_leave(&self) -> Seq<SpecElement> {
        if self.pop_path && self.path@.len() > 1 {
            self.path@.drop_last()
        } else {
            self.path@
        }
    }

    /// Invariants which hold while the state stack is processed.
    pub closed spec fn inv_core(&self) -> bool {
        &&& self.input@.len() <= usize::MAX
        &&& self.total_idx + self.pending@.len() == self.input@.len()
        &&& self.pending@ == self.input@.subrange(self.total_idx as int, self.input@.len() as int)
        &&& self.pending_idx <= self.pending@.len()
        &&& self.path@.len() >= 1
        &&& forall|k: int|
            0 <= k < self.states@.len() && (#[trigger] self.states@[k]) is Array
                ==> self.states@[k]->Array_0 <= self.cursor()
        &&& forall|k: int|
            0 <= k < self.states@.len() - 1 && is_container(#[trigger] self.states@[k])
                ==> self.states@[k + 1] is RemoveWhitespaces
        &&& forall|k: int| 0 <= k < self.states@.len() - 1 ==> !is_key_parse(#[trigger] self.states@[k])
        &&& self.states@.len() > 0 ==> !inner_only(self.states@[0])
        &&& forall|k: int|
            0 <= k < self.states@.len() ==> can_push(self.states@.take(k), #[trigger] self.states@[k])
    }

    /// Invariants about the state on the top of the stack.
    pub closed spec fn top_inv(&self) -> bool {
        self.states@.len() > 0 ==> {
            let top = self.states@.last();
            &&& is_key_parse(top) ==> self.pending_idx >= 1 && self.pending@[0] == 0x22
            &&& is_container(top) ==> self.pending_idx == 0
            &&& scalar_fresh_ok(top, self.input@, self.cursor(), self.pending_idx)
        }
    }

    /// Whether the last start or end of a value which was reported is an end.
    pub closed spec fn after_end(&self) -> bool {
        self.after_end@
    }

    /// Decreases with every token but the end of the data: twice the number
    /// of bytes left and the [`potential`] of the state.
    pub closed spec fn progress(&self) -> int {
        2 * (self.input@.len() - self.cursor()) + potential(self.states@, self.pending_idx)
    }

    /// [`Streamer::progress`] before the state `s` was popped.
    closed spec fn pre_progress(&self, s: States) -> int {
        2 * (self.input@.len() - self.cursor()) + potential(self.states@.push(s), self.pending_idx)
    }

    /// Invariants of the parsing state.
    pub closed spec fn wf_core(&self) -> bool {
        self.inv_core() && self.top_inv()
    }

    /// The path (once the value which ended last is left) holds the root
    /// and one element for each started value but the root value.
    pub closed spec fn depth_ok(&self) -> bool {
        self.path_after_leave().len() == max_one(open_count(self.states@))
    }

    /// Elements of an array or an object can be separated only after a
    /// value ended (or the container ends at the cursor).
    pub closed spec fn sep_ok(&self) -> bool {
        near_container(self.states@) ==> self.after_end@ || closes_at(self.input@, self.cursor())
    }

    /// `sep_ok` before the state `s` was popped.
    pub closed spec fn sep_pre(&self, s: States) -> bool {
        near_container(self.states@.push(s)) ==> self.after_end@ || closes_at(
            self.input@,
            self.cursor(),
        )
    }

    /// Well-formedness of the streamer.
    pub closed spec fn wf(&self) -> bool {
        self.wf_core() && self.depth_ok() && self.sep_ok()
    }

    /// Paths of the values which started and did not end yet, the outermost
    /// first.
    pub closed spec fn open_paths(&self) -> Seq<Seq<SpecElement>> {
        open_paths_of(self.path_after_leave(), open_count(self.states@))
    }

    /// The streamer is stuck before a closing bracket which closes nothing;
    /// it only reports that more data are needed from now on.
    pub closed spec fn stalled(&self) -> bool {
        self.states@.len() == 0 && closes_at(self.input@, self.cursor())
    }

    /// The cursor never passes the end of the input.
    pub proof fn lemma_cursor_bound(&self)
        requires
            self.wf(),
        ensures
            self.cursor() <= self.input().len(),
            self.progress() >= 0,
    {
        lemma_potential_nonneg(self.states@, self.pending_idx);
    }

    /// Facts about a state which was just popped from the stack.
    pub closed spec fn popped_ok(&self, s: States) -> bool {
        &&& is_key_parse(s) ==> self.pending_idx >= 1 && self.pending@[0] == 0x22
        &&& is_container(s) ==> self.pending_idx == 0
        &&& s is Array ==> s->Array_0 <= self.cursor()
        &&& self.states@.len() == 0 ==> !inner_only(s)
        &&& self.states@.len() > 0 && is_container(self.states@.last()) ==> s is RemoveWhitespaces
        &&& self.states@.len() > 0 && is_key_parse(self.states@.last()) ==> false
        &&& can_push(self.states@, s)
        &&& scalar_fresh_ok(s, self.input@, self.cursor(), self.pending_idx)
    }

    /// Creates a new streamer.
    pub fn new() -> (r: Self)
        ensures
            r.awaits_root(),
            r.wf(),
            r.input() == Seq::<u8>::empty(),
            r.cursor() == 0,
            r.path_view() == seq![SpecElement::Root],
            r.path_after_leave() == r.path_view(),
            r.open_containers() == Seq::<Option<usize>>::empty(),
    {
        let mut path = Path::new();
        path.push(Element::Root);
        let mut states: Vec<States> = Vec::new();
        states.push(States::Value(None));
        states.push(States::RemoveWhitespaces);
        let r = Streamer {
            path,
            states,
            pending: Vec::new(),
            pending_idx: 0,
            total_idx: 0,
            pop_path: false,
            input: Ghost(Seq::empty()),
            after_end: Ghost(false),
        };
        assert(r.pending@ =~= r.input@.subrange(0, 0));
        assert(r.states@.take(0) =~= Seq::<States>::empty());
        assert(r.states@.take(1) =~= seq![States::Value(None)]);
        proof {
            reveal_with_fuel(stack_containers, 3);
            assert(r.states@.drop_last() =~= seq![States::Value(None)]);
            assert(r.states@.drop_last().drop_last() =~= Seq::<States>::empty());
            assert(stack_containers(r.states@) =~= Seq::<Option<usize>>::empty());
            assert(r.states@ =~= seq![States::Value(None), States::RemoveWhitespaces]);
        }
        assert(r.states@.take(1).drop_last() =~= Seq::<States>::empty());
        assert(open_count(r.states@) == 0) by {
            let st = r.states@;
            assert(st.drop_last() =~= seq![States::Value(None)]);
            assert(st.drop_last().drop_last() =~= Seq::<States>::empty());
            assert(open_count(st.drop_last().drop_last()) == 0);
            assert(open_count(st.drop_last()) == 0);
            assert(st.last() is RemoveWhitespaces);
        }
        r
    }

    /// Returns the current path.
    pub fn current_path(&self) -> (r: &Path)
        ensures
            r@ == self.path_view(),
    {
        &self.path
    }

    /// Feeds the streamer with data.
    pub fn feed(&mut self, input: &[u8])
        requires
            old(self).wf(),
            old(self).input().len() + input@.len() <= usize::MAX,
        ensures
            final(self).awaits_root() == old(self).awaits_root(),
            final(self).open_containers() == old(self).open_containers(),
            final(self).after_end() == old(self).after_end(),
            final(self).wf(),
            final(self).input() == old(self).input() + input@,
            final(self).cursor() == old(self).cursor(),
            final(self).path_view() == old(self).path_view(),
            final(self).path_after_leave() == old(self).path_after_leave(),
            final(self).open_paths() == old(self).open_paths(),
            final(self).progress() == old(self).progress() + 2 * input@.len(),
            old(self).stalled() ==> final(self).stalled(),
    {
        self.pending.extend_from_slice(input);
        proof {
            self.input@ = self.input@ + input@;
            assert(self.pending@ =~= self.input@.subrange(
                self.total_idx as int,
                self.input@.len() as int,
            ));
            assert forall|k: int| 0 <= k < self.states@.len() - 1 implies !is_key_parse(
                #[trigger] self.states@[k],
            ) by {}
        }
        assert(self.pending@[0] == old(self).pending@[0] || old(self).pending@.len() == 0);
    }

    /// Returns currently processed byte (None when more data are needed).
    fn peek(&self) -> (r: Option<u8>)
        requires
            self.inv_core(),
        ensures
            r is None <==> self.cursor() == self.input().len(),
            r matches Some(b) ==> self.cursor() < self.input().len() && b == self.input()[self.cursor()],
    {
        if self.pending.len() > self.pending_idx {
            Some(self.pending[self.pending_idx])
        } else {
            None
        }
    }

    /// Moves the cursor one byte forward.
    fn forward(&mut self)
        requires
            old(self).inv_core(),
            old(self).cursor() < old(self).input().len(),
        ensures
            final(self).after_end == old(self).after_end,
            final(self).inv_core(),
            final(self).cursor() == old(self).cursor() + 1,
            final(self).pending_idx == old(self).pending_idx + 1,
            final(self).total_idx == old(self).total_idx,
            final(self).pending@ == old(self).pending@,
            final(self).input() == old(self).input(),
            final(self).states@ == old(self).states@,
            final(self).path@ == old(self).path@,
            final(self).pop_path == old(self).pop_path,
    {
        self.pending_idx = self.pending_idx + 1;
        assert forall|k: int| 0 <= k < self.states@.len() - 1 implies !is_key_parse(
            #[trigger] self.states@[k],
        ) by {
            assert(old(self).states@[k] == self.states@[k]);
        }
    }

    /// Drops the processed part of the pending buffer.
    fn advance(&mut self)
        requires
            old(self).inv_core(),
        ensures
            final(self).after_end == old(self).after_end,
            final(self).inv_core(),
            final(self).cursor() == old(self).cursor(),
            final(self).pending_idx == 0,
            final(self).total_idx == old(self).cursor(),
            final(self).input() == old(self).input(),
            final(self).states@ == old(self).states@,
            final(self).path@ == old(self).path@,
            final(self).pop_path == old(self).pop_path,
    {
        let n = self.pending_idx;
        if n > 0 {
            let tail = self.pending.split_off(n);
            self.pending = tail;
            self.total_idx = self.total_idx + n;
            self.pending_idx = 0;
            assert(self.pending@ =~= self.input@.subrange(
                self.total_idx as int,
                self.input@.len() as int,
            ));
        }
    }

    /// Drops the processed part of the pending buffer and returns it.
    fn advance_take(&mut self) -> (r: Vec<u8>)
        requires
            old(self).inv_core(),
        ensures
            final(self).after_end == old(self).after_end,
            final(self).inv_core(),
            final(self).cursor() == old(self).cursor(),
            final(self).pending_idx == 0,
            final(self).total_idx == old(self).cursor(),
            final(self).input() == old(self).input(),
            final(self).states@ == old(self).states@,
            final(self).path@ == old(self).path@,
            final(self).pop_path == old(self).pop_path,
            r@ == old(self).pending@.subrange(0, old(self).pending_idx as int),
    {
        let n = self.pending_idx;
        let mut tail = self.pending.split_off(n);
        std::mem::swap(&mut self.pending, &mut tail);
        self.total_idx = self.total_idx + n;
        self.pending_idx = 0;
        assert(self.pending@ =~= self.input@.subrange(
            self.total_idx as int,
            self.input@.len() as int,
        ));
        tail
    }
}


/// Whether a closing bracket lies at the given position.
pub open spec fn closes_at(input: Seq<u8>, idx: int) -> bool {
    0 <= idx < input.len() && (input[idx] == 0x5d || input[idx] == 0x7d)
}

/// Relation between a token, the input and the cursor before and after it was read.
pub open spec fn token_ok(input: Seq<u8>, before: int, after: int, token: Token) -> bool {
    match token {
        Token::Start(i, kind) => before <= i < input.len() && starts_kind(input[i as int], kind)
            && after == i + start_width(kind),
        Token::End(i, kind) => before <= i && i == after && ends_kind(input, i as int, kind),
        Token::Separator(i) => before <= i < input.len() && input[i as int] == 0x2c && after == i
            + 1,
        Token::Pending => after == input.len(),
    }
}

/// Relation between an error, the input and the cursor before reading.
pub open spec fn error_ok(input: Seq<u8>, before: int, err: error::General) -> bool {
    match err {
        error::General::IncorrectInput(e) => before <= e.idx < input.len() && input[e.idx as int]
            == e.byte,
        error::General::Utf8Error(e) => e.idx < input.len() && input[e.idx as int] == 0x22,
        _ => false,
    }
}

impl Streamer {
    /// Measure which decreases while the state stack is processed.
    closed spec fn measure(&self) -> int {
        4 * (self.input@.len() - self.cursor()) + self.states@.len() + if self.states@.len() == 0 {
            3int
        } else {
            0int
        }
    }

    /// Pushes a state on the stack keeping its invariants.
    #[verifier::rlimit(100)]
    #[verifier::spinoff_prover]
    fn push_state(&mut self, s: States)
        requires
            old(self).inv_core(),
            s is Array ==> s->Array_0 <= old(self).cursor(),
            old(self).states@.len() > 0 && is_container(old(self).states@.last())
                ==> s is RemoveWhitespaces,
            old(self).states@.len() > 0 ==> !is_key_parse(old(self).states@.last()),
            old(self).states@.len() == 0 ==> !inner_only(s),
            can_push(old(self).states@, s),
        ensures
            final(self).after_end == old(self).after_end,
            final(self).inv_core(),
            final(self).states@ == old(self).states@.push(s),
            stack_containers(final(self).states@) == match s {
                States::Array(i) => stack_containers(old(self).states@).push(Some(i)),
                States::Object => stack_containers(old(self).states@).push(None),
                _ => stack_containers(old(self).states@),
            },
            open_count(final(self).states@) == open_count(old(self).states@) + if is_open(s) {
                1nat
            } else {
                0nat
            },
            final(self).pending@ == old(self).pending@,
            final(self).pending_idx == old(self).pending_idx,
            final(self).total_idx == old(self).total_idx,
            final(self).input() == old(self).input(),
            final(self).path@ == old(self).path@,
            final(self).pop_path == old(self).pop_path,
    {
        self.states.push(s);
        proof {
            let st = self.states@;
            let o = old(self).states@;
            assert forall|k: int| 0 <= k < st.len() && (#[trigger] st[k]) is Array implies st[k]->Array_0
                <= self.cursor() by {
                if k < o.len() {
                    assert(st[k] == o[k]);
                }
            }
            assert forall|k: int| 0 <= k < st.len() - 1 && is_container(#[trigger] st[k]) implies st[k
                + 1] is RemoveWhitespaces by {
                assert(st[k] == o[k]);
            }
            assert forall|k: int| 0 <= k < st.len() - 1 implies !is_key_parse(#[trigger] st[k]) by {
                assert(st[k] == o[k]);
            }
            if o.len() > 0 {
                assert(st[0] == o[0]);
            }
            assert forall|k: int| 0 <= k < st.len() implies can_push(st.take(k), #[trigger] st[k]) by {
                if k < o.len() {
                    assert(st[k] == o[k]);
                    assert(st.take(k) =~= o.take(k));
                } else {
                    assert(st.take(k) =~= o);
                }
            }
            assert(st.drop_last() =~= o);
            lemma_containers_push(o, s);
            assert(stack_containers(o) + container_entry(s) =~= match s {
                States::Array(i) => stack_containers(o).push(Some(i)),
                States::Object => stack_containers(o).push(None),
                _ => stack_containers(o),
            });
        }
    }

    /// Moves cursor forward while characters are whitespace.
    #[verifier::rlimit(100)]
    #[verifier::spinoff_prover]
    fn process_remove_whitespace(&mut self) -> (r: Option<Token>)
        requires
            old(self).sep_pre(States::RemoveWhitespaces),
            old(self).inv_core(),
            old(self).popped_ok(States::RemoveWhitespaces),
        ensures
            r is None ==> final(self).cursor() == skip_ws(old(self).input(), old(self).cursor()),
            r is Some ==> skip_ws(old(self).input(), old(self).cursor()) >= old(self).input().len(),
            stack_containers(final(self).states@) == stack_containers(old(self).states@),
            r is None ==> final(self).progress() <= old(self).pre_progress(States::RemoveWhitespaces),
            final(self).sep_ok(),
            final(self).after_end == old(self).after_end,
            open_count(final(self).states@) == open_count(old(self).states@),
            final(self).wf_core(),
            final(self).input() == old(self).input(),
            final(self).path@ == old(self).path@,
            final(self).pop_path == old(self).pop_path,
            old(self).cursor() <= final(self).cursor(),
            final(self).cursor() > old(self).cursor() ==> is_whitespace(
                old(self).input()[old(self).cursor()],
            ),
            final(self).states@.len() > 0,
            match r {
                Some(t) => t is Pending && final(self).cursor() == final(self).input().len(),
                None => final(self).states@ == old(self).states@ && final(self).pending_idx == 0
                    && final(self).cursor() < final(self).input().len() && final(self).measure()
                    < 4 * (old(self).input().len() - old(self).cursor()) + old(self).states@.len() + 1,
            },
    {
        proof {
            lemma_near_push_rw(self.states@);
        }
        loop
            invariant
                skip_ws(self.input(), self.cursor()) == skip_ws(old(self).input(), old(self).cursor()),
                self.after_end == old(self).after_end,
                self.inv_core(),
                self.popped_ok(States::RemoveWhitespaces),
                self.states@ == old(self).states@,
                self.input() == old(self).input(),
                self.path@ == old(self).path@,
                self.pop_path == old(self).pop_path,
                old(self).cursor() <= self.cursor(),
                self.cursor() > old(self).cursor() ==> is_whitespace(old(self).input()[old(self).cursor()]),
                old(self).sep_pre(States::RemoveWhitespaces),
                near_container(old(self).states@.push(States::RemoveWhitespaces)) == near_container(
                    old(self).states@,
                ),
            decreases self.input@.len() - self.cursor(),
        {
            match self.peek() {
                Some(byte) => {
                    if !whitespace(byte) {
                        self.advance();
                        return None;
                    }
                    self.forward();
                },
                None => {
                    self.push_state(States::RemoveWhitespaces);
                    return Some(Token::Pending);
                },
            }
        }
    }

    /// Processes a value which type is determined by its first byte.
    #[verifier::rlimit(100)]
    #[verifier::spinoff_prover]
    fn process_value(&mut self, element: Option<Element>) -> (r: Result<Option<Token>, error::General>)
        requires
            old(self).sep_pre(States::Value(element)),
            old(self).inv_core(),
            old(self).popped_ok(States::Value(element)),
        ensures
            (old(self).cursor() >= old(self).input().len() || value_byte(
                old(self).input()[old(self).cursor()],
            )) ==> r is Ok,
            bad_value_at(old(self).input(), old(self).cursor()) ==> r == Err::<Option<Token>, error::General>(
                incorrect_at(old(self).input(), old(self).cursor()),
            ),
            r matches Ok(Some(t)) ==> stack_containers(final(self).states@) == containers_after(
                stack_containers(old(self).states@),
                t,
            ),
            r matches Ok(None) ==> stack_containers(final(self).states@) == stack_containers(
                old(self).states@,
            ),
            (r matches Ok(Some(Token::Start(_, _))) && element is Some) ==> (stack_containers(
                old(self).states@,
            ).len() > 0 && element_in(stack_containers(old(self).states@).last(), (element->0)@)),
            match r {
                Ok(Some(Token::Start(_, _))) => final(self).progress() < old(self).pre_progress(
                    States::Value(element),
                ),
                Ok(None) => final(self).progress() <= old(self).pre_progress(States::Value(element)),
                _ => true,
            },
            match r {
                Ok(Some(Token::Start(_, _))) => !near_container(final(self).states@),
                Ok(_) => final(self).sep_ok(),
                Err(_) => true,
            },
            final(self).after_end == old(self).after_end,
            open_count(final(self).states@) == open_count(old(self).states@) + if r matches Ok(
                Some(Token::Start(_, _)),
            ) {
                1nat
            } else {
                0nat
            },
            r matches Ok(Some(Token::Start(_, _))) ==> (element is None <==> open_count(
                old(self).states@,
            ) == 0),
            final(self).wf_core(),
            final(self).input() == old(self).input(),
            final(self).pop_path == old(self).pop_path,
            old(self).cursor() <= final(self).cursor(),
            match r {
                Ok(Some(t)) => token_ok(
                    old(self).input(),
                    old(self).cursor(),
                    final(self).cursor(),
                    t,
                ) && final(self).states@.len() > 0 && (t is Start ==> final(self).path@ == (match element {
                    Some(e) => old(self).path@.push(e@),
                    None => old(self).path@,
                })),
                Ok(None) => final(self).states@ == old(self).states@ && final(self).cursor()
                    == old(self).cursor() && closes_at(final(self).input(), final(self).cursor()),
                Err(e) => error_ok(old(self).input(), old(self).cursor(), e),
            },
            !(r matches Ok(Some(Token::Start(_, _)))) ==> final(self).path@ == old(self).path@,
            r matches Ok(Some(t)) ==> t is Start || t is Pending,
            r matches Ok(Some(Token::Start(_, _))) ==> final(self).path@ == old(self).path@ || (
            final(self).path@.len() > 0 && final(self).path@.drop_last() == old(self).path@),
            closes_at(old(self).input(), old(self).cursor()) ==> r == Ok::<
                Option<Token>,
                error::General,
            >(None),
    {
        proof {
            if element is Some {
                lemma_child_container(self.states@, element->0);
            }
        }
        proof {
            assert forall|x: SpecElement| #[trigger] self.path@.push(x).drop_last() == self.path@ by {
                assert(self.path@.push(x).drop_last() =~= self.path@);
            }
        }
        match self.peek() {
            Some(byte) => {
                if byte == 0x22 {
                    self.push_state(States::Str(StringState::Normal));
                    self.advance();
                    self.forward();
                    if let Some(element) = element {
                        self.path.push(element);
                    }
                    Ok(Some(Token::Start(self.total_idx, ParsedKind::Str)))
                } else if 0x30 <= byte && byte <= 0x39 {
                    self.push_state(States::Number);
                    self.advance();
                    if let Some(element) = element {
                        self.path.push(element);
                    }
                    Ok(Some(Token::Start(self.total_idx, ParsedKind::Num)))
                } else if byte == 0x74 || byte == 0x66 {
                    self.push_state(States::Bool);
                    self.advance();
                    if let Some(element) = element {
                        self.path.push(element);
                    }
                    Ok(Some(Token::Start(self.total_idx, ParsedKind::Bool)))
                } else if byte == 0x6e {
                    self.push_state(States::Null);
                    self.advance();
                    if let Some(element) = element {
                        self.path.push(element);
                    }
                    Ok(Some(Token::Start(self.total_idx, ParsedKind::Null)))
                } else if byte == 0x5b {
                    self.push_state(States::Array(0));
                    self.push_state(States::RemoveWhitespaces);
                    self.push_state(States::Value(Some(Element::Index(0))));
                    self.push_state(States::RemoveWhitespaces);
                    self.advance();
                    self.forward();
                    if let Some(element) = element {
                        self.path.push(element);
                    }
                    Ok(Some(Token::Start(self.total_idx, ParsedKind::Arr)))
                } else if byte == 0x7b {
                    self.push_state(States::Object);
                    self.push_state(States::RemoveWhitespaces);
                    self.push_state(States::ObjectKey(ObjectKeyState::Init));
                    self.push_state(States::RemoveWhitespaces);
                    self.advance();
                    self.forward();
                    if let Some(element) = element {
                        self.path.push(element);
                    }
                    Ok(Some(Token::Start(self.total_idx, ParsedKind::Obj)))
                } else if byte == 0x5d || byte == 0x7d {
                    // End of an array or an object: no value here
                    Ok(None)
                } else {
                    Err(
                        error::General::IncorrectInput(
                            error::IncorrectInput::new(byte, self.total_idx + self.pending_idx),
                        ),
                    )
                }
            },
            None => {
                self.push_state(States::Value(element));
                Ok(Some(Token::Pending))
            },
        }
    }
}


/// How the path changes when a token is read: `left` is the path once the
/// value which ended last is left, `p` the path after the token and
/// `after` the path once the value which ended with the token is left.
///
/// A value which starts adds at most one element (its key or index; none for
/// the root value), a value which ends is left with the next token, and the
/// other tokens keep the path.
pub open spec fn path_moved(
    left: Seq<SpecElement>,
    p: Seq<SpecElement>,
    after: Seq<SpecElement>,
    t: Token,
) -> bool {
    match t {
        Token::Start(_, _) => after == p && (p == left || (p.len() > 0 && p.drop_last() == left)),
        Token::End(_, _) => p == left && after == (if p.len() > 1 {
            p.drop_last()
        } else {
            p
        }),
        _ => p == left && after == p,
    }
}

/// Common effect of processing a state which does not start a value.
pub open spec fn step_common(before: &Streamer, after: &Streamer) -> bool {
    &&& after.wf_core()
    &&& after.input() == before.input()
    &&& before.cursor() <= after.cursor()
}

impl Streamer {
    /// Whether a processing step made progress (when no token was emitted).
    closed spec fn progressed(before: &Streamer, after: &Streamer) -> bool {
        &&& after.states@.len() > 0
        &&& after.measure() < 4 * (before.input@.len() - before.cursor()) + before.states@.len() + 1
    }

    /// Processes a string.
    #[verifier::rlimit(100)]
    #[verifier::spinoff_prover]
    fn process_str(&mut self, state: StringState) -> (r: Option<Token>)
        requires
            old(self).inv_core(),
            old(self).popped_ok(States::Str(state)),
        ensures
            r is None ==> final(self).states@.len() > 0 && is_leaf(final(self).states@.last()),
            stack_containers(final(self).states@) == stack_containers(old(self).states@),
            r is None ==> final(self).progress() <= old(self).pre_progress(States::Str(state)),
            r matches Some(Token::End(_, _)) ==> final(self).progress() < old(self).pre_progress(
                States::Str(state),
            ),
            !(r matches Some(Token::End(_, _))) ==> !near_container(final(self).states@),
            final(self).after_end == old(self).after_end,
            open_count(final(self).states@) == open_count(old(self).states@) + if r matches Some(
                Token::End(_, _),
            ) {
                0nat
            } else {
                1nat
            },
            step_common(old(self), final(self)),
            final(self).path@ == old(self).path@,
            final(self).pop_path == old(self).pop_path,
            match r {
                Some(t) => token_ok(old(self).input(), old(self).cursor(), final(self).cursor(), t)
                    && (t is End || t is Pending) && (t matches Token::End(_, k) ==> k == ParsedKind::Str)
                    && (t is Pending ==> final(self).states@.len() > 0),
                None => Self::progressed(old(self), final(self)),
            },
    {
        match self.peek() {
            Some(byte) => {
                if byte == 0x22 {
                    if state == StringState::Normal {
                        self.forward();
                        self.advance();
                        Some(Token::End(self.total_idx, ParsedKind::Str))
                    } else {
                        self.forward();
                        self.push_state(States::Str(StringState::Normal));
                        None
                    }
                } else if byte == 0x5c {
                    self.forward();
                    let new_state = match state {
                        StringState::Escaped => StringState::Normal,
                        StringState::Normal => StringState::Escaped,
                    };
                    self.push_state(States::Str(new_state));
                    None
                } else {
                    self.forward();
                    self.push_state(States::Str(StringState::Normal));
                    None
                }
            },
            None => {
                self.push_state(States::Str(state));
                Some(Token::Pending)
            },
        }
    }

    /// Processes a number, a boolean or a null (values ended by a byte which
    /// can not continue them).
    #[verifier::rlimit(100)]
    #[verifier::spinoff_prover]
    fn process_scalar(&mut self, kind: ParsedKind) -> (r: Option<Token>)
        requires
            old(self).inv_core(),
            kind == ParsedKind::Num || kind == ParsedKind::Bool || kind == ParsedKind::Null,
            old(self).popped_ok(
                if kind == ParsedKind::Num {
                    States::Number
                } else if kind == ParsedKind::Bool {
                    States::Bool
                } else {
                    States::Null
                },
            ),
        ensures
            r is None ==> final(self).states@.len() > 0 && is_leaf(final(self).states@.last()),
            stack_containers(final(self).states@) == stack_containers(old(self).states@),
            r is None ==> final(self).progress() <= old(self).pre_progress(
                if kind == ParsedKind::Num {
                    States::Number
                } else if kind == ParsedKind::Bool {
                    States::Bool
                } else {
                    States::Null
                },
            ),
            r matches Some(Token::End(_, _)) ==> final(self).progress() < old(self).pre_progress(
                if kind == ParsedKind::Num {
                    States::Number
                } else if kind == ParsedKind::Bool {
                    States::Bool
                } else {
                    States::Null
                },
            ),
            !(r matches Some(Token::End(_, _))) ==> !near_container(final(self).states@),
            final(self).after_end == old(self).after_end,
            open_count(final(self).states@) == open_count(old(self).states@) + if r matches Some(
                Token::End(_, _),
            ) {
                0nat
            } else {
                1nat
            },
            step_common(old(self), final(self)),
            final(self).path@ == old(self).path@,
            final(self).pop_path == old(self).pop_path,
            match r {
                Some(t) => token_ok(old(self).input(), old(self).cursor(), final(self).cursor(), t)
                    && (t is End || t is Pending) && (t matches Token::End(_, k) ==> k == kind) && (
                t is Pending ==> final(self).states@.len() > 0),
                None => Self::progressed(old(self), final(self)),
            },
    {
        let ghost popped = if kind == ParsedKind::Num {
            States::Number
        } else if kind == ParsedKind::Bool {
            States::Bool
        } else {
            States::Null
        };
        match self.peek() {
            Some(byte) => {
                let continues = match kind {
                    ParsedKind::Num => (0x30 <= byte && byte <= 0x39) || byte == 0x2e,
                    _ => alpha(byte),
                };
                if continues {
                    self.forward();
                    match kind {
                        ParsedKind::Num => self.push_state(States::Number),
                        ParsedKind::Bool => self.push_state(States::Bool),
                        _ => self.push_state(States::Null),
                    }
                    None
                } else {
                    self.advance();
                    Some(Token::End(self.total_idx, kind))
                }
            },
            None => {
                match kind {
                    ParsedKind::Num => self.push_state(States::Number),
                    ParsedKind::Bool => self.push_state(States::Bool),
                    _ => self.push_state(States::Null),
                }
                Some(Token::Pending)
            },
        }
    }

    /// Processes an array.
    #[verifier::rlimit(100)]
    #[verifier::spinoff_prover]
    fn process_array(&mut self, idx: usize) -> (r: Result<Token, error::General>)
        requires
            old(self).sep_pre(States::Array(idx)),
            old(self).inv_core(),
            old(self).popped_ok(States::Array(idx)),
        ensures
            (old(self).cursor() >= old(self).input().len() || old(self).input()[old(self).cursor()]
                == 0x2c || old(self).input()[old(self).cursor()] == 0x5d) ==> r is Ok,
            r matches Ok(t) ==> stack_containers(final(self).states@) == containers_after(
                stack_containers(old(self).states@) + container_entry(States::Array(idx)),
                t,
            ),
            r matches Ok(t) && !(t is Pending) ==> final(self).progress() < old(self).pre_progress(States::Array(idx)),
            r matches Ok(t) && !(t is End) ==> final(self).sep_ok(),
            r matches Ok(Token::Separator(_)) ==> old(self).after_end@,
            final(self).after_end == old(self).after_end,
            r is Ok ==> open_count(final(self).states@) == open_count(old(self).states@) + if r matches Ok(
                Token::End(_, _),
            ) {
                0nat
            } else {
                1nat
            },
            final(self).input() == old(self).input(),
            final(self).path@ == old(self).path@,
            final(self).pop_path == old(self).pop_path,
            match r {
                Ok(t) => step_common(old(self), final(self)) && token_ok(
                    old(self).input(),
                    old(self).cursor(),
                    final(self).cursor(),
                    t,
                ) && (t is End || t is Separator || t is Pending) && (t matches Token::End(_, k)
                    ==> k == ParsedKind::Arr),
                Err(e) => final(self).wf_core() && error_ok(old(self).input(), old(self).cursor(), e)
                    && old(self).cursor() <= final(self).cursor(),
            },
    {
        match self.peek() {
            Some(byte) => {
                if byte == 0x5d {
                    self.forward();
                    self.advance();
                    Ok(Token::End(self.total_idx, ParsedKind::Arr))
                } else if byte == 0x2c {
                    self.forward();
                    self.push_state(States::Array(idx + 1));
                    self.push_state(States::RemoveWhitespaces);
                    self.push_state(States::Value(Some(Element::Index(idx + 1))));
                    self.push_state(States::RemoveWhitespaces);
                    Ok(Token::Separator(self.total_idx))
                } else {
                    Err(
                        error::General::IncorrectInput(
                            error::IncorrectInput::new(byte, self.total_idx + self.pending_idx),
                        ),
                    )
                }
            },
            None => {
                self.push_state(States::Array(idx));
                Ok(Token::Pending)
            },
        }
    }

    /// Processes an object.
    #[verifier::rlimit(100)]
    #[verifier::spinoff_prover]
    fn process_object(&mut self) -> (r: Result<Token, error::General>)
        requires
            old(self).sep_pre(States::Object),
            old(self).inv_core(),
            old(self).popped_ok(States::Object),
        ensures
            (old(self).cursor() >= old(self).input().len() || old(self).input()[old(self).cursor()]
                == 0x2c || old(self).input()[old(self).cursor()] == 0x7d) ==> r is Ok,
            r matches Ok(t) ==> stack_containers(final(self).states@) == containers_after(
                stack_containers(old(self).states@) + container_entry(States::Object),
                t,
            ),
            r matches Ok(t) && !(t is Pending) ==> final(self).progress() < old(self).pre_progress(States::Object),
            r matches Ok(t) && !(t is End) ==> final(self).sep_ok(),
            r matches Ok(Token::Separator(_)) ==> old(self).after_end@,
            final(self).after_end == old(self).after_end,
            r is Ok ==> open_count(final(self).states@) == open_count(old(self).states@) + if r matches Ok(
                Token::End(_, _),
            ) {
                0nat
            } else {
                1nat
            },
            final(self).input() == old(self).input(),
            final(self).path@ == old(self).path@,
            final(self).pop_path == old(self).pop_path,
            match r {
                Ok(t) => step_common(old(self), final(self)) && token_ok(
                    old(self).input(),
                    old(self).cursor(),
                    final(self).cursor(),
                    t,
                ) && (t is End || t is Separator || t is Pending) && (t matches Token::End(_, k)
                    ==> k == ParsedKind::Obj),
                Err(e) => final(self).wf_core() && error_ok(old(self).input(), old(self).cursor(), e)
                    && old(self).cursor() <= final(self).cursor(),
            },
    {
        match self.peek() {
            Some(byte) => {
                if byte == 0x7d {
                    self.forward();
                    self.advance();
                    Ok(Token::End(self.total_idx, ParsedKind::Obj))
                } else if byte == 0x2c {
                    self.forward();
                    self.push_state(States::Object);
                    self.push_state(States::RemoveWhitespaces);
                    self.push_state(States::ObjectKey(ObjectKeyState::Init));
                    self.push_state(States::RemoveWhitespaces);
                    Ok(Token::Separator(self.total_idx))
                } else {
                    Err(
                        error::General::IncorrectInput(
                            error::IncorrectInput::new(byte, self.total_idx + self.pending_idx),
                        ),
                    )
                }
            },
            None => {
                self.push_state(States::Object);
                Ok(Token::Pending)
            },
        }
    }

    /// Processes a single colon.
    #[verifier::rlimit(100)]
    #[verifier::spinoff_prover]
    fn process_colon(&mut self) -> (r: Result<Option<Token>, error::General>)
        requires
            old(self).sep_pre(States::Colon),
            old(self).inv_core(),
            old(self).popped_ok(States::Colon),
        ensures
            r is Ok ==> stack_containers(final(self).states@) == stack_containers(old(self).states@),
            ({
                let c = old(self).cursor();
                let input = old(self).input();
                &&& c < input.len() && input[c] == 0x3a ==> r == Ok::<
                    Option<Token>,
                    error::General,
                >(None) && final(self).cursor() == c + 1 && final(self).states@ == old(
                    self,
                ).states@
                &&& c < input.len() && input[c] != 0x3a ==> (r matches Err(
                    error::General::IncorrectInput(e),
                ) && e.idx == c && e.byte == input[c])
                &&& c == input.len() ==> r == Ok::<Option<Token>, error::General>(
                    Some(Token::Pending),
                ) && final(self).cursor() == c && final(self).states@ == old(self).states@.push(
                    States::Colon,
                )
            }),
            r matches Ok(None) ==> final(self).progress() <= old(self).pre_progress(States::Colon),
            r is Ok ==> final(self).sep_ok(),
            final(self).after_end == old(self).after_end,
            r is Ok ==> open_count(final(self).states@) == open_count(old(self).states@),
            final(self).input() == old(self).input(),
            final(self).path@ == old(self).path@,
            final(self).pop_path == old(self).pop_path,
            match r {
                Ok(Some(t)) => step_common(old(self), final(self)) && t is Pending && token_ok(
                    old(self).input(),
                    old(self).cursor(),
                    final(self).cursor(),
                    t,
                ),
                Ok(None) => step_common(old(self), final(self)) && Self::progressed(
                    old(self),
                    final(self),
                ),
                Err(e) => final(self).wf_core() && error_ok(old(self).input(), old(self).cursor(), e)
                    && old(self).cursor() <= final(self).cursor(),
            },
    {
        match self.peek() {
            Some(byte) => {
                if byte != 0x3a {
                    return Err(
                        error::General::IncorrectInput(
                            error::IncorrectInput::new(byte, self.total_idx + self.pending_idx),
                        ),
                    );
                }
                self.forward();
                Ok(None)
            },
            None => {
                self.push_state(States::Colon);
                Ok(Some(Token::Pending))
            },
        }
    }
}


impl Streamer {
    /// Processes an object key.
    fn process_object_key(&mut self, state: ObjectKeyState) -> (r: Result<Option<Token>, error::General>)
        requires
            old(self).sep_pre(States::ObjectKey(state)),
            old(self).inv_core(),
            old(self).popped_ok(States::ObjectKey(state)),
        ensures
            r is Ok ==> stack_containers(final(self).states@) == stack_containers(old(self).states@),
            r matches Ok(None) ==> final(self).progress() <= old(self).pre_progress(States::ObjectKey(state)),
            r is Ok ==> final(self).sep_ok(),
            final(self).after_end == old(self).after_end,
            r is Ok ==> open_count(final(self).states@) == open_count(old(self).states@),
            final(self).input() == old(self).input(),
            final(self).path@ == old(self).path@,
            final(self).pop_path == old(self).pop_path,
            match r {
                Ok(Some(t)) => step_common(old(self), final(self)) && t is Pending && token_ok(
                    old(self).input(),
                    old(self).cursor(),
                    final(self).cursor(),
                    t,
                ) && final(self).states@.len() > 0,
                Ok(None) => step_common(old(self), final(self)) && Self::progressed(
                    old(self),
                    final(self),
                ),
                Err(e) => final(self).wf_core() && error_ok(old(self).input(), old(self).cursor(), e)
                    && old(self).cursor() <= final(self).cursor(),
            },
    {
        match state {
            ObjectKeyState::Init => self.process_key_init(),
            ObjectKeyState::Parse(string_state) => self.process_key_parse(string_state),
        }
    }

    /// Waits for the quote which starts a key (or the end of the object).
    #[verifier::rlimit(100)]
    #[verifier::spinoff_prover]
    fn process_key_init(&mut self) -> (r: Result<Option<Token>, error::General>)
        requires
            old(self).sep_pre(States::ObjectKey(ObjectKeyState::Init)),
            old(self).inv_core(),
            old(self).popped_ok(States::ObjectKey(ObjectKeyState::Init)),
        ensures
            r is Ok ==> stack_containers(final(self).states@) == stack_containers(old(self).states@),
            r matches Ok(None) ==> final(self).progress() <= old(self).pre_progress(States::ObjectKey(ObjectKeyState::Init)),
            r is Ok ==> final(self).sep_ok(),
            final(self).after_end == old(self).after_end,
            r is Ok ==> open_count(final(self).states@) == open_count(old(self).states@),
            final(self).input() == old(self).input(),
            final(self).path@ == old(self).path@,
            final(self).pop_path == old(self).pop_path,
            match r {
                Ok(Some(t)) => step_common(old(self), final(self)) && t is Pending && token_ok(
                    old(self).input(),
                    old(self).cursor(),
                    final(self).cursor(),
                    t,
                ) && final(self).states@.len() > 0,
                Ok(None) => step_common(old(self), final(self)) && Self::progressed(
                    old(self),
                    final(self),
                ),
                Err(e) => final(self).wf_core() && error_ok(old(self).input(), old(self).cursor(), e)
                    && old(self).cursor() <= final(self).cursor(),
            },
    {
        match self.peek() {
            Some(byte) => {
                if byte == 0x22 {
                    // move cursor to the start of the key
                    self.advance();
                    self.forward();
                    self.push_state(
                        States::ObjectKey(ObjectKeyState::Parse(StringState::Normal)),
                    );
                    Ok(None)
                } else if byte == 0x7d {
                    // end of the object has been reached
                    Ok(None)
                } else {
                    // keys are strings in JSON
                    Err(
                        error::General::IncorrectInput(
                            error::IncorrectInput::new(
                                byte,
                                self.total_idx + self.pending_idx,
                            ),
                        ),
                    )
                }
            },
            None => {
                self.push_state(States::ObjectKey(ObjectKeyState::Init));
                Ok(Some(Token::Pending))
            },
        }
    }

    /// Reads the bytes of a key.
    #[verifier::rlimit(100)]
    #[verifier::spinoff_prover]
    fn process_key_parse(&mut self, string_state: StringState) -> (r: Result<Option<Token>, error::General>)
        requires
            old(self).sep_pre(States::ObjectKey(ObjectKeyState::Parse(string_state))),
            old(self).inv_core(),
            old(self).popped_ok(States::ObjectKey(ObjectKeyState::Parse(string_state))),
        ensures
            r is Ok ==> stack_containers(final(self).states@) == stack_containers(old(self).states@),
            r matches Ok(None) ==> final(self).progress() <= old(self).pre_progress(States::ObjectKey(ObjectKeyState::Parse(string_state))),
            r is Ok ==> final(self).sep_ok(),
            final(self).after_end == old(self).after_end,
            r is Ok ==> open_count(final(self).states@) == open_count(old(self).states@),
            final(self).input() == old(self).input(),
            final(self).path@ == old(self).path@,
            final(self).pop_path == old(self).pop_path,
            match r {
                Ok(Some(t)) => step_common(old(self), final(self)) && t is Pending && token_ok(
                    old(self).input(),
                    old(self).cursor(),
                    final(self).cursor(),
                    t,
                ) && final(self).states@.len() > 0,
                Ok(None) => step_common(old(self), final(self)) && Self::progressed(
                    old(self),
                    final(self),
                ),
                Err(e) => final(self).wf_core() && error_ok(old(self).input(), old(self).cursor(), e)
                    && old(self).cursor() <= final(self).cursor(),
            },
    {
        proof {
            let st = self.states@;
            assert(can_push(st, States::ObjectKey(ObjectKeyState::Parse(string_state))));
            assert(st.len() >= 2 && st.last() is RemoveWhitespaces && st[st.len() - 2] is Object);
        }
        match self.peek() {
            Some(byte) => {
                self.forward();
                match string_state {
                    StringState::Normal => {
                        if byte == 0x22 {
                            let idx = self.pending_idx;
                            let start = self.total_idx;
                            let data = self.advance_take();
                            let slice = vstd::slice::slice_subrange(
                                data.as_slice(),
                                1,
                                idx - 1,
                            );
                            match utf8_to_string(slice) {
                                Ok(key) => {
                                    self.push_state(
                                        States::Value(Some(Element::Key(key))),
                                    );
                                    self.push_state(States::RemoveWhitespaces);
                                    self.push_state(States::Colon);
                                    self.push_state(States::RemoveWhitespaces);
                                    Ok(None)
                                },
                                Err(_) => Err(
                                    error::General::Utf8Error(
                                        error::Utf8Error { idx: start },
                                    ),
                                ),
                            }
                        } else if byte == 0x5c {
                            self.push_state(
                                States::ObjectKey(
                                    ObjectKeyState::Parse(StringState::Escaped),
                                ),
                            );
                            Ok(None)
                        } else {
                            self.push_state(
                                States::ObjectKey(ObjectKeyState::Parse(StringState::Normal)),
                            );
                            Ok(None)
                        }
                    },
                    StringState::Escaped => {
                        self.push_state(
                            States::ObjectKey(ObjectKeyState::Parse(StringState::Normal)),
                        );
                        Ok(None)
                    },
                }
            },
            None => {
                self.push_state(States::ObjectKey(ObjectKeyState::Parse(string_state)));
                Ok(Some(Token::Pending))
            },
        }
    }
}


impl Streamer {
    /// Pops the state on the top of the stack.
    fn pop_state(&mut self) -> (r: Option<States>)
        requires
            old(self).wf_core(),
        ensures
            r matches Some(s) ==> old(self).states@ == final(self).states@.push(s),
            final(self).after_end == old(self).after_end,
            final(self).inv_core(),
            final(self).input() == old(self).input(),
            final(self).cursor() == old(self).cursor(),
            final(self).path@ == old(self).path@,
            final(self).pop_path == old(self).pop_path,
            match r {
                Some(s) => final(self).popped_ok(s) && final(self).states@.len() + 1
                    == old(self).states@.len() && final(self).pending_idx == old(self).pending_idx
                    && s == old(self).states@.last()
                    && final(self).states@ == old(self).states@.drop_last() && open_count(
                    old(self).states@,
                ) == open_count(final(self).states@) + if is_open(s) {
                    1nat
                } else {
                    0nat
                },
                None => final(self).states@.len() == 0 && old(self).states@.len() == 0,
            },
    {
        let r = self.states.pop();
        proof {
            let o = old(self).states@;
            let st = self.states@;
            if o.len() > 0 {
                assert(st =~= o.drop_last());
                assert forall|k: int| 0 <= k < st.len() && (#[trigger] st[k]) is Array implies st[k]->Array_0
                    <= self.cursor() by {
                    assert(st[k] == o[k]);
                }
                assert forall|k: int| 0 <= k < st.len() - 1 && is_container(#[trigger] st[k]) implies st[k
                    + 1] is RemoveWhitespaces by {
                    assert(st[k] == o[k]);
                }
                assert forall|k: int| 0 <= k < st.len() - 1 implies !is_key_parse(#[trigger] st[k]) by {
                    assert(st[k] == o[k]);
                }
                if st.len() > 0 {
                    assert(st[0] == o[0]);
                    assert(st.last() == o[o.len() - 2]);
                    assert(!is_key_parse(o[o.len() - 2]));
                }
                assert forall|k: int| 0 <= k < st.len() implies can_push(st.take(k), #[trigger] st[k]) by {
                    assert(st[k] == o[k]);
                    assert(st.take(k) =~= o.take(k));
                }
                assert(o.take(o.len() - 1) =~= st);
                assert(can_push(o.take(o.len() - 1), o[o.len() - 1]));
            }
        }
        r
    }

    /// Leaves the value which ended last (if it was not left yet).
    fn leave_path(&mut self)
        ensures
            final(self).after_end == old(self).after_end,
            final(self).path@ == old(self).path_after_leave(),
            !final(self).pop_path,
            final(self).states == old(self).states,
            final(self).pending == old(self).pending,
            final(self).pending_idx == old(self).pending_idx,
            final(self).total_idx == old(self).total_idx,
            final(self).input == old(self).input,
            old(self).path@.len() >= 1 ==> final(self).path@.len() >= 1,
    {
        if self.pop_path {
            if self.path.len() > 1 {
                self.path.pop();
            }
            self.pop_path = false;
        }
    }

    /// Reads data from the streamer and emits the next [`Token`].
    ///
    /// Note that the validity of the input JSON is not checked. After an
    /// error the streamer should not be used any more. An error is only
    /// reported at a byte at or after the cursor; no error is reported when
    /// the streamer [`Streamer::proceeds`]: while a string, number, boolean
    /// or null is read, or when a value is awaited at the top level or in an
    /// array, or a separator or the end after a value in an array or an
    /// object, and the next byte which is no whitespace (if any) fits there.
    /// Whether an error can come while an object key is read, and that valid
    /// JSON is read without an error as a whole, is not stated.
    ///
    /// A value which starts is entered (its path is added to the open
    /// paths), a value which ends is left: it is the last open one and the
    /// path reported with its end is the one reported with its start. A
    /// separator is reported only after the end of a value: the last start
    /// or end reported before it is an end. Every token but
    /// [`Token::Pending`] decreases [`Streamer::progress`], so a caller
    /// which reads until more data are needed stops.
    ///
    /// The open arrays and objects ([`Streamer::open_containers`]) follow
    /// the tokens: a value which starts inside an array is added to the
    /// path with the array's current index (0 for its first value, one more
    /// after each separator), one inside an object with a key. Which key
    /// that is, and that a start and its end enclose the value's text, is
    /// not stated here.
    pub fn read(&mut self) -> (r: Result<Token, error::General>)
        requires
            old(self).wf(),
        ensures
            old(self).proceeds() ==> r is Ok,
            old(self).awaits_root() && bad_value_at(old(self).input(), old(self).cursor()) ==> r
                == Err::<Token, error::General>(incorrect_at(old(self).input(), old(self).cursor())),
            r matches Ok(t) ==> final(self).open_containers() == containers_after(
                old(self).open_containers(),
                t,
            ),
            (r matches Ok(Token::Start(_, _)) && old(self).open_containers().len() > 0)
                ==> element_in(old(self).open_containers().last(), final(self).path_view().last()),
            r matches Ok(t) && !(t is Pending) ==> final(self).progress() < old(self).progress(),
            r matches Ok(Token::Separator(_)) ==> old(self).open_paths().len() > 0,
            r matches Ok(Token::End(_, _)) ==> final(self).path_view().len() == old(
                self,
            ).open_paths().len(),
            r matches Ok(t) ==> final(self).after_end() == next_after_end(old(self).after_end(), t),
            r matches Ok(Token::Separator(_)) ==> old(self).after_end(),
            r is Ok ==> final(self).wf(),
            final(self).input() == old(self).input(),
            old(self).cursor() <= final(self).cursor(),
            match r {
                Ok(t) => token_ok(old(self).input(), old(self).cursor(), final(self).cursor(), t) || (
                t is Pending && final(self).stalled()),
                Err(e) => error_ok(old(self).input(), old(self).cursor(), e),
            },
            old(self).stalled() ==> r == Ok::<Token, error::General>(Token::Pending)
                && final(self).stalled() && final(self).cursor() == old(self).cursor(),
            r matches Ok(t) ==> path_moved(
                old(self).path_after_leave(),
                final(self).path_view(),
                final(self).path_after_leave(),
                t,
            ),
            r matches Ok(Token::Start(_, _)) ==> {
                let before = old(self).open_paths();
                final(self).open_paths() == before.push(final(self).path_view())
            },
            r matches Ok(Token::End(_, _)) ==> {
                let before = old(self).open_paths();
                &&& before.len() > 0
                &&& final(self).path_view() == before.last()
                &&& final(self).open_paths() == before.drop_last()
            },
            r matches Ok(t) && (t is Separator || t is Pending) ==> final(self).open_paths()
                == old(self).open_paths(),
    {
        let r = self.read_token();
        if let Ok(t) = &r {
            self.after_end = Ghost(next_after_end(self.after_end@, *t));
        }
        proof {
            if let Ok(t) = r {
                lemma_open_paths(
                    old(self).path_after_leave(),
                    open_count(old(self).states@),
                    self.path_view(),
                    self.path_after_leave(),
                    open_count(self.states@),
                    t,
                );
            }
        }
        r
    }

    /// Reads the next token; see [`Streamer::read`].
    #[verifier::rlimit(100)]
    #[verifier::spinoff_prover]
    fn read_token(&mut self) -> (r: Result<Token, error::General>)
        requires
            old(self).wf(),
        ensures
            proceeds_from(old(self).states@, old(self).input(), old(self).cursor()) ==> r is Ok,
            old(self).awaits_root() && bad_value_at(old(self).input(), old(self).cursor()) ==> r
                == Err::<Token, error::General>(incorrect_at(old(self).input(), old(self).cursor())),
            r matches Ok(t) ==> stack_containers(final(self).states@) == containers_after(
                stack_containers(old(self).states@),
                t,
            ),
            (r matches Ok(Token::Start(_, _)) && stack_containers(old(self).states@).len() > 0)
                ==> element_in(stack_containers(old(self).states@).last(), final(self).path@.last()),
            r matches Ok(t) && !(t is Pending) ==> final(self).progress() < old(self).progress(),
            r matches Ok(Token::Separator(_)) ==> open_count(old(self).states@) > 0,
            r matches Ok(t) ==> (near_container(final(self).states@) ==> next_after_end(
                old(self).after_end@,
                t,
            ) || closes_at(final(self).input(), final(self).cursor())),
            r matches Ok(Token::Separator(_)) ==> old(self).after_end@,
            final(self).after_end == old(self).after_end,
            final(self).wf_core(),
            final(self).input() == old(self).input(),
            old(self).cursor() <= final(self).cursor(),
            match r {
                Ok(t) => token_ok(old(self).input(), old(self).cursor(), final(self).cursor(), t) || (
                t is Pending && final(self).stalled()),
                Err(e) => error_ok(old(self).input(), old(self).cursor(), e),
            },
            old(self).stalled() ==> r == Ok::<Token, error::General>(Token::Pending)
                && final(self).stalled() && final(self).cursor() == old(self).cursor(),
            r matches Ok(t) ==> path_moved(
                old(self).path_after_leave(),
                final(self).path_view(),
                final(self).path_after_leave(),
                t,
            ),
            r matches Ok(t) ==> open_count(final(self).states@) == open_count(old(self).states@)
                + token_delta(t),
            r matches Ok(Token::Start(_, _)) ==> final(self).path_view().len() == open_count(old(self).states@) + 1,
    {
        loop
            invariant
                proceeds_from(old(self).states@, old(self).input(), old(self).cursor()) ==> proceeds_from(
                    self.states@,
                    self.input(),
                    self.cursor(),
                ),
                old(self).awaits_root() && bad_value_at(old(self).input(), old(self).cursor()) ==> (
                self.states@ == old(self).states@ || self.states@ == seq![States::Value(None)])
                && self.cursor() == old(self).cursor(),
                stack_containers(self.states@) == stack_containers(old(self).states@),
                self.after_end == old(self).after_end,
                self.wf_core(),
                self.input() == old(self).input(),
                open_count(self.states@) == open_count(old(self).states@),
                self.path_after_leave() == old(self).path_after_leave(),
                self.sep_ok(),
                self.progress() <= old(self).progress(),
                old(self).depth_ok(),
                old(self).cursor() <= self.cursor(),
                old(self).stalled() ==> self.cursor() == old(self).cursor() && (self.states@.len()
                    == 0 || self.states@ == seq![States::Value(None), States::RemoveWhitespaces]
                    || self.states@ == seq![States::Value(None)]),
            decreases self.measure(),
        {
            let ghost before = self.states@;
            let ghost c0 = self.cursor();
            match self.pop_state() {
                Some(state) => {
                    assert(before == self.states@.push(state));
                    self.leave_path();
                    let ghost popped = self.states@;
                    proof {
                        if proceeds_from(before, self.input(), c0) {
                            lemma_proceeds_popped(popped, state, self.input(), c0);
                        }
                    }
                    match self.step(state) {
                        Ok(Some(t)) => {
                            return Ok(t);
                        },
                        Ok(None) => {
                            assert(stack_containers(self.states@) == stack_containers(before));
                            proof {
                                if proceeds_from(before, self.input(), c0) {
                                    lemma_proceeds_next(
                                        popped,
                                        state,
                                        self.states@,
                                        self.input(),
                                        c0,
                                        self.cursor(),
                                    );
                                }
                            }
                        },
                        Err(e) => {
                            return Err(e);
                        },
                    }
                },
                None => {
                    assert(self.states@ =~= before);
                    self.push_state(States::Value(None));
                    self.push_state(States::RemoveWhitespaces);
                    assert(self.states@ =~= seq![States::Value(None), States::RemoveWhitespaces]);
                },
            }
        }
    }

    /// Processes a state which was popped from the stack: the token to
    /// report, or `None` when the processing goes on.
    #[verifier::rlimit(100)]
    #[verifier::spinoff_prover]
    fn step(&mut self, state: States) -> (r: Result<Option<Token>, error::General>)
        requires
            old(self).inv_core(),
            old(self).popped_ok(state),
            old(self).sep_pre(state),
            !old(self).pop_path,
            old(self).path@.len() == max_one(open_count(old(self).states@.push(state))),
        ensures
            is_leaf(state) ==> r is Ok && (r matches Ok(None) ==> final(self).states@.len() > 0
                && is_leaf(final(self).states@.last())),
            state is RemoveWhitespaces ==> r is Ok && (r matches Ok(None) ==> final(self).states@
                == old(self).states@ && final(self).cursor() == skip_ws(
                old(self).input(),
                old(self).cursor(),
            ) && final(self).cursor() < old(self).input().len()),
            state is Value && (old(self).cursor() >= old(self).input().len() || value_byte(
                old(self).input()[old(self).cursor()],
            )) ==> r is Ok,
            (state is Value && r matches Ok(None)) ==> (final(self).states@ == old(self).states@
                && final(self).cursor() == old(self).cursor() && closes_at(
                old(self).input(),
                old(self).cursor(),
            ) && old(self).states@.len() > 0),
            (state is Array || state is Object) ==> !(r matches Ok(None)),
            state is Array && (old(self).cursor() >= old(self).input().len() || old(self).input()[old(
                self,
            ).cursor()] == 0x2c || old(self).input()[old(self).cursor()] == 0x5d) ==> r is Ok,
            state is Object && (old(self).cursor() >= old(self).input().len() || old(self).input()[old(
                self,
            ).cursor()] == 0x2c || old(self).input()[old(self).cursor()] == 0x7d) ==> r is Ok,
            state is Value && bad_value_at(old(self).input(), old(self).cursor()) ==> r == Err::<
                Option<Token>,
                error::General,
            >(incorrect_at(old(self).input(), old(self).cursor())),
            state is RemoveWhitespaces && bad_value_at(old(self).input(), old(self).cursor()) ==> r
                == Ok::<Option<Token>, error::General>(None) && final(self).cursor() == old(
                self,
            ).cursor() && final(self).states@ == old(self).states@,
            r matches Ok(Some(t)) ==> stack_containers(final(self).states@) == containers_after(
                stack_containers(old(self).states@.push(state)),
                t,
            ),
            r matches Ok(None) ==> stack_containers(final(self).states@) == stack_containers(
                old(self).states@.push(state),
            ),
            (r matches Ok(Some(Token::Start(_, _))) && stack_containers(old(self).states@.push(state)).len()
                > 0) ==> element_in(
                stack_containers(old(self).states@.push(state)).last(),
                final(self).path@.last(),
            ),
            final(self).after_end == old(self).after_end,
            final(self).wf_core(),
            final(self).input() == old(self).input(),
            old(self).cursor() <= final(self).cursor(),
            match r {
                Ok(Some(t)) => {
                    &&& token_ok(old(self).input(), old(self).cursor(), final(self).cursor(), t) || (
                    t is Pending && final(self).stalled())
                    &&& path_moved(old(self).path@, final(self).path@, final(self).path_after_leave(), t)
                    &&& open_count(final(self).states@) == open_count(old(self).states@.push(state))
                        + token_delta(t)
                    &&& t is Start ==> final(self).path@.len() == open_count(
                        old(self).states@.push(state),
                    ) + 1
                    &&& near_container(final(self).states@) ==> next_after_end(
                        old(self).after_end@,
                        t,
                    ) || closes_at(final(self).input(), final(self).cursor())
                    &&& t is Separator ==> old(self).after_end@ && open_count(
                        old(self).states@.push(state),
                    ) > 0
                    &&& !(t is Pending) ==> final(self).progress() < old(self).pre_progress(state)
                },
                Ok(None) => {
                    &&& Self::progressed(old(self), final(self))
                    &&& final(self).sep_ok()
                    &&& final(self).path@ == old(self).path@
                    &&& !final(self).pop_path
                    &&& open_count(final(self).states@) == open_count(old(self).states@.push(state))
                    &&& final(self).progress() <= old(self).pre_progress(state)
                },
                Err(e) => error_ok(old(self).input(), old(self).cursor(), e),
            },
            state is RemoveWhitespaces && closes_at(old(self).input(), old(self).cursor()) ==> r
                == Ok::<Option<Token>, error::General>(None) && final(self).cursor() == old(
                self,
            ).cursor() && final(self).states@ == old(self).states@,
            state == States::Value(None) && old(self).states@.len() == 0 && closes_at(
                old(self).input(),
                old(self).cursor(),
            ) ==> r == Ok::<Option<Token>, error::General>(Some(Token::Pending))
                && final(self).states@.len() == 0 && final(self).cursor() == old(self).cursor(),
    {
        proof {
            lemma_open_count_push(self.states@, state);
            lemma_containers_push(self.states@, state);
            if self.states@.len() == 0 {
                reveal(stack_containers);
            }
            if !(state is Array || state is Object) {
                assert(stack_containers(self.states@.push(state)) =~= stack_containers(self.states@));
            }
        }
        match state {
            States::RemoveWhitespaces => {
                match self.process_remove_whitespace() {
                    Some(output) => Ok(Some(output)),
                    None => Ok(None),
                }
            },
            States::Value(element) => {
                match self.process_value(element) {
                    Ok(Some(output)) => Ok(Some(output)),
                    Ok(None) => {
                        if self.states.len() == 0 {
                            Ok(Some(Token::Pending))
                        } else {
                            Ok(None)
                        }
                    },
                    Err(e) => Err(e),
                }
            },
            States::Str(string_state) => {
                match self.process_str(string_state) {
                    Some(output) => {
                        self.pop_path = output.is_end();
                        Ok(Some(output))
                    },
                    None => Ok(None),
                }
            },
            States::Number => {
                match self.process_scalar(ParsedKind::Num) {
                    Some(output) => {
                        self.pop_path = output.is_end();
                        Ok(Some(output))
                    },
                    None => Ok(None),
                }
            },
            States::Bool => {
                match self.process_scalar(ParsedKind::Bool) {
                    Some(output) => {
                        self.pop_path = output.is_end();
                        Ok(Some(output))
                    },
                    None => Ok(None),
                }
            },
            States::Null => {
                match self.process_scalar(ParsedKind::Null) {
                    Some(output) => {
                        self.pop_path = output.is_end();
                        Ok(Some(output))
                    },
                    None => Ok(None),
                }
            },
            States::Array(idx) => {
                match self.process_array(idx) {
                    Ok(output) => {
                        self.pop_path = output.is_end();
                        Ok(Some(output))
                    },
                    Err(e) => Err(e),
                }
            },
            States::Object => {
                match self.process_object() {
                    Ok(output) => {
                        self.pop_path = output.is_end();
                        Ok(Some(output))
                    },
                    Err(e) => Err(e),
                }
            },
            States::ObjectKey(key_state) => self.process_object_key(key_state),
            States::Colon => self.process_colon(),
        }
    }
}

} // verus!
