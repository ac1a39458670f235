//! Logic of the command line tool: parsing of matcher and handler
//! definitions and the rules which handlers fit which strategy.

use crate::error;
use crate::handler::{Analyser, Buffer, Handler, Indenter, Output, Regex, Replace, Shorten, Unstringify};
use crate::matcher::{Combinator, Depth, Regex as RegexMatcher, Simple};
use crate::matcher::strip_roots;
use crate::path::{
    chars_to_string, collect_chars, decimal, depth_of, push_decimal, render_path, SpecElement,
};
use crate::streamer::ParsedKind;
use crate::text::{
    find_char, find_from, parse_usize, parse_usize_spec, split_chars, split_seq, usize_error_message,
    usize_error_text,
};
use vstd::prelude::*;

verus! {

/// Parts of an argument `NAME[.GROUP[,GROUP..]][,OPTION..][:DEFINITION]`.
pub struct SpecArgument {
    pub name: Seq<char>,
    pub groups: Seq<Seq<char>>,
    pub options: Seq<Seq<char>>,
    pub definition: Seq<char>,
}

/// Splits `s` by the first `sep`: the part before and the part after it
/// (empty when there is no separator).
pub open spec fn split_first(s: Seq<char>, sep: char) -> (Seq<char>, Option<Seq<char>>) {
    match find_char(s, sep) {
        Some(i) => (s.take(i), Some(s.skip(i + 1))),
        None => (s, None),
    }
}

/// How an argument is split into its parts.
pub open spec fn split_argument_spec(s: Seq<char>) -> SpecArgument {
    let (head, definition) = split_first(s, ':');
    let (name_group, options) = split_first(head, ',');
    let (name, group) = split_first(name_group, '.');
    SpecArgument {
        name,
        groups: split_seq(
            match group {
                Some(g) => g,
                None => Seq::empty(),
            },
            ',',
        ),
        options: match options {
            Some(o) => split_seq(o, ','),
            None => Seq::empty(),
        },
        definition: match definition {
            Some(d) => d,
            None => Seq::empty(),
        },
    }
}

/// Views of strings.
pub open spec fn strings_view(v: Seq<String>) -> Seq<Seq<char>> {
    v.map_values(|s: String| s@)
}

/// Splits `chars[from..to]` by the first `sep`.
pub(crate) fn split_first_exec(chars: &Vec<char>, sep: char) -> (r: (Vec<char>, Option<Vec<char>>))
    ensures
        r.0@ == split_first(chars@, sep).0,
        match split_first(chars@, sep).1 {
            Some(rest) => r.1 matches Some(v) && v@ == rest,
            None => r.1 is None,
        },
{
    assert(chars@.skip(0) =~= chars@);
    proof {
        crate::text::lemma_find_char(chars@, sep);
    }
    match find_from(chars.as_slice(), 0, sep) {
        Some(i) => {
            let n = chars.len();
            assert(i < n);
            let head = crate::text::copy_range(chars.as_slice(), 0, i);
            let tail = crate::text::copy_range(chars.as_slice(), i + 1, chars.len());
            assert(head@ =~= chars@.take(i as int));
            assert(tail@ =~= chars@.skip(i + 1));
            (head, Some(tail))
        },
        None => {
            let head = crate::text::copy_range(chars.as_slice(), 0, chars.len());
            assert(head@ =~= chars@);
            (head, None)
        },
    }
}

/// Converts character vectors to strings.
fn to_strings(parts: &Vec<Vec<char>>) -> (r: Vec<String>)
    ensures
        r@.len() == parts@.len(),
        forall|i: int| 0 <= i < r@.len() ==> #[trigger] r@[i]@ == parts@[i]@,
{
    let mut r: Vec<String> = Vec::new();
    let n = parts.len();
    for k in 0..n
        invariant
            n == parts@.len(),
            r@.len() == k,
            forall|i: int| 0 <= i < k ==> #[trigger] r@[i]@ == parts@[i]@,
    {
        let s = chars_to_string(&parts[k], 0, parts[k].len());
        assert(parts@[k as int]@.subrange(0, parts@[k as int]@.len() as int) =~= parts@[k as int]@);
        r.push(s);
    }
    r
}

/// Splits an argument into its name, groups, options and definition, e.g.
/// `simple.first,second:{"users"}[]` gives `simple`, `[first, second]`,
/// no options and `{"users"}[]`.
pub fn split_argument(value: &str) -> (r: (String, Vec<String>, Vec<String>, String))
    ensures
        ({
            let a = split_argument_spec(value@);
            &&& r.0@ == a.name
            &&& strings_view(r.1@) == a.groups
            &&& strings_view(r.2@) == a.options
            &&& r.3@ == a.definition
        }),
{
    let chars = collect_chars(value);
    let (head, definition) = split_first_exec(&chars, ':');
    let (name_group, options) = split_first_exec(&head, ',');
    let (name, group) = split_first_exec(&name_group, '.');
    let group_chars = match group {
        Some(g) => g,
        None => Vec::new(),
    };
    let groups = to_strings(&split_chars(group_chars.as_slice(), ','));
    let opts = match options {
        Some(o) => to_strings(&split_chars(o.as_slice(), ',')),
        None => Vec::new(),
    };
    let def = match &definition {
        Some(d) => chars_to_string(d, 0, d.len()),
        None => String::new(),
    };
    let name_s = chars_to_string(&name, 0, name.len());
    proof {
        let a = split_argument_spec(value@);
        assert(name@.subrange(0, name@.len() as int) =~= name@);
        assert(strings_view(groups@) =~= a.groups);
        assert(strings_view(opts@) =~= a.options);
        if let Some(d) = &definition {
            assert(d@.subrange(0, d@.len() as int) =~= d@);
        }
        assert(def@ =~= a.definition);
    }
    (name_s, groups, opts, def)
}

/// Checks that the argument is a positive number; the error tells why not.
pub fn usize_validator(input: &str) -> (r: Result<(), String>)
    ensures
        r is Ok <==> (parse_usize_spec(input@) matches Some(n) && n > 0),
        r matches Err(m) ==> m@ == (if parse_usize_spec(input@) is None {
            usize_error_text(input@)
        } else {
            "Buffer can't have 0 size"@
        }),
{
    let chars = collect_chars(input);
    match parse_usize(chars.as_slice()) {
        Some(n) => {
            if n == 0 {
                Err("Buffer can't have 0 size".to_string())
            } else {
                Ok(())
            }
        },
        None => Err(usize_error_message(chars.as_slice())),
    }
}

/// Names of the strategies.
pub open spec fn is_strategy_name(s: Seq<char>) -> bool {
    s == "all"@ || s == "extract"@ || s == "filter"@ || s == "convert"@ || s == "trigger"@
}

/// Handlers which fit the strategy.
pub open spec fn strategy_handlers(s: Seq<char>) -> Seq<Seq<char>> {
    if s == "all"@ {
        seq!["analyser"@, "indenter"@]
    } else if s == "convert"@ {
        seq!["file"@, "regex"@, "replace"@, "shorten"@, "unstringify"@]
    } else {
        seq!["file"@, "regex"@, "shorten"@, "unstringify"@]
    }
}

/// Compares a string with a literal.
fn str_is(s: &str, lit: &str) -> (r: bool)
    ensures
        r == (s@ == lit@),
{
    let a = s.to_string();
    let b = lit.to_string();
    a == b
}

/// Names of the handlers which can be used in the strategy.
pub fn handlers_for_strategy(strategy_name: &str) -> (r: Vec<&'static str>)
    requires
        is_strategy_name(strategy_name@),
    ensures
        r@.map_values(|s: &str| s@) == strategy_handlers(strategy_name@),
{
    let mut res: Vec<&'static str> = Vec::new();
    proof {
        reveal_strlit("all");
        reveal_strlit("convert");
        reveal_strlit("extract");
        reveal_strlit("filter");
        reveal_strlit("trigger");
    }
    if str_is(strategy_name, "all") {
        res.push("analyser");
        res.push("indenter");
    } else {
        res.push("file");
        res.push("regex");
        if str_is(strategy_name, "convert") {
            res.push("replace");
        }
        res.push("shorten");
        res.push("unstringify");
    }
    assert(res@.map_values(|s: &str| s@) =~= strategy_handlers(strategy_name@));
    res
}

/// Full name of a handler given by its name or alias.
pub open spec fn handler_name(s: Seq<char>) -> Seq<char> {
    if s == "a"@ || s == "analyser"@ {
        "analyser"@
    } else if s == "c"@ || s == "csv"@ {
        "csv"@
    } else if s == "f"@ || s == "file"@ {
        "file"@
    } else if s == "i"@ || s == "indenter"@ {
        "indenter"@
    } else if s == "x"@ || s == "regex"@ {
        "regex"@
    } else if s == "r"@ || s == "replace"@ {
        "replace"@
    } else if s == "s"@ || s == "shorten"@ {
        "shorten"@
    } else if s == "u"@ || s == "unstringify"@ {
        "unstringify"@
    } else {
        s
    }
}

/// Translates an alias of a handler to its name (other names are kept).
pub fn alias_to_handler_name(name_or_alias: &str) -> (r: String)
    ensures
        r@ == handler_name(name_or_alias@),
{
    proof {
        reveal_strlit("a");
        reveal_strlit("analyser");
        reveal_strlit("c");
        reveal_strlit("csv");
        reveal_strlit("f");
        reveal_strlit("file");
        reveal_strlit("i");
        reveal_strlit("indenter");
        reveal_strlit("x");
        reveal_strlit("regex");
        reveal_strlit("r");
        reveal_strlit("replace");
        reveal_strlit("s");
        reveal_strlit("shorten");
        reveal_strlit("u");
        reveal_strlit("unstringify");
    }
    let n = name_or_alias;
    if str_is(n, "a") || str_is(n, "analyser") {
        "analyser".to_string()
    } else if str_is(n, "c") || str_is(n, "csv") {
        "csv".to_string()
    } else if str_is(n, "f") || str_is(n, "file") {
        "file".to_string()
    } else if str_is(n, "i") || str_is(n, "indenter") {
        "indenter".to_string()
    } else if str_is(n, "x") || str_is(n, "regex") {
        "regex".to_string()
    } else if str_is(n, "r") || str_is(n, "replace") {
        "replace".to_string()
    } else if str_is(n, "s") || str_is(n, "shorten") {
        "shorten".to_string()
    } else if str_is(n, "u") || str_is(n, "unstringify") {
        "unstringify".to_string()
    } else {
        n.to_string()
    }
}

/// Text of the error for a handler which the strategy does not use.
pub open spec fn strategy_error_text(name: Seq<char>, strategy: Seq<char>) -> Seq<char> {
    "handler `"@ + name + "` can not be used in `"@ + strategy + "` strategy."@
}

/// Text of the error for a handler given a wrong number of options.
pub open spec fn options_error_text(n: nat) -> Seq<char> {
    "Wrong file handler options number "@ + decimal(n)
}

/// The error for a handler given `n` options, which it does not take.
fn options_error(n: usize) -> (e: error::Handler)
    ensures
        e.reason@ == options_error_text(n as nat),
{
    let mut msg = "Wrong file handler options number ".to_string();
    push_decimal(&mut msg, n);
    error::Handler { reason: msg }
}

/// The handler (or the error) made from a handler name, its definition and
/// its options.
pub open spec fn handler_made(
    name: Seq<char>,
    def: Seq<char>,
    options: Seq<Seq<char>>,
    r: Result<Handler, error::Handler>,
) -> bool {
    if name == "file"@ {
        if options.len() > 1 {
            r matches Err(e) && e.reason@ == options_error_text(options.len())
        } else if options.len() == 1 && parse_bool_spec(options[0]) is None {
            r matches Err(e) && e.reason@ == "provided string was not `true` or `false`"@
        } else {
            &&& r matches Ok(Handler::Output(o))
            &&& o.writes_path() == (options.len() == 1 && parse_bool_spec(options[0]) == Some(
                true,
            ))
            &&& o.separator() == "\n"@
            &&& o.written().len() == 0
        }
    } else if options.len() > 0 {
        r matches Err(e) && e.reason@ == options_error_text(options.len())
    } else if name == "analyser"@ {
        let group = if def.len() == 0 {
            Some(false)
        } else {
            parse_bool_spec(def)
        };
        match group {
            Some(b) => r matches Ok(Handler::Analyser(a)) && a.groups_types() == b
                && a.entries().len() == 0,
            None => r matches Err(e) && e.reason@ == "provided string was not `true` or `false`"@,
        }
    } else if name == "indenter"@ {
        if def.len() == 0 {
            r matches Ok(Handler::Indenter(h)) && h.spaces() is None && h.stack() is None
        } else {
            match parse_usize_spec(def) {
                Some(n) => r matches Ok(Handler::Indenter(h)) && h.spaces() == Some(n)
                    && h.stack() is None,
                None => r matches Err(e) && e.reason@ == usize_error_text(def),
            }
        }
    } else if name == "regex"@ {
        if crate::handler::regex::sed_command_parses(def) {
            r matches Ok(Handler::Regex(h)) && h.commands() == seq![def] && h.buffered().len()
                == 0
        } else {
            r matches Err(e) && crate::handler::regex::sed_command_outcome(def) == Some(e.reason@)
                && "Parsing error: "@.is_prefix_of(e.reason@)
        }
    } else if name == "replace"@ {
        r matches Ok(Handler::Replace(h)) && h.data() == vstd::utf8::encode_utf8(def)
    } else if name == "shorten"@ {
        let (len, term) = split_first(def, ',');
        match parse_usize_spec(len) {
            Some(n) => r matches Ok(Handler::Shorten(h)) && h.max_length() == n && h.used() == 0
                && !h.cut() && h.terminator() == vstd::utf8::encode_utf8(
                match term {
                    Some(t) => t,
                    None => Seq::empty(),
                },
            ),
            None => r matches Err(e) && e.reason@ == usize_error_text(len),
        }
    } else if name == "unstringify"@ {
        r matches Ok(Handler::Unstringify(h)) && h.state()
            == crate::handler::unstringify::State::Initial
    } else {
        r is Err
    }
}

/// The error texts of a handler which the strategy uses do not start as the
/// text for a handler which it does not use.
proof fn lemma_error_texts_differ()
    ensures
        forall|a: Seq<char>, b: Seq<char>|
            (#[trigger] strategy_error_text(a, b)).len() > 0 && strategy_error_text(a, b)[0] == 'h',
        forall|n: nat| (#[trigger] options_error_text(n)).len() > 0 && options_error_text(n)[0] == 'W',
        forall|s: Seq<char>| (#[trigger] usize_error_text(s)).len() > 0 && usize_error_text(s)[0] != 'h',
        "provided string was not `true` or `false`"@[0] == 'p',
        forall|m: Seq<char>| #[trigger] "Parsing error: "@.is_prefix_of(m) ==> m[0] == 'P',
{
    reveal_strlit("handler `");
    reveal_strlit("Wrong file handler options number ");
    reveal_strlit("provided string was not `true` or `false`");
    reveal_strlit("Parsing error: ");
    reveal_strlit("cannot parse integer from empty string");
    reveal_strlit("number too large to fit in target type");
    reveal_strlit("invalid digit found in string");
    assert forall|a: Seq<char>, b: Seq<char>|
        (#[trigger] strategy_error_text(a, b)).len() > 0 && strategy_error_text(a, b)[0] == 'h' by {
        assert(strategy_error_text(a, b)[0] == "handler `"@[0]);
    }
    assert forall|n: nat|
        (#[trigger] options_error_text(n)).len() > 0 && options_error_text(n)[0] == 'W' by {
        assert(options_error_text(n)[0] == "Wrong file handler options number "@[0]);
    }
    assert forall|m: Seq<char>| #[trigger] "Parsing error: "@.is_prefix_of(m) implies m[0] == 'P' by {
        assert(m[0] == "Parsing error: "@[0]);
    }
}

/// Creates a handler from its name (or alias), definition and options,
/// checking that it can be used in the strategy. For the file handler the
/// definition is the file name, which the program opens; the handler
/// prepares what is written there.
pub fn make_handler(
    handler_name_or_alias: &str,
    handler_string: &str,
    options: &Vec<String>,
    strategy_name: &str,
) -> (r: Result<Handler, error::Handler>)
    requires
        is_strategy_name(strategy_name@),
    ensures
        !strategy_handlers(strategy_name@).contains(handler_name(handler_name_or_alias@))
            ==> (r matches Err(e) && e.reason@ == strategy_error_text(
            handler_name_or_alias@,
            strategy_name@,
        )),
        strategy_handlers(strategy_name@).contains(handler_name(handler_name_or_alias@))
            ==> handler_made(
            handler_name(handler_name_or_alias@),
            handler_string@,
            options@.map_values(|o: String| o@),
            r,
        ),
        strategy_handlers(strategy_name@).contains(handler_name(handler_name_or_alias@))
            ==> !(r matches Err(e) && e.reason@ == strategy_error_text(
            handler_name_or_alias@,
            strategy_name@,
        )),
{
    proof {
        lemma_error_texts_differ();
    }
    let real_name = alias_to_handler_name(handler_name_or_alias);
    let allowed = handlers_for_strategy(strategy_name);
    let mut found = false;
    let n = allowed.len();
    for k in 0..n
        invariant
            n == allowed@.len(),
            allowed@.map_values(|s: &str| s@) == strategy_handlers(strategy_name@),
            found <==> exists|j: int| 0 <= j < k && allowed@[j]@ == real_name@,
    {
        if str_is(allowed[k], real_name.as_str()) {
            found = true;
        }
    }
    proof {
        let names = strategy_handlers(strategy_name@);
        if names.contains(real_name@) {
            let j = choose|j: int| 0 <= j < names.len() && names[j] == real_name@;
            assert(allowed@.map_values(|s: &str| s@)[j] == allowed@[j]@);
        }
        if found {
            let j = choose|j: int| 0 <= j < n && allowed@[j]@ == real_name@;
            assert(allowed@.map_values(|s: &str| s@)[j] == allowed@[j]@);
        }
    }
    if !found {
        let mut msg = "handler `".to_string();
        msg.append(handler_name_or_alias);
        msg.append("` can not be used in `");
        msg.append(strategy_name);
        msg.append("` strategy.");
        return Err(error::Handler { reason: msg });
    }
    proof {
        reveal_strlit("analyser");
        reveal_strlit("file");
        reveal_strlit("indenter");
        reveal_strlit("regex");
        reveal_strlit("replace");
        reveal_strlit("shorten");
        reveal_strlit("unstringify");
    }
    let name = real_name.as_str();
    if str_is(name, "file") {
        if options.len() > 1 {
            return Err(options_error(options.len()));
        }
        let mut handler = Output::new();
        if options.len() == 1 {
            assert(options@.map_values(|o: String| o@)[0] == options@[0]@);
            match parse_bool(options[0].as_str()) {
                Some(b) => {
                    handler = handler.set_write_path(b);
                },
                None => {
                    return Err(error::Handler::new("provided string was not `true` or `false`"));
                },
            }
        }
        return Ok(Handler::Output(handler));
    }
    if options.len() > 0 {
        return Err(options_error(options.len()));
    }
    if str_is(name, "analyser") {
        Ok(Handler::Analyser(Analyser::from_str(handler_string)?))
    } else if str_is(name, "indenter") {
        Ok(Handler::Indenter(Indenter::from_str(handler_string)?))
    } else if str_is(name, "regex") {
        Ok(Handler::Regex(Regex::from_str(handler_string)?))
    } else if str_is(name, "replace") {
        Ok(Handler::Replace(Replace::from_str(handler_string)?))
    } else if str_is(name, "shorten") {
        Ok(Handler::Shorten(Shorten::from_str(handler_string)?))
    } else if str_is(name, "unstringify") {
        Ok(Handler::Unstringify(Unstringify::from_str(handler_string)?))
    } else {
        Err(error::Handler::new("Unknown handler type"))
    }
}

/// Index of the first entry named `name`.
pub open spec fn group_index<T>(groups: Seq<(String, T)>, name: Seq<char>) -> Option<int> {
    if exists|i: int| 0 <= i < groups.len() && (#[trigger] groups[i]).0@ == name {
        Some(
            choose|i: int|
                0 <= i < groups.len() && (#[trigger] groups[i]).0@ == name && forall|j: int|
                    0 <= j < i ==> (#[trigger] groups[j]).0@ != name,
        )
    } else {
        None
    }
}

/// Finds the first entry named `name`.
fn find_group<T>(groups: &Vec<(String, T)>, name: &String) -> (r: Option<usize>)
    ensures
        match r {
            Some(i) => {
                &&& i < groups@.len()
                &&& groups@[i as int].0@ == name@
                &&& forall|j: int| 0 <= j < i ==> (#[trigger] groups@[j]).0@ != name@
            },
            None => forall|j: int| 0 <= j < groups@.len() ==> (#[trigger] groups@[j]).0@ != name@,
        },
{
    let n = groups.len();
    for i in 0..n
        invariant
            n == groups@.len(),
            forall|j: int| 0 <= j < i ==> (#[trigger] groups@[j]).0@ != name@,
    {
        if groups[i].0 == *name {
            return Some(i);
        }
    }
    None
}

/// The entry named `name` is the first one with that name.
proof fn lemma_group_index<T>(groups: Seq<(String, T)>, name: Seq<char>, i: int)
    requires
        0 <= i < groups.len(),
        groups[i].0@ == name,
        forall|j: int| 0 <= j < i ==> (#[trigger] groups[j]).0@ != name,
    ensures
        group_index(groups, name) == Some(i),
{
    let k = choose|k: int|
        0 <= k < groups.len() && (#[trigger] groups[k]).0@ == name && forall|j: int|
            0 <= j < k ==> (#[trigger] groups[j]).0@ != name;
    if k < i {
        assert(groups[k].0@ != name);
    }
    if i < k {
        assert(groups[i].0@ != name);
    }
}

/// Adds a matcher to its group: the matchers of a group are combined with
/// `|`, a new group is added at the end.
pub fn add_matcher_to_group(groups: &mut Vec<(String, Combinator)>, group: String, matcher: Combinator)
    ensures
        match group_index(old(groups)@, group@) {
            Some(p) => {
                &&& final(groups)@.len() == old(groups)@.len()
                &&& final(groups)@[p].0 == old(groups)@[p].0
                &&& final(groups)@[p].1 == Combinator::Or(
                    Box::new(old(groups)@[p].1),
                    Box::new(matcher),
                )
                &&& forall|j: int|
                    0 <= j < old(groups)@.len() && j != p ==> final(groups)@[j] == old(groups)@[j]
            },
            None => final(groups)@ == old(groups)@.push((group, matcher)),
        },
{
    match find_group(groups, &group) {
        Some(p) => {
            proof {
                lemma_group_index(groups@, group@, p as int);
            }
            let (name, current) = groups.remove(p);
            groups.insert(p, (name, current | matcher));
            proof {
                assert(groups@[p as int].1 == Combinator::Or(
                    Box::new(old(groups)@[p as int].1),
                    Box::new(matcher),
                ));
            }
        },
        None => {
            groups.push((group, matcher));
        },
    }
}

/// Adds a handler to its group (a new group is added at the end).
pub fn add_handler_to_group(groups: &mut Vec<(String, Vec<Handler>)>, group: String, handler: Handler)
    ensures
        match group_index(old(groups)@, group@) {
            Some(p) => {
                &&& final(groups)@.len() == old(groups)@.len()
                &&& final(groups)@[p].0 == old(groups)@[p].0
                &&& final(groups)@[p].1@ == old(groups)@[p].1@.push(handler)
                &&& forall|j: int|
                    0 <= j < old(groups)@.len() && j != p ==> final(groups)@[j] == old(groups)@[j]
            },
            None => final(groups)@.len() == old(groups)@.len() + 1 && final(groups)@.last().0
                == group && final(groups)@.last().1@ == seq![handler] && forall|j: int|
                0 <= j < old(groups)@.len() ==> final(groups)@[j] == old(groups)@[j],
        },
{
    match find_group(groups, &group) {
        Some(p) => {
            proof {
                lemma_group_index(groups@, group@, p as int);
            }
            let (name, mut handlers) = groups.remove(p);
            handlers.push(handler);
            groups.insert(p, (name, handlers));
        },
        None => {
            let mut handlers: Vec<Handler> = Vec::new();
            handlers.push(handler);
            groups.push((group, handlers));
        },
    }
}

/// Kind of a matcher given by its name or alias.
pub enum MatcherKind {
    Depth,
    Simple,
    Regex,
}

/// Kind of the matcher with the given name or alias.
pub open spec fn matcher_kind(s: Seq<char>) -> Option<MatcherKind> {
    if s == "d"@ || s == "depth"@ {
        Some(MatcherKind::Depth)
    } else if s == "s"@ || s == "simple"@ {
        Some(MatcherKind::Simple)
    } else if s == "x"@ || s == "regex"@ {
        Some(MatcherKind::Regex)
    } else {
        None
    }
}

/// The matcher (or the error) made from a matcher kind and its definition:
/// the combinator accepts exactly the paths which the parsed matcher accepts.
pub open spec fn matcher_made(
    name: Seq<char>,
    def: Seq<char>,
    r: Result<Combinator, error::Matcher>,
) -> bool {
    match matcher_kind(name) {
        None => r matches Err(error::Matcher::Parse(m)) && m@ == "Unknown type "@ + name,
        Some(MatcherKind::Depth) => match crate::matcher::depth::depth_parse(def) {
            Some((min, max)) => r matches Ok(c) && forall|p: Seq<SpecElement>, k: ParsedKind|
                #[trigger] c.matches_spec(p, k) == crate::matcher::depth::depth_in_bounds(
                    depth_of(p),
                    min,
                    max,
                ),
            None => r matches Err(error::Matcher::Parse(m)) && m@ == def,
        },
        Some(MatcherKind::Simple) => match crate::matcher::simple::simple_parse(def) {
            Some(els) => r matches Ok(c) && forall|p: Seq<SpecElement>, k: ParsedKind|
                #[trigger] c.matches_spec(p, k) == crate::matcher::simple::simple_match(
                    els,
                    strip_roots(p),
                ),
            None => r matches Err(error::Matcher::Parse(m)) && m@ == def,
        },
        Some(MatcherKind::Regex) => if crate::matcher::regex::regex_valid(def) {
            r matches Ok(c) && forall|p: Seq<SpecElement>, k: ParsedKind|
                #[trigger] c.matches_spec(p, k) == crate::matcher::regex::regex_match(
                    def,
                    render_path(p),
                )
        } else {
            r matches Err(error::Matcher::Parse(m)) && crate::matcher::regex::regex_error(def) == Some(
                m@,
            )
        },
    }
}

/// Creates a matcher of the given type (`depth`, `simple` or `regex`, or
/// their aliases `d`, `s`, `x`) from its definition.
pub fn make_matcher(matcher_name: &str, matcher_string: &str) -> (r: Result<Combinator, error::Matcher>)
    ensures
        matcher_made(matcher_name@, matcher_string@, r),
{
    proof {
        reveal_strlit("d");
        reveal_strlit("depth");
        reveal_strlit("s");
        reveal_strlit("simple");
        reveal_strlit("x");
        reveal_strlit("regex");
    }
    let n = matcher_name;
    if str_is(n, "d") || str_is(n, "depth") {
        match Depth::from_str(matcher_string) {
            Ok(m) => Ok(Combinator::new(m)),
            Err(e) => Err(e),
        }
    } else if str_is(n, "s") || str_is(n, "simple") {
        match Simple::from_str(matcher_string) {
            Ok(m) => Ok(Combinator::new(m)),
            Err(e) => Err(e),
        }
    } else if str_is(n, "x") || str_is(n, "regex") {
        let r = RegexMatcher::from_str(matcher_string);
        match r {
            Ok(m) => Ok(Combinator::new(m)),
            Err(e) => Err(e),
        }
    } else {
        let mut msg = "Unknown type ".to_string();
        msg.append(matcher_name);
        Err(error::Matcher::Parse(msg))
    }
}

/// Parses a boolean as `bool::from_str` does.
pub open spec fn parse_bool_spec(s: Seq<char>) -> Option<bool> {
    if s == "true"@ {
        Some(true)
    } else if s == "false"@ {
        Some(false)
    } else {
        None
    }
}

/// Parses a boolean (`true` or `false`).
pub fn parse_bool(s: &str) -> (r: Option<bool>)
    ensures
        r == parse_bool_spec(s@),
{
    proof {
        reveal_strlit("true");
        reveal_strlit("false");
    }
    if str_is(s, "true") {
        Some(true)
    } else if str_is(s, "false") {
        Some(false)
    } else {
        None
    }
}

/// Parses a boolean given by its characters.
pub fn parse_bool_chars(s: &Vec<char>) -> (r: Option<bool>)
    ensures
        r == parse_bool_spec(s@),
{
    let st = chars_to_string(s, 0, s.len());
    assert(s@.subrange(0, s@.len() as int) =~= s@);
    parse_bool(st.as_str())
}

/// Bytes of a string.
pub fn str_to_vec(input: &str) -> (r: Vec<u8>)
    ensures
        r@ == vstd::utf8::encode_utf8(input@),
{
    let mut r: Vec<u8> = Vec::new();
    r.extend_from_slice(input.as_bytes());
    r
}

} // verus!
