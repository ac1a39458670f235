//! Handler which converts matched data with sed-like regex commands,
//! e.g. `s/[Uu]ser([0-9]+)/user$1/`.

use crate::error;
use crate::path::Path;
use crate::streamer::{utf8_to_string, Token};
use vstd::prelude::*;

verus! {

/// What `sedregex::ReplaceCommand::new` reports for a command: `None` when
/// it accepts the command, else the text of its error.
pub uninterp spec fn sed_command_outcome(cmd: Seq<char>) -> Option<Seq<char>>;

/// Whether `sedregex::ReplaceCommand::new` accepts the command.
pub open spec fn sed_command_parses(cmd: Seq<char>) -> bool {
    sed_command_outcome(cmd) is None
}

/// The text which `sedregex::find_and_replace` produces.
pub uninterp spec fn sed_replaced(text: Seq<char>, commands: Seq<Seq<char>>) -> Seq<char>;

/// Views of a list of strings.
pub open spec fn strings_view(v: Seq<String>) -> Seq<Seq<char>> {
    v.map_values(|s: String| s@)
}

/// Whether every command parses.
pub open spec fn sed_commands_parse(commands: Seq<Seq<char>>) -> bool {
    forall|i: int| 0 <= i < commands.len() ==> sed_command_parses(#[trigger] commands[i])
}

/// Parses the command with `sedregex::ReplaceCommand::new`: `None` when it
/// was accepted, else the text of the error (which the crate's `Display`
/// always starts with `Parsing error: `).
#[verifier::external_body]
fn sed_command_check(cmd: &str) -> (r: Option<String>)
    ensures
        match r {
            None => sed_command_outcome(cmd@) is None,
            Some(m) => sed_command_outcome(cmd@) == Some(m@) && "Parsing error: "@.is_prefix_of(m@),
        },
{
    sedregex::ReplaceCommand::new(cmd).err().map(|e| e.to_string())
}

/// Whether the command at `i` is the first one which does not parse.
pub open spec fn first_bad_command(commands: Seq<Seq<char>>, i: int) -> bool {
    &&& 0 <= i < commands.len()
    &&& !sed_command_parses(commands[i])
    &&& forall|j: int| 0 <= j < i ==> sed_command_parses(#[trigger] commands[j])
}

/// Runs `sedregex::find_and_replace`, which applies the commands one after
/// another; it fails exactly when one of the commands does not parse
/// (`ReplaceCommand::new` is applied to each command in turn, the
/// replacement itself can not fail), with the error of the first such one.
#[verifier::external_body]
fn sed_find_and_replace(text: &str, commands: &Vec<String>) -> (r: Result<String, String>)
    ensures
        r is Ok <==> sed_commands_parse(strings_view(commands@)),
        r matches Ok(s) ==> s@ == sed_replaced(text@, strings_view(commands@)),
        r matches Err(m) ==> exists|i: int|
            first_bad_command(strings_view(commands@), i) && sed_command_outcome(
                #[trigger] strings_view(commands@)[i],
            ) == Some(m@),
{
    match sedregex::find_and_replace(text, commands.iter()) {
        Ok(c) => Ok(c.to_string()),
        Err(e) => Err(e.to_string()),
    }
}

/// Converts data using sed-like regex commands.
pub struct Regex {
    replacements: Vec<String>,
    buffer: Vec<u8>,
}

impl Regex {
    /// The commands, applied in this order.
    pub closed spec fn commands(&self) -> Seq<Seq<char>> {
        strings_view(self.replacements@)
    }

    /// Data of the current match collected so far.
    pub closed spec fn buffered(&self) -> Seq<u8> {
        self.buffer@
    }

    /// Creates a new regex converter with no command.
    pub fn new() -> (r: Self)
        ensures
            r.commands().len() == 0,
            r.buffered().len() == 0,
    {
        let r = Regex { replacements: Vec::new(), buffer: Vec::new() };
        assert(r.commands() =~= Seq::empty());
        r
    }

    /// Adds a sed command which will be applied (after the previous ones).
    pub fn add_regex(self, sedregex: String) -> (r: Self)
        ensures
            r.commands() == self.commands().push(sedregex@),
            r.buffered() == self.buffered(),
    {
        let mut replacements = self.replacements;
        let ghost old_r = replacements@;
        replacements.push(sedregex);
        assert(strings_view(replacements@) =~= strings_view(old_r).push(sedregex@));
        Regex { replacements, buffer: self.buffer }
    }

    /// Creates the converter with a single command, which has to parse.
    pub fn from_str(input: &str) -> (r: Result<Self, error::Handler>)
        ensures
            r is Ok <==> sed_command_parses(input@),
            r matches Ok(h) ==> h.commands() == seq![input@] && h.buffered().len() == 0,
            r matches Err(e) ==> sed_command_outcome(input@) == Some(e.reason@) && "Parsing error: "@.is_prefix_of(
                e.reason@,
            ),
    {
        if let Some(msg) = sed_command_check(input) {
            return Err(error::Handler { reason: msg });
        }
        let r = Regex::new().add_regex(input.to_string());
        assert(r.commands() =~= seq![input@]);
        Ok(r)
    }

    /// Nothing happens when a match starts.
    pub fn start(&mut self, _path: &Path, _matcher_idx: usize, _token: Token) -> (r: Result<
        Option<Vec<u8>>,
        error::Handler,
    >)
        ensures
            r == Ok::<Option<Vec<u8>>, error::Handler>(None),
            final(self).commands() == old(self).commands(),
            final(self).buffered() == old(self).buffered(),
    {
        Ok(None)
    }

    /// Matched data are collected.
    pub fn feed(&mut self, data: &[u8], _matcher_idx: usize) -> (r: Result<
        Option<Vec<u8>>,
        error::Handler,
    >)
        ensures
            r == Ok::<Option<Vec<u8>>, error::Handler>(None),
            final(self).commands() == old(self).commands(),
            final(self).buffered() == old(self).buffered() + data@,
    {
        self.buffer.extend_from_slice(data);
        Ok(None)
    }

    /// The collected data are converted and emitted.
    pub fn end(&mut self, _path: &Path, _matcher_idx: usize, _token: Token) -> (r: Result<
        Option<Vec<u8>>,
        error::Handler,
    >)
        ensures
            final(self).commands() == old(self).commands(),
            r is Ok <==> vstd::utf8::valid_utf8(old(self).buffered()) && sed_commands_parse(
                old(self).commands(),
            ),
            r is Ok ==> final(self).buffered().len() == 0,
            r is Ok ==> (r matches Ok(Some(d)) && d@ == vstd::utf8::encode_utf8(
                sed_replaced(vstd::utf8::decode_utf8(old(self).buffered()), old(self).commands()),
            )),
            r is Err ==> final(self).buffered() == old(self).buffered(),
            r matches Err(e) ==> (!vstd::utf8::valid_utf8(old(self).buffered()) ==> e.reason@
                == crate::streamer::utf8_error_text(old(self).buffered())),
            r matches Err(e) ==> (vstd::utf8::valid_utf8(old(self).buffered()) ==> exists|i: int|
                first_bad_command(old(self).commands(), i) && sed_command_outcome(
                    #[trigger] old(self).commands()[i],
                ) == Some(e.reason@)),
    {
        let text = match utf8_to_string(self.buffer.as_slice()) {
            Ok(t) => t,
            Err(m) => {
                return Err(error::Handler { reason: m });
            },
        };
        let replaced = match sed_find_and_replace(text.as_str(), &self.replacements) {
            Ok(s) => s,
            Err(m) => {
                return Err(error::Handler { reason: m });
            },
        };
        self.buffer.clear();
        let mut out: Vec<u8> = Vec::new();
        out.extend_from_slice(replaced.as_str().as_bytes());
        Ok(Some(out))
    }
}

} // verus!
