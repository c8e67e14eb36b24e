//! Reading the command line: the subcommands, the `rm`-style options, and
//! the `--sure` bypass to the system `rm`/`unlink`.
//!
//! Arguments are byte strings, as the operating system hands them over; an
//! argument has a text only when its bytes are valid UTF-8.
use vstd::prelude::*;
use vstd::string::*;
use vstd::utf8::*;

use crate::path::{file_name, file_name_spec};
use crate::text::{chars_of, push_str, starts_with_lit, string_of, EnvValue};

verus! {

broadcast use {encode_utf8_decode_utf8, decode_utf8_encode_utf8};

// ---------------------------------------------------------------------------
// Arguments
// ---------------------------------------------------------------------------

/// The text of an argument: its characters when its bytes are valid UTF-8.
pub open spec fn text_of(arg: Seq<u8>) -> Option<Seq<char>> {
    if valid_utf8(arg) {
        Some(decode_utf8(arg))
    } else {
        None
    }
}

/// Whether an argument is exactly the text `lit`.
pub open spec fn arg_is(arg: Seq<u8>, lit: Seq<char>) -> bool {
    text_of(arg) == Some(lit)
}

/// The contents of a list of arguments.
pub open spec fn args_view(v: Seq<Vec<u8>>) -> Seq<Seq<u8>> {
    v.map_values(|a: Vec<u8>| a@)
}

/// The contents of a list of strings.
pub open spec fn strings_view(v: Seq<String>) -> Seq<Seq<char>> {
    v.map_values(|s: String| s@)
}

/// Decodes UTF-8 bytes.
///
/// Calls `std::str::from_utf8`, which std documents as succeeding exactly on
/// valid UTF-8; the contract says that, and that the text is what the bytes
/// encode (both as vstd's UTF-8 definitions state them).
#[verifier::external_body]
fn utf8_text(bytes: &[u8]) -> (r: Option<String>)
    ensures
        r is Some <==> valid_utf8(bytes@),
        r matches Some(s) ==> s@ == decode_utf8(bytes@),
{
    std::str::from_utf8(bytes).ok().map(|s| s.to_string())
}

/// The characters of an argument, when it is valid UTF-8.
pub fn arg_chars(arg: &[u8]) -> (r: Option<Vec<char>>)
    ensures
        match r {
            Some(v) => text_of(arg@) == Some(v@),
            None => text_of(arg@) is None,
        },
{
    match utf8_text(arg) {
        Some(s) => Some(chars_of(s.as_str())),
        None => None,
    }
}

/// The bytes of a text.
pub fn text_bytes(cs: &[char]) -> (r: Vec<u8>)
    ensures
        r@ == encode_utf8(cs@),
        text_of(r@) == Some(cs@),
{
    let s = string_of(cs);
    let b = s.as_str().as_bytes();
    let mut out: Vec<u8> = Vec::new();
    let mut i: usize = 0;
    while i < b.len()
        invariant
            i <= b@.len(),
            out@ == b@.subrange(0, i as int),
        decreases b@.len() - i,
    {
        out.push(b[i]);
        i = i + 1;
    }
    assert(out@ =~= b@);
    proof {
        encode_utf8_valid_utf8(cs@);
    }
    out
}

/// Whether an argument is exactly the text `lit`.
pub fn arg_equals(arg: &[u8], lit: &str) -> (r: bool)
    ensures
        r == arg_is(arg@, lit@),
{
    match arg_chars(arg) {
        Some(cs) => crate::text::chars_are(cs.as_slice(), lit),
        None => false,
    }
}

/// A copy of an argument.
pub fn copy_arg(arg: &[u8]) -> (r: Vec<u8>)
    ensures
        r@ == arg@,
{
    let mut out: Vec<u8> = Vec::new();
    let mut i: usize = 0;
    while i < arg.len()
        invariant
            i <= arg@.len(),
            out@ == arg@.subrange(0, i as int),
        decreases arg@.len() - i,
    {
        out.push(arg[i]);
        i = i + 1;
    }
    assert(out@ =~= arg@);
    out
}

/// Whether a text is a bundle of short options holding `s`: it starts with a
/// single `-` (not `--`) and contains an `s`.
pub open spec fn is_short_sure(t: Seq<char>) -> bool {
    t.len() > 0 && t[0] == '-' && !(t.len() > 1 && t[1] == '-') && t.contains('s')
}

fn short_sure(cs: &[char]) -> (r: bool)
    ensures
        r == is_short_sure(cs@),
{
    cs.len() > 0 && cs[0] == '-' && !(cs.len() > 1 && cs[1] == '-')
        && crate::text::contains_char(cs, 's')
}

// ---------------------------------------------------------------------------
// Modes
// ---------------------------------------------------------------------------

/// How prompting is chosen.
#[derive(Clone, Copy, Debug, PartialEq, Eq, Structural)]
pub enum RequestedMode {
    /// Prompt when both stdin and stderr are terminals.
    Auto,
    /// Prompt once for riskier operations.
    Interactive,
    /// Never prompt beyond what the options ask for.
    Batch,
}

impl Default for RequestedMode {
    fn default() -> (r: Self)
        ensures
            r == RequestedMode::Auto,
    {
        RequestedMode::Auto
    }
}

/// The suffix of the message for an unknown mode.
pub open spec fn mode_expectation() -> Seq<char> {
    " (expected auto, interactive, or batch)"@
}

/// The mode a text names, or the message for an unknown one.
pub open spec fn parse_mode_spec(value: Seq<char>) -> Result<RequestedMode, Seq<char>> {
    if value == "auto"@ {
        Ok(RequestedMode::Auto)
    } else if value == "interactive"@ {
        Ok(RequestedMode::Interactive)
    } else if value == "batch"@ {
        Ok(RequestedMode::Batch)
    } else {
        Err("invalid mode: "@ + value + mode_expectation())
    }
}

/// The mode that `SURE_RM_MODE` asks for: `auto` when unset.
pub open spec fn mode_from_env_spec(value: EnvValue) -> Result<RequestedMode, Seq<char>> {
    match value {
        EnvValue::Unset => Ok(RequestedMode::Auto),
        EnvValue::NotUnicode => Err("invalid SURE_RM_MODE: value must be valid UTF-8"@),
        EnvValue::Text(t) => match parse_mode_spec(t@) {
            Ok(m) => Ok(m),
            Err(_) => Err("invalid SURE_RM_MODE: "@ + t@ + mode_expectation()),
        },
    }
}

/// A result whose error is a string, by its contents.
pub open spec fn str_err<T>(r: Result<T, String>) -> Result<T, Seq<char>> {
    match r {
        Ok(v) => Ok(v),
        Err(e) => Err(e@),
    }
}

impl RequestedMode {
    /// The mode named by `cs`.
    pub fn parse_chars(cs: &[char]) -> (r: Result<Self, String>)
        ensures
            str_err(r) == parse_mode_spec(cs@),
    {
        if crate::text::chars_are(cs, "auto") {
            Ok(RequestedMode::Auto)
        } else if crate::text::chars_are(cs, "interactive") {
            Ok(RequestedMode::Interactive)
        } else if crate::text::chars_are(cs, "batch") {
            Ok(RequestedMode::Batch)
        } else {
            let mut m = String::from_str("invalid mode: ");
            m.append(string_of(cs).as_str());
            m.append(" (expected auto, interactive, or batch)");
            Err(m)
        }
    }

    /// The mode named by `value`: `auto`, `interactive` or `batch`.
    pub fn parse(value: &str) -> (r: Result<Self, String>)
        ensures
            str_err(r) == parse_mode_spec(value@),
    {
        let cs = chars_of(value);
        Self::parse_chars(cs.as_slice())
    }

    /// The mode that the `SURE_RM_MODE` variable asks for.
    pub fn from_env(value: &EnvValue) -> (r: Result<Self, String>)
        ensures
            str_err(r) == mode_from_env_spec(*value),
    {
        match value {
            EnvValue::Unset => Ok(RequestedMode::Auto),
            EnvValue::NotUnicode => Err(
                String::from_str("invalid SURE_RM_MODE: value must be valid UTF-8"),
            ),
            EnvValue::Text(t) => match Self::parse(t.as_str()) {
                Ok(m) => Ok(m),
                Err(_) => {
                    let mut m = String::from_str("invalid SURE_RM_MODE: ");
                    m.append(t.as_str());
                    m.append(" (expected auto, interactive, or batch)");
                    Err(m)
                },
            },
        }
    }
}

// ---------------------------------------------------------------------------
// The --sure bypass
// ---------------------------------------------------------------------------

/// Whether `args[i..]` asks for the bypass: `--sure`, or a short-option
/// bundle holding `s`, before any `--`.
pub open spec fn sure_from(args: Seq<Seq<u8>>, i: int) -> bool
    decreases args.len() - i,
{
    if i < 0 || i >= args.len() {
        false
    } else if arg_is(args[i], "--"@) {
        false
    } else if arg_is(args[i], "--sure"@) {
        true
    } else if is_short_sure_arg(args[i]) {
        true
    } else {
        sure_from(args, i + 1)
    }
}

/// Whether the arguments ask for the bypass to the system command.
pub fn has_sure_flag(args: &[Vec<u8>]) -> (r: bool)
    ensures
        r == sure_from(args_view(args@), 0),
{
    let ghost a = args_view(args@);
    let mut i: usize = 0;
    while i < args.len()
        invariant
            a == args_view(args@),
            i <= args@.len(),
            sure_from(a, 0) == sure_from(a, i as int),
        decreases args@.len() - i,
    {
        assert(a[i as int] == args@[i as int]@);
        if arg_equals(args[i].as_slice(), "--") {
            return false;
        }
        if arg_equals(args[i].as_slice(), "--sure") {
            return true;
        }
        match arg_chars(args[i].as_slice()) {
            Some(cs) => {
                if short_sure(cs.as_slice()) {
                    return true;
                }
            },
            None => {},
        }
        i = i + 1;
    }
    false
}

/// The characters of `t` other than `s`.
pub open spec fn without_s(t: Seq<char>) -> Seq<char>
    decreases t.len(),
{
    if t.len() == 0 {
        t
    } else if t.last() == 's' {
        without_s(t.drop_last())
    } else {
        without_s(t.drop_last()).push(t.last())
    }
}

/// Whether an argument's text starts with `--mode=`.
pub open spec fn is_mode_assignment(arg: Seq<u8>) -> bool {
    text_of(arg) is Some && text_of(arg)->0.len() >= 7 && text_of(arg)->0.take(7) == "--mode="@
}

/// Whether an argument is a short-option bundle holding `s`.
pub open spec fn is_short_sure_arg(arg: Seq<u8>) -> bool {
    text_of(arg) is Some && is_short_sure(text_of(arg)->0)
}

/// What is handed to the system command for `args[i..]`: sure-rm's own
/// options (`--sure`, `--mode` with its value, `--mode=...`, and `s` in a
/// short-option bundle) are dropped until `--`; after it everything is kept.
pub open spec fn passthrough_from(args: Seq<Seq<u8>>, i: int, parsing: bool, skip: bool) -> Seq<
    Seq<u8>,
>
    decreases args.len() - i,
{
    if i < 0 || i >= args.len() {
        seq![]
    } else if skip {
        passthrough_from(args, i + 1, parsing, false)
    } else if parsing && arg_is(args[i], "--sure"@) {
        passthrough_from(args, i + 1, parsing, false)
    } else if parsing && arg_is(args[i], "--"@) {
        seq![args[i]] + passthrough_from(args, i + 1, false, false)
    } else if parsing && arg_is(args[i], "--mode"@) {
        passthrough_from(args, i + 1, parsing, true)
    } else if parsing && is_mode_assignment(args[i]) {
        passthrough_from(args, i + 1, parsing, false)
    } else if parsing && is_short_sure_arg(args[i]) {
        let rest = without_s(text_of(args[i])->0.drop_first());
        if rest.len() > 0 {
            seq![encode_utf8(seq!['-'] + rest)] + passthrough_from(args, i + 1, parsing, false)
        } else {
            passthrough_from(args, i + 1, parsing, false)
        }
    } else {
        seq![args[i]] + passthrough_from(args, i + 1, parsing, false)
    }
}

/// `-` followed by the characters of `cs[1..]` other than `s`.
fn dash_without_s(cs: &[char]) -> (r: Vec<char>)
    requires
        cs@.len() > 0,
    ensures
        r@ == seq!['-'] + without_s(cs@.drop_first()),
{
    let mut out: Vec<char> = Vec::new();
    out.push('-');
    let mut i: usize = 1;
    let ghost t = cs@.drop_first();
    while i < cs.len()
        invariant
            1 <= i <= cs@.len(),
            t == cs@.drop_first(),
            out@ == seq!['-'] + without_s(t.subrange(0, i - 1)),
        decreases cs@.len() - i,
    {
        let ghost before = t.subrange(0, i - 1);
        assert(t.subrange(0, i as int) =~= before.push(cs@[i as int]));
        assert(before.push(cs@[i as int]).drop_last() =~= before);
        if cs[i] != 's' {
            out.push(cs[i]);
        }
        i = i + 1;
    }
    assert(t.subrange(0, cs@.len() - 1) =~= t);
    out
}

/// The arguments to hand to the system command: sure-rm's own options
/// removed before `--`, everything after it kept as it is.
pub fn filter_passthrough_args(args: &[Vec<u8>]) -> (r: Vec<Vec<u8>>)
    ensures
        args_view(r@) == passthrough_from(args_view(args@), 0, true, false),
{
    let ghost a = args_view(args@);
    let mut out: Vec<Vec<u8>> = Vec::new();
    let mut parsing = true;
    let mut skip = false;
    let mut i: usize = 0;
    while i < args.len()
        invariant
            a == args_view(args@),
            i <= args@.len(),
            passthrough_from(a, 0, true, false) == args_view(out@) + passthrough_from(
                a,
                i as int,
                parsing,
                skip,
            ),
        decreases args@.len() - i,
    {
        let ghost before = args_view(out@);
        let arg = args[i].as_slice();
        assert(a[i as int] == arg@);
        if skip {
            skip = false;
        } else if parsing && arg_equals(arg, "--sure") {
        } else if parsing && arg_equals(arg, "--") {
            parsing = false;
            out.push(copy_arg(arg));
            assert(args_view(out@) =~= before + seq![a[i as int]]);
        } else if parsing && arg_equals(arg, "--mode") {
            skip = true;
        } else {
            let text = if parsing { arg_chars(arg) } else { None };
            let mut kept = true;
            match text {
                Some(cs) => {
                    if starts_with_lit(cs.as_slice(), "--mode=") {
                        kept = false;
                    } else if short_sure(cs.as_slice()) {
                        kept = false;
                        let rest = dash_without_s(cs.as_slice());
                        if rest.len() > 1 {
                            out.push(text_bytes(rest.as_slice()));
                            assert(args_view(out@) =~= before + seq![
                                encode_utf8(seq!['-'] + without_s(cs@.drop_first())),
                            ]);
                        }
                    }
                },
                None => {},
            }
            if kept {
                out.push(copy_arg(arg));
                assert(args_view(out@) =~= before + seq![a[i as int]]);
            }
        }
        proof {
            reveal_strlit("--mode=");
        }
        i = i + 1;
    }
    assert(args_view(out@) + Seq::<Seq<u8>>::empty() =~= args_view(out@));
    out
}

// ---------------------------------------------------------------------------
// Commands
// ---------------------------------------------------------------------------

/// Which help text to show.
#[derive(Clone, Copy, Debug, PartialEq, Eq, Structural)]
pub enum HelpTopic {
    General,
    List,
    Restore,
    Purge,
    Unlink,
}

/// The options of a delete (the default command).
#[derive(Debug)]
pub struct DeleteOptions {
    pub allow_dir: bool,
    pub force: bool,
    pub interactive_each: bool,
    pub interactive_once: bool,
    pub mode: RequestedMode,
    pub one_file_system: bool,
    pub permanent: bool,
    pub recursive: bool,
    pub verbose: bool,
    pub paths: Vec<Vec<u8>>,
}

/// The contents of [`DeleteOptions`].
pub struct DeleteView {
    pub allow_dir: bool,
    pub force: bool,
    pub interactive_each: bool,
    pub interactive_once: bool,
    pub mode: RequestedMode,
    pub one_file_system: bool,
    pub permanent: bool,
    pub recursive: bool,
    pub verbose: bool,
    pub paths: Seq<Seq<u8>>,
}

impl View for DeleteOptions {
    type V = DeleteView;

    open spec fn view(&self) -> DeleteView {
        DeleteView {
            allow_dir: self.allow_dir,
            force: self.force,
            interactive_each: self.interactive_each,
            interactive_once: self.interactive_once,
            mode: self.mode,
            one_file_system: self.one_file_system,
            permanent: self.permanent,
            recursive: self.recursive,
            verbose: self.verbose,
            paths: args_view(self.paths@),
        }
    }
}

/// Delete options with nothing set, in the given mode.
pub open spec fn delete_defaults(mode: RequestedMode) -> DeleteView {
    DeleteView {
        allow_dir: false,
        force: false,
        interactive_each: false,
        interactive_once: false,
        mode: mode,
        one_file_system: false,
        permanent: false,
        recursive: false,
        verbose: false,
        paths: seq![],
    }
}

impl Default for DeleteOptions {
    fn default() -> (r: Self)
        ensures
            r@ == delete_defaults(RequestedMode::Auto),
    {
        let r = DeleteOptions {
            allow_dir: false,
            force: false,
            interactive_each: false,
            interactive_once: false,
            mode: RequestedMode::Auto,
            one_file_system: false,
            permanent: false,
            recursive: false,
            verbose: false,
            paths: Vec::new(),
        };
        assert(args_view(r.paths@) =~= Seq::<Seq<u8>>::empty());
        r
    }
}

/// The options of `restore`.
#[derive(Debug)]
pub struct RestoreOptions {
    pub query: String,
    pub destination: Option<Vec<u8>>,
}

/// The options of `purge`.
#[derive(Debug)]
pub struct PurgeOptions {
    pub all: bool,
    pub queries: Vec<String>,
}

impl Default for PurgeOptions {
    fn default() -> (r: Self)
        ensures
            !r.all,
            r.queries@.len() == 0,
    {
        PurgeOptions { all: false, queries: Vec::new() }
    }
}

/// The options of `unlink`.
#[derive(Debug)]
pub struct UnlinkOptions {
    pub path: Vec<u8>,
}

/// What the command line asks for.
#[derive(Debug)]
pub enum Command {
    Delete(DeleteOptions),
    List,
    Restore(RestoreOptions),
    Purge(PurgeOptions),
    Unlink(UnlinkOptions),
    Help(HelpTopic),
    Version,
}

/// The contents of a [`Command`].
pub enum CommandView {
    Delete(DeleteView),
    List,
    Restore { query: Seq<char>, destination: Option<Seq<u8>> },
    Purge { all: bool, queries: Seq<Seq<char>> },
    Unlink { path: Seq<u8> },
    Help(HelpTopic),
    Version,
}

impl View for Command {
    type V = CommandView;

    open spec fn view(&self) -> CommandView {
        match self {
            Command::Delete(o) => CommandView::Delete(o@),
            Command::List => CommandView::List,
            Command::Restore(o) => CommandView::Restore {
                query: o.query@,
                destination: crate::store::opt_bytes(o.destination),
            },
            Command::Purge(o) => CommandView::Purge {
                all: o.all,
                queries: strings_view(o.queries@),
            },
            Command::Unlink(o) => CommandView::Unlink { path: o.path@ },
            Command::Help(t) => CommandView::Help(*t),
            Command::Version => CommandView::Version,
        }
    }
}

/// A parse result, by its contents.
pub open spec fn command_result(r: Result<Command, String>) -> Result<CommandView, Seq<char>> {
    match r {
        Ok(c) => Ok(c@),
        Err(e) => Err(e@),
    }
}

/// A string holding `lit`.
fn message(lit: &str) -> (r: String)
    ensures
        r@ == lit@,
{
    String::from_str(lit)
}

/// A string holding `lit` followed by `cs`.
fn message_with(lit: &str, cs: &[char]) -> (r: String)
    ensures
        r@ == lit@ + cs@,
{
    let mut m = String::from_str(lit);
    m.append(string_of(cs).as_str());
    m
}

// ---------------------------------------------------------------------------
// list, restore, purge, unlink
// ---------------------------------------------------------------------------

/// Whether an argument asks for help (`-h` or `--help`).
pub open spec fn is_help_arg(arg: Seq<u8>) -> bool {
    arg_is(arg, "-h"@) || arg_is(arg, "--help"@)
}

/// How `list` reads its arguments: help, or nothing at all.
pub open spec fn list_spec(args: Seq<Seq<u8>>) -> Result<CommandView, Seq<char>> {
    if args.len() == 0 {
        Ok(CommandView::List)
    } else if is_help_arg(args[0]) {
        Ok(CommandView::Help(HelpTopic::List))
    } else {
        Err("list does not accept positional arguments"@)
    }
}

/// Reads the arguments of `list`.
pub fn parse_list(args: Vec<Vec<u8>>) -> (r: Result<Command, String>)
    ensures
        command_result(r) == list_spec(args_view(args@)),
{
    if args.len() > 0 {
        assert(args_view(args@)[0] == args@[0]@);
        if arg_equals(args[0].as_slice(), "-h") || arg_equals(args[0].as_slice(), "--help") {
            return Ok(Command::Help(HelpTopic::List));
        }
        return Err(message("list does not accept positional arguments"));
    }
    Ok(Command::List)
}

/// How `restore` reads `args[i..]`, with the query and destination so far.
pub open spec fn restore_from(
    query: Option<Seq<char>>,
    dest: Option<Seq<u8>>,
    args: Seq<Seq<u8>>,
    i: int,
) -> Result<CommandView, Seq<char>>
    decreases args.len() - i,
{
    if i < 0 || i >= args.len() {
        match query {
            None => Err("restore requires an id or path"@),
            Some(q) => Ok(CommandView::Restore { query: q, destination: dest }),
        }
    } else {
        match text_of(args[i]) {
            None => Err("restore arguments must be valid UTF-8"@),
            Some(t) => if t == "--to"@ {
                if i + 1 >= args.len() {
                    Err("restore requires a path after --to"@)
                } else {
                    restore_from(query, Some(args[i + 1]), args, i + 2)
                }
            } else if t == "--help"@ || t == "-h"@ {
                Ok(CommandView::Help(HelpTopic::Restore))
            } else if t.len() > 0 && t[0] == '-' {
                Err("unknown restore option: "@ + t)
            } else if query is Some {
                Err("restore accepts exactly one id or path"@)
            } else {
                restore_from(Some(t), dest, args, i + 1)
            },
        }
    }
}

/// Reads the arguments of `restore`: one id or path, and `--to <PATH>`.
pub fn parse_restore(args: Vec<Vec<u8>>) -> (r: Result<Command, String>)
    ensures
        command_result(r) == restore_from(None, None, args_view(args@), 0),
{
    let ghost a = args_view(args@);
    let mut query: Option<String> = None;
    let mut destination: Option<Vec<u8>> = None;
    let mut i: usize = 0;
    while i < args.len()
        invariant
            a == args_view(args@),
            i <= args@.len(),
            restore_from(None, None, a, 0) == restore_from(
                match query {
                    Some(q) => Some(q@),
                    None => None,
                },
                crate::store::opt_bytes(destination),
                a,
                i as int,
            ),
        decreases args@.len() - i,
    {
        assert(a[i as int] == args@[i as int]@);
        let cs = match arg_chars(args[i].as_slice()) {
            Some(cs) => cs,
            None => {
                return Err(message("restore arguments must be valid UTF-8"));
            },
        };
        if crate::text::chars_are(cs.as_slice(), "--to") {
            if i + 1 >= args.len() {
                return Err(message("restore requires a path after --to"));
            }
            assert(a[i + 1] == args@[i + 1]@);
            destination = Some(copy_arg(args[i + 1].as_slice()));
            i = i + 2;
        } else if crate::text::chars_are(cs.as_slice(), "--help") || crate::text::chars_are(
            cs.as_slice(),
            "-h",
        ) {
            return Ok(Command::Help(HelpTopic::Restore));
        } else if cs.len() > 0 && cs[0] == '-' {
            return Err(message_with("unknown restore option: ", cs.as_slice()));
        } else {
            if query.is_some() {
                return Err(message("restore accepts exactly one id or path"));
            }
            query = Some(string_of(cs.as_slice()));
            i = i + 1;
        }
    }
    match query {
        None => Err(message("restore requires an id or path")),
        Some(q) => Ok(Command::Restore(RestoreOptions { query: q, destination })),
    }
}

/// How `purge` reads `args[i..]`, with what it has read so far.
pub open spec fn purge_from(all: bool, queries: Seq<Seq<char>>, args: Seq<Seq<u8>>, i: int) -> Result<
    CommandView,
    Seq<char>,
>
    decreases args.len() - i,
{
    if i < 0 || i >= args.len() {
        Ok(CommandView::Purge { all: all, queries: queries })
    } else {
        match text_of(args[i]) {
            None => Err("purge arguments must be valid UTF-8"@),
            Some(t) => if t == "--all"@ {
                purge_from(true, queries, args, i + 1)
            } else if t == "--help"@ || t == "-h"@ {
                Ok(CommandView::Help(HelpTopic::Purge))
            } else if t.len() > 0 && t[0] == '-' {
                Err("unknown purge option: "@ + t)
            } else {
                purge_from(all, queries.push(t), args, i + 1)
            },
        }
    }
}

/// Reads the arguments of `purge`: `--all` and ids or paths.
pub fn parse_purge(args: Vec<Vec<u8>>) -> (r: Result<Command, String>)
    ensures
        command_result(r) == purge_from(false, seq![], args_view(args@), 0),
{
    let ghost a = args_view(args@);
    let mut options = PurgeOptions::default();
    assert(strings_view(options.queries@) =~= Seq::<Seq<char>>::empty());
    let mut i: usize = 0;
    while i < args.len()
        invariant
            a == args_view(args@),
            i <= args@.len(),
            purge_from(false, seq![], a, 0) == purge_from(
                options.all,
                strings_view(options.queries@),
                a,
                i as int,
            ),
        decreases args@.len() - i,
    {
        assert(a[i as int] == args@[i as int]@);
        let cs = match arg_chars(args[i].as_slice()) {
            Some(cs) => cs,
            None => {
                return Err(message("purge arguments must be valid UTF-8"));
            },
        };
        if crate::text::chars_are(cs.as_slice(), "--all") {
            options.all = true;
        } else if crate::text::chars_are(cs.as_slice(), "--help") || crate::text::chars_are(
            cs.as_slice(),
            "-h",
        ) {
            return Ok(Command::Help(HelpTopic::Purge));
        } else if cs.len() > 0 && cs[0] == '-' {
            return Err(message_with("unknown purge option: ", cs.as_slice()));
        } else {
            let ghost before = strings_view(options.queries@);
            options.queries.push(string_of(cs.as_slice()));
            assert(strings_view(options.queries@) =~= before.push(cs@));
        }
        i = i + 1;
    }
    Ok(Command::Purge(options))
}

/// How `unlink` reads `args[i..]`: help, `--` to end options, and exactly
/// one path.
pub open spec fn unlink_from(path: Option<Seq<u8>>, parsing: bool, args: Seq<Seq<u8>>, i: int) -> Result<
    CommandView,
    Seq<char>,
>
    decreases args.len() - i,
{
    if i < 0 || i >= args.len() {
        match path {
            None => Err("unlink requires exactly one path"@),
            Some(p) => Ok(CommandView::Unlink { path: p }),
        }
    } else if parsing && is_help_arg(args[i]) {
        Ok(CommandView::Help(HelpTopic::Unlink))
    } else if parsing && arg_is(args[i], "--"@) {
        unlink_from(path, false, args, i + 1)
    } else if parsing && text_of(args[i]) is Some && text_of(args[i])->0.len() > 0 && text_of(
        args[i],
    )->0[0] == '-' {
        Err("unlink does not accept options other than --"@)
    } else if path is Some {
        Err("unlink accepts exactly one path"@)
    } else {
        unlink_from(Some(args[i]), parsing, args, i + 1)
    }
}

/// Reads the arguments of `unlink`: exactly one path, after an optional `--`.
pub fn parse_unlink(args: Vec<Vec<u8>>) -> (r: Result<Command, String>)
    ensures
        command_result(r) == unlink_from(None, true, args_view(args@), 0),
{
    let ghost a = args_view(args@);
    let mut path: Option<Vec<u8>> = None;
    let mut parsing = true;
    let mut i: usize = 0;
    while i < args.len()
        invariant
            a == args_view(args@),
            i <= args@.len(),
            unlink_from(None, true, a, 0) == unlink_from(
                crate::store::opt_bytes(path),
                parsing,
                a,
                i as int,
            ),
        decreases args@.len() - i,
    {
        let arg = args[i].as_slice();
        assert(a[i as int] == arg@);
        if parsing && (arg_equals(arg, "--help") || arg_equals(arg, "-h")) {
            return Ok(Command::Help(HelpTopic::Unlink));
        }
        if parsing && arg_equals(arg, "--") {
            parsing = false;
        } else {
            if parsing {
                match arg_chars(arg) {
                    Some(cs) => {
                        if cs.len() > 0 && cs[0] == '-' {
                            return Err(message("unlink does not accept options other than --"));
                        }
                    },
                    None => {},
                }
            }
            if path.is_some() {
                return Err(message("unlink accepts exactly one path"));
            }
            path = Some(copy_arg(arg));
        }
        i = i + 1;
    }
    match path {
        None => Err(message("unlink requires exactly one path")),
        Some(p) => Ok(Command::Unlink(UnlinkOptions { path: p })),
    }
}

// ---------------------------------------------------------------------------
// delete
// ---------------------------------------------------------------------------

/// Where reading a bundle of short options leads: on with new options, or
/// to a final answer (help or an error).
pub enum ShortsView {
    Options(DeleteView),
    Stop(Result<CommandView, Seq<char>>),
}

/// What one short option does. `-f` and `-i` each cancel the other.
pub open spec fn apply_short(o: DeleteView, c: char) -> ShortsView {
    if c == 'd' {
        ShortsView::Options(DeleteView { allow_dir: true, ..o })
    } else if c == 'r' || c == 'R' {
        ShortsView::Options(DeleteView { recursive: true, ..o })
    } else if c == 'f' {
        ShortsView::Options(DeleteView { force: true, interactive_each: false, ..o })
    } else if c == 'i' {
        ShortsView::Options(DeleteView { interactive_each: true, force: false, ..o })
    } else if c == 'I' {
        ShortsView::Options(DeleteView { interactive_once: true, ..o })
    } else if c == 'x' {
        ShortsView::Options(DeleteView { one_file_system: true, ..o })
    } else if c == 'p' {
        ShortsView::Options(DeleteView { permanent: true, ..o })
    } else if c == 'v' {
        ShortsView::Options(DeleteView { verbose: true, ..o })
    } else if c == 'W' {
        ShortsView::Stop(Err("sure-rm no longer supports -W; use `sure-rm restore` instead"@))
    } else if c == 'h' {
        ShortsView::Stop(Ok(CommandView::Help(HelpTopic::General)))
    } else {
        ShortsView::Stop(Err("unknown option: -"@ + seq![c]))
    }
}

/// Reading the short options `cs[k..]` in order.
pub open spec fn shorts_from(o: DeleteView, cs: Seq<char>, k: int) -> ShortsView
    decreases cs.len() - k,
{
    if k < 0 || k >= cs.len() {
        ShortsView::Options(o)
    } else {
        match apply_short(o, cs[k]) {
            ShortsView::Options(o2) => shorts_from(o2, cs, k + 1),
            ShortsView::Stop(r) => ShortsView::Stop(r),
        }
    }
}

/// `o` with `arg` added as a path to delete.
pub open spec fn with_path(o: DeleteView, arg: Seq<u8>) -> DeleteView {
    DeleteView { paths: o.paths.push(arg), ..o }
}

/// How a delete reads `args[i..]`: options until `--`, paths otherwise.
pub open spec fn delete_from(o: DeleteView, parsing: bool, args: Seq<Seq<u8>>, i: int) -> Result<
    CommandView,
    Seq<char>,
>
    decreases args.len() - i,
{
    if i < 0 || i >= args.len() {
        Ok(CommandView::Delete(o))
    } else if parsing && arg_is(args[i], "--help"@) {
        Ok(CommandView::Help(HelpTopic::General))
    } else if parsing && arg_is(args[i], "--"@) {
        delete_from(o, false, args, i + 1)
    } else if parsing && text_of(args[i]) is Some {
        let t = text_of(args[i])->0;
        if t.len() >= 7 && t.take(7) == "--mode="@ {
            match parse_mode_spec(t.skip(7)) {
                Ok(m) => delete_from(DeleteView { mode: m, ..o }, parsing, args, i + 1),
                Err(e) => Err(e),
            }
        } else if t == "--mode"@ {
            if i + 1 >= args.len() {
                Err("missing value after --mode"@)
            } else {
                match text_of(args[i + 1]) {
                    None => Err("mode must be valid UTF-8"@),
                    Some(v) => match parse_mode_spec(v) {
                        Ok(m) => delete_from(DeleteView { mode: m, ..o }, parsing, args, i + 2),
                        Err(e) => Err(e),
                    },
                }
            }
        } else if t.len() >= 2 && t.take(2) == "--"@ {
            Err("unknown option: "@ + t)
        } else if t.len() > 1 && t[0] == '-' {
            match shorts_from(o, t, 1) {
                ShortsView::Options(o2) => delete_from(o2, parsing, args, i + 1),
                ShortsView::Stop(r) => r,
            }
        } else {
            delete_from(with_path(o, args[i]), parsing, args, i + 1)
        }
    } else {
        delete_from(with_path(o, args[i]), parsing, args, i + 1)
    }
}

/// Applies a bundle of short options `cs[1..]`; `Some` when it ends the
/// reading (help or an error).
fn apply_shorts(o: &mut DeleteOptions, cs: &[char]) -> (r: Option<Result<Command, String>>)
    ensures
        match shorts_from(old(o)@, cs@, 1) {
            ShortsView::Options(o2) => r is None && final(o)@ == o2,
            ShortsView::Stop(res) => r is Some && command_result(r->0) == res,
        },
{
    let mut k: usize = 1;
    while k < cs.len()
        invariant
            1 <= k,
            k <= cs@.len() || cs@.len() == 0,
            shorts_from(old(o)@, cs@, 1) == shorts_from(o@, cs@, k as int),
        decreases cs@.len() - k,
    {
        let c = cs[k];
        if c == 'd' {
            o.allow_dir = true;
        } else if c == 'r' || c == 'R' {
            o.recursive = true;
        } else if c == 'f' {
            o.force = true;
            o.interactive_each = false;
        } else if c == 'i' {
            o.interactive_each = true;
            o.force = false;
        } else if c == 'I' {
            o.interactive_once = true;
        } else if c == 'x' {
            o.one_file_system = true;
        } else if c == 'p' {
            o.permanent = true;
        } else if c == 'v' {
            o.verbose = true;
        } else if c == 'W' {
            return Some(
                Err(message("sure-rm no longer supports -W; use `sure-rm restore` instead")),
            );
        } else if c == 'h' {
            return Some(Ok(Command::Help(HelpTopic::General)));
        } else {
            let mut one: Vec<char> = Vec::new();
            one.push(c);
            assert(one@ =~= seq![c]);
            return Some(Err(message_with("unknown option: -", one.as_slice())));
        }
        k = k + 1;
    }
    None
}

/// Where reading one argument of a delete leads.
enum DeleteStep {
    /// Go on at this index.
    Next(usize),
    /// The reading ends with this answer.
    Done(Result<Command, String>),
}

/// Reads the option argument `args[i]`, whose text is `cs`, while options
/// are still read.
fn read_delete_option(
    options: &mut DeleteOptions,
    cs: &Vec<char>,
    args: &Vec<Vec<u8>>,
    i: usize,
) -> (r: DeleteStep)
    requires
        i < args@.len(),
        text_of(args@[i as int]@) == Some(cs@),
        !arg_is(args@[i as int]@, "--help"@),
        !arg_is(args@[i as int]@, "--"@),
    ensures
        match r {
            DeleteStep::Next(j) => i < j <= args@.len() && delete_from(
                old(options)@,
                true,
                args_view(args@),
                i as int,
            ) == delete_from(final(options)@, true, args_view(args@), j as int),
            DeleteStep::Done(res) => command_result(res) == delete_from(
                old(options)@,
                true,
                args_view(args@),
                i as int,
            ),
        },
{
    let ghost a = args_view(args@);
    let n = args.len();
    assert(a[i as int] == args@[i as int]@);
    proof {
        reveal_strlit("--mode=");
        reveal_strlit("--");
    }
    if starts_with_lit(cs.as_slice(), "--mode=") {
        assert(cs@.skip(7) =~= cs@.subrange(7, cs@.len() as int));
        return match RequestedMode::parse_chars(&cs.as_slice()[7..cs.len()]) {
            Ok(m) => {
                options.mode = m;
                DeleteStep::Next(i + 1)
            },
            Err(e) => DeleteStep::Done(Err(e)),
        };
    }
    if crate::text::chars_are(cs.as_slice(), "--mode") {
        if i + 1 >= n {
            return DeleteStep::Done(Err(message("missing value after --mode")));
        }
        assert(a[i + 1] == args@[i + 1]@);
        let value = match arg_chars(args[i + 1].as_slice()) {
            Some(v) => v,
            None => {
                return DeleteStep::Done(Err(message("mode must be valid UTF-8")));
            },
        };
        return match RequestedMode::parse_chars(value.as_slice()) {
            Ok(m) => {
                options.mode = m;
                DeleteStep::Next(i + 2)
            },
            Err(e) => DeleteStep::Done(Err(e)),
        };
    }
    if starts_with_lit(cs.as_slice(), "--") {
        return DeleteStep::Done(Err(message_with("unknown option: ", cs.as_slice())));
    }
    if cs.len() > 1 && cs[0] == '-' {
        return match apply_shorts(options, cs.as_slice()) {
            Some(res) => DeleteStep::Done(res),
            None => DeleteStep::Next(i + 1),
        };
    }
    let ghost before = options@;
    options.paths.push(copy_arg(args[i].as_slice()));
    assert(options@.paths =~= before.paths.push(a[i as int]));
    DeleteStep::Next(i + 1)
}

/// Reads the arguments of a delete, starting from `default_mode`.
pub fn parse_delete_with_mode(default_mode: RequestedMode, args: Vec<Vec<u8>>) -> (r: Result<
    Command,
    String,
>)
    ensures
        command_result(r) == delete_from(delete_defaults(default_mode), true, args_view(args@), 0),
{
    let ghost a = args_view(args@);
    let mut options = DeleteOptions::default();
    options.mode = default_mode;
    let mut parsing = true;
    let mut i: usize = 0;
    while i < args.len()
        invariant
            a == args_view(args@),
            i <= args@.len(),
            delete_from(delete_defaults(default_mode), true, a, 0) == delete_from(
                options@,
                parsing,
                a,
                i as int,
            ),
        decreases args@.len() - i,
    {
        let arg = args[i].as_slice();
        assert(a[i as int] == arg@);
        if parsing && arg_equals(arg, "--help") {
            return Ok(Command::Help(HelpTopic::General));
        }
        if parsing && arg_equals(arg, "--") {
            parsing = false;
            i = i + 1;
        } else {
            let text = if parsing {
                arg_chars(arg)
            } else {
                None
            };
            match text {
                Some(cs) => match read_delete_option(&mut options, &cs, &args, i) {
                    DeleteStep::Next(j) => {
                        i = j;
                    },
                    DeleteStep::Done(res) => {
                        return res;
                    },
                },
                None => {
                    let ghost before = options@;
                    options.paths.push(copy_arg(arg));
                    assert(options@.paths =~= before.paths.push(arg@));
                    i = i + 1;
                },
            }
        }
    }
    Ok(Command::Delete(options))
}

/// Reads the arguments of a delete, starting from the mode that
/// `SURE_RM_MODE` asks for (whose error comes first).
pub fn parse_delete(args: Vec<Vec<u8>>, mode_var: &EnvValue) -> (r: Result<Command, String>)
    ensures
        command_result(r) == match mode_from_env_spec(*mode_var) {
            Ok(m) => delete_from(delete_defaults(m), true, args_view(args@), 0),
            Err(e) => Err(e),
        },
{
    match RequestedMode::from_env(mode_var) {
        Ok(m) => parse_delete_with_mode(m, args),
        Err(e) => Err(e),
    }
}

// ---------------------------------------------------------------------------
// Subcommands and the whole command line
// ---------------------------------------------------------------------------

/// A subcommand name that may stand first.
#[derive(Clone, Copy, Debug, PartialEq, Eq, Structural)]
pub enum Subcommand {
    /// `help`, `--help` or `-h`.
    Help,
    /// `--version`.
    Version,
    List,
    Restore,
    Purge,
    Unlink,
}

/// What the first argument is: a subcommand, or the start of a delete.
#[derive(Clone, Copy, Debug, PartialEq, Eq, Structural)]
pub enum FirstArg {
    Subcommand(Subcommand),
    DeleteOrPath,
}

/// The reading of a first argument.
pub open spec fn classify_spec(arg: Option<Seq<u8>>) -> FirstArg {
    match arg {
        None => FirstArg::DeleteOrPath,
        Some(a) => if arg_is(a, "help"@) || arg_is(a, "--help"@) || arg_is(a, "-h"@) {
            FirstArg::Subcommand(Subcommand::Help)
        } else if arg_is(a, "--version"@) {
            FirstArg::Subcommand(Subcommand::Version)
        } else if arg_is(a, "list"@) {
            FirstArg::Subcommand(Subcommand::List)
        } else if arg_is(a, "restore"@) {
            FirstArg::Subcommand(Subcommand::Restore)
        } else if arg_is(a, "purge"@) {
            FirstArg::Subcommand(Subcommand::Purge)
        } else if arg_is(a, "unlink"@) {
            FirstArg::Subcommand(Subcommand::Unlink)
        } else {
            FirstArg::DeleteOrPath
        },
    }
}

/// Whether the first argument names a subcommand.
pub fn classify_first_arg(arg: Option<&[u8]>) -> (r: FirstArg)
    ensures
        r == classify_spec(
            match arg {
                Some(a) => Some(a@),
                None => None,
            },
        ),
{
    match arg {
        None => FirstArg::DeleteOrPath,
        Some(a) => if arg_equals(a, "help") || arg_equals(a, "--help") || arg_equals(a, "-h") {
            FirstArg::Subcommand(Subcommand::Help)
        } else if arg_equals(a, "--version") {
            FirstArg::Subcommand(Subcommand::Version)
        } else if arg_equals(a, "list") {
            FirstArg::Subcommand(Subcommand::List)
        } else if arg_equals(a, "restore") {
            FirstArg::Subcommand(Subcommand::Restore)
        } else if arg_equals(a, "purge") {
            FirstArg::Subcommand(Subcommand::Purge)
        } else if arg_equals(a, "unlink") {
            FirstArg::Subcommand(Subcommand::Unlink)
        } else {
            FirstArg::DeleteOrPath
        },
    }
}

/// Where the leading `--mode <VALUE>` / `--mode=<VALUE>` arguments from
/// `args[i..]` end.
pub open spec fn leading_mode_end(args: Seq<Seq<u8>>, i: int) -> Result<int, Seq<char>>
    decreases args.len() - i,
{
    if i < 0 || i >= args.len() {
        Ok(i)
    } else if arg_is(args[i], "--mode"@) {
        if i + 2 > args.len() {
            Err("missing value after --mode"@)
        } else {
            leading_mode_end(args, i + 2)
        }
    } else if is_mode_assignment(args[i]) {
        leading_mode_end(args, i + 1)
    } else {
        Ok(i)
    }
}

/// Splits off the leading mode options, so that what follows them is read
/// as if they were not there.
pub fn split_leading_mode(argv: Vec<Vec<u8>>) -> (r: Result<(Vec<Vec<u8>>, Vec<Vec<u8>>), String>)
    ensures
        match leading_mode_end(args_view(argv@), 0) {
            Ok(k) => r is Ok && args_view(r->Ok_0.0@) == args_view(argv@).take(k) && args_view(
                r->Ok_0.1@,
            ) == args_view(argv@).skip(k),
            Err(e) => r is Err && r->Err_0@ == e,
        },
{
    let ghost a = args_view(argv@);
    let n = argv.len();
    let mut k: usize = 0;
    let mut stop = false;
    while !stop && k < n
        invariant
            n == argv@.len(),
            a == args_view(argv@),
            k <= n,
            leading_mode_end(a, 0) == leading_mode_end(a, k as int),
            stop ==> leading_mode_end(a, k as int) == Ok::<int, Seq<char>>(k as int),
        decreases n - k + (if stop { 0int } else { 1int }),
    {
        let arg = argv[k].as_slice();
        assert(a[k as int] == arg@);
        proof {
            reveal_strlit("--mode=");
        }
        if arg_equals(arg, "--mode") {
            if k + 1 >= n {
                return Err(message("missing value after --mode"));
            }
            k = k + 2;
        } else {
            let starts = match arg_chars(arg) {
                Some(cs) => starts_with_lit(cs.as_slice(), "--mode="),
                None => false,
            };
            if starts {
                k = k + 1;
            } else {
                stop = true;
            }
        }
    }
    let mut mode_args: Vec<Vec<u8>> = Vec::new();
    let mut rest: Vec<Vec<u8>> = Vec::new();
    let mut i: usize = 0;
    while i < n
        invariant
            n == argv@.len(),
            a == args_view(argv@),
            k <= n,
            i <= n,
            i <= k ==> args_view(mode_args@) == a.take(i as int) && rest@.len() == 0,
            i > k ==> args_view(mode_args@) == a.take(k as int) && args_view(rest@) == a.subrange(
                k as int,
                i as int,
            ),
        decreases n - i,
    {
        assert(a[i as int] == argv@[i as int]@);
        let c = copy_arg(argv[i].as_slice());
        if i < k {
            let ghost before = args_view(mode_args@);
            mode_args.push(c);
            assert(args_view(mode_args@) =~= a.take(i + 1));
        } else {
            let ghost before = args_view(rest@);
            rest.push(c);
            if i == k {
                assert(args_view(rest@) =~= a.subrange(k as int, i + 1));
            } else {
                assert(args_view(rest@) =~= a.subrange(k as int, i + 1));
            }
        }
        i = i + 1;
    }
    assert(args_view(rest@) =~= a.skip(k as int)) by {
        if n == k {
            assert(args_view(rest@) =~= Seq::<Seq<u8>>::empty());
        }
    }
    Ok((mode_args, rest))
}

/// The arguments after the first.
fn tail_args(v: &Vec<Vec<u8>>) -> (r: Vec<Vec<u8>>)
    requires
        v@.len() > 0,
    ensures
        args_view(r@) == args_view(v@).drop_first(),
{
    let mut out: Vec<Vec<u8>> = Vec::new();
    let mut i: usize = 1;
    while i < v.len()
        invariant
            1 <= i <= v@.len(),
            out@.len() == i - 1,
            args_view(out@) == args_view(v@).subrange(1, i as int),
        decreases v@.len() - i,
    {
        let ghost before = args_view(out@);
        out.push(copy_arg(v[i].as_slice()));
        assert(args_view(out@) =~= args_view(v@).subrange(1, i + 1));
        i = i + 1;
    }
    assert(args_view(v@).subrange(1, v@.len() as int) =~= args_view(v@).drop_first());
    out
}

/// How a delete reads its arguments under a `SURE_RM_MODE` value.
pub open spec fn delete_spec(args: Seq<Seq<u8>>, mode_var: EnvValue) -> Result<
    CommandView,
    Seq<char>,
> {
    match mode_from_env_spec(mode_var) {
        Ok(m) => delete_from(delete_defaults(m), true, args, 0),
        Err(e) => Err(e),
    }
}

/// How the command line reads once the leading mode options `leading` are
/// split off from `rest`: nothing shows help; a subcommand reads the
/// arguments after it; anything else is a delete, mode options included.
pub open spec fn command_spec(leading: Seq<Seq<u8>>, rest: Seq<Seq<u8>>, mode_var: EnvValue) -> Result<
    CommandView,
    Seq<char>,
> {
    if rest.len() == 0 {
        Ok(CommandView::Help(HelpTopic::General))
    } else {
        match classify_spec(Some(rest[0])) {
            FirstArg::Subcommand(Subcommand::Version) => Ok(CommandView::Version),
            FirstArg::Subcommand(Subcommand::Help) => Ok(CommandView::Help(HelpTopic::General)),
            FirstArg::Subcommand(Subcommand::Unlink) => unlink_from(None, true, rest.drop_first(), 0),
            FirstArg::Subcommand(Subcommand::List) => list_spec(rest.drop_first()),
            FirstArg::Subcommand(Subcommand::Restore) => restore_from(
                None,
                None,
                rest.drop_first(),
                0,
            ),
            FirstArg::Subcommand(Subcommand::Purge) => purge_from(false, seq![], rest.drop_first(), 0),
            FirstArg::DeleteOrPath => delete_spec(leading + rest, mode_var),
        }
    }
}

/// Reads the command line after the leading mode options.
pub fn parse_command(leading_mode: Vec<Vec<u8>>, rest: Vec<Vec<u8>>, mode_var: &EnvValue) -> (r:
    Result<Command, String>)
    ensures
        command_result(r) == command_spec(args_view(leading_mode@), args_view(rest@), *mode_var),
{
    if rest.len() == 0 {
        return Ok(Command::Help(HelpTopic::General));
    }
    assert(args_view(rest@)[0] == rest@[0]@);
    match classify_first_arg(Some(rest[0].as_slice())) {
        FirstArg::Subcommand(Subcommand::Version) => Ok(Command::Version),
        FirstArg::Subcommand(Subcommand::Help) => Ok(Command::Help(HelpTopic::General)),
        FirstArg::Subcommand(Subcommand::Unlink) => parse_unlink(tail_args(&rest)),
        FirstArg::Subcommand(Subcommand::List) => parse_list(tail_args(&rest)),
        FirstArg::Subcommand(Subcommand::Restore) => parse_restore(tail_args(&rest)),
        FirstArg::Subcommand(Subcommand::Purge) => parse_purge(tail_args(&rest)),
        FirstArg::DeleteOrPath => {
            let mut delete_args = leading_mode;
            let ghost l = args_view(delete_args@);
            assert(l.len() == delete_args@.len());
            let mut i: usize = 0;
            while i < rest.len()
                invariant
                    i <= rest@.len(),
                    l.len() + i == delete_args@.len(),
                    args_view(delete_args@) == l + args_view(rest@).take(i as int),
                decreases rest@.len() - i,
            {
                let ghost before = delete_args@;
                let c = copy_arg(rest[i].as_slice());
                delete_args.push(c);
                assert(delete_args@ == before.push(c));
                assert(args_view(delete_args@) =~= args_view(before).push(c@));
                assert(c@ == args_view(rest@)[i as int]);
                assert(args_view(rest@).take(i + 1) =~= args_view(rest@).take(i as int).push(c@));
                assert(args_view(delete_args@) =~= l + args_view(rest@).take(i + 1));
                i = i + 1;
            }
            assert(args_view(rest@).take(rest@.len() as int) =~= args_view(rest@));
            parse_delete(delete_args, mode_var)
        },
    }
}

/// Whether the program was started under the name `unlink`.
pub open spec fn invoked_as_unlink_spec(program: Option<Seq<u8>>) -> bool {
    match program {
        None => false,
        Some(p) => match file_name_spec(p) {
            Some(n) => arg_is(n, "unlink"@),
            None => false,
        },
    }
}

/// Whether the program was started under the name `unlink` (the file name
/// of the path it was started by).
pub fn invoked_as_unlink(program: Option<&[u8]>) -> (r: bool)
    ensures
        r == invoked_as_unlink_spec(
            match program {
                Some(p) => Some(p@),
                None => None,
            },
        ),
{
    match program {
        None => false,
        Some(p) => match file_name(p) {
            Some(n) => arg_equals(n.as_slice(), "unlink"),
            None => false,
        },
    }
}

/// A hand-over to the system command: which program, with which arguments.
#[derive(Debug, PartialEq, Eq)]
pub struct SureBypass {
    pub program: &'static str,
    pub args: Vec<Vec<u8>>,
}

/// The contents of a [`SureBypass`].
pub struct BypassView {
    pub program: Seq<char>,
    pub args: Seq<Seq<u8>>,
}

impl View for SureBypass {
    type V = BypassView;

    open spec fn view(&self) -> BypassView {
        BypassView { program: self.program@, args: args_view(self.args@) }
    }
}

/// Whether the first argument is a subcommand other than `unlink`.
pub open spec fn first_is_other_subcommand(argv: Seq<Seq<u8>>) -> bool {
    classify_spec(Some(argv[0])) is Subcommand && classify_spec(Some(argv[0]))->Subcommand_0
        != Subcommand::Unlink
}

/// When the command line is handed to the system command, and how: only a
/// delete or `unlink` asking for `--sure`/`-s`; `unlink` (by program name or
/// subcommand) goes to `/bin/unlink`, a delete to `/bin/rm`, with sure-rm's
/// own options taken out.
pub open spec fn bypass_spec(program: Option<Seq<u8>>, argv: Seq<Seq<u8>>) -> Option<BypassView> {
    if argv.len() == 0 || !sure_from(argv, 0) {
        None
    } else if first_is_other_subcommand(argv) {
        None
    } else if invoked_as_unlink_spec(program) {
        Some(BypassView { program: "/bin/unlink"@, args: passthrough_from(argv, 0, true, false) })
    } else if arg_is(argv[0], "unlink"@) {
        Some(
            BypassView {
                program: "/bin/unlink"@,
                args: passthrough_from(argv.drop_first(), 0, true, false),
            },
        )
    } else {
        Some(BypassView { program: "/bin/rm"@, args: passthrough_from(argv, 0, true, false) })
    }
}

/// The hand-over to the system command that the arguments ask for, if any.
pub fn build_sure_bypass(program: Option<&[u8]>, argv: &[Vec<u8>]) -> (r: Option<SureBypass>)
    ensures
        match r {
            Some(b) => bypass_spec(
                match program {
                    Some(p) => Some(p@),
                    None => None,
                },
                args_view(argv@),
            ) == Some(b@),
            None => bypass_spec(
                match program {
                    Some(p) => Some(p@),
                    None => None,
                },
                args_view(argv@),
            ) is None,
        },
{
    let ghost a = args_view(argv@);
    if argv.len() == 0 || !has_sure_flag(argv) {
        return None;
    }
    assert(a[0] == argv@[0]@);
    match classify_first_arg(Some(argv[0].as_slice())) {
        FirstArg::Subcommand(name) => {
            if name != Subcommand::Unlink {
                return None;
            }
        },
        FirstArg::DeleteOrPath => {},
    }
    if invoked_as_unlink(program) {
        return Some(SureBypass { program: "/bin/unlink", args: filter_passthrough_args(argv) });
    }
    if arg_equals(argv[0].as_slice(), "unlink") {
        let tail = &argv[1..argv.len()];
        assert(args_view(tail@) =~= a.drop_first());
        return Some(SureBypass { program: "/bin/unlink", args: filter_passthrough_args(tail) });
    }
    Some(SureBypass { program: "/bin/rm", args: filter_passthrough_args(argv) })
}

/// What the program is asked to do: run a command of its own, or hand over
/// to the system command.
#[derive(Debug)]
pub enum Invocation {
    Command(Command),
    Bypass(SureBypass),
}

/// The contents of an [`Invocation`].
pub enum InvocationView {
    Command(CommandView),
    Bypass(BypassView),
}

/// An invocation result, by its contents.
pub open spec fn invocation_result(r: Result<Invocation, String>) -> Result<
    InvocationView,
    Seq<char>,
> {
    match r {
        Ok(Invocation::Command(c)) => Ok(InvocationView::Command(c@)),
        Ok(Invocation::Bypass(b)) => Ok(InvocationView::Bypass(b@)),
        Err(e) => Err(e@),
    }
}

/// How the whole command line reads: leading mode options are split off
/// first; then the bypass is checked; then `unlink` (by program name) or the
/// subcommands and delete are read.
pub open spec fn invocation_spec(
    program: Option<Seq<u8>>,
    argv: Seq<Seq<u8>>,
    mode_var: EnvValue,
) -> Result<InvocationView, Seq<char>> {
    match leading_mode_end(argv, 0) {
        Err(e) => Err(e),
        Ok(k) => {
            let rest = argv.skip(k);
            match bypass_spec(program, rest) {
                Some(b) => Ok(InvocationView::Bypass(b)),
                None => {
                    let c = if invoked_as_unlink_spec(program) {
                        unlink_from(None, true, rest, 0)
                    } else {
                        command_spec(argv.take(k), rest, mode_var)
                    };
                    match c {
                        Ok(c) => Ok(InvocationView::Command(c)),
                        Err(e) => Err(e),
                    }
                },
            }
        },
    }
}

/// Reads the command line: the path the program was started by, the
/// arguments after it, and the value of `SURE_RM_MODE`.
pub fn parse_invocation(program: Option<Vec<u8>>, argv: Vec<Vec<u8>>, mode_var: &EnvValue) -> (r:
    Result<Invocation, String>)
    ensures
        invocation_result(r) == invocation_spec(
            match program {
                Some(p) => Some(p@),
                None => None,
            },
            args_view(argv@),
            *mode_var,
        ),
{
    let (leading_mode, rest) = match split_leading_mode(argv) {
        Ok(parts) => parts,
        Err(e) => {
            return Err(e);
        },
    };
    let prog: Option<&[u8]> = match &program {
        Some(p) => Some(p.as_slice()),
        None => None,
    };
    match build_sure_bypass(prog, rest.as_slice()) {
        Some(b) => {
            return Ok(Invocation::Bypass(b));
        },
        None => {},
    }
    let command = if invoked_as_unlink(prog) {
        parse_unlink(rest)
    } else {
        parse_command(leading_mode, rest, mode_var)
    };
    match command {
        Ok(c) => Ok(Invocation::Command(c)),
        Err(e) => Err(e),
    }
}

// ---------------------------------------------------------------------------
// Laws of the command line
// ---------------------------------------------------------------------------

proof fn lemma_sure_prefix(a: Seq<Seq<u8>>, dd: Seq<u8>, b: Seq<Seq<u8>>, k: int)
    requires
        arg_is(dd, "--"@),
        0 <= k <= a.len(),
    ensures
        sure_from(a + seq![dd] + b, k) == sure_from(a, k),
    decreases a.len() - k,
{
    let s = a + seq![dd] + b;
    if k < a.len() {
        assert(s[k] == a[k]);
        lemma_sure_prefix(a, dd, b, k + 1);
    } else {
        assert(s[k] == dd);
    }
}

/// Only the arguments before the first `--` can ask for the bypass: what
/// follows it, `--sure` included, are operands.
pub proof fn law_sure_flag_stops_at_double_dash(a: Seq<Seq<u8>>, dd: Seq<u8>, b: Seq<Seq<u8>>)
    requires
        arg_is(dd, "--"@),
    ensures
        sure_from(a + seq![dd] + b, 0) == sure_from(a, 0),
{
    lemma_sure_prefix(a, dd, b, 0);
}

/// Once options have ended, every remaining argument is handed to the
/// system command as it is.
pub proof fn law_passthrough_keeps_operands(args: Seq<Seq<u8>>, i: int)
    requires
        0 <= i <= args.len(),
    ensures
        passthrough_from(args, i, false, false) == args.skip(i),
    decreases args.len() - i,
{
    if i < args.len() {
        law_passthrough_keeps_operands(args, i + 1);
        assert(args.skip(i) =~= seq![args[i]] + args.skip(i + 1));
    } else {
        assert(args.skip(i) =~= Seq::<Seq<u8>>::empty());
    }
}

/// Once options have ended (after `--`), a delete takes every remaining
/// argument as a path, whatever it looks like.
pub proof fn law_delete_operands_after_double_dash(o: DeleteView, args: Seq<Seq<u8>>, i: int)
    requires
        0 <= i <= args.len(),
    ensures
        delete_from(o, false, args, i) == Ok::<CommandView, Seq<char>>(
            CommandView::Delete(DeleteView { paths: o.paths + args.skip(i), ..o }),
        ),
    decreases args.len() - i,
{
    if i < args.len() {
        law_delete_operands_after_double_dash(with_path(o, args[i]), args, i + 1);
        assert(o.paths.push(args[i]) + args.skip(i + 1) =~= o.paths + args.skip(i));
    } else {
        assert(o.paths + args.skip(i) =~= o.paths);
    }
}

/// The last `f` or `i` among `cs`, if any.
pub open spec fn last_force_or_prompt(cs: Seq<char>) -> Option<char>
    decreases cs.len(),
{
    if cs.len() == 0 {
        None
    } else {
        match last_force_or_prompt(cs.drop_first()) {
            Some(c) => Some(c),
            None => if cs[0] == 'f' || cs[0] == 'i' {
                Some(cs[0])
            } else {
                None
            },
        }
    }
}

/// Whether an argument is a bundle of short options, such as `-rf`.
pub open spec fn is_short_cluster(arg: Seq<u8>) -> bool {
    text_of(arg) matches Some(t) && t.len() > 1 && t[0] == '-' && t[1] != '-'
}

/// The last `f` or `i` letter among the bundles of short options in
/// `args[i..]`, up to the first `--`.
pub open spec fn last_force_or_prompt_from(args: Seq<Seq<u8>>, i: int) -> Option<char>
    decreases args.len() - i,
{
    if i < 0 || i >= args.len() || arg_is(args[i], "--"@) {
        None
    } else {
        match last_force_or_prompt_from(args, i + 1) {
            Some(c) => Some(c),
            None => if is_short_cluster(args[i]) {
                last_force_or_prompt(text_of(args[i])->0.drop_first())
            } else {
                None
            },
        }
    }
}

/// `-f` and `-i` are never both in force.
pub open spec fn force_prompt_exclusive(o: DeleteView) -> bool {
    !(o.force && o.interactive_each)
}

/// How a bundle `cs[k..]` of short options sets `-f` and `-i`.
proof fn lemma_shorts_force_prompt(o: DeleteView, cs: Seq<char>, k: int)
    requires
        0 <= k <= cs.len(),
        force_prompt_exclusive(o),
    ensures
        shorts_from(o, cs, k) matches ShortsView::Stop(r) ==> !(r matches Ok(CommandView::Delete(_))),
        shorts_from(o, cs, k) matches ShortsView::Options(o2) ==> {
            &&& force_prompt_exclusive(o2)
            &&& o2.force == match last_force_or_prompt(cs.skip(k)) {
                Some(c) => c == 'f',
                None => o.force,
            }
            &&& o2.interactive_each == match last_force_or_prompt(cs.skip(k)) {
                Some(c) => c == 'i',
                None => o.interactive_each,
            }
        },
    decreases cs.len() - k,
{
    if k < cs.len() {
        assert(cs.skip(k).drop_first() =~= cs.skip(k + 1));
        assert(cs.skip(k)[0] == cs[k]);
        match apply_short(o, cs[k]) {
            ShortsView::Options(o1) => {
                lemma_shorts_force_prompt(o1, cs, k + 1);
            },
            ShortsView::Stop(r) => {},
        }
    } else {
        assert(cs.skip(k) =~= Seq::<char>::empty());
    }
}

/// How the arguments `args[i..]` of a delete set `-f` and `-i`.
#[verifier::spinoff_prover]
#[verifier::rlimit(40)]
proof fn lemma_delete_force_prompt(o: DeleteView, args: Seq<Seq<u8>>, i: int)
    requires
        0 <= i <= args.len(),
        force_prompt_exclusive(o),
    ensures
        delete_from(o, true, args, i) matches Ok(CommandView::Delete(d)) ==> {
            &&& force_prompt_exclusive(d)
            &&& d.force == match last_force_or_prompt_from(args, i) {
                Some(c) => c == 'f',
                None => o.force,
            }
            &&& d.interactive_each == match last_force_or_prompt_from(args, i) {
                Some(c) => c == 'i',
                None => o.interactive_each,
            }
        },
    decreases args.len() - i,
{
    reveal_strlit("--");
    reveal_strlit("--mode=");
    reveal_strlit("--mode");
    reveal_strlit("--help");
    reveal_strlit("auto");
    reveal_strlit("interactive");
    reveal_strlit("batch");
    if i >= args.len() {
        return;
    }
    let a = args[i];
    if arg_is(a, "--help"@) {
        return;
    }
    if arg_is(a, "--"@) {
        law_delete_operands_after_double_dash(o, args, i + 1);
        return;
    }
    if text_of(a) is Some {
        let t = text_of(a)->0;
        if t.len() >= 7 && t.take(7) == "--mode="@ {
            assert(t[0] == t.take(7)[0] && t[1] == t.take(7)[1]);
            assert(!is_short_cluster(a));
            match parse_mode_spec(t.skip(7)) {
                Ok(m) => lemma_delete_force_prompt(DeleteView { mode: m, ..o }, args, i + 1),
                Err(e) => {},
            }
        } else if t == "--mode"@ {
            assert(!is_short_cluster(a));
            if i + 1 < args.len() {
                match text_of(args[i + 1]) {
                    None => {},
                    Some(v) => match parse_mode_spec(v) {
                        Ok(m) => {
                            assert(v[0] != '-');
                            assert(!is_short_cluster(args[i + 1]));
                            assert(!arg_is(args[i + 1], "--"@));
                            lemma_delete_force_prompt(DeleteView { mode: m, ..o }, args, i + 2);
                        },
                        Err(e) => {},
                    },
                }
            }
        } else if t.len() >= 2 && t.take(2) == "--"@ {
        } else if t.len() > 1 && t[0] == '-' {
            assert(t[1] != '-') by {
                if t[1] == '-' {
                    assert(t.take(2) =~= "--"@);
                }
            }
            assert(is_short_cluster(a));
            lemma_shorts_force_prompt(o, t, 1);
            assert(t.skip(1) =~= t.drop_first());
            match shorts_from(o, t, 1) {
                ShortsView::Options(o2) => lemma_delete_force_prompt(o2, args, i + 1),
                ShortsView::Stop(r) => {},
            }
        } else {
            assert(!is_short_cluster(a));
            lemma_delete_force_prompt(with_path(o, a), args, i + 1);
        }
    } else {
        lemma_delete_force_prompt(with_path(o, a), args, i + 1);
    }
}

/// Among the bundles of short options before `--`, the last `f` or `i`
/// wins: a delete that reads its arguments has `-f` in force exactly when
/// that letter is `f`, `-i` exactly when it is `i`, never both, and
/// neither when no bundle holds either letter.
pub proof fn law_last_force_or_prompt_wins(mode: RequestedMode, args: Seq<Seq<u8>>)
    ensures
        delete_from(delete_defaults(mode), true, args, 0) matches Ok(CommandView::Delete(d)) ==> {
            &&& !(d.force && d.interactive_each)
            &&& d.force == (last_force_or_prompt_from(args, 0) == Some('f'))
            &&& d.interactive_each == (last_force_or_prompt_from(args, 0) == Some('i'))
        },
{
    lemma_delete_force_prompt(delete_defaults(mode), args, 0);
}

/// A letter of a bundle of short options that sets an option: `d`, `f`,
/// `i`, `I`, `p`, `r`, `R`, `v`, `x`.
pub open spec fn is_option_letter(c: char) -> bool {
    c == 'd' || c == 'f' || c == 'i' || c == 'I' || c == 'p' || c == 'r' || c == 'R' || c == 'v'
        || c == 'x'
}

/// Whether `c` occurs in `cs[k..]`.
pub open spec fn bundle_has(cs: Seq<char>, k: int, c: char) -> bool {
    exists|j: int| k <= j < cs.len() && cs[j] == c
}

proof fn lemma_bundle_has_step(cs: Seq<char>, k: int, c: char)
    requires
        0 <= k < cs.len(),
    ensures
        bundle_has(cs, k, c) <==> (cs[k] == c || bundle_has(cs, k + 1, c)),
{
    if bundle_has(cs, k, c) && cs[k] != c {
        let j = choose|j: int| k <= j < cs.len() && cs[j] == c;
        assert(k + 1 <= j);
    }
    if cs[k] == c {
        assert(k <= k < cs.len() && cs[k] == c);
    }
    if bundle_has(cs, k + 1, c) {
        let j = choose|j: int| k + 1 <= j < cs.len() && cs[j] == c;
        assert(k <= j < cs.len() && cs[j] == c);
    }
}

/// `-R` is `-r`: each sets recursive removal and nothing else.
pub proof fn law_upper_r_is_recursive(o: DeleteView)
    ensures
        apply_short(o, 'R') == ShortsView::Options(DeleteView { recursive: true, ..o }),
        apply_short(o, 'R') == apply_short(o, 'r'),
{
}

/// A bundle made only of option letters never ends the reading: it keeps
/// the paths and the mode, and turns on `-d`, `-I`, `-p`, `-v`, `-x` and
/// recursive removal (by `r` or `R`) exactly when the bundle holds their
/// letters, leaving those already on as they are.
pub proof fn law_option_letters_never_stop(o: DeleteView, cs: Seq<char>, k: int)
    requires
        0 <= k <= cs.len(),
        forall|j: int| k <= j < cs.len() ==> is_option_letter(#[trigger] cs[j]),
    ensures
        shorts_from(o, cs, k) matches ShortsView::Options(o2) && {
            &&& o2.paths == o.paths
            &&& o2.mode == o.mode
            &&& o2.recursive == (o.recursive || bundle_has(cs, k, 'r') || bundle_has(cs, k, 'R'))
            &&& o2.allow_dir == (o.allow_dir || bundle_has(cs, k, 'd'))
            &&& o2.interactive_once == (o.interactive_once || bundle_has(cs, k, 'I'))
            &&& o2.permanent == (o.permanent || bundle_has(cs, k, 'p'))
            &&& o2.verbose == (o.verbose || bundle_has(cs, k, 'v'))
            &&& o2.one_file_system == (o.one_file_system || bundle_has(cs, k, 'x'))
        },
    decreases cs.len() - k,
{
    if k < cs.len() {
        assert(is_option_letter(cs[k]));
        lemma_bundle_has_step(cs, k, 'r');
        lemma_bundle_has_step(cs, k, 'R');
        lemma_bundle_has_step(cs, k, 'd');
        lemma_bundle_has_step(cs, k, 'I');
        lemma_bundle_has_step(cs, k, 'p');
        lemma_bundle_has_step(cs, k, 'v');
        lemma_bundle_has_step(cs, k, 'x');
        match apply_short(o, cs[k]) {
            ShortsView::Options(o1) => {
                law_option_letters_never_stop(o1, cs, k + 1);
            },
            ShortsView::Stop(_) => {
                assert(false);
            },
        }
    }
}

/// A subcommand reads only the arguments after its name: its name is never
/// one of its own operands, and the delete path is not taken.
pub proof fn law_subcommand_reads_what_follows(
    leading: Seq<Seq<u8>>,
    name: Seq<u8>,
    tail: Seq<Seq<u8>>,
    mode_var: EnvValue,
)
    ensures
        arg_is(name, "list"@) ==> command_spec(leading, seq![name] + tail, mode_var) == list_spec(
            tail,
        ),
        arg_is(name, "unlink"@) ==> command_spec(leading, seq![name] + tail, mode_var)
            == unlink_from(None, true, tail, 0),
        arg_is(name, "restore"@) ==> command_spec(leading, seq![name] + tail, mode_var)
            == restore_from(None, None, tail, 0),
        arg_is(name, "purge"@) ==> command_spec(leading, seq![name] + tail, mode_var) == purge_from(
            false,
            seq![],
            tail,
            0,
        ),
{
    reveal_strlit("list");
    reveal_strlit("unlink");
    reveal_strlit("restore");
    reveal_strlit("purge");
    reveal_strlit("help");
    reveal_strlit("--help");
    reveal_strlit("-h");
    reveal_strlit("--version");
    assert("list"@.len() == 4 && "unlink"@.len() == 6 && "restore"@.len() == 7
        && "purge"@.len() == 5);
    assert("help"@.len() == 4 && "--help"@.len() == 6 && "-h"@.len() == 2
        && "--version"@.len() == 9);
    assert("list"@[0] != "help"@[0]);
    assert("unlink"@[0] != "--help"@[0]);
    let rest = seq![name] + tail;
    assert(rest[0] == name);
    assert(rest.drop_first() =~= tail);
}

/// `list` alone lists the trash, whatever came before it and whatever
/// `SURE_RM_MODE` holds.
pub proof fn law_list_alone_lists(leading: Seq<Seq<u8>>, name: Seq<u8>, mode_var: EnvValue)
    requires
        arg_is(name, "list"@),
    ensures
        command_spec(leading, seq![name], mode_var) == Ok::<CommandView, Seq<char>>(
            CommandView::List,
        ),
{
    law_subcommand_reads_what_follows(leading, name, seq![], mode_var);
    assert(seq![name] + Seq::<Seq<u8>>::empty() =~= seq![name]);
}

/// `unlink P`, and `unlink -- P` for any `P`, unlink exactly `P` when `P`
/// is not an option.
pub proof fn law_unlink_takes_its_one_path(
    leading: Seq<Seq<u8>>,
    name: Seq<u8>,
    dd: Seq<u8>,
    p: Seq<u8>,
    mode_var: EnvValue,
)
    requires
        arg_is(name, "unlink"@),
    ensures
        !(text_of(p) matches Some(t) && t.len() > 0 && t[0] == '-') ==> command_spec(
            leading,
            seq![name, p],
            mode_var,
        ) == Ok::<CommandView, Seq<char>>(CommandView::Unlink { path: p }),
        arg_is(dd, "--"@) ==> command_spec(leading, seq![name, dd, p], mode_var) == Ok::<
            CommandView,
            Seq<char>,
        >(CommandView::Unlink { path: p }),
{
    reveal_strlit("--");
    reveal_strlit("-h");
    reveal_strlit("--help");
    law_subcommand_reads_what_follows(leading, name, seq![p], mode_var);
    law_subcommand_reads_what_follows(leading, name, seq![dd, p], mode_var);
    assert(seq![name] + seq![p] =~= seq![name, p]);
    assert(seq![name] + seq![dd, p] =~= seq![name, dd, p]);
    let t1 = seq![p];
    assert(unlink_from(Some(p), true, t1, 1) == Ok::<CommandView, Seq<char>>(
        CommandView::Unlink { path: p },
    ));
    let t2 = seq![dd, p];
    if arg_is(dd, "--"@) {
        assert("--"@.len() == 2 && "-h"@.len() == 2 && "--help"@.len() == 6);
        assert("--"@[1] != "-h"@[1]);
        assert("--"@ != "-h"@);
        assert("--"@ != "--help"@);
        assert(!arg_is(dd, "-h"@));
        assert(!arg_is(dd, "--help"@));
        assert(!is_help_arg(dd));
        assert(unlink_from(Some(p), false, t2, 2) == Ok::<CommandView, Seq<char>>(
            CommandView::Unlink { path: p },
        ));
        assert(unlink_from(None, false, t2, 1) == unlink_from(Some(p), false, t2, 2));
    }
}

/// `restore Q` restores the entry that `Q` names, to where it came from,
/// and `purge Q` purges it, when `Q` is text that is not an option.
pub proof fn law_one_query(leading: Seq<Seq<u8>>, name: Seq<u8>, q: Seq<u8>, mode_var: EnvValue)
    requires
        text_of(q) matches Some(t) && !(t.len() > 0 && t[0] == '-'),
    ensures
        arg_is(name, "restore"@) ==> command_spec(leading, seq![name, q], mode_var) == Ok::<
            CommandView,
            Seq<char>,
        >(CommandView::Restore { query: text_of(q)->0, destination: None }),
        arg_is(name, "purge"@) ==> command_spec(leading, seq![name, q], mode_var) == Ok::<
            CommandView,
            Seq<char>,
        >(CommandView::Purge { all: false, queries: seq![text_of(q)->0] }),
{
    reveal_strlit("--to");
    reveal_strlit("--all");
    reveal_strlit("-h");
    reveal_strlit("--help");
    law_subcommand_reads_what_follows(leading, name, seq![q], mode_var);
    assert(seq![name] + seq![q] =~= seq![name, q]);
    let t = text_of(q)->0;
    let a = seq![q];
    assert(a[0] == q);
    assert(restore_from(Some(t), None, a, 1) == Ok::<CommandView, Seq<char>>(
        CommandView::Restore { query: t, destination: None },
    ));
    assert(purge_from(false, seq![t], a, 1) == Ok::<CommandView, Seq<char>>(
        CommandView::Purge { all: false, queries: seq![t] },
    ));
    assert(Seq::<Seq<char>>::empty().push(t) =~= seq![t]);
}

/// The bypass to the system command: without `-s`/`--sure` before `--` (or
/// with no arguments) there is none; with it, `list`, `restore`, `purge`,
/// help and `--version` are still run by sure-rm; `unlink` goes to
/// `/bin/unlink` without its name; a delete goes to `/bin/rm` unless the
/// program was invoked as `unlink`.
pub proof fn law_bypass_target(program: Option<Seq<u8>>, argv: Seq<Seq<u8>>)
    ensures
        argv.len() == 0 || !sure_from(argv, 0) ==> bypass_spec(program, argv) is None,
        argv.len() > 0 && (arg_is(argv[0], "list"@) || arg_is(argv[0], "restore"@) || arg_is(
            argv[0],
            "purge"@,
        ) || arg_is(argv[0], "help"@) || arg_is(argv[0], "--help"@) || arg_is(argv[0], "-h"@)
            || arg_is(argv[0], "--version"@)) ==> bypass_spec(program, argv) is None,
        argv.len() > 0 && sure_from(argv, 0) && arg_is(argv[0], "unlink"@) ==> bypass_spec(
            program,
            argv,
        ) == Some(
            BypassView {
                program: "/bin/unlink"@,
                args: passthrough_from(
                    if invoked_as_unlink_spec(program) {
                        argv
                    } else {
                        argv.drop_first()
                    },
                    0,
                    true,
                    false,
                ),
            },
        ),
        argv.len() > 0 && sure_from(argv, 0) && classify_spec(Some(argv[0])) is DeleteOrPath
            && !invoked_as_unlink_spec(program) ==> bypass_spec(program, argv) == Some(
            BypassView { program: "/bin/rm"@, args: passthrough_from(argv, 0, true, false) },
        ),
{
    reveal_strlit("list");
    reveal_strlit("unlink");
    reveal_strlit("restore");
    reveal_strlit("purge");
    reveal_strlit("help");
    reveal_strlit("--help");
    reveal_strlit("-h");
    reveal_strlit("--version");
    assert("list"@.len() == 4 && "unlink"@.len() == 6 && "restore"@.len() == 7
        && "purge"@.len() == 5);
    assert("help"@.len() == 4 && "--help"@.len() == 6 && "-h"@.len() == 2
        && "--version"@.len() == 9);
    assert("list"@[0] != "help"@[0]);
    assert("unlink"@[0] != "--help"@[0]);
}

/// The name of a mode, as written after `--mode` or in `SURE_RM_MODE`.
pub open spec fn mode_name(m: RequestedMode) -> Seq<char> {
    match m {
        RequestedMode::Auto => "auto"@,
        RequestedMode::Interactive => "interactive"@,
        RequestedMode::Batch => "batch"@,
    }
}

/// Each mode reads back from its name, and a text reads as a mode only
/// when it is that mode's name; anything else is refused with a message
/// that names the text.
pub proof fn law_mode_names(m: RequestedMode, value: Seq<char>)
    ensures
        parse_mode_spec(mode_name(m)) == Ok::<RequestedMode, Seq<char>>(m),
        parse_mode_spec(value) matches Ok(k) ==> value == mode_name(k),
        parse_mode_spec(value) is Err ==> parse_mode_spec(value) == Err::<RequestedMode, Seq<char>>(
            "invalid mode: "@ + value + mode_expectation(),
        ),
{
    reveal_strlit("auto");
    reveal_strlit("interactive");
    reveal_strlit("batch");
    assert("auto"@.len() == 4 && "interactive"@.len() == 11 && "batch"@.len() == 5);
}

proof fn lemma_sure_shift(x: Seq<u8>, b: Seq<Seq<u8>>, i: int)
    requires
        0 <= i,
    ensures
        sure_from(seq![x] + b, i + 1) == sure_from(b, i),
    decreases b.len() - i,
{
    let a = seq![x] + b;
    if i < b.len() {
        assert(a[i + 1] == b[i]);
        lemma_sure_shift(x, b, i + 1);
    }
}

proof fn lemma_passthrough_shift(x: Seq<u8>, b: Seq<Seq<u8>>, i: int, parsing: bool, skip: bool)
    requires
        0 <= i,
    ensures
        passthrough_from(seq![x] + b, i + 1, parsing, skip) == passthrough_from(b, i, parsing, skip),
    decreases b.len() - i,
{
    let a = seq![x] + b;
    if i < b.len() {
        assert(a[i + 1] == b[i]);
        lemma_passthrough_shift(x, b, i + 1, parsing, false);
        lemma_passthrough_shift(x, b, i + 1, parsing, true);
        lemma_passthrough_shift(x, b, i + 1, false, false);
    }
}

/// A `--sure`, or a bundle of short options holding `s`, anywhere before
/// the first `--` asks for the bypass.
pub proof fn law_sure_flag_found(a: Seq<Seq<u8>>, flag: Seq<u8>, b: Seq<Seq<u8>>)
    requires
        forall|j: int| 0 <= j < a.len() ==> !arg_is(#[trigger] a[j], "--"@),
        arg_is(flag, "--sure"@) || is_short_sure_arg(flag),
    ensures
        sure_from(a + seq![flag] + b, 0),
    decreases a.len(),
{
    let all = a + seq![flag] + b;
    if a.len() == 0 {
        assert(all[0] == flag);
        reveal_strlit("--");
        reveal_strlit("--sure");
        assert("--"@.len() == 2 && "--sure"@.len() == 6);
        if is_short_sure_arg(flag) && arg_is(flag, "--"@) {
            assert(text_of(flag)->0[1] == '-');
        }
    } else {
        let a2 = a.drop_first();
        assert forall|j: int| 0 <= j < a2.len() implies !arg_is(#[trigger] a2[j], "--"@) by {
            assert(a2[j] == a[j + 1]);
        }
        law_sure_flag_found(a2, flag, b);
        assert(all =~= seq![a[0]] + (a2 + seq![flag] + b));
        lemma_sure_shift(a[0], a2 + seq![flag] + b, 0);
        assert(all[0] == a[0]);
    }
}

/// What the system command receives, argument by argument: `--sure` and a
/// lone `-s` are dropped, and an operand that is not an option is passed
/// on as it is.
pub proof fn law_passthrough_steps(x: Seq<u8>, b: Seq<Seq<u8>>)
    ensures
        arg_is(x, "--sure"@) ==> passthrough_from(seq![x] + b, 0, true, false) == passthrough_from(
            b,
            0,
            true,
            false,
        ),
        arg_is(x, "-s"@) ==> passthrough_from(seq![x] + b, 0, true, false) == passthrough_from(
            b,
            0,
            true,
            false,
        ),
        !(text_of(x) matches Some(t) && t.len() > 0 && t[0] == '-') ==> passthrough_from(
            seq![x] + b,
            0,
            true,
            false,
        ) == seq![x] + passthrough_from(b, 0, true, false),
{
    reveal_strlit("--");
    reveal_strlit("--sure");
    reveal_strlit("--mode");
    reveal_strlit("--mode=");
    reveal_strlit("-s");
    assert("--"@.len() == 2 && "--sure"@.len() == 6 && "--mode"@.len() == 6 && "-s"@.len() == 2);
    let all = seq![x] + b;
    assert(all[0] == x);
    lemma_passthrough_shift(x, b, 0, true, false);
    if arg_is(x, "-s"@) {
        let t = text_of(x)->0;
        assert(t =~= seq!['-', 's']);
        assert(t.drop_first() =~= seq!['s']);
        assert(t.contains('s')) by {
            assert(t[1] == 's');
        }
        assert(is_short_sure(t));
        assert(seq!['s'].drop_last() =~= Seq::<char>::empty());
        assert(without_s(seq!['s']) == without_s(Seq::<char>::empty()));
        assert(without_s(seq!['s']).len() == 0);
    }
    if !(text_of(x) matches Some(t) && t.len() > 0 && t[0] == '-') {
        if text_of(x) is Some {
            let t = text_of(x)->0;
            assert(t != "--sure"@ && t != "--"@ && t != "--mode"@) by {
                if t.len() > 0 {
                    assert("--sure"@[0] == '-' && "--"@[0] == '-' && "--mode"@[0] == '-');
                }
            }
            assert(!is_mode_assignment(x)) by {
                if is_mode_assignment(x) {
                    assert(t.take(7)[0] == t[0]);
                    assert("--mode="@[0] == '-');
                }
            }
        }
    }
}

/// `restore Q --to D` restores the entry that `Q` names to `D`, and
/// `purge --all` purges every entry.
pub proof fn law_restore_to_and_purge_all(
    leading: Seq<Seq<u8>>,
    name: Seq<u8>,
    q: Seq<u8>,
    to: Seq<u8>,
    d: Seq<u8>,
    mode_var: EnvValue,
)
    ensures
        arg_is(name, "restore"@) && arg_is(to, "--to"@) && (text_of(q) matches Some(t) && !(t.len()
            > 0 && t[0] == '-')) ==> command_spec(leading, seq![name, q, to, d], mode_var) == Ok::<
            CommandView,
            Seq<char>,
        >(CommandView::Restore { query: text_of(q)->0, destination: Some(d) }),
        arg_is(name, "purge"@) && arg_is(to, "--all"@) ==> command_spec(
            leading,
            seq![name, to],
            mode_var,
        ) == Ok::<CommandView, Seq<char>>(
            CommandView::Purge { all: true, queries: Seq::<Seq<char>>::empty() },
        ),
{
    reveal_strlit("--to");
    reveal_strlit("--all");
    reveal_strlit("-h");
    reveal_strlit("--help");
    assert("--to"@.len() == 4 && "--all"@.len() == 5 && "-h"@.len() == 2 && "--help"@.len() == 6);
    law_subcommand_reads_what_follows(leading, name, seq![q, to, d], mode_var);
    law_subcommand_reads_what_follows(leading, name, seq![to], mode_var);
    assert(seq![name] + seq![q, to, d] =~= seq![name, q, to, d]);
    assert(seq![name] + seq![to] =~= seq![name, to]);
    let a = seq![q, to, d];
    assert(a[0] == q && a[1] == to && a[2] == d);
    if text_of(q) is Some {
        let t = text_of(q)->0;
        if !(t.len() > 0 && t[0] == '-') && arg_is(to, "--to"@) {
            assert(t != "--to"@ && t != "--help"@ && t != "-h"@) by {
                if t.len() > 0 {
                    assert("--to"@[0] == '-' && "--help"@[0] == '-' && "-h"@[0] == '-');
                }
            }
            assert(restore_from(Some(t), Some(d), a, 3) == Ok::<CommandView, Seq<char>>(
                CommandView::Restore { query: t, destination: Some(d) },
            ));
            assert(restore_from(Some(t), None, a, 1) == restore_from(Some(t), Some(d), a, 3));
        }
    }
    let b = seq![to];
    assert(b[0] == to);
    assert(purge_from(true, seq![], b, 1) == Ok::<CommandView, Seq<char>>(
        CommandView::Purge { all: true, queries: Seq::<Seq<char>>::empty() },
    ));
}

// ---------------------------------------------------------------------------
// Help and version
// ---------------------------------------------------------------------------

/// The version of sure-rm.
pub open spec fn version_spec() -> Seq<char> {
    "0.1.0"@
}

/// The version of sure-rm.
pub fn version() -> (r: &'static str)
    ensures
        r@ == version_spec(),
{
    "0.1.0"
}

/// The general help text after its first line's `sure-rm <version>`.
pub open spec fn usage_body() -> Seq<char> {
    "\nA safer rm that moves files to trash instead of deleting them.\nUse -s/--sure to bypass and exec the system rm.\n\nUsage:\n  sure-rm [OPTIONS] <PATH>...\n  sure-rm list\n  sure-rm restore <ID> [--to <PATH>]\n  sure-rm purge [--all] [ID...]\n  sure-rm unlink [--] <PATH>\n\nOptions:\n  -r, -R         allow directory removal\n  -d             allow removing an empty directory without -r\n  -p             permanently delete instead of moving into sure-rm trash\n  -x             refuse recursive operations that would cross filesystem boundaries\n  -f             ignore missing files and disable per-path prompts\n  -i             ask before every removal\n  -I             ask once before removing many paths or any directory\n  --mode         auto, interactive, or batch\n  -s, --sure     bypass sure-rm and exec the system rm/unlink command\n  -v             print where the entry was moved\n  -h, --help     show this help\n  --version      show version\n\n"@
}

/// The general help text.
pub open spec fn usage_spec() -> Seq<char> {
    "sure-rm "@ + version_spec() + usage_body()
}

/// The general help text: the version, the forms of the command and the options.
pub fn usage() -> (r: String)
    ensures
        r@ == usage_spec(),
{
    let mut s = String::from_str("sure-rm ");
    s.append(version());
    s.append("\nA safer rm that moves files to trash instead of deleting them.\nUse -s/--sure to bypass and exec the system rm.\n\nUsage:\n  sure-rm [OPTIONS] <PATH>...\n  sure-rm list\n  sure-rm restore <ID> [--to <PATH>]\n  sure-rm purge [--all] [ID...]\n  sure-rm unlink [--] <PATH>\n\nOptions:\n  -r, -R         allow directory removal\n  -d             allow removing an empty directory without -r\n  -p             permanently delete instead of moving into sure-rm trash\n  -x             refuse recursive operations that would cross filesystem boundaries\n  -f             ignore missing files and disable per-path prompts\n  -i             ask before every removal\n  -I             ask once before removing many paths or any directory\n  --mode         auto, interactive, or batch\n  -s, --sure     bypass sure-rm and exec the system rm/unlink command\n  -v             print where the entry was moved\n  -h, --help     show this help\n  --version      show version\n\n");
    s
}

/// The help text of a topic.
pub open spec fn subcommand_usage_spec(topic: HelpTopic) -> Seq<char> {
    match topic {
        HelpTopic::General => usage_spec(),
        HelpTopic::List => "list all entries in sure-rm trash\n\nUsage: sure-rm list\n\nOptions:\n  -h, --help    show this help\n"@,
        HelpTopic::Restore => "restore a trashed entry by id or by original path\n\nUsage: sure-rm restore <ID|PATH> [--to <PATH>]\n\nOptions:\n  --to <PATH>   restore to a different location\n  -h, --help    show this help\n"@,
        HelpTopic::Purge => "permanently delete entries from sure-rm trash\n\nUsage: sure-rm purge [--all] [ID|PATH...]\n\nOptions:\n  --all         purge all entries\n  -h, --help    show this help\n"@,
        HelpTopic::Unlink => "safely delete a single file\n\nUsage: sure-rm unlink [--] <PATH>\n\nOptions:\n  -h, --help    show this help\n"@,
    }
}

/// The help text of a topic; the general one is [`usage`].
pub fn subcommand_usage(topic: HelpTopic) -> (r: String)
    ensures
        r@ == subcommand_usage_spec(topic),
{
    match topic {
        HelpTopic::General => usage(),
        HelpTopic::List => String::from_str("list all entries in sure-rm trash\n\nUsage: sure-rm list\n\nOptions:\n  -h, --help    show this help\n"),
        HelpTopic::Restore => String::from_str("restore a trashed entry by id or by original path\n\nUsage: sure-rm restore <ID|PATH> [--to <PATH>]\n\nOptions:\n  --to <PATH>   restore to a different location\n  -h, --help    show this help\n"),
        HelpTopic::Purge => String::from_str("permanently delete entries from sure-rm trash\n\nUsage: sure-rm purge [--all] [ID|PATH...]\n\nOptions:\n  --all         purge all entries\n  -h, --help    show this help\n"),
        HelpTopic::Unlink => String::from_str("safely delete a single file\n\nUsage: sure-rm unlink [--] <PATH>\n\nOptions:\n  -h, --help    show this help\n"),
    }
}

} // verus!
