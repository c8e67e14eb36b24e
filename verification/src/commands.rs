//! The decisions of the commands: when to prompt, what to refuse, how a
//! query finds its record, and what is removed how.
use vstd::prelude::*;
use vstd::string::*;

use crate::cli::{DeleteOptions, DeleteView, PurgeOptions, RequestedMode, UnlinkOptions, args_view};
use crate::path::{path_eq, path_starts_with, same_path, starts_with_spec};
use crate::store::{RecordView, StoreError, TrashRecord};
use crate::text::{chars_of, decimal, push_decimal, push_str, string_of, trim, trim_bounds};

verus! {

/// Whether prompting happens.
#[derive(Clone, Copy, Debug, PartialEq, Eq, Structural)]
pub enum EffectiveMode {
    Interactive,
    Batch,
}

/// The mode in force: `auto` prompts only when both stdin and stderr are
/// terminals; the other modes are taken as they are.
pub open spec fn effective_mode(requested: RequestedMode, stdin_is_tty: bool, stderr_is_tty: bool) -> EffectiveMode {
    match requested {
        RequestedMode::Auto => if stdin_is_tty && stderr_is_tty {
            EffectiveMode::Interactive
        } else {
            EffectiveMode::Batch
        },
        RequestedMode::Interactive => EffectiveMode::Interactive,
        RequestedMode::Batch => EffectiveMode::Batch,
    }
}

/// The mode in force: `auto` prompts only when both stdin and stderr are
/// terminals; the other modes are taken as they are.
pub fn resolve_mode(requested: RequestedMode, stdin_is_tty: bool, stderr_is_tty: bool) -> (r:
    EffectiveMode)
    ensures
        r == effective_mode(requested, stdin_is_tty, stderr_is_tty),
{
    match requested {
        RequestedMode::Auto => {
            if stdin_is_tty && stderr_is_tty {
                EffectiveMode::Interactive
            } else {
                EffectiveMode::Batch
            }
        },
        RequestedMode::Interactive => EffectiveMode::Interactive,
        RequestedMode::Batch => EffectiveMode::Batch,
    }
}

/// Whether a delete calls for one prompt by itself: nothing already decides
/// prompting (`-f`, `-i`, `-I`), and it is recursive, removes directories,
/// or names more than three paths.
pub open spec fn auto_prompt_once_spec(o: DeleteView) -> bool {
    !o.force && !o.interactive_each && !o.interactive_once && (o.recursive || o.allow_dir
        || o.paths.len() > 3)
}

/// Whether a delete calls for one prompt by itself (see [`auto_prompt_once_spec`]).
pub fn should_auto_prompt_once(options: &DeleteOptions) -> (r: bool)
    ensures
        r == auto_prompt_once_spec(options@),
{
    assert(options@.paths.len() == options.paths@.len());
    !options.force && !options.interactive_each && !options.interactive_once && (options.recursive
        || options.allow_dir || options.paths.len() > 3)
}

/// Whether paths are risky enough for a prompt: more than three, or some
/// of them a directory.
pub open spec fn paths_risky(is_dir: Seq<bool>) -> bool {
    is_dir.len() > 3 || is_dir.contains(true)
}

/// Whether the paths are risky enough for a prompt: more than three, or
/// some of them a directory (`is_dir` says which, a symlink counting as none).
pub fn paths_need_prompt(is_dir: &[bool]) -> (r: bool)
    ensures
        r == paths_risky(is_dir@),
{
    if is_dir.len() > 3 {
        return true;
    }
    let mut i: usize = 0;
    while i < is_dir.len()
        invariant
            i <= is_dir@.len(),
            forall|j: int| 0 <= j < i ==> !is_dir@[j],
        decreases is_dir@.len() - i,
    {
        if is_dir[i] {
            assert(is_dir@[i as int] == true);
            return true;
        }
        i = i + 1;
    }
    false
}

/// Whether to ask once before a delete: `-I` always does; in interactive
/// mode, so does a risky delete that nothing else prompts for.
pub open spec fn prompt_once_decision(o: DeleteView, mode: EffectiveMode, paths_need: bool) -> bool {
    o.interactive_once || (mode == EffectiveMode::Interactive && auto_prompt_once_spec(o)
        && paths_need)
}

/// Whether to ask once before a delete: `-I` always does; in interactive
/// mode, so does a risky delete that nothing else prompts for.
pub fn should_prompt_once(options: &DeleteOptions, mode: EffectiveMode, paths_need: bool) -> (r:
    bool)
    ensures
        r == prompt_once_decision(options@, mode, paths_need),
{
    options.interactive_once || (mode == EffectiveMode::Interactive && should_auto_prompt_once(
        options,
    ) && paths_need)
}

/// The one prompt before acting on `n` entries.
pub open spec fn prompt_once_spec(permanent: bool, n: nat) -> Seq<char> {
    (if permanent {
        "permanently delete"@
    } else {
        "move"@
    }) + seq![' '] + decimal(n) + " entr"@ + (if n == 1 {
        "y"@
    } else {
        "ies"@
    }) + "?"@
}

/// The one prompt before moving (or permanently deleting) `n` entries.
pub fn prompt_once_text(permanent: bool, n: usize) -> (r: String)
    ensures
        r@ == prompt_once_spec(permanent, n as nat),
{
    let mut out: Vec<char> = Vec::new();
    if permanent {
        push_str(&mut out, "permanently delete");
    } else {
        push_str(&mut out, "move");
    }
    out.push(' ');
    push_decimal(&mut out, n as u64);
    push_str(&mut out, " entr");
    if n == 1 {
        push_str(&mut out, "y");
    } else {
        push_str(&mut out, "ies");
    }
    push_str(&mut out, "?");
    string_of(out.as_slice())
}

/// How a delete run ends once every path was tried: an error when any of
/// them could not be removed.
pub fn delete_outcome(failures: usize) -> (r: Result<(), String>)
    ensures
        r is Ok <==> failures == 0,
        r matches Err(m) ==> m@ == "one or more paths could not be removed"@,
{
    if failures == 0 {
        Ok(())
    } else {
        Err(String::from_str("one or more paths could not be removed"))
    }
}

/// How a delete starts.
#[derive(Clone, Copy, Debug, PartialEq, Eq, Structural)]
pub enum DeleteStart {
    /// No paths and `-f`: nothing to do, and no error.
    Nothing,
    /// No paths: show the usage and fail with "missing path operands".
    MissingOperands,
    /// Go through the paths.
    Proceed,
}

/// How a delete starts (see [`DeleteStart`]).
pub open spec fn delete_start_spec(o: DeleteView) -> DeleteStart {
    if o.paths.len() == 0 {
        if o.force {
            DeleteStart::Nothing
        } else {
            DeleteStart::MissingOperands
        }
    } else {
        DeleteStart::Proceed
    }
}

/// How a delete starts (see [`delete_start_spec`]).
pub fn delete_start(options: &DeleteOptions) -> (r: DeleteStart)
    ensures
        r == delete_start_spec(options@),
{
    assert(options@.paths.len() == options.paths@.len());
    if options.paths.len() == 0 {
        if options.force {
            DeleteStart::Nothing
        } else {
            DeleteStart::MissingOperands
        }
    } else {
        DeleteStart::Proceed
    }
}

/// Whether a path that does not exist is passed over without error (`-f`).
pub fn missing_is_skipped(options: &DeleteOptions) -> (r: bool)
    ensures
        r == options.force,
{
    options.force
}

/// What a delete does with a directory (not a symlink to one).
#[derive(Clone, Copy, Debug, PartialEq, Eq, Structural)]
pub enum DirectoryCheck {
    /// Not a directory: nothing to check.
    NotADirectory,
    /// `-r`: take the whole tree.
    Recursive,
    /// `-r -x`: take the tree if it stays on one filesystem.
    RecursiveSameFileSystem,
    /// `-d`: take it only if it is empty.
    MustBeEmpty,
    /// Refused: "is a directory (use -r, -R, or -d)".
    Refuse,
}

/// What a delete checks about an entry before removing it.
pub open spec fn directory_check_spec(o: DeleteView, is_dir: bool) -> DirectoryCheck {
    if !is_dir {
        DirectoryCheck::NotADirectory
    } else if o.recursive {
        if o.one_file_system {
            DirectoryCheck::RecursiveSameFileSystem
        } else {
            DirectoryCheck::Recursive
        }
    } else if o.allow_dir {
        DirectoryCheck::MustBeEmpty
    } else {
        DirectoryCheck::Refuse
    }
}

/// What a delete checks about an entry before removing it.
pub fn directory_check(options: &DeleteOptions, is_dir: bool) -> (r: DirectoryCheck)
    ensures
        r == directory_check_spec(options@, is_dir),
{
    if !is_dir {
        DirectoryCheck::NotADirectory
    } else if options.recursive {
        if options.one_file_system {
            DirectoryCheck::RecursiveSameFileSystem
        } else {
            DirectoryCheck::Recursive
        }
    } else if options.allow_dir {
        DirectoryCheck::MustBeEmpty
    } else {
        DirectoryCheck::Refuse
    }
}

/// How an entry is removed for good (`-p`).
#[derive(Clone, Copy, Debug, PartialEq, Eq, Structural)]
pub enum Removal {
    /// A whole directory tree (`-r`).
    Tree,
    /// An empty directory (`-d`).
    EmptyDirectory,
    /// A file or symlink.
    File,
    /// Refused: "is a directory (use -r, -R, or -d)".
    Refuse,
}

/// How an entry is removed for good.
pub open spec fn removal_spec(o: DeleteView, is_dir: bool) -> Removal {
    if !is_dir {
        Removal::File
    } else if o.recursive {
        Removal::Tree
    } else if o.allow_dir {
        Removal::EmptyDirectory
    } else {
        Removal::Refuse
    }
}

/// How an entry is removed for good.
pub fn permanent_removal(options: &DeleteOptions, is_dir: bool) -> (r: Removal)
    ensures
        r == removal_spec(options@, is_dir),
{
    if !is_dir {
        Removal::File
    } else if options.recursive {
        Removal::Tree
    } else if options.allow_dir {
        Removal::EmptyDirectory
    } else {
        Removal::Refuse
    }
}

/// What looking up a path to delete found (without following a symlink).
#[derive(Clone, Copy, Debug, PartialEq, Eq, Structural)]
pub enum PathLookup {
    /// The entry exists; `is_dir` is true for a directory that is not a
    /// symlink.
    Found { is_symlink: bool, is_dir: bool },
    /// There is no such entry.
    Missing,
    /// The lookup failed otherwise.
    Unreadable,
}

/// The steps a delete takes for one path, in the order it takes them.
#[derive(Debug)]
pub enum PathPlan {
    /// Pass over it without error (`-f` on a missing path).
    Skip,
    /// Fail with the error of the lookup.
    LookupError,
    /// Refuse it with this message.
    Refuse(String),
    /// Check its canonical target when asked (not for a symlink), then what
    /// the directory check says, then remove it for good with `permanent`
    /// (`-p`) or move it to the trash when that is `None`.
    Proceed { check_canonical: bool, directory: DirectoryCheck, permanent: Option<Removal> },
}

/// The plan for one path of a delete, from its bytes and its lookup.
pub fn plan_path(options: &DeleteOptions, path: &[u8], lookup: PathLookup) -> (r: PathPlan)
    ensures
        match lookup {
            PathLookup::Missing => if options.force {
                r is Skip
            } else {
                r is LookupError
            },
            PathLookup::Unreadable => r is LookupError,
            PathLookup::Found { is_symlink, is_dir } => match literal_danger_spec(path@) {
                Some(m) => r matches PathPlan::Refuse(x) && x@ == m,
                None => r matches PathPlan::Proceed { check_canonical, directory, permanent }
                    && check_canonical == !is_symlink && directory == directory_check_spec(
                    options@,
                    is_dir,
                ) && permanent == (if options.permanent {
                    Some(removal_spec(options@, is_dir))
                } else {
                    None
                }),
            },
        },
{
    match lookup {
        PathLookup::Missing => {
            if missing_is_skipped(options) {
                PathPlan::Skip
            } else {
                PathPlan::LookupError
            }
        },
        PathLookup::Unreadable => PathPlan::LookupError,
        PathLookup::Found { is_symlink, is_dir } => match literal_danger(path) {
            Some(m) => PathPlan::Refuse(m),
            None => PathPlan::Proceed {
                check_canonical: !is_symlink,
                directory: directory_check(options, is_dir),
                permanent: if options.permanent {
                    Some(permanent_removal(options, is_dir))
                } else {
                    None
                },
            },
        },
    }
}

/// The message when a directory is refused.
pub fn directory_refusal() -> (r: &'static str)
    ensures
        r@ == "is a directory (use -r, -R, or -d)"@,
{
    "is a directory (use -r, -R, or -d)"
}

// ---------------------------------------------------------------------------
// Dangerous targets
// ---------------------------------------------------------------------------

/// The path `/`.
pub open spec fn root_path() -> Seq<u8> {
    seq![47u8]
}

/// Why a path as written may not be removed: `/`, `.` and `..` (in any
/// spelling with the same components) are refused.
pub open spec fn literal_danger_spec(path: Seq<u8>) -> Option<Seq<char>> {
    if same_path(path, root_path()) {
        Some("refusing to remove /"@)
    } else if same_path(path, crate::path::dot()) || same_path(path, crate::path::dot_dot()) {
        Some("refusing to remove . or .."@)
    } else {
        None
    }
}

/// Refuses `/`, `.` and `..` as written.
pub fn literal_danger(path: &[u8]) -> (r: Option<String>)
    ensures
        match r {
            Some(m) => literal_danger_spec(path@) == Some(m@),
            None => literal_danger_spec(path@) is None,
        },
{
    let mut root: Vec<u8> = Vec::new();
    root.push(47);
    assert(root@ =~= root_path());
    let mut dot: Vec<u8> = Vec::new();
    dot.push(46);
    assert(dot@ =~= crate::path::dot());
    let mut dot_dot: Vec<u8> = Vec::new();
    dot_dot.push(46);
    dot_dot.push(46);
    assert(dot_dot@ =~= crate::path::dot_dot());
    if path_eq(path, root.as_slice()) {
        Some(String::from_str("refusing to remove /"))
    } else if path_eq(path, dot.as_slice()) || path_eq(path, dot_dot.as_slice()) {
        Some(String::from_str("refusing to remove . or .."))
    } else {
        None
    }
}

/// Why a resolved path may not be removed: the root, the working directory
/// or one above it, the home directory or one above it.
pub open spec fn canonical_danger_spec(target: Seq<u8>, cwd: Seq<u8>, home: Seq<u8>) -> Option<
    Seq<char>,
> {
    if same_path(target, root_path()) {
        Some("refusing to remove /"@)
    } else if same_path(target, cwd) || starts_with_spec(cwd, target) {
        Some("refusing to remove the current working directory or one of its parents"@)
    } else if same_path(target, home) || starts_with_spec(home, target) {
        Some("refusing to remove the home directory or one of its parents"@)
    } else {
        None
    }
}

/// Refuses the root, and what holds the working or the home directory,
/// given the resolved target, working directory and home directory.
pub fn canonical_danger(target: &[u8], cwd: &[u8], home: &[u8]) -> (r: Option<String>)
    ensures
        match r {
            Some(m) => canonical_danger_spec(target@, cwd@, home@) == Some(m@),
            None => canonical_danger_spec(target@, cwd@, home@) is None,
        },
{
    let mut root: Vec<u8> = Vec::new();
    root.push(47);
    assert(root@ =~= root_path());
    if path_eq(target, root.as_slice()) {
        Some(String::from_str("refusing to remove /"))
    } else if path_eq(target, cwd) || path_starts_with(cwd, target) {
        Some(
            String::from_str(
                "refusing to remove the current working directory or one of its parents",
            ),
        )
    } else if path_eq(target, home) || path_starts_with(home, target) {
        Some(String::from_str("refusing to remove the home directory or one of its parents"))
    } else {
        None
    }
}

// ---------------------------------------------------------------------------
// Queries, purge, unlink, prompts
// ---------------------------------------------------------------------------

/// What looking a query up as an id gives.
pub enum ByIdOutcome {
    /// The record of that id.
    Found(TrashRecord),
    /// Not an id of the trash (invalid or unknown): try it as a path.
    TryPath,
    /// The metadata could not be read.
    Fail(StoreError),
}

/// What a query finds as an id: a record; or, when the id is invalid or
/// unknown, a lookup by path; any other error ends the lookup.
pub fn resolve_by_id(lookup: Result<Option<TrashRecord>, StoreError>) -> (r: ByIdOutcome)
    ensures
        match lookup {
            Ok(Some(rec)) => r matches ByIdOutcome::Found(x) && x@ == rec@,
            Ok(None) => r is TryPath,
            Err(StoreError::InvalidId) => r is TryPath,
            Err(e) => r matches ByIdOutcome::Fail(x) && x == e,
        },
{
    match lookup {
        Ok(Some(rec)) => ByIdOutcome::Found(rec),
        Ok(None) => ByIdOutcome::TryPath,
        Err(StoreError::InvalidId) => ByIdOutcome::TryPath,
        Err(e) => ByIdOutcome::Fail(e),
    }
}

/// The message when a query finds nothing.
pub fn not_found_message(query: &str) -> (r: String)
    ensures
        r@ == "not found in trash: "@ + query@,
{
    let mut m = String::from_str("not found in trash: ");
    m.append(query);
    m
}

/// What `purge` works on: every entry (`--all`), or the queries given;
/// neither is an error.
pub fn purge_scope(options: &PurgeOptions) -> (r: Result<bool, String>)
    ensures
        options.all ==> r == Ok::<bool, String>(true),
        !options.all && options.queries@.len() > 0 ==> r == Ok::<bool, String>(false),
        !options.all && options.queries@.len() == 0 ==> r is Err && r->Err_0@
            == "purge requires at least one id/path or --all"@,
{
    if options.all {
        return Ok(true);
    }
    if options.queries.len() == 0 {
        return Err(String::from_str("purge requires at least one id/path or --all"));
    }
    Ok(false)
}

/// The prompt before purging all `n` entries; none when the trash is
/// empty and there is nothing to confirm.
pub fn purge_all_prompt(n: usize) -> (r: Option<String>)
    ensures
        r is None <==> n == 0,
        r matches Some(p) ==> p@ == prompt_once_spec(true, n as nat),
{
    if n == 0 {
        None
    } else {
        Some(prompt_once_text(true, n))
    }
}

impl UnlinkOptions {
    /// The delete that `unlink` performs: the one path, in batch mode, with
    /// no other option.
    pub fn delete_options(&self) -> (r: DeleteOptions)
        ensures
            r@ == (DeleteView {
                mode: RequestedMode::Batch,
                paths: seq![self.path@],
                ..crate::cli::delete_defaults(RequestedMode::Batch)
            }),
    {
        let mut paths: Vec<Vec<u8>> = Vec::new();
        paths.push(crate::path::copy_range(self.path.as_slice(), 0, self.path.len()));
        assert(self.path@.subrange(0, self.path@.len() as int) =~= self.path@);
        assert(args_view(paths@) =~= seq![self.path@]);
        DeleteOptions {
            allow_dir: false,
            force: false,
            interactive_each: false,
            interactive_once: false,
            mode: RequestedMode::Batch,
            one_file_system: false,
            permanent: false,
            recursive: false,
            verbose: false,
            paths,
        }
    }
}

/// The lowercase of an ASCII letter; other characters stay.
pub open spec fn ascii_lower(c: char) -> char {
    if 'A' as u32 <= c as u32 && c as u32 <= 'Z' as u32 {
        ((c as u32) + 32) as char
    } else {
        c
    }
}

/// Whether an answer to a prompt says yes: `y` or `yes` in any case, with
/// surrounding whitespace ignored.
pub open spec fn is_yes_spec(answer: Seq<char>) -> bool {
    let t = trim(answer).map_values(|c: char| ascii_lower(c));
    t == "y"@ || t == "yes"@
}

fn lower(c: char) -> (r: char)
    ensures
        r == ascii_lower(c),
{
    if 'A' <= c && c <= 'Z' {
        ((c as u32) + 32) as u8 as char
    } else {
        c
    }
}

/// Whether an answer to a prompt says yes.
pub fn is_yes(answer: &str) -> (r: bool)
    ensures
        r == is_yes_spec(answer@),
{
    let cs = chars_of(answer);
    let (a, b) = trim_bounds(cs.as_slice(), 0, cs.len());
    assert(cs@.subrange(0, cs@.len() as int) =~= cs@);
    let mut low: Vec<char> = Vec::new();
    let mut i = a;
    while i < b
        invariant
            a <= i <= b <= cs@.len(),
            low@ == cs@.subrange(a as int, i as int).map_values(|c: char| ascii_lower(c)),
        decreases b - i,
    {
        low.push(lower(cs[i]));
        assert(low@ =~= cs@.subrange(a as int, i + 1).map_values(|c: char| ascii_lower(c)));
        i = i + 1;
    }
    crate::text::chars_are(low.as_slice(), "y") || crate::text::chars_are(low.as_slice(), "yes")
}

// ---------------------------------------------------------------------------
// Laws of deletes
// ---------------------------------------------------------------------------

/// `-r` takes a directory whole, checking its filesystem only under `-x`;
/// only `-d` without `-r` asks for an empty directory; a directory with
/// neither is refused; anything that is not a directory passes unchecked.
/// Removal for good makes the same choice.
pub proof fn law_directory_choice(o: DeleteView, is_dir: bool)
    ensures
        !is_dir ==> directory_check_spec(o, is_dir) == DirectoryCheck::NotADirectory,
        !is_dir ==> removal_spec(o, is_dir) == Removal::File,
        is_dir && o.recursive && !o.one_file_system ==> directory_check_spec(o, is_dir)
            == DirectoryCheck::Recursive,
        is_dir && o.recursive && o.one_file_system ==> directory_check_spec(o, is_dir)
            == DirectoryCheck::RecursiveSameFileSystem,
        is_dir && o.recursive ==> removal_spec(o, is_dir) == Removal::Tree,
        (directory_check_spec(o, is_dir) == DirectoryCheck::MustBeEmpty) <==> (is_dir
            && !o.recursive && o.allow_dir),
        (removal_spec(o, is_dir) == Removal::EmptyDirectory) <==> (is_dir && !o.recursive
            && o.allow_dir),
        (directory_check_spec(o, is_dir) == DirectoryCheck::Refuse) <==> (is_dir && !o.recursive
            && !o.allow_dir),
        (removal_spec(o, is_dir) == Removal::Refuse) <==> (directory_check_spec(o, is_dir)
            == DirectoryCheck::Refuse),
{
}

/// When none of `-f`, `-i`, `-I` decides prompting, a delete calls for the
/// one prompt when it is recursive, removes directories, or names more than
/// three paths; at most three paths without `-r` or `-d` never do; any of
/// `-f`, `-i`, `-I` turns it off; and naming one more path never turns it off.
pub proof fn law_auto_prompt_once(o: DeleteView, extra: Seq<u8>)
    ensures
        !o.force && !o.interactive_each && !o.interactive_once && o.paths.len() > 3
            ==> auto_prompt_once_spec(o),
        !o.force && !o.interactive_each && !o.interactive_once && o.recursive
            ==> auto_prompt_once_spec(o),
        !o.force && !o.interactive_each && !o.interactive_once && o.allow_dir
            ==> auto_prompt_once_spec(o),
        o.paths.len() <= 3 && !o.recursive && !o.allow_dir ==> !auto_prompt_once_spec(o),
        o.force || o.interactive_each || o.interactive_once ==> !auto_prompt_once_spec(o),
        auto_prompt_once_spec(o) ==> auto_prompt_once_spec(
            DeleteView { paths: o.paths.push(extra), ..o },
        ),
{
}

/// Paths are risky when there are more than three or one is a directory;
/// three or fewer without a directory are not; and adding a path never makes
/// them less risky.
pub proof fn law_paths_risky(is_dir: Seq<bool>, extra: bool)
    ensures
        is_dir.len() > 3 ==> paths_risky(is_dir),
        forall|j: int| 0 <= j < is_dir.len() && #[trigger] is_dir[j] ==> paths_risky(is_dir),
        is_dir.len() <= 3 && (forall|j: int| 0 <= j < is_dir.len() ==> !#[trigger] is_dir[j])
            ==> !paths_risky(is_dir),
        paths_risky(is_dir) ==> paths_risky(is_dir.push(extra)),
{
    assert forall|j: int| 0 <= j < is_dir.len() && #[trigger] is_dir[j] implies paths_risky(
        is_dir,
    ) by {
        assert(is_dir.contains(true));
    }
    if is_dir.contains(true) {
        let j = choose|j: int| 0 <= j < is_dir.len() && is_dir[j] == true;
        assert(is_dir.push(extra)[j] == true);
        assert(is_dir.push(extra).contains(true));
    }
}

/// `-I` always asks once; batch mode without `-I` never does; interactive
/// mode asks for a risky delete that nothing else prompts for, and only then
/// (without `-I`).
pub proof fn law_prompt_once(o: DeleteView, mode: EffectiveMode, paths_need: bool)
    ensures
        o.interactive_once ==> prompt_once_decision(o, mode, paths_need),
        !o.interactive_once && mode == EffectiveMode::Batch ==> !prompt_once_decision(
            o,
            mode,
            paths_need,
        ),
        !o.interactive_once && mode == EffectiveMode::Interactive ==> (prompt_once_decision(
            o,
            mode,
            paths_need,
        ) <==> (auto_prompt_once_spec(o) && paths_need)),
        !paths_need && !o.interactive_once ==> !prompt_once_decision(o, mode, paths_need),
{
}

/// An explicit mode holds whatever the terminals are; `auto` prompts
/// exactly when both stdin and stderr are terminals.
pub proof fn law_mode_resolution(a: bool, b: bool, c: bool, d: bool)
    ensures
        effective_mode(RequestedMode::Interactive, a, b) == EffectiveMode::Interactive,
        effective_mode(RequestedMode::Batch, a, b) == EffectiveMode::Batch,
        effective_mode(RequestedMode::Interactive, a, b) == effective_mode(
            RequestedMode::Interactive,
            c,
            d,
        ),
        effective_mode(RequestedMode::Batch, a, b) == effective_mode(RequestedMode::Batch, c, d),
        (effective_mode(RequestedMode::Auto, a, b) == EffectiveMode::Interactive) <==> (a && b),
{
}

/// The root, the working directory or any directory above it, and the home
/// directory or any directory above it are always refused; a target that
/// is none of these is never refused.
pub proof fn law_dangerous_targets(target: Seq<u8>, cwd: Seq<u8>, home: Seq<u8>)
    ensures
        same_path(target, root_path()) ==> canonical_danger_spec(target, cwd, home) is Some,
        same_path(target, cwd) ==> canonical_danger_spec(target, cwd, home) is Some,
        starts_with_spec(cwd, target) ==> canonical_danger_spec(target, cwd, home) is Some,
        same_path(target, home) ==> canonical_danger_spec(target, cwd, home) is Some,
        starts_with_spec(home, target) ==> canonical_danger_spec(target, cwd, home) is Some,
        !same_path(target, root_path()) && !same_path(target, cwd) && !starts_with_spec(cwd, target)
            && !same_path(target, home) && !starts_with_spec(home, target)
            ==> canonical_danger_spec(target, cwd, home) is None,
        same_path(target, root_path()) ==> literal_danger_spec(target) is Some,
        same_path(target, crate::path::dot()) ==> literal_danger_spec(target) is Some,
        same_path(target, crate::path::dot_dot()) ==> literal_danger_spec(target) is Some,
        !same_path(target, root_path()) && !same_path(target, crate::path::dot()) && !same_path(
            target,
            crate::path::dot_dot(),
        ) ==> literal_danger_spec(target) is None,
{
}

/// A delete with paths always goes through them, whatever its options; one
/// without paths does nothing under `-f` and otherwise fails for want of
/// operands.
pub proof fn law_delete_start(o: DeleteView)
    ensures
        o.paths.len() > 0 ==> delete_start_spec(o) == DeleteStart::Proceed,
        o.paths.len() == 0 && o.force ==> delete_start_spec(o) == DeleteStart::Nothing,
        o.paths.len() == 0 && !o.force ==> delete_start_spec(o) == DeleteStart::MissingOperands,
        delete_start_spec(o) == delete_start_spec(DeleteView { mode: RequestedMode::Batch, ..o }),
{
}

proof fn lemma_trim_trailing_space(t: Seq<char>, ws: char)
    requires
        crate::text::is_white_space(ws),
    ensures
        trim(t.push(ws)) == trim(t),
    decreases t.len(),
{
    assert(t.push(ws).drop_last() =~= t);
    if t.len() == 0 {
        assert(t.push(ws).drop_first() =~= t);
    } else if crate::text::is_white_space(t[0]) {
        assert(t.push(ws).drop_first() =~= t.drop_first().push(ws));
        lemma_trim_trailing_space(t.drop_first(), ws);
    }
}

/// Whitespace around an answer does not change it; a yes starts with `y`
/// or `Y` and has one or three letters, so `n`, `no` and the empty answer
/// never count as yes.
pub proof fn law_yes_answers(answer: Seq<char>, ws: char)
    ensures
        crate::text::is_white_space(ws) ==> is_yes_spec(answer.push(ws)) == is_yes_spec(answer),
        crate::text::is_white_space(ws) ==> is_yes_spec(seq![ws] + answer) == is_yes_spec(answer),
        is_yes_spec(answer) ==> trim(answer).len() == 1 || trim(answer).len() == 3,
        is_yes_spec(answer) ==> trim(answer)[0] == 'y' || trim(answer)[0] == 'Y',
{
    reveal_strlit("y");
    reveal_strlit("yes");
    if crate::text::is_white_space(ws) {
        lemma_trim_trailing_space(answer, ws);
        let w = seq![ws] + answer;
        assert(w[0] == ws);
        assert(w.drop_first() =~= answer);
    }
    let t = trim(answer);
    let low = t.map_values(|c: char| ascii_lower(c));
    if is_yes_spec(answer) {
        assert(low.len() == t.len());
        assert(low[0] == ascii_lower(t[0]));
        assert(low[0] == 'y');
        let c = t[0];
        if 'A' as u32 <= c as u32 && c as u32 <= 'Z' as u32 {
            assert(((c as u32) + 32) as char == 'y');
            vstd::utf8::char_u32_cast('y', 'y' as u32);
            assert((c as u32) + 32 == 'y' as u32);
            vstd::utf8::char_u32_cast(c, c as u32);
            vstd::utf8::char_u32_cast('Y', 'Y' as u32);
            assert(c as u32 == 'Y' as u32);
        }
    }
}

} // verus!
