//! The trash store: entry kinds, records, ids and the errors of the store.
use vstd::prelude::*;
use vstd::string::*;

use crate::path::{components, is_plain_name, join, join_spec, path_eq, push_bytes, same_path, slash, Component};
use crate::record::{id_fits_line, parse_record, parse_record_spec, record_result};
use crate::text::{
    chars_are, chars_of, contains_char, contains_pair, decimal, has_pair, parse_u64,
    parse_u64_spec, push_decimal, push_range, string_of, trim, trim_bounds, EnvValue,
};

verus! {

/// What kind of filesystem entry was moved to the trash.
#[derive(Clone, Copy, Debug, PartialEq, Eq, Structural)]
pub enum EntryKind {
    File,
    Directory,
    Symlink,
    Other,
}

/// Where a trashed entry ended up.
#[derive(Clone, Copy, Debug, PartialEq, Eq, Structural)]
pub enum MoveOutcome {
    CentralTrash,
    SiblingFallback,
}

/// A field of a metadata record.
#[derive(Clone, Copy, Debug, PartialEq, Eq, Structural)]
pub enum RecordField {
    Id,
    OriginalPath,
    TrashedPath,
    Timestamp,
    Kind,
    Outcome,
}

/// Why a store operation was refused.
#[derive(Clone, Copy, Debug, PartialEq, Eq, Structural)]
pub enum StoreError {
    /// The trash id is empty or could name a path outside the store.
    InvalidId,
    /// A hex field has an odd number of bytes.
    OddHexLength,
    /// A hex field holds a byte that is not a hex digit.
    BadHexDigit,
    /// A metadata record lacks a field (or holds an unreadable value for it).
    Missing(RecordField),
    /// The path has no parent directory.
    NoParent,
    /// Neither `SURE_RM_ROOT` nor `HOME` is set.
    NoHome,
}

/// The name under which a kind is written in metadata.
pub open spec fn kind_name(k: EntryKind) -> Seq<char> {
    match k {
        EntryKind::File => "file"@,
        EntryKind::Directory => "dir"@,
        EntryKind::Symlink => "symlink"@,
        EntryKind::Other => "other"@,
    }
}

/// The kind that a metadata name stands for, if any.
pub open spec fn kind_from_name(s: Seq<char>) -> Option<EntryKind> {
    if s == "file"@ {
        Some(EntryKind::File)
    } else if s == "dir"@ {
        Some(EntryKind::Directory)
    } else if s == "symlink"@ {
        Some(EntryKind::Symlink)
    } else if s == "other"@ {
        Some(EntryKind::Other)
    } else {
        None
    }
}

/// The name under which an outcome is written in metadata.
pub open spec fn outcome_name(o: MoveOutcome) -> Seq<char> {
    match o {
        MoveOutcome::CentralTrash => "central"@,
        MoveOutcome::SiblingFallback => "sibling"@,
    }
}

/// The outcome that a metadata name stands for, if any.
pub open spec fn outcome_from_name(s: Seq<char>) -> Option<MoveOutcome> {
    if s == "central"@ {
        Some(MoveOutcome::CentralTrash)
    } else if s == "sibling"@ {
        Some(MoveOutcome::SiblingFallback)
    } else {
        None
    }
}

/// Reading back the name of a kind gives the kind.
pub proof fn law_kind_name_round_trip(k: EntryKind)
    ensures
        kind_from_name(kind_name(k)) == Some(k),
{
    reveal_strlit("file");
    reveal_strlit("dir");
    reveal_strlit("symlink");
    reveal_strlit("other");
    assert("file"@.len() == 4 && "dir"@.len() == 3 && "symlink"@.len() == 7 && "other"@.len() == 5);
}

/// Reading back the name of an outcome gives the outcome.
pub proof fn law_outcome_name_round_trip(o: MoveOutcome)
    ensures
        outcome_from_name(outcome_name(o)) == Some(o),
{
    reveal_strlit("central");
    reveal_strlit("sibling");
    assert("central"@[0] != "sibling"@[0]);
}

impl EntryKind {
    /// The name of the kind, as written in metadata and in listings.
    pub fn as_str(self) -> (r: &'static str)
        ensures
            r@ == kind_name(self),
    {
        match self {
            EntryKind::File => "file",
            EntryKind::Directory => "dir",
            EntryKind::Symlink => "symlink",
            EntryKind::Other => "other",
        }
    }

    /// The kind named by `cs`, if any.
    pub fn from_chars(cs: &[char]) -> (r: Option<Self>)
        ensures
            r == kind_from_name(cs@),
    {
        if chars_are(cs, "file") {
            Some(EntryKind::File)
        } else if chars_are(cs, "dir") {
            Some(EntryKind::Directory)
        } else if chars_are(cs, "symlink") {
            Some(EntryKind::Symlink)
        } else if chars_are(cs, "other") {
            Some(EntryKind::Other)
        } else {
            None
        }
    }

    /// The kind named by `value`, if any.
    pub fn from_str(value: &str) -> (r: Option<Self>)
        ensures
            r == kind_from_name(value@),
    {
        let cs = chars_of(value);
        Self::from_chars(cs.as_slice())
    }

    /// The kind of an entry from what its metadata says: a symlink first,
    /// then a directory, then a regular file, and anything else last.
    pub fn classify(is_symlink: bool, is_dir: bool, is_file: bool) -> (r: Self)
        ensures
            r == (if is_symlink {
                EntryKind::Symlink
            } else if is_dir {
                EntryKind::Directory
            } else if is_file {
                EntryKind::File
            } else {
                EntryKind::Other
            }),
    {
        if is_symlink {
            EntryKind::Symlink
        } else if is_dir {
            EntryKind::Directory
        } else if is_file {
            EntryKind::File
        } else {
            EntryKind::Other
        }
    }
}

impl MoveOutcome {
    /// The name of the outcome, as written in metadata.
    pub fn as_str(self) -> (r: &'static str)
        ensures
            r@ == outcome_name(self),
    {
        match self {
            MoveOutcome::CentralTrash => "central",
            MoveOutcome::SiblingFallback => "sibling",
        }
    }

    /// The outcome named by `cs`, if any.
    pub fn from_chars(cs: &[char]) -> (r: Option<Self>)
        ensures
            r == outcome_from_name(cs@),
    {
        if chars_are(cs, "central") {
            Some(MoveOutcome::CentralTrash)
        } else if chars_are(cs, "sibling") {
            Some(MoveOutcome::SiblingFallback)
        } else {
            None
        }
    }
}

/// One trashed entry: where it came from, where it is, and when.
///
/// Paths are byte strings, as the filesystem keeps them.
#[derive(Clone, Debug)]
pub struct TrashRecord {
    pub id: String,
    pub original_path: Vec<u8>,
    pub trashed_path: Vec<u8>,
    pub deleted_at_secs: u64,
    pub kind: EntryKind,
    pub outcome: MoveOutcome,
    pub meta_path: Option<Vec<u8>>,
}

/// The contents of a [`TrashRecord`].
pub struct RecordView {
    pub id: Seq<char>,
    pub original_path: Seq<u8>,
    pub trashed_path: Seq<u8>,
    pub deleted_at_secs: u64,
    pub kind: EntryKind,
    pub outcome: MoveOutcome,
    pub meta_path: Option<Seq<u8>>,
}

/// The bytes of an optional byte vector.
pub open spec fn opt_bytes(o: Option<Vec<u8>>) -> Option<Seq<u8>> {
    match o {
        Some(v) => Some(v@),
        None => None,
    }
}

impl View for TrashRecord {
    type V = RecordView;

    open spec fn view(&self) -> RecordView {
        RecordView {
            id: self.id@,
            original_path: self.original_path@,
            trashed_path: self.trashed_path@,
            deleted_at_secs: self.deleted_at_secs,
            kind: self.kind,
            outcome: self.outcome,
            meta_path: opt_bytes(self.meta_path),
        }
    }
}

// ---------------------------------------------------------------------------
// Ids
// ---------------------------------------------------------------------------

/// An id that can name a metadata file inside the store: not empty, with no
/// `/` and no `..` in it.
pub open spec fn id_is_valid(id: Seq<char>) -> bool {
    id.len() > 0 && !id.contains('/') && !contains_pair(id, '.', '.')
}

/// Accepts an id that can name a metadata file inside the store; refuses an
/// empty id or one holding `/` or `..`.
pub fn validate_id(id: &str) -> (r: Result<(), StoreError>)
    ensures
        r is Ok <==> id_is_valid(id@),
        r matches Err(e) ==> e == StoreError::InvalidId,
{
    let cs = chars_of(id);
    if cs.len() == 0 || contains_char(cs.as_slice(), '/') || has_pair(cs.as_slice(), '.', '.') {
        return Err(StoreError::InvalidId);
    }
    Ok(())
}

/// The id made of a timestamp, a process id, the nanoseconds of the clock
/// and a sequence number, joined by dashes.
pub open spec fn make_id_spec(secs: u64, pid: u32, nanos: u32, seq: u64) -> Seq<char> {
    decimal(secs as nat) + seq!['-'] + decimal(pid as nat) + seq!['-'] + decimal(nanos as nat)
        + seq!['-'] + decimal(seq as nat)
}

/// A fresh id: `{secs}-{pid}-{nanos}-{seq}`.
pub fn make_id(secs: u64, pid: u32, nanos: u32, seq: u64) -> (id: String)
    ensures
        id@ == make_id_spec(secs, pid, nanos, seq),
{
    let mut out: Vec<char> = Vec::new();
    push_decimal(&mut out, secs);
    out.push('-');
    push_decimal(&mut out, pid as u64);
    out.push('-');
    push_decimal(&mut out, nanos as u64);
    out.push('-');
    push_decimal(&mut out, seq);
    string_of(out.as_slice())
}

proof fn lemma_decimal_chars(n: nat)
    ensures
        forall|i: int|
            0 <= i < decimal(n).len() ==> #[trigger] decimal(n)[i] != '/' && decimal(n)[i] != '.'
                && decimal(n)[i] != '\n' && decimal(n)[i] != '\r',
        decimal(n).len() > 0,
{
    crate::text::lemma_decimal(n);
    assert forall|i: int| 0 <= i < decimal(n).len() implies #[trigger] decimal(n)[i] != '/'
        && decimal(n)[i] != '.' && decimal(n)[i] != '\n' && decimal(n)[i] != '\r' by {
        assert(crate::text::is_digit(decimal(n)[i]));
    }
}

/// Every id the store makes is a valid id, and fits on one metadata line.
pub proof fn law_made_ids_are_valid(secs: u64, pid: u32, nanos: u32, seq: u64)
    ensures
        id_is_valid(make_id_spec(secs, pid, nanos, seq)),
        id_fits_line(make_id_spec(secs, pid, nanos, seq)),
{
    let id = make_id_spec(secs, pid, nanos, seq);
    lemma_decimal_chars(secs as nat);
    lemma_decimal_chars(pid as nat);
    lemma_decimal_chars(nanos as nat);
    lemma_decimal_chars(seq as nat);
    let a = decimal(secs as nat);
    let b = decimal(pid as nat);
    let c = decimal(nanos as nat);
    let d = decimal(seq as nat);
    assert forall|i: int| 0 <= i < id.len() implies #[trigger] id[i] != '/' && id[i] != '.'
        && id[i] != '\n' && id[i] != '\r' by {
        let la = a.len() as int;
        let lb = b.len() as int;
        let lc = c.len() as int;
        if i < la {
            assert(id[i] == a[i]);
        } else if i == la {
        } else if i < la + 1 + lb {
            assert(id[i] == b[i - la - 1]);
        } else if i == la + 1 + lb {
        } else if i < la + 2 + lb + lc {
            assert(id[i] == c[i - la - 2 - lb]);
        } else if i == la + 2 + lb + lc {
        } else {
            assert(id[i] == d[i - la - 3 - lb - lc]);
        }
    }
    assert(!id.contains('/'));
    assert(!id.contains('\n'));
    assert(id.last() == id[id.len() - 1]);
    assert(!contains_pair(id, '.', '.'));
}

// ---------------------------------------------------------------------------
// Time to live
// ---------------------------------------------------------------------------

/// The reading of a time-to-live setting.
#[derive(Clone, Copy, Debug, PartialEq, Eq, Structural)]
pub enum TtlResult {
    /// Entries older than this many seconds expire.
    Enabled(u64),
    /// Entries never expire.
    Disabled,
    /// The setting could not be read.
    Invalid,
}

impl TtlResult {
    /// The number of seconds, when expiry is enabled.
    pub fn as_secs(&self) -> (r: Option<u64>)
        ensures
            r == (match *self {
                TtlResult::Enabled(s) => Some(s),
                _ => None,
            }),
    {
        match self {
            TtlResult::Enabled(s) => Some(*s),
            _ => None,
        }
    }

    /// Whether the setting could not be read.
    pub fn is_invalid(&self) -> (r: bool)
        ensures
            r == (*self is Invalid),
    {
        match self {
            TtlResult::Invalid => true,
            _ => false,
        }
    }
}

/// The digits of a trimmed setting and the seconds per unit: a final `d`
/// means days, `h` hours, `s` seconds, and no suffix means days.
pub open spec fn ttl_parts(t: Seq<char>) -> (Seq<char>, nat) {
    if t.len() > 0 && t.last() == 'd' {
        (trim(t.drop_last()), 86400)
    } else if t.len() > 0 && t.last() == 'h' {
        (trim(t.drop_last()), 3600)
    } else if t.len() > 0 && t.last() == 's' {
        (trim(t.drop_last()), 1)
    } else {
        (t, 86400)
    }
}

/// How a time-to-live setting reads: blank or zero disables expiry; a
/// number with an optional unit gives seconds; anything else, or a value
/// past `u64::MAX` seconds, is invalid.
pub open spec fn parse_ttl_spec(text: Seq<char>) -> TtlResult {
    let t = trim(text);
    if t.len() == 0 {
        TtlResult::Disabled
    } else {
        let (digits, unit) = ttl_parts(t);
        match parse_u64_spec(digits) {
            None => TtlResult::Invalid,
            Some(n) => if n == 0 {
                TtlResult::Disabled
            } else if n * unit > u64::MAX {
                TtlResult::Invalid
            } else {
                TtlResult::Enabled((n * unit) as u64)
            },
        }
    }
}

/// Reads a time-to-live setting such as `30d`, `12h`, `3600s` or `7`.
pub fn parse_ttl(text: &str) -> (r: TtlResult)
    ensures
        r == parse_ttl_spec(text@),
{
    let cs = chars_of(text);
    let (a, b) = trim_bounds(cs.as_slice(), 0, cs.len());
    assert(cs@.subrange(0, cs@.len() as int) =~= cs@);
    let ghost t = cs@.subrange(a as int, b as int);
    if a == b {
        return TtlResult::Disabled;
    }
    let last = cs[b - 1];
    assert(t.last() == last);
    let (lo, hi, unit): (usize, usize, u64) = if last == 'd' || last == 'h' || last == 's' {
        let (x, y) = trim_bounds(cs.as_slice(), a, b - 1);
        assert(cs@.subrange(a as int, b - 1) =~= t.drop_last());
        let u: u64 = if last == 'd' {
            86400
        } else if last == 'h' {
            3600
        } else {
            1
        };
        (x, y, u)
    } else {
        (a, b, 86400)
    };
    assert(cs@.subrange(lo as int, hi as int) == ttl_parts(t).0);
    assert(unit == ttl_parts(t).1);
    let n = match parse_u64(cs.as_slice(), lo, hi) {
        Some(n) => n,
        None => {
            return TtlResult::Invalid;
        },
    };
    if n == 0 {
        return TtlResult::Disabled;
    }
    match n.checked_mul(unit) {
        Some(secs) => TtlResult::Enabled(secs),
        None => TtlResult::Invalid,
    }
}

/// The seconds per unit of a time-to-live suffix (`d`, `h` or `s`).
pub open spec fn unit_seconds(unit: char) -> nat {
    if unit == 'd' {
        86400
    } else if unit == 'h' {
        3600
    } else {
        1
    }
}

proof fn lemma_trim_plain(s: Seq<char>)
    requires
        s.len() > 0,
        !crate::text::is_white_space(s[0]),
        !crate::text::is_white_space(s.last()),
    ensures
        trim(s) == s,
{
}

proof fn lemma_decimal_trimmed(n: nat)
    ensures
        trim(decimal(n)) == decimal(n),
{
    crate::text::lemma_decimal(n);
    let d = decimal(n);
    assert(crate::text::is_digit(d[0]));
    assert(crate::text::is_digit(d[d.len() - 1]));
    lemma_trim_plain(d);
}

/// A number followed by a unit reads as that many days, hours or seconds
/// (zero disables expiry; a count of seconds past `u64::MAX` is invalid).
pub proof fn law_ttl_with_unit(n: u64, unit: char)
    requires
        unit == 'd' || unit == 'h' || unit == 's',
    ensures
        parse_ttl_spec(decimal(n as nat).push(unit)) == (if n == 0 {
            TtlResult::Disabled
        } else if n * unit_seconds(unit) > u64::MAX {
            TtlResult::Invalid
        } else {
            TtlResult::Enabled((n * unit_seconds(unit)) as u64)
        }),
{
    let t = decimal(n as nat).push(unit);
    crate::text::lemma_decimal(n as nat);
    assert(crate::text::is_digit(t[0]));
    lemma_trim_plain(t);
    assert(t.drop_last() =~= decimal(n as nat));
    lemma_decimal_trimmed(n as nat);
    crate::text::law_parse_decimal(n);
}

/// A bare number reads as that many days.
pub proof fn law_ttl_bare_number_is_days(n: u64)
    ensures
        parse_ttl_spec(decimal(n as nat)) == (if n == 0 {
            TtlResult::Disabled
        } else if n * 86400 > u64::MAX {
            TtlResult::Invalid
        } else {
            TtlResult::Enabled((n * 86400) as u64)
        }),
{
    lemma_decimal_trimmed(n as nat);
    crate::text::lemma_decimal(n as nat);
    let d = decimal(n as nat);
    assert(crate::text::is_digit(d.last()));
    crate::text::law_parse_decimal(n);
}

/// The time-to-live in force and the warning to show about the setting.
pub struct TtlSetting {
    pub secs: Option<u64>,
    pub warning: Option<String>,
}

/// The time-to-live that a `SURE_RM_TTL` value sets, with a warning when the
/// value is not UTF-8 or cannot be read (and is then ignored).
pub fn ttl_secs(value: &EnvValue) -> (r: TtlSetting)
    ensures
        r.secs == (match value {
            EnvValue::Text(t) => parse_ttl_spec(t@).as_secs_spec(),
            _ => None,
        }),
        r.warning matches Some(w) ==> (match value {
            EnvValue::NotUnicode => w@ == "SURE_RM_TTL is not valid UTF-8, ignoring"@,
            EnvValue::Text(t) => parse_ttl_spec(t@) is Invalid && w@ == "invalid SURE_RM_TTL value: "@
                + t@ + ", ignoring"@,
            EnvValue::Unset => false,
        }),
        r.warning is None ==> (match value {
            EnvValue::NotUnicode => false,
            EnvValue::Text(t) => !(parse_ttl_spec(t@) is Invalid),
            EnvValue::Unset => true,
        }),
{
    match value {
        EnvValue::Unset => TtlSetting { secs: None, warning: None },
        EnvValue::NotUnicode => TtlSetting {
            secs: None,
            warning: Some(String::from_str("SURE_RM_TTL is not valid UTF-8, ignoring")),
        },
        EnvValue::Text(t) => {
            let parsed = parse_ttl(t.as_str());
            match parsed {
                TtlResult::Enabled(s) => TtlSetting { secs: Some(s), warning: None },
                TtlResult::Disabled => TtlSetting { secs: None, warning: None },
                TtlResult::Invalid => {
                    let mut w = String::from_str("invalid SURE_RM_TTL value: ");
                    w.append(t.as_str());
                    w.append(", ignoring");
                    TtlSetting { secs: None, warning: Some(w) }
                },
            }
        },
    }
}

impl TtlResult {
    /// The number of seconds, when expiry is enabled.
    pub open spec fn as_secs_spec(self) -> Option<u64> {
        match self {
            TtlResult::Enabled(s) => Some(s),
            _ => None,
        }
    }
}

/// Whether an entry deleted at `deleted_at_secs` has outlived `ttl` at
/// `now`. An entry stamped in the future never expires.
pub open spec fn expired_spec(now: u64, deleted_at_secs: u64, ttl: u64) -> bool {
    now >= deleted_at_secs && now - deleted_at_secs > ttl
}

/// Whether an entry deleted at `deleted_at_secs` has outlived `ttl` at
/// `now` (see [`expired_spec`]).
pub fn is_expired(now: u64, deleted_at_secs: u64, ttl: u64) -> (r: bool)
    ensures
        r == expired_spec(now, deleted_at_secs, ttl),
{
    match now.checked_sub(deleted_at_secs) {
        Some(age) => age > ttl,
        None => false,
    }
}

// ---------------------------------------------------------------------------
// Metadata files
// ---------------------------------------------------------------------------

/// The bytes of `.meta`.
pub open spec fn meta_suffix() -> Seq<u8> {
    seq![46u8, 109u8, 101u8, 116u8, 97u8]
}

/// Where the metadata of `id` lives in `meta_dir`: `<meta_dir>/<id>.meta`,
/// for a valid id only.
pub open spec fn meta_path_spec(meta_dir: Seq<u8>, id: Seq<char>) -> Result<Seq<u8>, StoreError> {
    if id_is_valid(id) {
        Ok(join_spec(meta_dir, vstd::utf8::encode_utf8(id) + meta_suffix()))
    } else {
        Err(StoreError::InvalidId)
    }
}

/// A result holding bytes, by its contents.
pub open spec fn bytes_result(r: Result<Vec<u8>, StoreError>) -> Result<Seq<u8>, StoreError> {
    match r {
        Ok(v) => Ok(v@),
        Err(e) => Err(e),
    }
}

/// The metadata file of `id` in `meta_dir`; refuses an invalid id.
pub fn meta_path(meta_dir: &[u8], id: &str) -> (r: Result<Vec<u8>, StoreError>)
    ensures
        bytes_result(r) == meta_path_spec(meta_dir@, id@),
{
    match validate_id(id) {
        Ok(()) => {},
        Err(e) => {
            return Err(e);
        },
    }
    let mut name: Vec<u8> = Vec::new();
    push_bytes(&mut name, id.as_bytes());
    name.push(46);
    name.push(109);
    name.push(101);
    name.push(116);
    name.push(97);
    assert(name@ =~= vstd::utf8::encode_utf8(id@) + meta_suffix());
    Ok(join(meta_dir, name.as_slice()))
}

/// No byte of the UTF-8 form of a scalar other than `/` is a separator.
proof fn lemma_scalar_has_no_slash(c: u32)
    requires
        c != 47,
    ensures
        !vstd::utf8::encode_scalar(c).contains(slash()),
{
    let e = vstd::utf8::encode_scalar(c);
    if vstd::utf8::has_width_1_encoding(c) {
        assert((c & 0x7F) as u8 == c) by (bit_vector)
            requires
                c <= 0x7F,
        ;
        assert(e =~= seq![c as u8]);
    } else {
        assert forall|x: u8| (0x80u8 | x) >= 0x80 by {
            assert((0x80u8 | x) >= 0x80) by (bit_vector);
        }
        assert forall|j: int| 0 <= j < e.len() implies e[j] >= 0x80 by {
            let a = ((c >> 6) & 0x1F) as u8;
            let b = ((c >> 12) & 0x0F) as u8;
            let d = ((c >> 18) & 0x7) as u8;
            assert((0xC0u8 | a) >= 0x80) by (bit_vector);
            assert((0xE0u8 | b) >= 0x80) by (bit_vector);
            assert((0xF0u8 | d) >= 0x80) by (bit_vector);
        }
    }
    if e.contains(slash()) {
        let j = choose|j: int| 0 <= j < e.len() && e[j] == slash();
        assert(e[j] == 47u8);
    }
}

/// The UTF-8 form of text without `/` holds no separator byte.
proof fn lemma_utf8_has_no_slash(s: Seq<char>)
    requires
        !s.contains('/'),
    ensures
        !vstd::utf8::encode_utf8(s).contains(slash()),
    decreases s.len(),
{
    if s.len() > 0 {
        assert(s[0] != '/') by {
            if s[0] == '/' {
                assert(s.contains('/'));
            }
        }
        assert(s[0] as u32 != 47) by {
            vstd::utf8::char_u32_cast(s[0], s[0] as u32);
            vstd::utf8::char_u32_cast('/', '/' as u32);
            assert('/' as u32 == 47);
        }
        lemma_scalar_has_no_slash(s[0] as u32);
        assert(!s.drop_first().contains('/')) by {
            if s.drop_first().contains('/') {
                let j = choose|j: int| 0 <= j < s.len() - 1 && s.drop_first()[j] == '/';
                assert(s[j + 1] == '/');
            }
        }
        lemma_utf8_has_no_slash(s.drop_first());
        let a = vstd::utf8::encode_scalar(s[0] as u32);
        let b = vstd::utf8::encode_utf8(s.drop_first());
        assert(vstd::utf8::encode_utf8(s) == a + b);
        if (a + b).contains(slash()) {
            let j = choose|j: int| 0 <= j < (a + b).len() && (a + b)[j] == slash();
            if j < a.len() {
                assert(a[j] == slash());
            } else {
                assert(b[j - a.len()] == slash());
            }
        }
    } else {
        assert(vstd::utf8::encode_utf8(s) =~= Seq::<u8>::empty());
    }
}

/// The metadata file of a valid id lies directly inside the metadata
/// directory, under the name `<id>.meta`: no id that `validate_id` accepts
/// reaches outside it.
pub proof fn law_valid_id_stays_in_metadata_dir(meta_dir: Seq<u8>, id: Seq<char>)
    requires
        id_is_valid(id),
    ensures
        meta_path_spec(meta_dir, id) is Ok,
        components(meta_path_spec(meta_dir, id)->Ok_0) == components(meta_dir).push(
            Component::Normal(vstd::utf8::encode_utf8(id) + meta_suffix()),
        ),
{
    let name = vstd::utf8::encode_utf8(id) + meta_suffix();
    let u = vstd::utf8::encode_utf8(id);
    lemma_utf8_has_no_slash(id);
    assert(!name.contains(slash())) by {
        if name.contains(slash()) {
            let j = choose|j: int| 0 <= j < name.len() && name[j] == slash();
            if j < u.len() {
                assert(u[j] == slash());
            } else {
                assert(meta_suffix()[j - u.len()] == slash());
            }
        }
    }
    assert(name.len() >= 5);
    assert(name != crate::path::dot() && name != crate::path::dot_dot()) by {
        if name == crate::path::dot() || name == crate::path::dot_dot() {
            assert(name.len() <= 2);
        }
    }
    assert(is_plain_name(name));
    crate::path::law_join_adds_component(meta_dir, name);
}

/// Expiry: an entry is expired exactly when more than `ttl` seconds have
/// passed since its deletion; an entry exactly `ttl` old, or stamped in the
/// future, is kept; once expired it stays expired as time goes on, and a
/// longer time-to-live never expires more.
pub proof fn law_expiry(now: u64, later: u64, deleted_at_secs: u64, ttl: u64, longer: u64)
    ensures
        deleted_at_secs > now ==> !expired_spec(now, deleted_at_secs, ttl),
        now >= deleted_at_secs && now - deleted_at_secs == ttl ==> !expired_spec(
            now,
            deleted_at_secs,
            ttl,
        ),
        now >= deleted_at_secs && now - deleted_at_secs > ttl ==> expired_spec(
            now,
            deleted_at_secs,
            ttl,
        ),
        expired_spec(now, deleted_at_secs, ttl) && later >= now ==> expired_spec(
            later,
            deleted_at_secs,
            ttl,
        ),
        expired_spec(now, deleted_at_secs, longer) && ttl <= longer ==> expired_spec(
            now,
            deleted_at_secs,
            ttl,
        ),
{
}

/// Where the store lives: `SURE_RM_ROOT` when set, whatever `HOME` holds;
/// otherwise the directory `.sure-rm` directly inside `HOME`; with neither,
/// there is no store.
pub proof fn law_trash_root(root_var: Option<Seq<u8>>, home: Option<Seq<u8>>)
    ensures
        root_var matches Some(r) ==> trash_root_spec(root_var, home) == Ok::<Seq<u8>, StoreError>(
            r,
        ),
        root_var is None && home is Some ==> (trash_root_spec(root_var, home) matches Ok(t)
            && components(t) == components(home->0).push(Component::Normal(store_dir_name()))),
        root_var is None && home is None ==> trash_root_spec(root_var, home) == Err::<
            Seq<u8>,
            StoreError,
        >(StoreError::NoHome),
{
    if root_var is None && home is Some {
        let n = store_dir_name();
        assert(n.len() == 8);
        assert(!n.contains(slash())) by {
            if n.contains(slash()) {
                let j = choose|j: int| 0 <= j < n.len() && n[j] == slash();
                assert(n[j] != 47u8);
            }
        }
        assert(n != crate::path::dot() && n != crate::path::dot_dot()) by {
            if n == crate::path::dot() || n == crate::path::dot_dot() {
                assert(n.len() <= 2);
            }
        }
        crate::path::law_join_adds_component(home->0, n);
    }
}

/// A lookup result, by its contents.
pub open spec fn lookup_result(r: Result<Option<TrashRecord>, StoreError>) -> Result<
    Option<RecordView>,
    StoreError,
> {
    match r {
        Ok(Some(rec)) => Ok(Some(rec@)),
        Ok(None) => Ok(None),
        Err(e) => Err(e),
    }
}

/// What looking up `id` gives, when its metadata file holds `content`
/// (`None` when there is no such file).
pub open spec fn read_record_spec(id: Seq<char>, meta_dir: Seq<u8>, content: Option<Seq<char>>) -> Result<
    Option<RecordView>,
    StoreError,
> {
    match meta_path_spec(meta_dir, id) {
        Err(e) => Err(e),
        Ok(path) => match content {
            None => Ok(None),
            Some(c) => match parse_record_spec(c, path) {
                Ok(r) => Ok(Some(r)),
                Err(e) => Err(e),
            },
        },
    }
}

/// Looks up the record of `id`, given what its metadata file in
/// `meta_dir` holds (`None` when there is no such file). An invalid id is
/// refused before anything else.
pub fn read_record(id: &str, meta_dir: &[u8], content: Option<&str>) -> (r: Result<
    Option<TrashRecord>,
    StoreError,
>)
    ensures
        lookup_result(r) == read_record_spec(
            id@,
            meta_dir@,
            match content {
                Some(c) => Some(c@),
                None => None,
            },
        ),
{
    let path = match meta_path(meta_dir, id) {
        Ok(p) => p,
        Err(e) => {
            return Err(e);
        },
    };
    match content {
        None => Ok(None),
        Some(c) => match parse_record(c, path) {
            Ok(rec) => Ok(Some(rec)),
            Err(e) => Err(e),
        },
    }
}

/// The metadata file to remove to forget `id`; refuses an invalid id.
pub fn delete_record(id: &str, meta_dir: &[u8]) -> (r: Result<Vec<u8>, StoreError>)
    ensures
        bytes_result(r) == meta_path_spec(meta_dir@, id@),
{
    meta_path(meta_dir, id)
}

/// The metadata file to remove to forget `record`: the one it was read
/// from when known (whatever its id), otherwise the one its id names.
pub open spec fn record_file_spec(record: RecordView, meta_dir: Seq<u8>) -> Result<
    Seq<u8>,
    StoreError,
> {
    match record.meta_path {
        Some(p) => Ok(p),
        None => meta_path_spec(meta_dir, record.id),
    }
}

/// The metadata file to remove to forget `record`.
pub fn delete_record_file(record: &TrashRecord, meta_dir: &[u8]) -> (r: Result<Vec<u8>, StoreError>)
    ensures
        bytes_result(r) == record_file_spec(record@, meta_dir@),
{
    match &record.meta_path {
        Some(p) => {
            let c = crate::path::copy_range(p.as_slice(), 0, p.len());
            assert(p@.subrange(0, p@.len() as int) =~= p@);
            Ok(c)
        },
        None => delete_record(record.id.as_str(), meta_dir),
    }
}

// ---------------------------------------------------------------------------
// Finding the latest record of a path
// ---------------------------------------------------------------------------

/// Lexicographic order of texts by code point (the order of `String`).
pub open spec fn chars_lt(a: Seq<char>, b: Seq<char>) -> bool
    decreases a.len(),
{
    if a.len() == 0 {
        b.len() > 0
    } else if b.len() == 0 {
        false
    } else if a[0] != b[0] {
        (a[0] as u32) < (b[0] as u32)
    } else {
        chars_lt(a.drop_first(), b.drop_first())
    }
}

/// Records ordered by deletion time, then by id.
pub open spec fn record_key_lt(a: RecordView, b: RecordView) -> bool {
    a.deleted_at_secs < b.deleted_at_secs || (a.deleted_at_secs == b.deleted_at_secs && chars_lt(
        a.id,
        b.id,
    ))
}

proof fn lemma_chars_lt_irreflexive(a: Seq<char>)
    ensures
        !chars_lt(a, a),
    decreases a.len(),
{
    if a.len() > 0 {
        lemma_chars_lt_irreflexive(a.drop_first());
    }
}

proof fn lemma_chars_lt_total(a: Seq<char>, b: Seq<char>)
    ensures
        chars_lt(a, b) ==> !chars_lt(b, a),
        !chars_lt(a, b) && !chars_lt(b, a) ==> a == b,
    decreases a.len(),
{
    if a.len() > 0 && b.len() > 0 {
        lemma_chars_lt_total(a.drop_first(), b.drop_first());
        if !chars_lt(a, b) && !chars_lt(b, a) {
            assert(a[0] as u32 == b[0] as u32);
            vstd::utf8::char_u32_cast(a[0], a[0] as u32);
            vstd::utf8::char_u32_cast(b[0], b[0] as u32);
            assert(a[0] == b[0]);
            assert(a.drop_first() == b.drop_first());
            assert(a =~= seq![a[0]] + a.drop_first());
            assert(b =~= seq![b[0]] + b.drop_first());
        }
    } else if a.len() == 0 && b.len() == 0 {
        assert(a =~= b);
    }
}

proof fn lemma_chars_lt_transitive(a: Seq<char>, b: Seq<char>, c: Seq<char>)
    requires
        chars_lt(a, b),
        chars_lt(b, c),
    ensures
        chars_lt(a, c),
    decreases a.len(),
{
    if a.len() > 0 && b.len() > 0 && c.len() > 0 && a[0] == b[0] && b[0] == c[0] {
        lemma_chars_lt_transitive(a.drop_first(), b.drop_first(), c.drop_first());
    }
}

proof fn lemma_chars_lt_order(a: Seq<char>, b: Seq<char>, c: Seq<char>)
    ensures
        !chars_lt(a, a),
        chars_lt(a, b) && chars_lt(b, c) ==> chars_lt(a, c),
        !chars_lt(a, b) && !chars_lt(b, a) ==> a == b,
        chars_lt(a, b) ==> !chars_lt(b, a),
{
    lemma_chars_lt_irreflexive(a);
    lemma_chars_lt_total(a, b);
    if chars_lt(a, b) && chars_lt(b, c) {
        lemma_chars_lt_transitive(a, b, c);
    }
}

/// The order of records is a strict total order on (time, id).
proof fn lemma_key_order(a: RecordView, b: RecordView, c: RecordView)
    ensures
        !record_key_lt(a, a),
        record_key_lt(a, b) && record_key_lt(b, c) ==> record_key_lt(a, c),
        !record_key_lt(a, b) && !record_key_lt(b, a) ==> a.deleted_at_secs == b.deleted_at_secs
            && a.id == b.id,
{
    lemma_chars_lt_order(a.id, b.id, c.id);
}

/// Whether `a` comes before `b` in text order.
pub fn chars_less(a: &[char], b: &[char]) -> (r: bool)
    ensures
        r == chars_lt(a@, b@),
{
    let mut i: usize = 0;
    assert(a@.skip(0) =~= a@ && b@.skip(0) =~= b@);
    while i < a.len() && i < b.len() && a[i] == b[i]
        invariant
            i <= a@.len(),
            i <= b@.len(),
            chars_lt(a@, b@) == chars_lt(a@.skip(i as int), b@.skip(i as int)),
        decreases a@.len() - i,
    {
        assert(a@.skip(i as int).drop_first() =~= a@.skip(i + 1));
        assert(b@.skip(i as int).drop_first() =~= b@.skip(i + 1));
        i = i + 1;
    }
    let ghost sa = a@.skip(i as int);
    let ghost sb = b@.skip(i as int);
    if i == a.len() {
        assert(sa.len() == 0);
        i < b.len()
    } else if i == b.len() {
        assert(sb.len() == 0 && sa.len() > 0);
        false
    } else {
        assert(sa[0] == a@[i as int] && sb[0] == b@[i as int]);
        (a[i] as u32) < (b[i] as u32)
    }
}

/// Whether a record of `target` is still in the trash.
pub open spec fn is_candidate(r: RecordView, target: Seq<u8>, present: bool) -> bool {
    present && same_path(r.original_path, target)
}

/// Whether `a` comes before `b`: earlier deletion, or same time and smaller id.
pub fn record_key_less(a: &TrashRecord, b: &TrashRecord) -> (r: bool)
    ensures
        r == record_key_lt(a@, b@),
{
    if a.deleted_at_secs != b.deleted_at_secs {
        return a.deleted_at_secs < b.deleted_at_secs;
    }
    let ai = chars_of(a.id.as_str());
    let bi = chars_of(b.id.as_str());
    chars_less(ai.as_slice(), bi.as_slice())
}

/// The contents of a list of records.
pub open spec fn records_view(v: Seq<TrashRecord>) -> Seq<RecordView> {
    v.map_values(|r: TrashRecord| r@)
}

/// Which record a path names: among the records of that path whose data is
/// still `present`, the one deleted last (then the one with the largest id;
/// the first such in the list when several tie). `None` when there is none.
pub fn find_latest_record_by_original_path(
    records: &Vec<TrashRecord>,
    target: &[u8],
    present: &Vec<bool>,
) -> (r: Option<usize>)
    requires
        present@.len() == records@.len(),
    ensures
        match r {
            None => forall|j: int|
                0 <= j < records@.len() ==> !is_candidate(
                    #[trigger] records@[j]@,
                    target@,
                    present@[j],
                ),
            Some(i) => {
                &&& i < records@.len()
                &&& is_candidate(records@[i as int]@, target@, present@[i as int])
                &&& forall|j: int|
                    0 <= j < records@.len() && is_candidate(
                        #[trigger] records@[j]@,
                        target@,
                        present@[j],
                    ) ==> !record_key_lt(records@[i as int]@, records@[j]@)
                &&& forall|j: int|
                    0 <= j < i && is_candidate(#[trigger] records@[j]@, target@, present@[j])
                        ==> record_key_lt(records@[j]@, records@[i as int]@)
            },
        },
{
    let n = records.len();
    let mut best: Option<usize> = None;
    let mut i: usize = 0;
    while i < n
        invariant
            n == records@.len(),
            present@.len() == n,
            i <= n,
            match best {
                None => forall|j: int|
                    0 <= j < i ==> !is_candidate(#[trigger] records@[j]@, target@, present@[j]),
                Some(b) => {
                    &&& b < i
                    &&& is_candidate(records@[b as int]@, target@, present@[b as int])
                    &&& forall|j: int|
                        0 <= j < i && is_candidate(#[trigger] records@[j]@, target@, present@[j])
                            ==> !record_key_lt(records@[b as int]@, records@[j]@)
                    &&& forall|j: int|
                        0 <= j < b && is_candidate(#[trigger] records@[j]@, target@, present@[j])
                            ==> record_key_lt(records@[j]@, records@[b as int]@)
                },
            },
        decreases n - i,
    {
        let cand = present[i] && path_eq(records[i].original_path.as_slice(), target);
        if cand {
            match best {
                None => {
                    proof {
                        lemma_key_order(records@[i as int]@, records@[i as int]@, records@[i as int]@);
                    }
                    best = Some(i);
                },
                Some(b) => {
                    if record_key_less(&records[b], &records[i]) {
                        proof {
                            let ri = records@[i as int]@;
                            let rb = records@[b as int]@;
                            lemma_key_order(ri, ri, ri);
                            assert forall|j: int|
                                0 <= j < i + 1 && is_candidate(
                                    #[trigger] records@[j]@,
                                    target@,
                                    present@[j],
                                ) implies !record_key_lt(ri, records@[j]@) by {
                                lemma_key_order(rb, ri, records@[j]@);
                                lemma_key_order(ri, records@[j]@, rb);
                            }
                            assert forall|j: int|
                                0 <= j < i && is_candidate(
                                    #[trigger] records@[j]@,
                                    target@,
                                    present@[j],
                                ) implies record_key_lt(records@[j]@, ri) by {
                                let rj = records@[j]@;
                                lemma_key_order(rb, rj, ri);
                                lemma_key_order(rj, rb, ri);
                            }
                        }
                        best = Some(i);
                    }
                },
            }
        }
        i = i + 1;
    }
    best
}

// ---------------------------------------------------------------------------
// Listing order
// ---------------------------------------------------------------------------

/// Whether record `i` is listed before record `j`: newer first, and in
/// their given order when deleted at the same second.
pub open spec fn listed_before(rs: Seq<RecordView>, i: int, j: int) -> bool {
    rs[i].deleted_at_secs > rs[j].deleted_at_secs || (rs[i].deleted_at_secs
        == rs[j].deleted_at_secs && i < j)
}

/// The order in which records are listed: the indices of all of them,
/// newest first, ties kept in their given order.
pub fn list_order(records: &Vec<TrashRecord>) -> (r: Vec<usize>)
    ensures
        r@.len() == records@.len(),
        forall|p: int| 0 <= p < r@.len() ==> #[trigger] r@[p] < records@.len(),
        forall|p: int, q: int|
            0 <= p < q < r@.len() ==> listed_before(
                records_view(records@),
                #[trigger] r@[p] as int,
                #[trigger] r@[q] as int,
            ),
{
    let ghost rs = records_view(records@);
    let n = records.len();
    let mut order: Vec<usize> = Vec::new();
    let mut k: usize = 0;
    while k < n
        invariant
            n == records@.len(),
            rs == records_view(records@),
            k <= n,
            order@.len() == k,
            forall|p: int| 0 <= p < order@.len() ==> #[trigger] order@[p] < k,
            forall|p: int, q: int|
                0 <= p < q < order@.len() ==> listed_before(
                    rs,
                    #[trigger] order@[p] as int,
                    #[trigger] order@[q] as int,
                ),
        decreases n - k,
    {
        let secs = records[k].deleted_at_secs;
        assert(rs[k as int].deleted_at_secs == secs);
        let mut pos: usize = 0;
        while pos < order.len() && records[order[pos]].deleted_at_secs >= secs
            invariant
                n == records@.len(),
                rs == records_view(records@),
                k < n,
                order@.len() == k,
                pos <= order@.len(),
                forall|p: int| 0 <= p < order@.len() ==> #[trigger] order@[p] < k,
                forall|p: int| 0 <= p < pos ==> rs[#[trigger] order@[p] as int].deleted_at_secs
                    >= secs,
            decreases order@.len() - pos,
        {
            assert(rs[order@[pos as int] as int] == records@[order@[pos as int] as int]@);
            pos = pos + 1;
        }
        proof {
            if pos < order@.len() {
                assert(rs[order@[pos as int] as int] == records@[order@[pos as int] as int]@);
                assert(rs[order@[pos as int] as int].deleted_at_secs < secs);
            }
        }
        let ghost old_order = order@;
        order.insert(pos, k);
        proof {
            let o = order@;
            assert(o == old_order.insert(pos as int, k));
            assert forall|p: int| 0 <= p < o.len() implies #[trigger] o[p] < k + 1 by {
                if p < pos {
                    assert(o[p] == old_order[p]);
                } else if p > pos {
                    assert(o[p] == old_order[p - 1]);
                }
            }
            assert forall|p: int, q: int| 0 <= p < q < o.len() implies listed_before(
                rs,
                #[trigger] o[p] as int,
                #[trigger] o[q] as int,
            ) by {
                if q < pos {
                    assert(o[p] == old_order[p] && o[q] == old_order[q]);
                } else if q == pos {
                    assert(o[p] == old_order[p]);
                    assert(o[q] == k);
                } else if p < pos {
                    assert(o[p] == old_order[p] && o[q] == old_order[q - 1]);
                } else if p == pos {
                    assert(o[p] == k);
                    assert(o[q] == old_order[q - 1]);
                    if q - 1 > pos {
                        assert(listed_before(rs, old_order[pos as int] as int, old_order[q - 1] as int));
                    }
                } else {
                    assert(o[p] == old_order[p - 1] && o[q] == old_order[q - 1]);
                }
            }
        }
        k = k + 1;
    }
    order
}

impl StoreError {
    /// What went wrong, in words.
    pub fn message(&self) -> (r: &'static str)
        ensures
            r@ == match *self {
                StoreError::InvalidId => "invalid trash id"@,
                StoreError::OddHexLength => "hex string must have even length"@,
                StoreError::BadHexDigit => "invalid hex digit in metadata"@,
                StoreError::Missing(RecordField::Id) => "missing id"@,
                StoreError::Missing(RecordField::OriginalPath) => "missing original path"@,
                StoreError::Missing(RecordField::TrashedPath) => "missing trashed path"@,
                StoreError::Missing(RecordField::Timestamp) => "missing timestamp"@,
                StoreError::Missing(RecordField::Kind) => "missing kind"@,
                StoreError::Missing(RecordField::Outcome) => "missing outcome"@,
                StoreError::NoParent => "path has no parent"@,
                StoreError::NoHome => "HOME is not set"@,
            },
    {
        match self {
            StoreError::InvalidId => "invalid trash id",
            StoreError::OddHexLength => "hex string must have even length",
            StoreError::BadHexDigit => "invalid hex digit in metadata",
            StoreError::Missing(RecordField::Id) => "missing id",
            StoreError::Missing(RecordField::OriginalPath) => "missing original path",
            StoreError::Missing(RecordField::TrashedPath) => "missing trashed path",
            StoreError::Missing(RecordField::Timestamp) => "missing timestamp",
            StoreError::Missing(RecordField::Kind) => "missing kind",
            StoreError::Missing(RecordField::Outcome) => "missing outcome",
            StoreError::NoParent => "path has no parent",
            StoreError::NoHome => "HOME is not set",
        }
    }

    /// Whether the input was refused (as opposed to unreadable metadata).
    pub fn is_invalid_input(&self) -> (r: bool)
        ensures
            r == (*self is InvalidId || *self is NoParent),
    {
        match self {
            StoreError::InvalidId | StoreError::NoParent => true,
            _ => false,
        }
    }
}

// ---------------------------------------------------------------------------
// Where the store lives
// ---------------------------------------------------------------------------

/// The bytes of `.sure-rm`.
pub open spec fn store_dir_name() -> Seq<u8> {
    seq![46u8, 115u8, 117u8, 114u8, 101u8, 45u8, 114u8, 109u8]
}

/// The root of the store: `SURE_RM_ROOT` when set, else `$HOME/.sure-rm`.
pub open spec fn trash_root_spec(root_var: Option<Seq<u8>>, home: Option<Seq<u8>>) -> Result<
    Seq<u8>,
    StoreError,
> {
    match root_var {
        Some(r) => Ok(r),
        None => match home {
            Some(h) => Ok(join_spec(h, store_dir_name())),
            None => Err(StoreError::NoHome),
        },
    }
}

/// The root of the store, from the values of `SURE_RM_ROOT` and `HOME`.
pub fn trash_root(root_var: Option<&[u8]>, home: Option<&[u8]>) -> (r: Result<Vec<u8>, StoreError>)
    ensures
        bytes_result(r) == trash_root_spec(
            match root_var {
                Some(v) => Some(v@),
                None => None,
            },
            match home {
                Some(v) => Some(v@),
                None => None,
            },
        ),
{
    match root_var {
        Some(r) => {
            let c = crate::path::copy_range(r, 0, r.len());
            assert(r@.subrange(0, r@.len() as int) =~= r@);
            Ok(c)
        },
        None => match home {
            Some(h) => {
                let mut name: Vec<u8> = Vec::new();
                name.push(46);
                name.push(115);
                name.push(117);
                name.push(114);
                name.push(101);
                name.push(45);
                name.push(114);
                name.push(109);
                assert(name@ =~= store_dir_name());
                Ok(join(h, name.as_slice()))
            },
            None => Err(StoreError::NoHome),
        },
    }
}

/// Where trashed entries are kept: `<root>/trash`.
pub fn trash_dir(root: &[u8]) -> (r: Vec<u8>)
    ensures
        r@ == join_spec(root@, seq![116u8, 114u8, 97u8, 115u8, 104u8]),
{
    let mut name: Vec<u8> = Vec::new();
    name.push(116);
    name.push(114);
    name.push(97);
    name.push(115);
    name.push(104);
    assert(name@ =~= seq![116u8, 114u8, 97u8, 115u8, 104u8]);
    join(root, name.as_slice())
}

/// Where metadata files are kept: `<root>/meta`.
pub fn metadata_dir(root: &[u8]) -> (r: Vec<u8>)
    ensures
        r@ == join_spec(root@, seq![109u8, 101u8, 116u8, 97u8]),
{
    let mut name: Vec<u8> = Vec::new();
    name.push(109);
    name.push(101);
    name.push(116);
    name.push(97);
    assert(name@ =~= seq![109u8, 101u8, 116u8, 97u8]);
    join(root, name.as_slice())
}

/// Where a restore puts an entry: the destination asked for, else where it
/// came from.
pub fn restore_target(record: &TrashRecord, destination: Option<&[u8]>) -> (r: Vec<u8>)
    ensures
        r@ == match destination {
            Some(d) => d@,
            None => record.original_path@,
        },
{
    match destination {
        Some(d) => {
            let c = crate::path::copy_range(d, 0, d.len());
            assert(d@.subrange(0, d@.len() as int) =~= d@);
            c
        },
        None => {
            let p = record.original_path.as_slice();
            let c = crate::path::copy_range(p, 0, p.len());
            assert(p@.subrange(0, p@.len() as int) =~= p@);
            c
        },
    }
}

} // verus!
