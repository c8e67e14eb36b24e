//! The metadata file of a trashed entry: how it is written and read back.
//!
//! A metadata file is a list of `key=value` lines. Paths are stored as
//! lowercase hex of their bytes, so that any path survives the round trip.
use vstd::prelude::*;
use vstd::string::*;
use vstd::utf8::*;

use crate::hex::{hex_decode_bytes, hex_decode_spec, hex_encode_bytes, hex_encode_spec};
use crate::store::{
    kind_from_name, kind_name, opt_bytes, outcome_from_name, outcome_name, EntryKind, MoveOutcome,
    RecordField, RecordView, StoreError, TrashRecord,
};
use crate::text::{
    chars_of, decimal, parse_u64, parse_u64_spec, push_decimal, push_range, push_str, range_is,
    string_of, string_of_range,
};

verus! {

// ---------------------------------------------------------------------------
// Lines
// ---------------------------------------------------------------------------

/// The index of the first `c` in `s`, or the length of `s` when there is none.
pub open spec fn find_char(s: Seq<char>, c: char) -> int
    decreases s.len(),
{
    if s.len() == 0 {
        0
    } else if s[0] == c {
        0
    } else {
        1 + find_char(s.drop_first(), c)
    }
}

/// `find_char` is the first occurrence.
pub proof fn lemma_find_char(s: Seq<char>, c: char)
    ensures
        0 <= find_char(s, c) <= s.len(),
        forall|i: int| 0 <= i < find_char(s, c) ==> s[i] != c,
        find_char(s, c) < s.len() ==> s[find_char(s, c)] == c,
    decreases s.len(),
{
    if s.len() > 0 && s[0] != c {
        lemma_find_char(s.drop_first(), c);
        assert forall|i: int| 0 <= i < find_char(s, c) implies s[i] != c by {
            if i > 0 {
                assert(s[i] == s.drop_first()[i - 1]);
            }
        }
    }
}

/// An index before which `c` does not occur, and at which it does (or the end), is `find_char`.
pub proof fn lemma_find_char_at(s: Seq<char>, c: char, k: int)
    requires
        0 <= k <= s.len(),
        forall|i: int| 0 <= i < k ==> s[i] != c,
        k < s.len() ==> s[k] == c,
    ensures
        find_char(s, c) == k,
    decreases k,
{
    if k > 0 {
        assert(s[0] != c);
        assert forall|i: int| 0 <= i < k - 1 implies s.drop_first()[i] != c by {
            assert(s.drop_first()[i] == s[i + 1]);
        }
        lemma_find_char_at(s.drop_first(), c, k - 1);
    }
}

/// A line without the `\r` of a `\r\n` ending.
pub open spec fn strip_cr(l: Seq<char>) -> Seq<char> {
    if l.len() > 0 && l.last() == '\r' {
        l.drop_last()
    } else {
        l
    }
}

/// The lines of `s`, as `str::lines` gives them: split at `\n`, with the
/// `\r` of a `\r\n` ending removed, and no empty line after a final `\n`.
pub open spec fn lines(s: Seq<char>) -> Seq<Seq<char>>
    decreases s.len(),
{
    if s.len() == 0 {
        seq![]
    } else {
        let i = find_char(s, '\n');
        if i < 0 || i >= s.len() {
            seq![s]
        } else {
            seq![strip_cr(s.take(i))] + lines(s.skip(i + 1))
        }
    }
}

// ---------------------------------------------------------------------------
// The fields read so far
// ---------------------------------------------------------------------------

/// The fields of a record, as far as they have been read.
pub struct FieldsView {
    pub id: Option<Seq<char>>,
    pub deleted_at_secs: Option<u64>,
    pub kind: Option<EntryKind>,
    pub outcome: Option<MoveOutcome>,
    pub original_path: Option<Seq<u8>>,
    pub trashed_path: Option<Seq<u8>>,
}

/// No field read yet.
pub open spec fn no_fields() -> FieldsView {
    FieldsView {
        id: None,
        deleted_at_secs: None,
        kind: None,
        outcome: None,
        original_path: None,
        trashed_path: None,
    }
}

/// What one `key=value` line does to the fields read so far. A later line
/// overrides an earlier one with the same key; an unreadable timestamp,
/// kind or outcome clears that field; unreadable hex is an error; unknown
/// keys are ignored.
pub open spec fn apply_field(f: FieldsView, key: Seq<char>, value: Seq<char>) -> Result<
    FieldsView,
    StoreError,
> {
    if key == "id"@ {
        Ok(FieldsView { id: Some(value), ..f })
    } else if key == "deleted_at_secs"@ {
        Ok(FieldsView { deleted_at_secs: parse_u64_spec(value), ..f })
    } else if key == "kind"@ {
        Ok(FieldsView { kind: kind_from_name(value), ..f })
    } else if key == "outcome"@ {
        Ok(FieldsView { outcome: outcome_from_name(value), ..f })
    } else if key == "original_path_hex"@ {
        match hex_decode_spec(encode_utf8(value)) {
            Ok(b) => Ok(FieldsView { original_path: Some(b), ..f }),
            Err(e) => Err(e),
        }
    } else if key == "trashed_path_hex"@ {
        match hex_decode_spec(encode_utf8(value)) {
            Ok(b) => Ok(FieldsView { trashed_path: Some(b), ..f }),
            Err(e) => Err(e),
        }
    } else {
        Ok(f)
    }
}

/// What one line does: a line without `=` is skipped; otherwise it is split
/// at its first `=` into key and value.
pub open spec fn apply_line(f: FieldsView, line: Seq<char>) -> Result<FieldsView, StoreError> {
    let e = find_char(line, '=');
    if e < 0 || e >= line.len() {
        Ok(f)
    } else {
        apply_field(f, line.take(e), line.skip(e + 1))
    }
}

/// The fields after reading `ls` in order, stopping at the first error.
pub open spec fn fold_lines(f: FieldsView, ls: Seq<Seq<char>>) -> Result<FieldsView, StoreError>
    decreases ls.len(),
{
    if ls.len() == 0 {
        Ok(f)
    } else {
        match apply_line(f, ls[0]) {
            Ok(g) => fold_lines(g, ls.drop_first()),
            Err(e) => Err(e),
        }
    }
}

/// The record made of the fields, or the first missing field in the order
/// id, original path, trashed path, timestamp, kind, outcome.
pub open spec fn finish(f: FieldsView, meta_path: Seq<u8>) -> Result<RecordView, StoreError> {
    if f.id is None {
        Err(StoreError::Missing(RecordField::Id))
    } else if f.original_path is None {
        Err(StoreError::Missing(RecordField::OriginalPath))
    } else if f.trashed_path is None {
        Err(StoreError::Missing(RecordField::TrashedPath))
    } else if f.deleted_at_secs is None {
        Err(StoreError::Missing(RecordField::Timestamp))
    } else if f.kind is None {
        Err(StoreError::Missing(RecordField::Kind))
    } else if f.outcome is None {
        Err(StoreError::Missing(RecordField::Outcome))
    } else {
        Ok(
            RecordView {
                id: f.id->0,
                original_path: f.original_path->0,
                trashed_path: f.trashed_path->0,
                deleted_at_secs: f.deleted_at_secs->0,
                kind: f.kind->0,
                outcome: f.outcome->0,
                meta_path: Some(meta_path),
            },
        )
    }
}

/// The record that the metadata text `content`, read from `meta_path`, holds.
pub open spec fn parse_record_spec(content: Seq<char>, meta_path: Seq<u8>) -> Result<
    RecordView,
    StoreError,
> {
    match fold_lines(no_fields(), lines(content)) {
        Ok(f) => finish(f, meta_path),
        Err(e) => Err(e),
    }
}

/// The contents of a result of reading a record.
pub open spec fn record_result(r: Result<TrashRecord, StoreError>) -> Result<RecordView, StoreError> {
    match r {
        Ok(rec) => Ok(rec@),
        Err(e) => Err(e),
    }
}

/// The fields of a record read so far.
struct Fields {
    id: Option<String>,
    deleted_at_secs: Option<u64>,
    kind: Option<EntryKind>,
    outcome: Option<MoveOutcome>,
    original_path: Option<Vec<u8>>,
    trashed_path: Option<Vec<u8>>,
}

spec fn opt_chars(o: Option<String>) -> Option<Seq<char>> {
    match o {
        Some(s) => Some(s@),
        None => None,
    }
}

impl View for Fields {
    type V = FieldsView;

    closed spec fn view(&self) -> FieldsView {
        FieldsView {
            id: opt_chars(self.id),
            deleted_at_secs: self.deleted_at_secs,
            kind: self.kind,
            outcome: self.outcome,
            original_path: opt_bytes(self.original_path),
            trashed_path: opt_bytes(self.trashed_path),
        }
    }
}

/// The first index at or after `from` and before `to` where `c` occurs, or `to`.
fn find_in(cs: &[char], from: usize, to: usize, c: char) -> (r: usize)
    requires
        from <= to <= cs@.len(),
    ensures
        from <= r <= to,
        r - from == find_char(cs@.subrange(from as int, to as int), c),
{
    let mut i = from;
    while i < to && cs[i] != c
        invariant
            from <= i <= to <= cs@.len(),
            forall|j: int| from <= j < i ==> cs@[j] != c,
        decreases to - i,
    {
        i = i + 1;
    }
    proof {
        let s = cs@.subrange(from as int, to as int);
        assert forall|j: int| 0 <= j < i - from implies s[j] != c by {
            assert(s[j] == cs@[from + j]);
        }
        lemma_find_char_at(s, c, i - from);
    }
    i
}

/// Applies the line `cs[a..b]` to the fields read so far.
fn read_line(f: &mut Fields, content: &str, cs: &Vec<char>, a: usize, b: usize) -> (r: Result<
    (),
    StoreError,
>)
    requires
        cs@ == content@,
        a <= b <= cs@.len(),
    ensures
        match apply_line(old(f)@, cs@.subrange(a as int, b as int)) {
            Ok(g) => r is Ok && final(f)@ == g,
            Err(e) => r == Err::<(), StoreError>(e),
        },
{
    let ghost line = cs@.subrange(a as int, b as int);
    let e = find_in(cs.as_slice(), a, b, '=');
    if e == b {
        return Ok(());
    }
    proof {
        assert(line.take(e - a) =~= cs@.subrange(a as int, e as int));
        assert(line.skip(e - a + 1) =~= cs@.subrange(e + 1, b as int));
    }
    let v0 = e + 1;
    if range_is(cs.as_slice(), a, e, "id") {
        f.id = Some(string_of_range(cs.as_slice(), v0, b));
    } else if range_is(cs.as_slice(), a, e, "deleted_at_secs") {
        f.deleted_at_secs = parse_u64(cs.as_slice(), v0, b);
    } else if range_is(cs.as_slice(), a, e, "kind") {
        f.kind = EntryKind::from_chars(&cs.as_slice()[v0..b]);
    } else if range_is(cs.as_slice(), a, e, "outcome") {
        f.outcome = MoveOutcome::from_chars(&cs.as_slice()[v0..b]);
    } else if range_is(cs.as_slice(), a, e, "original_path_hex") {
        let value = content.substring_char(v0, b);
        match hex_decode_bytes(value) {
            Ok(bytes) => {
                f.original_path = Some(bytes);
            },
            Err(err) => {
                return Err(err);
            },
        }
    } else if range_is(cs.as_slice(), a, e, "trashed_path_hex") {
        let value = content.substring_char(v0, b);
        match hex_decode_bytes(value) {
            Ok(bytes) => {
                f.trashed_path = Some(bytes);
            },
            Err(err) => {
                return Err(err);
            },
        }
    }
    Ok(())
}

/// Reads a metadata record from its text `content`, found at `meta_path`.
pub fn parse_record(content: &str, meta_path: Vec<u8>) -> (r: Result<TrashRecord, StoreError>)
    ensures
        record_result(r) == parse_record_spec(content@, meta_path@),
{
    let cs = chars_of(content);
    let n = cs.len();
    let mut f = Fields {
        id: None,
        deleted_at_secs: None,
        kind: None,
        outcome: None,
        original_path: None,
        trashed_path: None,
    };
    assert(cs@.skip(0) =~= cs@);
    let mut pos: usize = 0;
    while pos < n
        invariant
            cs@ == content@,
            n == cs@.len(),
            pos <= n,
            fold_lines(no_fields(), lines(cs@)) == fold_lines(f@, lines(cs@.skip(pos as int))),
        decreases n - pos,
    {
        let ghost s = cs@.skip(pos as int);
        let j = find_in(cs.as_slice(), pos, n, '\n');
        proof {
            assert(cs@.subrange(pos as int, n as int) =~= s);
        }
        let ghost old_f = f@;
        if j == n {
            let res = read_line(&mut f, content, &cs, pos, n);
            proof {
                assert(lines(s) == seq![s]);
                assert(seq![s][0] == s);
                assert(seq![s].drop_first() =~= Seq::<Seq<char>>::empty());
            }
            match res {
                Ok(()) => {},
                Err(e) => {
                    return Err(e);
                },
            }
            pos = n;
            assert(cs@.skip(pos as int) =~= Seq::<char>::empty());
        } else {
            let le = if j > pos && cs[j - 1] == '\r' {
                j - 1
            } else {
                j
            };
            proof {
                let i = j - pos;
                assert(s.take(i) =~= cs@.subrange(pos as int, j as int));
                assert(strip_cr(s.take(i)) =~= cs@.subrange(pos as int, le as int));
                assert(s.skip(i + 1) =~= cs@.skip(j + 1));
                let ls = seq![strip_cr(s.take(i))] + lines(s.skip(i + 1));
                assert(lines(s) == ls);
                assert(ls[0] == cs@.subrange(pos as int, le as int));
                assert(ls.drop_first() =~= lines(cs@.skip(j + 1)));
            }
            let res = read_line(&mut f, content, &cs, pos, le);
            match res {
                Ok(()) => {},
                Err(e) => {
                    return Err(e);
                },
            }
            pos = j + 1;
        }
    }
    assert(cs@.skip(n as int) =~= Seq::<char>::empty());
    assert(cs@ == content@);
    let id = match f.id {
        Some(v) => v,
        None => {
            return Err(StoreError::Missing(RecordField::Id));
        },
    };
    let original_path = match f.original_path {
        Some(v) => v,
        None => {
            return Err(StoreError::Missing(RecordField::OriginalPath));
        },
    };
    let trashed_path = match f.trashed_path {
        Some(v) => v,
        None => {
            return Err(StoreError::Missing(RecordField::TrashedPath));
        },
    };
    let deleted_at_secs = match f.deleted_at_secs {
        Some(v) => v,
        None => {
            return Err(StoreError::Missing(RecordField::Timestamp));
        },
    };
    let kind = match f.kind {
        Some(v) => v,
        None => {
            return Err(StoreError::Missing(RecordField::Kind));
        },
    };
    let outcome = match f.outcome {
        Some(v) => v,
        None => {
            return Err(StoreError::Missing(RecordField::Outcome));
        },
    };
    Ok(
        TrashRecord {
            id,
            original_path,
            trashed_path,
            deleted_at_secs,
            kind,
            outcome,
            meta_path: Some(meta_path),
        },
    )
}

// ---------------------------------------------------------------------------
// Writing
// ---------------------------------------------------------------------------

/// One `key=value` line.
pub open spec fn entry_line(key: Seq<char>, value: Seq<char>) -> Seq<char> {
    key + seq!['='] + value
}

/// One `key=value` line with its line ending.
pub open spec fn entry(key: Seq<char>, value: Seq<char>) -> Seq<char> {
    entry_line(key, value) + seq!['\n']
}

/// The metadata text of a record: id, timestamp, kind, outcome and both
/// paths in hex, one per line. Where the metadata file lives is not written.
pub open spec fn render_spec(r: RecordView) -> Seq<char> {
    entry("id"@, r.id) + entry("deleted_at_secs"@, decimal(r.deleted_at_secs as nat)) + entry(
        "kind"@,
        kind_name(r.kind),
    ) + entry("outcome"@, outcome_name(r.outcome)) + entry(
        "original_path_hex"@,
        hex_encode_spec(r.original_path),
    ) + entry("trashed_path_hex"@, hex_encode_spec(r.trashed_path))
}

fn push_entry_start(out: &mut Vec<char>, key: &str)
    ensures
        final(out)@ == old(out)@ + key@ + seq!['='],
{
    push_str(out, key);
    out.push('=');
}

/// The metadata text of `record`.
pub fn render_record(record: &TrashRecord) -> (s: String)
    ensures
        s@ == render_spec(record@),
{
    let r = record;
    let mut out: Vec<char> = Vec::new();
    let ghost e0 = out@;
    push_entry_start(&mut out, "id");
    let id = chars_of(r.id.as_str());
    push_range(&mut out, id.as_slice(), 0, id.len());
    out.push('\n');
    assert(id@.subrange(0, id@.len() as int) =~= id@);
    let ghost e1 = out@;
    assert(e1 =~= entry("id"@, r.id@));
    push_entry_start(&mut out, "deleted_at_secs");
    push_decimal(&mut out, r.deleted_at_secs);
    out.push('\n');
    let ghost e2 = out@;
    assert(e2 =~= e1 + entry("deleted_at_secs"@, decimal(r.deleted_at_secs as nat)));
    push_entry_start(&mut out, "kind");
    push_str(&mut out, r.kind.as_str());
    out.push('\n');
    let ghost e3 = out@;
    assert(e3 =~= e2 + entry("kind"@, kind_name(r.kind)));
    push_entry_start(&mut out, "outcome");
    push_str(&mut out, r.outcome.as_str());
    out.push('\n');
    let ghost e4 = out@;
    assert(e4 =~= e3 + entry("outcome"@, outcome_name(r.outcome)));
    push_entry_start(&mut out, "original_path_hex");
    let h1 = hex_encode_bytes(r.original_path.as_slice());
    push_str(&mut out, h1.as_str());
    out.push('\n');
    let ghost e5 = out@;
    assert(e5 =~= e4 + entry("original_path_hex"@, hex_encode_spec(r.original_path@)));
    push_entry_start(&mut out, "trashed_path_hex");
    let h2 = hex_encode_bytes(r.trashed_path.as_slice());
    push_str(&mut out, h2.as_str());
    out.push('\n');
    assert(out@ =~= e5 + entry("trashed_path_hex"@, hex_encode_spec(r.trashed_path@)));
    string_of(out.as_slice())
}

// ---------------------------------------------------------------------------
// Reading back what was written
// ---------------------------------------------------------------------------

/// An id that stays one line of metadata: it holds no line feed and does
/// not end in a carriage return (which would be taken for a `\r\n` ending).
pub open spec fn id_fits_line(id: Seq<char>) -> bool {
    !id.contains('\n') && !(id.len() > 0 && id.last() == '\r')
}

/// The lines of text that starts with a full line.
proof fn lemma_lines_entry(line: Seq<char>, rest: Seq<char>)
    requires
        !line.contains('\n'),
        !(line.len() > 0 && line.last() == '\r'),
    ensures
        lines(line + seq!['\n'] + rest) == seq![line] + lines(rest),
{
    let s = line + seq!['\n'] + rest;
    let k = line.len() as int;
    assert forall|i: int| 0 <= i < k implies s[i] != '\n' by {
        assert(s[i] == line[i]);
        if s[i] == '\n' {
            assert(line.contains('\n'));
        }
    }
    assert(s[k] == '\n');
    lemma_find_char_at(s, '\n', k);
    assert(s.take(k) =~= line);
    assert(s.skip(k + 1) =~= rest);
    assert(strip_cr(line) == line);
}

/// A line whose key holds no `=` splits at the end of the key.
proof fn lemma_apply_entry(f: FieldsView, key: Seq<char>, value: Seq<char>)
    requires
        !key.contains('='),
    ensures
        apply_line(f, entry_line(key, value)) == apply_field(f, key, value),
{
    let l = entry_line(key, value);
    let k = key.len() as int;
    assert forall|i: int| 0 <= i < k implies l[i] != '=' by {
        assert(l[i] == key[i]);
        if l[i] == '=' {
            assert(key.contains('='));
        }
    }
    assert(l[k] == '=');
    lemma_find_char_at(l, '=', k);
    assert(l.take(k) =~= key);
    assert(l.skip(k + 1) =~= value);
}

/// An entry's line holds no line feed when its key and value hold none, and
/// does not end in a carriage return when its value does not.
proof fn lemma_entry_line(key: Seq<char>, value: Seq<char>)
    requires
        !key.contains('\n'),
        !value.contains('\n'),
        !(value.len() > 0 && value.last() == '\r'),
    ensures
        !entry_line(key, value).contains('\n'),
        !(entry_line(key, value).len() > 0 && entry_line(key, value).last() == '\r'),
{
    let l = entry_line(key, value);
    assert forall|i: int| 0 <= i < l.len() implies l[i] != '\n' by {
        if i < key.len() {
            assert(l[i] == key[i]);
            if l[i] == '\n' {
                assert(key.contains('\n'));
            }
        } else if i > key.len() {
            assert(l[i] == value[i - key.len() - 1]);
            if l[i] == '\n' {
                assert(value.contains('\n'));
            }
        }
    }
    if value.len() > 0 {
        assert(l.last() == value.last());
    }
}

proof fn lemma_digits_safe(n: nat)
    ensures
        !decimal(n).contains('\n'),
        decimal(n).len() > 0 && decimal(n).last() != '\r',
{
    crate::text::lemma_decimal(n);
    let d = decimal(n);
    assert forall|i: int| 0 <= i < d.len() implies d[i] != '\n' by {
        assert(crate::text::is_digit(d[i]));
    }
    assert(crate::text::is_digit(d[d.len() - 1]));
}

proof fn lemma_hex_safe(b: Seq<u8>)
    ensures
        !hex_encode_spec(b).contains('\n'),
        !(hex_encode_spec(b).len() > 0 && hex_encode_spec(b).last() == '\r'),
{
    let h = hex_encode_spec(b);
    assert forall|i: int| 0 <= i < h.len() implies h[i] != '\n' && h[i] != '\r' by {
        let d: nat = if i % 2 == 0 {
            (b[i / 2] / 16) as nat
        } else {
            (b[i / 2] % 16) as nat
        };
        assert(h[i] == crate::hex::hex_char(d));
        assert(d < 16);
    }
    if h.len() > 0 {
        assert(h.last() == h[h.len() - 1]);
    }
}

proof fn lemma_names_safe(k: EntryKind, o: MoveOutcome)
    ensures
        !kind_name(k).contains('\n'),
        !(kind_name(k).len() > 0 && kind_name(k).last() == '\r'),
        !outcome_name(o).contains('\n'),
        !(outcome_name(o).len() > 0 && outcome_name(o).last() == '\r'),
{
    reveal_strlit("file");
    reveal_strlit("dir");
    reveal_strlit("symlink");
    reveal_strlit("other");
    reveal_strlit("central");
    reveal_strlit("sibling");
    assert("file"@ =~= seq!['f', 'i', 'l', 'e']);
    assert("dir"@ =~= seq!['d', 'i', 'r']);
    assert("symlink"@ =~= seq!['s', 'y', 'm', 'l', 'i', 'n', 'k']);
    assert("other"@ =~= seq!['o', 't', 'h', 'e', 'r']);
    assert("central"@ =~= seq!['c', 'e', 'n', 't', 'r', 'a', 'l']);
    assert("sibling"@ =~= seq!['s', 'i', 'b', 'l', 'i', 'n', 'g']);
}

proof fn lemma_keys()
    ensures
        "id"@ =~= seq!['i', 'd'],
        "deleted_at_secs"@ =~= seq![
            'd', 'e', 'l', 'e', 't', 'e', 'd', '_', 'a', 't', '_', 's', 'e', 'c', 's',
        ],
        "kind"@ =~= seq!['k', 'i', 'n', 'd'],
        "outcome"@ =~= seq!['o', 'u', 't', 'c', 'o', 'm', 'e'],
        "original_path_hex"@ =~= seq![
            'o', 'r', 'i', 'g', 'i', 'n', 'a', 'l', '_', 'p', 'a', 't', 'h', '_', 'h', 'e', 'x',
        ],
        "trashed_path_hex"@ =~= seq![
            't', 'r', 'a', 's', 'h', 'e', 'd', '_', 'p', 'a', 't', 'h', '_', 'h', 'e', 'x',
        ],
{
    reveal_strlit("id");
    reveal_strlit("deleted_at_secs");
    reveal_strlit("kind");
    reveal_strlit("outcome");
    reveal_strlit("original_path_hex");
    reveal_strlit("trashed_path_hex");
}

proof fn lemma_no_eq_in_keys()
    ensures
        !"id"@.contains('='),
        !"deleted_at_secs"@.contains('='),
        !"kind"@.contains('='),
        !"outcome"@.contains('='),
        !"original_path_hex"@.contains('='),
        !"trashed_path_hex"@.contains('='),
        !"id"@.contains('\n'),
        !"deleted_at_secs"@.contains('\n'),
        !"kind"@.contains('\n'),
        !"outcome"@.contains('\n'),
        !"original_path_hex"@.contains('\n'),
        !"trashed_path_hex"@.contains('\n'),
{
    lemma_keys();
}

proof fn step_id(f: FieldsView, v: Seq<char>)
    ensures
        apply_line(f, entry_line("id"@, v)) == Ok::<FieldsView, StoreError>(
            FieldsView { id: Some(v), ..f },
        ),
{
    lemma_no_eq_in_keys();
    lemma_apply_entry(f, "id"@, v);
}

proof fn step_deleted(f: FieldsView, n: u64)
    ensures
        apply_line(f, entry_line("deleted_at_secs"@, decimal(n as nat))) == Ok::<
            FieldsView,
            StoreError,
        >(FieldsView { deleted_at_secs: Some(n), ..f }),
{
    lemma_no_eq_in_keys();
    lemma_keys();
    lemma_apply_entry(f, "deleted_at_secs"@, decimal(n as nat));
    crate::text::law_parse_decimal(n);
}

proof fn step_kind(f: FieldsView, k: EntryKind)
    ensures
        apply_line(f, entry_line("kind"@, kind_name(k))) == Ok::<FieldsView, StoreError>(
            FieldsView { kind: Some(k), ..f },
        ),
{
    lemma_no_eq_in_keys();
    lemma_keys();
    lemma_apply_entry(f, "kind"@, kind_name(k));
    crate::store::law_kind_name_round_trip(k);
}

proof fn step_outcome(f: FieldsView, o: MoveOutcome)
    ensures
        apply_line(f, entry_line("outcome"@, outcome_name(o))) == Ok::<FieldsView, StoreError>(
            FieldsView { outcome: Some(o), ..f },
        ),
{
    lemma_no_eq_in_keys();
    lemma_keys();
    lemma_apply_entry(f, "outcome"@, outcome_name(o));
    crate::store::law_outcome_name_round_trip(o);
}

proof fn step_original(f: FieldsView, b: Seq<u8>)
    ensures
        apply_line(f, entry_line("original_path_hex"@, hex_encode_spec(b))) == Ok::<
            FieldsView,
            StoreError,
        >(FieldsView { original_path: Some(b), ..f }),
{
    lemma_no_eq_in_keys();
    lemma_keys();
    lemma_apply_entry(f, "original_path_hex"@, hex_encode_spec(b));
    crate::hex::law_hex_round_trip(b);
}

proof fn step_trashed(f: FieldsView, b: Seq<u8>)
    ensures
        apply_line(f, entry_line("trashed_path_hex"@, hex_encode_spec(b))) == Ok::<
            FieldsView,
            StoreError,
        >(FieldsView { trashed_path: Some(b), ..f }),
{
    lemma_no_eq_in_keys();
    lemma_keys();
    lemma_apply_entry(f, "trashed_path_hex"@, hex_encode_spec(b));
    crate::hex::law_hex_round_trip(b);
}

/// The six lines of a record's metadata text.
pub open spec fn record_lines(r: RecordView) -> Seq<Seq<char>> {
    seq![
        entry_line("id"@, r.id),
        entry_line("deleted_at_secs"@, decimal(r.deleted_at_secs as nat)),
        entry_line("kind"@, kind_name(r.kind)),
        entry_line("outcome"@, outcome_name(r.outcome)),
        entry_line("original_path_hex"@, hex_encode_spec(r.original_path)),
        entry_line("trashed_path_hex"@, hex_encode_spec(r.trashed_path)),
    ]
}

proof fn lemma_render_lines(r: RecordView)
    requires
        id_fits_line(r.id),
    ensures
        lines(render_spec(r)) == record_lines(r),
{
    lemma_no_eq_in_keys();
    let v2 = decimal(r.deleted_at_secs as nat);
    let v3 = kind_name(r.kind);
    let v4 = outcome_name(r.outcome);
    let v5 = hex_encode_spec(r.original_path);
    let v6 = hex_encode_spec(r.trashed_path);
    lemma_digits_safe(r.deleted_at_secs as nat);
    lemma_names_safe(r.kind, r.outcome);
    lemma_hex_safe(r.original_path);
    lemma_hex_safe(r.trashed_path);
    lemma_entry_line("id"@, r.id);
    lemma_entry_line("deleted_at_secs"@, v2);
    lemma_entry_line("kind"@, v3);
    lemma_entry_line("outcome"@, v4);
    lemma_entry_line("original_path_hex"@, v5);
    lemma_entry_line("trashed_path_hex"@, v6);
    let ls = record_lines(r);
    let nl = seq!['\n'];
    let t6 = ls[5] + nl;
    let t5 = ls[4] + nl + t6;
    let t4 = ls[3] + nl + t5;
    let t3 = ls[2] + nl + t4;
    let t2 = ls[1] + nl + t3;
    let t1 = ls[0] + nl + t2;
    assert(render_spec(r) =~= t1);
    lemma_lines_entry(ls[5], Seq::<char>::empty());
    assert(t6 =~= ls[5] + nl + Seq::<char>::empty());
    assert(lines(Seq::<char>::empty()) =~= Seq::<Seq<char>>::empty());
    assert(lines(t6) =~= seq![ls[5]]);
    lemma_lines_entry(ls[4], t6);
    lemma_lines_entry(ls[3], t5);
    lemma_lines_entry(ls[2], t4);
    lemma_lines_entry(ls[1], t3);
    lemma_lines_entry(ls[0], t2);
    assert(lines(t1) =~= ls);
}

proof fn lemma_fold_record(r: RecordView)
    ensures
        fold_lines(no_fields(), record_lines(r)) == Ok::<FieldsView, StoreError>(
            FieldsView {
                id: Some(r.id),
                deleted_at_secs: Some(r.deleted_at_secs),
                kind: Some(r.kind),
                outcome: Some(r.outcome),
                original_path: Some(r.original_path),
                trashed_path: Some(r.trashed_path),
            },
        ),
{
    let ls = record_lines(r);
    let f1 = FieldsView { id: Some(r.id), ..no_fields() };
    let f2 = FieldsView { deleted_at_secs: Some(r.deleted_at_secs), ..f1 };
    let f3 = FieldsView { kind: Some(r.kind), ..f2 };
    let f4 = FieldsView { outcome: Some(r.outcome), ..f3 };
    let f5 = FieldsView { original_path: Some(r.original_path), ..f4 };
    let f6 = FieldsView { trashed_path: Some(r.trashed_path), ..f5 };
    step_id(no_fields(), r.id);
    step_deleted(f1, r.deleted_at_secs);
    step_kind(f2, r.kind);
    step_outcome(f3, r.outcome);
    step_original(f4, r.original_path);
    step_trashed(f5, r.trashed_path);
    let s5 = ls.skip(5);
    let s4 = ls.skip(4);
    let s3 = ls.skip(3);
    let s2 = ls.skip(2);
    let s1 = ls.skip(1);
    assert(s5.drop_first() =~= Seq::<Seq<char>>::empty());
    assert(s4.drop_first() =~= s5);
    assert(s3.drop_first() =~= s4);
    assert(s2.drop_first() =~= s3);
    assert(s1.drop_first() =~= s2);
    assert(ls.drop_first() =~= s1);
    assert(fold_lines(f6, Seq::<Seq<char>>::empty()) == Ok::<FieldsView, StoreError>(f6));
    assert(fold_lines(f5, s5) == Ok::<FieldsView, StoreError>(f6));
    assert(fold_lines(f4, s4) == Ok::<FieldsView, StoreError>(f6));
    assert(fold_lines(f3, s3) == Ok::<FieldsView, StoreError>(f6));
    assert(fold_lines(f2, s2) == Ok::<FieldsView, StoreError>(f6));
    assert(fold_lines(f1, s1) == Ok::<FieldsView, StoreError>(f6));
}

/// Reading back the metadata text of a record gives the same record, with
/// the place it was read from as its metadata path. This holds for every id
/// that stays on one line (those the store makes are digits and dashes).
pub proof fn law_record_round_trip(r: RecordView, meta_path: Seq<u8>)
    requires
        id_fits_line(r.id),
    ensures
        parse_record_spec(render_spec(r), meta_path) == Ok::<RecordView, StoreError>(
            RecordView { meta_path: Some(meta_path), ..r },
        ),
{
    lemma_render_lines(r);
    lemma_fold_record(r);
}

} // verus!
