//! Unix paths as byte strings: their components, parent, file name and
//! extension, joining, comparing, and collapsing `.` and `..`.
use vstd::prelude::*;

use vstd::string::*;

use crate::store::StoreError;

verus! {

/// The separator `/`.
pub open spec fn slash() -> u8 {
    47u8
}

/// One component of a path.
pub enum Component {
    /// The leading `/`.
    RootDir,
    /// A leading `.`.
    CurDir,
    /// A `..`.
    ParentDir,
    /// Any other name.
    Normal(Seq<u8>),
}

/// The index of the first `x` in `s`, or the length of `s` when there is none.
pub open spec fn find_byte(s: Seq<u8>, x: u8) -> int
    decreases s.len(),
{
    if s.len() == 0 {
        0
    } else if s[0] == x {
        0
    } else {
        1 + find_byte(s.drop_first(), x)
    }
}

/// An index before which `x` does not occur, and at which it does (or the end), is `find_byte`.
pub proof fn lemma_find_byte_at(s: Seq<u8>, x: u8, k: int)
    requires
        0 <= k <= s.len(),
        forall|i: int| 0 <= i < k ==> s[i] != x,
        k < s.len() ==> s[k] == x,
    ensures
        find_byte(s, x) == k,
    decreases k,
{
    if k > 0 {
        assert(s[0] != x);
        assert forall|i: int| 0 <= i < k - 1 implies s.drop_first()[i] != x by {
            assert(s.drop_first()[i] == s[i + 1]);
        }
        lemma_find_byte_at(s.drop_first(), x, k - 1);
    }
}

/// The pieces of `p` between separators (an empty piece where two meet or
/// at either end).
pub open spec fn segments(p: Seq<u8>) -> Seq<Seq<u8>>
    decreases p.len(),
{
    let i = find_byte(p, slash());
    if i < 0 || i >= p.len() {
        seq![p]
    } else {
        seq![p.take(i)] + segments(p.skip(i + 1))
    }
}

/// The byte string `.`.
pub open spec fn dot() -> Seq<u8> {
    seq![46u8]
}

/// The byte string `..`.
pub open spec fn dot_dot() -> Seq<u8> {
    seq![46u8, 46u8]
}

/// The component a piece stands for: none for an empty piece or `.`.
pub open spec fn segment_component(seg: Seq<u8>) -> Seq<Component> {
    if seg.len() == 0 || seg == dot() {
        seq![]
    } else if seg == dot_dot() {
        seq![Component::ParentDir]
    } else {
        seq![Component::Normal(seg)]
    }
}

/// The components of a list of pieces.
pub open spec fn body(segs: Seq<Seq<u8>>) -> Seq<Component>
    decreases segs.len(),
{
    if segs.len() == 0 {
        seq![]
    } else {
        segment_component(segs[0]) + body(segs.drop_first())
    }
}

/// Whether `p` starts with `/`.
pub open spec fn is_absolute(p: Seq<u8>) -> bool {
    p.len() > 0 && p[0] == slash()
}

/// The components of a path, as `Path::components` gives them on Unix: the
/// root, a leading `.` of a relative path, then `..` and names; empty
/// pieces and other `.` pieces are left out.
pub open spec fn components(p: Seq<u8>) -> Seq<Component> {
    let root = is_absolute(p);
    let cur = !root && segments(p)[0] == dot();
    (if root {
        seq![Component::RootDir]
    } else {
        seq![]
    }) + (if cur {
        seq![Component::CurDir]
    } else {
        seq![]
    }) + body(segments(p))
}

/// One component of a path.
#[derive(Debug)]
pub enum PathComponent {
    RootDir,
    CurDir,
    ParentDir,
    Normal(Vec<u8>),
}

impl View for PathComponent {
    type V = Component;

    open spec fn view(&self) -> Component {
        match self {
            PathComponent::RootDir => Component::RootDir,
            PathComponent::CurDir => Component::CurDir,
            PathComponent::ParentDir => Component::ParentDir,
            PathComponent::Normal(v) => Component::Normal(v@),
        }
    }
}

/// The contents of a list of components.
pub open spec fn comps_view(v: Seq<PathComponent>) -> Seq<Component> {
    v.map_values(|c: PathComponent| c@)
}

/// A copy of `p[lo..hi]`.
pub fn copy_range(p: &[u8], lo: usize, hi: usize) -> (r: Vec<u8>)
    requires
        lo <= hi <= p@.len(),
    ensures
        r@ == p@.subrange(lo as int, hi as int),
{
    let mut out: Vec<u8> = Vec::new();
    let mut i = lo;
    while i < hi
        invariant
            lo <= i <= hi <= p@.len(),
            out@ == p@.subrange(lo as int, i as int),
        decreases hi - i,
    {
        out.push(p[i]);
        i = i + 1;
    }
    out
}

/// Whether two byte strings are equal.
pub fn bytes_eq(a: &[u8], b: &[u8]) -> (r: bool)
    ensures
        r == (a@ == b@),
{
    if a.len() != b.len() {
        return false;
    }
    let mut i: usize = 0;
    while i < a.len()
        invariant
            a@.len() == b@.len(),
            i <= a@.len(),
            forall|j: int| 0 <= j < i ==> a@[j] == b@[j],
        decreases a@.len() - i,
    {
        if a[i] != b[i] {
            return false;
        }
        i = i + 1;
    }
    assert(a@ =~= b@);
    true
}

/// The first index at or after `from` where `/` occurs in `p`, or its length.
fn find_slash(p: &[u8], from: usize) -> (r: usize)
    requires
        from <= p@.len(),
    ensures
        from <= r <= p@.len(),
        r - from == find_byte(p@.skip(from as int), slash()),
{
    let mut i = from;
    while i < p.len() && p[i] != 47
        invariant
            from <= i <= p@.len(),
            forall|j: int| from <= j < i ==> p@[j] != slash(),
        decreases p@.len() - i,
    {
        i = i + 1;
    }
    proof {
        let s = p@.skip(from as int);
        assert forall|j: int| 0 <= j < i - from implies s[j] != slash() by {
            assert(s[j] == p@[from + j]);
        }
        lemma_find_byte_at(s, slash(), i - from);
    }
    i
}

/// The pieces of a path from position `pos`, at which a piece starts.
proof fn lemma_segments_step(p: Seq<u8>, pos: int, j: int)
    requires
        0 <= pos <= j <= p.len(),
        j - pos == find_byte(p.skip(pos), slash()),
    ensures
        j == p.len() ==> segments(p.skip(pos)) == seq![p.subrange(pos, j)],
        j < p.len() ==> segments(p.skip(pos)) == seq![p.subrange(pos, j)] + segments(
            p.skip(j + 1),
        ),
{
    let s = p.skip(pos);
    if j == p.len() {
        assert(s =~= p.subrange(pos, j));
    } else {
        assert(s.take(j - pos) =~= p.subrange(pos, j));
        assert(s.skip(j - pos + 1) =~= p.skip(j + 1));
    }
}

/// The component of the piece `p[lo..hi]`, if any.
fn piece_component(p: &[u8], lo: usize, hi: usize) -> (r: Option<PathComponent>)
    requires
        lo <= hi <= p@.len(),
    ensures
        segment_component(p@.subrange(lo as int, hi as int)) == match r {
            Some(c) => seq![c@],
            None => Seq::<Component>::empty(),
        },
{
    let ghost seg = p@.subrange(lo as int, hi as int);
    if hi == lo {
        return None;
    }
    if hi - lo == 1 && p[lo] == 46 {
        assert(seg =~= dot());
        return None;
    }
    if hi - lo == 2 && p[lo] == 46 && p[lo + 1] == 46 {
        assert(seg =~= dot_dot());
        return Some(PathComponent::ParentDir);
    }
    assert(seg != dot()) by {
        if seg == dot() {
            assert(seg.len() == 1 && seg[0] == 46u8);
        }
    }
    assert(seg != dot_dot()) by {
        if seg == dot_dot() {
            assert(seg.len() == 2 && seg[0] == 46u8 && seg[1] == 46u8);
        }
    }
    Some(PathComponent::Normal(copy_range(p, lo, hi)))
}

/// The components of a path (see [`components`]).
pub fn path_components(p: &[u8]) -> (r: Vec<PathComponent>)
    ensures
        comps_view(r@) == components(p@),
{
    let n = p.len();
    let root = n > 0 && p[0] == 47;
    let mut out: Vec<PathComponent> = Vec::new();
    if root {
        out.push(PathComponent::RootDir);
    }
    let j0 = find_slash(p, 0);
    assert(p@.skip(0) =~= p@);
    proof {
        lemma_segments_step(p@, 0, j0 as int);
    }
    let cur = !root && j0 == 1 && p[0] == 46;
    proof {
        let s0 = p@.subrange(0, j0 as int);
        assert(segments(p@)[0] == s0);
        if cur {
            assert(s0 =~= dot());
        } else if !root && s0 == dot() {
            assert(s0.len() == 1 && s0[0] == 46u8);
        }
    }
    if cur {
        out.push(PathComponent::CurDir);
    }
    let ghost head = comps_view(out@);
    assert(head =~= (if root {
        seq![Component::RootDir]
    } else {
        seq![]
    }) + (if cur {
        seq![Component::CurDir]
    } else {
        seq![]
    }));
    let mut pos: usize = 0;
    let mut done = false;
    while !done
        invariant
            n == p@.len(),
            pos <= n,
            head + body(segments(p@)) == (if done {
                comps_view(out@)
            } else {
                comps_view(out@) + body(segments(p@.skip(pos as int)))
            }),
        decreases (if done {
            0
        } else {
            n + 1 - pos
        }),
    {
        let j = find_slash(p, pos);
        proof {
            lemma_segments_step(p@, pos as int, j as int);
        }
        let ghost segs = segments(p@.skip(pos as int));
        let ghost before = comps_view(out@);
        let c = piece_component(p, pos, j);
        match c {
            Some(c) => {
                out.push(c);
            },
            None => {},
        }
        let ghost piece = segment_component(p@.subrange(pos as int, j as int));
        assert(comps_view(out@) =~= before + piece);
        assert(segs[0] == p@.subrange(pos as int, j as int));
        assert(body(segs) == piece + body(segs.drop_first()));
        if j == n {
            assert(segs.drop_first() =~= Seq::<Seq<u8>>::empty());
            assert(body(segs.drop_first()) =~= Seq::<Component>::empty());
            done = true;
        } else {
            assert(segs.drop_first() =~= segments(p@.skip(j + 1)));
            pos = j + 1;
        }
    }
    out
}

// ---------------------------------------------------------------------------
// File name, extension
// ---------------------------------------------------------------------------

/// The last component of a path when it is a name (as `Path::file_name`).
pub open spec fn file_name_spec(p: Seq<u8>) -> Option<Seq<u8>> {
    let c = components(p);
    if c.len() > 0 && c.last() is Normal {
        Some(c.last()->Normal_0)
    } else {
        None
    }
}

/// The file name of a path, if its last component is a name.
pub fn file_name(p: &[u8]) -> (r: Option<Vec<u8>>)
    ensures
        match r {
            Some(v) => file_name_spec(p@) == Some(v@),
            None => file_name_spec(p@) is None,
        },
{
    let comps = path_components(p);
    let n = comps.len();
    if n == 0 {
        return None;
    }
    assert(comps_view(comps@).last() == comps@[n - 1]@);
    match &comps[n - 1] {
        PathComponent::Normal(v) => Some(copy_range(v.as_slice(), 0, v.len())),
        _ => None,
    }
}

/// The index of the last `.` in `name`, or -1 when there is none.
pub open spec fn last_dot(name: Seq<u8>) -> int
    decreases name.len(),
{
    if name.len() == 0 {
        -1
    } else if name.last() == 46u8 {
        name.len() - 1
    } else {
        last_dot(name.drop_last())
    }
}

/// The extension of a path (as `Path::extension`): what follows the last
/// `.` of the file name, unless that `.` starts the name.
pub open spec fn extension_spec(p: Seq<u8>) -> Option<Seq<u8>> {
    match file_name_spec(p) {
        None => None,
        Some(name) => {
            let d = last_dot(name);
            if d <= 0 {
                None
            } else {
                Some(name.skip(d + 1))
            }
        },
    }
}

/// The extension of a path, if any.
pub fn extension(p: &[u8]) -> (r: Option<Vec<u8>>)
    ensures
        match r {
            Some(v) => extension_spec(p@) == Some(v@),
            None => extension_spec(p@) is None,
        },
{
    let name = match file_name(p) {
        Some(v) => v,
        None => {
            return None;
        },
    };
    let mut k = name.len();
    assert(name@.subrange(0, name@.len() as int) =~= name@);
    while k > 0 && name[k - 1] != 46
        invariant
            k <= name@.len(),
            last_dot(name@) == last_dot(name@.subrange(0, k as int)),
        decreases k,
    {
        assert(name@.subrange(0, k as int).drop_last() =~= name@.subrange(0, k - 1));
        k = k - 1;
    }
    assert(name@.subrange(0, name@.len() as int) =~= name@);
    if k <= 1 {
        return None;
    }
    assert(last_dot(name@) == k - 1);
    Some(copy_range(name.as_slice(), k, name.len()))
}

/// Whether a path names a metadata file: its extension is `meta`.
pub open spec fn is_meta_file_spec(p: Seq<u8>) -> bool {
    extension_spec(p) == Some(seq![109u8, 101u8, 116u8, 97u8])
}

/// Whether a path names a metadata file (its extension is `meta`).
pub fn is_meta_file(p: &[u8]) -> (r: bool)
    ensures
        r == is_meta_file_spec(p@),
{
    match extension(p) {
        Some(e) => {
            let r = e.len() == 4 && e[0] == 109 && e[1] == 101 && e[2] == 116 && e[3] == 97;
            assert(r ==> e@ =~= seq![109u8, 101u8, 116u8, 97u8]);
            r
        },
        None => false,
    }
}

// ---------------------------------------------------------------------------
// Joining and parents
// ---------------------------------------------------------------------------

/// `base` with `name` appended (as `PathBuf::push` on Unix): an absolute
/// `name` replaces `base`; otherwise a separator goes between them unless
/// `base` is empty or already ends with one.
pub open spec fn join_spec(base: Seq<u8>, name: Seq<u8>) -> Seq<u8> {
    if is_absolute(name) {
        name
    } else if base.len() == 0 || base.last() == slash() {
        base + name
    } else {
        base + seq![slash()] + name
    }
}

/// Appends the bytes of `b` to `out`.
pub fn push_bytes(out: &mut Vec<u8>, b: &[u8])
    ensures
        final(out)@ == old(out)@ + b@,
{
    let ghost start = out@;
    let mut i: usize = 0;
    while i < b.len()
        invariant
            i <= b@.len(),
            out@ == start + b@.subrange(0, i as int),
        decreases b@.len() - i,
    {
        out.push(b[i]);
        i = i + 1;
    }
    assert(b@.subrange(0, b@.len() as int) =~= b@);
}

/// `base` joined with `name` (see [`join_spec`]).
pub fn join(base: &[u8], name: &[u8]) -> (r: Vec<u8>)
    ensures
        r@ == join_spec(base@, name@),
{
    if name.len() > 0 && name[0] == 47 {
        return copy_range(name, 0, name.len());
    }
    let mut out = copy_range(base, 0, base.len());
    assert(base@.subrange(0, base@.len() as int) =~= base@);
    if base.len() > 0 && base[base.len() - 1] != 47 {
        out.push(47);
    }
    push_bytes(&mut out, name);
    out
}

/// Where the body of a path begins: after a leading root, or after a
/// leading `.` that stands alone or before a separator.
pub open spec fn body_start(p: Seq<u8>) -> int {
    if is_absolute(p) {
        1
    } else if p.len() > 0 && p[0] == 46u8 && (p.len() == 1 || p[1] == slash()) {
        1
    } else {
        0
    }
}

/// `q` without the empty and `.` pieces at its end (and their separators),
/// keeping at least the first `b` bytes.
pub open spec fn trim_back(q: Seq<u8>, b: int) -> Seq<u8>
    decreases q.len(),
{
    if q.len() == 0 || q.len() <= b {
        q
    } else if q.last() == slash() {
        trim_back(q.drop_last(), b)
    } else if q.last() == 46u8 && q.len() - 1 == b {
        trim_back(q.take(b), b)
    } else if q.last() == 46u8 && q.len() >= 2 && q.len() - 2 >= b && q[q.len() - 2] == slash() {
        trim_back(q.take(q.len() - 2), b)
    } else {
        q
    }
}

/// `q` without its last piece and the separator before it, keeping at
/// least the first `b` bytes.
pub open spec fn cut_back(q: Seq<u8>, b: int) -> Seq<u8>
    decreases q.len(),
{
    if q.len() == 0 || q.len() <= b {
        q
    } else if q.last() == slash() {
        q.drop_last()
    } else {
        cut_back(q.drop_last(), b)
    }
}

/// The parent of a path, as `Path::parent` gives it on Unix: the bytes of
/// the path before its last component, with trailing separators and `.`
/// pieces dropped. A path made of a leading `.` alone has the empty path as
/// parent; one with no component after its root (or no component at all)
/// has none.
pub open spec fn parent_spec(p: Seq<u8>) -> Option<Seq<u8>> {
    let b = body_start(p);
    let t = trim_back(p, b);
    if t.len() <= b {
        if b == 1 && !is_absolute(p) {
            Some(seq![])
        } else {
            None
        }
    } else {
        Some(trim_back(cut_back(t, b), b))
    }
}

/// The length of `trim_back(p[..end], b)`.
fn trim_back_len(p: &[u8], b: usize, end: usize) -> (r: usize)
    requires
        b <= end <= p@.len(),
    ensures
        b <= r <= end,
        trim_back(p@.take(end as int), b as int) == p@.take(r as int),
{
    let mut e = end;
    while e > b
        invariant
            b <= e <= end <= p@.len(),
            trim_back(p@.take(end as int), b as int) == trim_back(p@.take(e as int), b as int),
        decreases e,
    {
        let q = Ghost(p@.take(e as int));
        assert(q@.last() == p@[e - 1]);
        assert(q@.drop_last() =~= p@.take(e - 1));
        if p[e - 1] == 47 {
            e = e - 1;
        } else if p[e - 1] == 46 && e - 1 == b {
            assert(q@.take(b as int) =~= p@.take(b as int));
            e = b;
        } else if p[e - 1] == 46 && e >= b + 2 && p[e - 2] == 47 {
            assert(q@[q@.len() - 2] == p@[e - 2]);
            assert(q@.take(q@.len() - 2) =~= p@.take(e - 2));
            e = e - 2;
        } else {
            return e;
        }
    }
    e
}

/// The length of `cut_back(p[..end], b)`.
fn cut_back_len(p: &[u8], b: usize, end: usize) -> (r: usize)
    requires
        b <= end <= p@.len(),
    ensures
        b <= r <= end,
        cut_back(p@.take(end as int), b as int) == p@.take(r as int),
{
    let mut e = end;
    while e > b
        invariant
            b <= e <= end <= p@.len(),
            cut_back(p@.take(end as int), b as int) == cut_back(p@.take(e as int), b as int),
        decreases e,
    {
        let q = Ghost(p@.take(e as int));
        assert(q@.last() == p@[e - 1]);
        assert(q@.drop_last() =~= p@.take(e - 1));
        if p[e - 1] == 47 {
            return e - 1;
        }
        e = e - 1;
    }
    e
}

/// The parent of a path, if it has one.
pub fn parent(p: &[u8]) -> (r: Option<Vec<u8>>)
    ensures
        match r {
            Some(v) => parent_spec(p@) == Some(v@),
            None => parent_spec(p@) is None,
        },
{
    let n = p.len();
    let absolute = n > 0 && p[0] == 47;
    let b: usize = if absolute {
        1
    } else if n > 0 && p[0] == 46 && (n == 1 || p[1] == 47) {
        1
    } else {
        0
    };
    assert(b as int == body_start(p@));
    assert(p@.take(n as int) =~= p@);
    let t = trim_back_len(p, b, n);
    if t <= b {
        if b == 1 && !absolute {
            return Some(Vec::new());
        }
        return None;
    }
    let c = cut_back_len(p, b, t);
    let u = trim_back_len(p, b, c);
    let r = copy_range(p, 0, u);
    assert(p@.subrange(0, u as int) =~= p@.take(u as int));
    Some(r)
}

/// Where an entry is moved when the central trash is on another device: a
/// hidden `.sure-rm.<id>` beside it.
pub open spec fn sibling_destination_spec(path: Seq<u8>, id_bytes: Seq<u8>) -> Result<
    Seq<u8>,
    StoreError,
> {
    match parent_spec(path) {
        None => Err(StoreError::NoParent),
        Some(dir) => Ok(join_spec(dir, sibling_prefix() + id_bytes)),
    }
}

/// The bytes of `.sure-rm.`.
pub open spec fn sibling_prefix() -> Seq<u8> {
    seq![46u8, 115u8, 117u8, 114u8, 101u8, 45u8, 114u8, 109u8, 46u8]
}

/// The place beside `path` where it goes when it cannot reach the central
/// trash: `.sure-rm.<id>` in its parent directory.
pub fn sibling_fallback_destination(path: &[u8], id: &str) -> (r: Result<Vec<u8>, StoreError>)
    ensures
        match r {
            Ok(v) => sibling_destination_spec(path@, id.spec_bytes()) == Ok::<
                Seq<u8>,
                StoreError,
            >(v@),
            Err(e) => sibling_destination_spec(path@, id.spec_bytes()) == Err::<
                Seq<u8>,
                StoreError,
            >(e),
        },
{
    let dir = match parent(path) {
        Some(d) => d,
        None => {
            return Err(StoreError::NoParent);
        },
    };
    let mut name: Vec<u8> = Vec::new();
    name.push(46);
    name.push(115);
    name.push(117);
    name.push(114);
    name.push(101);
    name.push(45);
    name.push(114);
    name.push(109);
    name.push(46);
    assert(name@ =~= sibling_prefix());
    push_bytes(&mut name, id.as_bytes());
    Ok(join(dir.as_slice(), name.as_slice()))
}

// ---------------------------------------------------------------------------
// Normalizing
// ---------------------------------------------------------------------------

/// The names left after reading components in order: a name is pushed, `..`
/// drops the last name (if any), the root and `.` change nothing.
pub open spec fn name_stack(cs: Seq<Component>) -> Seq<Seq<u8>>
    decreases cs.len(),
{
    if cs.len() == 0 {
        seq![]
    } else {
        let st = name_stack(cs.drop_last());
        match cs.last() {
            Component::Normal(n) => st.push(n),
            Component::ParentDir => if st.len() > 0 {
                st.drop_last()
            } else {
                st
            },
            _ => st,
        }
    }
}

/// Names joined by separators.
pub open spec fn join_names(names: Seq<Seq<u8>>) -> Seq<u8>
    decreases names.len(),
{
    if names.len() == 0 {
        seq![]
    } else if names.len() == 1 {
        names[0]
    } else {
        join_names(names.drop_last()) + seq![slash()] + names.last()
    }
}

/// A path with `.` removed and each `..` applied to the name before it; a
/// path that comes out empty becomes `/`.
pub open spec fn normalize_spec(p: Seq<u8>) -> Seq<u8> {
    let names = name_stack(components(p));
    let out = if is_absolute(p) {
        seq![slash()] + join_names(names)
    } else {
        join_names(names)
    };
    if out.len() == 0 {
        seq![slash()]
    } else {
        out
    }
}

/// The contents of a list of byte strings.
pub open spec fn byte_strings(v: Seq<Vec<u8>>) -> Seq<Seq<u8>> {
    v.map_values(|x: Vec<u8>| x@)
}

/// A copy of the first `n` of a list of byte strings.
fn copy_names(v: &Vec<Vec<u8>>, n: usize) -> (r: Vec<Vec<u8>>)
    requires
        n <= v@.len(),
    ensures
        byte_strings(r@) == byte_strings(v@).take(n as int),
{
    let mut out: Vec<Vec<u8>> = Vec::new();
    let mut i: usize = 0;
    while i < n
        invariant
            n <= v@.len(),
            i <= n,
            out@.len() == i,
            byte_strings(out@) == byte_strings(v@).take(i as int),
        decreases n - i,
    {
        let ghost before = out@;
        let c = copy_range(v[i].as_slice(), 0, v[i].len());
        assert(v@[i as int]@.subrange(0, v@[i as int]@.len() as int) =~= v@[i as int]@);
        out.push(c);
        proof {
            assert(out@ == before.push(c));
            assert forall|j: int| 0 <= j <= i implies #[trigger] byte_strings(out@)[j]
                == byte_strings(v@).take(i + 1)[j] by {
                if j < i {
                    assert(byte_strings(out@)[j] == before[j]@);
                    assert(byte_strings(before)[j] == before[j]@);
                    assert(byte_strings(before)[j] == byte_strings(v@).take(i as int)[j]);
                }
            }
            assert(byte_strings(out@) =~= byte_strings(v@).take(i + 1));
        }
        i = i + 1;
    }
    out
}

/// Collapses `.` and `..` in a path (see [`normalize_spec`]).
pub fn normalize_absolute_path(p: &[u8]) -> (r: Vec<u8>)
    ensures
        r@ == normalize_spec(p@),
{
    let comps = path_components(p);
    let ghost cv = comps_view(comps@);
    let mut stack: Vec<Vec<u8>> = Vec::new();
    let mut k: usize = 0;
    while k < comps.len()
        invariant
            k <= comps@.len(),
            cv == comps_view(comps@),
            byte_strings(stack@) == name_stack(cv.take(k as int)),
        decreases comps@.len() - k,
    {
        let ghost before = byte_strings(stack@);
        assert(cv.take(k + 1).drop_last() =~= cv.take(k as int));
        assert(cv.take(k + 1).last() == comps@[k as int]@);
        match &comps[k] {
            PathComponent::Normal(n) => {
                stack.push(copy_range(n.as_slice(), 0, n.len()));
                assert(n@.subrange(0, n@.len() as int) =~= n@);
                assert(byte_strings(stack@) =~= before.push(n@));
            },
            PathComponent::ParentDir => {
                if stack.len() > 0 {
                    let len = stack.len();
                    stack = copy_names(&stack, len - 1);
                    assert(before.take(len - 1) =~= before.drop_last());
                }
            },
            _ => {},
        }
        k = k + 1;
    }
    assert(cv.take(comps@.len() as int) =~= cv);
    let ghost names = byte_strings(stack@);
    let absolute = p.len() > 0 && p[0] == 47;
    let mut out: Vec<u8> = Vec::new();
    if absolute {
        out.push(47);
    }
    let ghost head = out@;
    let mut i: usize = 0;
    while i < stack.len()
        invariant
            i <= stack@.len(),
            names == byte_strings(stack@),
            out@ == head + join_names(names.take(i as int)),
        decreases stack@.len() - i,
    {
        let ghost prev = join_names(names.take(i as int));
        if i > 0 {
            out.push(47);
        }
        push_bytes(&mut out, stack[i].as_slice());
        proof {
            let t = names.take(i + 1);
            assert(t.drop_last() =~= names.take(i as int));
            assert(t.last() == stack@[i as int]@);
            if i == 0 {
                assert(t.len() == 1);
            }
        }
        i = i + 1;
    }
    assert(names.take(stack@.len() as int) =~= names);
    if out.len() == 0 {
        out.push(47);
        assert(out@ =~= seq![slash()]);
    }
    out
}

// ---------------------------------------------------------------------------
// Comparing
// ---------------------------------------------------------------------------

fn component_eq(a: &PathComponent, b: &PathComponent) -> (r: bool)
    ensures
        r == (a@ == b@),
{
    match (a, b) {
        (PathComponent::RootDir, PathComponent::RootDir) => true,
        (PathComponent::CurDir, PathComponent::CurDir) => true,
        (PathComponent::ParentDir, PathComponent::ParentDir) => true,
        (PathComponent::Normal(x), PathComponent::Normal(y)) => bytes_eq(x.as_slice(), y.as_slice()),
        _ => false,
    }
}

/// Whether the components of `base` begin those of `p` (as `Path::starts_with`).
pub open spec fn starts_with_spec(p: Seq<u8>, base: Seq<u8>) -> bool {
    components(base).len() <= components(p).len() && components(p).take(
        components(base).len() as int,
    ) == components(base)
}

/// Whether two paths have the same components (as `==` on `Path`).
pub open spec fn same_path(a: Seq<u8>, b: Seq<u8>) -> bool {
    components(a) == components(b)
}

/// Whether `p` lies at or below `base`, component by component.
pub fn path_starts_with(p: &[u8], base: &[u8]) -> (r: bool)
    ensures
        r == starts_with_spec(p@, base@),
{
    let pc = path_components(p);
    let bc = path_components(base);
    let ghost pv = comps_view(pc@);
    let ghost bv = comps_view(bc@);
    assert(pv.len() == pc@.len() && bv.len() == bc@.len());
    if bc.len() > pc.len() {
        return false;
    }
    let mut i: usize = 0;
    while i < bc.len()
        invariant
            bc@.len() <= pc@.len(),
            pv == comps_view(pc@),
            bv == comps_view(bc@),
            pv == components(p@),
            bv == components(base@),
            i <= bc@.len(),
            forall|j: int| 0 <= j < i ==> pv[j] == bv[j],
        decreases bc@.len() - i,
    {
        assert(pv[i as int] == pc@[i as int]@ && bv[i as int] == bc@[i as int]@);
        if !component_eq(&pc[i], &bc[i]) {
            assert(pv.take(bv.len() as int)[i as int] != bv[i as int]);
            return false;
        }
        i = i + 1;
    }
    assert(pv.take(bv.len() as int) =~= bv);
    true
}

/// Whether two paths are the same path (the same components).
pub fn path_eq(a: &[u8], b: &[u8]) -> (r: bool)
    ensures
        r == same_path(a@, b@),
{
    let ac = path_components(a);
    let bc = path_components(b);
    let ghost av = comps_view(ac@);
    let ghost bv = comps_view(bc@);
    assert(av.len() == ac@.len() && bv.len() == bc@.len());
    if ac.len() != bc.len() {
        return false;
    }
    let mut i: usize = 0;
    while i < ac.len()
        invariant
            ac@.len() == bc@.len(),
            av == comps_view(ac@),
            bv == comps_view(bc@),
            av == components(a@),
            bv == components(b@),
            i <= ac@.len(),
            forall|j: int| 0 <= j < i ==> av[j] == bv[j],
        decreases ac@.len() - i,
    {
        assert(av[i as int] == ac@[i as int]@ && bv[i as int] == bc@[i as int]@);
        if !component_eq(&ac[i], &bc[i]) {
            assert(av[i as int] != bv[i as int]);
            assert(av != bv);
            return false;
        }
        i = i + 1;
    }
    assert(av =~= bv);
    true
}

/// The absolute form of `path` seen from the working directory `cwd`, with
/// `.` and `..` collapsed.
pub open spec fn absolute_path_spec(path: Seq<u8>, cwd: Seq<u8>) -> Seq<u8> {
    normalize_spec(if is_absolute(path) {
        path
    } else {
        join_spec(cwd, path)
    })
}

/// The absolute, collapsed form of `path` seen from the working directory `cwd`.
pub fn absolute_path(path: &[u8], cwd: &[u8]) -> (r: Vec<u8>)
    ensures
        r@ == absolute_path_spec(path@, cwd@),
{
    if path.len() > 0 && path[0] == 47 {
        normalize_absolute_path(path)
    } else {
        let full = join(cwd, path);
        normalize_absolute_path(full.as_slice())
    }
}

// ---------------------------------------------------------------------------
// Laws of paths
// ---------------------------------------------------------------------------

/// A name that is a component of its own: not empty, no separator, and
/// neither `.` nor `..`.
pub open spec fn is_plain_name(n: Seq<u8>) -> bool {
    n.len() > 0 && !n.contains(slash()) && n != dot() && n != dot_dot()
}

/// Each name as a component.
pub open spec fn normals(names: Seq<Seq<u8>>) -> Seq<Component> {
    names.map_values(|n: Seq<u8>| Component::Normal(n))
}

/// Splitting at a separator splits the pieces.
proof fn lemma_segments_split(a: Seq<u8>, b: Seq<u8>)
    ensures
        segments(a + seq![slash()] + b) == segments(a) + segments(b),
    decreases a.len(),
{
    let s = a + seq![slash()] + b;
    let i = find_byte(a, slash());
    lemma_find_byte_bounds(a, slash());
    if i < a.len() {
        assert forall|j: int| 0 <= j < i implies s[j] != slash() by {
            assert(s[j] == a[j]);
        }
        lemma_find_byte_at(s, slash(), i);
        assert(s.take(i) =~= a.take(i));
        assert(s.skip(i + 1) =~= a.skip(i + 1) + seq![slash()] + b);
        lemma_segments_split(a.skip(i + 1), b);
        assert(segments(a) == seq![a.take(i)] + segments(a.skip(i + 1)));
        assert(segments(s) == seq![a.take(i)] + segments(a.skip(i + 1) + seq![slash()] + b));
        assert(segments(s) =~= segments(a) + segments(b));
    } else {
        assert forall|j: int| 0 <= j < a.len() implies s[j] != slash() by {
            assert(s[j] == a[j]);
        }
        lemma_find_byte_at(s, slash(), a.len() as int);
        assert(s.take(a.len() as int) =~= a);
        assert(s.skip(a.len() + 1int) =~= b);
        assert(segments(a) == seq![a]);
    }
}

proof fn lemma_find_byte_bounds(s: Seq<u8>, x: u8)
    ensures
        0 <= find_byte(s, x) <= s.len(),
        forall|j: int| 0 <= j < find_byte(s, x) ==> s[j] != x,
        find_byte(s, x) < s.len() ==> s[find_byte(s, x)] == x,
    decreases s.len(),
{
    if s.len() > 0 && s[0] != x {
        lemma_find_byte_bounds(s.drop_first(), x);
        assert forall|j: int| 0 <= j < find_byte(s, x) implies s[j] != x by {
            if j > 0 {
                assert(s[j] == s.drop_first()[j - 1]);
            }
        }
    }
}

/// A piece without separators is its own single piece.
proof fn lemma_segments_plain(a: Seq<u8>)
    requires
        !a.contains(slash()),
    ensures
        segments(a) == seq![a],
{
    assert forall|j: int| 0 <= j < a.len() implies a[j] != slash() by {
        if a[j] == slash() {
            assert(a.contains(slash()));
        }
    }
    lemma_find_byte_at(a, slash(), a.len() as int);
}

/// The components of pieces put together.
proof fn lemma_body_concat(x: Seq<Seq<u8>>, y: Seq<Seq<u8>>)
    ensures
        body(x + y) == body(x) + body(y),
    decreases x.len(),
{
    if x.len() == 0 {
        assert(x + y =~= y);
        assert(body(x) =~= Seq::<Component>::empty());
        assert(body(x) + body(y) =~= body(y));
    } else {
        lemma_body_concat(x.drop_first(), y);
        assert((x + y).drop_first() =~= x.drop_first() + y);
        assert((x + y)[0] == x[0]);
    }
}

/// Plain names joined by separators split back into the same names.
proof fn lemma_segments_join(names: Seq<Seq<u8>>)
    requires
        names.len() > 0,
        forall|i: int| 0 <= i < names.len() ==> is_plain_name(#[trigger] names[i]),
    ensures
        segments(join_names(names)) == names,
    decreases names.len(),
{
    if names.len() == 1 {
        lemma_segments_plain(names[0]);
        assert(names =~= seq![names[0]]);
    } else {
        let init = names.drop_last();
        assert forall|i: int| 0 <= i < init.len() implies is_plain_name(#[trigger] init[i]) by {
            assert(init[i] == names[i]);
        }
        lemma_segments_join(init);
        lemma_segments_split(join_names(init), names.last());
        lemma_segments_plain(names.last());
        assert(names =~= init + seq![names.last()]);
    }
}

/// Plain names stand each for a name component.
proof fn lemma_body_normals(names: Seq<Seq<u8>>)
    requires
        forall|i: int| 0 <= i < names.len() ==> is_plain_name(#[trigger] names[i]),
    ensures
        body(names) == normals(names),
    decreases names.len(),
{
    if names.len() > 0 {
        let rest = names.drop_first();
        assert forall|i: int| 0 <= i < rest.len() implies is_plain_name(#[trigger] rest[i]) by {
            assert(rest[i] == names[i + 1]);
        }
        lemma_body_normals(rest);
        assert(is_plain_name(names[0]));
        assert(segment_component(names[0]) == seq![Component::Normal(names[0])]);
        assert(normals(names) =~= seq![Component::Normal(names[0])] + normals(rest));
    } else {
        assert(normals(names) =~= Seq::<Component>::empty());
    }
}

/// Components that change nothing at the front leave the names alone.
proof fn lemma_name_stack_root(x: Seq<Component>)
    ensures
        name_stack(seq![Component::RootDir] + x) == name_stack(x),
    decreases x.len(),
{
    let s = seq![Component::RootDir] + x;
    if x.len() == 0 {
        assert(s.drop_last() =~= Seq::<Component>::empty());
        assert(s.last() == Component::RootDir);
        assert(name_stack(s) == name_stack(s.drop_last()));
        assert(name_stack(Seq::<Component>::empty()) =~= Seq::<Seq<u8>>::empty());
    } else {
        assert(s.drop_last() =~= seq![Component::RootDir] + x.drop_last());
        assert(s.last() == x.last());
        lemma_name_stack_root(x.drop_last());
    }
}

/// Reading names as components gives back the names.
proof fn lemma_name_stack_normals(names: Seq<Seq<u8>>)
    ensures
        name_stack(normals(names)) == names,
    decreases names.len(),
{
    if names.len() > 0 {
        lemma_name_stack_normals(names.drop_last());
        assert(normals(names).drop_last() =~= normals(names.drop_last()));
        assert(normals(names).last() == Component::Normal(names.last()));
        assert(names.drop_last().push(names.last()) =~= names);
    } else {
        assert(normals(names) =~= Seq::<Component>::empty());
    }
}

/// Whether every name component of `cs` is a plain name.
pub open spec fn plain_normals(cs: Seq<Component>) -> bool {
    forall|i: int| 0 <= i < cs.len() ==> (#[trigger] cs[i] is Normal ==> is_plain_name(cs[i]->Normal_0))
}

/// The names left from plain name components are plain.
proof fn lemma_name_stack_plain(cs: Seq<Component>)
    requires
        plain_normals(cs),
    ensures
        forall|i: int| 0 <= i < name_stack(cs).len() ==> is_plain_name(#[trigger] name_stack(cs)[i]),
    decreases cs.len(),
{
    if cs.len() > 0 {
        let init = cs.drop_last();
        assert forall|i: int|
            0 <= i < init.len() && #[trigger] init[i] is Normal implies is_plain_name(
                init[i]->Normal_0,
            ) by {
            assert(init[i] == cs[i]);
        }
        lemma_name_stack_plain(init);
        let st = name_stack(init);
        assert(cs[cs.len() - 1] == cs.last());
        assert forall|i: int| 0 <= i < name_stack(cs).len() implies is_plain_name(
            #[trigger] name_stack(cs)[i],
        ) by {
            match cs.last() {
                Component::Normal(n) => {
                    if i < st.len() {
                        assert(name_stack(cs)[i] == st[i]);
                    }
                },
                Component::ParentDir => {
                    if st.len() > 0 {
                        assert(name_stack(cs)[i] == st[i]);
                    }
                },
                _ => {},
            }
        }
    }
}

/// Pieces hold no separator.
proof fn lemma_segments_no_slash(p: Seq<u8>)
    ensures
        forall|i: int| 0 <= i < segments(p).len() ==> !(#[trigger] segments(p)[i]).contains(slash()),
    decreases p.len(),
{
    let i = find_byte(p, slash());
    lemma_find_byte_bounds(p, slash());
    if i < p.len() {
        lemma_segments_no_slash(p.skip(i + 1));
        let rest = segments(p.skip(i + 1));
        assert(segments(p) == seq![p.take(i)] + rest);
        assert forall|k: int| 0 <= k < segments(p).len() implies !(
        #[trigger] segments(p)[k]).contains(slash()) by {
            if k == 0 {
                assert(segments(p)[0] == p.take(i));
                if p.take(i).contains(slash()) {
                    let j = choose|j: int| 0 <= j < p.take(i).len() && p.take(i)[j] == slash();
                    assert(p[j] == slash());
                }
            } else {
                assert(segments(p)[k] == rest[k - 1]);
            }
        }
    } else {
        assert forall|k: int| 0 <= k < segments(p).len() implies !(
        #[trigger] segments(p)[k]).contains(slash()) by {
            assert(segments(p)[k] == p);
            if p.contains(slash()) {
                let j = choose|j: int| 0 <= j < p.len() && p[j] == slash();
                assert(p[j] != slash());
            }
        }
    }
}

/// The components of pieces without separators name plain names only.
proof fn lemma_body_plain(segs: Seq<Seq<u8>>)
    requires
        forall|i: int| 0 <= i < segs.len() ==> !(#[trigger] segs[i]).contains(slash()),
    ensures
        plain_normals(body(segs)),
    decreases segs.len(),
{
    if segs.len() > 0 {
        let rest = segs.drop_first();
        assert forall|i: int| 0 <= i < rest.len() implies !(#[trigger] rest[i]).contains(slash()) by {
            assert(rest[i] == segs[i + 1]);
        }
        lemma_body_plain(rest);
        let head = segment_component(segs[0]);
        assert(segs[0] == segs[0]);
        assert(!segs[0].contains(slash()));
        let b = body(segs);
        assert(b == head + body(rest));
        assert forall|i: int|
            0 <= i < b.len() && #[trigger] b[i] is Normal implies is_plain_name(
                b[i]->Normal_0,
            ) by {
            if i < head.len() {
                assert(b[i] == head[i]);
            } else {
                assert(b[i] == body(rest)[i - head.len()]);
            }
        }
    }
}

/// The components of any path name plain names only.
proof fn lemma_components_plain(p: Seq<u8>)
    ensures
        plain_normals(components(p)),
{
    lemma_segments_no_slash(p);
    lemma_body_plain(segments(p));
    let root = is_absolute(p);
    let cur = !root && segments(p)[0] == dot();
    let head = (if root {
        seq![Component::RootDir]
    } else {
        seq![]
    }) + (if cur {
        seq![Component::CurDir]
    } else {
        seq![]
    });
    let b = body(segments(p));
    let c = components(p);
    assert(c == head + b);
    assert forall|i: int|
        0 <= i < c.len() && #[trigger] c[i] is Normal implies is_plain_name(
            c[i]->Normal_0,
        ) by {
        if i >= head.len() {
            assert(c[i] == b[i - head.len()]);
        }
    }
}

/// The components of plain names joined by separators, after a root or not.
proof fn lemma_components_of_joined(names: Seq<Seq<u8>>, absolute: bool)
    requires
        names.len() > 0,
        forall|i: int| 0 <= i < names.len() ==> is_plain_name(#[trigger] names[i]),
    ensures
        absolute ==> components(seq![slash()] + join_names(names)) == seq![Component::RootDir]
            + normals(names),
        !absolute ==> components(join_names(names)) == normals(names),
{
    lemma_segments_join(names);
    lemma_body_normals(names);
    let j = join_names(names);
    if absolute {
        let p = seq![slash()] + j;
        assert(p =~= Seq::<u8>::empty() + seq![slash()] + j);
        lemma_segments_split(Seq::<u8>::empty(), j);
        lemma_segments_plain(Seq::<u8>::empty());
        assert(segments(p) == seq![Seq::<u8>::empty()] + names);
        lemma_body_concat(seq![Seq::<u8>::empty()], names);
        lemma_body_empty_piece();
        assert(body(segments(p)) =~= normals(names));
        assert(is_absolute(p));
    } else {
        lemma_first_plain_byte(names);
        assert(segments(j)[0] == names[0]);
        assert(names[0] != dot());
    }
}

/// Joined plain names do not start with a separator.
proof fn lemma_first_plain_byte(names: Seq<Seq<u8>>)
    requires
        names.len() > 0,
        forall|i: int| 0 <= i < names.len() ==> is_plain_name(#[trigger] names[i]),
    ensures
        join_names(names).len() > 0,
        join_names(names)[0] == names[0][0],
    decreases names.len(),
{
    assert(is_plain_name(names[0]));
    if names.len() > 1 {
        let init = names.drop_last();
        assert forall|i: int| 0 <= i < init.len() implies is_plain_name(#[trigger] init[i]) by {
            assert(init[i] == names[i]);
        }
        lemma_first_plain_byte(init);
        assert(init[0] == names[0]);
    }
    assert(names[0][0] != slash()) by {
        if names[0][0] == slash() {
            assert(names[0].contains(slash()));
        }
    }
}

/// A lone empty piece stands for no component.
proof fn lemma_body_empty_piece()
    ensures
        body(seq![Seq::<u8>::empty()]) == Seq::<Component>::empty(),
{
    let segs = seq![Seq::<u8>::empty()];
    assert(segs.drop_first() =~= Seq::<Seq<u8>>::empty());
    assert(segment_component(segs[0]) =~= Seq::<Component>::empty());
    assert(body(segs.drop_first()) =~= Seq::<Component>::empty());
    assert(body(segs) =~= Seq::<Component>::empty());
}

/// The components of `/` alone.
proof fn lemma_components_root()
    ensures
        components(seq![slash()]) == seq![Component::RootDir],
        name_stack(components(seq![slash()])) == Seq::<Seq<u8>>::empty(),
{
    let q = seq![slash()];
    let e = Seq::<u8>::empty();
    assert(q =~= e + seq![slash()] + e);
    lemma_segments_split(e, e);
    lemma_segments_plain(e);
    assert(segments(q) =~= seq![e, e]);
    assert(segments(q).drop_first() =~= seq![e]);
    lemma_body_empty_piece();
    assert(segment_component(e) =~= Seq::<Component>::empty());
    assert(body(segments(q)) =~= Seq::<Component>::empty());
    assert(components(q) =~= seq![Component::RootDir]);
    lemma_name_stack_root(Seq::<Component>::empty());
    assert(seq![Component::RootDir] + Seq::<Component>::empty() =~= seq![Component::RootDir]);
    assert(name_stack(Seq::<Component>::empty()) =~= Seq::<Seq<u8>>::empty());
}

/// There is always at least one piece.
proof fn lemma_segments_nonempty(p: Seq<u8>)
    ensures
        segments(p).len() >= 1,
{
    let i = find_byte(p, slash());
    if !(i < 0 || i >= p.len()) {
        assert(segments(p) == seq![p.take(i)] + segments(p.skip(i + 1)));
    }
}

/// Joining a plain name onto a path adds exactly that name as a last
/// component.
pub proof fn law_join_adds_component(base: Seq<u8>, name: Seq<u8>)
    requires
        is_plain_name(name),
    ensures
        components(join_spec(base, name)) == components(base).push(Component::Normal(name)),
{
    let e = Seq::<u8>::empty();
    assert(name[0] != slash()) by {
        if name[0] == slash() {
            assert(name.contains(slash()));
        }
    }
    lemma_segments_plain(name);
    lemma_segments_plain(e);
    lemma_body_normals(seq![name]);
    assert(normals(seq![name]) =~= seq![Component::Normal(name)]);
    lemma_body_empty_piece();
    let p = join_spec(base, name);
    if base.len() == 0 {
        assert(p == name);
        assert(base =~= e);
        assert(segments(base) == seq![e]);
        assert(components(base) =~= Seq::<Component>::empty());
        assert(segments(p)[0] == name);
        assert(components(p) =~= seq![Component::Normal(name)]);
    } else {
        // `p` is `b + "/" + name`, and `base` is `b + "/" + rest` with `rest` empty
        // or `base` itself is `b`.
        let ends = base.last() == slash();
        let b = if ends {
            base.drop_last()
        } else {
            base
        };
        assert(p =~= b + seq![slash()] + name);
        lemma_segments_split(b, name);
        lemma_segments_nonempty(b);
        assert(segments(p) == segments(b) + seq![name]);
        lemma_body_concat(segments(b), seq![name]);
        assert(body(segments(p)) == body(segments(b)) + seq![Component::Normal(name)]);
        if ends {
            assert(base =~= b + seq![slash()] + e);
            lemma_segments_split(b, e);
            assert(segments(base) == segments(b) + seq![e]);
            lemma_body_concat(segments(b), seq![e]);
            assert(body(segments(base)) =~= body(segments(b)));
            assert(segments(base)[0] == segments(b)[0]);
        }
        assert(segments(p)[0] == segments(b)[0]);
        assert(p[0] == base[0]) by {
            if b.len() > 0 {
                assert(p[0] == b[0]);
                assert(base[0] == b[0]);
            } else {
                assert(p[0] == slash());
            }
        }
        assert(is_absolute(p) == is_absolute(base));
        let root = is_absolute(base);
        let cur = !root && segments(base)[0] == dot();
        let head = (if root {
            seq![Component::RootDir]
        } else {
            seq![]
        }) + (if cur {
            seq![Component::CurDir]
        } else {
            seq![]
        });
        assert(components(base) == head + body(segments(base)));
        assert(components(p) == head + body(segments(p)));
        assert(components(p) =~= components(base).push(Component::Normal(name)));
    }
}

/// Collapsing `.` and `..` twice is the same as once.
pub proof fn law_normalize_idempotent(p: Seq<u8>)
    ensures
        normalize_spec(normalize_spec(p)) == normalize_spec(p),
{
    let names = name_stack(components(p));
    lemma_components_plain(p);
    lemma_name_stack_plain(components(p));
    let q = normalize_spec(p);
    if names.len() == 0 {
        assert(q == seq![slash()]);
        lemma_components_root();
    } else {
        lemma_name_stack_normals(names);
        lemma_first_plain_byte(names);
        if is_absolute(p) {
            lemma_components_of_joined(names, true);
            lemma_name_stack_root(normals(names));
            assert(q == seq![slash()] + join_names(names));
            assert(is_absolute(q));
        } else {
            lemma_components_of_joined(names, false);
            assert(q == join_names(names));
            assert(!is_absolute(q));
        }
    }
}

/// A collapsed path holds no `.` or `..` component, and only names after
/// its root.
pub proof fn law_normalize_has_no_dots(p: Seq<u8>)
    ensures
        forall|i: int|
            0 <= i < components(normalize_spec(p)).len() ==> !(#[trigger] components(
                normalize_spec(p),
            )[i] is CurDir) && !(components(normalize_spec(p))[i] is ParentDir),
{
    law_normalize_idempotent(p);
    let names = name_stack(components(p));
    lemma_components_plain(p);
    lemma_name_stack_plain(components(p));
    let q = normalize_spec(p);
    if names.len() == 0 {
        assert(q == seq![slash()]);
        lemma_components_root();
    } else if is_absolute(p) {
        lemma_components_of_joined(names, true);
        assert(components(q) == seq![Component::RootDir] + normals(names));
    } else {
        lemma_components_of_joined(names, false);
    }
}

/// Seen from an absolute working directory, a path resolves to an absolute
/// path, and resolving that again, from any directory, gives it back: the
/// path that a record keeps is the one a later lookup computes.
pub proof fn law_absolute_path_is_stable(path: Seq<u8>, cwd: Seq<u8>, other: Seq<u8>)
    requires
        is_absolute(cwd),
    ensures
        is_absolute(absolute_path_spec(path, cwd)),
        absolute_path_spec(absolute_path_spec(path, cwd), other) == absolute_path_spec(path, cwd),
{
    let x = if is_absolute(path) {
        path
    } else {
        join_spec(cwd, path)
    };
    if !is_absolute(path) {
        assert(x[0] == cwd[0]);
    }
    assert(is_absolute(x));
    let q = normalize_spec(x);
    assert(q[0] == slash());
    law_normalize_idempotent(x);
}

} // verus!
