//! Lexical operations on POSIX paths held as byte strings.
//!
//! Nothing here consults a file system: a path is only its bytes. Components
//! are separated by `/`; empty components and `.` components inside a path
//! name nothing, so no parent ends in one.

use vstd::prelude::*;
use vstd::slice::{slice_subrange, slice_to_vec};

verus! {

/// The byte that separates the components of a path.
pub const SEPARATOR: u8 = 0x2f;

/// The byte of which the components `.` and `..` are made.
pub const DOT: u8 = 0x2e;

/// A path is absolute when it starts at the root.
pub open spec fn is_absolute(p: Seq<u8>) -> bool {
    p.len() > 0 && p[0] == SEPARATOR
}

/// `rel` adjoined to `base`: an absolute `rel` replaces `base`; otherwise
/// `rel` follows `base`, after one separator where `base` is not empty and
/// does not end in one.
pub open spec fn spec_join(base: Seq<u8>, rel: Seq<u8>) -> Seq<u8> {
    if is_absolute(rel) {
        rel
    } else if base.len() > 0 && base.last() != SEPARATOR {
        base.push(SEPARATOR) + rel
    } else {
        base + rel
    }
}

/// Length of the head of a path: the separator that roots an absolute path,
/// or the `.` component that a relative path starts with. Trimming and
/// stripping never reach into the head.
pub open spec fn spec_head_len(p: Seq<u8>) -> int {
    if is_absolute(p) {
        1
    } else if p.len() > 0 && p[0] == DOT && (p.len() == 1 || p[1] == SEPARATOR) {
        1
    } else {
        0
    }
}

/// Whether the byte before `end` belongs to an empty component or a `.`
/// component: it is a separator, or a dot that stands alone between the
/// separator (or the head) before it and `end`.
pub open spec fn ends_blank(p: Seq<u8>, floor: int, end: int) -> bool {
    ||| p[end - 1] == SEPARATOR
    ||| p[end - 1] == DOT && (end - 1 == floor || p[end - 2] == SEPARATOR)
}

/// Where `p[..end]` ends once its trailing separators and `.` components are
/// dropped, down to `floor` at most.
pub open spec fn spec_trim_end(p: Seq<u8>, floor: int, end: int) -> int
    decreases end,
{
    if 0 <= floor < end <= p.len() && ends_blank(p, floor, end) {
        spec_trim_end(p, floor, end - 1)
    } else {
        end
    }
}

/// Where the component starts that ends at `end`: behind the last separator
/// of `p[floor..end]`, or at `floor` where there is none.
pub open spec fn spec_name_start(p: Seq<u8>, floor: int, end: int) -> int
    decreases end,
{
    if 0 <= floor < end <= p.len() && p[end - 1] != SEPARATOR {
        spec_name_start(p, floor, end - 1)
    } else {
        end
    }
}

/// The path without its last component, or `None` where there is no such
/// component to drop: the path is empty, or it names only the root.
///
/// Trailing separators and `.` components are skipped to find the last
/// component, and again in what is left before it. The parent of a relative
/// path of one component is the empty path.
pub open spec fn spec_parent(p: Seq<u8>) -> Option<Seq<u8>> {
    let floor = spec_head_len(p);
    let end = spec_trim_end(p, floor, p.len() as int);
    if end > floor {
        Some(p.take(spec_trim_end(p, floor, spec_name_start(p, floor, end))))
    } else if floor == 1 && !is_absolute(p) {
        Some(Seq::empty())
    } else {
        None
    }
}

/// The directory that holds `p`: its parent, or `p` itself where it has none.
pub open spec fn spec_dir_of(p: Seq<u8>) -> Seq<u8> {
    match spec_parent(p) {
        Some(d) => d,
        None => p,
    }
}

/// What `rel` names when it is read from the directory that holds `p`.
pub open spec fn spec_beside(p: Seq<u8>, rel: Seq<u8>) -> Seq<u8> {
    spec_join(spec_dir_of(p), rel)
}

/// Whether `d` ends as a parent does: in no separator and in no `.`
/// component, its head apart.
pub open spec fn is_trimmed(d: Seq<u8>) -> bool {
    spec_trim_end(d, spec_head_len(d), d.len() as int) == d.len()
}

/// Whether `name` is one component that names an entry: not empty, without a
/// separator, and not `.`.
pub open spec fn is_name(name: Seq<u8>) -> bool {
    &&& name.len() > 0
    &&& forall|i: int| 0 <= i < name.len() ==> name[i] != SEPARATOR
    &&& name != seq![DOT]
}

/// Trimming drops blank bytes only, and stops at the floor or behind a byte
/// that is not blank.
pub proof fn lemma_trim_end_bounds(p: Seq<u8>, floor: int, end: int)
    requires
        0 <= floor <= end <= p.len(),
    ensures
        floor <= spec_trim_end(p, floor, end) <= end,
        forall|i: int| spec_trim_end(p, floor, end) < i <= end ==> ends_blank(p, floor, i),
        spec_trim_end(p, floor, end) > floor ==> !ends_blank(
            p,
            floor,
            spec_trim_end(p, floor, end),
        ),
    decreases end,
{
    if floor < end <= p.len() && ends_blank(p, floor, end) {
        lemma_trim_end_bounds(p, floor, end - 1);
    }
}

/// A name holds no separator, and starts at the floor or behind a separator.
pub proof fn lemma_name_start_bounds(p: Seq<u8>, floor: int, end: int)
    requires
        0 <= floor <= end <= p.len(),
    ensures
        floor <= spec_name_start(p, floor, end) <= end,
        forall|i: int| spec_name_start(p, floor, end) <= i < end ==> p[i] != SEPARATOR,
        spec_name_start(p, floor, end) > floor ==> p[spec_name_start(p, floor, end) - 1]
            == SEPARATOR,
    decreases end,
{
    if floor < end <= p.len() && p[end - 1] != SEPARATOR {
        lemma_name_start_bounds(p, floor, end - 1);
    }
}

proof fn lemma_name_start_is(p: Seq<u8>, floor: int, start: int, end: int)
    requires
        0 <= floor <= start <= end <= p.len(),
        forall|i: int| start <= i < end ==> p[i] != SEPARATOR,
        start == floor || p[start - 1] == SEPARATOR,
    ensures
        spec_name_start(p, floor, end) == start,
    decreases end - start,
{
    if start < end {
        lemma_name_start_is(p, floor, start, end - 1);
    }
}

proof fn lemma_trim_end_reads_prefix(p: Seq<u8>, q: Seq<u8>, floor: int, end: int)
    requires
        0 <= floor <= end <= p.len(),
        end <= q.len(),
        forall|i: int| 0 <= i < end ==> p[i] == q[i],
    ensures
        spec_trim_end(p, floor, end) == spec_trim_end(q, floor, end),
    decreases end,
{
    if floor < end {
        lemma_trim_end_reads_prefix(p, q, floor, end - 1);
    }
}

/// A parent is a proper prefix of the path it is the parent of.
pub proof fn lemma_parent_is_proper_prefix(p: Seq<u8>)
    ensures
        spec_parent(p) matches Some(d) ==> d.len() < p.len() && d == p.take(d.len() as int),
{
    let floor = spec_head_len(p);
    let end = spec_trim_end(p, floor, p.len() as int);
    lemma_trim_end_bounds(p, floor, p.len() as int);
    if end > floor {
        let start = spec_name_start(p, floor, end);
        assert(start <= end - 1) by {
            lemma_name_start_bounds(p, floor, end - 1);
        }
        lemma_name_start_bounds(p, floor, end);
        lemma_trim_end_bounds(p, floor, start);
        let cut = spec_trim_end(p, floor, start);
        assert(p.take(cut).take(cut) =~= p.take(cut));
    } else if floor == 1 && !is_absolute(p) {
        assert(p.take(0) =~= Seq::<u8>::empty());
    }
}

/// A parent ends as `is_trimmed` says.
pub proof fn lemma_parent_is_trimmed(p: Seq<u8>)
    ensures
        spec_parent(p) matches Some(d) ==> is_trimmed(d),
{
    let floor = spec_head_len(p);
    let end = spec_trim_end(p, floor, p.len() as int);
    lemma_trim_end_bounds(p, floor, p.len() as int);
    if end > floor {
        let start = spec_name_start(p, floor, end);
        lemma_name_start_bounds(p, floor, end);
        let cut = spec_trim_end(p, floor, start);
        lemma_trim_end_bounds(p, floor, start);
        let d = p.take(cut);
        if cut > floor {
            assert(spec_head_len(d) == floor);
            assert(spec_trim_end(p, floor, cut) == cut);
            lemma_trim_end_reads_prefix(d, p, floor, cut);
        }
    }
}

/// Joining a name onto a directory and taking the parent gives the directory
/// back.
pub proof fn lemma_parent_of_child(d: Seq<u8>, name: Seq<u8>)
    requires
        is_trimmed(d),
        is_name(name),
    ensures
        spec_parent(spec_join(d, name)) == Some(d),
{
    let p = spec_join(d, name);
    let floor = spec_head_len(p);
    let len = p.len() as int;
    let at = len - name.len();
    assert(name.len() == 1 ==> name =~= seq![name[0]]);
    assert(forall|i: int| at <= i < len ==> p[i] == name[i - at]);
    if d.len() > 0 {
        lemma_trim_end_bounds(d, spec_head_len(d), d.len() as int);
        assert(floor == spec_head_len(d));
        assert(d.last() == SEPARATOR ==> d.len() == 1) by {
            if d.len() > floor {
                lemma_trim_end_bounds(d, floor, d.len() - 1);
            }
        }
    }
    assert(!ends_blank(p, floor, len));
    assert(spec_trim_end(p, floor, len) == len);
    lemma_name_start_is(p, floor, at, len);
    if d.len() > 0 && d.last() != SEPARATOR {
        lemma_trim_end_reads_prefix(p, d, floor, d.len() as int);
        assert(spec_trim_end(p, floor, at) == spec_trim_end(p, floor, at - 1));
    }
    assert(p.take(d.len() as int) =~= d);
}

/// What a name is beside a file of a directory is the name joined onto that
/// directory.
pub proof fn lemma_beside_child(d: Seq<u8>, name: Seq<u8>, rel: Seq<u8>)
    requires
        is_trimmed(d),
        is_name(name),
    ensures
        spec_beside(spec_join(d, name), rel) == spec_join(d, rel),
{
    lemma_parent_of_child(d, name);
}

fn head_len(p: &[u8]) -> (out: usize)
    ensures
        out == spec_head_len(p@),
        out <= p.len(),
{
    if p.len() == 0 {
        0
    } else if p[0] == SEPARATOR {
        1
    } else if p[0] == DOT && (p.len() == 1 || p[1] == SEPARATOR) {
        1
    } else {
        0
    }
}

fn trim_end(p: &[u8], floor: usize, end: usize) -> (out: usize)
    requires
        floor <= end <= p.len(),
    ensures
        out == spec_trim_end(p@, floor as int, end as int),
        floor <= out <= end,
{
    let mut e: usize = end;
    while e > floor && (p[e - 1] == SEPARATOR || (p[e - 1] == DOT && (e - 1 == floor || p[e - 2]
        == SEPARATOR)))
        invariant
            floor <= e <= end <= p.len(),
            spec_trim_end(p@, floor as int, e as int) == spec_trim_end(
                p@,
                floor as int,
                end as int,
            ),
        decreases e,
    {
        e -= 1;
    }
    e
}

fn name_start(p: &[u8], floor: usize, end: usize) -> (out: usize)
    requires
        floor <= end <= p.len(),
    ensures
        out == spec_name_start(p@, floor as int, end as int),
        floor <= out <= end,
{
    let mut e: usize = end;
    while e > floor && p[e - 1] != SEPARATOR
        invariant
            floor <= e <= end <= p.len(),
            spec_name_start(p@, floor as int, e as int) == spec_name_start(
                p@,
                floor as int,
                end as int,
            ),
        decreases e,
    {
        e -= 1;
    }
    e
}

/// Adjoins `rel` to `base`.
pub fn join(base: &[u8], rel: &[u8]) -> (out: Vec<u8>)
    ensures
        out@ == spec_join(base@, rel@),
{
    if rel.len() > 0 && rel[0] == SEPARATOR {
        return slice_to_vec(rel);
    }
    let mut out = slice_to_vec(base);
    if base.len() > 0 && base[base.len() - 1] != SEPARATOR {
        out.push(SEPARATOR);
    }
    out.extend_from_slice(rel);
    out
}

/// The path without its last component, if it has one to drop.
pub fn parent(p: &[u8]) -> (out: Option<&[u8]>)
    ensures
        match out {
            Some(d) => spec_parent(p@) == Some(d@),
            None => spec_parent(p@) is None,
        },
{
    let floor = head_len(p);
    let end = trim_end(p, floor, p.len());
    if end > floor {
        let start = name_start(p, floor, end);
        let cut = trim_end(p, floor, start);
        Some(slice_subrange(p, 0, cut))
    } else if floor == 1 && p[0] != SEPARATOR {
        Some(slice_subrange(p, 0, 0))
    } else {
        None
    }
}

/// The directory that holds `p`: its parent, or `p` itself where it has none.
pub fn dir_of(p: &[u8]) -> (out: &[u8])
    ensures
        out@ == spec_dir_of(p@),
{
    match parent(p) {
        Some(d) => d,
        None => p,
    }
}

/// What `rel` names when it is read from the directory that holds `p`.
pub fn beside(p: &[u8], rel: &[u8]) -> (out: Vec<u8>)
    ensures
        out@ == spec_beside(p@, rel@),
{
    join(dir_of(p), rel)
}

} // verus!
