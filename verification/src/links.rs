//! A table of symbolic links: what a file system answers when a path is read
//! as a link.

use crate::bytes::same_bytes;
use vstd::prelude::*;

verus! {

#[derive(Debug)]
struct Entry {
    path: Vec<u8>,
    target: Vec<u8>,
}

/// The symbolic links of a file system, as far as they are known: for each
/// path that is a link, the target stored in it. A path that the table does
/// not hold is no link.
///
/// Its view is the map from each link's path to its target.
#[derive(Debug)]
pub struct LinkTable {
    entries: Vec<Entry>,
}

/// The map that a list of entries stands for; a later entry replaces an
/// earlier one for the same path.
spec fn table_of(entries: Seq<Entry>) -> Map<Seq<u8>, Seq<u8>>
    decreases entries.len(),
{
    if entries.len() == 0 {
        Map::empty()
    } else {
        table_of(entries.drop_last()).insert(entries.last().path@, entries.last().target@)
    }
}

proof fn lemma_last_match(entries: Seq<Entry>, i: int, p: Seq<u8>)
    requires
        0 <= i < entries.len(),
        entries[i].path@ == p,
        forall|j: int| i < j < entries.len() ==> entries[j].path@ != p,
    ensures
        table_of(entries).contains_key(p),
        table_of(entries)[p] == entries[i].target@,
    decreases entries.len(),
{
    if i < entries.len() - 1 {
        lemma_last_match(entries.drop_last(), i, p);
    }
}

proof fn lemma_no_match(entries: Seq<Entry>, p: Seq<u8>)
    requires
        forall|j: int| 0 <= j < entries.len() ==> entries[j].path@ != p,
    ensures
        !table_of(entries).contains_key(p),
    decreases entries.len(),
{
    if entries.len() > 0 {
        lemma_no_match(entries.drop_last(), p);
    }
}

proof fn lemma_table_size(entries: Seq<Entry>)
    ensures
        table_of(entries).dom().finite(),
        table_of(entries).dom().len() <= entries.len(),
    decreases entries.len(),
{
    if entries.len() > 0 {
        lemma_table_size(entries.drop_last());
    }
}

impl View for LinkTable {
    type V = Map<Seq<u8>, Seq<u8>>;

    closed spec fn view(&self) -> Map<Seq<u8>, Seq<u8>> {
        table_of(self.entries@)
    }
}

impl LinkTable {
    /// A table without links: every path is final.
    pub fn new() -> (out: Self)
        ensures
            out@ == Map::<Seq<u8>, Seq<u8>>::empty(),
    {
        LinkTable { entries: Vec::new() }
    }

    /// Records that `path` is a link to `target`, in place of what the table
    /// held for `path` before.
    pub fn insert(&mut self, path: Vec<u8>, target: Vec<u8>)
        ensures
            final(self)@ == old(self)@.insert(path@, target@),
    {
        let ghost before = self.entries@;
        self.entries.push(Entry { path, target });
        assert(self.entries@.drop_last() =~= before);
    }

    /// A number that the table's links do not exceed.
    pub(crate) fn link_bound(&self) -> (out: usize)
        ensures
            self@.dom().finite(),
            self@.dom().len() <= out,
    {
        proof {
            lemma_table_size(self.entries@);
        }
        self.entries.len()
    }

    /// Reads `path` as a link: its target, or `None` where it is no link.
    pub fn read_link<'a>(&'a self, path: &[u8]) -> (out: Option<&'a [u8]>)
        ensures
            match out {
                Some(target) => self@.contains_key(path@) && self@[path@] == target@,
                None => !self@.contains_key(path@),
            },
    {
        let mut i: usize = self.entries.len();
        while i > 0
            invariant
                i <= self.entries.len(),
                forall|j: int| i <= j < self.entries.len() ==> self.entries[j].path@ != path@,
            decreases i,
        {
            i -= 1;
            if same_bytes(self.entries[i].path.as_slice(), path) {
                proof {
                    lemma_last_match(self.entries@, i as int, path@);
                }
                return Some(self.entries[i].target.as_slice());
            }
        }
        proof {
            lemma_no_match(self.entries@, path@);
        }
        None
    }
}

} // verus!
