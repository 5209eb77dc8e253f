//! Following a chain of symbolic links to the file it ends at.
//!
//! A link's target is read from the directory that holds the link, so a
//! relative target is resolved against the link's own place and not against
//! the working directory. Joining is lexical: `..` in a target stays in the
//! path.
//!
//! The walk does not look for cycles. A chain that closes on itself never
//! ends, and following it would not either: `walk_symlink` asks that the
//! chain ends, and `chain_has_end` tells whether it does.
//!
//! `walk_step` is one decision of the walk, for a caller that reads the links
//! itself; `walk_symlink` is the whole walk through a table of links.

use crate::links::LinkTable;
use crate::path::{beside, spec_beside};
use vstd::prelude::*;
use vstd::set_lib::lemma_len_subset;
use vstd::slice::slice_to_vec;

verus! {

/// What to do after a path was read as a link.
#[derive(Debug, PartialEq, Eq)]
pub enum Walk {
    /// The path was a link: this is where it leads, to be read next.
    Follow(Vec<u8>),
    /// The path was no link: it is the result.
    Done(Vec<u8>),
}

/// One hop: where the link at `p` leads, or `p` itself where it is no link.
pub open spec fn spec_hop(links: Map<Seq<u8>, Seq<u8>>, p: Seq<u8>) -> Seq<u8> {
    if links.contains_key(p) {
        spec_beside(p, links[p])
    } else {
        p
    }
}

/// The path reached from `p` after `n` hops.
pub open spec fn spec_walk(links: Map<Seq<u8>, Seq<u8>>, p: Seq<u8>, n: nat) -> Seq<u8>
    decreases n,
{
    if n == 0 {
        p
    } else {
        spec_hop(links, spec_walk(links, p, (n - 1) as nat))
    }
}

/// Whether the chain that starts at `p` has reached a path that is no link
/// after `n` hops.
pub open spec fn ends_within(links: Map<Seq<u8>, Seq<u8>>, p: Seq<u8>, n: nat) -> bool {
    !links.contains_key(spec_walk(links, p, n))
}

/// Whether the chain that starts at `p` ends at all.
pub open spec fn chain_ends(links: Map<Seq<u8>, Seq<u8>>, p: Seq<u8>) -> bool {
    exists|n: nat| ends_within(links, p, n)
}

/// The path at which the chain that starts at `p` ends. It says nothing of a
/// chain that does not end.
pub open spec fn spec_walk_symlink(links: Map<Seq<u8>, Seq<u8>>, p: Seq<u8>) -> Seq<u8> {
    spec_walk(links, p, choose|n: nat| ends_within(links, p, n))
}

/// A chain that has ended stays where it is.
pub proof fn lemma_walk_settles(links: Map<Seq<u8>, Seq<u8>>, p: Seq<u8>, n: nat, m: nat)
    requires
        ends_within(links, p, n),
        n <= m,
    ensures
        spec_walk(links, p, m) == spec_walk(links, p, n),
    decreases m,
{
    if n < m {
        lemma_walk_settles(links, p, n, (m - 1) as nat);
    }
}

/// However many hops it took a chain to end, it ended at the same path: the
/// one that `spec_walk_symlink` names.
pub proof fn lemma_end_is_unique(links: Map<Seq<u8>, Seq<u8>>, p: Seq<u8>, n: nat)
    requires
        ends_within(links, p, n),
    ensures
        chain_ends(links, p),
        spec_walk_symlink(links, p) == spec_walk(links, p, n),
        !links.contains_key(spec_walk_symlink(links, p)),
{
    let k = choose|k: nat| ends_within(links, p, k);
    if k <= n {
        lemma_walk_settles(links, p, k, n);
    } else {
        lemma_walk_settles(links, p, n, k);
    }
}

/// A path that is no link resolves to itself.
pub proof fn lemma_non_link_resolves_to_itself(links: Map<Seq<u8>, Seq<u8>>, s: Seq<u8>)
    requires
        !links.contains_key(s),
    ensures
        chain_ends(links, s),
        spec_walk_symlink(links, s) == s,
{
    assert(ends_within(links, s, 0));
    lemma_end_is_unique(links, s, 0);
}

/// Whether `chain` lists the paths of a chain of links in order: each path
/// but the last is a link, and leads to the next when its target is read from
/// the directory that holds it; the last is no link.
pub open spec fn is_link_chain(links: Map<Seq<u8>, Seq<u8>>, chain: Seq<Seq<u8>>) -> bool {
    &&& chain.len() >= 1
    &&& forall|i: int|
        0 <= i < chain.len() - 1 ==> links.contains_key(#[trigger] chain[i]) && chain[i + 1]
            == spec_beside(chain[i], links[chain[i]])
    &&& !links.contains_key(chain.last())
}

/// The first path of a chain of links resolves to its last, whatever the
/// chain's length.
pub proof fn lemma_chain_resolves(links: Map<Seq<u8>, Seq<u8>>, chain: Seq<Seq<u8>>)
    requires
        is_link_chain(links, chain),
    ensures
        chain_ends(links, chain[0]),
        spec_walk_symlink(links, chain[0]) == chain.last(),
{
    lemma_walk_along(links, chain, (chain.len() - 1) as nat);
    lemma_end_is_unique(links, chain[0], (chain.len() - 1) as nat);
}

proof fn lemma_walk_along(links: Map<Seq<u8>, Seq<u8>>, chain: Seq<Seq<u8>>, n: nat)
    requires
        is_link_chain(links, chain),
        n < chain.len(),
    ensures
        spec_walk(links, chain[0], n) == chain[n as int],
    decreases n,
{
    if n > 0 {
        lemma_walk_along(links, chain, (n - 1) as nat);
        assert(links.contains_key(chain[n - 1]));
    }
}

/// A resolved path resolves to itself.
pub proof fn lemma_walk_symlink_twice(links: Map<Seq<u8>, Seq<u8>>, p: Seq<u8>)
    requires
        chain_ends(links, p),
    ensures
        chain_ends(links, spec_walk_symlink(links, p)),
        spec_walk_symlink(links, spec_walk_symlink(links, p)) == spec_walk_symlink(links, p),
{
    lemma_non_link_resolves_to_itself(links, spec_walk_symlink(links, p));
}

proof fn lemma_walk_repeats(links: Map<Seq<u8>, Seq<u8>>, p: Seq<u8>, i: nat, j: nat, k: nat)
    requires
        spec_walk(links, p, i) == spec_walk(links, p, j),
    ensures
        spec_walk(links, p, i + k) == spec_walk(links, p, j + k),
    decreases k,
{
    if k > 0 {
        lemma_walk_repeats(links, p, i, j, (k - 1) as nat);
    }
}

proof fn lemma_cycle_holds_only_links(
    links: Map<Seq<u8>, Seq<u8>>,
    p: Seq<u8>,
    i: nat,
    j: nat,
    n: nat,
)
    requires
        i < j,
        spec_walk(links, p, i) == spec_walk(links, p, j),
        forall|m: nat| m <= j ==> links.contains_key(#[trigger] spec_walk(links, p, m)),
    ensures
        links.contains_key(spec_walk(links, p, n)),
    decreases n,
{
    if n > j {
        lemma_walk_repeats(links, p, i, j, (n - j) as nat);
        lemma_cycle_holds_only_links(links, p, i, j, (n - (j - i)) as nat);
    }
}

/// A chain that is longer than the table has links passes some link twice,
/// and so never ends.
pub proof fn lemma_long_chain_never_ends(links: Map<Seq<u8>, Seq<u8>>, p: Seq<u8>, bound: nat)
    requires
        links.dom().finite(),
        links.dom().len() <= bound,
        forall|m: nat| m <= bound ==> links.contains_key(#[trigger] spec_walk(links, p, m)),
    ensures
        !chain_ends(links, p),
{
    let visited = Seq::new(bound + 1, |m: int| spec_walk(links, p, m as nat));
    assert(!visited.no_duplicates()) by {
        if visited.no_duplicates() {
            visited.unique_seq_to_set();
            assert forall|q: Seq<u8>| visited.to_set().contains(q) implies links.dom().contains(
                q,
            ) by {
                let m = choose|m: int| 0 <= m < visited.len() && visited[m] == q;
                assert(links.contains_key(spec_walk(links, p, m as nat)));
            }
            lemma_len_subset(visited.to_set(), links.dom());
        }
    }
    let (i, j) = choose|i: int, j: int|
        0 <= i < visited.len() && 0 <= j < visited.len() && i != j && visited[i] == visited[j];
    let (lo, hi) = if i < j {
        (i as nat, j as nat)
    } else {
        (j as nat, i as nat)
    };
    assert forall|n: nat| !ends_within(links, p, n) by {
        lemma_cycle_holds_only_links(links, p, lo, hi, n);
    }
}

/// Decides what follows after `current` was read as a link, with `read` what
/// the reading gave: the link's target, or `None` where `current` is no link
/// or could not be read.
pub fn walk_step(current: Vec<u8>, read: Option<&[u8]>) -> (out: Walk)
    ensures
        match read {
            Some(target) => out matches Walk::Follow(next) && next@ == spec_beside(
                current@,
                target@,
            ),
            None => out matches Walk::Done(last) && last@ == current@,
        },
{
    match read {
        Some(target) => Walk::Follow(beside(current.as_slice(), target)),
        None => Walk::Done(current),
    }
}

/// Tells whether the chain of links from `link` ends, and so whether
/// `walk_symlink` may be asked to follow it.
pub fn chain_has_end(link: &[u8], links: &LinkTable) -> (out: bool)
    ensures
        out == chain_ends(links@, link@),
{
    let bound = links.link_bound();
    let mut hops: usize = 0;
    let mut p = slice_to_vec(link);
    loop
        invariant
            hops <= bound,
            links@.dom().finite(),
            links@.dom().len() <= bound,
            p@ == spec_walk(links@, link@, hops as nat),
            forall|m: nat| m < hops ==> links@.contains_key(#[trigger] spec_walk(links@, link@, m)),
        decreases bound - hops,
    {
        let read = links.read_link(p.as_slice());
        match walk_step(p, read) {
            Walk::Follow(next) => {
                if hops == bound {
                    proof {
                        lemma_long_chain_never_ends(links@, link@, bound as nat);
                    }
                    return false;
                }
                hops += 1;
                p = next;
            },
            Walk::Done(_) => {
                assert(ends_within(links@, link@, hops as nat));
                return true;
            },
        }
    }
}

/// Follows the links in `links` from `link` until a path that is no link.
///
/// The chain must end: on one that does not, the walk would not either.
/// Nothing here tests that; `chain_has_end` does.
pub fn walk_symlink(link: &[u8], links: &LinkTable) -> (out: Vec<u8>)
    requires
        chain_ends(links@, link@),
    ensures
        out@ == spec_walk_symlink(links@, link@),
        !links@.contains_key(out@),
        !links@.contains_key(link@) ==> out@ == link@,
        forall|chain: Seq<Seq<u8>>| #[trigger]
            is_link_chain(links@, chain) && chain[0] == link@ ==> out@ == chain.last(),
{
    let ghost total = choose|n: nat| ends_within(links@, link@, n);
    let ghost mut hops: nat = 0;
    let mut p = slice_to_vec(link);
    loop
        invariant
            hops <= total,
            ends_within(links@, link@, total),
            p@ == spec_walk(links@, link@, hops),
        decreases total - hops,
    {
        let read = links.read_link(p.as_slice());
        match walk_step(p, read) {
            Walk::Follow(next) => {
                proof {
                    hops = hops + 1;
                }
                p = next;
            },
            Walk::Done(last) => {
                proof {
                    lemma_end_is_unique(links@, link@, hops);
                    if !links@.contains_key(link@) {
                        lemma_non_link_resolves_to_itself(links@, link@);
                    }
                    assert forall|chain: Seq<Seq<u8>>| #[trigger]
                        is_link_chain(links@, chain) && chain[0] == link@ implies last@
                        == chain.last() by {
                        lemma_chain_resolves(links@, chain);
                    }
                }
                return last;
            },
        }
    }
}

} // verus!
