//! Interface selection: which discovered interfaces are usable, and in
//! what order they are preferred. Discovery itself is a collaborator's
//! job; this module ranks what it found.
use vstd::prelude::*;

verus! {

/// What selection reads of one discovered interface: whether it has a
/// hardware address, and how many network-layer addresses it carries.
#[derive(Copy, Clone, Debug, PartialEq, Eq, Structural)]
pub struct InterfaceInfo {
    pub has_mac: bool,
    pub ip_count: usize,
}

/// Usable means a hardware address and at least one network-layer
/// address: the heuristic for a live interface.
pub open spec fn spec_usable(i: InterfaceInfo) -> bool {
    i.has_mac && i.ip_count > 0
}

/// Two ranked positions stand in preference order: more addresses
/// first, and among equals the later-discovered one first.
pub open spec fn spec_preferred(infos: Seq<InterfaceInfo>, a: int, b: int) -> bool {
    infos[a].ip_count > infos[b].ip_count || (infos[a].ip_count == infos[b].ip_count && a > b)
}

/// Ranks the usable interfaces: the result lists each usable index
/// exactly once, in preference order.
pub fn usable_order(infos: &Vec<InterfaceInfo>) -> (r: Vec<usize>)
    ensures
        forall|k: int| 0 <= k < r@.len() ==> (#[trigger] r@[k]) < infos@.len() && spec_usable(
            infos@[r@[k] as int],
        ),
        forall|j: int| 0 <= j < infos@.len() && spec_usable(#[trigger] infos@[j]) ==> r@.contains(
            j as usize,
        ),
        forall|k1: int, k2: int| 0 <= k1 < k2 < r@.len() ==> spec_preferred(
            infos@,
            r@[k1] as int,
            r@[k2] as int,
        ),
{
    let n = infos.len();
    let mut ord: Vec<usize> = Vec::new();
    let mut i: usize = n;
    while i > 0
        invariant
            i <= n,
            n == infos@.len(),
            forall|k: int| 0 <= k < ord@.len() ==> i <= (#[trigger] ord@[k]) < n && spec_usable(
                infos@[ord@[k] as int],
            ),
            forall|j: int| i <= j < n && spec_usable(#[trigger] infos@[j]) ==> ord@.contains(
                j as usize,
            ),
            forall|k1: int, k2: int| 0 <= k1 < k2 < ord@.len() ==> spec_preferred(
                infos@,
                ord@[k1] as int,
                ord@[k2] as int,
            ),
        decreases i,
    {
        i = i - 1;
        if infos[i].has_mac && infos[i].ip_count > 0 {
            let count = infos[i].ip_count;
            let mut pos: usize = 0;
            while pos < ord.len() && infos[ord[pos]].ip_count >= count
                invariant
                    pos <= ord@.len(),
                    n == infos@.len(),
                    forall|k: int| 0 <= k < ord@.len() ==> i < (#[trigger] ord@[k]) < n
                        && spec_usable(infos@[ord@[k] as int]),
                    forall|k: int| 0 <= k < pos ==> infos@[(#[trigger] ord@[k]) as int].ip_count
                        >= count,
                decreases ord@.len() - pos,
            {
                pos = pos + 1;
            }
            let ghost before = ord@;
            ord.insert(pos, i);
            proof {
                assert forall|k: int| 0 <= k < ord@.len() implies #[trigger] ord@[k] == if k
                    < pos {
                    before[k]
                } else if k == pos {
                    i as usize
                } else {
                    before[k - 1]
                } by {}
                assert forall|k1: int, k2: int|
                    0 <= k1 < k2 < ord@.len() implies spec_preferred(
                    infos@,
                    ord@[k1] as int,
                    ord@[k2] as int,
                ) by {
                    if k1 == pos {
                        assert(pos < before.len());
                        assert(infos@[before[pos as int] as int].ip_count < count);
                        if k2 - 1 > pos {
                            assert(spec_preferred(
                                infos@,
                                before[pos as int] as int,
                                before[k2 - 1] as int,
                            ));
                        }
                    } else if k2 == pos {
                        assert(infos@[before[k1] as int].ip_count >= count);
                        assert(before[k1] > i as usize);
                    } else {
                        let b1: int = if k1 < pos {
                            k1
                        } else {
                            k1 - 1
                        };
                        let b2: int = if k2 < pos {
                            k2
                        } else {
                            k2 - 1
                        };
                        assert(spec_preferred(infos@, before[b1] as int, before[b2] as int));
                    }
                }
                assert forall|j: int|
                    i <= j < n && spec_usable(#[trigger] infos@[j]) implies ord@.contains(
                    j as usize,
                ) by {
                    if j == i {
                        assert(ord@[pos as int] == i as usize);
                    } else {
                        let w = choose|w: int| 0 <= w < before.len() && before[w] == j as usize;
                        if w < pos {
                            assert(ord@[w] == j as usize);
                        } else {
                            assert(ord@[w + 1] == j as usize);
                        }
                    }
                }
            }
        } else {
            proof {
                assert forall|j: int|
                    i <= j < n && spec_usable(#[trigger] infos@[j]) implies ord@.contains(
                    j as usize,
                ) by {
                    if j > i {
                        assert(ord@.contains(j as usize));
                    }
                }
            }
        }
    }
    ord
}

} // verus!
