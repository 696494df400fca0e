//! The free blocks of a buddy allocator never overlap, and an allocation is
//! carved out of free memory: the laws that keep two allocations apart.
use vstd::prelude::*;

use vstd::arithmetic::power2::pow2;

use super::{
    buddy_of, find_buddy, first_nonempty, free_chain, lemma_buddy_adjacent, lemma_find_addr,
    lemma_first_nonempty, lemma_pow2_bound, merged_view, sizes_ok, split_lists, Alloc, FreeView,
    FREE_MAGIC, push_blocks, region_blocks, region_ok, block_at,
};
use crate::addr::align_up_spec;
use crate::math::{log2_ceil_spec, next_pow2_spec, prev_pow2_spec};

verus! {

/// Blocks `a` and `b` share at least one byte of physical memory.
pub open spec fn overlap(a: FreeView, b: FreeView) -> bool {
    &&& (a.base as int) < b.base + b.size
    &&& (b.base as int) < a.base + a.size
}

/// Block `a` lies inside block `b`.
pub open spec fn within(a: FreeView, b: FreeView) -> bool {
    &&& b.base <= a.base
    &&& a.base + a.size <= b.base + b.size
}

/// Block `b` shares no byte with any block on the free lists.
pub open spec fn disjoint_from(b: FreeView, lists: Seq<Seq<FreeView>>) -> bool {
    forall|o: int, k: int|
        0 <= o < lists.len() && 0 <= k < lists[o].len() ==> !overlap(b, #[trigger] lists[o][k])
}

/// No two entries of the free lists share a byte.
pub open spec fn blocks_disjoint(lists: Seq<Seq<FreeView>>) -> bool {
    forall|o1: int, k1: int, o2: int, k2: int|
        0 <= o1 < lists.len() && 0 <= k1 < lists[o1].len() && 0 <= o2 < lists.len() && 0 <= k2
            < lists[o2].len() && (o1 != o2 || k1 != k2) ==> !overlap(
            #[trigger] lists[o1][k1],
            #[trigger] lists[o2][k2],
        )
}

/// Pushing a block that shares no byte with the free lists onto the front
/// of one of them keeps the lists disjoint.
proof fn lemma_push_front(lists: Seq<Seq<FreeView>>, o: int, x: FreeView)
    requires
        blocks_disjoint(lists),
        disjoint_from(x, lists),
        0 <= o < lists.len(),
    ensures
        blocks_disjoint(lists.update(o, seq![x] + lists[o])),
{
    let n = lists.update(o, seq![x] + lists[o]);
    assert forall|o1: int, k1: int, o2: int, k2: int|
        0 <= o1 < n.len() && 0 <= k1 < n[o1].len() && 0 <= o2 < n.len() && 0 <= k2 < n[o2].len()
            && (o1 != o2 || k1 != k2) implies !overlap(#[trigger] n[o1][k1], #[trigger] n[o2][k2]) by {
        let a = n[o1][k1];
        let b = n[o2][k2];
        if o1 == o && k1 == 0 {
            assert(a == x);
            if o2 == o {
                assert(b == lists[o][k2 - 1]);
            } else {
                assert(b == lists[o2][k2]);
            }
        } else if o2 == o && k2 == 0 {
            assert(b == x);
            if o1 == o {
                assert(a == lists[o][k1 - 1]);
            } else {
                assert(a == lists[o1][k1]);
            }
        } else {
            let j1 = if o1 == o {
                k1 - 1
            } else {
                k1
            };
            let j2 = if o2 == o {
                k2 - 1
            } else {
                k2
            };
            assert(a == lists[o1][j1]);
            assert(b == lists[o2][j2]);
        }
    }
}

/// A block that shares no byte with the free lists, nor with a block pushed
/// onto one of them, shares no byte with the lists afterwards.
proof fn lemma_disjoint_from_push(lists: Seq<Seq<FreeView>>, o: int, x: FreeView, y: FreeView)
    requires
        disjoint_from(y, lists),
        !overlap(y, x),
        0 <= o < lists.len(),
    ensures
        disjoint_from(y, lists.update(o, seq![x] + lists[o])),
{
    let n = lists.update(o, seq![x] + lists[o]);
    assert forall|o1: int, k1: int| 0 <= o1 < n.len() && 0 <= k1 < n[o1].len() implies !overlap(
        y,
        #[trigger] n[o1][k1],
    ) by {
        if o1 == o && k1 > 0 {
            assert(n[o1][k1] == lists[o][k1 - 1]);
        } else if o1 != o {
            assert(n[o1][k1] == lists[o1][k1]);
        }
    }
}

/// Removing an entry keeps the lists disjoint, and the entry removed shares
/// no byte with what is left.
proof fn lemma_remove(lists: Seq<Seq<FreeView>>, o: int, k: int)
    requires
        blocks_disjoint(lists),
        0 <= o < lists.len(),
        0 <= k < lists[o].len(),
    ensures
        blocks_disjoint(lists.update(o, lists[o].remove(k))),
        disjoint_from(lists[o][k], lists.update(o, lists[o].remove(k))),
{
    let n = lists.update(o, lists[o].remove(k));
    let x = lists[o][k];
    assert forall|o1: int, k1: int, o2: int, k2: int|
        0 <= o1 < n.len() && 0 <= k1 < n[o1].len() && 0 <= o2 < n.len() && 0 <= k2 < n[o2].len()
            && (o1 != o2 || k1 != k2) implies !overlap(#[trigger] n[o1][k1], #[trigger] n[o2][k2]) by {
        let j1 = if o1 == o && k1 >= k {
            k1 + 1
        } else {
            k1
        };
        let j2 = if o2 == o && k2 >= k {
            k2 + 1
        } else {
            k2
        };
        assert(n[o1][k1] == lists[o1][j1]);
        assert(n[o2][k2] == lists[o2][j2]);
    }
    assert forall|o1: int, k1: int| 0 <= o1 < n.len() && 0 <= k1 < n[o1].len() implies !overlap(
        x,
        #[trigger] n[o1][k1],
    ) by {
        let j1 = if o1 == o && k1 >= k {
            k1 + 1
        } else {
            k1
        };
        assert(n[o1][k1] == lists[o1][j1]);
        assert(!overlap(lists[o][k], lists[o1][j1]));
    }
}

/// A block that shares no byte with the free lists still shares none once
/// an entry is removed.
proof fn lemma_disjoint_from_remove(lists: Seq<Seq<FreeView>>, o: int, k: int, y: FreeView)
    requires
        disjoint_from(y, lists),
        0 <= o < lists.len(),
        0 <= k < lists[o].len(),
    ensures
        disjoint_from(y, lists.update(o, lists[o].remove(k))),
{
    let n = lists.update(o, lists[o].remove(k));
    assert forall|o1: int, k1: int| 0 <= o1 < n.len() && 0 <= k1 < n[o1].len() implies !overlap(
        y,
        #[trigger] n[o1][k1],
    ) by {
        let j1 = if o1 == o && k1 >= k {
            k1 + 1
        } else {
            k1
        };
        assert(n[o1][k1] == lists[o1][j1]);
    }
}

/// A block inside a block that shares no byte with the free lists shares
/// none either.
proof fn lemma_within_disjoint(a: FreeView, b: FreeView, lists: Seq<Seq<FreeView>>)
    requires
        within(a, b),
        disjoint_from(b, lists),
    ensures
        disjoint_from(a, lists),
{
    assert forall|o: int, k: int| 0 <= o < lists.len() && 0 <= k < lists[o].len() implies !overlap(
        a,
        #[trigger] lists[o][k],
    ) by {
        assert(!overlap(b, lists[o][k]));
    }
}

/// Splitting a block that shares no byte with disjoint free lists keeps
/// them disjoint, and the part the block keeps lies inside it and shares no
/// byte with the lists afterwards.
pub proof fn law_split_keeps_disjoint(
    lists: Seq<Seq<FreeView>>,
    b: FreeView,
    order: int,
    target: int,
    offset: usize,
    k: nat,
)
    requires
        blocks_disjoint(lists),
        disjoint_from(b, lists),
        0 <= target <= order < lists.len(),
        b.size == pow2(k),
        order - target <= k,
        b.base + b.size <= usize::MAX,
    ensures
        blocks_disjoint(split_lists(lists, b, order, target, offset)),
        disjoint_from(
            FreeView { size: pow2((k - (order - target)) as nat) as usize, ..b },
            split_lists(lists, b, order, target, offset),
        ),
        within(FreeView { size: pow2((k - (order - target)) as nat) as usize, ..b }, b),
    decreases order - target,
{
    if order <= target {
        assert(FreeView { size: pow2(k) as usize, ..b } == b);
    } else {
        vstd::arithmetic::power2::lemma_pow2_unfold(k);
        vstd::arithmetic::power2::lemma_pow2_pos((k - 1) as nat);
        let half = (b.size / 2) as usize;
        assert(half == pow2((k - 1) as nat));
        let back = FreeView {
            magic: FREE_MAGIC,
            addr: (b.base + half + offset) as usize,
            base: (b.base + half) as usize,
            size: (b.size - half) as usize,
            kind: b.kind,
        };
        let front = FreeView { size: half, ..b };
        lemma_within_disjoint(back, b, lists);
        lemma_within_disjoint(front, b, lists);
        lemma_push_front(lists, order - 1, back);
        lemma_disjoint_from_push(lists, order - 1, back, front);
        let next = lists.update(order - 1, seq![back] + lists[order - 1]);
        law_split_keeps_disjoint(next, front, order - 1, target, offset, (k - 1) as nat);
        assert(FreeView {
            size: pow2(((k - 1) as nat - (order - 1 - target)) as nat) as usize,
            ..front
        } == FreeView { size: pow2((k - (order - target)) as nat) as usize, ..b });
    }
}

/// Block `t` lies inside some block on the free lists.
pub open spec fn within_some(t: FreeView, lists: Seq<Seq<FreeView>>) -> bool {
    exists|o: int, k: int|
        0 <= o < lists.len() && 0 <= k < lists[o].len() && within(t, #[trigger] lists[o][k])
}

impl Alloc {
    /// Taking a block for an allocation from free lists whose blocks share
    /// no byte keeps them so; the block taken lies inside a block that was
    /// free and shares no byte with any block left on the lists.
    pub proof fn law_take_block_disjoint(&self, order: int)
        requires
            self.wf(),
            blocks_disjoint(self.lists()),
            0 <= order,
        ensures
            blocks_disjoint(self.take_block(order).0),
            self.take_block(order).1 matches Some(t) ==> {
                &&& disjoint_from(t, self.take_block(order).0)
                &&& within_some(t, self.lists())
            },
    {
        let lists = self.lists();
        lemma_first_nonempty(lists, order);
        if let Some(j) = first_nonempty(lists, order) {
            let last = lists[j].len() - 1;
            let b = lists[j][last];
            assert(self.block_ok(b, j));
            assert(lists[j].drop_last() =~= lists[j].remove(last));
            lemma_remove(lists, j, last);
            let rest = lists.update(j, lists[j].drop_last());
            let m = self.min_log2();
            law_split_keeps_disjoint(rest, b, j, order, self.vm_offset_spec(), (m + j) as nat);
            let result = self.take_block(order).0;
            let t = self.take_block(order).1->0;
            let kept = FreeView { size: pow2(((m + j) as nat - (j - order)) as nat) as usize, ..b };
            assert((m + j) as nat - (j - order) == m + order);
            assert(within(t, kept));
            lemma_within_disjoint(t, kept, result);
            assert(within(t, lists[j][last]));
        }
    }
}

/// Two allocations in a row never overlap: after a block is taken from free
/// lists whose blocks share no byte, the next block taken shares no byte
/// with it.
pub proof fn law_allocations_disjoint(first: Alloc, order1: int, second: Alloc, order2: int)
    requires
        first.wf(),
        blocks_disjoint(first.lists()),
        0 <= order1,
        second.wf(),
        second.lists() == first.take_block(order1).0,
        0 <= order2,
        first.take_block(order1).1 is Some,
        second.take_block(order2).1 is Some,
    ensures
        !overlap(first.take_block(order1).1->0, second.take_block(order2).1->0),
{
    first.law_take_block_disjoint(order1);
    second.law_take_block_disjoint(order2);
    let t1 = first.take_block(order1).1->0;
    let t2 = second.take_block(order2).1->0;
    let lists = second.lists();
    let (o, k) = choose|o: int, k: int|
        0 <= o < lists.len() && 0 <= k < lists[o].len() && within(t2, #[trigger] lists[o][k]);
    assert(!overlap(t1, lists[o][k]));
}

/// Block `b` lives at its physical base plus `offset`, ends within the
/// address space, and does not start below the heap's base `base_vaddr`.
pub open spec fn placed(b: FreeView, offset: usize, base_vaddr: usize) -> bool {
    &&& b.addr == b.base + offset
    &&& b.addr + b.size <= usize::MAX
    &&& base_vaddr <= b.addr
}

/// Every block on the free lists is [`placed`].
pub open spec fn all_placed(lists: Seq<Seq<FreeView>>, offset: usize, base_vaddr: usize) -> bool {
    forall|o: int, k: int|
        0 <= o < lists.len() && 0 <= k < lists[o].len() ==> placed(
            #[trigger] lists[o][k],
            offset,
            base_vaddr,
        )
}

/// Merging a block with its buddy, the block of the same size right before
/// or after it, covers exactly the two: a block that shares no byte with
/// either shares none with the merged block.
proof fn lemma_merged_disjoint(b: FreeView, other: FreeView, y: FreeView)
    requires
        other.size == b.size,
        other.base == b.base + b.size || other.base + other.size == b.base,
        other.base + other.size <= usize::MAX,
        b.base + b.size <= usize::MAX,
        other.addr < b.addr <==> other.base < b.base,
        !overlap(b, y),
        !overlap(other, y),
        y.size > 0,
    ensures
        !overlap(merged_view(b, other), y),
{
    let m = merged_view(b, other);
    assert(other.size + b.size <= usize::MAX);
    if other.addr < b.addr {
        assert(m.base == other.base && m.size == other.size + b.size);
        assert(other.base + other.size == b.base);
    } else {
        assert(m.base == b.base && m.size == b.size + other.size);
        assert(other.base == b.base + b.size);
    }
}

/// Freeing a block that shares no byte with the free lists keeps the lists
/// disjoint, through every merge with a free buddy.
#[verifier::spinoff_prover]
#[verifier::rlimit(30)]
proof fn lemma_chain_disjoint(
    lists: Seq<Seq<FreeView>>,
    base: usize,
    min_log2: nat,
    b: FreeView,
    order: int,
    offset: usize,
)
    requires
        0 <= order,
        blocks_disjoint(lists),
        disjoint_from(b, lists),
        sizes_ok(lists, min_log2),
        all_placed(lists, offset, base),
        placed(b, offset, base),
        min_log2 + lists.len() <= usize::BITS,
        b.size == pow2((min_log2 + order) as nat),
    ensures
        blocks_disjoint(free_chain(lists, base, min_log2, b, order).0),
    decreases lists.len() - order,
{
    if order < lists.len() {
        match find_buddy(lists, base, min_log2, b.addr, order) {
            None => {
                lemma_push_front(lists, order, b);
            },
            Some(k) => {
                let s = pow2((min_log2 + order) as nat) as usize;
                let buddy = buddy_of(base, b.addr, s);
                lemma_find_addr(lists[order], buddy);
                lemma_buddy_adjacent(base, b.addr, s, (min_log2 + order) as nat);
                let other = lists[order][k];
                assert(placed(other, offset, base));
                assert(other.size == s);
                let l2 = lists.update(order, lists[order].remove(k));
                lemma_remove(lists, order, k);
                lemma_disjoint_from_remove(lists, order, k, b);
                let merged = merged_view(b, other);
                assert forall|o: int, j: int| 0 <= o < l2.len() && 0 <= j < l2[o].len() implies !overlap(
                    merged,
                    #[trigger] l2[o][j],
                ) by {
                    let jj = if o == order && j >= k {
                        j + 1
                    } else {
                        j
                    };
                    assert(l2[o][j] == lists[o][jj]);
                    vstd::arithmetic::power2::lemma_pow2_pos((min_log2 + o) as nat);
                    lemma_merged_disjoint(b, other, l2[o][j]);
                }
                if order + 1 < lists.len() {
                    vstd::arithmetic::power2::lemma_pow2_unfold((min_log2 + order + 1) as nat);
                    lemma_pow2_bound((min_log2 + order + 1) as nat);
                    assert(merged.size == pow2((min_log2 + order + 1) as nat));
                    assert forall|o: int, j: int| 0 <= o < l2.len() && 0 <= j < l2[o].len() implies #[trigger] l2[o][j].size
                        == pow2((min_log2 + o) as nat) by {
                        let jj = if o == order && j >= k {
                            j + 1
                        } else {
                            j
                        };
                        assert(l2[o][j] == lists[o][jj]);
                    }
                    assert forall|o: int, j: int| 0 <= o < l2.len() && 0 <= j < l2[o].len() implies placed(
                        #[trigger] l2[o][j],
                        offset,
                        base,
                    ) by {
                        let jj = if o == order && j >= k {
                            j + 1
                        } else {
                            j
                        };
                        assert(l2[o][j] == lists[o][jj]);
                    }
                    lemma_chain_disjoint(l2, base, min_log2, merged, order + 1, offset);
                } else {
                    assert(free_chain(l2, base, min_log2, merged, order + 1) == (l2, false));
                    assert(blocks_disjoint(l2));
                }
                assert(free_chain(lists, base, min_log2, b, order) == free_chain(
                    l2,
                    base,
                    min_log2,
                    merged,
                    order + 1,
                ));
            },
        }
    }
}

impl Alloc {
    /// Freeing a well-formed block that shares no byte with the free lists
    /// keeps the lists' blocks apart: the merges with its free buddies and
    /// the final push never make two blocks overlap.
    pub proof fn law_free_chain_disjoint(&self, b: FreeView, order: int)
        requires
            self.wf(),
            blocks_disjoint(self.lists()),
            disjoint_from(b, self.lists()),
            0 <= order,
            self.block_ok(b, order),
        ensures
            blocks_disjoint(
                free_chain(self.lists(), self.base_vaddr_spec(), self.min_log2(), b, order).0,
            ),
    {
        let lists = self.lists();
        assert forall|o: int, k: int| 0 <= o < lists.len() && 0 <= k < lists[o].len() implies #[trigger] lists[o][k].size
            == pow2((self.min_log2() + o) as nat) by {
            assert(self.block_ok(lists[o][k], o));
        }
        assert forall|o: int, k: int| 0 <= o < lists.len() && 0 <= k < lists[o].len() implies placed(
            #[trigger] lists[o][k],
            self.vm_offset_spec(),
            self.base_vaddr_spec(),
        ) by {
            assert(self.block_ok(lists[o][k], o));
        }
        lemma_chain_disjoint(
            lists,
            self.base_vaddr_spec(),
            self.min_log2(),
            b,
            order,
            self.vm_offset_spec(),
        );
    }
}

/// No two blocks of `blocks` share a byte.
pub open spec fn seq_disjoint(blocks: Seq<FreeView>) -> bool {
    forall|i: int, j: int|
        0 <= i < j < blocks.len() ==> !overlap(#[trigger] blocks[i], #[trigger] blocks[j])
}

/// Pushing blocks that share no byte with each other or with disjoint free
/// lists keeps the lists disjoint.
pub proof fn law_push_blocks_disjoint(
    lists: Seq<Seq<FreeView>>,
    blocks: Seq<FreeView>,
    min_log2: nat,
)
    requires
        blocks_disjoint(lists),
        seq_disjoint(blocks),
        forall|i: int| 0 <= i < blocks.len() ==> disjoint_from(#[trigger] blocks[i], lists),
        forall|i: int|
            0 <= i < blocks.len() ==> 0 <= #[trigger] log2_ceil_spec(blocks[i].size as nat) - min_log2
                < lists.len(),
    ensures
        blocks_disjoint(push_blocks(lists, blocks, min_log2)),
    decreases blocks.len(),
{
    if blocks.len() > 0 {
        let b = blocks[0];
        let o = log2_ceil_spec(b.size as nat) - min_log2;
        lemma_push_front(lists, o, b);
        let next = lists.update(o, seq![b] + lists[o]);
        let rest = blocks.drop_first();
        assert forall|i: int| 0 <= i < rest.len() implies disjoint_from(#[trigger] rest[i], next) by {
            assert(rest[i] == blocks[i + 1]);
            assert(!overlap(blocks[0], blocks[i + 1]));
            lemma_disjoint_from_push(lists, o, b, rest[i]);
        }
        assert forall|i: int| 0 <= i < rest.len() implies 0 <= #[trigger] log2_ceil_spec(
            rest[i].size as nat,
        ) - min_log2 < next.len() by {
            assert(rest[i] == blocks[i + 1]);
        }
        assert forall|i: int, j: int| 0 <= i < j < rest.len() implies !overlap(
            #[trigger] rest[i],
            #[trigger] rest[j],
        ) by {
            assert(rest[i] == blocks[i + 1]);
            assert(rest[j] == blocks[j + 1]);
        }
        law_push_blocks_disjoint(next, rest, min_log2);
    }
}

/// The blocks that adding a region pushes share no byte with each other,
/// and none starts below the region's base aligned up to the minimum block
/// size.
pub proof fn law_region_blocks_disjoint(
    min: int,
    min_log2: nat,
    len: int,
    offset: int,
    base: int,
    size: int,
    heap: int,
)
    requires
        min > 0,
        region_ok(min, min_log2, len, offset, base, size, heap),
    ensures
        seq_disjoint(region_blocks(base, size, min, offset)),
        forall|i: int|
            0 <= i < region_blocks(base, size, min, offset).len() ==> align_up_spec(base, min)
                <= #[trigger] region_blocks(base, size, min, offset)[i].base,
    decreases size,
{
    let b = align_up_spec(base, min);
    let blocks = region_blocks(base, size, min, offset);
    assert(b >= base) by {
        assert(base % min < min);
    }
    if size > 0 && !crate::addr::is_power_of_two(size as usize) {
        let p = prev_pow2_spec(size as nat) as int;
        if size - p >= min {
            law_region_blocks_disjoint(min, min_log2, len, offset, b + p, size - p, heap + p);
            let rest = region_blocks(b + p, size - p, min, offset);
            let front = block_at(b, p, offset);
            assert(blocks == seq![front] + rest);
            assert(align_up_spec(b + p, min) >= b + p) by {
                assert((b + p) % min < min);
            }
            assert forall|i: int, j: int| 0 <= i < j < blocks.len() implies !overlap(
                #[trigger] blocks[i],
                #[trigger] blocks[j],
            ) by {
                if i == 0 {
                    assert(blocks[j] == rest[j - 1]);
                    assert(blocks[j].base >= b + p);
                } else {
                    assert(blocks[i] == rest[i - 1]);
                    assert(blocks[j] == rest[j - 1]);
                }
            }
            assert forall|i: int| 0 <= i < blocks.len() implies b <= #[trigger] blocks[i].base by {
                if i > 0 {
                    assert(blocks[i] == rest[i - 1]);
                }
            }
        }
    }
}

} // verus!
