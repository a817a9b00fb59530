//! The in-memory map from block numbers to block hashes: what inserting a block does to it.
//!
//! A block that arrives at a number which is already taken by another block is a fork. The old
//! block goes, and with it the run of blocks that directly follows it. After that the blocks with
//! the lowest numbers go until the map is within its limit.

use crate::primitives::H256;
use std::collections::BTreeMap;
use vstd::prelude::*;

verus! {

broadcast use {
    vstd::std_specs::btree::group_btree_axioms,
    vstd::laws_cmp::group_laws_cmp,
};

/// The substrate block number type.
pub type SubstrateBlockNumber = u32;

/// The most entries that are kept where the database is persistent.
pub const MAX_CACHED_BLOCKS: usize = 256;

/// A block, named by its hash on either side.
#[derive(Clone, Copy, Debug, Eq)]
pub struct BlockHashMap {
    /// The hash of the block on the Substrate chain.
    pub substrate_hash: H256,
    /// The hash of the Ethereum block that the Substrate block stands for.
    pub ethereum_hash: H256,
}

impl PartialEq for BlockHashMap {
    fn eq(&self, other: &Self) -> (r: bool) {
        self.substrate_hash == other.substrate_hash && self.ethereum_hash == other.ethereum_hash
    }
}

impl vstd::std_specs::cmp::PartialEqSpecImpl for BlockHashMap {
    open spec fn obeys_eq_spec() -> bool {
        true
    }

    open spec fn eq_spec(&self, other: &Self) -> bool {
        *self == *other
    }
}

impl BlockHashMap {
    /// The pair of the two hashes.
    pub fn new(substrate_hash: H256, ethereum_hash: H256) -> (map: BlockHashMap)
        ensures
            map == (BlockHashMap { substrate_hash, ethereum_hash }),
    {
        BlockHashMap { substrate_hash, ethereum_hash }
    }
}

/// The blocks that are cached, by number.
pub type Blocks = Map<u32, BlockHashMap>;

/// Whether another block already stands at the number.
pub open spec fn is_fork(blocks: Blocks, number: u32, block: BlockHashMap) -> bool {
    blocks.contains_key(number) && blocks[number] != block
}

/// How many consecutive numbers from `start` on are taken.
pub open spec fn run_length(blocks: Blocks, start: int) -> nat
    decreases u32::MAX + 1 - start,
{
    if 0 <= start <= u32::MAX && blocks.contains_key(start as u32) {
        1 + run_length(blocks, start + 1)
    } else {
        0
    }
}

/// The blocks of the run of consecutive numbers from `start` on, in order.
pub open spec fn run(blocks: Blocks, start: int) -> Seq<BlockHashMap> {
    Seq::new(run_length(blocks, start), |i: int| blocks[(start + i) as u32])
}

/// The blocks without the run of consecutive numbers from `start` on.
pub open spec fn without_run(blocks: Blocks, start: int) -> Blocks {
    Map::new(
        |k: u32| blocks.contains_key(k) && !(start <= k < start + run_length(blocks, start)),
        |k: u32| blocks[k],
    )
}

/// The blocks after a block was put at its number and, where that was a fork, the run that follows
/// the number was cut off.
pub open spec fn with_block(blocks: Blocks, number: u32, block: BlockHashMap) -> Blocks {
    if is_fork(blocks, number, block) {
        without_run(blocks.insert(number, block), number + 1)
    } else {
        blocks.insert(number, block)
    }
}

/// The blocks that a fork drives out: the one that stood at the number, then the run after it.
pub open spec fn displaced(blocks: Blocks, number: u32, block: BlockHashMap) -> Seq<BlockHashMap> {
    if is_fork(blocks, number, block) {
        seq![blocks[number]] + run(blocks.insert(number, block), number + 1)
    } else {
        seq![]
    }
}

/// Whether the number is the lowest one that is taken.
pub open spec fn is_oldest(blocks: Blocks, number: u32) -> bool {
    blocks.contains_key(number) && forall|k: u32| blocks.contains_key(k) ==> number <= k
}

/// The lowest number that is taken.
pub open spec fn oldest(blocks: Blocks) -> u32 {
    choose|number: u32| is_oldest(blocks, number)
}

/// The blocks without the `count` ones with the lowest numbers.
pub open spec fn without_oldest(blocks: Blocks, count: nat) -> Blocks
    decreases count,
{
    if count == 0 {
        blocks
    } else {
        let rest = without_oldest(blocks, (count - 1) as nat);
        rest.remove(oldest(rest))
    }
}

/// The `count` blocks with the lowest numbers, the lowest first.
pub open spec fn oldest_blocks(blocks: Blocks, count: nat) -> Seq<BlockHashMap>
    decreases count,
{
    if count == 0 {
        seq![]
    } else {
        let rest = without_oldest(blocks, (count - 1) as nat);
        oldest_blocks(blocks, (count - 1) as nat).push(rest[oldest(rest)])
    }
}

/// By how many entries the blocks go over the limit.
pub open spec fn excess(blocks: Blocks, limit: nat) -> nat {
    if blocks.len() > limit {
        (blocks.len() - limit) as nat
    } else {
        0
    }
}

/// The limit on the number of cached blocks.
pub open spec fn cache_limit(keep_latest_n_blocks: Option<usize>) -> nat {
    match keep_latest_n_blocks {
        Some(n) => n as nat,
        None => MAX_CACHED_BLOCKS as nat,
    }
}

/// The cached blocks after a block was inserted.
pub open spec fn blocks_after(
    blocks: Blocks,
    keep_latest_n_blocks: Option<usize>,
    number: u32,
    block: BlockHashMap,
) -> Blocks {
    let held = with_block(blocks, number, block);
    without_oldest(held, excess(held, cache_limit(keep_latest_n_blocks)))
}

/// Whether the records of a block belong into the database: those of every block where it is
/// persistent, and those of the blocks that are held where only the latest ones are kept.
pub open spec fn is_stored(
    blocks: Blocks,
    keep_latest_n_blocks: Option<usize>,
    number: u32,
    block: BlockHashMap,
) -> bool {
    keep_latest_n_blocks is None || (blocks.contains_key(number) && blocks[number] == block)
}

/// The blocks whose records leave the database when a block is inserted: those that a fork drives
/// out and, where only the latest blocks are kept, the oldest ones beyond the limit.
pub open spec fn blocks_to_remove(
    blocks: Blocks,
    keep_latest_n_blocks: Option<usize>,
    number: u32,
    block: BlockHashMap,
) -> Seq<BlockHashMap> {
    let held = with_block(blocks, number, block);
    match keep_latest_n_blocks {
        Some(n) => displaced(blocks, number, block) + oldest_blocks(held, excess(held, n as nat)),
        None => displaced(blocks, number, block),
    }
}

/// Calls `BTreeMap::pop_first` of the standard library: it takes the entry with the lowest key out
/// of the map and hands it back, or hands back nothing and leaves the map alone where it is empty.
#[verifier::external_body]
fn pop_first(map: &mut BTreeMap<u32, BlockHashMap>) -> (entry: Option<(u32, BlockHashMap)>)
    ensures
        match entry {
            Some((number, block)) => {
                &&& is_oldest(old(map)@, number)
                &&& block == old(map)@[number]
                &&& final(map)@ == old(map)@.remove(number)
            },
            None => old(map)@.is_empty() && final(map)@ == old(map)@,
        },
{
    map.pop_first()
}

/// The lowest number is unique.
pub(crate) proof fn lemma_oldest(blocks: Blocks, number: u32)
    requires
        is_oldest(blocks, number),
    ensures
        oldest(blocks) == number,
{
    let chosen = oldest(blocks);
    assert(is_oldest(blocks, chosen));
}

/// Takes the run of consecutive numbers from `start` on out of the map, appending its blocks to
/// `removed`.
fn cut_run(map: &mut BTreeMap<u32, BlockHashMap>, start: u32, removed: &mut Vec<BlockHashMap>)
    ensures
        final(map)@ == without_run(old(map)@, start as int),
        final(removed)@ == old(removed)@ + run(old(map)@, start as int),
{
    let ghost blocks = map@;
    let ghost before = removed@;
    let mut next: u32 = start;
    let mut going: bool = true;
    let ghost mut taken: nat = 0;
    proof {
        assert(map@ =~= blocks);
        assert(removed@ =~= before + Seq::new(0, |i: int| blocks[(start + i) as u32]));
    }
    while going
        invariant
            going ==> next == (if start + taken <= u32::MAX { start + taken } else { u32::MAX as int }),
            start + taken <= u32::MAX + 1,
            run_length(blocks, start as int) == taken + (if going {
                run_length(blocks, start + taken)
            } else {
                0
            }),
            forall|k: u32| #[trigger]
                map@.contains_key(k) <==> blocks.contains_key(k) && !(start <= k < start + taken),
            forall|k: u32| map@.contains_key(k) ==> map@[k] == blocks[k],
            removed@ == before + Seq::new(taken, |i: int| blocks[(start + i) as u32]),
        decreases
            u32::MAX + 1 - start - taken,
            (if going {
                1int
            } else {
                0int
            }),
    {
        match map.remove(&next) {
            Some(old) => {
                proof {
                    assert(start + taken <= u32::MAX);
                    assert(next == start + taken);
                    let grown = Seq::new(taken + 1, |i: int| blocks[(start + i) as u32]);
                    assert(before + grown =~= removed@.push(old));
                    taken = taken + 1;
                }
                removed.push(old);
                next = next.saturating_add(1);
            },
            None => {
                going = false;
            },
        }
    }
    assert(map@ =~= without_run(blocks, start as int));
}

/// Takes entries with the lowest numbers out of the map until it is within the limit. Their blocks
/// are handed back, the lowest number first.
fn evict(map: &mut BTreeMap<u32, BlockHashMap>, limit: usize) -> (evicted: Vec<BlockHashMap>)
    ensures
        final(map)@ == without_oldest(old(map)@, excess(old(map)@, limit as nat)),
        evicted@ == oldest_blocks(old(map)@, excess(old(map)@, limit as nat)),
{
    let ghost blocks = map@;
    let ghost mut count: nat = 0;
    let mut evicted: Vec<BlockHashMap> = Vec::new();
    while map.len() > limit
        invariant
            map@ == without_oldest(blocks, count),
            evicted@ == oldest_blocks(blocks, count),
            map@.dom().finite(),
            count <= excess(blocks, limit as nat),
            map@.len() == blocks.len() - count,
        decreases map@.len(),
    {
        let ghost rest = map@;
        match pop_first(map) {
            Some((number, block)) => {
                proof {
                    lemma_oldest(rest, number);
                    count = count + 1;
                }
                evicted.push(block);
            },
            None => {
                assert(rest.dom() =~= Set::empty());
            },
        }
    }
    evicted
}

/// Puts a block into the map and brings the map back within its limit. Handed back are the blocks
/// whose records have to leave the database.
pub(crate) fn insert_block(
    map: &mut BTreeMap<u32, BlockHashMap>,
    keep_latest_n_blocks: Option<usize>,
    number: u32,
    block: &BlockHashMap,
) -> (to_remove: Vec<BlockHashMap>)
    ensures
        final(map)@ == blocks_after(old(map)@, keep_latest_n_blocks, number, *block),
        to_remove@ == blocks_to_remove(old(map)@, keep_latest_n_blocks, number, *block),
{
    let ghost blocks = map@;
    let mut to_remove: Vec<BlockHashMap> = Vec::new();
    match map.insert(number, block.clone()) {
        Some(previous) => {
            if previous != *block {
                to_remove.push(previous);
                if number < u32::MAX {
                    cut_run(map, number + 1, &mut to_remove);
                }
            }
        },
        None => {},
    }
    assert(to_remove@ =~= displaced(blocks, number, *block));
    assert(map@ =~= with_block(blocks, number, *block));
    match keep_latest_n_blocks {
        Some(limit) => {
            let mut evicted: Vec<BlockHashMap> = evict(map, limit);
            to_remove.append(&mut evicted);
        },
        None => {
            let _evicted = evict(map, MAX_CACHED_BLOCKS);
        },
    }
    to_remove
}

/// Where any number is taken, there is a lowest one.
proof fn lemma_oldest_exists(blocks: Blocks)
    requires
        blocks.dom().finite(),
        blocks.len() > 0,
    ensures
        is_oldest(blocks, oldest(blocks)),
    decreases blocks.len(),
{
    let some = blocks.dom().choose();
    assert(blocks.dom().contains(some)) by {
        if !blocks.dom().contains(some) {
            assert(blocks.dom() =~= Set::empty());
        }
    }
    let rest = blocks.remove(some);
    assert(rest.dom() =~= blocks.dom().remove(some));
    if rest.len() == 0 {
        assert forall|k: u32| blocks.contains_key(k) implies some <= k by {
            if k != some {
                assert(rest.dom().contains(k));
                assert(rest.dom() =~= Set::empty());
            }
        }
        assert(is_oldest(blocks, some));
    } else {
        lemma_oldest_exists(rest);
        let low = oldest(rest);
        let lowest = if some <= low {
            some
        } else {
            low
        };
        assert forall|k: u32| blocks.contains_key(k) implies lowest <= k by {
            if k != some {
                assert(rest.contains_key(k));
            }
        }
        assert(is_oldest(blocks, lowest));
    }
}

/// Leaving out the oldest blocks leaves the latest ones: exactly `count` blocks go, what stays is
/// unchanged, every number that goes is below every number that stays, and the blocks that go are
/// those that are listed.
#[verifier::spinoff_prover]
pub proof fn leaving_out_the_oldest_keeps_the_latest(blocks: Blocks, count: nat)
    requires
        blocks.dom().finite(),
        count <= blocks.len(),
    ensures
        without_oldest(blocks, count).dom().finite(),
        without_oldest(blocks, count).submap_of(blocks),
        without_oldest(blocks, count).len() == blocks.len() - count,
        forall|gone: u32, stays: u32|
            blocks.contains_key(gone) && !without_oldest(blocks, count).contains_key(gone)
                && without_oldest(blocks, count).contains_key(stays) ==> gone < stays,
        oldest_blocks(blocks, count).len() == count,
        forall|block: BlockHashMap|
            oldest_blocks(blocks, count).contains(block) <==> exists|gone: u32|
                blocks.contains_key(gone) && !without_oldest(blocks, count).contains_key(gone)
                    && blocks[gone] == block,
    decreases count,
{
    let listed = oldest_blocks(blocks, count);
    let kept = without_oldest(blocks, count);
    if count == 0 {
        assert forall|block: BlockHashMap| listed.contains(block) <==> exists|gone: u32|
            blocks.contains_key(gone) && !kept.contains_key(gone) && blocks[gone] == block by {
            assert(listed.len() == 0);
        }
    } else {
        let before = (count - 1) as nat;
        let rest = without_oldest(blocks, before);
        let earlier = oldest_blocks(blocks, before);
        leaving_out_the_oldest_keeps_the_latest(blocks, before);
        lemma_oldest_exists(rest);
        let low = oldest(rest);
        assert(rest.dom().contains(low));
        assert(blocks.dom().contains(low) && blocks[low] == rest[low]);
        assert(kept.dom() =~= rest.dom().remove(low));
        assert(listed =~= earlier.push(rest[low]));
        assert forall|block: BlockHashMap| listed.contains(block) <==> exists|gone: u32|
            blocks.contains_key(gone) && !kept.contains_key(gone) && blocks[gone] == block by {
            if listed.contains(block) {
                let i = choose|i: int| 0 <= i < listed.len() && listed[i] == block;
                if i < before {
                    assert(earlier[i] == block);
                    assert(earlier.contains(block));
                    let gone = choose|gone: u32|
                        blocks.contains_key(gone) && !rest.contains_key(gone) && blocks[gone]
                            == block;
                    assert(!kept.contains_key(gone));
                } else {
                    assert(listed[before as int] == rest[low]);
                    assert(blocks.contains_key(low) && !kept.contains_key(low) && blocks[low]
                        == block);
                }
            }
            if exists|gone: u32|
                blocks.contains_key(gone) && !kept.contains_key(gone) && blocks[gone] == block {
                let gone = choose|gone: u32|
                    blocks.contains_key(gone) && !kept.contains_key(gone) && blocks[gone] == block;
                if gone == low {
                    assert(listed[before as int] == block);
                } else {
                    assert(!rest.contains_key(gone));
                    assert(earlier.contains(block));
                    let i = choose|i: int| 0 <= i < earlier.len() && earlier[i] == block;
                    assert(listed[i] == block);
                }
            }
        }
    }
}

/// The numbers of a run are taken, and the number right behind it is not.
pub proof fn a_run_is_maximal(blocks: Blocks, start: int)
    requires
        0 <= start,
    ensures
        forall|k: u32| start <= k < start + run_length(blocks, start) ==> blocks.contains_key(k),
        start + run_length(blocks, start) <= u32::MAX ==> !blocks.contains_key(
            (start + run_length(blocks, start)) as u32,
        ),
    decreases u32::MAX + 1 - start,
{
    if start <= u32::MAX && blocks.contains_key(start as u32) {
        a_run_is_maximal(blocks, start + 1);
        assert forall|k: u32| start <= k < start + run_length(
            blocks,
            start,
        ) implies blocks.contains_key(k) by {
            if k > start {
                assert(start + 1 <= k < start + 1 + run_length(blocks, start + 1));
            }
        }
    }
}

/// Inserting a block never leaves more blocks than the limit allows.
pub proof fn inserting_respects_the_limit(
    blocks: Blocks,
    keep_latest_n_blocks: Option<usize>,
    number: u32,
    block: BlockHashMap,
)
    requires
        blocks.dom().finite(),
    ensures
        blocks_after(blocks, keep_latest_n_blocks, number, block).dom().finite(),
        blocks_after(blocks, keep_latest_n_blocks, number, block).len() <= cache_limit(
            keep_latest_n_blocks,
        ),
{
    let held = with_block(blocks, number, block);
    lemma_with_block_finite(blocks, number, block);
    leaving_out_the_oldest_keeps_the_latest(
        held,
        excess(held, cache_limit(keep_latest_n_blocks)),
    );
}

pub(crate) proof fn lemma_with_block_finite(blocks: Blocks, number: u32, block: BlockHashMap)
    requires
        blocks.dom().finite(),
    ensures
        with_block(blocks, number, block).dom().finite(),
        with_block(blocks, number, block).dom().subset_of(blocks.dom().insert(number)),
{
    assert(with_block(blocks, number, block).dom().subset_of(blocks.dom().insert(number)));
    vstd::set_lib::lemma_len_subset(
        with_block(blocks, number, block).dom(),
        blocks.dom().insert(number),
    );
}

/// Where no other block stands at the number and there is room, a block is just added: nothing
/// else changes and nothing is to be removed.
pub proof fn inserting_with_room_only_adds(
    blocks: Blocks,
    keep_latest_n_blocks: Option<usize>,
    number: u32,
    block: BlockHashMap,
)
    requires
        !is_fork(blocks, number, block),
        blocks.insert(number, block).len() <= cache_limit(keep_latest_n_blocks),
    ensures
        blocks_after(blocks, keep_latest_n_blocks, number, block) == blocks.insert(number, block),
        blocks_to_remove(blocks, keep_latest_n_blocks, number, block) == Seq::<
            BlockHashMap,
        >::empty(),
{
    assert(blocks_to_remove(blocks, keep_latest_n_blocks, number, block) =~= Seq::<
        BlockHashMap,
    >::empty());
}

/// A fork puts the new block in place of the old one, leaves every lower number alone, and leaves no
/// block at the number that follows.
pub proof fn a_fork_replaces_the_block_and_cuts_what_follows(
    blocks: Blocks,
    number: u32,
    block: BlockHashMap,
)
    requires
        is_fork(blocks, number, block),
    ensures
        with_block(blocks, number, block).contains_key(number),
        with_block(blocks, number, block)[number] == block,
        number < u32::MAX ==> !with_block(blocks, number, block).contains_key((number + 1) as u32),
        forall|k: u32|
            k < number ==> (with_block(blocks, number, block).contains_key(k)
                <==> blocks.contains_key(k)),
        forall|k: u32|
            k != number && #[trigger] with_block(blocks, number, block).contains_key(k)
                ==> blocks.contains_key(k) && with_block(blocks, number, block)[k] == blocks[k],
        displaced(blocks, number, block)[0] == blocks[number],
{
}

/// Every block that was cached is still there or was driven out by the fork, and only such blocks
/// are: nothing is lost and nothing else is removed.
pub proof fn a_fork_loses_no_block(blocks: Blocks, number: u32, block: BlockHashMap)
    ensures
        forall|k: u32| #[trigger]
            blocks.contains_key(k) ==> {
                ||| with_block(blocks, number, block).contains_key(k) && with_block(
                    blocks,
                    number,
                    block,
                )[k] == blocks[k]
                ||| displaced(blocks, number, block).contains(blocks[k])
            },
        forall|gone: BlockHashMap| #[trigger]
            displaced(blocks, number, block).contains(gone) ==> exists|k: u32|
                blocks.contains_key(k) && blocks[k] == gone && (k == number || !with_block(
                    blocks,
                    number,
                    block,
                ).contains_key(k)),
{
    let held = with_block(blocks, number, block);
    let gone = displaced(blocks, number, block);
    if is_fork(blocks, number, block) {
        let start = number + 1;
        let placed = blocks.insert(number, block);
        let n = run_length(placed, start);
        a_run_is_maximal(placed, start);
        assert(gone.len() == 1 + n);
        assert forall|k: u32| #[trigger] blocks.contains_key(k) implies {
            ||| held.contains_key(k) && held[k] == blocks[k]
            ||| gone.contains(blocks[k])
        } by {
            if k == number {
                assert(gone[0] == blocks[k]);
            } else if start <= k < start + n {
                assert(gone[1 + (k - start)] == placed[k]);
            }
        }
        assert forall|b: BlockHashMap| #[trigger] gone.contains(b) implies exists|k: u32|
            blocks.contains_key(k) && blocks[k] == b && (k == number || !held.contains_key(k)) by {
            let i = choose|i: int| 0 <= i < gone.len() && gone[i] == b;
            if i == 0 {
                assert(blocks.contains_key(number) && blocks[number] == b);
            } else {
                let k = (start + i - 1) as u32;
                a_run_ends_below_the_greatest_number(placed, start);
                assert(start <= k < start + n);
                assert(placed.contains_key(k));
                assert(gone[i] == placed[k]);
                assert(blocks.contains_key(k) && blocks[k] == b && !held.contains_key(k));
            }
        }
    }
}

/// A run does not go past the greatest number.
proof fn a_run_ends_below_the_greatest_number(blocks: Blocks, start: int)
    requires
        0 <= start <= u32::MAX + 1,
    ensures
        start + run_length(blocks, start) <= u32::MAX + 1,
    decreases u32::MAX + 1 - start,
{
    if start <= u32::MAX && blocks.contains_key(start as u32) {
        a_run_ends_below_the_greatest_number(blocks, start + 1);
    }
}

/// What a block that is put at its number leaves: itself, every lower number, and of the higher ones,
/// where another block stood at its number, only those behind a gap.
pub proof fn a_block_is_put_at_its_number(blocks: Blocks, number: u32, block: BlockHashMap)
    ensures
        ({
            let held = with_block(blocks, number, block);
            let is_taken_over = blocks.contains_key(number) && blocks[number] != block;
            &&& held.contains_key(number) && held[number] == block
            &&& forall|k: u32|
                k != number ==> (#[trigger] held.contains_key(k) <==> blocks.contains_key(k) && (
                !is_taken_over || k < number || exists|gap: u32|
                    number < gap < k && !(#[trigger] blocks.contains_key(gap))))
            &&& forall|k: u32|
                k != number && #[trigger] held.contains_key(k) ==> held[k] == blocks[k]
        }),
{
    let held = with_block(blocks, number, block);
    let is_taken_over = blocks.contains_key(number) && blocks[number] != block;
    if is_taken_over {
        let placed = blocks.insert(number, block);
        let start = number + 1;
        let length = run_length(placed, start);
        a_run_is_maximal(placed, start);
        assert forall|k: u32| k != number implies (#[trigger] held.contains_key(k)
            <==> blocks.contains_key(k) && (k < number || exists|gap: u32|
            number < gap < k && !(#[trigger] blocks.contains_key(gap)))) by {
            if number < k && blocks.contains_key(k) {
                if held.contains_key(k) {
                    let gap = (start + length) as u32;
                    assert(!placed.contains_key(gap));
                    assert(!blocks.contains_key(gap));
                    assert(k != gap);
                } else {
                    assert forall|gap: u32| number < gap < k implies #[trigger] blocks.contains_key(
                        gap,
                    ) by {
                        assert(placed.contains_key(gap));
                    }
                }
            }
        }
    }
}

/// Of the blocks that are held with a new one, as many stay as the limit allows, and those are the
/// latest: 256 where the database is persistent, else as many as are to be kept.
pub proof fn the_latest_blocks_stay(
    blocks: Blocks,
    keep_latest_n_blocks: Option<usize>,
    number: u32,
    block: BlockHashMap,
)
    requires
        blocks.dom().finite(),
    ensures
        ({
            let held = with_block(blocks, number, block);
            let after = blocks_after(blocks, keep_latest_n_blocks, number, block);
            let limit: nat = match keep_latest_n_blocks {
                Some(n) => n as nat,
                None => 256,
            };
            &&& after.submap_of(held)
            &&& held.dom().finite()
            &&& after.len() == (if held.len() <= limit {
                held.len()
            } else {
                limit
            })
            &&& forall|gone: u32, stays: u32|
                held.contains_key(gone) && !after.contains_key(gone) && after.contains_key(stays)
                    ==> gone < stays
        }),
{
    let held = with_block(blocks, number, block);
    lemma_with_block_finite(blocks, number, block);
    leaving_out_the_oldest_keeps_the_latest(
        held,
        excess(held, cache_limit(keep_latest_n_blocks)),
    );
}

/// The records of a block are removed exactly where another block took its number, or the number of
/// the run that it stands in, or where only the latest blocks are kept and it is none of them.
pub proof fn the_blocks_that_leave_are_removed(
    blocks: Blocks,
    keep_latest_n_blocks: Option<usize>,
    number: u32,
    block: BlockHashMap,
    gone: BlockHashMap,
)
    requires
        blocks.dom().finite(),
    ensures
        ({
            let held = with_block(blocks, number, block);
            let after = blocks_after(blocks, keep_latest_n_blocks, number, block);
            let removed = blocks_to_remove(blocks, keep_latest_n_blocks, number, block);
            removed.contains(gone) <==> {
                ||| exists|k: u32| #[trigger]
                    blocks.contains_key(k) && blocks[k] == gone && !(held.contains_key(k) && held[k]
                        == blocks[k])
                ||| keep_latest_n_blocks is Some && exists|k: u32| #[trigger]
                    held.contains_key(k) && held[k] == gone && !after.contains_key(k)
            }
        }),
{
    let held = with_block(blocks, number, block);
    let after = blocks_after(blocks, keep_latest_n_blocks, number, block);
    let removed = blocks_to_remove(blocks, keep_latest_n_blocks, number, block);
    let driven_out = displaced(blocks, number, block);
    lemma_with_block_finite(blocks, number, block);
    a_fork_loses_no_block(blocks, number, block);
    a_block_is_put_at_its_number(blocks, number, block);
    assert(driven_out.contains(gone) <==> exists|k: u32| #[trigger]
        blocks.contains_key(k) && blocks[k] == gone && !(held.contains_key(k) && held[k]
            == blocks[k])) by {
        if driven_out.contains(gone) {
            assert(is_fork(blocks, number, block));
            let k = choose|k: u32|
                blocks.contains_key(k) && blocks[k] == gone && (k == number || !held.contains_key(
                    k,
                ));
            assert(blocks.contains_key(k) && !(held.contains_key(k) && held[k] == blocks[k]));
        }
    }
    if let Some(n) = keep_latest_n_blocks {
        let count = excess(held, n as nat);
        let evicted = oldest_blocks(held, count);
        leaving_out_the_oldest_keeps_the_latest(held, count);
        assert(removed =~= driven_out + evicted);
        if removed.contains(gone) {
            let i = choose|i: int| 0 <= i < removed.len() && removed[i] == gone;
            if i < driven_out.len() {
                assert(driven_out[i] == gone);
            } else {
                assert(evicted[i - driven_out.len()] == gone);
                assert(evicted.contains(gone));
                let k = choose|k: u32|
                    held.contains_key(k) && !without_oldest(held, count).contains_key(k) && held[k]
                        == gone;
                assert(held.contains_key(k) && held[k] == gone && !after.contains_key(k));
            }
        }
        if driven_out.contains(gone) {
            let i = choose|i: int| 0 <= i < driven_out.len() && driven_out[i] == gone;
            assert(removed[i] == gone);
        }
        if exists|k: u32| #[trigger]
            held.contains_key(k) && held[k] == gone && !after.contains_key(k) {
            let k = choose|k: u32| #[trigger]
                held.contains_key(k) && held[k] == gone && !after.contains_key(k);
            assert(evicted.contains(gone)) by {
                assert(held.contains_key(k) && !without_oldest(held, count).contains_key(k)
                    && held[k] == gone);
            }
            let i = choose|i: int| 0 <= i < evicted.len() && evicted[i] == gone;
            assert(removed[driven_out.len() + i] == gone);
        }
    }
}

/// A pair of hashes has the hash of either side where it was given, and two pairs are the same exactly
/// where both hashes are.
pub proof fn a_block_is_named_by_both_hashes(
    substrate_hash: H256,
    ethereum_hash: H256,
    named: BlockHashMap,
    other: BlockHashMap,
    same: bool,
)
    requires
        call_ensures(BlockHashMap::new, (substrate_hash, ethereum_hash), named),
        call_ensures(<BlockHashMap as PartialEq>::eq, (&named, &other), same),
    ensures
        named.substrate_hash@ == substrate_hash@,
        named.ethereum_hash@ == ethereum_hash@,
        same <==> other.substrate_hash@ == substrate_hash@ && other.ethereum_hash@
            == ethereum_hash@,
{
    if other.substrate_hash@ == substrate_hash@ && other.ethereum_hash@ == ethereum_hash@ {
        crate::primitives::h256_bytes_determine(other.substrate_hash, substrate_hash);
        crate::primitives::h256_bytes_determine(other.ethereum_hash, ethereum_hash);
    }
}

} // verus!
