use vstd::prelude::*;
use vstd::arithmetic::div_mod::lemma_add_mod_noop_right;
use std::collections::HashMap;

use crate::chunk::{chunk_position, find_chunk, Chunk};
use crate::identity::{anonymous_spec, principal_text_of, Identity};
use crate::order::{
    lemma_bag_orders_distinct, lemma_sort_by_order, lemma_sorted_unique, orders_distinct, sort_by_order,
    sort_entries, sorted_by_order, OrderEntry,
};
use vstd::multiset::Multiset;
use crate::state::{missing_chunk_ids, State, StorageError};
use crate::utils::{url_generator, url_spec};

verus! {

/// The modulus of the checksum that a commit reconciles.
pub const CHECKSUM_MODULUS: u64 = 400_000_000;

/// A committed file: its pieces in order, with its metadata.
pub struct Asset {
    pub asset_id: u128,
    pub file_name: String,
    pub file_type: String,
    pub chunks: Vec<Vec<u8>>,
    pub url: String,
    pub owned_by: Identity,
    pub uploaded_at: u64,
}

/// What a caller sends to turn uploaded chunks into an asset.
pub struct CommitBatchArgs {
    pub chunk_ids: Vec<u128>,
    pub checksum: u32,
    pub file_name: String,
    pub file_type: String,
}

/// The pieces of an asset as byte sequences.
pub open spec fn asset_blocks(a: Asset) -> Seq<Seq<u8>> {
    a.chunks@.map_values(|c: Vec<u8>| c@)
}

pub open spec fn has_duplicates(ids: Seq<u128>) -> bool {
    exists|i: int, j: int| 0 <= i < j < ids.len() && ids[i] == ids[j]
}

/// The ids among `ids` that name a chunk of someone other than `caller`.
pub open spec fn not_owned_ids(s: Seq<Chunk>, caller: Seq<u8>, ids: Seq<u128>) -> Seq<u128>
    decreases ids.len(),
{
    if ids.len() == 0 {
        seq![]
    } else {
        let rest = not_owned_ids(s, caller, ids.drop_last());
        match find_chunk(s, ids.last()) {
            Some(c) => if c.owned_by@ != caller {
                rest.push(ids.last())
            } else {
                rest
            },
            None => rest,
        }
    }
}

/// The chunks of `caller` among `ids`, as id and declared order, in request order.
pub open spec fn owned_entries(s: Seq<Chunk>, caller: Seq<u8>, ids: Seq<u128>) -> Seq<OrderEntry>
    decreases ids.len(),
{
    if ids.len() == 0 {
        seq![]
    } else {
        let rest = owned_entries(s, caller, ids.drop_last());
        match find_chunk(s, ids.last()) {
            Some(c) => if c.owned_by@ == caller {
                rest.push((ids.last(), c.order))
            } else {
                rest
            },
            None => rest,
        }
    }
}

/// The plain sum of the stored checksums of the caller's chunks among `ids`.
pub open spec fn checksum_sum(s: Seq<Chunk>, caller: Seq<u8>, ids: Seq<u128>) -> nat
    decreases ids.len(),
{
    if ids.len() == 0 {
        0
    } else {
        let rest = checksum_sum(s, caller, ids.drop_last());
        match find_chunk(s, ids.last()) {
            Some(c) => if c.owned_by@ == caller {
                rest + c.checksum as nat
            } else {
                rest
            },
            None => rest,
        }
    }
}

/// The checksum that a commit of `ids` by `caller` must declare.
pub open spec fn expected_checksum(s: Seq<Chunk>, caller: Seq<u8>, ids: Seq<u128>) -> nat {
    checksum_sum(s, caller, ids) % (CHECKSUM_MODULUS as nat)
}

/// The content of the chunk with the given id (empty if there is none).
pub open spec fn chunk_content(s: Seq<Chunk>, id: u128) -> Seq<u8> {
    match find_chunk(s, id) {
        Some(c) => c.content@,
        None => seq![],
    }
}

/// The pieces of the asset that a commit builds, ordered by declared order.
pub open spec fn committed_blocks(s: Seq<Chunk>, caller: Seq<u8>, ids: Seq<u128>) -> Seq<Seq<u8>> {
    sort_by_order(owned_entries(s, caller, ids)).map_values(|e: OrderEntry| chunk_content(s, e.0))
}

/// The chunks of `s` whose ids are not among `ids`, in their order.
pub open spec fn without_ids(s: Seq<Chunk>, ids: Seq<u128>) -> Seq<Chunk>
    decreases s.len(),
{
    if s.len() == 0 {
        seq![]
    } else {
        let rest = without_ids(s.drop_last(), ids);
        if ids.contains(s.last().chunk_id) {
            rest
        } else {
            rest.push(s.last())
        }
    }
}

/// Whether a commit of `ids` by `caller` with the declared checksum succeeds.
pub open spec fn commit_succeeds(s: Seq<Chunk>, caller: Seq<u8>, ids: Seq<u128>, declared: u32) -> bool {
    &&& ids.len() > 0
    &&& !has_duplicates(ids)
    &&& owned_entries(s, caller, ids).len() > 0
    &&& missing_chunk_ids(s, ids).len() == 0
    &&& not_owned_ids(s, caller, ids).len() == 0
    &&& declared as nat == expected_checksum(s, caller, ids)
}

/// The pieces of a committed asset come from the caller's requested chunks,
/// sorted by declared order: the sorted entries are ordered, are a
/// rearrangement of the requested ones, and give the pieces one for one.
pub proof fn lemma_commit_order(s: Seq<Chunk>, caller: Seq<u8>, ids: Seq<u128>)
    ensures
        sorted_by_order(sort_by_order(owned_entries(s, caller, ids))),
        sort_by_order(owned_entries(s, caller, ids)).to_multiset() == owned_entries(
            s,
            caller,
            ids,
        ).to_multiset(),
        committed_blocks(s, caller, ids).len() == owned_entries(s, caller, ids).len(),
        forall|k: int|
            0 <= k < committed_blocks(s, caller, ids).len() ==> #[trigger] committed_blocks(
                s,
                caller,
                ids,
            )[k] == chunk_content(s, sort_by_order(owned_entries(s, caller, ids))[k].0),
{
    lemma_sort_by_order(owned_entries(s, caller, ids));
}

/// The entry that the id adds to a commit's entries, as a bag of at most one.
pub open spec fn entry_bag(s: Seq<Chunk>, caller: Seq<u8>, id: u128) -> Multiset<OrderEntry> {
    match find_chunk(s, id) {
        Some(c) => if c.owned_by@ == caller {
            Multiset::singleton((id, c.order))
        } else {
            Multiset::empty()
        },
        None => Multiset::empty(),
    }
}

proof fn lemma_owned_entries_last(s: Seq<Chunk>, caller: Seq<u8>, ids: Seq<u128>)
    requires
        ids.len() > 0,
    ensures
        owned_entries(s, caller, ids).to_multiset() == owned_entries(
            s,
            caller,
            ids.drop_last(),
        ).to_multiset().add(entry_bag(s, caller, ids.last())),
{
    broadcast use vstd::seq_lib::group_to_multiset_ensures;
    broadcast use vstd::multiset::group_multiset_axioms;

    let rest = owned_entries(s, caller, ids.drop_last());
    match find_chunk(s, ids.last()) {
        Some(c) => if c.owned_by@ == caller {
            assert(rest.push((ids.last(), c.order)).to_multiset() =~= rest.to_multiset().insert(
                (ids.last(), c.order),
            ));
            assert(rest.to_multiset().insert((ids.last(), c.order)) =~= rest.to_multiset().add(
                Multiset::singleton((ids.last(), c.order)),
            ));
        } else {
            assert(rest.to_multiset() =~= rest.to_multiset().add(Multiset::empty()));
        },
        None => {
            assert(rest.to_multiset() =~= rest.to_multiset().add(Multiset::empty()));
        },
    }
}

proof fn lemma_owned_entries_remove(s: Seq<Chunk>, caller: Seq<u8>, ids: Seq<u128>, k: int)
    requires
        0 <= k < ids.len(),
    ensures
        owned_entries(s, caller, ids).to_multiset() == owned_entries(
            s,
            caller,
            ids.remove(k),
        ).to_multiset().add(entry_bag(s, caller, ids[k])),
    decreases ids.len(),
{
    broadcast use vstd::multiset::group_multiset_axioms;

    lemma_owned_entries_last(s, caller, ids);
    if k == ids.len() - 1 {
        assert(ids.remove(k) =~= ids.drop_last());
    } else {
        let t = ids.drop_last();
        lemma_owned_entries_remove(s, caller, t, k);
        let r = ids.remove(k);
        assert(r.drop_last() =~= t.remove(k));
        assert(r.last() == ids.last());
        lemma_owned_entries_last(s, caller, r);
        assert(owned_entries(s, caller, ids).to_multiset() =~= owned_entries(
            s,
            caller,
            r,
        ).to_multiset().add(entry_bag(s, caller, ids[k])));
    }
}

/// A commit's entries depend on which ids are requested, not on their order.
proof fn lemma_owned_entries_reordered(
    s: Seq<Chunk>,
    caller: Seq<u8>,
    ids1: Seq<u128>,
    ids2: Seq<u128>,
)
    requires
        ids1.to_multiset() == ids2.to_multiset(),
    ensures
        owned_entries(s, caller, ids1).to_multiset() == owned_entries(s, caller, ids2).to_multiset(),
    decreases ids1.len(),
{
    broadcast use vstd::seq_lib::group_to_multiset_ensures;
    broadcast use vstd::multiset::group_multiset_axioms;

    assert(ids1.len() == ids1.to_multiset().len());
    assert(ids2.len() == ids2.to_multiset().len());
    if ids1.len() == 0 {
        assert(ids2 =~= ids1);
    } else {
        let x = ids1.last();
        assert(ids1.contains(x));
        assert(ids1.to_multiset().count(x) > 0);
        assert(ids2.contains(x));
        let k = choose|k: int| 0 <= k < ids2.len() && ids2[k] == x;
        let t1 = ids1.drop_last();
        let t2 = ids2.remove(k);
        assert(ids1.remove(ids1.len() - 1) =~= t1);
        assert(t1.to_multiset() =~= ids1.to_multiset().remove(x));
        assert(t2.to_multiset() =~= ids2.to_multiset().remove(x));
        lemma_owned_entries_reordered(s, caller, t1, t2);
        lemma_owned_entries_last(s, caller, ids1);
        lemma_owned_entries_remove(s, caller, ids2, k);
    }
}

/// The pieces of a committed asset do not depend on the order in which the
/// chunk ids were listed, as long as no two of the caller's requested chunks
/// declare the same order.
pub proof fn lemma_commit_listing_order(
    s: Seq<Chunk>,
    caller: Seq<u8>,
    ids1: Seq<u128>,
    ids2: Seq<u128>,
)
    requires
        ids1.to_multiset() == ids2.to_multiset(),
        orders_distinct(owned_entries(s, caller, ids1)),
    ensures
        committed_blocks(s, caller, ids1) == committed_blocks(s, caller, ids2),
{
    let e1 = owned_entries(s, caller, ids1);
    let e2 = owned_entries(s, caller, ids2);
    lemma_owned_entries_reordered(s, caller, ids1, ids2);
    lemma_sort_by_order(e1);
    lemma_sort_by_order(e2);
    lemma_bag_orders_distinct(e1);
    lemma_sorted_unique(sort_by_order(e1), sort_by_order(e2));
}

/// Whether `ids` holds `id`.
pub fn contains_id(ids: &Vec<u128>, id: u128) -> (r: bool)
    ensures
        r == ids@.contains(id),
{
    let mut i: usize = 0;
    while i < ids.len()
        invariant
            i <= ids@.len(),
            forall|k: int| 0 <= k < i ==> ids@[k] != id,
        decreases ids@.len() - i,
    {
        if ids[i] == id {
            return true;
        }
        i = i + 1;
    }
    false
}

/// Whether some id occurs twice in `ids`.
pub fn find_duplicates(ids: &Vec<u128>) -> (r: bool)
    ensures
        r == has_duplicates(ids@),
{
    let mut j: usize = 0;
    while j < ids.len()
        invariant
            j <= ids@.len(),
            forall|a: int, b: int| 0 <= a < b < j ==> ids@[a] != ids@[b],
        decreases ids@.len() - j,
    {
        let mut i: usize = 0;
        while i < j
            invariant
                i <= j < ids@.len(),
                forall|a: int| 0 <= a < i ==> ids@[a] != ids@[j as int],
            decreases j - i,
        {
            if ids[i] == ids[j] {
                return true;
            }
            i = i + 1;
        }
        j = j + 1;
    }
    false
}

/// Drops from the chunk table every chunk whose id is among `ids`.
fn remove_chunks(state: &mut State, ids: &Vec<u128>)
    requires
        old(state).wf(),
    ensures
        final(state).wf(),
        final(state).chunk_list@ == without_ids(old(state).chunk_list@, ids@),
        final(state).chunk_count == old(state).chunk_count,
        final(state).asset_count == old(state).asset_count,
        final(state).asset_list == old(state).asset_list,
        final(state).in_prod == old(state).in_prod,
        final(state).canister_id == old(state).canister_id,
        final(state).used_storage == old(state).used_storage,
        final(state).capacity_limit == old(state).capacity_limit,
{
    let ghost s = state.chunk_list@;
    let n: usize = state.chunk_list.len();
    let mut i: usize = 0;
    let mut j: usize = 0;
    while j < n
        invariant
            n == s.len(),
            j <= s.len(),
            i <= j,
            state.wf(),
            i == without_ids(s.take(j as int), ids@).len(),
            state.chunk_list@.len() == i + (n - j),
            state.chunk_list@ == without_ids(s.take(j as int), ids@) + s.skip(j as int),
            state.chunk_count == old(state).chunk_count,
            state.asset_count == old(state).asset_count,
            state.asset_list == old(state).asset_list,
            state.in_prod == old(state).in_prod,
            state.canister_id == old(state).canister_id,
            state.used_storage == old(state).used_storage,
            state.capacity_limit == old(state).capacity_limit,
            s == old(state).chunk_list@,
        decreases n - j,
    {
        assert(s.take(j + 1).drop_last() =~= s.take(j as int));
        assert(state.chunk_list@[i as int] == s[j as int]);
        let id = state.chunk_list[i].chunk_id;
        if contains_id(ids, id) {
            state.chunk_list.remove(i);
            assert(state.chunk_list@ =~= without_ids(s.take(j + 1), ids@) + s.skip(j + 1));
        } else {
            assert(state.chunk_list@ =~= without_ids(s.take(j + 1), ids@) + s.skip(j + 1));
            i = i + 1;
        }
        j = j + 1;
    }
    assert(s.take(s.len() as int) =~= s);
    assert(state.chunk_list@ =~= without_ids(s, ids@));
}

/// Sorts the requested ids into missing, not owned and owned chunks, and sums
/// the owned chunks' checksums modulo `CHECKSUM_MODULUS`. Reads the table only.
fn classify(list: &Vec<Chunk>, caller: &Identity, ids: &Vec<u128>) -> (r: (
    Vec<u128>,
    Vec<u128>,
    Vec<OrderEntry>,
    u64,
))
    ensures
        r.0@ == missing_chunk_ids(list@, ids@),
        r.1@ == not_owned_ids(list@, caller@, ids@),
        r.2@ == owned_entries(list@, caller@, ids@),
        r.2@.len() <= ids@.len(),
        r.3 as nat == expected_checksum(list@, caller@, ids@),
{
    let ghost s = list@;
    let mut missing: Vec<u128> = Vec::new();
    let mut foreign: Vec<u128> = Vec::new();
    let mut entries: Vec<OrderEntry> = Vec::new();
    let mut sum: u64 = 0;
    let mut i: usize = 0;
    while i < ids.len()
        invariant
            i <= ids@.len(),
            s == list@,
            missing@ == missing_chunk_ids(s, ids@.take(i as int)),
            foreign@ == not_owned_ids(s, caller@, ids@.take(i as int)),
            entries@ == owned_entries(s, caller@, ids@.take(i as int)),
            entries@.len() <= i,
            sum as nat == checksum_sum(s, caller@, ids@.take(i as int)) % (CHECKSUM_MODULUS as nat),
        decreases ids@.len() - i,
    {
        let id = ids[i];
        let ghost prev = ids@.take(i as int);
        assert(ids@.take(i + 1).drop_last() =~= prev);
        assert(ids@.take(i + 1).last() == id);
        match chunk_position(list, id) {
            None => {
                missing.push(id);
            },
            Some(p) => {
                let chunk = &list[p];
                if chunk.owned_by.same_as(caller) {
                    entries.push((id, chunk.order));
                    proof {
                        lemma_add_mod_noop_right(
                            chunk.checksum as int,
                            checksum_sum(s, caller@, prev) as int,
                            CHECKSUM_MODULUS as int,
                        );
                    }
                    sum = (sum + chunk.checksum as u64) % CHECKSUM_MODULUS;
                } else {
                    foreign.push(id);
                }
            },
        }
        i = i + 1;
    }
    assert(ids@.take(ids@.len() as int) =~= ids@);
    (missing, foreign, entries, sum)
}

/// Copies the content of each entry's chunk, in the entries' order.
fn gather_blocks(list: &Vec<Chunk>, entries: &Vec<OrderEntry>) -> (r: Vec<Vec<u8>>)
    ensures
        r@.len() == entries@.len(),
        r@.map_values(|c: Vec<u8>| c@) == entries@.map_values(|e: OrderEntry| chunk_content(list@, e.0)),
{
    let mut blocks: Vec<Vec<u8>> = Vec::new();
    let mut k: usize = 0;
    while k < entries.len()
        invariant
            k <= entries@.len(),
            blocks@.len() == k,
            forall|j: int| 0 <= j < k ==> blocks@[j]@ == chunk_content(list@, entries@[j].0),
        decreases entries@.len() - k,
    {
        let id = entries[k].0;
        let block = match chunk_position(list, id) {
            Some(p) => {
                let b = list[p].content.clone();
                assert(b@ =~= list@[p as int].content@);
                b
            },
            None => Vec::new(),
        };
        assert(block@ == chunk_content(list@, id));
        blocks.push(block);
        k = k + 1;
    }
    assert(blocks@.map_values(|c: Vec<u8>| c@) =~= entries@.map_values(
        |e: OrderEntry| chunk_content(list@, e.0),
    ));
    blocks
}

/// Turns the caller's uploaded chunks into a new asset.
///
/// The checks run in this order and none of them changes the shard: an empty
/// id list, a repeated id, no chunk of the caller among the ids, ids that name
/// no chunk, ids that name someone else's chunk, and a declared checksum other
/// than the sum of the chunks' checksums modulo `CHECKSUM_MODULUS`. Only when
/// all pass are the chunks taken out of the table; the asset holds their
/// contents ordered by their declared order and receives the next asset id.
pub fn commit_batch(state: &mut State, args: CommitBatchArgs, caller: Identity, now: u64) -> (r:
    Result<u128, StorageError>)
    requires
        old(state).wf(),
        old(state).asset_count < u128::MAX,
        args.chunk_ids@.len() <= u32::MAX,
    ensures
        final(state).wf(),
        ({
            let s = old(state).chunk_list@;
            let ids = args.chunk_ids@;
            let c = caller@;
            &&& ids.len() == 0 ==> r == Err::<u128, StorageError>(StorageError::NoIdsProvided)
            &&& ids.len() > 0 && has_duplicates(ids) ==> r == Err::<u128, StorageError>(
                StorageError::DuplicateIds,
            )
            &&& ids.len() > 0 && !has_duplicates(ids) && owned_entries(s, c, ids).len() == 0 ==> r
                == Err::<u128, StorageError>(StorageError::NoChunksFound)
            &&& ids.len() > 0 && !has_duplicates(ids) && owned_entries(s, c, ids).len() > 0
                && missing_chunk_ids(s, ids).len() > 0 ==> (r matches Err(
                StorageError::ChunksNotFound(v),
            ) && v@ == missing_chunk_ids(s, ids))
            &&& ids.len() > 0 && !has_duplicates(ids) && owned_entries(s, c, ids).len() > 0
                && missing_chunk_ids(s, ids).len() == 0 && not_owned_ids(s, c, ids).len() > 0 ==> (
            r matches Err(StorageError::ChunksNotOwned(v)) && v@ == not_owned_ids(s, c, ids))
            &&& ids.len() > 0 && !has_duplicates(ids) && owned_entries(s, c, ids).len() > 0
                && missing_chunk_ids(s, ids).len() == 0 && not_owned_ids(s, c, ids).len() == 0
                && args.checksum as nat != expected_checksum(s, c, ids) ==> r == Err::<
                u128,
                StorageError,
            >(
                StorageError::ChecksumMismatch {
                    declared: args.checksum,
                    computed: expected_checksum(s, c, ids) as u32,
                },
            )
            &&& r is Err ==> *final(state) == *old(state)
            &&& commit_succeeds(s, c, ids, args.checksum) ==> {
                &&& r == Ok::<u128, StorageError>(old(state).asset_count)
                &&& final(state).asset_count == old(state).asset_count + 1
                &&& final(state).chunk_count == old(state).chunk_count
                &&& final(state).chunk_list@ == without_ids(s, ids)
                &&& final(state).asset_list@.len() == old(state).asset_list@.len() + 1
                &&& final(state).asset_list@.drop_last() == old(state).asset_list@
                &&& final(state).asset_list@.last().asset_id == old(state).asset_count
                &&& final(state).asset_list@.last().file_name == args.file_name
                &&& final(state).asset_list@.last().file_type == args.file_type
                &&& asset_blocks(final(state).asset_list@.last()) == committed_blocks(s, c, ids)
                &&& final(state).asset_list@.last().url@ == url_spec(
                    old(state).in_prod,
                    principal_text_of(old(state).canister_id@),
                    old(state).asset_count,
                )
                &&& final(state).asset_list@.last().owned_by == caller
                &&& final(state).asset_list@.last().uploaded_at == now
                &&& final(state).in_prod == old(state).in_prod
                &&& final(state).canister_id == old(state).canister_id
                &&& final(state).used_storage == old(state).used_storage
                &&& final(state).capacity_limit == old(state).capacity_limit
            }
        }),
{
    if args.chunk_ids.len() == 0 {
        return Err(StorageError::NoIdsProvided);
    }
    if find_duplicates(&args.chunk_ids) {
        return Err(StorageError::DuplicateIds);
    }
    let (missing, foreign, entries, sum) = classify(&state.chunk_list, &caller, &args.chunk_ids);
    if entries.len() == 0 {
        return Err(StorageError::NoChunksFound);
    }
    if missing.len() > 0 {
        return Err(StorageError::ChunksNotFound(missing));
    }
    if foreign.len() > 0 {
        return Err(StorageError::ChunksNotOwned(foreign));
    }
    let computed = sum as u32;
    if args.checksum != computed {
        return Err(StorageError::ChecksumMismatch { declared: args.checksum, computed });
    }
    let sorted = sort_entries(&entries);
    proof {
        lemma_sort_by_order(entries@);
    }
    let blocks = gather_blocks(&state.chunk_list, &sorted);
    let ghost s = state.chunk_list@;
    remove_chunks(state, &args.chunk_ids);
    let id = state.get_asset_id();
    let url = url_generator(state.in_prod, &state.canister_id, id);
    let asset = Asset {
        asset_id: id,
        file_name: args.file_name,
        file_type: args.file_type,
        chunks: blocks,
        url,
        owned_by: caller,
        uploaded_at: now,
    };
    state.asset_list.push(asset);
    Ok(id)
}

/// An asset's metadata, without its contents.
pub struct AssetQuery {
    pub asset_id: u128,
    pub file_name: String,
    pub file_type: String,
    pub url: String,
    pub owned_by: Identity,
    pub uploaded_at: u64,
}

/// `q` carries the metadata of `a`.
pub open spec fn describes(q: AssetQuery, a: Asset) -> bool {
    &&& q.asset_id == a.asset_id
    &&& q.file_name@ == a.file_name@
    &&& q.file_type@ == a.file_type@
    &&& q.url@ == a.url@
    &&& q.owned_by@ == a.owned_by@
    &&& q.uploaded_at == a.uploaded_at
}

impl AssetQuery {
    /// The metadata of `value`.
    pub fn from(value: &Asset) -> (r: AssetQuery)
        ensures
            describes(r, *value),
    {
        AssetQuery {
            asset_id: value.asset_id,
            file_name: value.file_name.clone(),
            file_type: value.file_type.clone(),
            url: value.url.clone(),
            owned_by: value.owned_by.duplicate(),
            uploaded_at: value.uploaded_at,
        }
    }
}

/// The asset with the given id, looking from the newest.
pub open spec fn find_asset(s: Seq<Asset>, id: u128) -> Option<Asset>
    decreases s.len(),
{
    if s.len() == 0 {
        None
    } else if s.last().asset_id == id {
        Some(s.last())
    } else {
        find_asset(s.drop_last(), id)
    }
}

/// `s` without the newest asset with the given id.
pub open spec fn without_asset(s: Seq<Asset>, id: u128) -> Seq<Asset>
    decreases s.len(),
{
    if s.len() == 0 {
        s
    } else if s.last().asset_id == id {
        s.drop_last()
    } else {
        without_asset(s.drop_last(), id).push(s.last())
    }
}

/// Where the asset with the given id stands in the table.
pub fn asset_position(list: &Vec<Asset>, id: u128) -> (r: Option<usize>)
    ensures
        match r {
            Some(i) => {
                &&& i < list@.len()
                &&& list@[i as int].asset_id == id
                &&& find_asset(list@, id) == Some(list@[i as int])
                &&& without_asset(list@, id) == list@.remove(i as int)
            },
            None => find_asset(list@, id) is None && without_asset(list@, id) == list@,
        },
{
    let mut i: usize = list.len();
    assert(list@.take(i as int) =~= list@);
    while i > 0
        invariant
            i <= list@.len(),
            find_asset(list@, id) == find_asset(list@.take(i as int), id),
            without_asset(list@, id) == without_asset(list@.take(i as int), id) + list@.skip(
                i as int,
            ),
        decreases i,
    {
        assert(list@.take(i as int).drop_last() =~= list@.take(i - 1));
        if list[i - 1].asset_id == id {
            assert(list@.take(i - 1) + list@.skip(i as int) =~= list@.remove(i - 1));
            return Some(i - 1);
        }
        assert(without_asset(list@.take(i - 1), id).push(list@[i - 1]) + list@.skip(i as int)
            =~= without_asset(list@.take(i - 1), id) + list@.skip(i - 1));
        i = i - 1;
    }
    assert(list@.take(0) =~= seq![]);
    assert(list@.skip(0) =~= list@);
    None
}

/// Removes an asset at its owner's request.
pub fn delete_asset(state: &mut State, asset_id: u128, caller: &Identity) -> (r: Result<
    bool,
    StorageError,
>)
    requires
        old(state).wf(),
    ensures
        final(state).wf(),
        caller@ == anonymous_spec() ==> r == Err::<bool, StorageError>(
            StorageError::AnonymousCaller,
        ),
        caller@ != anonymous_spec() && find_asset(old(state).asset_list@, asset_id) is None ==> r
            == Err::<bool, StorageError>(StorageError::InvalidAssetId),
        caller@ != anonymous_spec() ==> ((find_asset(old(state).asset_list@, asset_id) matches Some(
            a) && a.owned_by@ != caller@) ==> r == Err::<bool, StorageError>(
            StorageError::UnauthorizedOwner,
        )),
        r is Err ==> *final(state) == *old(state),
        caller@ != anonymous_spec() ==> ((find_asset(old(state).asset_list@, asset_id) matches Some(
            a) && a.owned_by@ == caller@) ==> {
            &&& r == Ok::<bool, StorageError>(true)
            &&& final(state).asset_list@ == without_asset(old(state).asset_list@, asset_id)
            &&& final(state).chunk_list == old(state).chunk_list
            &&& final(state).chunk_count == old(state).chunk_count
            &&& final(state).asset_count == old(state).asset_count
            &&& final(state).in_prod == old(state).in_prod
            &&& final(state).canister_id == old(state).canister_id
            &&& final(state).used_storage == old(state).used_storage
            &&& final(state).capacity_limit == old(state).capacity_limit
        }),
{
    if caller.is_anonymous() {
        return Err(StorageError::AnonymousCaller);
    }
    match asset_position(&state.asset_list, asset_id) {
        None => Err(StorageError::InvalidAssetId),
        Some(p) => {
            if !state.asset_list[p].owned_by.same_as(caller) {
                return Err(StorageError::UnauthorizedOwner);
            }
            state.asset_list.remove(p);
            Ok(true)
        },
    }
}

/// The metadata of the asset with the given id, if there is one.
pub fn query_asset(state: &State, id: u128) -> (r: Option<AssetQuery>)
    ensures
        match find_asset(state.asset_list@, id) {
            Some(a) => r matches Some(q) && describes(q, a),
            None => r is None,
        },
{
    match asset_position(&state.asset_list, id) {
        None => None,
        Some(p) => Some(AssetQuery::from(&state.asset_list[p])),
    }
}

/// The metadata of every asset that `owner` holds (all of them without an
/// owner), keyed by asset id.
fn collect_assets(state: &State, owner: Option<&Identity>) -> (r: HashMap<u128, AssetQuery>)
    requires
        state.wf(),
    ensures
        forall|id: u128|
            r@.contains_key(id) <==> exists|k: int|
                0 <= k < state.asset_list@.len() && state.asset_list@[k].asset_id == id && (
                owner matches Some(o) ==> state.asset_list@[k].owned_by@ == o@),
        forall|k: int|
            0 <= k < state.asset_list@.len() && (owner matches Some(o)
                ==> state.asset_list@[k].owned_by@ == o@) ==> #[trigger] r@.contains_key(
                state.asset_list@[k].asset_id,
            ) && describes(r@[state.asset_list@[k].asset_id], state.asset_list@[k]),
{
    broadcast use vstd::std_specs::hash::group_hash_axioms;

    let ghost s = state.asset_list@;
    let mut assets: HashMap<u128, AssetQuery> = HashMap::new();
    let mut i: usize = 0;
    while i < state.asset_list.len()
        invariant
            i <= s.len(),
            s == state.asset_list@,
            state.wf(),
            forall|id: u128|
                assets@.contains_key(id) <==> exists|k: int|
                    0 <= k < i && s[k].asset_id == id && (owner matches Some(o) ==> s[k].owned_by@
                        == o@),
            forall|k: int|
                #![trigger s[k]]
                0 <= k < i && (owner matches Some(o) ==> s[k].owned_by@ == o@)
                    ==> assets@.contains_key(s[k].asset_id) && describes(
                    assets@[s[k].asset_id],
                    s[k],
                ),
        decreases s.len() - i,
    {
        let asset = &state.asset_list[i];
        let keep = match owner {
            Some(o) => asset.owned_by.same_as(o),
            None => true,
        };
        assert(keep == (owner matches Some(o) ==> s[i as int].owned_by@ == o@));
        if keep {
            assets.insert(asset.asset_id, AssetQuery::from(asset));
        }
        assert forall|k: int|
            #![trigger s[k]]
            0 <= k < i + 1 && (owner matches Some(o) ==> s[k].owned_by@ == o@)
                implies assets@.contains_key(s[k].asset_id) && describes(
                assets@[s[k].asset_id],
                s[k],
            ) by {
            if k < i {
                assert(s[k].asset_id < s[i as int].asset_id);
            }
        }
        i = i + 1;
    }
    assets
}

/// The metadata of every asset that `principal` owns, keyed by asset id.
pub fn assets_of(state: &State, principal: &Identity) -> (r: HashMap<u128, AssetQuery>)
    requires
        state.wf(),
    ensures
        forall|id: u128|
            r@.contains_key(id) <==> exists|k: int|
                0 <= k < state.asset_list@.len() && state.asset_list@[k].asset_id == id
                    && state.asset_list@[k].owned_by@ == principal@,
        forall|k: int|
            0 <= k < state.asset_list@.len() && state.asset_list@[k].owned_by@ == principal@
                ==> #[trigger] r@.contains_key(state.asset_list@[k].asset_id) && describes(
                r@[state.asset_list@[k].asset_id],
                state.asset_list@[k],
            ),
{
    collect_assets(state, Some(principal))
}

/// The metadata of every asset, keyed by asset id.
pub fn asset_list(state: &State) -> (r: HashMap<u128, AssetQuery>)
    requires
        state.wf(),
    ensures
        forall|id: u128|
            r@.contains_key(id) <==> exists|k: int|
                0 <= k < state.asset_list@.len() && state.asset_list@[k].asset_id == id,
        forall|k: int|
            0 <= k < state.asset_list@.len() ==> #[trigger] r@.contains_key(
                state.asset_list@[k].asset_id,
            ) && describes(r@[state.asset_list@[k].asset_id], state.asset_list@[k]),
{
    collect_assets(state, None)
}

} // verus!
