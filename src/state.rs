use vstd::prelude::*;

use crate::asset::Asset;
use crate::chunk::{chunk_ids_increasing, chunk_position, find_chunk, Chunk};
use crate::identity::{Identity, MAX_PRINCIPAL_LEN};

verus! {

/// Failures that a shard operation reports; none of them changes the shard.
#[derive(Debug, PartialEq, Eq)]
pub enum StorageError {
    /// A commit named no chunk id.
    NoIdsProvided,
    /// A commit named the same chunk id twice.
    DuplicateIds,
    /// The anonymous principal tried to change the shard.
    AnonymousCaller,
    /// None of the named chunks exists and belongs to the caller.
    NoChunksFound,
    /// These named chunks do not exist.
    ChunksNotFound(Vec<u128>),
    /// These named chunks exist but belong to someone else.
    ChunksNotOwned(Vec<u128>),
    /// The declared checksum differs from the one computed over the chunks.
    ChecksumMismatch { declared: u32, computed: u32 },
    /// No asset has the given id.
    InvalidAssetId,
    /// The caller does not own the asset.
    UnauthorizedOwner,
}

/// One storage shard: its chunk and asset tables, id counters and cached usage.
pub struct State {
    pub in_prod: bool,
    /// The shard's own canister address, used to build asset urls.
    pub canister_id: Identity,
    pub chunk_count: u128,
    pub asset_count: u128,
    /// Last known memory use, in bytes.
    pub used_storage: u128,
    /// Memory use at which the shard counts as full, in bytes.
    pub capacity_limit: u128,
    /// Pending chunks, in increasing id order.
    pub chunk_list: Vec<Chunk>,
    /// Committed assets, in increasing id order.
    pub asset_list: Vec<Asset>,
}

pub open spec fn asset_ids_increasing(s: Seq<Asset>) -> bool {
    forall|i: int, j: int| 0 <= i < j < s.len() ==> s[i].asset_id < s[j].asset_id
}

impl State {
    /// Ids in each table increase with position and stay below the counter
    /// that hands them out; every asset holds at least one chunk.
    pub open spec fn wf(&self) -> bool {
        &&& self.canister_id@.len() <= MAX_PRINCIPAL_LEN
        &&& chunk_ids_increasing(self.chunk_list@)
        &&& forall|i: int| 0 <= i < self.chunk_list@.len() ==> self.chunk_list@[i].chunk_id < self.chunk_count
        &&& asset_ids_increasing(self.asset_list@)
        &&& forall|i: int| 0 <= i < self.asset_list@.len() ==> {
            &&& self.asset_list@[i].asset_id < self.asset_count
            &&& 1 <= self.asset_list@[i].chunks@.len() <= u32::MAX
            }
    }

    /// An empty shard: no chunks, no assets, both counters at zero.
    pub fn new(canister_id: Identity, in_prod: bool, capacity_limit: u128) -> (r: State)
        requires
            canister_id@.len() <= MAX_PRINCIPAL_LEN,
        ensures
            r.wf(),
            r.canister_id == canister_id,
            r.in_prod == in_prod,
            r.capacity_limit == capacity_limit,
            r.chunk_count == 0,
            r.asset_count == 0,
            r.used_storage == 0,
            r.chunk_list@.len() == 0,
            r.asset_list@.len() == 0,
    {
        State {
            in_prod,
            canister_id,
            chunk_count: 0,
            asset_count: 0,
            used_storage: 0,
            capacity_limit,
            chunk_list: Vec::new(),
            asset_list: Vec::new(),
        }
    }

    /// Hands out the next chunk id.
    pub fn get_chunk_id(&mut self) -> (id: u128)
        requires
            old(self).chunk_count < u128::MAX,
        ensures
            id == old(self).chunk_count,
            final(self).chunk_count == old(self).chunk_count + 1,
            final(self).asset_count == old(self).asset_count,
            final(self).in_prod == old(self).in_prod,
            final(self).canister_id == old(self).canister_id,
            final(self).used_storage == old(self).used_storage,
            final(self).capacity_limit == old(self).capacity_limit,
            final(self).chunk_list == old(self).chunk_list,
            final(self).asset_list == old(self).asset_list,
    {
        let id = self.chunk_count;
        self.chunk_count = self.chunk_count + 1;
        id
    }

    /// Hands out the next asset id.
    pub fn get_asset_id(&mut self) -> (id: u128)
        requires
            old(self).asset_count < u128::MAX,
        ensures
            id == old(self).asset_count,
            final(self).asset_count == old(self).asset_count + 1,
            final(self).chunk_count == old(self).chunk_count,
            final(self).in_prod == old(self).in_prod,
            final(self).canister_id == old(self).canister_id,
            final(self).used_storage == old(self).used_storage,
            final(self).capacity_limit == old(self).capacity_limit,
            final(self).chunk_list == old(self).chunk_list,
            final(self).asset_list == old(self).asset_list,
    {
        let id = self.asset_count;
        self.asset_count = self.asset_count + 1;
        id
    }
}

/// In a well-formed shard every chunk id and every asset id is unique and below
/// the counter that hands them out, so the next id handed out is new; ids grow
/// with the order in which they were handed out.
pub proof fn lemma_ids_unique(state: State)
    requires
        state.wf(),
    ensures
        forall|i: int, j: int|
            0 <= i < state.chunk_list@.len() && 0 <= j < state.chunk_list@.len() && i != j
                ==> state.chunk_list@[i].chunk_id != state.chunk_list@[j].chunk_id,
        forall|i: int|
            0 <= i < state.chunk_list@.len() ==> state.chunk_list@[i].chunk_id != state.chunk_count,
        forall|i: int, j: int|
            0 <= i < state.asset_list@.len() && 0 <= j < state.asset_list@.len() && i != j
                ==> state.asset_list@[i].asset_id != state.asset_list@[j].asset_id,
        forall|i: int|
            0 <= i < state.asset_list@.len() ==> state.asset_list@[i].asset_id != state.asset_count,
{
    assert forall|i: int, j: int|
        0 <= i < state.chunk_list@.len() && 0 <= j < state.chunk_list@.len() && i != j
            implies state.chunk_list@[i].chunk_id != state.chunk_list@[j].chunk_id by {
        if i < j {
            assert(state.chunk_list@[i].chunk_id < state.chunk_list@[j].chunk_id);
        } else {
            assert(state.chunk_list@[j].chunk_id < state.chunk_list@[i].chunk_id);
        }
    }
    assert forall|i: int, j: int|
        0 <= i < state.asset_list@.len() && 0 <= j < state.asset_list@.len() && i != j
            implies state.asset_list@[i].asset_id != state.asset_list@[j].asset_id by {
        if i < j {
            assert(state.asset_list@[i].asset_id < state.asset_list@[j].asset_id);
        } else {
            assert(state.asset_list@[j].asset_id < state.asset_list@[i].asset_id);
        }
    }
}

/// Sets the environment flag that asset urls are built for.
pub fn init(state: &mut State, in_prod: bool)
    requires
        old(state).wf(),
    ensures
        final(state).wf(),
        final(state).in_prod == in_prod,
        final(state).chunk_count == old(state).chunk_count,
        final(state).asset_count == old(state).asset_count,
        final(state).chunk_list == old(state).chunk_list,
        final(state).asset_list == old(state).asset_list,
        final(state).canister_id == old(state).canister_id,
        final(state).used_storage == old(state).used_storage,
        final(state).capacity_limit == old(state).capacity_limit,
{
    state.in_prod = in_prod;
}

/// Whether the shard's last known memory use has reached its limit.
pub fn is_full(state: &State) -> (r: bool)
    ensures
        r == (state.used_storage >= state.capacity_limit),
{
    state.used_storage >= state.capacity_limit
}

/// Records a fresh reading of the shard's memory use.
pub fn update_storage(state: &mut State, used: u128)
    requires
        old(state).wf(),
    ensures
        final(state).wf(),
        final(state).used_storage == used,
        final(state).chunk_count == old(state).chunk_count,
        final(state).asset_count == old(state).asset_count,
        final(state).chunk_list == old(state).chunk_list,
        final(state).asset_list == old(state).asset_list,
        final(state).in_prod == old(state).in_prod,
        final(state).canister_id == old(state).canister_id,
        final(state).capacity_limit == old(state).capacity_limit,
{
    state.used_storage = used;
}

/// The ids among `ids` that name no pending chunk, in the order given.
pub open spec fn missing_chunk_ids(s: Seq<Chunk>, ids: Seq<u128>) -> Seq<u128>
    decreases ids.len(),
{
    if ids.len() == 0 {
        seq![]
    } else {
        let rest = missing_chunk_ids(s, ids.drop_last());
        if find_chunk(s, ids.last()) is None {
            rest.push(ids.last())
        } else {
            rest
        }
    }
}

/// Reports which of `ids` name no pending chunk; an empty result means all of
/// them are valid.
pub fn chunk_ids_validity_check(state: &State, ids: &[u128]) -> (r: Vec<u128>)
    ensures
        r@ == missing_chunk_ids(state.chunk_list@, ids@),
{
    let mut missing: Vec<u128> = Vec::new();
    let mut i: usize = 0;
    while i < ids.len()
        invariant
            i <= ids@.len(),
            missing@ == missing_chunk_ids(state.chunk_list@, ids@.take(i as int)),
        decreases ids@.len() - i,
    {
        let id = ids[i];
        assert(ids@.take(i + 1).drop_last() =~= ids@.take(i as int));
        if chunk_position(&state.chunk_list, id).is_none() {
            missing.push(id);
        }
        i = i + 1;
    }
    assert(ids@.take(ids@.len() as int) =~= ids@);
    missing
}

} // verus!
