use vstd::prelude::*;

use crate::identity::{anonymous_spec, Identity};
use crate::state::{chunk_ids_validity_check, missing_chunk_ids, State, StorageError};

verus! {

/// How long a chunk may wait for a commit, in nanoseconds of platform time,
/// the unit of the timestamps that chunks carry: 36 seconds.
pub const EXPIRY_LIMIT: u64 = 10 * 60 * 60 * 1000_000;

/// An uploaded piece of a file, pending commit.
pub struct Chunk {
    pub chunk_id: u128,
    /// Position of this piece in the file it belongs to.
    pub order: u32,
    pub content: Vec<u8>,
    pub owned_by: Identity,
    pub uploaded_at: u64,
    /// The uploader's checksum of this piece.
    pub checksum: u32,
}

/// What a caller sends to upload one chunk.
pub struct ChunkArgs {
    pub order: u32,
    pub content: Vec<u8>,
    pub checksum: u32,
}

pub open spec fn chunk_ids_increasing(s: Seq<Chunk>) -> bool {
    forall|i: int, j: int| 0 <= i < j < s.len() ==> s[i].chunk_id < s[j].chunk_id
}

/// The chunk with the given id, looking from the newest.
pub open spec fn find_chunk(s: Seq<Chunk>, id: u128) -> Option<Chunk>
    decreases s.len(),
{
    if s.len() == 0 {
        None
    } else if s.last().chunk_id == id {
        Some(s.last())
    } else {
        find_chunk(s.drop_last(), id)
    }
}

/// A chunk is expired once more than `EXPIRY_LIMIT` has passed since its upload.
pub open spec fn is_expired(c: Chunk, now: u64) -> bool {
    now as int > c.uploaded_at as int + EXPIRY_LIMIT as int
}

/// The chunks of `s` that are not expired at `now`, in their order.
pub open spec fn unexpired(s: Seq<Chunk>, now: u64) -> Seq<Chunk>
    decreases s.len(),
{
    if s.len() == 0 {
        seq![]
    } else {
        let rest = unexpired(s.drop_last(), now);
        if is_expired(s.last(), now) {
            rest
        } else {
            rest.push(s.last())
        }
    }
}

/// The sweep keeps exactly the chunks that are not expired: none that it keeps
/// is expired, and every chunk that is not expired is kept.
pub proof fn lemma_unexpired(s: Seq<Chunk>, now: u64)
    ensures
        forall|i: int| 0 <= i < unexpired(s, now).len() ==> !is_expired(#[trigger] unexpired(s, now)[i], now),
        forall|k: int| 0 <= k < s.len() && !is_expired(s[k], now) ==> #[trigger] unexpired(s, now).contains(
            s[k],
        ),
        forall|c: Chunk| #[trigger] unexpired(s, now).contains(c) ==> s.contains(c),
    decreases s.len(),
{
    if s.len() > 0 {
        let t = s.drop_last();
        lemma_unexpired(t, now);
        assert forall|k: int| 0 <= k < s.len() && !is_expired(s[k], now) implies #[trigger] unexpired(
            s,
            now,
        ).contains(s[k]) by {
            if k < s.len() - 1 {
                assert(s[k] == t[k]);
                assert(unexpired(t, now).contains(t[k]));
                let j = choose|j: int| 0 <= j < unexpired(t, now).len() && unexpired(t, now)[j] == t[k];
                if !is_expired(s.last(), now) {
                    assert(unexpired(s, now)[j] == t[k]);
                }
            } else {
                assert(unexpired(s, now).last() == s.last());
            }
        }
        assert forall|c: Chunk| #[trigger] unexpired(s, now).contains(c) implies s.contains(c) by {
            let j = choose|j: int| 0 <= j < unexpired(s, now).len() && unexpired(s, now)[j] == c;
            if j < unexpired(t, now).len() {
                assert(unexpired(t, now)[j] == c);
                assert(unexpired(t, now).contains(c));
                let m = choose|m: int| 0 <= m < t.len() && t[m] == c;
                assert(s[m] == c);
            } else {
                assert(c == s.last());
                assert(s[s.len() - 1] == c);
            }
        }
    }
}

/// Where the chunk with the given id stands in the table.
pub fn chunk_position(list: &Vec<Chunk>, id: u128) -> (r: Option<usize>)
    ensures
        match r {
            Some(i) => i < list@.len() && list@[i as int].chunk_id == id && find_chunk(list@, id)
                == Some(list@[i as int]),
            None => find_chunk(list@, id) is None,
        },
{
    let mut i: usize = list.len();
    assert(list@.take(i as int) =~= list@);
    while i > 0
        invariant
            i <= list@.len(),
            find_chunk(list@, id) == find_chunk(list@.take(i as int), id),
        decreases i,
    {
        assert(list@.take(i as int).drop_last() =~= list@.take(i - 1));
        if list[i - 1].chunk_id == id {
            return Some(i - 1);
        }
        i = i - 1;
    }
    None
}

impl Chunk {
    /// The chunk that `arg` describes, under the given id, owner and time.
    pub fn new(chunk_id: u128, arg: ChunkArgs, owned_by: Identity, now: u64) -> (r: Chunk)
        ensures
            r == (Chunk {
                chunk_id,
                order: arg.order,
                content: arg.content,
                owned_by,
                uploaded_at: now,
                checksum: arg.checksum,
            }),
    {
        Chunk {
            chunk_id,
            order: arg.order,
            content: arg.content,
            owned_by,
            uploaded_at: now,
            checksum: arg.checksum,
        }
    }
}

/// Stores a new chunk for `caller` under the next chunk id and returns that id.
/// The anonymous principal is refused.
pub fn upload_chunk(state: &mut State, arg: ChunkArgs, caller: Identity, now: u64) -> (r: Result<
    u128,
    StorageError,
>)
    requires
        old(state).wf(),
        old(state).chunk_count < u128::MAX,
    ensures
        final(state).wf(),
        caller@ == anonymous_spec() ==> r == Err::<u128, StorageError>(StorageError::AnonymousCaller)
            && *final(state) == *old(state),
        caller@ != anonymous_spec() ==> {
            &&& r == Ok::<u128, StorageError>(old(state).chunk_count)
            &&& final(state).chunk_count == old(state).chunk_count + 1
            &&& final(state).chunk_list@ == old(state).chunk_list@.push(
                Chunk {
                    chunk_id: old(state).chunk_count,
                    order: arg.order,
                    content: arg.content,
                    owned_by: caller,
                    uploaded_at: now,
                    checksum: arg.checksum,
                },
            )
            &&& final(state).asset_count == old(state).asset_count
            &&& final(state).asset_list == old(state).asset_list
            &&& final(state).in_prod == old(state).in_prod
            &&& final(state).canister_id == old(state).canister_id
            &&& final(state).used_storage == old(state).used_storage
            &&& final(state).capacity_limit == old(state).capacity_limit
        },
{
    if caller.is_anonymous() {
        return Err(StorageError::AnonymousCaller);
    }
    let chunk_id = state.get_chunk_id();
    let chunk = Chunk::new(chunk_id, arg, caller, now);
    state.chunk_list.push(chunk);
    Ok(chunk_id)
}

/// Removes every chunk that is expired at `now` and keeps the others in order.
pub fn delete_expired_chunks(state: &mut State, now: u64)
    requires
        old(state).wf(),
    ensures
        final(state).wf(),
        final(state).chunk_list@ == unexpired(old(state).chunk_list@, now),
        final(state).chunk_count == old(state).chunk_count,
        final(state).asset_count == old(state).asset_count,
        final(state).asset_list == old(state).asset_list,
        final(state).in_prod == old(state).in_prod,
        final(state).canister_id == old(state).canister_id,
        final(state).used_storage == old(state).used_storage,
        final(state).capacity_limit == old(state).capacity_limit,
{
    let ghost s = state.chunk_list@;
    let n: usize = state.chunk_list.len();
    let mut i: usize = 0;
    let mut j: usize = 0;
    while j < n
        invariant
            n == s.len(),
            j <= s.len(),
            state.wf(),
            i == unexpired(s.take(j as int), now).len(),
            i <= j,
            state.chunk_list@.len() == i + (n - j),
            state.chunk_list@ == unexpired(s.take(j as int), now) + s.skip(j as int),
            state.chunk_count == old(state).chunk_count,
            state.asset_count == old(state).asset_count,
            state.asset_list == old(state).asset_list,
            state.in_prod == old(state).in_prod,
            state.canister_id == old(state).canister_id,
            state.used_storage == old(state).used_storage,
            state.capacity_limit == old(state).capacity_limit,
            s == old(state).chunk_list@,
        decreases n - j,
    {
        let ghost before = state.chunk_list@;
        assert(s.take(j + 1).drop_last() =~= s.take(j as int));
        assert(before[i as int] == s[j as int]);
        let uploaded_at = state.chunk_list[i].uploaded_at;
        let expired = now > EXPIRY_LIMIT && now - EXPIRY_LIMIT > uploaded_at;
        if expired {
            state.chunk_list.remove(i);
            assert(state.chunk_list@ =~= unexpired(s.take(j + 1), now) + s.skip(j + 1));
        } else {
            assert(state.chunk_list@ =~= unexpired(s.take(j + 1), now) + s.skip(j + 1));
            i = i + 1;
        }
        j = j + 1;
    }
    assert(s.take(s.len() as int) =~= s);
    assert(state.chunk_list@ =~= unexpired(s, now));
}

/// Reports which of `ids` name no pending chunk; an empty result means all of
/// them are valid.
pub fn chunk_ids_check(state: &State, ids: Vec<u128>) -> (r: Vec<u128>)
    ensures
        r@ == missing_chunk_ids(state.chunk_list@, ids@),
{
    chunk_ids_validity_check(state, ids.as_slice())
}

} // verus!
