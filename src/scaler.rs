use vstd::prelude::*;

use crate::identity::Identity;

verus! {

/// Shard addresses, oldest first; only ever appended to.
pub type StorageList = Vec<Identity>;

/// Environment flag that new shards are initialised with.
pub const IN_PROD: bool = false;

/// What to do after probing the newest shard.
pub enum ScalerStep {
    /// The shard has room: hand out this address.
    Reuse(Identity),
    /// The shard is full: provision a new one with this environment flag.
    Provision(bool),
}

/// The addresses of a shard list.
pub open spec fn addresses(list: Seq<Identity>) -> Seq<Seq<u8>> {
    list.map_values(|i: Identity| i@)
}

/// One routing round on a shard list, given the probe of its newest shard and
/// the address a provisioning would produce: the list afterwards and the
/// address handed out. Concurrent rounds may each provision; the extra shards
/// stay in the list and are used in turn.
pub open spec fn route(list: Seq<Seq<u8>>, full: bool, fresh: Seq<u8>) -> (Seq<Seq<u8>>, Seq<u8>) {
    if full {
        (list.push(fresh), fresh)
    } else {
        (list, list.last())
    }
}

/// The newest shard, which receives uploads.
pub fn active_shard(list: &StorageList) -> (r: Option<Identity>)
    ensures
        list@.len() == 0 ==> r is None,
        list@.len() > 0 ==> (r matches Some(i) && i@ == list@.last()@),
{
    if list.len() == 0 {
        None
    } else {
        Some(list[list.len() - 1].duplicate())
    }
}

/// Decides on the probe of the newest shard: keep handing it out while it has
/// room, else provision a new shard.
pub fn on_probe(list: &StorageList, full: bool) -> (r: ScalerStep)
    requires
        list@.len() > 0,
    ensures
        full ==> r == ScalerStep::Provision(IN_PROD),
        !full ==> (r matches ScalerStep::Reuse(i) && i@ == route(addresses(list@), full, seq![]).1),
{
    if full {
        ScalerStep::Provision(IN_PROD)
    } else {
        let last = list[list.len() - 1].duplicate();
        ScalerStep::Reuse(last)
    }
}

/// Appends a newly provisioned shard and hands out its address.
pub fn add_shard(list: &mut StorageList, addr: Identity) -> (r: Identity)
    ensures
        final(list)@ == old(list)@.push(addr),
        addresses(final(list)@) == route(addresses(old(list)@), true, addr@).0,
        r@ == route(addresses(old(list)@), true, addr@).1,
{
    let r = addr.duplicate();
    list.push(addr);
    assert(addresses(list@) =~= addresses(old(list)@).push(addr@));
    r
}

/// All shard addresses, oldest first.
pub fn storage_list(list: &StorageList) -> (r: Vec<Identity>)
    ensures
        addresses(r@) == addresses(list@),
{
    let mut out: Vec<Identity> = Vec::new();
    let mut i: usize = 0;
    while i < list.len()
        invariant
            i <= list@.len(),
            out@.len() == i,
            forall|k: int| 0 <= k < i ==> out@[k]@ == list@[k]@,
        decreases list@.len() - i,
    {
        out.push(list[i].duplicate());
        i = i + 1;
    }
    assert(addresses(out@) =~= addresses(list@));
    out
}

/// While the newest shard has room, routing hands out the same address again
/// and again and leaves the list as it is; once it is full, routing appends
/// the provisioned address at the end, hands it out, and that address is new
/// whenever provisioning produced one not yet listed.
pub proof fn lemma_routing(list: Seq<Seq<u8>>, fresh: Seq<u8>, other: Seq<u8>)
    requires
        list.len() > 0,
    ensures
        route(list, false, other).0 == list,
        route(route(list, false, other).0, false, other).1 == route(list, false, fresh).1,
        route(list, false, fresh).1 == list.last(),
        route(list, true, fresh).0.len() == list.len() + 1,
        route(list, true, fresh).0.drop_last() == list,
        route(list, true, fresh).0.last() == fresh,
        route(list, true, fresh).1 == fresh,
        !list.contains(fresh) ==> !list.contains(route(list, true, fresh).1),
{
    assert(list.push(fresh).drop_last() =~= list);
}

} // verus!
