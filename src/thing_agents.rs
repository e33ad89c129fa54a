use vstd::prelude::*;
use crate::node::{ActionHash, AgentPubKey, GraphError, LinkTypes, NodeId, NodeIdView};
use crate::store::{has_room, link_ids, new_link, record_of, store_wf, with_link, LinkView, Store, StoreView};

verus! {

/// An agent to attach to an entity.
#[derive(Clone, Debug, PartialEq, Eq)]
pub struct AddAgentForThingInput {
    pub base_thing_hash: ActionHash,
    pub target_agent: AgentPubKey,
}

/// An agent to detach from an entity.
#[derive(Clone, Debug, PartialEq, Eq)]
pub struct RemoveAgentForThingInput {
    pub base_thing_hash: ActionHash,
    pub target_agent: AgentPubKey,
}

/// Attaches an agent to an entity with one edge, without payload. Fails with
/// `NotFound` when the entity's original record is gone, and with
/// `SubstrateError` when the store is full.
pub fn add_agent_for_thing(store: &mut Store, input: &AddAgentForThingInput) -> (r: Result<(), GraphError>)
    requires
        store_wf(old(store)@),
    ensures
        store_wf(final(store)@),
        record_of(old(store)@, input.base_thing_hash) is None ==> r == Err::<(), GraphError>(GraphError::NotFound)
            && final(store)@ == old(store)@,
        record_of(old(store)@, input.base_thing_hash) is Some && !has_room(old(store)@, 1) ==> r == Err::<
            (),
            GraphError,
        >(GraphError::SubstrateError) && final(store)@ == old(store)@,
        record_of(old(store)@, input.base_thing_hash) is Some && has_room(old(store)@, 1) ==> r is Ok
            && final(store)@ == with_link(
            old(store)@,
            new_link(
                old(store)@,
                NodeIdView::Thing(input.base_thing_hash),
                NodeIdView::Agent(input.target_agent),
                LinkTypes::ThingToAgents,
                Seq::empty(),
            ),
        ),
{
    if store.get(input.base_thing_hash).is_none() {
        return Err(GraphError::NotFound);
    }
    let empty: Vec<u8> = Vec::new();
    assert(empty@ =~= Seq::<u8>::empty());
    match store.create_link(
        NodeId::Thing(input.base_thing_hash),
        NodeId::Agent(input.target_agent),
        LinkTypes::ThingToAgents,
        empty,
    ) {
        Ok(_) => Ok(()),
        Err(e) => Err(e),
    }
}

/// The live edges that attach agents to an entity, by address.
pub fn get_agents_for_thing(store: &Store, thing_hash: ActionHash) -> (r: Vec<ActionHash>)
    ensures
        r@ == link_ids(store@.links, NodeIdView::Thing(thing_hash), LinkTypes::ThingToAgents),
{
    store.get_links(&NodeId::Thing(thing_hash), LinkTypes::ThingToAgents)
}

/// The deleted edges from `base` in partition `link_type`, by address, in the
/// order they were written.
pub open spec fn dead_link_ids(links: Seq<LinkView>, base: NodeIdView, link_type: LinkTypes) -> Seq<u64>
    decreases links.len(),
{
    if links.len() == 0 {
        Seq::empty()
    } else {
        let prev = dead_link_ids(links.drop_last(), base, link_type);
        let l = links.last();
        if !l.live && l.base == base && l.link_type == link_type {
            prev.push((links.len() - 1) as u64)
        } else {
            prev
        }
    }
}

/// The edges that attached agents to an entity and have been deleted, by address.
pub fn get_deleted_agents_for_thing(store: &Store, thing_hash: ActionHash) -> (r: Vec<ActionHash>)
    ensures
        r@ == dead_link_ids(store@.links, NodeIdView::Thing(thing_hash), LinkTypes::ThingToAgents),
{
    let base = NodeId::Thing(thing_hash);
    let mut out: Vec<ActionHash> = Vec::new();
    let n = store.link_count();
    let mut i: usize = 0;
    while i < n
        invariant
            n == store@.links.len(),
            i <= n,
            base@ == NodeIdView::Thing(thing_hash),
            out@ == dead_link_ids(store@.links.take(i as int), base@, LinkTypes::ThingToAgents),
        decreases n - i,
    {
        let l = store.link_at(i as u64).unwrap();
        let ghost links = store@.links;
        assert(links.take(i + 1).drop_last() =~= links.take(i as int));
        assert(links.take(i + 1).last() == l@);
        if !l.live && l.link_type == LinkTypes::ThingToAgents && l.base.same_as(&base) {
            out.push(i as u64);
        }
        i = i + 1;
    }
    assert(store@.links.take(n as int) =~= store@.links);
    out
}

/// Whether edge `l` attaches agent `agent` to entity `thing`.
pub open spec fn attaches(l: LinkView, thing: u64, agent: u64) -> bool {
    l.base == NodeIdView::Thing(thing) && l.link_type == LinkTypes::ThingToAgents && l.target
        == NodeIdView::Agent(agent)
}

/// The store after deleting, among its first `upto` edges, those that attach
/// `agent` to `thing`.
pub open spec fn detached_upto(s: StoreView, thing: u64, agent: u64, upto: int) -> StoreView {
    StoreView {
        links: Seq::new(
            s.links.len(),
            |i: int|
                LinkView {
                    live: s.links[i].live && !(i < upto && attaches(s.links[i], thing, agent)),
                    ..s.links[i]
                },
        ),
        ..s
    }
}

/// Detaches an agent from an entity: deletes every edge that attaches it.
pub fn delete_agent_for_thing(store: &mut Store, input: &RemoveAgentForThingInput)
    requires
        store_wf(old(store)@),
    ensures
        store_wf(final(store)@),
        final(store)@ == detached_upto(
            old(store)@,
            input.base_thing_hash,
            input.target_agent,
            old(store)@.links.len() as int,
        ),
{
    let ghost s0 = store@;
    let base = NodeId::Thing(input.base_thing_hash);
    let agent = NodeId::Agent(input.target_agent);
    let n = store.link_count();
    assert(detached_upto(s0, input.base_thing_hash, input.target_agent, 0).links =~= s0.links);
    let mut i: usize = 0;
    while i < n
        invariant
            n == s0.links.len(),
            i <= n,
            base@ == NodeIdView::Thing(input.base_thing_hash),
            agent@ == NodeIdView::Agent(input.target_agent),
            store_wf(store@),
            store@ == detached_upto(s0, input.base_thing_hash, input.target_agent, i as int),
        decreases n - i,
    {
        let hit = {
            let l = store.link_at(i as u64).unwrap();
            l.live && l.link_type == LinkTypes::ThingToAgents && l.base.same_as(&base) && l.target.same_as(&agent)
        };
        if hit {
            let _ = store.delete_link(i as u64);
        }
        assert(store@.links =~= detached_upto(s0, input.base_thing_hash, input.target_agent, i + 1).links);
        i = i + 1;
    }
}

} // verus!
