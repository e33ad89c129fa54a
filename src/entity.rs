use vstd::prelude::*;
use crate::links::{
    create_links_from_node, inputs_view, links_outcome, metas_view, CreateOrDeleteLinksInput,
    LinkInput, LinkInputView, NodeLinkMeta, Partial,
};
use crate::node::{is_node_partition, ActionHash, GraphError, LinkTypes, NodeId, NodeIdView};
use crate::store::{
    clock, has_room, new_link, record_of, store_wf, with_link, with_record, LinkView, Store,
    StoreView,
};
use crate::tag::{decode_tag, derive_link_tag, deserialize_link_tag, encode_tag, tag_view};
use crate::things::{Thing, ThingView};
use crate::unlink::{
    backlink_error, check_backlink, deletable, in_table, lemma_unlink_plan_in_table, union_of, union_of_removals, plan_unlinks, remove_planned, removals_view,
    unlink_plan, without_links, NodeLink, NodeLinkView,
};

verus! {

/// A request to create an entity, with relations from it.
#[derive(Clone, Debug, PartialEq, Eq)]
pub struct CreateThingInput {
    pub content: String,
    pub links: Option<Vec<LinkInput>>,
}

/// A created entity and the outcome of creating its relations.
#[derive(Debug, PartialEq, Eq)]
pub struct ThingCreation {
    pub thing: Thing,
    pub links: Result<Vec<NodeLinkMeta>, Partial<NodeLinkMeta>>,
}

/// The view of an entity created now with `content`.
pub open spec fn created_view(s: StoreView, content: Seq<char>) -> ThingView {
    ThingView {
        id: s.records.len() as u64,
        content,
        creator: s.agent,
        created_at: clock(s) as u64,
        updated_at: None,
    }
}

pub open spec fn opt_inputs_view(o: Option<Vec<LinkInput>>) -> Seq<LinkInputView> {
    match o {
        Some(v) => inputs_view(v@),
        None => Seq::empty(),
    }
}

/// Writes a new entity, then creates the requested relations from it in order
/// (see `create_links_from_node`). Fails only when the store has no room for
/// the entity; a relation that fails is reported in the result's `links`, the
/// entity and the edges written before it staying in place.
pub fn create_thing(store: &mut Store, input: CreateThingInput) -> (r: Result<ThingCreation, GraphError>)
    requires
        store_wf(old(store)@),
    ensures
        store_wf(final(store)@),
        !has_room(old(store)@, 1) ==> r == Err::<ThingCreation, GraphError>(GraphError::SubstrateError)
            && final(store)@ == old(store)@,
        has_room(old(store)@, 1) ==> ({
            let s1 = with_record(old(store)@, input.content@);
            let o = links_outcome(
                s1,
                NodeIdView::Thing(old(store)@.records.len() as u64),
                opt_inputs_view(input.links),
            );
            &&& r matches Ok(c)
            &&& c.thing@ == created_view(old(store)@, input.content@)
            &&& final(store)@ == o.0
            &&& match c.links {
                Ok(v) => o.2 is None && metas_view(v@) == o.1,
                Err(p) => o.2 == Some(p.error) && metas_view(p.completed@) == o.1,
            }
        }),
{
    let ghost s0 = store@;
    let created_at = store.record_count() as u64 + store.link_count() as u64;
    let content = input.content.clone();
    let thing_id = match store.create_entry(input.content) {
        Ok(h) => h,
        Err(e) => return Err(e),
    };
    let thing = Thing {
        id: thing_id,
        content,
        creator: store.agent_pub_key(),
        created_at,
        updated_at: None,
    };
    let links = match input.links {
        Some(ls) => {
            let req = CreateOrDeleteLinksInput { src: NodeId::Thing(thing_id), links: ls };
            create_links_from_node(store, &req)
        },
        None => {
            let v: Vec<NodeLinkMeta> = Vec::new();
            assert(metas_view(v@) =~= Seq::empty());
            Ok(v)
        },
    };
    Ok(ThingCreation { thing, links })
}

/// The label of the anchor that every agent links itself from.
pub const SIMPLE_HOLOCHAIN_ALL_AGENTS: &'static str = "SIMPLE_HOLOCHAIN_ALL_AGENTS";

/// Registers the store's agent under the all-agents anchor: one edge from the
/// anchor to the agent, whose payload names the agent.
pub fn add_agent_to_anchor(store: &mut Store) -> (r: Result<ActionHash, GraphError>)
    requires
        store_wf(old(store)@),
    ensures
        store_wf(final(store)@),
        !has_room(old(store)@, 1) ==> r == Err::<ActionHash, GraphError>(GraphError::SubstrateError)
            && final(store)@ == old(store)@,
        has_room(old(store)@, 1) ==> r == Ok::<ActionHash, GraphError>(old(store)@.links.len() as u64)
            && final(store)@ == with_link(
            old(store)@,
            new_link(
                old(store)@,
                NodeIdView::Anchor(SIMPLE_HOLOCHAIN_ALL_AGENTS@),
                NodeIdView::Agent(old(store)@.agent),
                LinkTypes::ToAgent,
                encode_tag(tag_view(None, None, NodeIdView::Agent(old(store)@.agent), None, None)),
            ),
        ),
{
    let me = store.agent_pub_key();
    let (tag, _content) = match derive_link_tag(None, None, NodeId::Agent(me), None, None) {
        Ok(x) => x,
        Err(e) => return Err(e),
    };
    let anchor = NodeId::Anchor(SIMPLE_HOLOCHAIN_ALL_AGENTS.to_owned());
    store.create_link(anchor, NodeId::Agent(me), LinkTypes::ToAgent, tag)
}

/// A request to delete an entity and a chosen set of edges around it.
#[derive(Clone, Debug, PartialEq, Eq)]
pub struct DeleteThingInput {
    pub thing_id: ActionHash,
    /// Delete the reverse edge of every bidirectional relation from the entity.
    pub delete_backlinks: bool,
    /// Delete the edges from the entity's creator to it.
    pub delete_links_from_creator: bool,
    /// Relations from the entity to delete, as `delete_links_from_node` does.
    pub delete_links: Option<Vec<LinkInput>>,
}

/// For every live edge from entity `id` to a node (in a node partition) whose
/// payload names a reverse edge, the removal of that reverse edge. A payload
/// that does not decode fails with `DecodeError`; a reverse edge that cannot
/// be deleted with the error [`backlink_error`] gives. `links` is a prefix of
/// edge table `table`. The edges from the entity themselves stay.
pub open spec fn backlink_removals(links: Seq<LinkView>, table: Seq<LinkView>, id: u64) -> Result<Seq<NodeLinkView>, GraphError>
    decreases links.len(),
{
    if links.len() == 0 {
        Ok(Seq::empty())
    } else {
        match backlink_removals(links.drop_last(), table, id) {
            Err(e) => Err(e),
            Ok(prev) => {
                let l = links.last();
                if l.live && l.base == NodeIdView::Thing(id) && is_node_partition(l.link_type) {
                    match decode_tag(l.tag) {
                        None => Err(GraphError::DecodeError),
                        Some(p) => match p.backlink_action_hash {
                            Some(j) => match backlink_error(table, j) {
                                None => Ok(prev.push(NodeLinkView { src: p.target_node_id, dst: NodeIdView::Thing(id), tag: p.tag, create_action_hash: j })),
                                Some(e) => Err(e),
                            },
                            None => Ok(prev),
                        },
                    }
                } else {
                    Ok(prev)
                }
            },
        }
    }
}

/// The removal of every live edge from identity `creator` to entity `id`. Every
/// live edge from `creator` to an entity is decoded, and a payload that does
/// not decode fails with `DecodeError`.
pub open spec fn creator_removals(links: Seq<LinkView>, id: u64, creator: u64) -> Result<Seq<NodeLinkView>, GraphError>
    decreases links.len(),
{
    if links.len() == 0 {
        Ok(Seq::empty())
    } else {
        match creator_removals(links.drop_last(), id, creator) {
            Err(e) => Err(e),
            Ok(prev) => {
                let l = links.last();
                if l.live && l.base == NodeIdView::Agent(creator) && l.link_type == LinkTypes::ToThing {
                    match decode_tag(l.tag) {
                        None => Err(GraphError::DecodeError),
                        Some(p) => if l.target == NodeIdView::Thing(id) {
                            Ok(prev.push(NodeLinkView {
                                src: NodeIdView::Agent(creator),
                                dst: NodeIdView::Thing(id),
                                tag: p.tag,
                                create_action_hash: (links.len() - 1) as u64,
                            }))
                        } else {
                            Ok(prev)
                        },
                    }
                } else {
                    Ok(prev)
                }
            },
        }
    }
}

/// The removals that deleting entity `id` performs: reverse edges, then the
/// creator's edges, then the explicit relations, each part when asked for.
/// Fails with `NotFound` when the entity's original record is gone, and with
/// the first error of a part.
pub open spec fn delete_plan(
    s: StoreView,
    id: u64,
    backlinks: bool,
    from_creator: bool,
    explicit: Option<Seq<LinkInputView>>,
) -> Result<Seq<NodeLinkView>, GraphError> {
    match record_of(s, id) {
        None => Err(GraphError::NotFound),
        Some(r) => {
            let a = if backlinks { backlink_removals(s.links, s.links, id) } else { Ok(Seq::empty()) };
            let b = if from_creator { creator_removals(s.links, id, r.author) } else { Ok(Seq::empty()) };
            let c = match explicit {
                Some(ins) => unlink_plan(s, NodeIdView::Thing(id), ins),
                None => Ok(Seq::empty()),
            };
            match a {
                Err(e) => Err(e),
                Ok(x) => match b {
                    Err(e) => Err(e),
                    Ok(y) => match c {
                        Err(e) => Err(e),
                        Ok(z) => Ok(x + y + z),
                    },
                },
            }
        },
    }
}

/// The store after tombstoning record `id`.
pub open spec fn tombstoned(s: StoreView, id: u64) -> StoreView {
    StoreView {
        records: s.records.update(id as int, crate::store::RecordView { live: false, ..s.records[id as int] }),
        ..s
    }
}

pub open spec fn opt_explicit_view(o: Option<Vec<LinkInput>>) -> Option<Seq<LinkInputView>> {
    match o {
        Some(v) => Some(inputs_view(v@)),
        None => None,
    }
}

proof fn lemma_backlink_removals_err(links: Seq<LinkView>, table: Seq<LinkView>, id: u64, k: int, e: GraphError)
    requires
        0 <= k <= links.len(),
        backlink_removals(links.take(k), table, id) == Err::<Seq<NodeLinkView>, GraphError>(e),
    ensures
        backlink_removals(links, table, id) == Err::<Seq<NodeLinkView>, GraphError>(e),
    decreases links.len() - k,
{
    if k < links.len() {
        assert(links.take(k + 1).drop_last() =~= links.take(k));
        lemma_backlink_removals_err(links, table, id, k + 1, e);
    } else {
        assert(links.take(k) =~= links);
    }
}

proof fn lemma_creator_removals_err(links: Seq<LinkView>, id: u64, creator: u64, k: int, e: GraphError)
    requires
        0 <= k <= links.len(),
        creator_removals(links.take(k), id, creator) == Err::<Seq<NodeLinkView>, GraphError>(e),
    ensures
        creator_removals(links, id, creator) == Err::<Seq<NodeLinkView>, GraphError>(e),
    decreases links.len() - k,
{
    if k < links.len() {
        assert(links.take(k + 1).drop_last() =~= links.take(k));
        lemma_creator_removals_err(links, id, creator, k + 1, e);
    } else {
        assert(links.take(k) =~= links);
    }
}

proof fn lemma_backlink_removals_in_table(links: Seq<LinkView>, table: Seq<LinkView>, id: u64)
    ensures
        backlink_removals(links, table, id) matches Ok(rs) ==> forall|k: int|
            0 <= k < rs.len() ==> deletable(table, (#[trigger] rs[k]).create_action_hash),
    decreases links.len(),
{
    if links.len() > 0 {
        lemma_backlink_removals_in_table(links.drop_last(), table, id);
        if let Ok(rs) = backlink_removals(links, table, id) {
            let prev = backlink_removals(links.drop_last(), table, id)->Ok_0;
            assert forall|k: int| 0 <= k < rs.len() implies deletable(table, (#[trigger] rs[k]).create_action_hash) by {
                if k < prev.len() {
                    assert(rs[k] == prev[k]);
                }
            }
        }
    }
}

proof fn lemma_creator_removals_in_table(links: Seq<LinkView>, table: Seq<LinkView>, id: u64, creator: u64)
    requires
        links.len() <= table.len(),
        table.len() <= u64::MAX,
        forall|i: int| 0 <= i < links.len() ==> #[trigger] links[i] == table[i],
    ensures
        creator_removals(links, id, creator) matches Ok(rs) ==> forall|k: int|
            0 <= k < rs.len() ==> deletable(table, (#[trigger] rs[k]).create_action_hash),
    decreases links.len(),
{
    if links.len() > 0 {
        let prefix = links.drop_last();
        assert forall|i: int| 0 <= i < prefix.len() implies #[trigger] prefix[i] == table[i] by {
            assert(prefix[i] == links[i]);
        }
        lemma_creator_removals_in_table(prefix, table, id, creator);
        assert(links.last() == table[links.len() - 1]);
        if let Ok(rs) = creator_removals(links, id, creator) {
            let prev = creator_removals(prefix, id, creator)->Ok_0;
            assert forall|k: int| 0 <= k < rs.len() implies deletable(table, (#[trigger] rs[k]).create_action_hash) by {
                if k < prev.len() {
                    assert(rs[k] == prev[k]);
                }
            }
        }
    }
}

fn plan_backlinks(store: &Store, thing_id: ActionHash, out: &mut Vec<NodeLink>) -> (r: Result<(), GraphError>)
    ensures
        match backlink_removals(store@.links, store@.links, thing_id) {
            Ok(rs) => r is Ok && removals_view(final(out)@) == removals_view(old(out)@) + rs,
            Err(e) => r == Err::<(), GraphError>(e),
        },
{
    let ghost start = removals_view(out@);
    let n = store.link_count();
    let me = NodeId::Thing(thing_id);
    let mut i: usize = 0;
    while i < n
        invariant
            n == store@.links.len(),
            i <= n,
            me@ == NodeIdView::Thing(thing_id),
            start == removals_view(old(out)@),
            backlink_removals(store@.links.take(i as int), store@.links, thing_id) matches Ok(rs)
                && removals_view(out@) == start + rs,
        decreases n - i,
    {
        let l = store.link_at(i as u64).unwrap();
        let ghost links = store@.links;
        assert(links.take(i + 1).drop_last() =~= links.take(i as int));
        assert(links.take(i + 1).last() == l@);
        if l.live && (l.link_type == LinkTypes::ToAgent || l.link_type == LinkTypes::ToAnchor
            || l.link_type == LinkTypes::ToThing) && l.base.same_as(&me) {
            let c = match deserialize_link_tag(&l.tag) {
                Ok(c) => c,
                Err(e) => {
                    proof {
                        lemma_backlink_removals_err(links, links, thing_id, i + 1, e);
                    }
                    return Err(e);
                },
            };
            if let Some(j) = c.backlink_action_hash {
                match check_backlink(store, j) {
                    Ok(()) => {},
                    Err(e) => {
                        proof {
                            lemma_backlink_removals_err(links, links, thing_id, i + 1, e);
                        }
                        return Err(e);
                    },
                }
                let ghost before = removals_view(out@);
                out.push(NodeLink { src: c.target_node_id, dst: NodeId::Thing(thing_id), tag: c.tag, create_action_hash: j });
                assert(removals_view(out@) =~= before.push(out@.last()@));
            }
        }
        i = i + 1;
    }
    assert(store@.links.take(n as int) =~= store@.links);
    Ok(())
}

fn plan_creator_links(store: &Store, thing_id: ActionHash, creator: u64, out: &mut Vec<NodeLink>) -> (r: Result<(), GraphError>)
    ensures
        match creator_removals(store@.links, thing_id, creator) {
            Ok(rs) => r is Ok && removals_view(final(out)@) == removals_view(old(out)@) + rs,
            Err(e) => r == Err::<(), GraphError>(e),
        },
{
    let ghost start = removals_view(out@);
    let n = store.link_count();
    let me = NodeId::Thing(thing_id);
    let who = NodeId::Agent(creator);
    let mut i: usize = 0;
    while i < n
        invariant
            n == store@.links.len(),
            i <= n,
            me@ == NodeIdView::Thing(thing_id),
            who@ == NodeIdView::Agent(creator),
            start == removals_view(old(out)@),
            creator_removals(store@.links.take(i as int), thing_id, creator) matches Ok(rs)
                && removals_view(out@) == start + rs,
        decreases n - i,
    {
        let l = store.link_at(i as u64).unwrap();
        let ghost links = store@.links;
        assert(links.take(i + 1).drop_last() =~= links.take(i as int));
        assert(links.take(i + 1).last() == l@);
        if l.live && l.link_type == LinkTypes::ToThing && l.base.same_as(&who) {
            let c = match deserialize_link_tag(&l.tag) {
                Ok(c) => c,
                Err(e) => {
                    proof {
                        lemma_creator_removals_err(links, thing_id, creator, i + 1, e);
                    }
                    return Err(e);
                },
            };
            if l.target.same_as(&me) {
                let ghost before = removals_view(out@);
                out.push(NodeLink { src: NodeId::Agent(creator), dst: NodeId::Thing(thing_id), tag: c.tag, create_action_hash: i as u64 });
                assert(removals_view(out@) =~= before.push(out@.last()@));
            }
        }
        i = i + 1;
    }
    assert(store@.links.take(n as int) =~= store@.links);
    Ok(())
}

/// Deletes an entity: tombstones its original record and deletes the edges
/// that [`delete_plan`] names, and returns each of them once. Edges from the
/// entity stay
/// (they can no longer be reached from it). Every removal is planned before
/// the first write, so on an error nothing changes.
pub fn delete_thing(store: &mut Store, input: DeleteThingInput) -> (r: Result<Vec<NodeLink>, GraphError>)
    requires
        store_wf(old(store)@),
    ensures
        store_wf(final(store)@),
        match delete_plan(
            old(store)@,
            input.thing_id,
            input.delete_backlinks,
            input.delete_links_from_creator,
            opt_explicit_view(input.delete_links),
        ) {
            Ok(rs) => (r matches Ok(v) && removals_view(v@) == union_of(rs)) && final(store)@ == without_links(
                tombstoned(old(store)@, input.thing_id),
                rs,
            ),
            Err(e) => r == Err::<Vec<NodeLink>, GraphError>(e) && final(store)@ == old(store)@,
        },
{
    let ghost s0 = store@;
    let id = input.thing_id;
    let creator = match store.get(id) {
        Some(rec) => rec.author,
        None => return Err(GraphError::NotFound),
    };
    let mut planned: Vec<NodeLink> = Vec::new();
    assert(removals_view(planned@) =~= Seq::<NodeLinkView>::empty());
    let ghost a: Seq<NodeLinkView> = Seq::empty();
    let ghost b: Seq<NodeLinkView> = Seq::empty();
    if input.delete_backlinks {
        match plan_backlinks(store, id, &mut planned) {
            Ok(()) => {},
            Err(e) => return Err(e),
        }
        proof {
            a = backlink_removals(s0.links, s0.links, id)->Ok_0;
            lemma_backlink_removals_in_table(s0.links, s0.links, id);
        }
    }
    assert(removals_view(planned@) =~= a);
    if input.delete_links_from_creator {
        let ghost before = removals_view(planned@);
        match plan_creator_links(store, id, creator, &mut planned) {
            Ok(()) => {},
            Err(e) => return Err(e),
        }
        proof {
            b = creator_removals(s0.links, id, creator)->Ok_0;
            lemma_creator_removals_in_table(s0.links, s0.links, id, creator);
        }
    }
    assert(removals_view(planned@) =~= a + b);
    let ghost c: Seq<NodeLinkView> = Seq::empty();
    match input.delete_links {
        Some(ls) => {
            let req = CreateOrDeleteLinksInput { src: NodeId::Thing(id), links: ls };
            match plan_unlinks(store, &req, &mut planned) {
                Ok(()) => {},
                Err(e) => return Err(e),
            }
            proof {
                c = unlink_plan(s0, NodeIdView::Thing(id), inputs_view(req.links@))->Ok_0;
                lemma_unlink_plan_in_table(s0, NodeIdView::Thing(id), inputs_view(req.links@));
            }
        },
        None => {},
    }
    assert(removals_view(planned@) =~= a + b + c);
    match store.delete_entry(id) {
        Ok(()) => {},
        Err(e) => return Err(e),
    }
    assert(in_table(store@, removals_view(planned@))) by {
        let rs = removals_view(planned@);
        assert forall|k: int| 0 <= k < rs.len() implies deletable(store@.links, (#[trigger] rs[k]).create_action_hash) by {
            if k < a.len() {
                assert(rs[k] == a[k]);
            } else if k < a.len() + b.len() {
                assert(rs[k] == b[k - a.len()]);
            } else {
                assert(rs[k] == c[k - a.len() - b.len()]);
            }
        }
    }
    remove_planned(store, &planned);
    Ok(union_of_removals(&planned))
}

} // verus!
