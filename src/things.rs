use vstd::prelude::*;
use crate::node::{ActionHash, AgentPubKey, GraphError, LinkTypes, NodeId, NodeIdView, Timestamp};
use crate::store::{
    clock, has_room, new_link, record_of, store_wf, with_link, with_record, LinkView, RecordView,
    Store, StoreView,
};

verus! {

/// The logical view of a versioned entity: identity and creation metadata of
/// the original record, content of the revision shown.
#[derive(Clone, Debug, PartialEq, Eq)]
pub struct Thing {
    pub id: ActionHash,
    pub content: String,
    pub creator: AgentPubKey,
    pub created_at: Timestamp,
    pub updated_at: Option<Timestamp>,
}

pub struct ThingView {
    pub id: u64,
    pub content: Seq<char>,
    pub creator: u64,
    pub created_at: u64,
    pub updated_at: Option<u64>,
}

impl View for Thing {
    type V = ThingView;

    open spec fn view(&self) -> ThingView {
        ThingView {
            id: self.id,
            content: self.content@,
            creator: self.creator,
            created_at: self.created_at,
            updated_at: self.updated_at,
        }
    }
}

impl Thing {
    /// A copy of this entity view.
    pub fn duplicate(&self) -> (r: Thing)
        ensures
            r@ == self@,
    {
        Thing {
            id: self.id,
            content: self.content.clone(),
            creator: self.creator,
            created_at: self.created_at,
            updated_at: self.updated_at,
        }
    }
}

/// An entity as its original record shows it.
pub open spec fn original_thing_view(s: StoreView, id: u64) -> Option<ThingView> {
    match record_of(s, id) {
        Some(r) => Some(
            ThingView {
                id,
                content: r.content,
                creator: r.author,
                created_at: r.timestamp,
                updated_at: None,
            },
        ),
        None => None,
    }
}

/// An entity as revision record `r` shows it.
pub open spec fn revision_view(o: ThingView, r: RecordView) -> ThingView {
    ThingView { content: r.content, updated_at: Some(r.timestamp), ..o }
}

/// The revision records that the live revision-chain edges of entity `id`
/// point to, in the order the edges were written.
pub open spec fn update_targets(links: Seq<LinkView>, id: u64) -> Seq<u64>
    decreases links.len(),
{
    if links.len() == 0 {
        Seq::empty()
    } else {
        let prev = update_targets(links.drop_last(), id);
        let l = links.last();
        if l.live && l.link_type == LinkTypes::ThingUpdates && l.base == NodeIdView::Thing(id) {
            match l.target {
                NodeIdView::Thing(t) => prev.push(t),
                _ => prev,
            }
        } else {
            prev
        }
    }
}

/// The time record `t` was written (0 for an address that names no record).
pub open spec fn revision_time(s: StoreView, t: u64) -> u64 {
    if t < s.records.len() {
        s.records[t as int].timestamp
    } else {
        0
    }
}

/// Whether revision entry `a` supersedes `b`, each a pair of record time and
/// record address: the later record wins, and on equal times the higher
/// address wins.
pub open spec fn later(a: (u64, u64), b: (u64, u64)) -> bool {
    a.0 > b.0 || (a.0 == b.0 && a.1 > b.1)
}

/// The revision among `ts` that supersedes all others.
pub open spec fn latest_target(s: StoreView, ts: Seq<u64>) -> Option<u64>
    decreases ts.len(),
{
    if ts.len() == 0 {
        None
    } else {
        let x = ts.last();
        match latest_target(s, ts.drop_last()) {
            None => Some(x),
            Some(b) => if later((revision_time(s, x), x), (revision_time(s, b), b)) {
                Some(x)
            } else {
                Some(b)
            },
        }
    }
}

/// The latest view of entity `id`: the content of its newest revision, or of
/// the original when it has none or the newest cannot be fetched.
pub open spec fn latest_thing_view(s: StoreView, id: u64) -> Option<ThingView> {
    match original_thing_view(s, id) {
        None => None,
        Some(o) => match latest_target(s, update_targets(s.links, id)) {
            Some(t) => match record_of(s, t) {
                Some(r) => Some(revision_view(o, r)),
                None => Some(o),
            },
            None => Some(o),
        },
    }
}

/// The revisions that `ts` names and that can still be fetched.
pub open spec fn revision_views(s: StoreView, o: ThingView, ts: Seq<u64>) -> Seq<ThingView>
    decreases ts.len(),
{
    if ts.len() == 0 {
        Seq::empty()
    } else {
        let prev = revision_views(s, o, ts.drop_last());
        match record_of(s, ts.last()) {
            Some(r) => prev.push(revision_view(o, r)),
            None => prev,
        }
    }
}

/// The original of entity `id` followed by each revision that can be fetched.
pub open spec fn all_revisions_view(s: StoreView, id: u64) -> Option<Seq<ThingView>> {
    match original_thing_view(s, id) {
        None => None,
        Some(o) => Some(seq![o] + revision_views(s, o, update_targets(s.links, id))),
    }
}

pub open spec fn things_view(v: Seq<Thing>) -> Seq<ThingView> {
    v.map_values(|t: Thing| t@)
}

pub open spec fn opt_thing_view(o: Option<Thing>) -> Option<ThingView> {
    match o {
        Some(t) => Some(t@),
        None => None,
    }
}

/// The original record of an entity, as an entity view without update time.
pub fn get_original_thing(store: &Store, original_thing_id: ActionHash) -> (r: Option<Thing>)
    ensures
        opt_thing_view(r) == original_thing_view(store@, original_thing_id),
{
    match store.get(original_thing_id) {
        Some(rec) => Some(
            Thing {
                id: original_thing_id,
                content: rec.content.clone(),
                creator: rec.author,
                created_at: rec.timestamp,
                updated_at: None,
            },
        ),
        None => None,
    }
}

/// Whether revision entry `a` (record time, record address) supersedes `b`;
/// see [`later`].
pub fn supersedes(a: (u64, u64), b: (u64, u64)) -> (r: bool)
    ensures
        r == later(a, b),
{
    a.0 > b.0 || (a.0 == b.0 && a.1 > b.1)
}

fn revision_time_of(store: &Store, t: ActionHash) -> (r: u64)
    ensures
        r == revision_time(store@, t),
{
    match store.record_at(t) {
        Some(rec) => rec.timestamp,
        None => 0,
    }
}

/// The newest revision of entity `id` among all its revision-chain edges.
fn latest_update_target(store: &Store, thing_id: ActionHash) -> (r: Option<u64>)
    ensures
        r == latest_target(store@, update_targets(store@.links, thing_id)),
{
    let mut best: Option<u64> = None;
    let mut i: usize = 0;
    let n = store.link_count();
    while i < n
        invariant
            n == store@.links.len(),
            i <= n,
            best == latest_target(store@, update_targets(store@.links.take(i as int), thing_id)),
        decreases n - i,
    {
        let l = store.link_at(i as u64).unwrap();
        let ghost links = store@.links;
        assert(links.take(i + 1).drop_last() =~= links.take(i as int));
        assert(links.take(i + 1).last() == l@);
        if l.live && l.link_type == LinkTypes::ThingUpdates && l.base.same_as(&NodeId::Thing(thing_id)) {
            match l.target {
                NodeId::Thing(t) => {
                    let ghost ts = update_targets(links.take(i + 1), thing_id);
                    assert(ts.drop_last() =~= update_targets(links.take(i as int), thing_id));
                    best = match best {
                        None => Some(t),
                        Some(b) => if supersedes((revision_time_of(store, t), t), (revision_time_of(store, b), b)) {
                            Some(t)
                        } else {
                            Some(b)
                        },
                    };
                },
                _ => {},
            }
        }
        i = i + 1;
    }
    assert(store@.links.take(n as int) =~= store@.links);
    best
}

/// The latest known version of an entity: `None` only when its original record
/// is gone.
pub fn get_latest_thing(store: &Store, thing_id: ActionHash) -> (r: Option<Thing>)
    ensures
        opt_thing_view(r) == latest_thing_view(store@, thing_id),
{
    let original = match get_original_thing(store, thing_id) {
        Some(o) => o,
        None => return None,
    };
    match latest_update_target(store, thing_id) {
        Some(t) => match store.get(t) {
            Some(rec) => Some(
                Thing {
                    id: original.id,
                    content: rec.content.clone(),
                    creator: original.creator,
                    created_at: original.created_at,
                    updated_at: Some(rec.timestamp),
                },
            ),
            None => Some(original),
        },
        None => Some(original),
    }
}

/// The latest version of each entity in `thing_ids`, in the same order.
pub fn get_latest_things(store: &Store, thing_ids: &Vec<ActionHash>) -> (r: Vec<Option<Thing>>)
    ensures
        r@.len() == thing_ids@.len(),
        forall|k: int|
            0 <= k < r@.len() ==> opt_thing_view(#[trigger] r@[k]) == latest_thing_view(
                store@,
                thing_ids@[k],
            ),
{
    let mut out: Vec<Option<Thing>> = Vec::new();
    let mut i: usize = 0;
    while i < thing_ids.len()
        invariant
            i <= thing_ids@.len(),
            out@.len() == i,
            forall|k: int|
                0 <= k < i ==> opt_thing_view(#[trigger] out@[k]) == latest_thing_view(
                    store@,
                    thing_ids@[k],
                ),
        decreases thing_ids@.len() - i,
    {
        out.push(get_latest_thing(store, thing_ids[i]));
        i = i + 1;
    }
    out
}

/// The original of an entity followed by every revision that can still be
/// fetched, in the order they were written; revisions that cannot be fetched
/// are left out. Fails when the original is gone.
pub fn get_all_revisions_for_thing(store: &Store, thing_id: ActionHash) -> (r: Result<
    Vec<Thing>,
    GraphError,
>)
    ensures
        match all_revisions_view(store@, thing_id) {
            Some(v) => r matches Ok(t) && things_view(t@) == v,
            None => r == Err::<Vec<Thing>, GraphError>(GraphError::NotFound),
        },
{
    let original = match get_original_thing(store, thing_id) {
        Some(o) => o,
        None => return Err(GraphError::NotFound),
    };
    let ghost o = original@;
    let mut revs: Vec<Thing> = Vec::new();
    revs.push(original.duplicate());
    let mut i: usize = 0;
    let n = store.link_count();
    while i < n
        invariant
            n == store@.links.len(),
            i <= n,
            original@ == o,
            o == original_thing_view(store@, thing_id)->Some_0,
            things_view(revs@) == seq![o] + revision_views(
                store@,
                o,
                update_targets(store@.links.take(i as int), thing_id),
            ),
        decreases n - i,
    {
        let l = store.link_at(i as u64).unwrap();
        let ghost links = store@.links;
        assert(links.take(i + 1).drop_last() =~= links.take(i as int));
        assert(links.take(i + 1).last() == l@);
        if l.live && l.link_type == LinkTypes::ThingUpdates && l.base.same_as(&NodeId::Thing(thing_id)) {
            match l.target {
                NodeId::Thing(t) => {
                    let ghost ts = update_targets(links.take(i + 1), thing_id);
                    assert(ts.drop_last() =~= update_targets(links.take(i as int), thing_id));
                    match store.get(t) {
                        Some(rec) => {
                            let ghost before = things_view(revs@);
                            revs.push(
                                Thing {
                                    id: original.id,
                                    content: rec.content.clone(),
                                    creator: original.creator,
                                    created_at: original.created_at,
                                    updated_at: Some(rec.timestamp),
                                },
                            );
                            assert(things_view(revs@) =~= before.push(revision_view(o, rec@)));
                        },
                        None => {},
                    }
                },
                _ => {},
            }
        }
        i = i + 1;
    }
    assert(store@.links.take(n as int) =~= store@.links);
    Ok(revs)
}

/// A request to write a new revision of an entity.
#[derive(Clone, Debug, PartialEq, Eq)]
pub struct UpdateThingInput {
    pub thing_id: ActionHash,
    pub updated_content: String,
}

/// The outcome of an update: the entity's new view, the address of the new
/// revision record, and the address of the edge that chains it to the entity.
#[derive(Clone, Debug, PartialEq, Eq)]
pub struct ThingUpdate {
    pub thing: Thing,
    pub update_action_hash: ActionHash,
    pub update_link_action_hash: ActionHash,
}

/// The entity view that an update produces: original identity, new content,
/// updated now.
pub open spec fn updated_view(s: StoreView, id: u64, content: Seq<char>) -> ThingView {
    let o = original_thing_view(s, id)->Some_0;
    ThingView { content, updated_at: Some(clock(s) as u64), ..o }
}

/// The store after an update of entity `id`: a new record, then the
/// revision-chain edge from the entity to it.
pub open spec fn after_update(s: StoreView, id: u64, content: Seq<char>) -> StoreView {
    let s1 = with_record(s, content);
    with_link(
        s1,
        new_link(
            s1,
            NodeIdView::Thing(id),
            NodeIdView::Thing(s.records.len() as u64),
            LinkTypes::ThingUpdates,
            Seq::empty(),
        ),
    )
}

/// Writes a new revision of an entity and chains it to the entity. Fails with
/// `NotFound` when the entity's original record is gone, and with
/// `SubstrateError`, before any write, when the store has no room for both writes.
pub fn update_thing(store: &mut Store, input: UpdateThingInput) -> (r: Result<ThingUpdate, GraphError>)
    requires
        store_wf(old(store)@),
    ensures
        store_wf(final(store)@),
        record_of(old(store)@, input.thing_id) is None ==> r == Err::<ThingUpdate, GraphError>(
            GraphError::NotFound,
        ) && final(store)@ == old(store)@,
        record_of(old(store)@, input.thing_id) is Some && !has_room(old(store)@, 2) ==> r == Err::<
            ThingUpdate,
            GraphError,
        >(GraphError::SubstrateError) && final(store)@ == old(store)@,
        record_of(old(store)@, input.thing_id) is Some && has_room(old(store)@, 2) ==> (r matches Ok(
            u,
        ) && u.thing@ == updated_view(old(store)@, input.thing_id, input.updated_content@)
            && u.update_action_hash == old(store)@.records.len()
            && u.update_link_action_hash == old(store)@.links.len())
            && final(store)@ == after_update(old(store)@, input.thing_id, input.updated_content@),
{
    let original = match get_original_thing(store, input.thing_id) {
        Some(o) => o,
        None => return Err(GraphError::NotFound),
    };
    let nr = store.record_count();
    let nl = store.link_count();
    if nr as u64 + nl as u64 > u64::MAX - 2 {
        return Err(GraphError::SubstrateError);
    }
    let content = input.updated_content.clone();
    let new_id = match store.create_entry(input.updated_content) {
        Ok(h) => h,
        Err(e) => return Err(e),
    };
    let ghost s1 = store@;
    let updated_at = nr as u64 + nl as u64;
    let empty: Vec<u8> = Vec::new();
    assert(empty@ =~= Seq::<u8>::empty());
    let link_hash = match store.create_link(NodeId::Thing(input.thing_id), NodeId::Thing(new_id), LinkTypes::ThingUpdates, empty) {
        Ok(h) => h,
        Err(e) => return Err(e),
    };
    Ok(
        ThingUpdate {
            thing: Thing {
                id: input.thing_id,
                content,
                creator: original.creator,
                created_at: original.created_at,
                updated_at: Some(updated_at),
            },
            update_action_hash: new_id,
            update_link_action_hash: link_hash,
        },
    )
}

} // verus!
