use vstd::prelude::*;
use crate::node::{linkable_hash_from_node_id, resolvable, AgentPubKey, ActionHash, GraphError, LinkTypes, NodeId, NodeIdView};
use crate::store::{LinkView, Store, StoreView};
use crate::tag::{decode_tag, deserialize_link_tag, LinkTagContent, LinkTagView};
use crate::things::{get_latest_thing, latest_thing_view, things_view, Thing, ThingView};

verus! {

/// The identities linked from `base`, with their payloads, in the order the
/// edges were written. Edges whose tag does not decode are skipped.
pub open spec fn linked_agents_view(links: Seq<LinkView>, base: NodeIdView) -> Seq<(u64, LinkTagView)>
    decreases links.len(),
{
    if links.len() == 0 {
        Seq::empty()
    } else {
        let prev = linked_agents_view(links.drop_last(), base);
        let l = links.last();
        if l.live && l.base == base && l.link_type == LinkTypes::ToAgent {
            match (l.target, decode_tag(l.tag)) {
                (NodeIdView::Agent(a), Some(p)) => prev.push((a, p)),
                _ => prev,
            }
        } else {
            prev
        }
    }
}

/// The anchor labels linked from `base`, read from the payloads, with the
/// payloads. Edges whose tag does not decode or names no anchor are skipped.
pub open spec fn linked_anchors_view(links: Seq<LinkView>, base: NodeIdView) -> Seq<(Seq<char>, LinkTagView)>
    decreases links.len(),
{
    if links.len() == 0 {
        Seq::empty()
    } else {
        let prev = linked_anchors_view(links.drop_last(), base);
        let l = links.last();
        if l.live && l.base == base && l.link_type == LinkTypes::ToAnchor {
            match decode_tag(l.tag) {
                Some(p) => match p.target_node_id {
                    NodeIdView::Anchor(a) => prev.push((a, p)),
                    _ => prev,
                },
                None => prev,
            }
        } else {
            prev
        }
    }
}

/// The entity ids linked from `base`, with their payloads. Edges whose tag
/// does not decode are skipped.
pub open spec fn linked_thing_ids_view(links: Seq<LinkView>, base: NodeIdView) -> Seq<(u64, LinkTagView)>
    decreases links.len(),
{
    if links.len() == 0 {
        Seq::empty()
    } else {
        let prev = linked_thing_ids_view(links.drop_last(), base);
        let l = links.last();
        if l.live && l.base == base && l.link_type == LinkTypes::ToThing {
            match (l.target, decode_tag(l.tag)) {
                (NodeIdView::Thing(h), Some(p)) => prev.push((h, p)),
                _ => prev,
            }
        } else {
            prev
        }
    }
}

/// The latest view of each entity linked from `base` whose original exists.
pub open spec fn linked_things_view(s: StoreView, links: Seq<LinkView>, base: NodeIdView) -> Seq<ThingView>
    decreases links.len(),
{
    if links.len() == 0 {
        Seq::empty()
    } else {
        let prev = linked_things_view(s, links.drop_last(), base);
        let l = links.last();
        if l.live && l.base == base && l.link_type == LinkTypes::ToThing {
            match l.target {
                NodeIdView::Thing(h) => match latest_thing_view(s, h) {
                    Some(t) => prev.push(t),
                    None => prev,
                },
                _ => prev,
            }
        } else {
            prev
        }
    }
}

pub open spec fn pairs_view(v: Seq<(u64, LinkTagContent)>) -> Seq<(u64, LinkTagView)> {
    v.map_values(|x: (u64, LinkTagContent)| (x.0, x.1@))
}

pub open spec fn anchor_pairs_view(v: Seq<(String, LinkTagContent)>) -> Seq<(Seq<char>, LinkTagView)> {
    v.map_values(|x: (String, LinkTagContent)| (x.0@, x.1@))
}

/// Identities linked from `node_id`. Fails only when the node does not resolve.
pub fn get_linked_agents(store: &Store, node_id: &NodeId) -> (r: Result<Vec<(AgentPubKey, LinkTagContent)>, GraphError>)
    ensures
        resolvable(node_id@) ==> (r matches Ok(v) && pairs_view(v@) == linked_agents_view(store@.links, node_id@)),
        !resolvable(node_id@) ==> r is Err && r->Err_0 == GraphError::InvariantViolation,
{
    let base = match linkable_hash_from_node_id(node_id) {
        Ok(b) => b,
        Err(e) => return Err(e),
    };
    let mut out: Vec<(AgentPubKey, LinkTagContent)> = Vec::new();
    let n = store.link_count();
    let mut i: usize = 0;
    while i < n
        invariant
            n == store@.links.len(),
            i <= n,
            base@ == node_id@,
            pairs_view(out@) == linked_agents_view(store@.links.take(i as int), base@),
        decreases n - i,
    {
        let l = store.link_at(i as u64).unwrap();
        let ghost links = store@.links;
        assert(links.take(i + 1).drop_last() =~= links.take(i as int));
        assert(links.take(i + 1).last() == l@);
        if l.live && l.link_type == LinkTypes::ToAgent && l.base.same_as(&base) {
            if let NodeId::Agent(a) = l.target {
                if let Ok(c) = deserialize_link_tag(&l.tag) {
                    let ghost before = pairs_view(out@);
                    out.push((a, c));
                    assert(pairs_view(out@) =~= before.push((a, c@)));
                }
            }
        }
        i = i + 1;
    }
    assert(store@.links.take(n as int) =~= store@.links);
    Ok(out)
}

/// Anchor labels linked from `node_id`. Fails only when the node does not resolve.
pub fn get_linked_anchors(store: &Store, node_id: &NodeId) -> (r: Result<Vec<(String, LinkTagContent)>, GraphError>)
    ensures
        resolvable(node_id@) ==> (r matches Ok(v) && anchor_pairs_view(v@) == linked_anchors_view(store@.links, node_id@)),
        !resolvable(node_id@) ==> r is Err && r->Err_0 == GraphError::InvariantViolation,
{
    let base = match linkable_hash_from_node_id(node_id) {
        Ok(b) => b,
        Err(e) => return Err(e),
    };
    let mut out: Vec<(String, LinkTagContent)> = Vec::new();
    let n = store.link_count();
    let mut i: usize = 0;
    while i < n
        invariant
            n == store@.links.len(),
            i <= n,
            base@ == node_id@,
            anchor_pairs_view(out@) == linked_anchors_view(store@.links.take(i as int), base@),
        decreases n - i,
    {
        let l = store.link_at(i as u64).unwrap();
        let ghost links = store@.links;
        assert(links.take(i + 1).drop_last() =~= links.take(i as int));
        assert(links.take(i + 1).last() == l@);
        if l.live && l.link_type == LinkTypes::ToAnchor && l.base.same_as(&base) {
            if let Ok(c) = deserialize_link_tag(&l.tag) {
                let label = match &c.target_node_id {
                    NodeId::Anchor(a) => Some(a.clone()),
                    _ => None,
                };
                if let Some(a) = label {
                    let ghost before = anchor_pairs_view(out@);
                    out.push((a, c));
                    assert(anchor_pairs_view(out@) =~= before.push((a@, c@)));
                }
            }
        }
        i = i + 1;
    }
    assert(store@.links.take(n as int) =~= store@.links);
    Ok(out)
}

/// Entity ids linked from `node_id`, with the link payloads. Fails only when
/// the node does not resolve.
pub fn get_linked_thing_ids(store: &Store, node_id: &NodeId) -> (r: Result<Vec<(ActionHash, LinkTagContent)>, GraphError>)
    ensures
        resolvable(node_id@) ==> (r matches Ok(v) && pairs_view(v@) == linked_thing_ids_view(store@.links, node_id@)),
        !resolvable(node_id@) ==> r is Err && r->Err_0 == GraphError::InvariantViolation,
{
    let base = match linkable_hash_from_node_id(node_id) {
        Ok(b) => b,
        Err(e) => return Err(e),
    };
    let mut out: Vec<(ActionHash, LinkTagContent)> = Vec::new();
    let n = store.link_count();
    let mut i: usize = 0;
    while i < n
        invariant
            n == store@.links.len(),
            i <= n,
            base@ == node_id@,
            pairs_view(out@) == linked_thing_ids_view(store@.links.take(i as int), base@),
        decreases n - i,
    {
        let l = store.link_at(i as u64).unwrap();
        let ghost links = store@.links;
        assert(links.take(i + 1).drop_last() =~= links.take(i as int));
        assert(links.take(i + 1).last() == l@);
        if l.live && l.link_type == LinkTypes::ToThing && l.base.same_as(&base) {
            if let NodeId::Thing(h) = l.target {
                if let Ok(c) = deserialize_link_tag(&l.tag) {
                    let ghost before = pairs_view(out@);
                    out.push((h, c));
                    assert(pairs_view(out@) =~= before.push((h, c@)));
                }
            }
        }
        i = i + 1;
    }
    assert(store@.links.take(n as int) =~= store@.links);
    Ok(out)
}

/// The latest view of each entity linked from `node_id`; entities whose
/// original is gone are left out. Fails only when the node does not resolve.
pub fn get_linked_things(store: &Store, node_id: &NodeId) -> (r: Result<Vec<Thing>, GraphError>)
    ensures
        resolvable(node_id@) ==> (r matches Ok(v) && things_view(v@) == linked_things_view(store@, store@.links, node_id@)),
        !resolvable(node_id@) ==> r is Err && r->Err_0 == GraphError::InvariantViolation,
{
    let base = match linkable_hash_from_node_id(node_id) {
        Ok(b) => b,
        Err(e) => return Err(e),
    };
    let mut out: Vec<Thing> = Vec::new();
    let n = store.link_count();
    let mut i: usize = 0;
    while i < n
        invariant
            n == store@.links.len(),
            i <= n,
            base@ == node_id@,
            things_view(out@) == linked_things_view(store@, store@.links.take(i as int), base@),
        decreases n - i,
    {
        let l = store.link_at(i as u64).unwrap();
        let ghost links = store@.links;
        assert(links.take(i + 1).drop_last() =~= links.take(i as int));
        assert(links.take(i + 1).last() == l@);
        if l.live && l.link_type == LinkTypes::ToThing && l.base.same_as(&base) {
            if let NodeId::Thing(h) = l.target {
                if let Some(t) = get_latest_thing(store, h) {
                    let ghost before = things_view(out@);
                    out.push(t);
                    assert(things_view(out@) =~= before.push(t@));
                }
            }
        }
        i = i + 1;
    }
    assert(store@.links.take(n as int) =~= store@.links);
    Ok(out)
}

/// A linked node with the payload of the edge that links it.
#[derive(Clone, Debug, PartialEq, Eq)]
pub struct NodeIdAndMetaTag {
    pub node_id: NodeId,
    pub meta_tag: LinkTagContent,
}

pub open spec fn node_tags_view(v: Seq<NodeIdAndMetaTag>) -> Seq<(NodeIdView, LinkTagView)> {
    v.map_values(|x: NodeIdAndMetaTag| (x.node_id@, x.meta_tag@))
}

/// The content of a node: an identity key, an anchor label, or an entity's
/// latest view.
#[derive(Clone, Debug, PartialEq, Eq)]
pub enum NodeContent {
    Agent(AgentPubKey),
    Anchor(String),
    Thing(Thing),
}

pub enum NodeContentView {
    Agent(u64),
    Anchor(Seq<char>),
    Thing(ThingView),
}

impl View for NodeContent {
    type V = NodeContentView;

    open spec fn view(&self) -> NodeContentView {
        match self {
            NodeContent::Agent(a) => NodeContentView::Agent(*a),
            NodeContent::Anchor(s) => NodeContentView::Anchor(s@),
            NodeContent::Thing(t) => NodeContentView::Thing(t@),
        }
    }
}

pub open spec fn contents_view(v: Seq<NodeContent>) -> Seq<NodeContentView> {
    v.map_values(|x: NodeContent| x@)
}

/// Every node linked from `base`: entities, then anchors, then identities.
pub open spec fn all_linked_view(links: Seq<LinkView>, base: NodeIdView) -> Seq<(NodeIdView, LinkTagView)> {
    linked_thing_ids_view(links, base).map_values(|x: (u64, LinkTagView)| (NodeIdView::Thing(x.0), x.1))
        + linked_anchors_view(links, base).map_values(|x: (Seq<char>, LinkTagView)| (NodeIdView::Anchor(x.0), x.1))
        + linked_agents_view(links, base).map_values(|x: (u64, LinkTagView)| (NodeIdView::Agent(x.0), x.1))
}

/// The content of every node linked from `base`: entities (latest view), then
/// anchors, then identities.
pub open spec fn all_linked_nodes_view(s: StoreView, base: NodeIdView) -> Seq<NodeContentView> {
    linked_things_view(s, s.links, base).map_values(|t: ThingView| NodeContentView::Thing(t))
        + linked_anchors_view(s.links, base).map_values(|x: (Seq<char>, LinkTagView)| NodeContentView::Anchor(x.0))
        + linked_agents_view(s.links, base).map_values(|x: (u64, LinkTagView)| NodeContentView::Agent(x.0))
}

/// Every node linked from `node_id` with its edge payload: entities, then
/// anchors, then identities. Fails only when the node does not resolve.
pub fn get_all_linked_node_ids(store: &Store, node_id: &NodeId) -> (r: Result<Vec<NodeIdAndMetaTag>, GraphError>)
    ensures
        resolvable(node_id@) ==> (r matches Ok(v) && node_tags_view(v@) == all_linked_view(store@.links, node_id@)),
        !resolvable(node_id@) ==> r is Err && r->Err_0 == GraphError::InvariantViolation,
{
    let things = match get_linked_thing_ids(store, node_id) {
        Ok(v) => v,
        Err(e) => return Err(e),
    };
    let anchors = match get_linked_anchors(store, node_id) {
        Ok(v) => v,
        Err(e) => return Err(e),
    };
    let agents = match get_linked_agents(store, node_id) {
        Ok(v) => v,
        Err(e) => return Err(e),
    };
    let ghost tv = pairs_view(things@).map_values(|x: (u64, LinkTagView)| (NodeIdView::Thing(x.0), x.1));
    let ghost nv = anchor_pairs_view(anchors@).map_values(|x: (Seq<char>, LinkTagView)| (NodeIdView::Anchor(x.0), x.1));
    let ghost av = pairs_view(agents@).map_values(|x: (u64, LinkTagView)| (NodeIdView::Agent(x.0), x.1));
    let mut out: Vec<NodeIdAndMetaTag> = Vec::new();
    let mut i: usize = 0;
    while i < things.len()
        invariant
            i <= things@.len(),
            tv == pairs_view(things@).map_values(|x: (u64, LinkTagView)| (NodeIdView::Thing(x.0), x.1)),
            node_tags_view(out@) == tv.take(i as int),
        decreases things@.len() - i,
    {
        let ghost before = node_tags_view(out@);
        out.push(NodeIdAndMetaTag { node_id: NodeId::Thing(things[i].0), meta_tag: things[i].1.duplicate() });
        assert(pairs_view(things@)[i as int] == (things@[i as int].0, things@[i as int].1@));
        assert(node_tags_view(out@) =~= before.push(tv[i as int]));
        assert(tv.take(i + 1) =~= tv.take(i as int).push(tv[i as int]));
        i = i + 1;
    }
    assert(tv.take(i as int) =~= tv);
    let mut j: usize = 0;
    while j < anchors.len()
        invariant
            j <= anchors@.len(),
            nv == anchor_pairs_view(anchors@).map_values(|x: (Seq<char>, LinkTagView)| (NodeIdView::Anchor(x.0), x.1)),
            node_tags_view(out@) == tv + nv.take(j as int),
        decreases anchors@.len() - j,
    {
        let ghost before = node_tags_view(out@);
        out.push(NodeIdAndMetaTag { node_id: NodeId::Anchor(anchors[j].0.clone()), meta_tag: anchors[j].1.duplicate() });
        assert(anchor_pairs_view(anchors@)[j as int] == (anchors@[j as int].0@, anchors@[j as int].1@));
        assert(node_tags_view(out@) =~= before.push(nv[j as int]));
        assert(tv + nv.take(j + 1) =~= (tv + nv.take(j as int)).push(nv[j as int]));
        j = j + 1;
    }
    assert(nv.take(j as int) =~= nv);
    let mut k: usize = 0;
    while k < agents.len()
        invariant
            k <= agents@.len(),
            av == pairs_view(agents@).map_values(|x: (u64, LinkTagView)| (NodeIdView::Agent(x.0), x.1)),
            node_tags_view(out@) == tv + nv + av.take(k as int),
        decreases agents@.len() - k,
    {
        let ghost before = node_tags_view(out@);
        out.push(NodeIdAndMetaTag { node_id: NodeId::Agent(agents[k].0), meta_tag: agents[k].1.duplicate() });
        assert(pairs_view(agents@)[k as int] == (agents@[k as int].0, agents@[k as int].1@));
        assert(node_tags_view(out@) =~= before.push(av[k as int]));
        assert(tv + nv + av.take(k + 1) =~= (tv + nv + av.take(k as int)).push(av[k as int]));
        k = k + 1;
    }
    assert(av.take(k as int) =~= av);
    Ok(out)
}

/// The content of every node linked from `node_id`: entities (latest view),
/// then anchors, then identities. Fails only when the node does not resolve.
pub fn get_all_linked_nodes(store: &Store, node_id: &NodeId) -> (r: Result<Vec<NodeContent>, GraphError>)
    ensures
        resolvable(node_id@) ==> (r matches Ok(v) && contents_view(v@) == all_linked_nodes_view(store@, node_id@)),
        !resolvable(node_id@) ==> r is Err && r->Err_0 == GraphError::InvariantViolation,
{
    let things = match get_linked_things(store, node_id) {
        Ok(v) => v,
        Err(e) => return Err(e),
    };
    let anchors = match get_linked_anchors(store, node_id) {
        Ok(v) => v,
        Err(e) => return Err(e),
    };
    let agents = match get_linked_agents(store, node_id) {
        Ok(v) => v,
        Err(e) => return Err(e),
    };
    let ghost tv = things_view(things@).map_values(|t: ThingView| NodeContentView::Thing(t));
    let ghost nv = anchor_pairs_view(anchors@).map_values(|x: (Seq<char>, LinkTagView)| NodeContentView::Anchor(x.0));
    let ghost av = pairs_view(agents@).map_values(|x: (u64, LinkTagView)| NodeContentView::Agent(x.0));
    let mut out: Vec<NodeContent> = Vec::new();
    let mut i: usize = 0;
    while i < things.len()
        invariant
            i <= things@.len(),
            tv == things_view(things@).map_values(|t: ThingView| NodeContentView::Thing(t)),
            contents_view(out@) == tv.take(i as int),
        decreases things@.len() - i,
    {
        let ghost before = contents_view(out@);
        out.push(NodeContent::Thing(things[i].duplicate()));
        assert(things_view(things@)[i as int] == things@[i as int]@);
        assert(contents_view(out@) =~= before.push(tv[i as int]));
        assert(tv.take(i + 1) =~= tv.take(i as int).push(tv[i as int]));
        i = i + 1;
    }
    assert(tv.take(i as int) =~= tv);
    let mut j: usize = 0;
    while j < anchors.len()
        invariant
            j <= anchors@.len(),
            nv == anchor_pairs_view(anchors@).map_values(|x: (Seq<char>, LinkTagView)| NodeContentView::Anchor(x.0)),
            contents_view(out@) == tv + nv.take(j as int),
        decreases anchors@.len() - j,
    {
        let ghost before = contents_view(out@);
        out.push(NodeContent::Anchor(anchors[j].0.clone()));
        assert(anchor_pairs_view(anchors@)[j as int] == (anchors@[j as int].0@, anchors@[j as int].1@));
        assert(contents_view(out@) =~= before.push(nv[j as int]));
        assert(tv + nv.take(j + 1) =~= (tv + nv.take(j as int)).push(nv[j as int]));
        j = j + 1;
    }
    assert(nv.take(j as int) =~= nv);
    let mut k: usize = 0;
    while k < agents.len()
        invariant
            k <= agents@.len(),
            av == pairs_view(agents@).map_values(|x: (u64, LinkTagView)| NodeContentView::Agent(x.0)),
            contents_view(out@) == tv + nv + av.take(k as int),
        decreases agents@.len() - k,
    {
        let ghost before = contents_view(out@);
        out.push(NodeContent::Agent(agents[k].0));
        assert(pairs_view(agents@)[k as int] == (agents@[k as int].0, agents@[k as int].1@));
        assert(contents_view(out@) =~= before.push(av[k as int]));
        assert(tv + nv + av.take(k + 1) =~= (tv + nv + av.take(k as int)).push(av[k as int]));
        k = k + 1;
    }
    assert(av.take(k as int) =~= av);
    Ok(out)
}

/// A node's content together with the nodes linked from it.
#[derive(Clone, Debug, PartialEq, Eq)]
pub struct NodeAndLinkedIds {
    pub content: NodeContent,
    pub linked_node_ids: Vec<NodeIdAndMetaTag>,
}

pub struct NodeAndLinkedView {
    pub content: NodeContentView,
    pub linked_node_ids: Seq<(NodeIdView, LinkTagView)>,
}

impl View for NodeAndLinkedIds {
    type V = NodeAndLinkedView;

    open spec fn view(&self) -> NodeAndLinkedView {
        NodeAndLinkedView { content: self.content@, linked_node_ids: node_tags_view(self.linked_node_ids@) }
    }
}

/// The content of a node: identities and anchors are their own content; an
/// entity is its latest view, absent when its original is gone.
pub open spec fn node_content_view(s: StoreView, n: NodeIdView) -> Option<NodeContentView> {
    match n {
        NodeIdView::Agent(a) => Some(NodeContentView::Agent(a)),
        NodeIdView::Anchor(l) => Some(NodeContentView::Anchor(l)),
        NodeIdView::Thing(h) => match latest_thing_view(s, h) {
            Some(t) => Some(NodeContentView::Thing(t)),
            None => None,
        },
    }
}

/// A node with the nodes linked from it, or `None` for an entity that is gone.
pub open spec fn node_and_linked_view(s: StoreView, n: NodeIdView) -> Option<NodeAndLinkedView> {
    match node_content_view(s, n) {
        Some(c) => Some(NodeAndLinkedView { content: c, linked_node_ids: all_linked_view(s.links, n) }),
        None => None,
    }
}

/// A node's content with every node linked from it; `None` for an entity
/// whose original is gone. Fails only when the node does not resolve.
pub fn get_node_and_linked_node_ids(store: &Store, node_id: &NodeId) -> (r: Result<Option<NodeAndLinkedIds>, GraphError>)
    ensures
        !resolvable(node_id@) ==> r is Err && r->Err_0 == GraphError::InvariantViolation,
        resolvable(node_id@) ==> (r matches Ok(o) && match node_and_linked_view(store@, node_id@) {
            Some(v) => o matches Some(x) && x@ == v,
            None => o is None,
        }),
{
    if let NodeId::Anchor(l) = node_id {
        if l.as_str().is_empty() {
            return Err(GraphError::InvariantViolation);
        }
    }
    let content = match node_id {
        NodeId::Agent(a) => NodeContent::Agent(*a),
        NodeId::Anchor(l) => NodeContent::Anchor(l.clone()),
        NodeId::Thing(h) => match get_latest_thing(store, *h) {
            Some(t) => NodeContent::Thing(t),
            None => return Ok(None),
        },
    };
    let linked_node_ids = match get_all_linked_node_ids(store, node_id) {
        Ok(v) => v,
        Err(e) => return Err(e),
    };
    Ok(Some(NodeAndLinkedIds { content, linked_node_ids }))
}

/// The nodes of `ns` that exist, each with its linked nodes, in order.
pub open spec fn batch_view(s: StoreView, ns: Seq<NodeIdView>) -> Seq<NodeAndLinkedView>
    decreases ns.len(),
{
    if ns.len() == 0 {
        Seq::empty()
    } else {
        let prev = batch_view(s, ns.drop_last());
        match node_and_linked_view(s, ns.last()) {
            Some(v) => prev.push(v),
            None => prev,
        }
    }
}

pub open spec fn node_ids_view(v: Seq<NodeId>) -> Seq<NodeIdView> {
    v.map_values(|n: NodeId| n@)
}

pub open spec fn all_resolvable(ns: Seq<NodeIdView>) -> bool {
    forall|k: int| 0 <= k < ns.len() ==> resolvable(#[trigger] ns[k])
}

pub open spec fn node_and_linked_views(v: Seq<NodeAndLinkedIds>) -> Seq<NodeAndLinkedView> {
    v.map_values(|x: NodeAndLinkedIds| x@)
}

/// [`get_node_and_linked_node_ids`] for each node of `nodes`, leaving out the
/// entities that are gone. Fails when a node does not resolve.
pub fn batch_get_node_and_linked_node_ids(store: &Store, nodes: &Vec<NodeId>) -> (r: Result<Vec<NodeAndLinkedIds>, GraphError>)
    ensures
        all_resolvable(node_ids_view(nodes@)) ==> (r matches Ok(v) && node_and_linked_views(v@) == batch_view(store@, node_ids_view(nodes@))),
        !all_resolvable(node_ids_view(nodes@)) ==> r is Err && r->Err_0 == GraphError::InvariantViolation,
{
    let ghost ns = node_ids_view(nodes@);
    let mut out: Vec<NodeAndLinkedIds> = Vec::new();
    let mut i: usize = 0;
    while i < nodes.len()
        invariant
            i <= nodes@.len(),
            ns == node_ids_view(nodes@),
            all_resolvable(ns.take(i as int)),
            node_and_linked_views(out@) == batch_view(store@, ns.take(i as int)),
        decreases nodes@.len() - i,
    {
        assert(ns.take(i + 1).drop_last() =~= ns.take(i as int));
        assert(ns.take(i + 1).last() == nodes@[i as int]@);
        match get_node_and_linked_node_ids(store, &nodes[i]) {
            Ok(Some(x)) => {
                let ghost before = node_and_linked_views(out@);
                out.push(x);
                assert(node_and_linked_views(out@) =~= before.push(x@));
            },
            Ok(None) => {},
            Err(e) => {
                assert(!resolvable(ns[i as int]));
                return Err(e);
            },
        }
        assert(all_resolvable(ns.take(i + 1))) by {
            assert forall|k: int| 0 <= k < i + 1 implies resolvable(#[trigger] ns.take(i + 1)[k]) by {
                if k < i {
                    assert(ns.take(i + 1)[k] == ns.take(i as int)[k]);
                }
            }
        }
        i = i + 1;
    }
    assert(ns.take(i as int) =~= ns);
    Ok(out)
}

} // verus!
