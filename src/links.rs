use vstd::prelude::*;
use crate::node::{
    linkable_hash_from_node_id, partition_of, resolvable, ActionHash, GraphError, LinkDirection,
    LinkTypes, NodeId, NodeIdView,
};
use crate::store::{has_room, new_link, record_of, store_wf, with_link, Store, StoreView};
use crate::tag::{
    copy_opt_bytes, derive_link_tag, encode_tag, opt_bytes_view, tag_view, LinkTagContent,
    LinkTagView,
};

verus! {

/// A requested relation from some source node to `node_id`.
#[derive(Clone, Debug, PartialEq, Eq)]
pub struct LinkInput {
    pub direction: LinkDirection,
    pub node_id: NodeId,
    pub tag: Option<Vec<u8>>,
}

pub struct LinkInputView {
    pub direction: LinkDirection,
    pub node_id: NodeIdView,
    pub tag: Option<Seq<u8>>,
}

impl View for LinkInput {
    type V = LinkInputView;

    open spec fn view(&self) -> LinkInputView {
        LinkInputView { direction: self.direction, node_id: self.node_id@, tag: opt_bytes_view(self.tag) }
    }
}

/// A physical edge that was written, with its decoded payload.
#[derive(Clone, Debug, PartialEq, Eq)]
pub struct NodeLinkMeta {
    pub src: NodeId,
    pub dst: NodeId,
    pub meta_tag: LinkTagContent,
    pub create_action_hash: ActionHash,
}

pub struct NodeLinkMetaView {
    pub src: NodeIdView,
    pub dst: NodeIdView,
    pub meta_tag: LinkTagView,
    pub create_action_hash: u64,
}

impl View for NodeLinkMeta {
    type V = NodeLinkMetaView;

    open spec fn view(&self) -> NodeLinkMetaView {
        NodeLinkMetaView {
            src: self.src@,
            dst: self.dst@,
            meta_tag: self.meta_tag@,
            create_action_hash: self.create_action_hash,
        }
    }
}

pub open spec fn metas_view(v: Seq<NodeLinkMeta>) -> Seq<NodeLinkMetaView> {
    v.map_values(|m: NodeLinkMeta| m@)
}

/// A source node and the relations to create from it, or to delete.
#[derive(Clone, Debug, PartialEq, Eq)]
pub struct CreateOrDeleteLinksInput {
    pub src: NodeId,
    pub links: Vec<LinkInput>,
}

pub open spec fn inputs_view(v: Seq<LinkInput>) -> Seq<LinkInputView> {
    v.map_values(|l: LinkInput| l@)
}

/// What a multi-write operation completed before it failed.
#[derive(Clone, Debug, PartialEq, Eq)]
pub struct Partial<T> {
    pub error: GraphError,
    pub completed: Vec<T>,
}

/// One edge to write: base, target, partition and payload.
pub struct PlannedLink {
    pub base: NodeIdView,
    pub target: NodeIdView,
    pub link_type: LinkTypes,
    pub tag: LinkTagView,
}

/// Creation time and creator of `n`, when it is an entity whose record exists.
pub open spec fn thing_meta(s: StoreView, n: NodeIdView) -> (Option<u64>, Option<u64>) {
    match n {
        NodeIdView::Thing(h) => match record_of(s, h) {
            Some(r) => (Some(r.timestamp), Some(r.author)),
            None => (None, None),
        },
        _ => (None, None),
    }
}

pub open spec fn writes_for(d: LinkDirection) -> int {
    if d == LinkDirection::Bidirectional {
        2
    } else {
        1
    }
}

/// Why relation `link` from `src` cannot be created, if it cannot: a node
/// that does not resolve, an entity (at either end) whose record is gone, or a
/// store without room for all of the relation's writes.
pub open spec fn link_error(s: StoreView, src: NodeIdView, link: LinkInputView) -> Option<GraphError> {
    if !resolvable(src) || !resolvable(link.node_id) {
        Some(GraphError::InvariantViolation)
    } else if link.node_id matches NodeIdView::Thing(t) && record_of(s, t) is None {
        Some(GraphError::NotFound)
    } else if src matches NodeIdView::Thing(h) && record_of(s, h) is None {
        Some(GraphError::NotFound)
    } else if !has_room(s, writes_for(link.direction)) {
        Some(GraphError::SubstrateError)
    } else {
        None
    }
}

/// The edges that relation `link` from `src` writes, in order. `To` writes
/// `src -> node`; `From` writes `node -> src`; `Bidirectional` writes the
/// reverse edge `node -> src` first and then the forward edge, whose payload
/// names the reverse edge's address. Each edge goes in the partition of its
/// target, and its payload names that target, with creation metadata when it
/// is an entity.
pub open spec fn link_plan(s: StoreView, src: NodeIdView, link: LinkInputView) -> Seq<PlannedLink> {
    let node = link.node_id;
    let tm = thing_meta(s, node);
    let sm = thing_meta(s, src);
    let forward = |back: Option<u64>|
        PlannedLink {
            base: src,
            target: node,
            link_type: partition_of(node),
            tag: tag_view(link.tag, back, node, tm.0, tm.1),
        };
    let reverse = PlannedLink {
        base: node,
        target: src,
        link_type: partition_of(src),
        tag: tag_view(link.tag, None, src, sm.0, sm.1),
    };
    match link.direction {
        LinkDirection::To => seq![forward(None)],
        LinkDirection::From => seq![reverse],
        LinkDirection::Bidirectional => seq![reverse, forward(Some(s.links.len() as u64))],
    }
}

/// The store after writing the planned edges in order.
pub open spec fn apply_plan(s: StoreView, plan: Seq<PlannedLink>) -> StoreView
    decreases plan.len(),
{
    if plan.len() == 0 {
        s
    } else {
        let s1 = apply_plan(s, plan.drop_last());
        let e = plan.last();
        with_link(s1, new_link(s1, e.base, e.target, e.link_type, encode_tag(e.tag)))
    }
}

/// The reports of the planned edges once written from `s`, last written
/// first: for a bidirectional relation, the forward edge and then its backlink.
pub open spec fn plan_metas(s: StoreView, plan: Seq<PlannedLink>) -> Seq<NodeLinkMetaView> {
    Seq::new(
        plan.len(),
        |k: int|
            NodeLinkMetaView {
                src: plan[plan.len() - 1 - k].base,
                dst: plan[plan.len() - 1 - k].target,
                meta_tag: plan[plan.len() - 1 - k].tag,
                create_action_hash: (s.links.len() + plan.len() - 1 - k) as u64,
            },
    )
}

/// The store, the reports and the error, if any, after creating `inputs` from
/// `src` in order, stopping at the first that fails.
pub open spec fn links_outcome(s: StoreView, src: NodeIdView, inputs: Seq<LinkInputView>) -> (
    StoreView,
    Seq<NodeLinkMetaView>,
    Option<GraphError>,
)
    decreases inputs.len(),
{
    if inputs.len() == 0 {
        (s, Seq::empty(), None)
    } else {
        let prev = links_outcome(s, src, inputs.drop_last());
        if prev.2 is Some {
            prev
        } else {
            match link_error(prev.0, src, inputs.last()) {
                Some(e) => (prev.0, prev.1, Some(e)),
                None => {
                    let plan = link_plan(prev.0, src, inputs.last());
                    (apply_plan(prev.0, plan), prev.1 + plan_metas(prev.0, plan), None)
                },
            }
        }
    }
}

fn node_meta(store: &Store, n: &NodeId) -> (r: Result<(Option<u64>, Option<u64>), GraphError>)
    ensures
        (n@ matches NodeIdView::Thing(h) && record_of(store@, h) is None) ==> r == Err::<
            (Option<u64>, Option<u64>),
            GraphError,
        >(GraphError::NotFound),
        !(n@ matches NodeIdView::Thing(h) && record_of(store@, h) is None) ==> r == Ok::<
            (Option<u64>, Option<u64>),
            GraphError,
        >(thing_meta(store@, n@)),
{
    match n {
        NodeId::Thing(h) => match store.get(*h) {
            Some(rec) => Ok((Some(rec.timestamp), Some(rec.author))),
            None => Err(GraphError::NotFound),
        },
        _ => Ok((None, None)),
    }
}

/// Creates one relation from `src`; see [`link_plan`] for the edges written.
/// Either all of its edges are written or none. The result reports the edges
/// as [`plan_metas`] orders them: the forward edge first, then its backlink.
pub fn create_link_from_node_by_id(store: &mut Store, src: &NodeId, link: &LinkInput) -> (r: Result<
    Vec<NodeLinkMeta>,
    GraphError,
>)
    requires
        store_wf(old(store)@),
    ensures
        store_wf(final(store)@),
        match link_error(old(store)@, src@, link@) {
            Some(e) => r == Err::<Vec<NodeLinkMeta>, GraphError>(e) && final(store)@ == old(store)@,
            None => (r matches Ok(v) && metas_view(v@) == plan_metas(
                old(store)@,
                link_plan(old(store)@, src@, link@),
            )) && final(store)@ == apply_plan(old(store)@, link_plan(old(store)@, src@, link@)),
        },
{
    let ghost s0 = store@;
    let ghost plan = link_plan(s0, src@, link@);
    let base = match linkable_hash_from_node_id(src) {
        Ok(b) => b,
        Err(e) => return Err(e),
    };
    let target = match linkable_hash_from_node_id(&link.node_id) {
        Ok(t) => t,
        Err(e) => return Err(e),
    };
    let tm = match node_meta(store, &link.node_id) {
        Ok(m) => m,
        Err(e) => return Err(e),
    };
    let sm = match node_meta(store, src) {
        Ok(m) => m,
        Err(e) => return Err(e),
    };
    let writes: u64 = match link.direction {
        LinkDirection::Bidirectional => 2,
        _ => 1,
    };
    let used = store.record_count() as u64 + store.link_count() as u64;
    if used > u64::MAX - writes {
        return Err(GraphError::SubstrateError);
    }
    let first_hash = store.link_count() as u64;
    let mut out: Vec<NodeLinkMeta> = Vec::new();
    match link.direction {
        LinkDirection::To => {
            let (bytes, content) = match derive_link_tag(
                copy_opt_bytes(&link.tag),
                None,
                link.node_id.duplicate(),
                tm.0,
                tm.1,
            ) {
                Ok(x) => x,
                Err(e) => return Err(e),
            };
            let h = match store.create_link(base.duplicate(), target.duplicate(), link.node_id.partition(), bytes) {
                Ok(h) => h,
                Err(e) => return Err(e),
            };
            out.push(NodeLinkMeta { src: base, dst: target, meta_tag: content, create_action_hash: h });
            assert(plan.drop_last() =~= Seq::<PlannedLink>::empty());
            assert(apply_plan(s0, plan.drop_last()) == s0);
        },
        LinkDirection::From => {
            let (bytes, content) = match derive_link_tag(
                copy_opt_bytes(&link.tag),
                None,
                src.duplicate(),
                sm.0,
                sm.1,
            ) {
                Ok(x) => x,
                Err(e) => return Err(e),
            };
            let h = match store.create_link(target.duplicate(), base.duplicate(), src.partition(), bytes) {
                Ok(h) => h,
                Err(e) => return Err(e),
            };
            out.push(NodeLinkMeta { src: target, dst: base, meta_tag: content, create_action_hash: h });
            assert(plan.drop_last() =~= Seq::<PlannedLink>::empty());
            assert(apply_plan(s0, plan.drop_last()) == s0);
        },
        LinkDirection::Bidirectional => {
            let (back_bytes, back_content) = match derive_link_tag(
                copy_opt_bytes(&link.tag),
                None,
                src.duplicate(),
                sm.0,
                sm.1,
            ) {
                Ok(x) => x,
                Err(e) => return Err(e),
            };
            let back_hash = match store.create_link(target.duplicate(), base.duplicate(), src.partition(), back_bytes) {
                Ok(h) => h,
                Err(e) => return Err(e),
            };
            let ghost s1 = store@;
            assert(plan.drop_last().drop_last() =~= Seq::<PlannedLink>::empty());
            assert(apply_plan(s0, plan.drop_last().drop_last()) == s0);
            assert(plan.drop_last().last() == plan[0]);
            assert(apply_plan(s0, plan.drop_last()) == s1);
            let (bytes, content) = match derive_link_tag(
                copy_opt_bytes(&link.tag),
                Some(back_hash),
                link.node_id.duplicate(),
                tm.0,
                tm.1,
            ) {
                Ok(x) => x,
                Err(e) => return Err(e),
            };
            let h = match store.create_link(base.duplicate(), target.duplicate(), link.node_id.partition(), bytes) {
                Ok(h) => h,
                Err(e) => return Err(e),
            };
            out.push(NodeLinkMeta { src: base.duplicate(), dst: target.duplicate(), meta_tag: content, create_action_hash: h });
            out.push(NodeLinkMeta { src: target, dst: base, meta_tag: back_content, create_action_hash: back_hash });
        },
    }
    assert(metas_view(out@) =~= plan_metas(s0, plan));
    Ok(out)
}

/// Once creating a prefix of the inputs has failed, the rest changes nothing.
proof fn lemma_outcome_stops(s: StoreView, src: NodeIdView, ins: Seq<LinkInputView>, k: int)
    requires
        0 <= k <= ins.len(),
        links_outcome(s, src, ins.take(k)).2 is Some,
    ensures
        links_outcome(s, src, ins) == links_outcome(s, src, ins.take(k)),
    decreases ins.len() - k,
{
    if k < ins.len() {
        assert(ins.take(k + 1).drop_last() =~= ins.take(k));
        lemma_outcome_stops(s, src, ins, k + 1);
    } else {
        assert(ins.take(k) =~= ins);
    }
}

/// Creates each relation of `input` in order. Stops at the first that fails
/// and reports the edges written before it.
pub fn create_links_from_node(store: &mut Store, input: &CreateOrDeleteLinksInput) -> (r: Result<
    Vec<NodeLinkMeta>,
    Partial<NodeLinkMeta>,
>)
    requires
        store_wf(old(store)@),
    ensures
        store_wf(final(store)@),
        ({
            let o = links_outcome(old(store)@, input.src@, inputs_view(input.links@));
            &&& final(store)@ == o.0
            &&& match r {
                Ok(v) => o.2 is None && metas_view(v@) == o.1,
                Err(p) => o.2 == Some(p.error) && metas_view(p.completed@) == o.1,
            }
        }),
{
    let ghost s0 = store@;
    let ghost ins = inputs_view(input.links@);
    let mut done: Vec<NodeLinkMeta> = Vec::new();
    let mut i: usize = 0;
    while i < input.links.len()
        invariant
            s0 == old(store)@,
            store_wf(store@),
            i <= input.links@.len(),
            ins == inputs_view(input.links@),
            links_outcome(s0, input.src@, ins.take(i as int)).0 == store@,
            links_outcome(s0, input.src@, ins.take(i as int)).1 == metas_view(done@),
            links_outcome(s0, input.src@, ins.take(i as int)).2 is None,
        decreases input.links@.len() - i,
    {
        assert(ins.take(i + 1).drop_last() =~= ins.take(i as int));
        assert(ins.take(i + 1).last() == input.links@[i as int]@);
        let ghost before = metas_view(done@);
        match create_link_from_node_by_id(store, &input.src, &input.links[i]) {
            Ok(mut made) => {
                let ghost m = metas_view(made@);
                done.append(&mut made);
                assert(metas_view(done@) =~= before + m);
            },
            Err(e) => {
                proof {
                    let prev = links_outcome(s0, input.src@, ins.take(i as int));
                    assert(links_outcome(s0, input.src@, ins.take(i + 1)) == (prev.0, prev.1, Some(e)));
                    lemma_outcome_stops(s0, input.src@, ins, i + 1);
                }
                return Err(Partial { error: e, completed: done });
            },
        }
        i = i + 1;
    }
    assert(ins.take(i as int) =~= ins);
    Ok(done)
}

} // verus!
