use vstd::prelude::*;
use crate::links::{inputs_view, CreateOrDeleteLinksInput, LinkInput, LinkInputView};
use crate::node::{
    linkable_hash_from_node_id, partition_of, resolvable, ActionHash, GraphError, LinkDirection,
    LinkTypes, NodeId, NodeIdView,
};
use crate::store::{store_wf, LinkView, Store, StoreView};
use crate::tag::{copy_opt_bytes, decode_tag, deserialize_link_tag, opt_bytes_view, same_opt_bytes};

verus! {

/// An edge that was deleted: its ends, its caller tag and its address.
#[derive(Clone, Debug, PartialEq, Eq)]
pub struct NodeLink {
    pub src: NodeId,
    pub dst: NodeId,
    pub tag: Option<Vec<u8>>,
    pub create_action_hash: ActionHash,
}

pub struct NodeLinkView {
    pub src: NodeIdView,
    pub dst: NodeIdView,
    pub tag: Option<Seq<u8>>,
    pub create_action_hash: u64,
}

impl View for NodeLink {
    type V = NodeLinkView;

    open spec fn view(&self) -> NodeLinkView {
        NodeLinkView {
            src: self.src@,
            dst: self.dst@,
            tag: opt_bytes_view(self.tag),
            create_action_hash: self.create_action_hash,
        }
    }
}

pub open spec fn removals_view(v: Seq<NodeLink>) -> Seq<NodeLinkView> {
    v.map_values(|x: NodeLink| x@)
}

impl NodeLink {
    /// A copy of this report.
    pub fn duplicate(&self) -> (r: NodeLink)
        ensures
            r@ == self@,
    {
        NodeLink {
            src: self.src.duplicate(),
            dst: self.dst.duplicate(),
            tag: copy_opt_bytes(&self.tag),
            create_action_hash: self.create_action_hash,
        }
    }
}

/// The removals of `rs` with each edge named once, at its first report.
pub open spec fn union_of(rs: Seq<NodeLinkView>) -> Seq<NodeLinkView>
    decreases rs.len(),
{
    if rs.len() == 0 {
        Seq::empty()
    } else {
        let prev = union_of(rs.drop_last());
        if removes(prev, rs.last().create_action_hash as int) {
            prev
        } else {
            prev.push(rs.last())
        }
    }
}

fn names_edge(out: &Vec<NodeLink>, h: ActionHash) -> (r: bool)
    ensures
        r == removes(removals_view(out@), h as int),
{
    let ghost v = removals_view(out@);
    let mut j: usize = 0;
    while j < out.len()
        invariant
            j <= out@.len(),
            v == removals_view(out@),
            forall|k: int| 0 <= k < j ==> (#[trigger] v[k]).create_action_hash != h,
        decreases out@.len() - j,
    {
        if out[j].create_action_hash == h {
            assert(v[j as int].create_action_hash == h);
            return true;
        }
        j = j + 1;
    }
    false
}

/// The removals of `rs`, each edge named once.
pub(crate) fn union_of_removals(rs: &Vec<NodeLink>) -> (r: Vec<NodeLink>)
    ensures
        removals_view(r@) == union_of(removals_view(rs@)),
{
    let ghost all = removals_view(rs@);
    let mut out: Vec<NodeLink> = Vec::new();
    assert(removals_view(out@) =~= union_of(all.take(0)));
    let mut i: usize = 0;
    while i < rs.len()
        invariant
            i <= rs@.len(),
            all == removals_view(rs@),
            removals_view(out@) == union_of(all.take(i as int)),
        decreases rs@.len() - i,
    {
        assert(all.take(i + 1).drop_last() =~= all.take(i as int));
        assert(all.take(i + 1).last() == rs@[i as int]@);
        if !names_edge(&out, rs[i].create_action_hash) {
            let ghost before = removals_view(out@);
            out.push(rs[i].duplicate());
            assert(removals_view(out@) =~= before.push(rs@[i as int]@));
        }
        i = i + 1;
    }
    assert(all.take(i as int) =~= all);
    out
}

/// Why edge `j` of `table` cannot be deleted as a reverse edge, if it cannot:
/// it does not exist, or it belongs to a revision chain.
pub open spec fn backlink_error(table: Seq<LinkView>, j: u64) -> Option<GraphError> {
    if j >= table.len() {
        Some(GraphError::NotFound)
    } else if table[j as int].link_type == LinkTypes::ThingUpdates {
        Some(GraphError::InvariantViolation)
    } else {
        None
    }
}

/// The removals that relation `input` from `src` asks for, among `links` (a
/// prefix of edge table `table`).
/// `From`: every live edge based at the node that points back to `src`.
/// `To` and `Bidirectional`: every live edge from `src` to the node whose
/// caller tag equals the input's, and before it the reverse edge its payload
/// names; every live edge from `src` in the node's partition is decoded. A candidate whose payload does not decode fails with
/// `DecodeError`, in either case; a reverse edge that cannot be deleted with
/// the error [`backlink_error`] gives.
pub open spec fn input_removals(
    links: Seq<LinkView>,
    table: Seq<LinkView>,
    src: NodeIdView,
    input: LinkInputView,
) -> Result<Seq<NodeLinkView>, GraphError>
    decreases links.len(),
{
    if links.len() == 0 {
        Ok(Seq::empty())
    } else {
        match input_removals(links.drop_last(), table, src, input) {
            Err(e) => Err(e),
            Ok(prev) => {
                let l = links.last();
                let idx = (links.len() - 1) as u64;
                let node = input.node_id;
                if input.direction == LinkDirection::From {
                    if l.live && l.base == node && l.link_type == partition_of(src) && l.target
                        == src {
                        match decode_tag(l.tag) {
                            None => Err(GraphError::DecodeError),
                            Some(p) => Ok(
                                prev.push(
                                    NodeLinkView {
                                        src: node,
                                        dst: src,
                                        tag: p.tag,
                                        create_action_hash: idx,
                                    },
                                ),
                            ),
                        }
                    } else {
                        Ok(prev)
                    }
                } else if l.live && l.base == src && l.link_type == partition_of(node) {
                    match decode_tag(l.tag) {
                        None => Err(GraphError::DecodeError),
                        Some(p) => if l.target == node && p.tag == input.tag {
                            let fwd = NodeLinkView {
                                src,
                                dst: node,
                                tag: p.tag,
                                create_action_hash: idx,
                            };
                            match p.backlink_action_hash {
                                Some(j) => match backlink_error(table, j) {
                                    None => Ok(
                                        prev.push(
                                            NodeLinkView {
                                                src: node,
                                                dst: src,
                                                tag: p.tag,
                                                create_action_hash: j,
                                            },
                                        ).push(fwd),
                                    ),
                                    Some(e) => Err(e),
                                },
                                None => Ok(prev.push(fwd)),
                            }
                        } else {
                            Ok(prev)
                        },
                    }
                } else {
                    Ok(prev)
                }
            },
        }
    }
}

/// The removals that deleting `inputs` from `src` performs, in order, or the
/// first error. Nodes that do not resolve fail with `InvariantViolation`.
pub open spec fn unlink_plan(s: StoreView, src: NodeIdView, inputs: Seq<LinkInputView>) -> Result<
    Seq<NodeLinkView>,
    GraphError,
>
    decreases inputs.len(),
{
    if !resolvable(src) {
        Err(GraphError::InvariantViolation)
    } else if inputs.len() == 0 {
        Ok(Seq::empty())
    } else {
        match unlink_plan(s, src, inputs.drop_last()) {
            Err(e) => Err(e),
            Ok(prev) => {
                let x = inputs.last();
                if !resolvable(x.node_id) {
                    Err(GraphError::InvariantViolation)
                } else {
                    match input_removals(s.links, s.links, src, x) {
                        Err(e) => Err(e),
                        Ok(rs) => Ok(prev + rs),
                    }
                }
            },
        }
    }
}

/// Whether some removal of `rs` names edge `i`.
pub open spec fn removes(rs: Seq<NodeLinkView>, i: int) -> bool {
    exists|k: int| 0 <= k < rs.len() && (#[trigger] rs[k]).create_action_hash == i
}

/// The store after deleting every edge that `rs` names.
pub open spec fn without_links(s: StoreView, rs: Seq<NodeLinkView>) -> StoreView {
    StoreView {
        links: Seq::new(
            s.links.len(),
            |i: int| LinkView { live: s.links[i].live && !removes(rs, i), ..s.links[i] },
        ),
        ..s
    }
}

/// Whether edge `h` of `table` exists and can be deleted.
pub open spec fn deletable(table: Seq<LinkView>, h: u64) -> bool {
    h < table.len() && table[h as int].link_type != LinkTypes::ThingUpdates
}

/// Every removal of `rs` names an edge of `s` that can be deleted.
pub open spec fn in_table(s: StoreView, rs: Seq<NodeLinkView>) -> bool {
    forall|k: int| 0 <= k < rs.len() ==> deletable(s.links, (#[trigger] rs[k]).create_action_hash)
}

proof fn lemma_input_removals_in_table(links: Seq<LinkView>, table: Seq<LinkView>, src: NodeIdView, input: LinkInputView)
    requires
        links.len() <= table.len(),
        table.len() <= u64::MAX,
        forall|i: int| 0 <= i < links.len() ==> #[trigger] links[i] == table[i],
    ensures
        input_removals(links, table, src, input) matches Ok(rs) ==> forall|k: int|
            0 <= k < rs.len() ==> deletable(table, (#[trigger] rs[k]).create_action_hash),
    decreases links.len(),
{
    if links.len() > 0 {
        let prefix = links.drop_last();
        assert forall|i: int| 0 <= i < prefix.len() implies #[trigger] prefix[i] == table[i] by {
            assert(prefix[i] == links[i]);
        }
        lemma_input_removals_in_table(prefix, table, src, input);
        assert(links.last() == table[links.len() - 1]);
        if let Ok(rs) = input_removals(links, table, src, input) {
            if let Ok(prev) = input_removals(prefix, table, src, input) {
                let l = links.last();
                assert(partition_of(src) != LinkTypes::ThingUpdates);
                assert(partition_of(input.node_id) != LinkTypes::ThingUpdates);
                assert forall|k: int| 0 <= k < rs.len() implies deletable(table, (#[trigger] rs[k]).create_action_hash) by {
                    if k < prev.len() {
                        assert(rs[k] == prev[k]);
                    }
                }
            }
        }
    }
}

proof fn lemma_input_removals_err(
    links: Seq<LinkView>,
    table: Seq<LinkView>,
    src: NodeIdView,
    input: LinkInputView,
    k: int,
    e: GraphError,
)
    requires
        0 <= k <= links.len(),
        input_removals(links.take(k), table, src, input) == Err::<Seq<NodeLinkView>, GraphError>(e),
    ensures
        input_removals(links, table, src, input) == Err::<Seq<NodeLinkView>, GraphError>(e),
    decreases links.len() - k,
{
    if k < links.len() {
        assert(links.take(k + 1).drop_last() =~= links.take(k));
        lemma_input_removals_err(links, table, src, input, k + 1, e);
    } else {
        assert(links.take(k) =~= links);
    }
}

proof fn lemma_unlink_plan_err(s: StoreView, src: NodeIdView, ins: Seq<LinkInputView>, k: int, e: GraphError)
    requires
        0 <= k <= ins.len(),
        unlink_plan(s, src, ins.take(k)) == Err::<Seq<NodeLinkView>, GraphError>(e),
    ensures
        unlink_plan(s, src, ins) == Err::<Seq<NodeLinkView>, GraphError>(e),
    decreases ins.len() - k,
{
    if k < ins.len() {
        assert(ins.take(k + 1).drop_last() =~= ins.take(k));
        lemma_unlink_plan_err(s, src, ins, k + 1, e);
    } else {
        assert(ins.take(k) =~= ins);
    }
}

/// Whether edge `j` can be deleted as a reverse edge; see [`backlink_error`].
pub(crate) fn check_backlink(store: &Store, j: ActionHash) -> (r: Result<(), GraphError>)
    ensures
        match backlink_error(store@.links, j) {
            Some(e) => r == Err::<(), GraphError>(e),
            None => r is Ok,
        },
{
    match store.link_at(j) {
        None => Err(GraphError::NotFound),
        Some(l) => if l.link_type == LinkTypes::ThingUpdates {
            Err(GraphError::InvariantViolation)
        } else {
            Ok(())
        },
    }
}

/// Appends to `out` the removals that one relation asks for.
fn plan_input(store: &Store, src: &NodeId, input: &LinkInput, out: &mut Vec<NodeLink>) -> (r: Result<(), GraphError>)
    ensures
        match input_removals(store@.links, store@.links, src@, input@) {
            Ok(rs) => r is Ok && removals_view(final(out)@) == removals_view(old(out)@) + rs,
            Err(e) => r == Err::<(), GraphError>(e),
        },
{
    let ghost start = removals_view(out@);
    let n = store.link_count();
    let mut i: usize = 0;
    while i < n
        invariant
            n == store@.links.len(),
            i <= n,
            start == removals_view(old(out)@),
            input_removals(store@.links.take(i as int), store@.links, src@, input@) matches Ok(rs)
                && removals_view(out@) == start + rs,
        decreases n - i,
    {
        let l = store.link_at(i as u64).unwrap();
        let ghost links = store@.links;
        assert(links.take(i + 1).drop_last() =~= links.take(i as int));
        assert(links.take(i + 1).last() == l@);
        let ghost before = removals_view(out@);
        match input.direction {
            LinkDirection::From => {
                if l.live && l.link_type == src.partition() && l.base.same_as(&input.node_id)
                    && l.target.same_as(src) {
                    let tag = match deserialize_link_tag(&l.tag) {
                        Ok(c) => c.tag,
                        Err(e) => {
                            proof {
                                lemma_input_removals_err(links, links, src@, input@, i + 1, e);
                            }
                            return Err(e);
                        },
                    };
                    out.push(NodeLink { src: input.node_id.duplicate(), dst: src.duplicate(), tag, create_action_hash: i as u64 });
                    assert(removals_view(out@) =~= before.push(out@.last()@));
                }
            },
            _ => {
                if l.live && l.link_type == input.node_id.partition() && l.base.same_as(src) {
                    let c = match deserialize_link_tag(&l.tag) {
                        Ok(c) => c,
                        Err(e) => {
                            proof {
                                lemma_input_removals_err(links, links, src@, input@, i + 1, e);
                            }
                            return Err(e);
                        },
                    };
                    if l.target.same_as(&input.node_id) && same_opt_bytes(&c.tag, &input.tag) {
                        match c.backlink_action_hash {
                            Some(j) => {
                                match check_backlink(store, j) {
                                    Ok(()) => {},
                                    Err(e) => {
                                        proof {
                                            lemma_input_removals_err(links, links, src@, input@, i + 1, e);
                                        }
                                        return Err(e);
                                    },
                                }
                                out.push(NodeLink { src: input.node_id.duplicate(), dst: src.duplicate(), tag: copy_opt_bytes(&c.tag), create_action_hash: j });
                                let ghost mid = removals_view(out@);
                                assert(mid =~= before.push(out@.last()@));
                                out.push(NodeLink { src: src.duplicate(), dst: input.node_id.duplicate(), tag: c.tag, create_action_hash: i as u64 });
                                assert(removals_view(out@) =~= mid.push(out@.last()@));
                            },
                            None => {
                                out.push(NodeLink { src: src.duplicate(), dst: input.node_id.duplicate(), tag: c.tag, create_action_hash: i as u64 });
                                assert(removals_view(out@) =~= before.push(out@.last()@));
                            },
                        }
                    }
                }
            },
        }
        i = i + 1;
    }
    assert(store@.links.take(n as int) =~= store@.links);
    Ok(())
}

/// The removals that deleting the relations of `input` performs.
pub(crate) fn plan_unlinks(store: &Store, input: &CreateOrDeleteLinksInput, out: &mut Vec<NodeLink>) -> (r: Result<(), GraphError>)
    ensures
        match unlink_plan(store@, input.src@, inputs_view(input.links@)) {
            Ok(rs) => r is Ok && removals_view(final(out)@) == removals_view(old(out)@) + rs,
            Err(e) => r == Err::<(), GraphError>(e),
        },
{
    let ghost start = removals_view(out@);
    let ghost ins = inputs_view(input.links@);
    let src = match linkable_hash_from_node_id(&input.src) {
        Ok(b) => b,
        Err(e) => return Err(e),
    };
    assert(ins.take(0) =~= Seq::<LinkInputView>::empty());
    let mut i: usize = 0;
    while i < input.links.len()
        invariant
            i <= input.links@.len(),
            ins == inputs_view(input.links@),
            src@ == input.src@,
            resolvable(input.src@),
            start == removals_view(old(out)@),
            unlink_plan(store@, input.src@, ins.take(i as int)) matches Ok(rs) && removals_view(out@)
                == start + rs,
        decreases input.links@.len() - i,
    {
        assert(ins.take(i + 1).drop_last() =~= ins.take(i as int));
        assert(ins.take(i + 1).last() == input.links@[i as int]@);
        let ghost prev = removals_view(out@);
        match linkable_hash_from_node_id(&input.links[i].node_id) {
            Ok(_) => {},
            Err(e) => {
                proof {
                    lemma_unlink_plan_err(store@, input.src@, ins, i + 1, e);
                }
                return Err(e);
            },
        }
        match plan_input(store, &src, &input.links[i], out) {
            Ok(()) => {},
            Err(e) => {
                proof {
                    lemma_unlink_plan_err(store@, input.src@, ins, i + 1, e);
                }
                return Err(e);
            },
        }
        assert(removals_view(out@) =~= start + unlink_plan(store@, input.src@, ins.take(i + 1))->Ok_0);
        i = i + 1;
    }
    assert(ins.take(i as int) =~= ins);
    Ok(())
}

pub(crate) proof fn lemma_unlink_plan_in_table(s: StoreView, src: NodeIdView, inputs: Seq<LinkInputView>)
    requires
        s.links.len() <= u64::MAX,
    ensures
        unlink_plan(s, src, inputs) matches Ok(rs) ==> in_table(s, rs),
    decreases inputs.len(),
{
    if resolvable(src) && inputs.len() > 0 {
        lemma_unlink_plan_in_table(s, src, inputs.drop_last());
        lemma_input_removals_in_table(s.links, s.links, src, inputs.last());
        if let Ok(rs) = unlink_plan(s, src, inputs) {
            let prev = unlink_plan(s, src, inputs.drop_last())->Ok_0;
            let more = input_removals(s.links, s.links, src, inputs.last())->Ok_0;
            assert(rs == prev + more);
            assert forall|k: int| 0 <= k < rs.len() implies deletable(s.links, (#[trigger] rs[k]).create_action_hash) by {
                if k < prev.len() {
                    assert(rs[k] == prev[k]);
                } else {
                    assert(rs[k] == more[k - prev.len()]);
                }
            }
        }
    }
}

/// Deletes the edges that `rs` names, in order.
pub(crate) fn remove_planned(store: &mut Store, rs: &Vec<NodeLink>)
    requires
        store_wf(old(store)@),
        in_table(old(store)@, removals_view(rs@)),
    ensures
        store_wf(final(store)@),
        final(store)@ == without_links(old(store)@, removals_view(rs@)),
{
    let ghost s0 = store@;
    let ghost all = removals_view(rs@);
    assert(without_links(s0, all.take(0)).links =~= s0.links);
    let mut k: usize = 0;
    while k < rs.len()
        invariant
            k <= rs@.len(),
            all == removals_view(rs@),
            in_table(s0, all),
            store_wf(store@),
            store@ == without_links(s0, all.take(k as int)),
        decreases rs@.len() - k,
    {
        let h = rs[k].create_action_hash;
        assert(all[k as int].create_action_hash == h);
        let ghost before = store@;
        let _ = store.delete_link(h);
        assert forall|i: int| 0 <= i < s0.links.len() implies removes(all.take(k + 1), i) == (removes(all.take(k as int), i) || i == h) by {
            if removes(all.take(k + 1), i) {
                let w = choose|w: int| 0 <= w < k + 1 && (#[trigger] all.take(k + 1)[w]).create_action_hash == i;
                if w < k {
                    assert(all.take(k as int)[w] == all.take(k + 1)[w]);
                }
            }
            if removes(all.take(k as int), i) {
                let w = choose|w: int| 0 <= w < k && (#[trigger] all.take(k as int)[w]).create_action_hash == i;
                assert(all.take(k + 1)[w] == all.take(k as int)[w]);
            }
            if i == h {
                assert(all.take(k + 1)[k as int].create_action_hash == h);
            }
        }
        assert(store@.links =~= without_links(s0, all.take(k + 1)).links);
        k = k + 1;
    }
    assert(all.take(k as int) =~= all);
}

/// Deletes the relations of `input` from its source node: see
/// [`unlink_plan`]. Every removal is planned before the first write, so on an
/// error nothing is deleted. The result names each deleted edge once.
pub fn delete_links_from_node(store: &mut Store, input: &CreateOrDeleteLinksInput) -> (r: Result<Vec<NodeLink>, GraphError>)
    requires
        store_wf(old(store)@),
    ensures
        store_wf(final(store)@),
        match unlink_plan(old(store)@, input.src@, inputs_view(input.links@)) {
            Ok(rs) => (r matches Ok(v) && removals_view(v@) == union_of(rs)) && final(store)@ == without_links(old(store)@, rs),
            Err(e) => r == Err::<Vec<NodeLink>, GraphError>(e) && final(store)@ == old(store)@,
        },
{
    let mut planned: Vec<NodeLink> = Vec::new();
    assert(removals_view(planned@) =~= Seq::<NodeLinkView>::empty());
    match plan_unlinks(store, input, &mut planned) {
        Ok(()) => {},
        Err(e) => return Err(e),
    }
    proof {
        lemma_unlink_plan_in_table(store@, input.src@, inputs_view(input.links@));
        assert(removals_view(planned@) =~= unlink_plan(store@, input.src@, inputs_view(input.links@))->Ok_0);
    }
    remove_planned(store, &planned);
    Ok(union_of_removals(&planned))
}

} // verus!
