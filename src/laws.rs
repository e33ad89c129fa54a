//! Properties that relate several operations, proved over the models that the
//! operations' contracts state.
use vstd::prelude::*;
use vstd::utf8::encode_utf8;
use crate::entity::{backlink_removals, created_view, creator_removals, delete_plan, tombstoned};
use crate::links::{apply_plan, link_error, link_plan, links_outcome, LinkInputView, NodeLinkMetaView, PlannedLink};
use crate::node::{partition_of, GraphError, LinkDirection, LinkTypes, NodeIdView};
use crate::queries::{all_linked_view, linked_agents_view, linked_anchors_view, linked_thing_ids_view};
use crate::store::{clock, has_room, link_shaped, new_link, record_of, store_wf, with_link, with_record, LinkView, StoreView};
use crate::tag::{decode_tag, encodable, encode_tag, law_tag_round_trip, LinkTagView};
use crate::unlink::{input_removals, removes, unlink_plan, without_links, NodeLinkView};
use crate::things::{
    after_update, all_revisions_view, latest_target, latest_thing_view, later, original_thing_view,
    revision_time, revision_view, revision_views, update_targets, updated_view, ThingView,
};

verus! {

/// An entity none of whose edges is based at `id` has no revisions.
proof fn lemma_no_update_targets(links: Seq<LinkView>, id: u64)
    requires
        forall|i: int| 0 <= i < links.len() ==> (#[trigger] links[i]).base != NodeIdView::Thing(id),
    ensures
        update_targets(links, id) == Seq::<u64>::empty(),
    decreases links.len(),
{
    if links.len() > 0 {
        let prefix = links.drop_last();
        assert forall|i: int| 0 <= i < prefix.len() implies (#[trigger] prefix[i]).base != NodeIdView::Thing(id) by {
            assert(prefix[i] == links[i]);
        }
        lemma_no_update_targets(prefix, id);
        assert(links.last() == links[links.len() - 1]);
    }
}

/// Every revision that a revision-chain edge names is a record below `bound`.
proof fn lemma_update_targets_below(links: Seq<LinkView>, id: u64, bound: u64)
    requires
        forall|i: int| 0 <= i < links.len() && (#[trigger] links[i]).link_type == LinkTypes::ThingUpdates
            ==> (links[i].target matches NodeIdView::Thing(t) && t < bound),
    ensures
        forall|k: int| 0 <= k < update_targets(links, id).len() ==> #[trigger] update_targets(links, id)[k] < bound,
    decreases links.len(),
{
    if links.len() > 0 {
        let prefix = links.drop_last();
        assert forall|i: int| 0 <= i < prefix.len() && (#[trigger] prefix[i]).link_type == LinkTypes::ThingUpdates
            implies (prefix[i].target matches NodeIdView::Thing(t) && t < bound) by {
            assert(prefix[i] == links[i]);
        }
        lemma_update_targets_below(prefix, id, bound);
        assert(links.last() == links[links.len() - 1]);
        let ts = update_targets(links, id);
        let prev = update_targets(prefix, id);
        assert forall|k: int| 0 <= k < ts.len() implies #[trigger] ts[k] < bound by {
            if k < prev.len() {
                assert(ts[k] == prev[k]);
            }
        }
    }
}

/// The latest revision is one of the revisions.
proof fn lemma_latest_is_target(s: StoreView, ts: Seq<u64>)
    ensures
        latest_target(s, ts) matches Some(b) ==> exists|k: int| 0 <= k < ts.len() && #[trigger] ts[k] == b,
    decreases ts.len(),
{
    if ts.len() > 0 {
        lemma_latest_is_target(s, ts.drop_last());
        if let Some(b) = latest_target(s, ts) {
            if b == ts.last() {
                assert(ts[ts.len() - 1] == b);
            } else {
                let k = choose|k: int| 0 <= k < ts.drop_last().len() && #[trigger] ts.drop_last()[k] == b;
                assert(ts[k] == b);
            }
        }
    }
}

/// Reading an entity right after creating it (without relations) gives the
/// content written, its creator and creation time, and no update time.
pub proof fn law_create_then_read(s: StoreView, content: Seq<char>)
    requires
        store_wf(s),
        has_room(s, 1),
    ensures
        ({
            let id = s.records.len() as u64;
            let after = links_outcome(with_record(s, content), NodeIdView::Thing(id), Seq::empty()).0;
            &&& latest_thing_view(after, id) == Some(created_view(s, content))
            &&& created_view(s, content).content == content
            &&& created_view(s, content).updated_at is None
        }),
{
    let id = s.records.len() as u64;
    let s1 = with_record(s, content);
    assert forall|i: int| 0 <= i < s1.links.len() implies (#[trigger] s1.links[i]).base != NodeIdView::Thing(id) by {
        assert(s.links[i] == s1.links[i]);
    }
    lemma_no_update_targets(s1.links, id);
    assert(s1.records[id as int].content == content);
}

/// After an update of a live entity, its latest view shows the new content
/// with the update's time, its original view is unchanged, and, when it had
/// no revisions before, its history is the original followed by the update.
pub proof fn law_update_then_read(s: StoreView, id: u64, content: Seq<char>)
    requires
        store_wf(s),
        record_of(s, id) is Some,
        has_room(s, 2),
    ensures
        ({
            let after = after_update(s, id, content);
            &&& latest_thing_view(after, id) == Some(updated_view(s, id, content))
            &&& updated_view(s, id, content).content == content
            &&& updated_view(s, id, content).updated_at == Some(clock(s) as u64)
            &&& original_thing_view(after, id) == original_thing_view(s, id)
            &&& update_targets(s.links, id).len() == 0 ==> all_revisions_view(after, id) == Some(
                seq![original_thing_view(s, id)->Some_0, updated_view(s, id, content)],
            )
        }),
{
    let n = s.records.len() as u64;
    let after = after_update(s, id, content);
    let ts = update_targets(s.links, id);
    assert(after.links.drop_last() =~= s.links);
    assert(update_targets(after.links, id) == ts.push(n));
    assert forall|i: int| 0 <= i < s.links.len() && (#[trigger] s.links[i]).link_type == LinkTypes::ThingUpdates
        implies (s.links[i].target matches NodeIdView::Thing(t) && t < n) by {
        assert(crate::store::link_shaped(s, s.links[i]));
    }
    lemma_update_targets_below(s.links, id, n);
    lemma_latest_is_target(after, ts);
    assert(revision_time(after, n) == clock(s) as u64);
    if let Some(b) = latest_target(after, ts) {
        let k = choose|k: int| 0 <= k < ts.len() && #[trigger] ts[k] == b;
        assert(b < n);
        assert(after.records[b as int] == s.records[b as int]);
        assert(revision_time(after, b) < clock(s));
        assert(later((revision_time(after, n), n), (revision_time(after, b), b)));
    }
    assert(ts.push(n).drop_last() =~= ts);
    assert(latest_target(after, ts.push(n)) == Some(n));
    assert(record_of(after, n) == Some(after.records[n as int]));
    assert(after.records[id as int] == s.records[id as int]);
    if ts.len() == 0 {
        assert(ts.push(n) =~= seq![n]);
        assert(seq![n].drop_last() =~= Seq::<u64>::empty());
        let o = original_thing_view(s, id)->Some_0;
        assert(seq![n].last() == n);
        assert(revision_views(after, o, seq![n].drop_last()) == Seq::<ThingView>::empty());
        assert(after.records[n as int].timestamp == clock(s) as u64);
        assert(revision_view(o, after.records[n as int]) == updated_view(s, id, content));
        assert(revision_views(after, o, seq![n]) =~= seq![updated_view(s, id, content)]);
        assert(seq![o] + seq![updated_view(s, id, content)] =~= seq![o, updated_view(s, id, content)]);
    }
}

/// Creating an entity with `first` and updating it with `second`: its latest
/// view shows `second`, its original view `first`, and its history both, the
/// original first.
pub proof fn law_create_update_history(s: StoreView, first: Seq<char>, second: Seq<char>)
    requires
        store_wf(s),
        has_room(s, 3),
    ensures
        ({
            let id = s.records.len() as u64;
            let created = links_outcome(with_record(s, first), NodeIdView::Thing(id), Seq::empty()).0;
            let after = after_update(created, id, second);
            &&& latest_thing_view(after, id)->Some_0.content == second
            &&& original_thing_view(after, id)->Some_0.content == first
            &&& all_revisions_view(after, id) matches Some(h) && h.len() == 2 && h[0].content == first
                && h[1].content == second
        }),
{
    let id = s.records.len() as u64;
    let s1 = with_record(s, first);
    assert(links_outcome(s1, NodeIdView::Thing(id), Seq::empty()).0 == s1);
    assert forall|i: int| 0 <= i < s1.records.len() implies #[trigger] s1.records[i].timestamp < clock(s1) by {
        if i < s.records.len() {
            assert(s1.records[i] == s.records[i]);
        }
    }
    assert forall|i: int| 0 <= i < s1.links.len() implies crate::store::link_shaped(s1, #[trigger] s1.links[i]) by {
        assert(s1.links[i] == s.links[i]);
        assert(crate::store::link_shaped(s, s.links[i]));
        if let (NodeIdView::Thing(b), NodeIdView::Thing(t)) = (s.links[i].base, s.links[i].target) {
            if b < s.records.len() && t < s.records.len() {
                assert(s1.records[b as int] == s.records[b as int]);
                assert(s1.records[t as int] == s.records[t as int]);
            }
        }
    }
    assert forall|i: int| 0 <= i < s1.links.len() implies (#[trigger] s1.links[i]).base != NodeIdView::Thing(id) by {
        assert(s.links[i] == s1.links[i]);
    }
    assert(store_wf(s1));
    lemma_no_update_targets(s1.links, id);
    assert(record_of(s1, id) is Some);
    law_update_then_read(s1, id, second);
}

/// The part of [`all_linked_view`] that comes from partition `kind`.
pub open spec fn kind_view(links: Seq<LinkView>, base: NodeIdView, kind: LinkTypes) -> Seq<(NodeIdView, LinkTagView)> {
    match kind {
        LinkTypes::ToThing => linked_thing_ids_view(links, base).map_values(|x: (u64, LinkTagView)| (NodeIdView::Thing(x.0), x.1)),
        LinkTypes::ToAnchor => linked_anchors_view(links, base).map_values(|x: (Seq<char>, LinkTagView)| (NodeIdView::Anchor(x.0), x.1)),
        LinkTypes::ToAgent => linked_agents_view(links, base).map_values(|x: (u64, LinkTagView)| (NodeIdView::Agent(x.0), x.1)),
        _ => Seq::empty(),
    }
}

/// A node whose anchor label, if any, is short enough to be written in a tag.
pub open spec fn node_encodable(n: NodeIdView) -> bool {
    n matches NodeIdView::Anchor(l) ==> encode_utf8(l).len() <= u64::MAX
}

/// A caller tag short enough to be written in a tag.
pub open spec fn user_tag_encodable(t: Option<Seq<u8>>) -> bool {
    t matches Some(b) ==> b.len() <= u64::MAX
}

proof fn lemma_all_linked_has_kind(links: Seq<LinkView>, base: NodeIdView, kind: LinkTypes, k: int)
    requires
        0 <= k < kind_view(links, base, kind).len(),
    ensures
        exists|j: int| 0 <= j < all_linked_view(links, base).len() && #[trigger] all_linked_view(links, base)[j] == kind_view(links, base, kind)[k],
{
    let t = kind_view(links, base, LinkTypes::ToThing);
    let n = kind_view(links, base, LinkTypes::ToAnchor);
    let g = kind_view(links, base, LinkTypes::ToAgent);
    let all = all_linked_view(links, base);
    assert(all =~= t + n + g);
    match kind {
        LinkTypes::ToThing => {
            assert(all[k] == t[k]);
        },
        LinkTypes::ToAnchor => {
            assert(all[t.len() + k] == n[k]);
        },
        LinkTypes::ToAgent => {
            assert(all[t.len() + n.len() + k] == g[k]);
        },
        _ => {},
    }
}

/// Appending an edge keeps every listing as a prefix.
proof fn lemma_kind_view_push(links: Seq<LinkView>, l: LinkView, base: NodeIdView, kind: LinkTypes)
    ensures
        kind_view(links, base, kind).len() <= kind_view(links.push(l), base, kind).len(),
        kind_view(links.push(l), base, kind).take(kind_view(links, base, kind).len() as int) == kind_view(links, base, kind),
{
    let ls = links.push(l);
    assert(ls.drop_last() =~= links);
    let a = kind_view(links, base, kind);
    let b = kind_view(ls, base, kind);
    match kind {
        LinkTypes::ToThing | LinkTypes::ToAnchor | LinkTypes::ToAgent => {
            assert(b.take(a.len() as int) =~= a);
        },
        _ => {
            assert(b.take(0) =~= a);
        },
    }
}

/// Appending a dead edge changes no listing.
proof fn lemma_kind_view_push_dead(links: Seq<LinkView>, l: LinkView, base: NodeIdView, kind: LinkTypes)
    requires
        !l.live,
    ensures
        kind_view(links.push(l), base, kind) == kind_view(links, base, kind),
{
    assert(links.push(l).drop_last() =~= links);
}

/// Appending a live edge from `base` whose payload names its target lists the
/// target last in the partition of the edge.
proof fn lemma_kind_view_push_listed(links: Seq<LinkView>, l: LinkView, base: NodeIdView, p: LinkTagView)
    requires
        l.live,
        l.base == base,
        l.link_type == partition_of(l.target),
        decode_tag(l.tag) == Some(p),
        p.target_node_id == l.target,
    ensures
        kind_view(links.push(l), base, l.link_type) == kind_view(links, base, l.link_type).push((l.target, p)),
{
    let ls = links.push(l);
    assert(ls.drop_last() =~= links);
    assert(ls.last() == l);
    match l.target {
        NodeIdView::Thing(h) => {
            let v = linked_thing_ids_view(links, base);
            assert(linked_thing_ids_view(ls, base) == v.push((h, p)));
            assert(v.push((h, p)).map_values(|x: (u64, LinkTagView)| (NodeIdView::Thing(x.0), x.1)) =~= v.map_values(|x: (u64, LinkTagView)| (NodeIdView::Thing(x.0), x.1)).push((l.target, p)));
        },
        NodeIdView::Anchor(a) => {
            let v = linked_anchors_view(links, base);
            assert(linked_anchors_view(ls, base) == v.push((a, p)));
            assert(v.push((a, p)).map_values(|x: (Seq<char>, LinkTagView)| (NodeIdView::Anchor(x.0), x.1)) =~= v.map_values(|x: (Seq<char>, LinkTagView)| (NodeIdView::Anchor(x.0), x.1)).push((l.target, p)));
        },
        NodeIdView::Agent(g) => {
            let v = linked_agents_view(links, base);
            assert(linked_agents_view(ls, base) == v.push((g, p)));
            assert(v.push((g, p)).map_values(|x: (u64, LinkTagView)| (NodeIdView::Agent(x.0), x.1)) =~= v.map_values(|x: (u64, LinkTagView)| (NodeIdView::Agent(x.0), x.1)).push((l.target, p)));
        },
    }
}

/// The bidirectional relation from `a` to `b` with caller tag `t`.
pub open spec fn bidi_input(b: NodeIdView, t: Option<Seq<u8>>) -> LinkInputView {
    LinkInputView { direction: LinkDirection::Bidirectional, node_id: b, tag: t }
}

/// The store after creating the bidirectional relation, and the two edges.
proof fn lemma_bidi_outcome(s: StoreView, a: NodeIdView, b: NodeIdView, t: Option<Seq<u8>>)
    requires
        link_error(s, a, bidi_input(b, t)) is None,
        node_encodable(a),
        node_encodable(b),
        user_tag_encodable(t),
    ensures
        ({
            let plan = link_plan(s, a, bidi_input(b, t));
            let rev = new_link(s, b, a, partition_of(a), encode_tag(plan[0].tag));
            let s1 = with_link(s, rev);
            let fwd = new_link(s1, a, b, partition_of(b), encode_tag(plan[1].tag));
            &&& links_outcome(s, a, seq![bidi_input(b, t)]).0 == with_link(s1, fwd)
            &&& decode_tag(rev.tag) == Some(plan[0].tag)
            &&& decode_tag(fwd.tag) == Some(plan[1].tag)
            &&& plan[0].tag.target_node_id == a && plan[0].tag.tag == t
            &&& plan[0].tag.backlink_action_hash is None
            &&& plan[1].tag.target_node_id == b && plan[1].tag.tag == t
            &&& plan[1].tag.backlink_action_hash == Some(s.links.len() as u64)
        }),
{
    let ins = seq![bidi_input(b, t)];
    let plan = link_plan(s, a, bidi_input(b, t));
    assert(ins.drop_last() =~= Seq::<LinkInputView>::empty());
    assert(ins.last() == bidi_input(b, t));
    assert(plan.drop_last().drop_last() =~= Seq::<PlannedLink>::empty());
    assert(plan.drop_last().last() == plan[0]);
    assert(plan.last() == plan[1]);
    let rev = new_link(s, b, a, partition_of(a), encode_tag(plan[0].tag));
    let s1 = with_link(s, rev);
    let fwd = new_link(s1, a, b, partition_of(b), encode_tag(plan[1].tag));
    assert(links_outcome(s, a, ins.drop_last()) == (s, Seq::<NodeLinkMetaView>::empty(), None::<GraphError>));
    assert(apply_plan(s, plan.drop_last().drop_last()) == s);
    assert(apply_plan(s, plan.drop_last()) == s1);
    assert(apply_plan(s, plan) == with_link(s1, fwd));
    assert(encodable(plan[0].tag));
    assert(encodable(plan[1].tag));
    law_tag_round_trip(plan[0].tag);
    law_tag_round_trip(plan[1].tag);
}

/// After creating a bidirectional relation between `a` and `b` with caller
/// tag `t`, the nodes linked from `a` include `b` with tag `t`, and the nodes
/// linked from `b` include `a` with tag `t`.
pub proof fn law_bidirectional_symmetry(s: StoreView, a: NodeIdView, b: NodeIdView, t: Option<Seq<u8>>)
    requires
        store_wf(s),
        link_error(s, a, bidi_input(b, t)) is None,
        node_encodable(a),
        node_encodable(b),
        user_tag_encodable(t),
    ensures
        ({
            let after = links_outcome(s, a, seq![bidi_input(b, t)]).0;
            &&& exists|k: int| 0 <= k < all_linked_view(after.links, a).len() && (#[trigger] all_linked_view(after.links, a)[k]).0 == b && all_linked_view(after.links, a)[k].1.tag == t
            &&& exists|k: int| 0 <= k < all_linked_view(after.links, b).len() && (#[trigger] all_linked_view(after.links, b)[k]).0 == a && all_linked_view(after.links, b)[k].1.tag == t
        }),
{
    lemma_bidi_outcome(s, a, b, t);
    let plan = link_plan(s, a, bidi_input(b, t));
    let rev = new_link(s, b, a, partition_of(a), encode_tag(plan[0].tag));
    let s1 = with_link(s, rev);
    let fwd = new_link(s1, a, b, partition_of(b), encode_tag(plan[1].tag));
    let l0 = s.links;
    let l1 = l0.push(rev);
    let l2 = l1.push(fwd);
    let after = links_outcome(s, a, seq![bidi_input(b, t)]).0;
    assert(after.links == l2);
    // b listed from a: the forward edge is the last one written.
    lemma_kind_view_push_listed(l1, fwd, a, plan[1].tag);
    let kb = kind_view(l2, a, partition_of(b));
    assert(kb[kb.len() - 1] == (b, plan[1].tag));
    lemma_all_linked_has_kind(l2, a, partition_of(b), kb.len() - 1);
    // a listed from b: the reverse edge, which the forward edge keeps listed.
    lemma_kind_view_push_listed(l0, rev, b, plan[0].tag);
    lemma_kind_view_push(l1, fwd, b, partition_of(a));
    let ka1 = kind_view(l1, b, partition_of(a));
    let ka2 = kind_view(l2, b, partition_of(a));
    assert(ka1[ka1.len() - 1] == (a, plan[0].tag));
    assert(ka2.take(ka1.len() as int)[ka1.len() - 1] == ka2[ka1.len() - 1]);
    lemma_all_linked_has_kind(l2, b, partition_of(a), ka1.len() - 1);
}

/// Whether node `x` lists node `y` with caller tag `t`.
pub open spec fn lists_with_tag(links: Seq<LinkView>, x: NodeIdView, y: NodeIdView, t: Option<Seq<u8>>) -> bool {
    exists|k: int| 0 <= k < all_linked_view(links, x).len() && (#[trigger] all_linked_view(links, x)[k]).0 == y
        && all_linked_view(links, x)[k].1.tag == t
}

/// The relation `To b` with caller tag `t`.
pub open spec fn to_input(b: NodeIdView, t: Option<Seq<u8>>) -> LinkInputView {
    LinkInputView { direction: LinkDirection::To, node_id: b, tag: t }
}

/// Every live edge from `a` in the partition of `b` has a payload that
/// decodes, and none of them is an edge to `b` with caller tag `t`.
pub open spec fn quiet_from(links: Seq<LinkView>, a: NodeIdView, b: NodeIdView, t: Option<Seq<u8>>) -> bool {
    forall|i: int|
        0 <= i < links.len() && (#[trigger] links[i]).live && links[i].base == a && links[i].link_type
            == partition_of(b) ==> (decode_tag(links[i].tag) matches Some(p) && !(links[i].target == b
            && p.tag == t))
}

/// Where `a` is quiet towards `b`, deleting `To b` with tag `t` finds nothing.
proof fn lemma_no_to_candidates(links: Seq<LinkView>, table: Seq<LinkView>, a: NodeIdView, b: NodeIdView, t: Option<Seq<u8>>)
    requires
        quiet_from(links, a, b, t),
    ensures
        input_removals(links, table, a, to_input(b, t)) == Ok::<Seq<NodeLinkView>, GraphError>(Seq::empty()),
    decreases links.len(),
{
    if links.len() > 0 {
        let prefix = links.drop_last();
        assert forall|i: int|
            0 <= i < prefix.len() && (#[trigger] prefix[i]).live && prefix[i].base == a && prefix[i].link_type
                == partition_of(b) implies (decode_tag(prefix[i].tag) matches Some(p) && !(prefix[i].target == b
                && p.tag == t)) by {
            assert(prefix[i] == links[i]);
        }
        lemma_no_to_candidates(prefix, table, a, b, t);
        assert(links.last() == links[links.len() - 1]);
    }
}

/// Appending a live edge that is not based at `base` changes no listing of it.
proof fn lemma_kind_view_push_elsewhere(links: Seq<LinkView>, l: LinkView, base: NodeIdView, kind: LinkTypes)
    requires
        l.base != base,
    ensures
        kind_view(links.push(l), base, kind) == kind_view(links, base, kind),
{
    assert(links.push(l).drop_last() =~= links);
}

/// Creating a bidirectional relation from `a` to `b` with tag `t` and then
/// deleting the relation `To b` with tag `t` from `a` deletes both edges, when
/// no other edge from `a` to `b` has tag `t` and every edge that the deletion
/// reads decodes: every node then lists exactly what it listed before the two
/// calls, so neither `a` nor `b` lists the other with tag `t` unless it did
/// before.
pub proof fn law_bidirectional_teardown(s: StoreView, a: NodeIdView, b: NodeIdView, t: Option<Seq<u8>>)
    requires
        store_wf(s),
        link_error(s, a, bidi_input(b, t)) is None,
        node_encodable(a),
        node_encodable(b),
        user_tag_encodable(t),
        quiet_from(s.links, a, b, t),
    ensures
        ({
            let created = links_outcome(s, a, seq![bidi_input(b, t)]).0;
            &&& unlink_plan(created, a, seq![to_input(b, t)]) is Ok
            &&& ({
                let after = without_links(created, unlink_plan(created, a, seq![to_input(b, t)])->Ok_0);
                &&& !after.links[s.links.len() as int].live
                &&& !after.links[s.links.len() as int + 1].live
                &&& forall|x: NodeIdView| #[trigger] all_linked_view(after.links, x) == all_linked_view(s.links, x)
                &&& !lists_with_tag(s.links, a, b, t) ==> !lists_with_tag(after.links, a, b, t)
                &&& !lists_with_tag(s.links, b, a, t) ==> !lists_with_tag(after.links, b, a, t)
            })
        }),
{
    lemma_bidi_outcome(s, a, b, t);
    let plan = link_plan(s, a, bidi_input(b, t));
    let rev = new_link(s, b, a, partition_of(a), encode_tag(plan[0].tag));
    let s1 = with_link(s, rev);
    let fwd = new_link(s1, a, b, partition_of(b), encode_tag(plan[1].tag));
    let l0 = s.links;
    let l1 = l0.push(rev);
    let l2 = l1.push(fwd);
    let m = l0.len() as int;
    let created = links_outcome(s, a, seq![bidi_input(b, t)]).0;
    assert(created.links == l2);
    let to = to_input(b, t);
    lemma_no_to_candidates(l0, l2, a, b, t);
    assert(l1.drop_last() =~= l0);
    assert(l2.drop_last() =~= l1);
    let r1 = input_removals(l1, l2, a, to);
    assert(r1 is Ok);
    let p1 = r1->Ok_0;
    assert(forall|k: int| 0 <= k < p1.len() ==> (#[trigger] p1[k]).create_action_hash == m);
    let r2 = input_removals(l2, l2, a, to);
    let back = NodeLinkView { src: b, dst: a, tag: t, create_action_hash: m as u64 };
    let fw = NodeLinkView { src: a, dst: b, tag: t, create_action_hash: (m + 1) as u64 };
    assert(l2[m] == rev);
    assert(r2 == Ok::<Seq<NodeLinkView>, GraphError>(p1.push(back).push(fw)));
    let rs = p1.push(back).push(fw);
    let ins = seq![to];
    assert(ins.drop_last() =~= Seq::<LinkInputView>::empty());
    assert(ins.last() == to);
    assert(unlink_plan(created, a, ins.drop_last()) == Ok::<Seq<NodeLinkView>, GraphError>(Seq::empty()));
    assert(Seq::<NodeLinkView>::empty() + rs =~= rs);
    assert(unlink_plan(created, a, ins) == Ok::<Seq<NodeLinkView>, GraphError>(rs));
    let after = without_links(created, rs);
    assert(rs[p1.len() as int] == back);
    assert(rs[p1.len() as int + 1] == fw);
    assert(removes(rs, m));
    assert(removes(rs, m + 1));
    assert forall|i: int| 0 <= i < m implies !removes(rs, i) by {
        if removes(rs, i) {
            let k = choose|k: int| 0 <= k < rs.len() && (#[trigger] rs[k]).create_action_hash == i;
            if k < p1.len() {
                assert(rs[k] == p1[k]);
            }
        }
    }
    let dead_rev = LinkView { live: false, ..rev };
    let dead_fwd = LinkView { live: false, ..fwd };
    assert(after.links =~= l0.push(dead_rev).push(dead_fwd));
    assert forall|x: NodeIdView| #[trigger] all_linked_view(after.links, x) == all_linked_view(s.links, x) by {
        lemma_kind_view_push_dead(l0, dead_rev, x, LinkTypes::ToThing);
        lemma_kind_view_push_dead(l0.push(dead_rev), dead_fwd, x, LinkTypes::ToThing);
        lemma_kind_view_push_dead(l0, dead_rev, x, LinkTypes::ToAnchor);
        lemma_kind_view_push_dead(l0.push(dead_rev), dead_fwd, x, LinkTypes::ToAnchor);
        lemma_kind_view_push_dead(l0, dead_rev, x, LinkTypes::ToAgent);
        lemma_kind_view_push_dead(l0.push(dead_rev), dead_fwd, x, LinkTypes::ToAgent);
        assert(all_linked_view(after.links, x) =~= kind_view(after.links, x, LinkTypes::ToThing) + kind_view(after.links, x, LinkTypes::ToAnchor) + kind_view(after.links, x, LinkTypes::ToAgent));
        assert(all_linked_view(s.links, x) =~= kind_view(s.links, x, LinkTypes::ToThing) + kind_view(s.links, x, LinkTypes::ToAnchor) + kind_view(s.links, x, LinkTypes::ToAgent));
    }
}

/// No edge of `links` is based at entity `id`: deleting its reverse edges finds nothing.
proof fn lemma_no_backlink_candidates(links: Seq<LinkView>, table: Seq<LinkView>, id: u64)
    requires
        forall|i: int| 0 <= i < links.len() ==> (#[trigger] links[i]).base != NodeIdView::Thing(id),
    ensures
        backlink_removals(links, table, id) == Ok::<Seq<NodeLinkView>, GraphError>(Seq::empty()),
    decreases links.len(),
{
    if links.len() > 0 {
        let prefix = links.drop_last();
        assert forall|i: int| 0 <= i < prefix.len() implies (#[trigger] prefix[i]).base != NodeIdView::Thing(id) by {
            assert(prefix[i] == links[i]);
        }
        lemma_no_backlink_candidates(prefix, table, id);
        assert(links.last() == links[links.len() - 1]);
    }
}

/// The entity ids listed from any node are targets of edges.
proof fn lemma_thing_ids_are_targets(links: Seq<LinkView>, base: NodeIdView, bound: u64)
    requires
        forall|i: int| 0 <= i < links.len() ==> ((#[trigger] links[i]).target matches NodeIdView::Thing(h) ==> h < bound),
    ensures
        forall|k: int| 0 <= k < linked_thing_ids_view(links, base).len() ==> (#[trigger] linked_thing_ids_view(links, base)[k]).0 < bound,
    decreases links.len(),
{
    if links.len() > 0 {
        let prefix = links.drop_last();
        assert forall|i: int| 0 <= i < prefix.len() implies ((#[trigger] prefix[i]).target matches NodeIdView::Thing(h) ==> h < bound) by {
            assert(prefix[i] == links[i]);
        }
        lemma_thing_ids_are_targets(prefix, base, bound);
        assert(links.last() == links[links.len() - 1]);
        let v = linked_thing_ids_view(links, base);
        let pv = linked_thing_ids_view(prefix, base);
        assert forall|k: int| 0 <= k < v.len() implies (#[trigger] v[k]).0 < bound by {
            if k < pv.len() {
                assert(v[k] == pv[k]);
            }
        }
    }
}

/// Creating entity `x`, linking it bidirectionally to anchor `root` with tag
/// `t`, then deleting `x` with reverse-edge cleanup: afterwards the anchor no
/// longer lists `x`, while the forward edge from `x` to the anchor is still
/// live (edges from a deleted entity are not cleaned up eagerly).
pub proof fn law_cascade_delete(s: StoreView, content: Seq<char>, root: Seq<char>, t: Option<Seq<u8>>)
    requires
        store_wf(s),
        has_room(s, 3),
        root.len() > 0,
        encode_utf8(root).len() <= u64::MAX,
        user_tag_encodable(t),
    ensures
        ({
            let x = s.records.len() as u64;
            let anchor = NodeIdView::Anchor(root);
            let created = links_outcome(with_record(s, content), NodeIdView::Thing(x), seq![bidi_input(anchor, t)]).0;
            &&& delete_plan(created, x, true, false, None) is Ok
            &&& ({
                let after = without_links(tombstoned(created, x), delete_plan(created, x, true, false, None)->Ok_0);
                let fwd = after.links[s.links.len() as int + 1];
                &&& forall|k: int| 0 <= k < all_linked_view(after.links, anchor).len() ==> (#[trigger] all_linked_view(after.links, anchor)[k]).0 != NodeIdView::Thing(x)
                &&& fwd.live && fwd.base == NodeIdView::Thing(x) && fwd.target == anchor
                &&& !after.links[s.links.len() as int].live
            })
        }),
{
    let x = s.records.len() as u64;
    let anchor = NodeIdView::Anchor(root);
    let me = NodeIdView::Thing(x);
    let s1 = with_record(s, content);
    assert(record_of(s1, x) is Some);
    assert(link_error(s1, me, bidi_input(anchor, t)) is None);
    lemma_bidi_outcome(s1, me, anchor, t);
    let plan = link_plan(s1, me, bidi_input(anchor, t));
    let rev = new_link(s1, anchor, me, partition_of(me), encode_tag(plan[0].tag));
    let s1r = with_link(s1, rev);
    let fwd = new_link(s1r, me, anchor, partition_of(anchor), encode_tag(plan[1].tag));
    let l0 = s.links;
    let l1 = l0.push(rev);
    let l2 = l1.push(fwd);
    let m = l0.len() as int;
    let created = links_outcome(s1, me, seq![bidi_input(anchor, t)]).0;
    assert(created.links == l2);
    assert(created.records == s1.records);
    // No edge of the old store touches the new entity.
    assert forall|i: int| 0 <= i < l0.len() implies (#[trigger] l0[i]).base != me by {}
    lemma_no_backlink_candidates(l0, l2, x);
    assert(l1.drop_last() =~= l0);
    assert(l2.drop_last() =~= l1);
    assert(backlink_removals(l1, l2, x) == Ok::<Seq<NodeLinkView>, GraphError>(Seq::empty()));
    let back = NodeLinkView { src: anchor, dst: me, tag: t, create_action_hash: m as u64 };
    assert(l2[m] == rev);
    assert(backlink_removals(l2, l2, x) == Ok::<Seq<NodeLinkView>, GraphError>(seq![back]));
    assert(record_of(created, x) is Some);
    assert(seq![back] + Seq::<NodeLinkView>::empty() + Seq::<NodeLinkView>::empty() =~= seq![back]);
    assert(delete_plan(created, x, true, false, None) == Ok::<Seq<NodeLinkView>, GraphError>(seq![back]));
    let rs = seq![back];
    let after = without_links(tombstoned(created, x), rs);
    assert(rs[0] == back);
    assert(removes(rs, m));
    assert(!removes(rs, m + 1));
    assert forall|i: int| 0 <= i < m implies !removes(rs, i) by {}
    let dead_rev = LinkView { live: false, ..rev };
    assert(after.links =~= l0.push(dead_rev).push(fwd));
    // The anchor lists what it listed before, which names no edge to the new entity.
    lemma_kind_view_push_dead(l0, dead_rev, anchor, LinkTypes::ToThing);
    lemma_kind_view_push_elsewhere(l0.push(dead_rev), fwd, anchor, LinkTypes::ToThing);
    assert forall|i: int| 0 <= i < l0.len() implies ((#[trigger] l0[i]).target matches NodeIdView::Thing(h) ==> h < x) by {}
    lemma_thing_ids_are_targets(l0, anchor, x);
    let tv = kind_view(after.links, anchor, LinkTypes::ToThing);
    let nv = kind_view(after.links, anchor, LinkTypes::ToAnchor);
    let gv = kind_view(after.links, anchor, LinkTypes::ToAgent);
    let all = all_linked_view(after.links, anchor);
    assert(all =~= tv + nv + gv);
    assert forall|k: int| 0 <= k < all.len() implies (#[trigger] all[k]).0 != me by {
        if k < tv.len() {
            assert(all[k] == tv[k]);
            assert(tv[k].0 == NodeIdView::Thing(linked_thing_ids_view(l0, anchor)[k].0));
        } else if k < tv.len() + nv.len() {
            assert(all[k] == nv[k - tv.len()]);
        } else {
            assert(all[k] == gv[k - tv.len() - nv.len()]);
        }
    }
}

/// The creator step names every live edge from the creator to the entity in
/// the entity partition.
proof fn lemma_creator_removals_complete(links: Seq<LinkView>, id: u64, creator: u64)
    requires
        links.len() <= u64::MAX,
    ensures
        creator_removals(links, id, creator) matches Ok(rs) ==> forall|i: int|
            0 <= i < links.len() && (#[trigger] links[i]).live && links[i].base == NodeIdView::Agent(creator)
                && links[i].link_type == LinkTypes::ToThing && links[i].target == NodeIdView::Thing(id)
                ==> removes(rs, i),
    decreases links.len(),
{
    if links.len() > 0 {
        let prefix = links.drop_last();
        lemma_creator_removals_complete(prefix, id, creator);
        if let Ok(rs) = creator_removals(links, id, creator) {
            let prev = creator_removals(prefix, id, creator)->Ok_0;
            assert forall|i: int|
                0 <= i < links.len() && (#[trigger] links[i]).live && links[i].base == NodeIdView::Agent(creator)
                    && links[i].link_type == LinkTypes::ToThing && links[i].target == NodeIdView::Thing(id)
                    implies removes(rs, i) by {
                if i < prefix.len() {
                    assert(prefix[i] == links[i]);
                    let k = choose|k: int| 0 <= k < prev.len() && (#[trigger] prev[k]).create_action_hash == i;
                    assert(rs[k] == prev[k]);
                } else {
                    assert(i == links.len() - 1);
                    assert(links.last() == links[i]);
                    assert(rs == prev.push(rs[prev.len() as int]));
                    assert(rs[prev.len() as int].create_action_hash == i);
                }
            }
        }
    }
}

/// Deleting an entity with creator cleanup deletes every live edge from its
/// creator to it: no partition but the entity partition holds an edge from an
/// identity to an entity.
pub proof fn law_creator_edges_removed(
    s: StoreView,
    id: u64,
    backlinks: bool,
    explicit: Option<Seq<LinkInputView>>,
)
    requires
        store_wf(s),
    ensures
        forall|i: int|
            0 <= i < s.links.len() && (#[trigger] s.links[i]).link_type == LinkTypes::ToAgent
                ==> s.links[i].target is Agent,
        delete_plan(s, id, backlinks, true, explicit) matches Ok(rs) ==> forall|i: int|
            0 <= i < s.links.len() && (#[trigger] s.links[i]).live && s.links[i].base
                == NodeIdView::Agent(record_of(s, id)->Some_0.author) && s.links[i].target
                == NodeIdView::Thing(id) ==> !without_links(tombstoned(s, id), rs).links[i].live,
{
    assert forall|i: int| 0 <= i < s.links.len() && (#[trigger] s.links[i]).link_type == LinkTypes::ToAgent
        implies s.links[i].target is Agent by {
        assert(link_shaped(s, s.links[i]));
    }
    if let Ok(rs) = delete_plan(s, id, backlinks, true, explicit) {
        let creator = record_of(s, id)->Some_0.author;
        lemma_creator_removals_complete(s.links, id, creator);
        let a = if backlinks { backlink_removals(s.links, s.links, id)->Ok_0 } else { Seq::<NodeLinkView>::empty() };
        let b = creator_removals(s.links, id, creator)->Ok_0;
        let c = match explicit {
            Some(ins) => unlink_plan(s, NodeIdView::Thing(id), ins)->Ok_0,
            None => Seq::<NodeLinkView>::empty(),
        };
        assert(rs == a + b + c);
        assert forall|i: int|
            0 <= i < s.links.len() && (#[trigger] s.links[i]).live && s.links[i].base == NodeIdView::Agent(creator)
                && s.links[i].target == NodeIdView::Thing(id) implies !without_links(tombstoned(s, id), rs).links[i].live by {
            assert(link_shaped(s, s.links[i]));
            assert(s.links[i].link_type == LinkTypes::ToThing);
            let k = choose|k: int| 0 <= k < b.len() && (#[trigger] b[k]).create_action_hash == i;
            assert(rs[a.len() + k] == b[k]);
        }
    }
}

} // verus!
