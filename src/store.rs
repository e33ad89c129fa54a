use vstd::prelude::*;
use crate::node::{ActionHash, AgentPubKey, GraphError, LinkTypes, NodeId, NodeIdView, Timestamp};

verus! {

/// An immutable entity record: one per creation or update.
pub struct ThingRecord {
    pub author: AgentPubKey,
    pub timestamp: Timestamp,
    pub content: String,
    /// False once the record has been tombstoned.
    pub live: bool,
}

pub struct RecordView {
    pub author: u64,
    pub timestamp: u64,
    pub content: Seq<char>,
    pub live: bool,
}

impl View for ThingRecord {
    type V = RecordView;

    open spec fn view(&self) -> RecordView {
        RecordView {
            author: self.author,
            timestamp: self.timestamp,
            content: self.content@,
            live: self.live,
        }
    }
}

/// A physical directed edge.
pub struct Link {
    pub base: NodeId,
    pub target: NodeId,
    pub link_type: LinkTypes,
    pub tag: Vec<u8>,
    pub timestamp: Timestamp,
    pub author: AgentPubKey,
    /// False once the edge has been deleted.
    pub live: bool,
}

pub struct LinkView {
    pub base: NodeIdView,
    pub target: NodeIdView,
    pub link_type: LinkTypes,
    pub tag: Seq<u8>,
    pub timestamp: u64,
    pub author: u64,
    pub live: bool,
}

impl View for Link {
    type V = LinkView;

    open spec fn view(&self) -> LinkView {
        LinkView {
            base: self.base@,
            target: self.target@,
            link_type: self.link_type,
            tag: self.tag@,
            timestamp: self.timestamp,
            author: self.author,
            live: self.live,
        }
    }
}

/// The record and edge store that the graph is written to, on behalf of one
/// agent. Records and edges are addressed by their position and never removed:
/// deleting one marks it dead, so no address is ever reused. Each write takes
/// the next tick of a logical clock, which counts the writes so far.
pub struct Store {
    agent: AgentPubKey,
    records: Vec<ThingRecord>,
    links: Vec<Link>,
}

pub struct StoreView {
    pub agent: u64,
    pub records: Seq<RecordView>,
    pub links: Seq<LinkView>,
}

impl View for Store {
    type V = StoreView;

    closed spec fn view(&self) -> StoreView {
        StoreView {
            agent: self.agent,
            records: self.records@.map_values(|r: ThingRecord| r@),
            links: self.links@.map_values(|l: Link| l@),
        }
    }
}

/// The time the next write gets.
pub open spec fn clock(s: StoreView) -> int {
    s.records.len() + s.links.len() as int
}

/// Whether the store can take `n` more writes.
pub open spec fn has_room(s: StoreView, n: int) -> bool {
    clock(s) + n <= u64::MAX
}

/// The record at `id`, if it exists and is not tombstoned.
pub open spec fn record_of(s: StoreView, id: u64) -> Option<RecordView> {
    if id < s.records.len() && s.records[id as int].live {
        Some(s.records[id as int])
    } else {
        None
    }
}

/// Whether `n` names an entity record that was written (it may be tombstoned).
pub open spec fn known_in(s: StoreView, n: NodeIdView) -> bool {
    n matches NodeIdView::Thing(h) ==> h < s.records.len()
}

/// Whether an edge has the shape its partition asks for: the target has the
/// kind the partition names, a revision-chain edge goes from an entity to a
/// newer record, and agents are attached to an entity.
pub open spec fn link_shaped(s: StoreView, l: LinkView) -> bool {
    match l.link_type {
        LinkTypes::ToAgent => l.target is Agent,
        LinkTypes::ToAnchor => l.target is Anchor,
        LinkTypes::ToThing => l.target is Thing,
        LinkTypes::ThingUpdates => match (l.base, l.target) {
            (NodeIdView::Thing(b), NodeIdView::Thing(t)) => b < s.records.len() && t
                < s.records.len() && s.records[b as int].timestamp < s.records[t as int].timestamp,
            _ => false,
        },
        LinkTypes::ThingToAgents => l.base is Thing && l.target is Agent,
    }
}

/// Well-formedness: the clock fits in a timestamp, every write is stamped
/// before the clock, an edge's entity ends are records that were written,
/// every edge has the shape of its partition, and revision-chain edges are
/// never deleted.
pub open spec fn store_wf(s: StoreView) -> bool {
    &&& clock(s) <= u64::MAX
    &&& forall|i: int| 0 <= i < s.records.len() ==> #[trigger] s.records[i].timestamp < clock(s)
    &&& forall|i: int| 0 <= i < s.links.len() ==> #[trigger] s.links[i].timestamp < clock(s)
    &&& forall|i: int|
        0 <= i < s.links.len() ==> known_in(s, (#[trigger] s.links[i]).base) && known_in(
            s,
            s.links[i].target,
        )
    &&& forall|i: int| 0 <= i < s.links.len() ==> link_shaped(s, #[trigger] s.links[i])
    &&& forall|i: int|
        0 <= i < s.links.len() && (#[trigger] s.links[i]).link_type == LinkTypes::ThingUpdates
            ==> s.links[i].live
}

/// Whether an edge from `base` to `target` in partition `link_type` may be
/// written: an entity at either end has a live record, and the edge has the
/// shape its partition asks for (see [`link_shaped`]).
pub open spec fn link_valid(s: StoreView, base: NodeIdView, target: NodeIdView, link_type: LinkTypes) -> bool {
    &&& (base matches NodeIdView::Thing(b) ==> record_of(s, b) is Some)
    &&& (target matches NodeIdView::Thing(t) ==> record_of(s, t) is Some)
    &&& link_shaped(s, LinkView { base, target, link_type, tag: Seq::empty(), timestamp: 0, author: 0, live: true })
}

/// The store after appending a record written now.
pub open spec fn with_record(s: StoreView, content: Seq<char>) -> StoreView {
    StoreView {
        records: s.records.push(
            RecordView { author: s.agent, timestamp: clock(s) as u64, content, live: true },
        ),
        ..s
    }
}

/// The edge written now from `base` to `target`.
pub open spec fn new_link(
    s: StoreView,
    base: NodeIdView,
    target: NodeIdView,
    link_type: LinkTypes,
    tag: Seq<u8>,
) -> LinkView {
    LinkView {
        base,
        target,
        link_type,
        tag,
        timestamp: clock(s) as u64,
        author: s.agent,
        live: true,
    }
}

/// The store after appending an edge.
pub open spec fn with_link(s: StoreView, l: LinkView) -> StoreView {
    StoreView { links: s.links.push(l), ..s }
}

/// The live edges based at `base` in partition `link_type`, by address, in
/// the order they were written.
pub open spec fn link_ids(links: Seq<LinkView>, base: NodeIdView, link_type: LinkTypes) -> Seq<
    u64,
>
    decreases links.len(),
{
    if links.len() == 0 {
        Seq::empty()
    } else {
        let prev = link_ids(links.drop_last(), base, link_type);
        let l = links.last();
        if l.live && l.base == base && l.link_type == link_type {
            prev.push((links.len() - 1) as u64)
        } else {
            prev
        }
    }
}

impl Store {
    /// An empty store that writes on behalf of `agent`.
    pub fn new(agent: AgentPubKey) -> (r: Store)
        ensures
            r@.agent == agent,
            r@.records.len() == 0,
            r@.links.len() == 0,
            store_wf(r@),
    {
        Store { agent, records: Vec::new(), links: Vec::new() }
    }

    /// The agent this store writes for.
    pub fn agent_pub_key(&self) -> (r: AgentPubKey)
        ensures
            r == self@.agent,
    {
        self.agent
    }

    /// The number of records written so far.
    pub fn record_count(&self) -> (r: usize)
        ensures
            r == self@.records.len(),
    {
        self.records.len()
    }

    /// The number of edges written so far.
    pub fn link_count(&self) -> (r: usize)
        ensures
            r == self@.links.len(),
    {
        self.links.len()
    }

    /// The record at `id` unless it is missing or tombstoned.
    pub fn get(&self, id: ActionHash) -> (r: Option<&ThingRecord>)
        ensures
            match record_of(self@, id) {
                Some(v) => r matches Some(x) && x@ == v,
                None => r is None,
            },
    {
        if id >= self.records.len() as u64 {
            return None;
        }
        let rec = &self.records[id as usize];
        if rec.live {
            Some(rec)
        } else {
            None
        }
    }

    /// The record at `id`, live or tombstoned.
    pub fn record_at(&self, id: ActionHash) -> (r: Option<&ThingRecord>)
        ensures
            id < self@.records.len() ==> (r matches Some(x) && x@ == self@.records[id as int]),
            id >= self@.records.len() ==> r is None,
    {
        if id >= self.records.len() as u64 {
            return None;
        }
        Some(&self.records[id as usize])
    }

    /// The edge at `id`, live or dead.
    pub fn link_at(&self, id: ActionHash) -> (r: Option<&Link>)
        ensures
            id < self@.links.len() ==> (r matches Some(l) && l@ == self@.links[id as int]),
            id >= self@.links.len() ==> r is None,
    {
        if id >= self.links.len() as u64 {
            return None;
        }
        Some(&self.links[id as usize])
    }

    fn now(&self) -> (r: Result<Timestamp, GraphError>)
        requires
            store_wf(self@),
        ensures
            has_room(self@, 1) ==> r == Ok::<u64, GraphError>(clock(self@) as u64),
            !has_room(self@, 1) ==> r == Err::<u64, GraphError>(GraphError::SubstrateError),
    {
        let n = self.records.len() as u64 + self.links.len() as u64;
        if n == u64::MAX {
            return Err(GraphError::SubstrateError);
        }
        Ok(n)
    }

    /// Writes a new entity record; its address is returned.
    pub fn create_entry(&mut self, content: String) -> (r: Result<ActionHash, GraphError>)
        requires
            store_wf(old(self)@),
        ensures
            store_wf(final(self)@),
            has_room(old(self)@, 1) ==> r == Ok::<u64, GraphError>(old(self)@.records.len() as u64)
                && final(self)@ == with_record(old(self)@, content@),
            !has_room(old(self)@, 1) ==> r == Err::<u64, GraphError>(GraphError::SubstrateError)
                && final(self)@ == old(self)@,
    {
        let ts = match self.now() {
            Ok(t) => t,
            Err(e) => return Err(e),
        };
        let id = self.records.len() as u64;
        let ghost s0 = self@;
        self.records.push(ThingRecord { author: self.agent, timestamp: ts, content, live: true });
        assert(self@.records =~= with_record(s0, content@).records);
        assert(self@.links =~= s0.links);
        Ok(id)
    }

    /// Tombstones a record; fails when it is missing or already tombstoned.
    pub fn delete_entry(&mut self, id: ActionHash) -> (r: Result<(), GraphError>)
        requires
            store_wf(old(self)@),
        ensures
            store_wf(final(self)@),
            record_of(old(self)@, id) is None ==> r == Err::<(), GraphError>(GraphError::NotFound)
                && final(self)@ == old(self)@,
            record_of(old(self)@, id) is Some ==> r is Ok && final(self)@ == (StoreView {
                records: old(self)@.records.update(
                    id as int,
                    RecordView { live: false, ..old(self)@.records[id as int] },
                ),
                ..old(self)@
            }),
    {
        if id >= self.records.len() as u64 || !self.records[id as usize].live {
            return Err(GraphError::NotFound);
        }
        let ghost s0 = self@;
        let i = id as usize;
        self.records[i].live = false;
        assert(self@.records =~= s0.records.update(
            id as int,
            RecordView { live: false, ..s0.records[id as int] },
        ));
        assert(self@.links =~= s0.links);
        Ok(())
    }

    /// Whether an edge may be written; see [`link_valid`].
    pub fn validate_create_link(&self, base: &NodeId, target: &NodeId, link_type: LinkTypes) -> (r: bool)
        ensures
            r == link_valid(self@, base@, target@, link_type),
    {
        if let NodeId::Thing(b) = base {
            if self.get(*b).is_none() {
                return false;
            }
        }
        if let NodeId::Thing(t) = target {
            if self.get(*t).is_none() {
                return false;
            }
        }
        match link_type {
            LinkTypes::ToAgent => matches!(target, NodeId::Agent(_)),
            LinkTypes::ToAnchor => matches!(target, NodeId::Anchor(_)),
            LinkTypes::ToThing => matches!(target, NodeId::Thing(_)),
            LinkTypes::ThingUpdates => match (base, target) {
                (NodeId::Thing(b), NodeId::Thing(t)) => match (self.record_at(*b), self.record_at(*t)) {
                    (Some(x), Some(y)) => x.timestamp < y.timestamp,
                    _ => false,
                },
                _ => false,
            },
            LinkTypes::ThingToAgents => matches!(base, NodeId::Thing(_)) && matches!(target, NodeId::Agent(_)),
        }
    }

    /// Writes a new edge; its address is returned. An edge that
    /// [`link_valid`] refuses fails with `InvariantViolation`.
    pub fn create_link(
        &mut self,
        base: NodeId,
        target: NodeId,
        link_type: LinkTypes,
        tag: Vec<u8>,
    ) -> (r: Result<ActionHash, GraphError>)
        requires
            store_wf(old(self)@),
        ensures
            store_wf(final(self)@),
            !link_valid(old(self)@, base@, target@, link_type) ==> r == Err::<u64, GraphError>(
                GraphError::InvariantViolation,
            ) && final(self)@ == old(self)@,
            link_valid(old(self)@, base@, target@, link_type) && !has_room(old(self)@, 1) ==> r
                == Err::<u64, GraphError>(GraphError::SubstrateError) && final(self)@ == old(self)@,
            link_valid(old(self)@, base@, target@, link_type) && has_room(old(self)@, 1) ==> r
                == Ok::<u64, GraphError>(old(self)@.links.len() as u64)
                && final(self)@ == with_link(
                old(self)@,
                new_link(old(self)@, base@, target@, link_type, tag@),
            ),
    {
        if !self.validate_create_link(&base, &target, link_type) {
            return Err(GraphError::InvariantViolation);
        }
        let ts = match self.now() {
            Ok(t) => t,
            Err(e) => return Err(e),
        };
        let id = self.links.len() as u64;
        let ghost s0 = self@;
        let ghost l = new_link(s0, base@, target@, link_type, tag@);
        self.links.push(Link { base, target, link_type, tag, timestamp: ts, author: self.agent, live: true });
        assert(self@.links =~= s0.links.push(l));
        assert(self@.records =~= s0.records);
        Ok(id)
    }

    /// Marks an edge deleted. Deleting a dead edge again changes nothing; an
    /// address that names no edge is refused, and so is a revision-chain edge.
    pub fn delete_link(&mut self, id: ActionHash) -> (r: Result<(), GraphError>)
        requires
            store_wf(old(self)@),
        ensures
            store_wf(final(self)@),
            id >= old(self)@.links.len() ==> r == Err::<(), GraphError>(GraphError::NotFound)
                && final(self)@ == old(self)@,
            id < old(self)@.links.len() && old(self)@.links[id as int].link_type
                == LinkTypes::ThingUpdates ==> r == Err::<(), GraphError>(
                GraphError::InvariantViolation,
            ) && final(self)@ == old(self)@,
            id < old(self)@.links.len() && old(self)@.links[id as int].link_type
                != LinkTypes::ThingUpdates ==> r is Ok && final(self)@ == (StoreView {
                links: old(self)@.links.update(
                    id as int,
                    LinkView { live: false, ..old(self)@.links[id as int] },
                ),
                ..old(self)@
            }),
    {
        if id >= self.links.len() as u64 {
            return Err(GraphError::NotFound);
        }
        let i = id as usize;
        if self.links[i].link_type == LinkTypes::ThingUpdates {
            return Err(GraphError::InvariantViolation);
        }
        let ghost s0 = self@;
        self.links[i].live = false;
        assert(self@.links =~= s0.links.update(
            id as int,
            LinkView { live: false, ..s0.links[id as int] },
        ));
        assert(self@.records =~= s0.records);
        Ok(())
    }

    /// The addresses of the live edges based at `base` in partition `link_type`,
    /// in the order they were written.
    pub fn get_links(&self, base: &NodeId, link_type: LinkTypes) -> (r: Vec<ActionHash>)
        ensures
            r@ == link_ids(self@.links, base@, link_type),
            forall|k: int| 0 <= k < r@.len() ==> #[trigger] r@[k] < self@.links.len(),
    {
        let mut out: Vec<ActionHash> = Vec::new();
        let mut i: usize = 0;
        while i < self.links.len()
            invariant
                i <= self@.links.len(),
                out@ == link_ids(self@.links.take(i as int), base@, link_type),
                forall|k: int| 0 <= k < out@.len() ==> #[trigger] out@[k] < i,
            decreases self@.links.len() - i,
        {
            let l = &self.links[i];
            assert(self@.links.take(i + 1).drop_last() =~= self@.links.take(i as int));
            assert(self@.links.take(i + 1).last() == l@);
            if l.live && l.link_type == link_type && l.base.same_as(base) {
                out.push(i as u64);
            }
            i = i + 1;
        }
        assert(self@.links.take(i as int) =~= self@.links);
        out
    }
}

} // verus!
