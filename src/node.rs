use vstd::prelude::*;

verus! {

/// Content address of a record or of an edge-creation record.
pub type ActionHash = u64;

/// Public key of an actor.
pub type AgentPubKey = u64;

/// Logical time of a write.
pub type Timestamp = u64;

/// Errors of the graph layer.
#[derive(Clone, Copy, Debug, PartialEq, Eq, Structural)]
pub enum GraphError {
    /// A referenced record or edge is absent.
    NotFound,
    /// Tag bytes that do not decode.
    DecodeError,
    /// A value that breaks an invariant of the data model (an empty anchor label,
    /// entity metadata missing from a tag that points to an entity).
    InvariantViolation,
    /// The store refused a write (it has no room left).
    SubstrateError,
}

/// The partition of an edge, chosen by the kind of the edge's target.
#[derive(Clone, Copy, Debug, PartialEq, Eq, Structural)]
pub enum LinkTypes {
    ToAgent,
    ToAnchor,
    ToThing,
    /// The revision chain of an entity: base is the entity id, target a newer record.
    ThingUpdates,
    /// Agents attached to an entity; these edges carry no payload.
    ThingToAgents,
}

/// Whether edges of this partition carry a tag payload: the partitions chosen
/// by the kind of the target.
pub open spec fn is_node_partition(t: LinkTypes) -> bool {
    t == LinkTypes::ToAgent || t == LinkTypes::ToAnchor || t == LinkTypes::ToThing
}

/// Direction of a requested relation, seen from its source node.
#[derive(Clone, Copy, Debug, PartialEq, Eq, Structural)]
pub enum LinkDirection {
    From,
    To,
    Bidirectional,
}

/// A node of the graph: an identity key, an anchor label or an entity id.
#[derive(Clone, Debug, PartialEq, Eq)]
pub enum NodeId {
    Agent(AgentPubKey),
    Anchor(String),
    Thing(ActionHash),
}

/// Mathematical value of a [`NodeId`].
pub enum NodeIdView {
    Agent(u64),
    Anchor(Seq<char>),
    Thing(u64),
}

impl View for NodeId {
    type V = NodeIdView;

    open spec fn view(&self) -> NodeIdView {
        match self {
            NodeId::Agent(a) => NodeIdView::Agent(*a),
            NodeId::Anchor(s) => NodeIdView::Anchor(s@),
            NodeId::Thing(h) => NodeIdView::Thing(*h),
        }
    }
}

/// The partition that holds edges whose target is `n`.
pub open spec fn partition_of(n: NodeIdView) -> LinkTypes {
    match n {
        NodeIdView::Agent(_) => LinkTypes::ToAgent,
        NodeIdView::Anchor(_) => LinkTypes::ToAnchor,
        NodeIdView::Thing(_) => LinkTypes::ToThing,
    }
}

/// A node reference that can be resolved to a key: anchors need a label.
pub open spec fn resolvable(n: NodeIdView) -> bool {
    match n {
        NodeIdView::Anchor(s) => s.len() > 0,
        _ => true,
    }
}

impl NodeId {
    /// A copy of this node reference.
    pub fn duplicate(&self) -> (r: NodeId)
        ensures
            r@ == self@,
    {
        match self {
            NodeId::Agent(a) => NodeId::Agent(*a),
            NodeId::Anchor(s) => NodeId::Anchor(s.clone()),
            NodeId::Thing(h) => NodeId::Thing(*h),
        }
    }

    /// Whether two node references denote the same node.
    pub fn same_as(&self, other: &NodeId) -> (r: bool)
        ensures
            r == (self@ == other@),
    {
        match (self, other) {
            (NodeId::Agent(a), NodeId::Agent(b)) => *a == *b,
            (NodeId::Anchor(a), NodeId::Anchor(b)) => a.eq(b),
            (NodeId::Thing(a), NodeId::Thing(b)) => *a == *b,
            _ => false,
        }
    }

    /// The partition of edges that point to this node.
    pub fn partition(&self) -> (r: LinkTypes)
        ensures
            r == partition_of(self@),
    {
        match self {
            NodeId::Agent(_) => LinkTypes::ToAgent,
            NodeId::Anchor(_) => LinkTypes::ToAnchor,
            NodeId::Thing(_) => LinkTypes::ToThing,
        }
    }
}

/// Resolves a node reference to the key under which its edges are indexed.
/// Identities and entity ids are their own keys; an anchor is keyed by its
/// label, so the same label always gives the same key. An empty label is refused.
pub fn linkable_hash_from_node_id(node_id: &NodeId) -> (r: Result<NodeId, GraphError>)
    ensures
        resolvable(node_id@) ==> r is Ok && r->Ok_0@ == node_id@,
        !resolvable(node_id@) ==> r == Err::<NodeId, GraphError>(GraphError::InvariantViolation),
{
    match node_id {
        NodeId::Anchor(s) => {
            if s.as_str().is_empty() {
                return Err(GraphError::InvariantViolation);
            }
            Ok(NodeId::Anchor(s.clone()))
        },
        _ => Ok(node_id.duplicate()),
    }
}

/// The anchor label a node reference carries, if it is an anchor.
pub fn anchor_string_from_node_id(node_id: NodeId) -> (r: Option<String>)
    ensures
        match node_id@ {
            NodeIdView::Anchor(s) => r is Some && r->Some_0@ == s,
            _ => r is None,
        },
{
    match node_id {
        NodeId::Anchor(s) => Some(s),
        _ => None,
    }
}

} // verus!
