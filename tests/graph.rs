use generic_zome::entity::{
    add_agent_to_anchor, create_thing, delete_thing, CreateThingInput, DeleteThingInput,
    SIMPLE_HOLOCHAIN_ALL_AGENTS,
};
use generic_zome::links::{create_links_from_node, CreateOrDeleteLinksInput, LinkInput};
use generic_zome::node::{
    anchor_string_from_node_id, linkable_hash_from_node_id, GraphError, LinkDirection, LinkTypes,
    NodeId,
};
use generic_zome::queries::{
    batch_get_node_and_linked_node_ids, get_all_linked_node_ids, get_all_linked_nodes,
    get_linked_agents, get_linked_anchors, get_linked_thing_ids, get_linked_things,
    get_node_and_linked_node_ids, NodeContent,
};
use generic_zome::store::Store;
use generic_zome::thing_agents::{
    add_agent_for_thing, delete_agent_for_thing, get_agents_for_thing,
    get_deleted_agents_for_thing, AddAgentForThingInput, RemoveAgentForThingInput,
};
use generic_zome::tag::{derive_link_tag, deserialize_link_tag, serialize_link_tag, LinkTagContent};
use generic_zome::things::{
    get_all_revisions_for_thing, get_latest_thing, get_latest_things, get_original_thing,
    supersedes, update_thing, UpdateThingInput,
};
use generic_zome::unlink::delete_links_from_node;

const ME: u64 = 7;

fn new_thing(store: &mut Store, content: &str) -> u64 {
    let c = create_thing(store, CreateThingInput { content: content.to_string(), links: None })
        .unwrap();
    assert!(c.links.unwrap().is_empty());
    c.thing.id
}

fn anchor(label: &str) -> NodeId {
    NodeId::Anchor(label.to_string())
}

fn link(direction: LinkDirection, node_id: NodeId, tag: Option<Vec<u8>>) -> LinkInput {
    LinkInput { direction, node_id, tag }
}

fn links_from(store: &mut Store, src: NodeId, links: Vec<LinkInput>) {
    create_links_from_node(store, &CreateOrDeleteLinksInput { src, links }).unwrap();
}

fn listed_ids(store: &Store, node: &NodeId) -> Vec<(NodeId, Option<Vec<u8>>)> {
    get_all_linked_node_ids(store, node)
        .unwrap()
        .into_iter()
        .map(|x| (x.node_id, x.meta_tag.tag))
        .collect()
}

#[test]
fn create_then_read_latest() {
    let mut store = Store::new(ME);
    let c = create_thing(&mut store, CreateThingInput { content: "hello".to_string(), links: None })
        .unwrap();
    assert_eq!(c.thing.id, 0);
    assert_eq!(c.thing.content, "hello");
    assert_eq!(c.thing.creator, ME);
    assert_eq!(c.thing.created_at, 0);
    assert_eq!(c.thing.updated_at, None);
    let latest = get_latest_thing(&store, c.thing.id).unwrap();
    assert_eq!(latest, c.thing);
    assert_eq!(get_original_thing(&store, c.thing.id).unwrap(), c.thing);
}

#[test]
fn update_keeps_original_and_history() {
    let mut store = Store::new(ME);
    let id = new_thing(&mut store, "one");
    let updated = update_thing(
        &mut store,
        UpdateThingInput { thing_id: id, updated_content: "two".to_string() },
    )
    .unwrap();
    assert_eq!(updated.update_action_hash, 1);
    assert_eq!(updated.update_link_action_hash, 0);
    assert_eq!(store.link_at(0).unwrap().target, NodeId::Thing(1));
    let updated = updated.thing;
    assert_eq!(updated.id, id);
    assert_eq!(updated.content, "two");
    assert_eq!(updated.created_at, 0);
    assert_eq!(updated.updated_at, Some(1));
    assert_eq!(get_latest_thing(&store, id).unwrap().content, "two");
    assert_eq!(get_original_thing(&store, id).unwrap().content, "one");
    assert_eq!(get_original_thing(&store, id).unwrap().updated_at, None);
    let history = get_all_revisions_for_thing(&store, id).unwrap();
    assert_eq!(history.len(), 2);
    assert_eq!(history[0].content, "one");
    assert_eq!(history[1].content, "two");
}

#[test]
fn hello_world_scenario() {
    let mut store = Store::new(ME);
    let e1 = new_thing(&mut store, "hello");
    let t = update_thing(
        &mut store,
        UpdateThingInput { thing_id: e1, updated_content: "world".to_string() },
    )
    .unwrap()
    .thing;
    assert_eq!(t.id, e1);
    assert_eq!(t.content, "world");
    let t2 = t.updated_at.unwrap();
    assert!(t2 > t.created_at);
    let revs = get_all_revisions_for_thing(&store, e1).unwrap();
    let contents: Vec<&str> = revs.iter().map(|r| r.content.as_str()).collect();
    assert_eq!(contents, vec!["hello", "world"]);
    assert_eq!(revs[0].updated_at, None);
    assert_eq!(revs[1].updated_at, Some(t2));
}

#[test]
fn latest_follows_the_newest_of_several_updates() {
    let mut store = Store::new(ME);
    let id = new_thing(&mut store, "a");
    for c in ["b", "c", "d"] {
        update_thing(&mut store, UpdateThingInput { thing_id: id, updated_content: c.to_string() })
            .unwrap();
    }
    assert_eq!(get_latest_thing(&store, id).unwrap().content, "d");
    assert_eq!(get_all_revisions_for_thing(&store, id).unwrap().len(), 4);
    let batch = get_latest_things(&store, &vec![id, 99]);
    assert_eq!(batch.len(), 2);
    assert_eq!(batch[0].as_ref().unwrap().content, "d");
    assert_eq!(batch[1], None);
}

#[test]
fn update_of_missing_entity_is_not_found() {
    let mut store = Store::new(ME);
    let r = update_thing(&mut store, UpdateThingInput { thing_id: 3, updated_content: "x".to_string() });
    assert_eq!(r, Err(GraphError::NotFound));
    assert_eq!(store.record_count(), 0);
    assert_eq!(store.link_count(), 0);
    assert_eq!(get_all_revisions_for_thing(&store, 3), Err(GraphError::NotFound));
    assert_eq!(get_latest_thing(&store, 3), None);
}

#[test]
fn tag_round_trip_on_every_node_kind() {
    let payloads = vec![
        LinkTagContent {
            tag: None,
            backlink_action_hash: None,
            target_node_id: NodeId::Agent(5),
            thing_created_at: None,
            thing_created_by: None,
        },
        LinkTagContent {
            tag: Some(vec![]),
            backlink_action_hash: Some(u64::MAX),
            target_node_id: anchor("root/ünïcode"),
            thing_created_at: None,
            thing_created_by: None,
        },
        LinkTagContent {
            tag: Some(vec![9, 0, 255]),
            backlink_action_hash: Some(3),
            target_node_id: NodeId::Thing(12),
            thing_created_at: Some(4),
            thing_created_by: Some(ME),
        },
    ];
    for p in payloads {
        let bytes = serialize_link_tag(&p);
        assert_eq!(deserialize_link_tag(&bytes).unwrap(), p);
    }
}

#[test]
fn tag_bytes_have_the_documented_layout() {
    let p = LinkTagContent {
        tag: Some(vec![9]),
        backlink_action_hash: None,
        target_node_id: anchor("ab"),
        thing_created_at: None,
        thing_created_by: Some(1),
    };
    let expected: Vec<u8> = vec![
        1, 1, 0, 0, 0, 0, 0, 0, 0, 9, // caller tag [9]
        0, // no backlink
        1, 2, 0, 0, 0, 0, 0, 0, 0, b'a', b'b', // anchor "ab"
        0, // no creation time
        1, 1, 0, 0, 0, 0, 0, 0, 0, // creator 1
    ];
    assert_eq!(serialize_link_tag(&p), expected);
}

#[test]
fn malformed_tags_are_decode_errors() {
    let p = LinkTagContent {
        tag: Some(vec![1, 2, 3]),
        backlink_action_hash: Some(8),
        target_node_id: anchor("x"),
        thing_created_at: None,
        thing_created_by: None,
    };
    let bytes = serialize_link_tag(&p);
    for cut in 0..bytes.len() {
        assert_eq!(deserialize_link_tag(&bytes[..cut].to_vec()), Err(GraphError::DecodeError));
    }
    let mut longer = bytes.clone();
    longer.push(0);
    assert_eq!(deserialize_link_tag(&longer), Err(GraphError::DecodeError));
    let mut bad_flag = bytes.clone();
    bad_flag[0] = 2;
    assert_eq!(deserialize_link_tag(&bad_flag), Err(GraphError::DecodeError));
    // an anchor label that is not UTF-8
    let not_utf8: Vec<u8> = vec![0, 0, 1, 1, 0, 0, 0, 0, 0, 0, 0, 0xff, 0, 0];
    assert_eq!(deserialize_link_tag(&not_utf8), Err(GraphError::DecodeError));
}

#[test]
fn entity_tags_need_creation_metadata() {
    let r = derive_link_tag(None, None, NodeId::Thing(1), Some(2), None);
    assert_eq!(r, Err(GraphError::InvariantViolation));
    let (bytes, content) = derive_link_tag(Some(vec![4]), None, NodeId::Thing(1), Some(2), Some(3)).unwrap();
    assert_eq!(deserialize_link_tag(&bytes).unwrap(), content);
    assert_eq!(content.thing_created_by, Some(3));
}

#[test]
fn anchors_resolve_by_label() {
    assert_eq!(linkable_hash_from_node_id(&anchor("root")), Ok(anchor("root")));
    assert_eq!(linkable_hash_from_node_id(&anchor("")), Err(GraphError::InvariantViolation));
    assert_eq!(linkable_hash_from_node_id(&NodeId::Thing(4)), Ok(NodeId::Thing(4)));
    assert_eq!(anchor_string_from_node_id(anchor("k")), Some("k".to_string()));
    assert_eq!(anchor_string_from_node_id(NodeId::Agent(1)), None);
    let store = Store::new(ME);
    assert_eq!(get_linked_anchors(&store, &anchor("")), Err(GraphError::InvariantViolation));
}

#[test]
fn bidirectional_link_is_listed_from_both_sides() {
    let mut store = Store::new(ME);
    let a = new_thing(&mut store, "a");
    let b = new_thing(&mut store, "b");
    links_from(&mut store, NodeId::Thing(a), vec![link(LinkDirection::Bidirectional, NodeId::Thing(b), Some(vec![1]))]);
    let from_a = get_linked_thing_ids(&store, &NodeId::Thing(a)).unwrap();
    assert_eq!(from_a.len(), 1);
    assert_eq!(from_a[0].0, b);
    assert_eq!(from_a[0].1.tag, Some(vec![1]));
    assert!(from_a[0].1.backlink_action_hash.is_some());
    assert_eq!(from_a[0].1.thing_created_at, Some(1));
    let from_b = get_linked_thing_ids(&store, &NodeId::Thing(b)).unwrap();
    assert_eq!(from_b.len(), 1);
    assert_eq!(from_b[0].0, a);
    assert_eq!(from_b[0].1.tag, Some(vec![1]));
    assert_eq!(from_b[0].1.backlink_action_hash, None);
    assert_eq!(from_b[0].1.thing_created_at, Some(0));
}

#[test]
fn bidirectional_link_to_anchor_and_agent() {
    let mut store = Store::new(ME);
    let x = new_thing(&mut store, "x");
    links_from(
        &mut store,
        NodeId::Thing(x),
        vec![
            link(LinkDirection::Bidirectional, anchor("root"), Some(vec![2])),
            link(LinkDirection::Bidirectional, NodeId::Agent(42), None),
        ],
    );
    assert_eq!(listed_ids(&store, &NodeId::Thing(x)), vec![(anchor("root"), Some(vec![2])), (NodeId::Agent(42), None)]);
    assert_eq!(listed_ids(&store, &anchor("root")), vec![(NodeId::Thing(x), Some(vec![2]))]);
    assert_eq!(listed_ids(&store, &NodeId::Agent(42)), vec![(NodeId::Thing(x), None)]);
    let anchors = get_linked_anchors(&store, &NodeId::Thing(x)).unwrap();
    assert_eq!(anchors[0].0, "root");
    let agents = get_linked_agents(&store, &NodeId::Thing(x)).unwrap();
    assert_eq!(agents[0].0, 42);
}

#[test]
fn to_and_from_write_one_edge_each() {
    let mut store = Store::new(ME);
    let x = new_thing(&mut store, "x");
    let made = create_links_from_node(
        &mut store,
        &CreateOrDeleteLinksInput {
            src: NodeId::Thing(x),
            links: vec![
                link(LinkDirection::To, anchor("out"), None),
                link(LinkDirection::From, anchor("in"), Some(vec![5])),
            ],
        },
    )
    .unwrap();
    assert_eq!(made.len(), 2);
    assert_eq!(store.link_count(), 2);
    assert_eq!(made[0].src, NodeId::Thing(x));
    assert_eq!(made[0].dst, anchor("out"));
    assert_eq!(made[1].src, anchor("in"));
    assert_eq!(made[1].dst, NodeId::Thing(x));
    assert_eq!(made[1].meta_tag.target_node_id, NodeId::Thing(x));
    assert_eq!(listed_ids(&store, &NodeId::Thing(x)), vec![(anchor("out"), None)]);
    assert_eq!(listed_ids(&store, &anchor("in")), vec![(NodeId::Thing(x), Some(vec![5]))]);
    assert_eq!(listed_ids(&store, &anchor("out")), vec![]);
    let l = store.link_at(made[1].create_action_hash).unwrap();
    assert_eq!(l.link_type, LinkTypes::ToThing);
}

#[test]
fn linking_a_missing_entity_fails_and_reports_progress() {
    let mut store = Store::new(ME);
    let x = new_thing(&mut store, "x");
    let r = create_links_from_node(
        &mut store,
        &CreateOrDeleteLinksInput {
            src: NodeId::Thing(x),
            links: vec![
                link(LinkDirection::To, anchor("ok"), None),
                link(LinkDirection::Bidirectional, NodeId::Thing(99), None),
                link(LinkDirection::To, anchor("never"), None),
            ],
        },
    );
    let p = r.unwrap_err();
    assert_eq!(p.error, GraphError::NotFound);
    assert_eq!(p.completed.len(), 1);
    assert_eq!(p.completed[0].dst, anchor("ok"));
    assert_eq!(store.link_count(), 1);
    let r = create_links_from_node(
        &mut store,
        &CreateOrDeleteLinksInput { src: NodeId::Thing(x), links: vec![link(LinkDirection::To, anchor(""), None)] },
    );
    assert_eq!(r.unwrap_err().error, GraphError::InvariantViolation);
}

#[test]
fn deleting_the_forward_edge_removes_both() {
    let mut store = Store::new(ME);
    let a = new_thing(&mut store, "a");
    let b = new_thing(&mut store, "b");
    links_from(&mut store, NodeId::Thing(a), vec![link(LinkDirection::Bidirectional, NodeId::Thing(b), Some(vec![7]))]);
    let removed = delete_links_from_node(
        &mut store,
        &CreateOrDeleteLinksInput { src: NodeId::Thing(a), links: vec![link(LinkDirection::To, NodeId::Thing(b), Some(vec![7]))] },
    )
    .unwrap();
    assert_eq!(removed.len(), 2);
    assert_eq!(removed[0].src, NodeId::Thing(b));
    assert_eq!(removed[1].src, NodeId::Thing(a));
    assert!(listed_ids(&store, &NodeId::Thing(a)).is_empty());
    assert!(listed_ids(&store, &NodeId::Thing(b)).is_empty());
}

#[test]
fn deleting_with_another_tag_removes_nothing() {
    let mut store = Store::new(ME);
    let a = new_thing(&mut store, "a");
    links_from(&mut store, NodeId::Thing(a), vec![link(LinkDirection::Bidirectional, anchor("r"), Some(vec![1]))]);
    let removed = delete_links_from_node(
        &mut store,
        &CreateOrDeleteLinksInput { src: NodeId::Thing(a), links: vec![link(LinkDirection::To, anchor("r"), Some(vec![2]))] },
    )
    .unwrap();
    assert!(removed.is_empty());
    assert_eq!(listed_ids(&store, &anchor("r")).len(), 1);
}

#[test]
fn deleting_a_from_relation_flips_the_side() {
    let mut store = Store::new(ME);
    let x = new_thing(&mut store, "x");
    links_from(&mut store, NodeId::Thing(x), vec![link(LinkDirection::From, anchor("in"), None)]);
    assert_eq!(listed_ids(&store, &anchor("in")).len(), 1);
    let removed = delete_links_from_node(
        &mut store,
        &CreateOrDeleteLinksInput { src: NodeId::Thing(x), links: vec![link(LinkDirection::From, anchor("in"), None)] },
    )
    .unwrap();
    assert_eq!(removed.len(), 1);
    assert_eq!(removed[0].src, anchor("in"));
    assert!(listed_ids(&store, &anchor("in")).is_empty());
}

#[test]
fn cascade_delete_removes_backlinks_only() {
    let mut store = Store::new(ME);
    let c = create_thing(
        &mut store,
        CreateThingInput {
            content: "x".to_string(),
            links: Some(vec![link(LinkDirection::Bidirectional, anchor("root"), Some(vec![9]))]),
        },
    )
    .unwrap();
    let x = c.thing.id;
    let made = c.links.unwrap();
    assert_eq!(made.len(), 2);
    assert_eq!(listed_ids(&store, &anchor("root")), vec![(NodeId::Thing(x), Some(vec![9]))]);
    let removed = delete_thing(
        &mut store,
        DeleteThingInput { thing_id: x, delete_backlinks: true, delete_links_from_creator: false, delete_links: None },
    )
    .unwrap();
    assert_eq!(removed.len(), 1);
    assert_eq!(removed[0].create_action_hash, made[1].create_action_hash);
    assert_eq!(removed[0].src, anchor("root"));
    assert_eq!(removed[0].dst, NodeId::Thing(x));
    assert_eq!(removed[0].tag, Some(vec![9]));
    assert!(get_linked_thing_ids(&store, &anchor("root")).unwrap().is_empty());
    // the forward edge from x is still in the index
    assert_eq!(made[0].src, NodeId::Thing(x));
    assert_eq!(made[1].src, anchor("root"));
    assert_eq!(made[0].meta_tag.backlink_action_hash, Some(made[1].create_action_hash));
    let forward = store.link_at(made[0].create_action_hash).unwrap();
    assert!(forward.live);
    assert_eq!(forward.base, NodeId::Thing(x));
    assert_eq!(get_linked_anchors(&store, &NodeId::Thing(x)).unwrap().len(), 1);
    assert_eq!(get_latest_thing(&store, x), None);
    assert_eq!(get_original_thing(&store, x), None);
}

#[test]
fn cascade_delete_of_creator_and_explicit_links() {
    let mut store = Store::new(ME);
    let x = new_thing(&mut store, "x");
    let y = new_thing(&mut store, "y");
    links_from(&mut store, NodeId::Agent(ME), vec![link(LinkDirection::To, NodeId::Thing(x), Some(vec![3]))]);
    links_from(&mut store, NodeId::Thing(x), vec![link(LinkDirection::To, NodeId::Thing(y), None)]);
    assert_eq!(listed_ids(&store, &NodeId::Agent(ME)).len(), 1);
    let removed = delete_thing(
        &mut store,
        DeleteThingInput {
            thing_id: x,
            delete_backlinks: false,
            delete_links_from_creator: true,
            delete_links: Some(vec![link(LinkDirection::To, NodeId::Thing(y), None)]),
        },
    )
    .unwrap();
    assert_eq!(removed.len(), 2);
    assert_eq!(removed[0].src, NodeId::Agent(ME));
    assert_eq!(removed[0].tag, Some(vec![3]));
    assert_eq!(removed[1].dst, NodeId::Thing(y));
    assert!(listed_ids(&store, &NodeId::Agent(ME)).is_empty());
    assert!(listed_ids(&store, &NodeId::Thing(x)).is_empty());
}

#[test]
fn deleting_a_missing_entity_is_not_found() {
    let mut store = Store::new(ME);
    let x = new_thing(&mut store, "x");
    let input = DeleteThingInput { thing_id: x, delete_backlinks: true, delete_links_from_creator: true, delete_links: None };
    assert_eq!(delete_thing(&mut store, input.clone()), Ok(vec![]));
    assert_eq!(delete_thing(&mut store, input), Err(GraphError::NotFound));
    let r = update_thing(&mut store, UpdateThingInput { thing_id: x, updated_content: "y".to_string() });
    assert_eq!(r, Err(GraphError::NotFound));
}

#[test]
fn linked_things_show_latest_content() {
    let mut store = Store::new(ME);
    let x = new_thing(&mut store, "x");
    let y = new_thing(&mut store, "y1");
    links_from(&mut store, NodeId::Thing(x), vec![link(LinkDirection::To, NodeId::Thing(y), None)]);
    update_thing(&mut store, UpdateThingInput { thing_id: y, updated_content: "y2".to_string() }).unwrap();
    let things = get_linked_things(&store, &NodeId::Thing(x)).unwrap();
    assert_eq!(things.len(), 1);
    assert_eq!(things[0].id, y);
    assert_eq!(things[0].content, "y2");
    let nodes = get_all_linked_nodes(&store, &NodeId::Thing(x)).unwrap();
    assert_eq!(nodes, vec![NodeContent::Thing(things[0].clone())]);
}

#[test]
fn node_with_linked_ids_and_batch() {
    let mut store = Store::new(ME);
    let x = new_thing(&mut store, "x");
    links_from(&mut store, NodeId::Thing(x), vec![link(LinkDirection::To, NodeId::Agent(1), None)]);
    let n = get_node_and_linked_node_ids(&store, &NodeId::Thing(x)).unwrap().unwrap();
    assert_eq!(n.content, NodeContent::Thing(get_latest_thing(&store, x).unwrap()));
    assert_eq!(n.linked_node_ids.len(), 1);
    assert_eq!(n.linked_node_ids[0].node_id, NodeId::Agent(1));
    assert_eq!(get_node_and_linked_node_ids(&store, &NodeId::Thing(50)), Ok(None));
    let batch = batch_get_node_and_linked_node_ids(&store, &vec![NodeId::Thing(50), anchor("a"), NodeId::Thing(x)]).unwrap();
    assert_eq!(batch.len(), 2);
    assert_eq!(batch[0].content, NodeContent::Anchor("a".to_string()));
    assert!(batch[0].linked_node_ids.is_empty());
    assert_eq!(batch[1], n);
    assert_eq!(batch_get_node_and_linked_node_ids(&store, &vec![anchor("")]), Err(GraphError::InvariantViolation));
}

#[test]
fn corrupt_tags_are_skipped_in_listings() {
    let mut store = Store::new(ME);
    let x = new_thing(&mut store, "x");
    links_from(&mut store, NodeId::Thing(x), vec![link(LinkDirection::To, NodeId::Agent(1), None)]);
    store.create_link(NodeId::Thing(x), NodeId::Agent(2), LinkTypes::ToAgent, vec![1, 2, 3]).unwrap();
    let agents = get_linked_agents(&store, &NodeId::Thing(x)).unwrap();
    assert_eq!(agents.len(), 1);
    assert_eq!(agents[0].0, 1);
    // a deletion that has to read the corrupt tag fails and deletes nothing
    let r = delete_links_from_node(
        &mut store,
        &CreateOrDeleteLinksInput { src: NodeId::Thing(x), links: vec![link(LinkDirection::To, NodeId::Agent(2), None)] },
    );
    assert_eq!(r, Err(GraphError::DecodeError));
    assert!(store.link_at(1).unwrap().live);
}

#[test]
fn agents_register_under_the_all_agents_anchor() {
    let mut store = Store::new(ME);
    add_agent_to_anchor(&mut store).unwrap();
    let agents = get_linked_agents(&store, &anchor(SIMPLE_HOLOCHAIN_ALL_AGENTS)).unwrap();
    assert_eq!(agents.len(), 1);
    assert_eq!(agents[0].0, ME);
    assert_eq!(agents[0].1.target_node_id, NodeId::Agent(ME));
}

#[test]
fn later_edge_time_wins_and_ties_go_to_the_higher_record() {
    assert!(supersedes((5, 1), (4, 9)));
    assert!(!supersedes((4, 9), (5, 1)));
    assert!(supersedes((5, 3), (5, 2)));
    assert!(!supersedes((5, 2), (5, 3)));
    assert!(!supersedes((5, 2), (5, 2)));
}

#[test]
fn revision_chain_edges_cannot_be_deleted() {
    let mut store = Store::new(ME);
    let x = new_thing(&mut store, "v1");
    update_thing(&mut store, UpdateThingInput { thing_id: x, updated_content: "v2".to_string() }).unwrap();
    assert_eq!(store.link_at(0).unwrap().link_type, LinkTypes::ThingUpdates);
    assert_eq!(store.delete_link(0), Err(GraphError::InvariantViolation));
    assert_eq!(store.delete_link(5), Err(GraphError::NotFound));
    // a payload whose reverse-edge address names the revision chain
    let forged = LinkTagContent {
        tag: None,
        backlink_action_hash: Some(0),
        target_node_id: NodeId::Agent(1),
        thing_created_at: None,
        thing_created_by: None,
    };
    store.create_link(NodeId::Thing(x), NodeId::Agent(1), LinkTypes::ToAgent, serialize_link_tag(&forged)).unwrap();
    let r = delete_links_from_node(
        &mut store,
        &CreateOrDeleteLinksInput { src: NodeId::Thing(x), links: vec![link(LinkDirection::To, NodeId::Agent(1), None)] },
    );
    assert_eq!(r, Err(GraphError::InvariantViolation));
    let r = delete_thing(
        &mut store,
        DeleteThingInput { thing_id: x, delete_backlinks: true, delete_links_from_creator: false, delete_links: None },
    );
    assert_eq!(r, Err(GraphError::InvariantViolation));
    assert!(store.link_at(0).unwrap().live);
    assert_eq!(get_latest_thing(&store, x).unwrap().content, "v2");
    assert_eq!(get_all_revisions_for_thing(&store, x).unwrap().len(), 2);
}

#[test]
fn agents_attach_to_and_detach_from_a_thing() {
    let mut store = Store::new(ME);
    let x = new_thing(&mut store, "x");
    for a in [1, 2, 1] {
        add_agent_for_thing(&mut store, &AddAgentForThingInput { base_thing_hash: x, target_agent: a }).unwrap();
    }
    assert_eq!(get_agents_for_thing(&store, x), vec![0, 1, 2]);
    assert!(get_deleted_agents_for_thing(&store, x).is_empty());
    delete_agent_for_thing(&mut store, &RemoveAgentForThingInput { base_thing_hash: x, target_agent: 1 });
    assert_eq!(get_agents_for_thing(&store, x), vec![1]);
    assert_eq!(store.link_at(1).unwrap().target, NodeId::Agent(2));
    assert_eq!(get_deleted_agents_for_thing(&store, x), vec![0, 2]);
    let r = add_agent_for_thing(&mut store, &AddAgentForThingInput { base_thing_hash: 9, target_agent: 1 });
    assert_eq!(r, Err(GraphError::NotFound));
    // attached agents do not disturb the cascade, which reads payloads
    let removed = delete_thing(
        &mut store,
        DeleteThingInput { thing_id: x, delete_backlinks: true, delete_links_from_creator: true, delete_links: None },
    );
    assert_eq!(removed, Ok(vec![]));
}

#[test]
fn edges_must_match_their_partition() {
    let mut store = Store::new(ME);
    let x = new_thing(&mut store, "x");
    assert!(store.validate_create_link(&NodeId::Thing(x), &NodeId::Agent(1), LinkTypes::ToAgent));
    assert!(!store.validate_create_link(&NodeId::Thing(x), &anchor("a"), LinkTypes::ToAgent));
    assert!(!store.validate_create_link(&NodeId::Agent(1), &NodeId::Thing(4), LinkTypes::ToThing));
    assert!(!store.validate_create_link(&NodeId::Thing(x), &NodeId::Agent(1), LinkTypes::ThingUpdates));
    assert!(!store.validate_create_link(&anchor("a"), &NodeId::Agent(1), LinkTypes::ThingToAgents));
    let r = store.create_link(NodeId::Agent(1), NodeId::Agent(2), LinkTypes::ToAnchor, vec![]);
    assert_eq!(r, Err(GraphError::InvariantViolation));
    let r = store.create_link(NodeId::Thing(9), NodeId::Agent(2), LinkTypes::ToAgent, vec![]);
    assert_eq!(r, Err(GraphError::InvariantViolation));
    assert_eq!(store.link_count(), 0);
    assert_eq!(store.create_link(anchor("a"), NodeId::Thing(x), LinkTypes::ToThing, vec![]), Ok(0));
}

#[test]
fn a_bidirectional_relation_reports_the_forward_edge_first() {
    let mut store = Store::new(ME);
    let a = new_thing(&mut store, "a");
    let made = create_links_from_node(
        &mut store,
        &CreateOrDeleteLinksInput { src: NodeId::Thing(a), links: vec![link(LinkDirection::Bidirectional, NodeId::Agent(3), Some(vec![1]))] },
    )
    .unwrap();
    assert_eq!(made.len(), 2);
    assert_eq!((made[0].src.clone(), made[0].dst.clone()), (NodeId::Thing(a), NodeId::Agent(3)));
    assert_eq!((made[1].src.clone(), made[1].dst.clone()), (NodeId::Agent(3), NodeId::Thing(a)));
    // the backlink is written first, so its address is the lower one
    assert_eq!(made[1].create_action_hash, 0);
    assert_eq!(made[0].create_action_hash, 1);
    assert_eq!(made[0].meta_tag.backlink_action_hash, Some(0));
    assert_eq!(made[1].meta_tag.backlink_action_hash, None);
}

#[test]
fn the_newest_revision_record_wins_over_a_later_edge() {
    let mut store = Store::new(ME);
    let x = new_thing(&mut store, "v0");
    let r1 = update_thing(&mut store, UpdateThingInput { thing_id: x, updated_content: "v1".to_string() })
        .unwrap()
        .update_action_hash;
    update_thing(&mut store, UpdateThingInput { thing_id: x, updated_content: "v2".to_string() }).unwrap();
    // a later edge that points back at the older revision
    store.create_link(NodeId::Thing(x), NodeId::Thing(r1), LinkTypes::ThingUpdates, vec![]).unwrap();
    let latest = get_latest_thing(&store, x).unwrap();
    assert_eq!(latest.content, "v2");
    assert_eq!(latest.updated_at, Some(3));
}

#[test]
fn an_update_edge_must_point_to_a_newer_record() {
    let mut store = Store::new(ME);
    let x = new_thing(&mut store, "x");
    let y = new_thing(&mut store, "y");
    let self_edge = store.create_link(NodeId::Thing(x), NodeId::Thing(x), LinkTypes::ThingUpdates, vec![]);
    assert_eq!(self_edge, Err(GraphError::InvariantViolation));
    let backwards = store.create_link(NodeId::Thing(y), NodeId::Thing(x), LinkTypes::ThingUpdates, vec![]);
    assert_eq!(backwards, Err(GraphError::InvariantViolation));
    assert_eq!(get_latest_thing(&store, x).unwrap().updated_at, None);
    assert_eq!(store.create_link(NodeId::Thing(x), NodeId::Thing(y), LinkTypes::ThingUpdates, vec![]), Ok(0));
}

#[test]
fn a_corrupt_tag_in_the_scanned_partition_fails_the_deletion() {
    let mut store = Store::new(ME);
    let x = new_thing(&mut store, "x");
    links_from(&mut store, NodeId::Thing(x), vec![link(LinkDirection::To, NodeId::Agent(1), None)]);
    store.create_link(NodeId::Thing(x), NodeId::Agent(2), LinkTypes::ToAgent, vec![7]).unwrap();
    let r = delete_links_from_node(
        &mut store,
        &CreateOrDeleteLinksInput { src: NodeId::Thing(x), links: vec![link(LinkDirection::To, NodeId::Agent(1), None)] },
    );
    assert_eq!(r, Err(GraphError::DecodeError));
    assert!(store.link_at(0).unwrap().live);
    // the same holds for the creator's edges to entities
    let y = new_thing(&mut store, "y");
    store.create_link(NodeId::Agent(ME), NodeId::Thing(y), LinkTypes::ToThing, vec![7]).unwrap();
    let r = delete_thing(
        &mut store,
        DeleteThingInput { thing_id: x, delete_backlinks: false, delete_links_from_creator: true, delete_links: None },
    );
    assert_eq!(r, Err(GraphError::DecodeError));
    assert!(get_original_thing(&store, x).is_some());
}

#[test]
fn an_edge_removed_twice_is_reported_once() {
    let mut store = Store::new(ME);
    let x = new_thing(&mut store, "x");
    links_from(&mut store, NodeId::Thing(x), vec![link(LinkDirection::Bidirectional, anchor("r"), Some(vec![4]))]);
    let removed = delete_thing(
        &mut store,
        DeleteThingInput {
            thing_id: x,
            delete_backlinks: true,
            delete_links_from_creator: false,
            delete_links: Some(vec![link(LinkDirection::To, anchor("r"), Some(vec![4]))]),
        },
    )
    .unwrap();
    let mut hashes: Vec<u64> = removed.iter().map(|l| l.create_action_hash).collect();
    assert_eq!(hashes.len(), 2);
    hashes.sort();
    assert_eq!(hashes, vec![0, 1]);
    let y = new_thing(&mut store, "y");
    links_from(&mut store, NodeId::Thing(y), vec![link(LinkDirection::Bidirectional, anchor("r"), Some(vec![4]))]);
    let removed = delete_links_from_node(
        &mut store,
        &CreateOrDeleteLinksInput {
            src: NodeId::Thing(y),
            links: vec![link(LinkDirection::To, anchor("r"), Some(vec![4])), link(LinkDirection::To, anchor("r"), Some(vec![4]))],
        },
    )
    .unwrap();
    let hashes: Vec<u64> = removed.iter().map(|l| l.create_action_hash).collect();
    assert_eq!(hashes, vec![2, 3]);
    assert!(listed_ids(&store, &NodeId::Thing(y)).is_empty());
}
