use crabidy_server::resolve::{Lookup, Resolver};
use crabidy_server::flatten::NodeFlattener;
use crabidy_server::model::{
    is_track, split_uuid, LibraryNode, LibraryNodeChild, ProviderError, Track,
};
use crabidy_server::provider_config::{ConfigError, Page};
use crabidy_server::ui::{Config, ListSelection, StatefulList, UiFocus};

fn track(id: &str) -> Track {
    Track {
        uuid: format!("track:{}", id),
        title: id.to_string(),
        artist: String::new(),
        album: None,
        duration: None,
    }
}

fn node(uuid: &str, queable: bool, children: &[&str], tracks: &[&str]) -> LibraryNode {
    let mut n = LibraryNode::new();
    n.uuid = uuid.to_string();
    n.is_queable = queable;
    n.children = children
        .iter()
        .map(|c| LibraryNodeChild::new(c.to_string(), c.to_string(), true))
        .collect();
    n.tracks = tracks.iter().map(|t| track(t)).collect();
    n
}

#[test]
fn track_uuids_are_recognised() {
    assert!(is_track("track:123"));
    assert!(is_track("track:"));
    assert!(!is_track("node:123"));
    assert!(!is_track("trac"));
    assert!(!is_track("Track:1"));
    assert!(!is_track(""));
}

#[test]
fn uuids_split_at_first_colon() {
    assert_eq!(split_uuid("node:playlist:42"), ("node".to_string(), "playlist:42".to_string()));
    assert_eq!(split_uuid("track:"), ("track".to_string(), String::new()));
    assert_eq!(split_uuid("plain"), ("plain".to_string(), String::new()));
    assert_eq!(split_uuid("ü:ä"), ("ü".to_string(), "ä".to_string()));
}

#[test]
fn root_node() {
    let n = LibraryNode::new();
    assert_eq!(n.uuid, "node:/");
    assert_eq!(n.title, "/");
    assert!(n.children.is_empty() && n.tracks.is_empty() && !n.is_queable);
    assert_eq!(n.parent, None);
}

#[test]
fn flatten_collects_queable_nodes_depth_first() {
    let mut f = NodeFlattener::new("node:top".to_string());
    assert_eq!(f.next_node().as_deref(), Some("node:top"));
    f.absorb(Ok(node("node:top", true, &["node:a", "node:b"], &["t0"])));
    assert_eq!(f.next_node().as_deref(), Some("node:b"));
    f.absorb(Ok(node("node:b", false, &["node:c"], &["skipped"])));
    assert_eq!(f.next_node().as_deref(), Some("node:a"));
    f.absorb(Err(ProviderError::FetchError));
    assert_eq!(f.next_node(), None);
    let titles: Vec<String> = f.into_tracks().into_iter().map(|t| t.title).collect();
    assert_eq!(titles, vec!["t0"]);
}

#[test]
fn list_selection_moves() {
    let mut l = ListSelection { size: 20, selected: None };
    l.next();
    assert_eq!(l.selected, Some(0));
    l.prev();
    assert_eq!(l.selected, Some(19));
    l.next();
    assert_eq!(l.selected, Some(0));
    l.down();
    assert_eq!(l.selected, Some(15));
    l.down();
    assert_eq!(l.selected, Some(19));
    l.up();
    assert_eq!(l.selected, Some(4));
    l.up();
    assert_eq!(l.selected, Some(0));
    l.last();
    assert_eq!(l.selected, Some(19));
    l.first();
    assert_eq!(l.selected, Some(0));
    assert!(l.is_selected());
    l.size = 0;
    l.next();
    assert_eq!(l.selected, Some(0));
    l.update_selection();
    assert_eq!(l.selected, None);
    assert!(l.is_empty());
    l.size = 3;
    l.selected = Some(7);
    l.update_selection();
    assert_eq!(l.selected, Some(2));
}

#[test]
fn focus_cycles() {
    assert_eq!(UiFocus::Library.cycle(false), UiFocus::Queue);
    assert_eq!(UiFocus::Library.cycle(true), UiFocus::Library);
    assert_eq!(UiFocus::Queue.cycle(false), UiFocus::Library);
}

#[test]
fn default_client_config() {
    assert_eq!(Config::default().server.address, "http://127.0.0.1:50051");
}

#[test]
fn paging() {
    let page: Page<u8> = Page { limit: Some(50), offset: 0, total_number_of_items: 120, items: vec![] };
    assert_eq!(page.next_offset(50), Some(50));
    let page: Page<u8> = Page { limit: Some(50), offset: 100, total_number_of_items: 120, items: vec![] };
    assert_eq!(page.next_offset(50), None);
    let page: Page<u8> = Page { limit: None, offset: 70, total_number_of_items: 120, items: vec![] };
    assert_eq!(page.next_offset(50), None);
    assert_eq!(ConfigError::Write.message(), "failed to write config file");
}

#[test]
fn resolver_keeps_resolved_tracks_in_order() {
    let mut r = Resolver::new(vec![
        "track:1".to_string(),
        "node:album".to_string(),
        "track:2".to_string(),
        "track:3".to_string(),
    ]);
    assert_eq!(r.next_lookup(), Some(Lookup::Track("track:1".to_string())));
    r.track_resolved(Ok(track("1")));
    assert_eq!(r.next_lookup(), Some(Lookup::Node("node:album".to_string())));
    r.node_resolved(vec![track("a"), track("b")]);
    assert_eq!(r.next_lookup(), Some(Lookup::Track("track:2".to_string())));
    r.track_resolved(Err(ProviderError::MalformedUuid));
    assert_eq!(r.next_lookup(), Some(Lookup::Track("track:3".to_string())));
    r.track_resolved(Ok(track("3")));
    assert_eq!(r.next_lookup(), None);
    let titles: Vec<String> = r.into_tracks().into_iter().map(|t| t.title).collect();
    assert_eq!(titles, vec!["1", "a", "b", "3"]);
}
