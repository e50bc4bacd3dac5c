//! Expanding a catalogue node into the tracks it holds.
//!
//! Nodes are looked up one at a time by the caller: [`NodeFlattener::next_node`]
//! names the next node to look up and [`NodeFlattener::absorb`] takes the
//! provider's answer. Queable nodes contribute their tracks and their
//! children; other nodes and failed lookups are skipped.

use crate::model::{LibraryNode, LibraryNodeChild, ProviderError, Track};
use vstd::prelude::*;

verus! {

/// The uuids of a node's children, in order.
pub open spec fn child_uuids(children: Seq<LibraryNodeChild>) -> Seq<String> {
    children.map_values(|c: LibraryNodeChild| c.uuid)
}

/// Work in progress of flattening one node.
pub struct NodeFlattener {
    tracks: Vec<Track>,
    pending: Vec<String>,
}

impl NodeFlattener {
    /// The tracks collected so far.
    pub closed spec fn collected(&self) -> Seq<Track> {
        self.tracks@
    }

    /// The uuids still to look up; the last one comes next.
    pub closed spec fn to_visit(&self) -> Seq<String> {
        self.pending@
    }

    pub fn new(uuid: String) -> (r: NodeFlattener)
        ensures
            r.collected().len() == 0,
            r.to_visit() == seq![uuid],
    {
        let mut pending: Vec<String> = Vec::new();
        pending.push(uuid);
        NodeFlattener { tracks: Vec::new(), pending }
    }

    /// The next node to look up, if any.
    pub fn next_node(&mut self) -> (r: Option<String>)
        ensures
            final(self).collected() == old(self).collected(),
            old(self).to_visit().len() == 0 ==> r is None && final(self).to_visit().len() == 0,
            old(self).to_visit().len() > 0 ==> {
                &&& r == Some(old(self).to_visit().last())
                &&& final(self).to_visit() == old(self).to_visit().drop_last()
            },
    {
        self.pending.pop()
    }

    /// Takes the provider's answer for the node last handed out.
    pub fn absorb(&mut self, node: Result<LibraryNode, ProviderError>)
        ensures
            match node {
                Ok(n) => n.is_queable,
                Err(_) => false,
            } ==> {
                &&& final(self).collected() == old(self).collected() + node->Ok_0.tracks@
                &&& final(self).to_visit() == old(self).to_visit() + child_uuids(node->Ok_0.children@)
            },
            !match node {
                Ok(n) => n.is_queable,
                Err(_) => false,
            } ==> {
                &&& final(self).collected() == old(self).collected()
                &&& final(self).to_visit() == old(self).to_visit()
            },
    {
        match node {
            Ok(n) => {
                if n.is_queable {
                    let mut tracks = n.tracks;
                    self.tracks.append(&mut tracks);
                    let children = n.children;
                    let ghost start = self.pending@;
                    let mut i: usize = 0;
                    while i < children.len()
                        invariant
                            i <= children@.len(),
                            self.tracks@ == old(self).tracks@ + n.tracks@,
                            start == old(self).pending@,
                            self.pending@ == start + child_uuids(children@.subrange(0, i as int)),
                        decreases children@.len() - i,
                    {
                        self.pending.push(children[i].uuid.clone());
                        i = i + 1;
                        assert(child_uuids(children@.subrange(0, i as int)) =~= child_uuids(
                            children@.subrange(0, i - 1),
                        ).push(children@[i - 1].uuid));
                    }
                    assert(children@.subrange(0, i as int) =~= children@);
                }
            },
            Err(_) => {},
        }
    }

    /// The tracks collected, in order.
    pub fn into_tracks(self) -> (r: Vec<Track>)
        ensures
            r@ == self.collected(),
    {
        self.tracks
    }
}

} // verus!
