//! Turning the uuids of a request into tracks.
//!
//! Each uuid is looked up by the caller: a track uuid through the provider's
//! track metadata, any other uuid by flattening the catalogue node it names.
//! [`Resolver::next_lookup`] says which lookup comes next, and the answers
//! come back through [`Resolver::track_resolved`] and
//! [`Resolver::node_resolved`]. Tracks that fail to resolve are left out;
//! the others are kept in the order of the uuids.

use crate::model::{is_track, names_track, ProviderError, Track};
use vstd::prelude::*;

verus! {

/// A lookup the caller makes for one uuid.
#[derive(Clone, Debug, PartialEq, Eq)]
pub enum Lookup {
    /// Fetch the metadata of this track.
    Track(String),
    /// Flatten this catalogue node into its tracks.
    Node(String),
}

/// The lookup that resolves `uuid`.
pub open spec fn lookup_for(uuid: String) -> Lookup {
    if names_track(uuid@) {
        Lookup::Track(uuid)
    } else {
        Lookup::Node(uuid)
    }
}

/// What a track lookup contributes: the track, or nothing when it failed.
pub open spec fn resolved_track(result: Result<Track, ProviderError>) -> Seq<Track> {
    match result {
        Ok(t) => seq![t],
        Err(_) => Seq::empty(),
    }
}

/// Work in progress of resolving a list of uuids.
pub struct Resolver {
    uuids: Vec<String>,
    next: usize,
    tracks: Vec<Track>,
}

impl Resolver {
    /// The tracks resolved so far, in order.
    pub closed spec fn collected(&self) -> Seq<Track> {
        self.tracks@
    }

    /// The uuids still to look up, in order.
    pub closed spec fn remaining(&self) -> Seq<String> {
        self.uuids@.subrange(self.next as int, self.uuids@.len() as int)
    }

    pub closed spec fn wf(&self) -> bool {
        self.next <= self.uuids@.len()
    }

    pub fn new(uuids: Vec<String>) -> (r: Resolver)
        ensures
            r.wf(),
            r.collected().len() == 0,
            r.remaining() == uuids@,
    {
        let r = Resolver { uuids, next: 0, tracks: Vec::new() };
        assert(r.remaining() =~= r.uuids@);
        r
    }

    /// The lookup for the next uuid, if any is left.
    pub fn next_lookup(&mut self) -> (r: Option<Lookup>)
        requires
            old(self).wf(),
        ensures
            final(self).wf(),
            final(self).collected() == old(self).collected(),
            old(self).remaining().len() == 0 ==> r is None && final(self).remaining().len() == 0,
            old(self).remaining().len() > 0 ==> {
                &&& r == Some(lookup_for(old(self).remaining()[0]))
                &&& final(self).remaining() == old(self).remaining().drop_first()
            },
    {
        if self.next < self.uuids.len() {
            let uuid = self.uuids[self.next].clone();
            self.next = self.next + 1;
            assert(self.remaining() =~= old(self).remaining().drop_first());
            if is_track(uuid.as_str()) {
                Some(Lookup::Track(uuid))
            } else {
                Some(Lookup::Node(uuid))
            }
        } else {
            None
        }
    }

    /// Takes the answer of a track lookup.
    pub fn track_resolved(&mut self, result: Result<Track, ProviderError>)
        requires
            old(self).wf(),
        ensures
            final(self).wf(),
            final(self).remaining() == old(self).remaining(),
            final(self).collected() == old(self).collected() + resolved_track(result),
    {
        match result {
            Ok(t) => {
                self.tracks.push(t);
            },
            Err(_) => {},
        }
        assert(self.tracks@ =~= old(self).tracks@ + resolved_track(result));
    }

    /// Takes the tracks a node was flattened into.
    pub fn node_resolved(&mut self, tracks: Vec<Track>)
        requires
            old(self).wf(),
        ensures
            final(self).wf(),
            final(self).remaining() == old(self).remaining(),
            final(self).collected() == old(self).collected() + tracks@,
    {
        let mut tracks = tracks;
        self.tracks.append(&mut tracks);
    }

    /// The tracks resolved, in the order of their uuids.
    pub fn into_tracks(self) -> (r: Vec<Track>)
        ensures
            r@ == self.collected(),
    {
        self.tracks
    }
}

} // verus!
