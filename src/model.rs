//! Plain value types shared by the queue, the playback actor and the catalogue.

use vstd::prelude::*;
use vstd::string::StringSliceAdditionalSpecFns;
use vstd::utf8::{
    encode_utf8, encode_utf8_valid_utf8, is_char_boundary, is_char_boundary_iff_not_is_continuation_byte,
    valid_utf8_split,
};

verus! {

/// A playable track as supplied by the catalogue provider.
#[derive(Clone, Debug, PartialEq, Eq)]
pub struct Track {
    pub uuid: String,
    pub title: String,
    pub artist: String,
    pub album: Option<String>,
    /// Length in milliseconds.
    pub duration: Option<u32>,
}

impl Track {
    /// An exact copy of the track.
    pub fn duplicate(&self) -> (r: Track)
        ensures
            r == *self,
    {
        let album = match &self.album {
            Some(a) => Some(a.clone()),
            None => None,
        };
        Track {
            uuid: self.uuid.clone(),
            title: self.title.clone(),
            artist: self.artist.clone(),
            album,
            duration: self.duration,
        }
    }
}


/// A child entry of a catalogue node.
#[derive(Clone, Debug, PartialEq, Eq)]
pub struct LibraryNodeChild {
    pub uuid: String,
    pub title: String,
    pub is_queable: bool,
}

impl LibraryNodeChild {
    pub fn new(uuid: String, title: String, is_queable: bool) -> (r: LibraryNodeChild)
        ensures
            r.uuid == uuid,
            r.title == title,
            r.is_queable == is_queable,
    {
        LibraryNodeChild { uuid, title, is_queable }
    }
}

/// A catalogue browsing node: it lists either child nodes or tracks.
#[derive(Clone, Debug, PartialEq, Eq)]
pub struct LibraryNode {
    pub uuid: String,
    pub title: String,
    pub parent: Option<String>,
    pub children: Vec<LibraryNodeChild>,
    pub tracks: Vec<Track>,
    pub is_queable: bool,
}

impl LibraryNode {
    /// The root node `node:/`, titled `/`, empty and not queable.
    pub fn new() -> (r: LibraryNode)
        ensures
            r.uuid@ == "node:/"@,
            r.title@ == "/"@,
            r.parent is None,
            r.children@.len() == 0,
            r.tracks@.len() == 0,
            !r.is_queable,
    {
        LibraryNode {
            uuid: "node:/".to_string(),
            title: "/".to_string(),
            parent: None,
            children: Vec::new(),
            tracks: Vec::new(),
            is_queable: false,
        }
    }
}

/// Errors of the catalogue provider.
#[derive(Clone, Debug, PartialEq, Eq, Hash)]
pub enum ProviderError {
    Config(String),
    UnknownUser,
    CouldNotLogin,
    FetchError,
    MalformedUuid,
    InternalError,
    Other,
}

/// Errors of queueing catalogue nodes.
#[derive(Clone, Copy, Debug, PartialEq, Eq)]
pub enum QueueError {
    NotQueable,
}

/// The bytes of `track:`, the prefix of every track uuid.
pub open spec fn track_tag() -> Seq<u8> {
    seq![116u8, 114u8, 97u8, 99u8, 107u8, 58u8]
}

/// The byte of `:`, which separates a uuid's namespace from its id.
pub open spec fn colon() -> u8 {
    58u8
}

/// Whether the uuid with characters `uuid` names a track (as opposed to a
/// catalogue node): its encoding starts with `track:`.
pub open spec fn names_track(uuid: Seq<char>) -> bool {
    let b = encode_utf8(uuid);
    b.len() >= 6 && b.subrange(0, 6) == track_tag()
}

/// Whether `uuid` names a track (as opposed to a catalogue node).
pub fn is_track(uuid: &str) -> (r: bool)
    ensures
        r == names_track(uuid@),
{
    let b = uuid.as_bytes();
    if b.len() < 6 {
        return false;
    }
    let tag: [u8; 6] = [116u8, 114u8, 97u8, 99u8, 107u8, 58u8];
    let mut i: usize = 0;
    while i < 6
        invariant
            b@ == uuid.spec_bytes(),
            b@.len() >= 6,
            i <= 6,
            tag@ == track_tag(),
            forall|j: int| 0 <= j < i ==> b@[j] == track_tag()[j],
        decreases 6 - i,
    {
        if b[i] != tag[i] {
            assert(b@.subrange(0, 6)[i as int] != track_tag()[i as int]);
            return false;
        }
        i = i + 1;
    }
    assert(b@.subrange(0, 6) =~= track_tag());
    true
}

/// Whether `i` is the first `:` in `b`.
pub open spec fn is_first_colon(b: Seq<u8>, i: int) -> bool {
    &&& 0 <= i < b.len()
    &&& b[i] == colon()
    &&& forall|j: int| 0 <= j < i ==> b[j] != colon()
}

/// Splits a uuid at its first `:` into namespace and id; without a `:`,
/// the whole uuid is the namespace and the id is empty.
pub fn split_uuid(uuid: &str) -> (r: (String, String))
    ensures
        forall|i: int| is_first_colon(uuid.spec_bytes(), i) ==> {
            &&& encode_utf8(r.0@) == uuid.spec_bytes().subrange(0, i)
            &&& encode_utf8(r.1@) == uuid.spec_bytes().subrange(i + 1, uuid.spec_bytes().len() as int)
        },
        (forall|j: int| 0 <= j < uuid.spec_bytes().len() ==> uuid.spec_bytes()[j] != colon()) ==> {
            &&& r.0@ == uuid@
            &&& r.1@.len() == 0
        },
{
    let b = uuid.as_bytes();
    let mut i: usize = 0;
    while i < b.len()
        invariant
            b@ == uuid.spec_bytes(),
            i <= b@.len(),
            forall|j: int| 0 <= j < i ==> b@[j] != colon(),
        decreases b@.len() - i,
    {
        if b[i] == 58u8 {
            proof {
                encode_utf8_valid_utf8(uuid@);
                is_char_boundary_iff_not_is_continuation_byte(b@, i as int);
            }
            let (head, rest) = uuid.split_at(i);
            proof {
                valid_utf8_split(b@, i as int);
                assert(rest.spec_bytes()[0] == colon());
                reveal_with_fuel(is_char_boundary, 2);
                assert(is_char_boundary(rest.spec_bytes(), 1));
            }
            let (_sep, tail) = rest.split_at(1);
            proof {
                assert(tail.spec_bytes() =~= b@.subrange(i + 1, b@.len() as int));
                assert forall|k: int| is_first_colon(b@, k) implies k == i by {
                    if k < i { assert(b@[k] != colon()); }
                    if k > i { assert(b@[i as int] != colon()); }
                }
            }
            return (head.to_owned(), tail.to_owned());
        }
        i = i + 1;
    }
    (uuid.to_owned(), String::new())
}

} // verus!
