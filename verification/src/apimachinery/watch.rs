//! Watch events, as the store sends them.

use vstd::prelude::*;

verus! {

/// A change of a key of the store, or a bookmark.
#[derive(Debug)]
pub enum WatchEvent {
    Added { key: String, value: Vec<u8>, revision: u64 },
    Modified { key: String, value: Vec<u8>, revision: u64 },
    /// `prev_value` is the object before the deletion, where something knows it.
    Deleted { key: String, revision: u64, prev_value: Option<Vec<u8>> },
    Bookmark { revision: u64 },
}

/// What a [`WatchEvent`] says.
pub ghost enum EventView {
    Added { key: Seq<char>, value: Seq<u8>, revision: u64 },
    Modified { key: Seq<char>, value: Seq<u8>, revision: u64 },
    Deleted { key: Seq<char>, revision: u64, prev_value: Option<Seq<u8>> },
    Bookmark { revision: u64 },
}

impl EventView {
    /// The revision of the store at the event.
    pub open spec fn revision(self) -> u64 {
        match self {
            EventView::Added { key, value, revision } => revision,
            EventView::Modified { key, value, revision } => revision,
            EventView::Deleted { key, revision, prev_value } => revision,
            EventView::Bookmark { revision } => revision,
        }
    }
}

/// Optional bytes as a view.
pub open spec fn opt_bytes(o: Option<Vec<u8>>) -> Option<Seq<u8>> {
    match o {
        Some(b) => Some(b@),
        None => None,
    }
}

impl View for WatchEvent {
    type V = EventView;

    open spec fn view(&self) -> EventView {
        match *self {
            WatchEvent::Added { key, value, revision } => EventView::Added {
                key: key@,
                value: value@,
                revision,
            },
            WatchEvent::Modified { key, value, revision } => EventView::Modified {
                key: key@,
                value: value@,
                revision,
            },
            WatchEvent::Deleted { key, revision, prev_value } => EventView::Deleted {
                key: key@,
                revision,
                prev_value: opt_bytes(prev_value),
            },
            WatchEvent::Bookmark { revision } => EventView::Bookmark { revision },
        }
    }
}

/// A copy of some bytes.
pub fn dup_bytes(v: &Vec<u8>) -> (r: Vec<u8>)
    ensures
        r@ == v@,
{
    let mut out: Vec<u8> = Vec::new();
    let mut i: usize = 0;
    while i < v.len()
        invariant
            i <= v.len(),
            out@ =~= v@.take(i as int),
        decreases v.len() - i,
    {
        out.push(v[i]);
        i = i + 1;
    }
    assert(out@ =~= v@);
    out
}

impl Clone for WatchEvent {
    fn clone(&self) -> (r: WatchEvent)
        ensures
            r@ == self@,
    {
        match self {
            WatchEvent::Added { key, value, revision } => WatchEvent::Added {
                key: key.clone(),
                value: dup_bytes(value),
                revision: *revision,
            },
            WatchEvent::Modified { key, value, revision } => WatchEvent::Modified {
                key: key.clone(),
                value: dup_bytes(value),
                revision: *revision,
            },
            WatchEvent::Deleted { key, revision, prev_value } => WatchEvent::Deleted {
                key: key.clone(),
                revision: *revision,
                prev_value: match prev_value {
                    Some(b) => Some(dup_bytes(b)),
                    None => None,
                },
            },
            WatchEvent::Bookmark { revision } => WatchEvent::Bookmark { revision: *revision },
        }
    }
}

impl WatchEvent {
    /// The revision of the store at the event.
    pub open spec fn revision_spec(self) -> u64 {
        match self {
            WatchEvent::Added { key, value, revision } => revision,
            WatchEvent::Modified { key, value, revision } => revision,
            WatchEvent::Deleted { key, revision, prev_value } => revision,
            WatchEvent::Bookmark { revision } => revision,
        }
    }

    /// The revision of the store at the event.
    pub fn revision(&self) -> (r: u64)
        ensures
            r == self.revision_spec(),
            r == self@.revision(),
    {
        match self {
            WatchEvent::Added { revision, .. } => *revision,
            WatchEvent::Modified { revision, .. } => *revision,
            WatchEvent::Deleted { revision, .. } => *revision,
            WatchEvent::Bookmark { revision } => *revision,
        }
    }
}

/// The revision of an event is the one that it says.
pub proof fn law_an_event_says_its_revision(
    key: Seq<char>,
    value: Seq<u8>,
    revision: u64,
    prev_value: Option<Seq<u8>>,
)
    ensures
        (EventView::Added { key, value, revision }).revision() == revision,
        (EventView::Modified { key, value, revision }).revision() == revision,
        (EventView::Deleted { key, revision, prev_value }).revision() == revision,
        (EventView::Bookmark { revision }).revision() == revision,
{
}

} // verus!
