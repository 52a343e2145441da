//! The swarm activity feed: agents publish what they do to a document on
//! the subject `scrybe.activity.<doc_cid>`.

use crate::text::{push_str, string_of};
use vstd::prelude::*;

verus! {

/// A single activity event from an agent.
#[derive(Debug, Clone)]
pub struct ActivityEvent {
    pub agent: String,
    pub action: String,
    pub doc_cid: String,
}

/// The activity feed of one document.
pub struct ActivityFeed {
    doc_cid: String,
}

/// The subject prefix of every activity feed.
pub const ACTIVITY_PREFIX: &'static str = "scrybe.activity.";

impl ActivityFeed {
    /// The content id of the document this feed follows.
    pub closed spec fn cid(&self) -> Seq<char> {
        self.doc_cid@
    }

    /// The feed of the document with content id `doc_cid`.
    pub fn new(doc_cid: &str) -> (r: Self)
        ensures
            r.cid() == doc_cid@,
    {
        ActivityFeed { doc_cid: doc_cid.to_owned() }
    }

    /// The subject the feed subscribes to: `scrybe.activity.<doc_cid>`.
    pub fn subject(&self) -> (r: String)
        ensures
            r@ == ACTIVITY_PREFIX@ + self.cid(),
    {
        let mut v: Vec<char> = Vec::new();
        push_str(&mut v, ACTIVITY_PREFIX);
        push_str(&mut v, self.doc_cid.as_str());
        string_of(v.as_slice())
    }
}

} // verus!
