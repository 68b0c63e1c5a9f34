//! Sessions as exchanged with other tools.

use vstd::prelude::*;

verus! {

/// A finished session as exchanged with other tools, before it has an id.
/// Times are seconds since the Unix epoch.
pub struct NewEvent {
    pub project: String,
    pub tags: Option<Vec<String>>,
    pub start: i64,
    pub end: i64,
}

/// A finished session as exchanged with other tools.
pub struct Event {
    pub id: i32,
    pub project: String,
    pub tags: Option<Vec<String>>,
    pub start: i64,
    pub end: i64,
}

pub struct Events(pub Vec<Event>);

impl Events {
    pub fn new() -> (r: Self)
        ensures
            r.0@.len() == 0,
    {
        Events(Vec::new())
    }
}

} // verus!
