use vstd::prelude::*;

verus! {

/// A playable audio item. Its identity is its `id` alone; `name` is the
/// display name that weight overrides are matched against.
#[derive(Debug, Clone)]
pub struct Track {
    pub id: String,
    pub name: String,
}

impl Track {
    pub fn new(id: String, name: String) -> (r: Track)
        ensures
            r.id@ == id@,
            r.name@ == name@,
    {
        Track { id, name }
    }

    /// A copy of this track with the same identity and name.
    pub fn duplicate(&self) -> (r: Track)
        ensures
            r.id@ == self.id@,
            r.name@ == self.name@,
    {
        Track { id: self.id.clone(), name: self.name.clone() }
    }
}

impl PartialEq for Track {
    /// Two tracks are the same track when their identities are equal,
    /// whatever their other fields.
    fn eq(&self, other: &Track) -> (r: bool) {
        self.id == other.id
    }
}

impl vstd::std_specs::cmp::PartialEqSpecImpl for Track {
    open spec fn obeys_eq_spec() -> bool {
        true
    }

    open spec fn eq_spec(&self, other: &Track) -> bool {
        self.id@ == other.id@
    }
}

impl Eq for Track {
}

/// One item of a source collection: either a music track, or something else
/// (a podcast episode) that cannot be weighted.
pub enum SourceItem {
    Track(Track),
    Other,
}

/// The failures of the library's operations.
#[derive(Debug, PartialEq, Eq, Structural, Clone, Copy)]
pub enum ShuffleError {
    /// The override line with this index (counted from 0) is malformed.
    Parse { line: usize },
    /// The source item with this index (counted from 0) is not a track.
    Source { index: usize },
    /// Sampling from a table that is empty or whose weights sum to zero.
    EmptyTable,
    /// Nothing is playing when a playing track was required.
    PlaybackState,
}

} // verus!
