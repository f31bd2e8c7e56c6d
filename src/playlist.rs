use vstd::prelude::*;

verus! {

/// A playlist of the owner, as the remote service lists it.
pub struct PlaylistSummary {
    pub id: String,
    pub name: String,
}

/// Whether a playlist named exactly `name` is among `ps`.
pub open spec fn has_name(ps: Seq<PlaylistSummary>, name: Seq<char>) -> bool {
    exists|k: int| 0 <= k < ps.len() && (#[trigger] ps[k]).name@ == name
}

/// The destination playlist to reuse: the identity of the first listed
/// playlist whose name equals `name` exactly, or `None` where a new one is
/// to be created.
pub fn find_playlist(playlists: &Vec<PlaylistSummary>, name: &str) -> (r: Option<String>)
    ensures
        r is None <==> !has_name(playlists@, name@),
        r matches Some(id) ==> exists|k: int|
            0 <= k < playlists@.len() && (#[trigger] playlists@[k]).name@ == name@
                && playlists@[k].id@ == id@ && forall|m: int|
                0 <= m < k ==> (#[trigger] playlists@[m]).name@ != name@,
{
    let target = String::from_str(name);
    let mut k: usize = 0;
    while k < playlists.len()
        invariant
            k <= playlists@.len(),
            target@ == name@,
            forall|m: int| 0 <= m < k ==> (#[trigger] playlists@[m]).name@ != name@,
        decreases playlists@.len() - k,
    {
        if playlists[k].name == target {
            return Some(playlists[k].id.clone());
        }
        k = k + 1;
    }
    None
}

} // verus!
