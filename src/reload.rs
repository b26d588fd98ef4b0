//! Hot reload: which file changes rebuild the snapshot, and which snapshot serves
//! after a rebuild was tried.
use vstd::prelude::*;
use crate::geocoder::ReverseGeocoder;

verus! {

/// A change the file watcher reports on the data file.
#[derive(Clone, Copy, Debug, PartialEq, Eq, Structural)]
pub enum FileEvent {
    /// The file's contents were modified.
    ContentModified,
    /// The file's data changed in some other way (its size alone, say).
    OtherDataModified,
    /// Only the file's metadata changed (times, permissions).
    MetadataModified,
    /// Anything else: access, creation, removal, renaming.
    Other,
}

/// Only a change of the file's contents calls for a rebuild; metadata-only touches
/// and the rest are ignored.
pub fn should_reload(event: FileEvent) -> (r: bool)
    ensures
        r <==> event == FileEvent::ContentModified,
{
    match event {
        FileEvent::ContentModified => true,
        _ => false,
    }
}

/// The snapshot that serves after a rebuild was tried: the new one, whole, where the
/// rebuild succeeded; else the one that served before, unchanged. A failed reload
/// never takes the service down.
pub fn next_snapshot(current: ReverseGeocoder, rebuilt: Option<ReverseGeocoder>) -> (r:
    ReverseGeocoder)
    requires
        current.wf(),
        rebuilt matches Some(n) ==> n.wf(),
    ensures
        r.wf(),
        match rebuilt {
            Some(n) => r == n,
            None => r == current,
        },
{
    match rebuilt {
        Some(n) => n,
        None => current,
    }
}

/// Whatever a rebuild gave, the snapshot that serves next is one of the two in full,
/// never a mix of the two: its records and its index were built together.
pub proof fn lemma_reload_atomic(
    current: ReverseGeocoder,
    rebuilt: Option<ReverseGeocoder>,
    next: ReverseGeocoder,
)
    requires
        current.wf(),
        rebuilt matches Some(n) ==> n.wf(),
        match rebuilt {
            Some(n) => next == n,
            None => next == current,
        },
    ensures
        next.wf(),
        next == current || (rebuilt matches Some(n) && next == n),
{
}

} // verus!
