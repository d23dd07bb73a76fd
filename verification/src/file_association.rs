//! Opening files that the system hands to the application.
//!
//! A file can be handed over before the frontend is able to receive events.
//! Its path is then kept until the frontend asks for the paths it missed.
//! The state is an explicit value; whoever owns it emits the events that
//! the functions here return.

use crate::file_operations::{is_supported, is_supported_extension};
use crate::types::OpenFileEvent;
use vstd::prelude::*;

verus! {

/// Whether the frontend is ready, and the paths kept for it while it was
/// not.
#[derive(Debug)]
pub struct FileAssociation {
    frontend_ready: bool,
    pending_file_paths: Vec<String>,
}

/// The paths of `paths` as character sequences.
pub open spec fn paths_of(paths: Seq<String>) -> Seq<Seq<char>> {
    paths.map_values(|path: String| path@)
}

/// The paths of `events` as character sequences.
pub open spec fn event_paths(events: Seq<OpenFileEvent>) -> Seq<Seq<char>> {
    events.map_values(|event: OpenFileEvent| event.file_path@)
}

impl FileAssociation {
    /// Whether the frontend has reported that it is ready.
    pub closed spec fn ready(&self) -> bool {
        self.frontend_ready
    }

    /// The paths that are kept for the frontend, oldest first.
    pub closed spec fn pending(&self) -> Seq<Seq<char>> {
        paths_of(self.pending_file_paths@)
    }

    /// The state at start: the frontend is not ready and nothing is kept.
    pub fn new() -> (res: Self)
        ensures
            !res.ready(),
            res.pending() == Seq::<Seq<char>>::empty(),
    {
        let res = FileAssociation { frontend_ready: false, pending_file_paths: Vec::new() };
        proof {
            assert(res.pending() =~= Seq::<Seq<char>>::empty());
        }
        res
    }
}

/// Whether the frontend is ready to receive events.
pub fn is_frontend_ready(state: &FileAssociation) -> (res: bool)
    ensures
        res == state.ready(),
{
    state.frontend_ready
}

/// Records that the frontend is ready. The kept paths stay.
pub fn set_frontend_ready(state: &mut FileAssociation)
    ensures
        final(state).ready(),
        final(state).pending() == old(state).pending(),
{
    state.frontend_ready = true;
}

/// Hands out the kept paths, oldest first, and keeps none of them.
pub fn get_pending_file_paths(state: &mut FileAssociation) -> (res: Vec<String>)
    ensures
        paths_of(res@) == old(state).pending(),
        final(state).pending() == Seq::<Seq<char>>::empty(),
        final(state).ready() == old(state).ready(),
{
    let mut res: Vec<String> = Vec::new();
    std::mem::swap(&mut res, &mut state.pending_file_paths);
    proof {
        assert(final(state).pending() =~= Seq::<Seq<char>>::empty());
    }
    res
}

/// Keeps `file_path` for the frontend, after the paths already kept.
pub fn buffer_file_path(state: &mut FileAssociation, file_path: String)
    ensures
        final(state).pending() == old(state).pending().push(file_path@),
        final(state).ready() == old(state).ready(),
{
    state.pending_file_paths.push(file_path);
    proof {
        assert(final(state).pending() =~= old(state).pending().push(file_path@));
    }
}

/// Whether a file handed over by the system is opened at all: it exists and
/// its extension is a supported one.
pub open spec fn is_openable(exists: bool, extension: Option<&str>) -> bool {
    exists && match extension {
        Some(e) => is_supported(e@),
        None => false,
    }
}

/// Decides what happens to a file that the system asks to open. `exists`
/// says whether the file is there, `extension` is the extension of its
/// path.
///
/// A file that is missing or is no note is ignored. For any other, a ready
/// frontend gets the returned event; the caller emits it and, should that
/// fail, keeps the path with `buffer_file_path`. While the frontend is not
/// ready the path is kept and no event is returned.
pub fn handle_open_file_event(
    state: &mut FileAssociation,
    file_path: String,
    exists: bool,
    extension: Option<&str>,
) -> (res: Option<OpenFileEvent>)
    ensures
        final(state).ready() == old(state).ready(),
        match res {
            Some(event) => {
                &&& is_openable(exists, extension)
                &&& old(state).ready()
                &&& event.file_path@ == file_path@
                &&& final(state).pending() == old(state).pending()
            },
            None => if is_openable(exists, extension) {
                !old(state).ready() && final(state).pending() == old(state).pending().push(
                    file_path@,
                )
            } else {
                final(state).pending() == old(state).pending()
            },
        },
{
    let openable = exists && match extension {
        Some(e) => is_supported_extension(e),
        None => false,
    };
    if !openable {
        None
    } else if is_frontend_ready(state) {
        Some(OpenFileEvent { file_path })
    } else {
        buffer_file_path(state, file_path);
        None
    }
}

/// Records that the frontend is ready and hands out, as the events to emit
/// now, the paths that were kept for it, oldest first; none stays kept.
pub fn set_frontend_ready_command(state: &mut FileAssociation) -> (res: Vec<OpenFileEvent>)
    ensures
        final(state).ready(),
        final(state).pending() == Seq::<Seq<char>>::empty(),
        event_paths(res@) == old(state).pending(),
{
    set_frontend_ready(state);
    let pending = get_pending_file_paths(state);
    let mut events: Vec<OpenFileEvent> = Vec::new();
    let mut i: usize = 0;
    while i < pending.len()
        invariant
            i <= pending.len(),
            event_paths(events@) == paths_of(pending@).take(i as int),
        decreases pending.len() - i,
    {
        events.push(OpenFileEvent { file_path: pending[i].clone() });
        proof {
            let paths = paths_of(pending@);
            assert(event_paths(events@) =~= paths.take(i as int).push(paths[i as int]));
            assert(paths.take(i + 1) =~= paths.take(i as int).push(paths[i as int]));
        }
        i = i + 1;
    }
    proof {
        assert(paths_of(pending@).take(pending.len() as int) =~= paths_of(pending@));
    }
    events
}

} // verus!
