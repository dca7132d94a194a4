//! What a player window remembers about the file it plays: the file's path
//! and whether the window has been sized to the video yet.

use vstd::prelude::*;

verus! {

/// The view of an optional path.
pub open spec fn path_view(p: Option<Vec<u8>>) -> Option<Seq<u8>> {
    match p {
        Some(v) => Some(v@),
        None => None,
    }
}

/// A window's playback session.
pub struct Session {
    current: Option<Vec<u8>>,
    sized: bool,
}

/// The mathematical value of a [`Session`]: the path of the current file,
/// if any, and whether the window was sized to its video.
pub struct SessionView {
    pub current: Option<Seq<u8>>,
    pub sized: bool,
}

impl View for Session {
    type V = SessionView;

    closed spec fn view(&self) -> SessionView {
        SessionView { current: path_view(self.current), sized: self.sized }
    }
}

/// The session after loading a file whose local path is `path` (`None` for
/// a file without one): that path is current, and the window is to be
/// sized to the new video.
pub open spec fn spec_load(path: Option<Seq<u8>>) -> SessionView {
    SessionView { current: path, sized: false }
}

/// Whether a reported video size sizes the window: only the first proper
/// size (both extents positive) after a file is loaded does.
pub open spec fn spec_sizes_window(s: SessionView, width: int, height: int) -> bool {
    !s.sized && width > 0 && height > 0
}

/// The session after a video size is reported.
pub open spec fn spec_after_size(s: SessionView, width: int, height: int) -> SessionView {
    SessionView { current: s.current, sized: s.sized || spec_sizes_window(s, width, height) }
}

impl Session {
    /// A new window's session, playing `file` if one was given.
    pub fn new(file: Option<Vec<u8>>) -> (s: Session)
        ensures
            s@ == (SessionView { current: path_view(file), sized: false }),
    {
        Session { current: file, sized: false }
    }

    /// The path of the current file.
    pub fn current(&self) -> (path: Option<Vec<u8>>)
        ensures
            path_view(path) == self@.current,
    {
        match &self.current {
            Some(p) => {
                let c = p.clone();
                assert(c@ =~= p@);
                Some(c)
            },
            None => None,
        }
    }

    /// Makes the file with local path `path` current.
    pub fn load(&mut self, path: Option<Vec<u8>>)
        ensures
            final(self)@ == spec_load(path_view(path)),
    {
        self.current = path;
        self.sized = false;
    }

    /// Forgets the current file.
    pub fn clear(&mut self)
        ensures
            final(self)@ == (SessionView { current: None, sized: old(self)@.sized }),
    {
        self.current = None;
    }

    /// Records a video size reported by the video output; `true` when the
    /// window is to be sized to it now.
    pub fn video_size_known(&mut self, width: i32, height: i32) -> (fit: bool)
        ensures
            fit == spec_sizes_window(old(self)@, width as int, height as int),
            final(self)@ == spec_after_size(old(self)@, width as int, height as int),
    {
        if self.sized || width <= 0 || height <= 0 {
            return false;
        }
        self.sized = true;
        true
    }
}

/// Once a video size has sized the window, no later size does until another
/// file is loaded.
pub proof fn law_window_sized_once(
    s: SessionView,
    width: int,
    height: int,
    later_width: int,
    later_height: int,
)
    requires
        spec_sizes_window(s, width, height),
    ensures
        !spec_sizes_window(spec_after_size(s, width, height), later_width, later_height),
{
}

/// After a file is loaded, its first proper video size sizes the window,
/// whatever happened before.
pub proof fn law_load_resizes(path: Option<Seq<u8>>, width: int, height: int)
    requires
        width > 0,
        height > 0,
    ensures
        spec_sizes_window(spec_load(path), width, height),
        spec_load(path).current == path,
{
}

} // verus!
