//! The host-facing configuration of a game: window title and size,
//! renderer options, and the validation that must pass before the two
//! threads start. The windowing itself belongs to the presentation
//! side; this type only carries and checks its configuration.

use vstd::prelude::*;

verus! {

/// A game configuration under construction. Title and size have no
/// defaults and must be set before `validate` passes; the renderer
/// options default to off.
pub struct Game {
    title: Option<String>,
    size: Option<(u32, u32)>,
    accelerated: bool,
    vsync: bool,
}

impl Game {
    /// The configured window title, if set.
    pub closed spec fn spec_title(&self) -> Option<String> {
        self.title
    }

    /// The configured window width and height, if set.
    pub closed spec fn spec_size(&self) -> Option<(u32, u32)> {
        self.size
    }

    /// Whether hardware acceleration was requested.
    pub closed spec fn spec_accelerated(&self) -> bool {
        self.accelerated
    }

    /// Whether vertical synchronization was requested.
    pub closed spec fn spec_vsync(&self) -> bool {
        self.vsync
    }

    /// A configuration with nothing set: it does not validate until a
    /// title and a size are given.
    pub fn new() -> (r: Game)
        ensures
            r.spec_title() is None,
            r.spec_size() is None,
            !r.spec_accelerated(),
            !r.spec_vsync(),
    {
        Game { title: None, size: None, accelerated: false, vsync: false }
    }

    /// Set the window title.
    pub fn title(&mut self, title: &str)
        ensures
            final(self).spec_title() is Some,
            (final(self).spec_title()->0)@ == title@,
            final(self).spec_size() == old(self).spec_size(),
            final(self).spec_accelerated() == old(self).spec_accelerated(),
            final(self).spec_vsync() == old(self).spec_vsync(),
    {
        self.title = Some(String::from_str(title));
    }

    /// Set the window size.
    pub fn size(&mut self, width: u32, height: u32)
        ensures
            final(self).spec_size() == Some((width, height)),
            final(self).spec_title() == old(self).spec_title(),
            final(self).spec_accelerated() == old(self).spec_accelerated(),
            final(self).spec_vsync() == old(self).spec_vsync(),
    {
        self.size = Some((width, height));
    }

    /// Request hardware acceleration.
    pub fn accelerated(&mut self)
        ensures
            final(self).spec_accelerated(),
            final(self).spec_title() == old(self).spec_title(),
            final(self).spec_size() == old(self).spec_size(),
            final(self).spec_vsync() == old(self).spec_vsync(),
    {
        self.accelerated = true;
    }

    /// Request vertical synchronization.
    pub fn vsync(&mut self)
        ensures
            final(self).spec_vsync(),
            final(self).spec_title() == old(self).spec_title(),
            final(self).spec_size() == old(self).spec_size(),
            final(self).spec_accelerated() == old(self).spec_accelerated(),
    {
        self.vsync = true;
    }

    /// Check that every required field was set: exactly when both size
    /// and title are present the configuration is fit to start, and the
    /// error otherwise names the missing fields, size first.
    pub fn validate(&self) -> (r: Result<(), String>)
        ensures
            r is Ok <==> (self.spec_size() is Some && self.spec_title() is Some),
            (self.spec_size() is None && self.spec_title() is None) ==> (r is Err && (r->Err_0)@
                == "Game requires: size, title"@),
            (self.spec_size() is None && self.spec_title() is Some) ==> (r is Err && (r->Err_0)@
                == "Game requires: size"@),
            (self.spec_size() is Some && self.spec_title() is None) ==> (r is Err && (r->Err_0)@
                == "Game requires: title"@),
    {
        match (&self.size, &self.title) {
            (Some(_), Some(_)) => Ok(()),
            (None, Some(_)) => Err(String::from_str("Game requires: size")),
            (Some(_), None) => Err(String::from_str("Game requires: title")),
            (None, None) => Err(String::from_str("Game requires: size, title")),
        }
    }

    /// The configured window title, for the presentation side.
    pub fn window_title(&self) -> (r: Option<&String>)
        ensures
            r is Some <==> self.spec_title() is Some,
            r is Some ==> *(r->0) == self.spec_title()->0,
    {
        self.title.as_ref()
    }

    /// The configured window size, for the presentation side.
    pub fn window_size(&self) -> (r: Option<(u32, u32)>)
        ensures
            r == self.spec_size(),
    {
        match &self.size {
            Some(wh) => Some(*wh),
            None => None,
        }
    }
}

} // verus!
