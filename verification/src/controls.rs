use vstd::prelude::*;

verus! {

/// The keys the viewer reacts to.
#[derive(Debug, Clone, Copy, PartialEq, Eq, Structural)]
pub enum Key {
    Escape,
    ArrowRight,
    ArrowLeft,
    KeyF,
    Other,
}

/// A window event, as far as the viewer tells events apart.
#[derive(Debug, Clone, Copy, PartialEq, Eq, Structural)]
pub enum WindowInput {
    CloseRequested,
    Resized { width: u32, height: u32 },
    RedrawRequested,
    /// A key went down (`pressed`) or up.
    Key { key: Key, pressed: bool },
    /// The left mouse button went down.
    LeftMousePressed,
    Touch,
    Other,
}

/// What the viewer does in answer to a window event.
#[derive(Debug, Clone, Copy, PartialEq, Eq, Structural)]
pub enum ViewerCommand {
    Exit,
    Resize { width: u32, height: u32 },
    /// Draw a frame, let a running timing run take its decision, ask for the next frame
    /// and count the frame.
    Redraw,
    NextTriangulation,
    PrevTriangulation,
    ToggleFullScreen,
    /// Start a timing run over all triangulations.
    StartDataGathering,
    Ignore,
}

/// The command for each window event: Escape or closing the window quits, the arrow keys
/// step through the triangulations, F toggles full screen, a left click or a touch starts
/// a timing run.
pub open spec fn spec_command_for(input: WindowInput) -> ViewerCommand {
    match input {
        WindowInput::CloseRequested => ViewerCommand::Exit,
        WindowInput::Resized { width, height } => ViewerCommand::Resize { width, height },
        WindowInput::RedrawRequested => ViewerCommand::Redraw,
        WindowInput::Key { key, pressed } => if !pressed {
            ViewerCommand::Ignore
        } else {
            match key {
                Key::Escape => ViewerCommand::Exit,
                Key::ArrowRight => ViewerCommand::NextTriangulation,
                Key::ArrowLeft => ViewerCommand::PrevTriangulation,
                Key::KeyF => ViewerCommand::ToggleFullScreen,
                Key::Other => ViewerCommand::Ignore,
            }
        },
        WindowInput::LeftMousePressed => ViewerCommand::StartDataGathering,
        WindowInput::Touch => ViewerCommand::StartDataGathering,
        WindowInput::Other => ViewerCommand::Ignore,
    }
}

/// The command for a window event.
pub fn command_for(input: WindowInput) -> (res: ViewerCommand)
    ensures
        res == spec_command_for(input),
{
    match input {
        WindowInput::CloseRequested => ViewerCommand::Exit,
        WindowInput::Resized { width, height } => ViewerCommand::Resize { width, height },
        WindowInput::RedrawRequested => ViewerCommand::Redraw,
        WindowInput::Key { key, pressed } => match (key, pressed) {
            (Key::Escape, true) => ViewerCommand::Exit,
            (Key::ArrowRight, true) => ViewerCommand::NextTriangulation,
            (Key::ArrowLeft, true) => ViewerCommand::PrevTriangulation,
            (Key::KeyF, true) => ViewerCommand::ToggleFullScreen,
            _ => ViewerCommand::Ignore,
        },
        WindowInput::LeftMousePressed => ViewerCommand::StartDataGathering,
        WindowInput::Touch => ViewerCommand::StartDataGathering,
        WindowInput::Other => ViewerCommand::Ignore,
    }
}

/// Only a key going down gives a command: releasing any key is ignored. Pressed, Escape
/// quits, the right and left arrows step forward and back through the triangulations, F
/// toggles full screen and any other key is ignored; closing the window quits, a left
/// click or a touch starts a timing run, a new size is passed on, a redraw request draws a
/// frame and any other event is ignored.
pub proof fn lemma_commands(key: Key, width: u32, height: u32)
    ensures
        spec_command_for((WindowInput::Key { key, pressed: false })) == ViewerCommand::Ignore,
        spec_command_for((WindowInput::Key { key: Key::Escape, pressed: true }))
            == ViewerCommand::Exit,
        spec_command_for((WindowInput::Key { key: Key::ArrowRight, pressed: true }))
            == ViewerCommand::NextTriangulation,
        spec_command_for((WindowInput::Key { key: Key::ArrowLeft, pressed: true }))
            == ViewerCommand::PrevTriangulation,
        spec_command_for((WindowInput::Key { key: Key::KeyF, pressed: true }))
            == ViewerCommand::ToggleFullScreen,
        spec_command_for((WindowInput::Key { key: Key::Other, pressed: true }))
            == ViewerCommand::Ignore,
        spec_command_for(WindowInput::CloseRequested) == ViewerCommand::Exit,
        spec_command_for(WindowInput::LeftMousePressed) == ViewerCommand::StartDataGathering,
        spec_command_for(WindowInput::Touch) == ViewerCommand::StartDataGathering,
        spec_command_for((WindowInput::Resized { width, height })) == (ViewerCommand::Resize {
            width,
            height,
        }),
        spec_command_for(WindowInput::RedrawRequested) == ViewerCommand::Redraw,
        spec_command_for(WindowInput::Other) == ViewerCommand::Ignore,
{
}

/// How often the window title with the frame rate is refreshed, in milliseconds.
pub const TITLE_REFRESH_MS: i64 = 1000;

/// Whether the frame rate shown in the title is due for a refresh, `elapsed_ms` after the
/// last one.
pub fn title_refresh_due(elapsed_ms: i64) -> (res: bool)
    ensures
        res == (elapsed_ms >= TITLE_REFRESH_MS),
{
    elapsed_ms >= TITLE_REFRESH_MS
}

/// The size bookkeeping of the drawing surface: the size asked for last, the size the
/// surface was last configured with, and whether that configuration is current.
/// Frames are drawn only while it is.
pub struct SurfaceState {
    size: (u32, u32),
    configured_size: (u32, u32),
    is_surface_configured: bool,
}

impl SurfaceState {
    /// The size asked for last.
    pub closed spec fn spec_size(&self) -> (u32, u32) {
        self.size
    }

    /// The size the surface was last configured with.
    pub closed spec fn spec_configured_size(&self) -> (u32, u32) {
        self.configured_size
    }

    /// Whether the surface configuration is current.
    pub closed spec fn spec_is_configured(&self) -> bool {
        self.is_surface_configured
    }

    /// A surface of the given size, set up but not yet configured for drawing.
    pub fn new(width: u32, height: u32) -> (res: Self)
        ensures
            res.spec_size() == (width, height),
            res.spec_configured_size() == (width, height),
            !res.spec_is_configured(),
    {
        SurfaceState {
            size: (width, height),
            configured_size: (width, height),
            is_surface_configured: false,
        }
    }

    /// Records a new size. A size with no zero side also becomes the configured size, and
    /// the surface is to be configured with it (the result says so); a size with a zero
    /// side changes nothing else.
    pub fn resize(&mut self, width: u32, height: u32) -> (configure: bool)
        ensures
            final(self).spec_size() == (width, height),
            configure == (width > 0 && height > 0),
            configure ==> final(self).spec_configured_size() == (width, height)
                && final(self).spec_is_configured(),
            !configure ==> final(self).spec_configured_size() == old(self).spec_configured_size()
                && final(self).spec_is_configured() == old(self).spec_is_configured(),
    {
        self.size = (width, height);
        if width > 0 && height > 0 {
            self.configured_size = (width, height);
            self.is_surface_configured = true;
            true
        } else {
            false
        }
    }

    /// Records that the surface was made anew with the given size; it has to be configured
    /// again before frames are drawn.
    pub fn recreate(&mut self, width: u32, height: u32)
        ensures
            final(self).spec_size() == (width, height),
            final(self).spec_configured_size() == (width, height),
            !final(self).spec_is_configured(),
    {
        self.size = (width, height);
        self.configured_size = (width, height);
        self.is_surface_configured = false;
    }

    /// Whether a frame can be drawn.
    pub fn can_render(&self) -> (res: bool)
        ensures
            res == self.spec_is_configured(),
    {
        self.is_surface_configured
    }

    /// The size asked for last.
    pub fn get_render_size(&self) -> (res: (u32, u32))
        ensures
            res == self.spec_size(),
    {
        self.size
    }

    /// The size the surface was last configured with.
    pub fn configured_size(&self) -> (res: (u32, u32))
        ensures
            res == self.spec_configured_size(),
    {
        self.configured_size
    }
}

} // verus!
