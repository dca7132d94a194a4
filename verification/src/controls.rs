//! The player's decisions: how it reacts to its buttons, the pointer, the
//! keyboard and the playback pipeline. Each function takes the state it
//! reads and the event, and returns what the player is to do.

use vstd::prelude::*;
use crate::clock::{fmt_time, time_text, ClockTime};
use crate::streams::{spec_info_text, spec_stream_details, stream_views, info_text, stream_details, StreamInfo};

verus! {

/// The window title when no video is loaded.
pub const APP_TITLE: &'static str = "Rumpel";

/// The overlay text while a file's streams are not yet known.
pub const LOADING_TEXT: &'static str = "Loading media information...";

/// The overlay text once the playing video was moved away and none follows.
pub const NO_VIDEO_TEXT: &'static str = "No video is loaded.";

/// Height in pixels of the band at the bottom of the video in which the
/// pointer brings the controls back.
pub const CONTROLS_HOT_ZONE: i32 = 100;

/// Seconds after which the controls hide.
pub const CONTROLS_HIDE_DELAY_SECS: u64 = 5;

/// The state that the playback pipeline is asked to enter.
#[derive(Clone, Copy, Debug, PartialEq, Eq, Structural)]
pub enum PipelineState {
    Null,
    Ready,
    Paused,
    Playing,
}

/// How the video is scaled to the window.
#[derive(Clone, Copy, Debug, PartialEq, Eq, Structural)]
pub enum ContentFit {
    /// Fit inside the window, keeping the aspect ratio.
    Contain,
    /// Stretch to the window.
    Fill,
    /// Cover the window, keeping the aspect ratio.
    Cover,
}

/// The icon of the play button in the given state.
pub open spec fn spec_play_icon(playing: bool) -> Seq<char> {
    if playing {
        "media-playback-pause-symbolic"@
    } else {
        "media-playback-start-symbolic"@
    }
}

/// The reaction to the play button being switched on or off: its new icon
/// and the state the pipeline enters.
pub struct PlayToggle {
    pub icon: &'static str,
    pub state: PipelineState,
}

/// Switching the play button on plays, switching it off pauses.
pub fn play_toggled(active: bool) -> (r: PlayToggle)
    ensures
        r.icon@ == spec_play_icon(active),
        r.state == (if active {
            PipelineState::Playing
        } else {
            PipelineState::Paused
        }),
{
    if active {
        PlayToggle { icon: "media-playback-pause-symbolic", state: PipelineState::Playing }
    } else {
        PlayToggle { icon: "media-playback-start-symbolic", state: PipelineState::Paused }
    }
}

/// The reaction to the stop button: playback switches off, the pipeline
/// returns to the ready state, and the position goes back to the start,
/// shown as `position_text`.
pub struct StopReaction {
    pub playing: bool,
    pub state: PipelineState,
    pub position: ClockTime,
    pub position_text: String,
}

/// Stopping switches the play button off, readies the pipeline, and moves
/// the position to the start of the timeline.
pub fn on_stop() -> (r: StopReaction)
    ensures
        !r.playing,
        r.state == PipelineState::Ready,
        r.position@ == 0,
        r.position_text@ == time_text(0),
{
    let position = ClockTime::zero();
    let position_text = fmt_time(position);
    StopReaction { playing: false, state: PipelineState::Ready, position, position_text }
}

/// The icon of the mute button in the given state.
pub open spec fn spec_mute_icon(muted: bool) -> Seq<char> {
    if muted {
        "audio-volume-muted-symbolic"@
    } else {
        "audio-volume-high-symbolic"@
    }
}

/// The icon that the mute button shows.
pub fn mute_icon(muted: bool) -> (icon: &'static str)
    ensures
        icon@ == spec_mute_icon(muted),
{
    if muted {
        "audio-volume-muted-symbolic"
    } else {
        "audio-volume-high-symbolic"
    }
}

/// The scaling chosen in the scaling menu, whose entries are "Fit",
/// "Stretch" and "Cover"; anything else fits.
pub fn content_fit(selected: u32) -> (fit: ContentFit)
    ensures
        fit == (if selected == 1 {
            ContentFit::Fill
        } else if selected == 2 {
            ContentFit::Cover
        } else {
            ContentFit::Contain
        }),
{
    if selected == 1 {
        ContentFit::Fill
    } else if selected == 2 {
        ContentFit::Cover
    } else {
        ContentFit::Contain
    }
}

/// Whether the player is playing and whether its window is full screen.
#[derive(Clone, Copy, Debug, PartialEq, Eq, Structural)]
pub struct ViewState {
    pub playing: bool,
    pub fullscreen: bool,
}

/// A press on the video: every press toggles playback, and the second press
/// of a double click also toggles full screen.
pub open spec fn spec_on_click(n_press: i32, s: ViewState) -> ViewState {
    ViewState {
        playing: !s.playing,
        fullscreen: if n_press == 2 {
            !s.fullscreen
        } else {
            s.fullscreen
        },
    }
}

/// The state after a press on the video (`n_press` counts the presses of a
/// multi-click).
pub fn on_click(n_press: i32, s: ViewState) -> (r: ViewState)
    ensures
        r == spec_on_click(n_press, s),
{
    ViewState {
        playing: !s.playing,
        fullscreen: if n_press == 2 {
            !s.fullscreen
        } else {
            s.fullscreen
        },
    }
}

/// A double click leaves playback as it was and toggles full screen: its
/// second press undoes the first press's toggle of playback.
pub proof fn law_double_click_only_toggles_fullscreen(s: ViewState)
    ensures
        spec_on_click(2, spec_on_click(1, s)) == (ViewState {
            playing: s.playing,
            fullscreen: !s.fullscreen,
        }),
{
}

/// A single click toggles playback and leaves full screen as it was.
pub proof fn law_single_click_toggles_playback(s: ViewState)
    ensures
        spec_on_click(1, s) == (ViewState { playing: !s.playing, fullscreen: s.fullscreen }),
{
}

/// A message from the playback pipeline's bus.
pub enum BusEvent {
    /// The pipeline announced the streams of the file.
    StreamCollection(Vec<StreamInfo>),
    /// Playback reached the end of the file.
    EndOfStream,
    /// Playback failed.
    Error,
    /// Any other message.
    Other,
}

/// What the player does on a bus message.
pub enum BusReaction {
    /// Show this text in the media information overlay.
    ShowInfo(String),
    /// Seek back to the start and keep playing.
    Restart,
    /// Switch the play button off and move the pipeline to this state.
    Halt(PipelineState),
    /// Nothing.
    Ignore,
}

/// The reaction to a bus message, given whether looping is on: the stream
/// details go to the overlay; the end of the file restarts it when looping
/// and otherwise stops in the ready state; an error stops the pipeline.
pub fn on_bus_message(event: BusEvent, looping: bool) -> (r: BusReaction)
    ensures
        event matches BusEvent::StreamCollection(streams) ==> (r matches BusReaction::ShowInfo(
            text,
        ) && text@ == spec_info_text(spec_stream_details(stream_views(streams@)))),
        event is EndOfStream && looping ==> r is Restart,
        event is EndOfStream && !looping ==> r == BusReaction::Halt(PipelineState::Ready),
        event is Error ==> r == BusReaction::Halt(PipelineState::Null),
        event is Other ==> r is Ignore,
{
    match event {
        BusEvent::StreamCollection(streams) => BusReaction::ShowInfo(
            info_text(stream_details(&streams)),
        ),
        BusEvent::EndOfStream => if looping {
            BusReaction::Restart
        } else {
            BusReaction::Halt(PipelineState::Ready)
        },
        BusEvent::Error => BusReaction::Halt(PipelineState::Null),
        BusEvent::Other => BusReaction::Ignore,
    }
}

/// The keys that the player reacts to.
#[derive(Clone, Copy, Debug, PartialEq, Eq, Structural)]
pub enum Key {
    Left,
    Right,
    /// `x`
    LowerX,
    /// `X`
    UpperX,
    /// `i`
    LowerI,
    Other,
}

/// The modifiers held with a key: Control, and whether any other modifier
/// (Shift, Alt, Super, Hyper or Meta) is held.
#[derive(Clone, Copy, Debug, PartialEq, Eq, Structural)]
pub struct Modifiers {
    pub control: bool,
    pub other: bool,
}

/// What the player does on a key press.
#[derive(Clone, Copy, Debug, PartialEq, Eq, Structural)]
pub enum KeyReaction {
    /// Leave the key to the focused control.
    PassOn,
    /// Open the video this many places away in the current file's folder.
    Navigate(isize),
    /// Move the current video to the Trash and open the next one.
    TrashCurrent,
    /// Show or hide the media information overlay.
    ToggleInfo,
}

/// The reaction to a key press: `Ctrl+X` trashes the current video, any
/// other Control shortcut is left alone; unmodified `Left` and `Right` open
/// the previous and next video of the folder and unmodified `i` toggles the
/// media information; everything else is left to the focused control.
pub open spec fn spec_on_key(key: Key, modifiers: Modifiers) -> KeyReaction {
    if modifiers.control {
        if key == Key::LowerX || key == Key::UpperX {
            KeyReaction::TrashCurrent
        } else {
            KeyReaction::PassOn
        }
    } else if modifiers.other {
        KeyReaction::PassOn
    } else {
        match key {
            Key::Left => KeyReaction::Navigate(-1isize),
            Key::Right => KeyReaction::Navigate(1isize),
            Key::LowerI => KeyReaction::ToggleInfo,
            _ => KeyReaction::PassOn,
        }
    }
}

/// The player's reaction to a key press.
pub fn on_key(key: Key, modifiers: Modifiers) -> (r: KeyReaction)
    ensures
        r == spec_on_key(key, modifiers),
{
    if modifiers.control {
        match key {
            Key::LowerX | Key::UpperX => KeyReaction::TrashCurrent,
            _ => KeyReaction::PassOn,
        }
    } else if modifiers.other {
        KeyReaction::PassOn
    } else {
        match key {
            Key::Left => KeyReaction::Navigate(-1),
            Key::Right => KeyReaction::Navigate(1),
            Key::LowerI => KeyReaction::ToggleInfo,
            _ => KeyReaction::PassOn,
        }
    }
}

/// What the player does once it tried to move the current video to the
/// Trash.
pub enum TrashOutcome {
    /// The move failed: report it and keep playing the current video.
    KeepCurrent,
    /// Open this video.
    Open(Vec<u8>),
    /// Stop, forget the current file and show that no video is loaded.
    Clear,
}

/// After a successful move the successor opens, or, with none, the player
/// empties; a failed move keeps the current video.
pub fn after_trash(moved: bool, successor: Option<Vec<u8>>) -> (r: TrashOutcome)
    ensures
        !moved ==> r is KeepCurrent,
        moved && successor is None ==> r is Clear,
        moved && successor is Some ==> (r matches TrashOutcome::Open(next) && next@
            == successor->0@),
{
    if !moved {
        TrashOutcome::KeepCurrent
    } else {
        match successor {
            Some(next) => TrashOutcome::Open(next),
            None => TrashOutcome::Clear,
        }
    }
}

/// Where a file chosen in the open dialog plays.
#[derive(Clone, Copy, Debug, PartialEq, Eq, Structural)]
pub enum OpenTarget {
    /// In this window, which has no media yet.
    ThisWindow,
    /// In a new window of its own.
    NewWindow,
}

/// A window without media plays the chosen file itself; an occupied window
/// opens a new one.
pub fn open_target(window_has_media: bool) -> (t: OpenTarget)
    ensures
        t == (if window_has_media {
            OpenTarget::NewWindow
        } else {
            OpenTarget::ThisWindow
        }),
{
    if window_has_media {
        OpenTarget::NewWindow
    } else {
        OpenTarget::ThisWindow
    }
}

/// What the player does with its controls when the pointer moves.
#[derive(Clone, Copy, Debug, PartialEq, Eq, Structural)]
pub enum MotionReaction {
    /// Cancel any pending hide and show the controls.
    ShowControls,
    /// Start the timer that hides the controls.
    ScheduleHide,
    /// Nothing.
    Nothing,
}

/// In the bottom band the controls show and stay; elsewhere, visible
/// controls with no pending hide get one scheduled.
pub fn on_pointer_motion(in_hot_zone: bool, controls_visible: bool, hide_pending: bool) -> (r:
    MotionReaction)
    ensures
        in_hot_zone ==> r == MotionReaction::ShowControls,
        !in_hot_zone && controls_visible && !hide_pending ==> r == MotionReaction::ScheduleHide,
        !in_hot_zone && !(controls_visible && !hide_pending) ==> r == MotionReaction::Nothing,
{
    if in_hot_zone {
        MotionReaction::ShowControls
    } else if controls_visible && !hide_pending {
        MotionReaction::ScheduleHide
    } else {
        MotionReaction::Nothing
    }
}

/// The size in device pixels that the video sink renders for a widget
/// extent in logical pixels: the extent, at least zero, times the scale
/// factor taken as an unsigned number.
pub fn sink_extent(extent: i32, scale_factor: i32) -> (pixels: u32)
    requires
        (if extent > 0 {
            extent as int
        } else {
            0
        }) * (scale_factor as u32) <= u32::MAX,
    ensures
        pixels == (if extent > 0 {
            extent as int
        } else {
            0
        }) * (scale_factor as u32),
{
    let logical: u32 = if extent > 0 {
        extent as u32
    } else {
        0
    };
    logical * (scale_factor as u32)
}

} // verus!
