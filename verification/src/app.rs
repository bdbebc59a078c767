//! The application: what keys, flags and frames do to its state.
//!
//! Keys: F / F11 toggle fullscreen, Tab cycles the audio source, C cycles the
//! accent colour, 1-6 pick it directly, Space cycles the song overlay, Esc quits.
//!
//! Flags: `--list-sources`, `--mic` (capture the default input instead of the
//! output), `--accent <name>`.

use crate::audio;
use crate::audio::{Command, SourceInfo};
use crate::single::Single;
use crate::text;
use vstd::prelude::*;

verus! {

/// Number of accent colours.
pub const ACCENT_COUNT: usize = 6;

/// The bit pattern of 0.5: the overlay fades in for that many seconds.
pub const FADED_IN: u32 = 0x3f00_0000;

/// The bit pattern of 5.5: the overlay stays up until then.
pub const HELD: u32 = 0x40b0_0000;

/// The bit pattern of 6.7: the overlay has faded out by then.
pub const FADED_OUT: u32 = 0x40d6_6666;

/// The bit pattern of 30.0: after that many seconds the overlay comes up again on
/// its own.
pub const OVERLAY_CYCLE: u32 = 0x41f0_0000;

/// How long to wait after a frame that could not be shown, in milliseconds.
pub const BACK_OFF_MS: u64 = 8;

/// How the now-playing overlay behaves. Cycled with Space.
#[derive(Clone, Copy, Debug, PartialEq, Eq, Structural)]
pub enum OverlayMode {
    /// Fades in on track change and every [`OVERLAY_CYCLE`] (default).
    Occasional,
    /// Always visible.
    Permanent,
    /// Never shown.
    Never,
}

impl OverlayMode {
    /// The mode that Space leads to.
    pub open spec fn successor(self) -> OverlayMode {
        match self {
            OverlayMode::Occasional => OverlayMode::Permanent,
            OverlayMode::Permanent => OverlayMode::Never,
            OverlayMode::Never => OverlayMode::Occasional,
        }
    }

    /// The name of the mode.
    pub open spec fn name(self) -> Seq<char> {
        match self {
            OverlayMode::Occasional => "occasional"@,
            OverlayMode::Permanent => "permanent"@,
            OverlayMode::Never => "never"@,
        }
    }

    /// The next mode.
    pub fn next(self) -> (r: OverlayMode)
        ensures
            r == self.successor(),
    {
        match self {
            OverlayMode::Occasional => OverlayMode::Permanent,
            OverlayMode::Permanent => OverlayMode::Never,
            OverlayMode::Never => OverlayMode::Occasional,
        }
    }

    /// The name to show for the mode.
    pub fn label(self) -> (r: &'static str)
        ensures
            r@ == self.name(),
    {
        match self {
            OverlayMode::Occasional => "occasional",
            OverlayMode::Permanent => "permanent",
            OverlayMode::Never => "never",
        }
    }
}

/// Where the overlay stands on its way in and out.
#[derive(Clone, Copy, Debug, PartialEq, Eq, Structural)]
pub enum FadePhase {
    FadingIn,
    Up,
    FadingOut,
    Hidden,
}

/// The phase of the overlay `t` seconds after it was called up.
pub open spec fn phase_at(t: Single) -> FadePhase {
    if t.less(Single { bits: FADED_IN }) {
        FadePhase::FadingIn
    } else if t.less(Single { bits: HELD }) {
        FadePhase::Up
    } else if t.less(Single { bits: FADED_OUT }) {
        FadePhase::FadingOut
    } else {
        FadePhase::Hidden
    }
}

/// Finds the phase of the overlay `t` seconds after it was called up.
pub fn fade_phase(t: Single) -> (r: FadePhase)
    ensures
        r == phase_at(t),
{
    if t.lt(Single { bits: FADED_IN }) {
        FadePhase::FadingIn
    } else if t.lt(Single { bits: HELD }) {
        FadePhase::Up
    } else if t.lt(Single { bits: FADED_OUT }) {
        FadePhase::FadingOut
    } else {
        FadePhase::Hidden
    }
}

/// The name of an accent colour.
pub open spec fn accent_label(i: int) -> Seq<char> {
    if i == 0 {
        "neon-red"@
    } else if i == 1 {
        "amber"@
    } else if i == 2 {
        "green"@
    } else if i == 3 {
        "cyan"@
    } else if i == 4 {
        "violet"@
    } else {
        "white"@
    }
}

/// Red, green and blue of an accent colour, in hundredths.
pub open spec fn accent_hundredths(i: int) -> (u8, u8, u8) {
    if i == 0 {
        (100, 10, 22)
    } else if i == 1 {
        (100, 45, 5)
    } else if i == 2 {
        (25, 100, 30)
    } else if i == 3 {
        (0, 85, 100)
    } else if i == 4 {
        (55, 20, 100)
    } else {
        (100, 100, 100)
    }
}

/// The name of an accent colour. The scene is grayscale; one of these tints the
/// bass and the beat.
pub fn accent_name(i: usize) -> (r: &'static str)
    requires
        i < ACCENT_COUNT,
    ensures
        r@ == accent_label(i as int),
{
    if i == 0 {
        "neon-red"
    } else if i == 1 {
        "amber"
    } else if i == 2 {
        "green"
    } else if i == 3 {
        "cyan"
    } else if i == 4 {
        "violet"
    } else {
        "white"
    }
}

/// Red, green and blue of an accent colour, in hundredths.
pub fn accent_rgb(i: usize) -> (r: (u8, u8, u8))
    requires
        i < ACCENT_COUNT,
    ensures
        r == accent_hundredths(i as int),
{
    if i == 0 {
        (100, 10, 22)
    } else if i == 1 {
        (100, 45, 5)
    } else if i == 2 {
        (25, 100, 30)
    } else if i == 3 {
        (0, 85, 100)
    } else if i == 4 {
        (55, 20, 100)
    } else {
        (100, 100, 100)
    }
}

/// The first accent colour from `i` on that has a name.
pub open spec fn accent_from(name: Seq<char>, i: int) -> Option<int>
    decreases ACCENT_COUNT - i,
{
    if i >= ACCENT_COUNT {
        None
    } else if accent_label(i) == name {
        Some(i)
    } else {
        accent_from(name, i + 1)
    }
}

/// The accent colour of a name.
pub open spec fn accent_of_name(name: Seq<char>) -> Option<int> {
    accent_from(name, 0)
}

/// No two accent colours have one name.
pub proof fn accent_names_differ(i: int, j: int)
    requires
        0 <= i < ACCENT_COUNT,
        0 <= j < ACCENT_COUNT,
        accent_label(i) == accent_label(j),
    ensures
        i == j,
{
    reveal_strlit("neon-red");
    reveal_strlit("amber");
    reveal_strlit("green");
    reveal_strlit("cyan");
    reveal_strlit("violet");
    reveal_strlit("white");
    let first = accent_label(i)[0];
    assert(accent_label(j)[0] == first);
    assert(first == (if i == 0 {
        'n'
    } else if i == 1 {
        'a'
    } else if i == 2 {
        'g'
    } else if i == 3 {
        'c'
    } else if i == 4 {
        'v'
    } else {
        'w'
    }));
}

/// Finds the accent colour of a name.
pub fn find_accent(name: &str) -> (r: Option<usize>)
    ensures
        match accent_of_name(name@) {
            Some(i) => r == Some(i as usize) && 0 <= i < ACCENT_COUNT,
            None => r is None,
        },
{
    let mut i: usize = 0;
    while i < ACCENT_COUNT
        invariant
            i <= ACCENT_COUNT,
            accent_of_name(name@) == accent_from(name@, i as int),
        decreases ACCENT_COUNT - i,
    {
        if text::same_text(accent_name(i), name) {
            return Some(i);
        }
        i = i + 1;
    }
    None
}

/// What the command line asks for.
#[derive(Clone, Copy, Debug, PartialEq, Eq, Structural)]
pub struct Options {
    /// Print the capture targets and stop.
    pub list_sources: bool,
    /// The accent colour to start with.
    pub accent: usize,
    /// Capture system output rather than the default input.
    pub capture_system_output: bool,
}

/// Some argument is this one.
pub open spec fn has_argument(args: Seq<String>, flag: Seq<char>) -> bool {
    exists|i: int| 0 <= i < args.len() && #[trigger] args[i]@ == flag
}

/// The first position of an argument, or their number if it is not among them.
pub open spec fn argument_position(args: Seq<String>, flag: Seq<char>) -> int
    decreases args.len(),
{
    if args.len() == 0 || args[0]@ == flag {
        0
    } else {
        1 + argument_position(args.drop_first(), flag)
    }
}

/// The accent colour that the arguments ask for: the one named behind the first
/// `--accent`, or else the first.
pub open spec fn accent_argument(args: Seq<String>) -> int {
    let i = argument_position(args, "--accent"@);
    if i + 1 < args.len() {
        match accent_of_name(args[i + 1]@) {
            Some(a) => a,
            None => 0,
        }
    } else {
        0
    }
}

proof fn lemma_argument_position(args: Seq<String>, flag: Seq<char>, i: int)
    requires
        0 <= i <= args.len(),
        forall|j: int| 0 <= j < i ==> #[trigger] args[j]@ != flag,
        i < args.len() ==> args[i]@ == flag,
    ensures
        argument_position(args, flag) == i,
    decreases args.len(),
{
    if args.len() > 0 && args[0]@ != flag {
        let t = args.drop_first();
        assert forall|j: int| 0 <= j < i - 1 implies #[trigger] t[j]@ != flag by {
            assert(t[j] == args[j + 1]);
        }
        lemma_argument_position(t, flag, i - 1);
    }
}

/// The first position of an argument, or their number.
fn find_argument(args: &Vec<String>, flag: &str) -> (r: usize)
    ensures
        r == argument_position(args@, flag@),
        r <= args@.len(),
        r < args@.len() <==> has_argument(args@, flag@),
{
    let mut i: usize = 0;
    while i < args.len()
        invariant
            i <= args@.len(),
            forall|j: int| 0 <= j < i ==> #[trigger] args@[j]@ != flag@,
        decreases args@.len() - i,
    {
        if text::same_text(args[i].as_str(), flag) {
            proof {
                lemma_argument_position(args@, flag@, i as int);
            }
            return i;
        }
        i = i + 1;
    }
    proof {
        lemma_argument_position(args@, flag@, i as int);
    }
    i
}

/// Reads the command line.
pub fn parse_options(args: &Vec<String>) -> (r: Options)
    ensures
        r.list_sources == has_argument(args@, "--list-sources"@),
        r.accent == accent_argument(args@),
        r.accent < ACCENT_COUNT,
        r.capture_system_output == !has_argument(args@, "--mic"@),
{
    let list: usize = find_argument(args, "--list-sources");
    let mic: usize = find_argument(args, "--mic");
    let at: usize = find_argument(args, "--accent");
    let count: usize = args.len();
    let accent: usize = if at < count && at + 1 < count {
        match find_accent(args[at + 1].as_str()) {
            Some(a) => a,
            None => 0,
        }
    } else {
        0
    };
    Options { list_sources: list < count, accent, capture_system_output: mic >= count }
}

/// A key, as far as the application tells keys apart.
#[derive(Debug)]
pub enum Key {
    Escape,
    Tab,
    Space,
    F11,
    /// A key that produces text.
    Character(String),
    Other,
}

/// What a key asks for.
#[derive(Clone, Copy, Debug, PartialEq, Eq, Structural)]
pub enum KeyAction {
    Exit,
    CycleSource,
    CycleOverlayMode,
    ToggleFullscreen,
    SetAccent(usize),
    Ignore,
}

/// What happens to the window.
#[derive(Debug)]
pub enum WindowEvent {
    CloseRequested,
    Resized { width: u32, height: u32 },
    Keyboard { key: Key, pressed: bool, repeat: bool },
    RedrawRequested,
    Other,
}

/// What the application does about an event.
#[derive(Debug)]
pub enum Response {
    Nothing,
    Exit,
    Resize { width: u32, height: u32 },
    Redraw,
    /// Switch the window to or from fullscreen.
    Fullscreen(bool),
    /// The overlay mode changed: say so, and call the overlay up.
    OverlayChanged { message: String },
    /// The accent colour changed: say so.
    AccentChanged { message: String },
    /// There is no source to capture: say so.
    NoSources { message: String },
    /// Capture another source, and say so.
    Capture { message: String, command: Command },
}

/// How visible the overlay is.
#[derive(Clone, Copy, Debug, PartialEq, Eq, Structural)]
pub enum Visibility {
    Hidden,
    Full,
    /// As the phase says.
    Fading(FadePhase),
}

/// The state of the application.
pub struct App {
    /// The sample rate that the analysis was made for.
    pub last_rate: u32,
    pub fullscreen: bool,
    /// Index of the captured source.
    pub sel: usize,
    /// Index of the accent colour.
    pub accent: usize,
    /// The current song, if there is one.
    pub track: Option<String>,
    pub overlay_mode: OverlayMode,
}

/// What kind of capture target a source is.
pub open spec fn kind_label(is_sink: bool) -> Seq<char> {
    if is_sink {
        "output/monitor"@
    } else {
        "input"@
    }
}

/// What kind of capture target a source is.
pub fn kind_text(is_sink: bool) -> (r: &'static str)
    ensures
        r@ == kind_label(is_sink),
{
    if is_sink {
        "output/monitor"
    } else {
        "input"
    }
}

/// The message that a source is being captured.
pub open spec fn capture_message(src: SourceInfo) -> Seq<char> {
    "→ capturing ["@ + text::decimal(src.id as nat) + "] "@ + src.name@ + " ("@ + kind_label(
        src.is_sink,
    ) + ")"@
}

/// The line of a source in a listing.
pub open spec fn listing_line(src: SourceInfo) -> Seq<char> {
    "  id="@ + text::padded(text::decimal(src.id as nat), 5) + " "@ + text::padded(
        kind_label(src.is_sink),
        14,
    ) + " "@ + src.name@
}

/// Writes the line of a source in a listing.
pub fn source_line(src: &SourceInfo) -> (r: String)
    ensures
        r@ == listing_line(*src),
{
    let mut s: String = "  id=".to_owned();
    s.append(text::pad_right(text::decimal_text(src.id as u64).as_str(), 5).as_str());
    s.append(" ");
    s.append(text::pad_right(kind_text(src.is_sink), 14).as_str());
    s.append(" ");
    s.append(src.name.as_str());
    s
}

/// The message at the start.
pub open spec fn start_message(options: Options) -> Seq<char> {
    "Capturing "@ + (if options.capture_system_output {
        "system output (default sink monitor)"@
    } else {
        "default microphone/input"@
    }) + ".  Accent: "@ + accent_label(options.accent as int)
}

/// Writes the message at the start.
pub fn start_text(options: &Options) -> (r: String)
    requires
        options.accent < ACCENT_COUNT,
    ensures
        r@ == start_message(*options),
{
    let mut s: String = "Capturing ".to_owned();
    s.append(
        if options.capture_system_output {
            "system output (default sink monitor)"
        } else {
            "default microphone/input"
        },
    );
    s.append(".  Accent: ");
    s.append(accent_name(options.accent));
    s
}

/// Text of one character that is `c`, or `c` as a capital.
pub open spec fn is_letter(s: Seq<char>, small: char, capital: char) -> bool {
    s.len() == 1 && (s[0] == small || s[0] == capital)
}

/// What a key asks for while `accent` is the accent colour.
pub open spec fn action_of(key: Key, accent: int) -> KeyAction {
    match key {
        Key::Escape => KeyAction::Exit,
        Key::Tab => KeyAction::CycleSource,
        Key::Space => KeyAction::CycleOverlayMode,
        Key::F11 => KeyAction::ToggleFullscreen,
        Key::Character(c) => if is_letter(c@, 'f', 'F') {
            KeyAction::ToggleFullscreen
        } else if is_letter(c@, 'c', 'C') {
            KeyAction::SetAccent((accent + 1) as usize)
        } else if c@.len() > 0 && text::is_digit(c@[0]) && 1 <= text::digit_value(c@[0])
            <= ACCENT_COUNT {
            KeyAction::SetAccent((text::digit_value(c@[0]) - 1) as usize)
        } else {
            KeyAction::Ignore
        },
        Key::Other => KeyAction::Ignore,
    }
}

/// An optional text as characters.
pub open spec fn characters(t: Option<String>) -> Option<Seq<char>> {
    match t {
        Some(s) => Some(s@),
        None => None,
    }
}

/// Whether two optional texts are equal.
fn same_track(a: &Option<String>, b: &Option<String>) -> (r: bool)
    ensures
        r == (characters(*a) == characters(*b)),
{
    match (a, b) {
        (Some(x), Some(y)) => text::same_text(x.as_str(), y.as_str()),
        (None, None) => true,
        _ => false,
    }
}

impl App {
    /// The accent colour exists, and the captured source has a next index.
    pub open spec fn wf(&self) -> bool {
        self.accent < ACCENT_COUNT && self.sel < usize::MAX
    }

    /// The state at the start.
    pub fn new(rate: u32, accent: usize) -> (r: App)
        requires
            accent < ACCENT_COUNT,
        ensures
            r.wf(),
            r == (App {
                last_rate: rate,
                fullscreen: false,
                sel: 0,
                accent,
                track: None::<String>,
                overlay_mode: OverlayMode::Occasional,
            }),
    {
        App {
            last_rate: rate,
            fullscreen: false,
            sel: 0,
            accent,
            track: None,
            overlay_mode: OverlayMode::Occasional,
        }
    }

    /// Goes to the next overlay mode; returns the message that says so.
    pub fn cycle_overlay_mode(&mut self) -> (r: String)
        ensures
            *final(self) == (App { overlay_mode: old(self).overlay_mode.successor(), ..*old(self) }),
            r@ == "→ now-playing overlay: "@ + old(self).overlay_mode.successor().name(),
    {
        self.overlay_mode = self.overlay_mode.next();
        let mut s: String = "→ now-playing overlay: ".to_owned();
        s.append(self.overlay_mode.label());
        s
    }

    /// Picks an accent colour, counted round; returns the message that says so.
    pub fn set_accent(&mut self, idx: usize) -> (r: String)
        ensures
            *final(self) == (App { accent: (idx % ACCENT_COUNT) as usize, ..*old(self) }),
            r@ == "→ accent: "@ + accent_label(idx as int % ACCENT_COUNT as int),
    {
        self.accent = idx % ACCENT_COUNT;
        let mut s: String = "→ accent: ".to_owned();
        s.append(accent_name(self.accent));
        s
    }

    /// Toggles fullscreen, if there is a window; returns what to switch it to.
    pub fn toggle_fullscreen(&mut self, window_open: bool) -> (r: Option<bool>)
        ensures
            window_open ==> *final(self) == (App { fullscreen: !old(self).fullscreen, ..*old(self) })
                && r == Some(!old(self).fullscreen),
            !window_open ==> *final(self) == *old(self) && r is None,
    {
        if window_open {
            self.fullscreen = !self.fullscreen;
            Some(self.fullscreen)
        } else {
            None
        }
    }

    /// Goes to the next source, counted round, if there is any.
    pub fn cycle_source(&mut self, sources: &Vec<SourceInfo>) -> (r: Response)
        requires
            old(self).wf(),
        ensures
            final(self).wf(),
            sources@.len() == 0 ==> {
                &&& *final(self) == *old(self)
                &&& r matches Response::NoSources { message }
                &&& message@ == "No audio sources discovered yet."@
            },
            sources@.len() > 0 ==> {
                let next = (old(self).sel + 1) % sources@.len() as int;
                &&& *final(self) == (App { sel: next as usize, ..*old(self) })
                &&& r matches Response::Capture { message, command }
                &&& message@ == capture_message(sources@[next])
                &&& command == (Command::Connect {
                    target: Some(sources@[next].id),
                    capture_sink: sources@[next].is_sink,
                })
            },
    {
        if sources.len() == 0 {
            return Response::NoSources { message: "No audio sources discovered yet.".to_owned() };
        }
        self.sel = (self.sel + 1) % sources.len();
        let src: &SourceInfo = &sources[self.sel];
        let mut s: String = "→ capturing [".to_owned();
        s.append(text::decimal_text(src.id as u64).as_str());
        s.append("] ");
        s.append(src.name.as_str());
        s.append(" (");
        s.append(kind_text(src.is_sink));
        s.append(")");
        Response::Capture { message: s, command: audio::connect_command(src) }
    }

    /// Finds out what a key asks for.
    pub fn key_action(&self, key: &Key) -> (r: KeyAction)
        requires
            self.wf(),
        ensures
            r == action_of(*key, self.accent as int),
    {
        match key {
            Key::Escape => KeyAction::Exit,
            Key::Tab => KeyAction::CycleSource,
            Key::Space => KeyAction::CycleOverlayMode,
            Key::F11 => KeyAction::ToggleFullscreen,
            Key::Character(c) => {
                let chars: Vec<char> = text::to_chars(c.as_str());
                if chars.len() == 0 {
                    return KeyAction::Ignore;
                }
                let first: char = chars[0];
                if chars.len() == 1 && (first == 'f' || first == 'F') {
                    return KeyAction::ToggleFullscreen;
                }
                if chars.len() == 1 && (first == 'c' || first == 'C') {
                    return KeyAction::SetAccent(self.accent + 1);
                }
                let v: u32 = first as u32;
                if v >= 49 && v <= 54 {
                    KeyAction::SetAccent((v - 49) as usize)
                } else {
                    KeyAction::Ignore
                }
            },
            Key::Other => KeyAction::Ignore,
        }
    }

    /// Answers a pressed key.
    pub fn key_pressed(
        &mut self,
        key: &Key,
        window_open: bool,
        sources: &Vec<SourceInfo>,
    ) -> (r: Response)
        requires
            old(self).wf(),
        ensures
            final(self).wf(),
            key_answer(
                *old(self),
                action_of(*key, old(self).accent as int),
                window_open,
                sources@,
                *final(self),
                r,
            ),
    {
        match self.key_action(key) {
            KeyAction::Exit => Response::Exit,
            KeyAction::CycleSource => self.cycle_source(sources),
            KeyAction::CycleOverlayMode => Response::OverlayChanged {
                message: self.cycle_overlay_mode(),
            },
            KeyAction::ToggleFullscreen => match self.toggle_fullscreen(window_open) {
                Some(on) => Response::Fullscreen(on),
                None => Response::Nothing,
            },
            KeyAction::SetAccent(idx) => Response::AccentChanged { message: self.set_accent(idx) },
            KeyAction::Ignore => Response::Nothing,
        }
    }

    /// Answers an event of the window. Only the first press of a key counts, not
    /// its release and not its repetition.
    pub fn window_event(
        &mut self,
        event: &WindowEvent,
        window_open: bool,
        sources: &Vec<SourceInfo>,
    ) -> (r: Response)
        requires
            old(self).wf(),
        ensures
            final(self).wf(),
            match *event {
                WindowEvent::CloseRequested => r is Exit && *final(self) == *old(self),
                WindowEvent::Resized { width, height } => {
                    &&& r == (Response::Resize { width, height })
                    &&& *final(self) == *old(self)
                },
                WindowEvent::Keyboard { key, pressed, repeat } => if pressed && !repeat {
                    key_answer(
                        *old(self),
                        action_of(key, old(self).accent as int),
                        window_open,
                        sources@,
                        *final(self),
                        r,
                    )
                } else {
                    r is Nothing && *final(self) == *old(self)
                },
                WindowEvent::RedrawRequested => r is Redraw && *final(self) == *old(self),
                WindowEvent::Other => r is Nothing && *final(self) == *old(self),
            },
    {
        match event {
            WindowEvent::CloseRequested => Response::Exit,
            WindowEvent::Resized { width, height } => Response::Resize {
                width: *width,
                height: *height,
            },
            WindowEvent::Keyboard { key, pressed, repeat } => if *pressed && !*repeat {
                self.key_pressed(key, window_open, sources)
            } else {
                Response::Nothing
            },
            WindowEvent::RedrawRequested => Response::Redraw,
            WindowEvent::Other => Response::Nothing,
        }
    }

    /// Takes note of the capture rate; whether the analysis has to be made anew.
    pub fn update_rate(&mut self, rate: u32) -> (r: bool)
        ensures
            *final(self) == (App { last_rate: rate, ..*old(self) }),
            r == (rate != old(self).last_rate),
    {
        if rate != self.last_rate {
            self.last_rate = rate;
            true
        } else {
            false
        }
    }

    /// Takes note of the current song, `shown_for` seconds after the overlay was
    /// called up; whether to call it up again. It comes up when another song
    /// plays, and from time to time in the occasional mode.
    pub fn update_track(&mut self, playing: Option<String>, shown_for: Single) -> (r: bool)
        ensures
            characters(final(self).track) == characters(playing),
            *final(self) == (App { track: final(self).track, ..*old(self) }),
            r == (playing is Some && (characters(playing) != characters(old(self).track) || (old(
                self,
            ).overlay_mode == OverlayMode::Occasional && Single { bits: OVERLAY_CYCLE }.at_most(
                shown_for,
            )))),
    {
        if !same_track(&playing, &self.track) {
            self.track = playing;
            self.track.is_some()
        } else {
            self.track.is_some() && self.overlay_mode == OverlayMode::Occasional && Single {
                bits: OVERLAY_CYCLE,
            }.le(shown_for)
        }
    }

    /// How visible the overlay is, `shown_for` seconds after it was called up.
    pub fn overlay_visibility(&self, shown_for: Single) -> (r: Visibility)
        ensures
            r == (if self.track is None {
                Visibility::Hidden
            } else {
                match self.overlay_mode {
                    OverlayMode::Never => Visibility::Hidden,
                    OverlayMode::Permanent => Visibility::Full,
                    OverlayMode::Occasional => Visibility::Fading(phase_at(shown_for)),
                }
            }),
    {
        if self.track.is_none() {
            return Visibility::Hidden;
        }
        match self.overlay_mode {
            OverlayMode::Never => Visibility::Hidden,
            OverlayMode::Permanent => Visibility::Full,
            OverlayMode::Occasional => Visibility::Fading(fade_phase(shown_for)),
        }
    }
}

/// How long to wait after a frame. Where it could not be shown, nothing else
/// paces the loop.
pub fn back_off(presented: bool) -> (r: u64)
    ensures
        r == (if presented {
            0
        } else {
            BACK_OFF_MS
        }),
{
    if presented {
        0
    } else {
        BACK_OFF_MS
    }
}

/// `after` and `r` are the state and the answer after an action.
pub open spec fn key_answer(
    before: App,
    action: KeyAction,
    window_open: bool,
    sources: Seq<SourceInfo>,
    after: App,
    r: Response,
) -> bool {
    match action {
        KeyAction::Exit => r is Exit && after == before,
        KeyAction::CycleSource => if sources.len() == 0 {
            &&& after == before
            &&& r matches Response::NoSources { message }
            &&& message@ == "No audio sources discovered yet."@
        } else {
            let next = (before.sel + 1) % sources.len() as int;
            &&& after == (App { sel: next as usize, ..before })
            &&& r matches Response::Capture { message, command }
            &&& message@ == capture_message(sources[next])
            &&& command == (Command::Connect {
                target: Some(sources[next].id),
                capture_sink: sources[next].is_sink,
            })
        },
        KeyAction::CycleOverlayMode => {
            &&& after == (App { overlay_mode: before.overlay_mode.successor(), ..before })
            &&& r matches Response::OverlayChanged { message }
            &&& message@ == "→ now-playing overlay: "@ + before.overlay_mode.successor().name()
        },
        KeyAction::ToggleFullscreen => if window_open {
            &&& after == (App { fullscreen: !before.fullscreen, ..before })
            &&& r == Response::Fullscreen(!before.fullscreen)
        } else {
            r is Nothing && after == before
        },
        KeyAction::SetAccent(idx) => {
            &&& after == (App { accent: (idx % ACCENT_COUNT) as usize, ..before })
            &&& r matches Response::AccentChanged { message }
            &&& message@ == "→ accent: "@ + accent_label(idx as int % ACCENT_COUNT as int)
        },
        KeyAction::Ignore => r is Nothing && after == before,
    }
}

/// Three presses of Space lead back to the same overlay mode, and pass through
/// all three.
pub proof fn overlay_modes_come_round(mode: OverlayMode, other: OverlayMode)
    ensures
        mode.successor().successor().successor() == mode,
        other == mode || other == mode.successor() || other == mode.successor().successor(),
{
}

/// The name of every accent colour is a valid argument, and stands for that
/// colour.
pub proof fn accent_names_are_valid(i: int)
    requires
        0 <= i < ACCENT_COUNT,
    ensures
        accent_of_name(accent_label(i)) == Some(i),
{
    assert forall|j: int| 0 <= j < i implies #[trigger] accent_label(j) != accent_label(i) by {
        if accent_label(j) == accent_label(i) {
            accent_names_differ(j, i);
        }
    }
    reveal_with_fuel(accent_from, 7);
}

/// The keys from 1 on pick the accent colours directly.
pub proof fn digit_keys_pick_accents(key: Key, digit: int, accent: int)
    requires
        1 <= digit <= ACCENT_COUNT,
        key matches Key::Character(c) && c@ == seq![text::digit_char(digit as nat)],
    ensures
        action_of(key, accent) == KeyAction::SetAccent((digit - 1) as usize),
{
}

/// C leads from each accent colour to the next one, and from the last to the
/// first.
pub proof fn accents_come_round(
    before: App,
    key: Key,
    window_open: bool,
    sources: Seq<SourceInfo>,
    after: App,
    r: Response,
)
    requires
        before.wf(),
        key matches Key::Character(c) && is_letter(c@, 'c', 'C'),
        key_answer(before, action_of(key, before.accent as int), window_open, sources, after, r),
    ensures
        after.accent == (if before.accent + 1 < ACCENT_COUNT {
            before.accent + 1
        } else {
            0
        }),
{
}

/// Toggling fullscreen twice leaves everything as it was.
pub proof fn fullscreen_toggles_back(
    before: App,
    between: App,
    after: App,
    window_open: bool,
    sources: Seq<SourceInfo>,
    first: Response,
    second: Response,
)
    requires
        key_answer(before, KeyAction::ToggleFullscreen, window_open, sources, between, first),
        key_answer(between, KeyAction::ToggleFullscreen, window_open, sources, after, second),
    ensures
        after == before,
{
}

/// `states` are the states that presses of Tab lead through, and `answers` the
/// answers to them.
pub open spec fn tab_run(
    states: Seq<App>,
    answers: Seq<Response>,
    window_open: bool,
    sources: Seq<SourceInfo>,
) -> bool {
    &&& states.len() == answers.len() + 1
    &&& forall|k: int|
        0 <= k < answers.len() ==> key_answer(
            states[k],
            KeyAction::CycleSource,
            window_open,
            sources,
            states[k + 1],
            #[trigger] answers[k],
        )
}

proof fn lemma_tab_run(
    states: Seq<App>,
    answers: Seq<Response>,
    window_open: bool,
    sources: Seq<SourceInfo>,
    k: int,
)
    requires
        tab_run(states, answers, window_open, sources),
        0 < sources.len() <= usize::MAX,
        0 < k <= answers.len(),
    ensures
        states[k] == (App {
            sel: ((states[0].sel + k) % sources.len() as int) as usize,
            ..states[0]
        }),
    decreases k,
{
    let count = sources.len() as int;
    assert(key_answer(
        states[k - 1],
        KeyAction::CycleSource,
        window_open,
        sources,
        states[k],
        answers[k - 1],
    ));
    if k > 1 {
        lemma_tab_run(states, answers, window_open, sources, k - 1);
        vstd::arithmetic::div_mod::lemma_add_mod_noop_right(1, states[0].sel + k - 1, count);
    }
}

/// As many presses of Tab as there are sources select each source exactly once,
/// and lead back to the state before them, as long as that state had one of the
/// sources selected.
pub proof fn tab_visits_each_source_once(
    states: Seq<App>,
    answers: Seq<Response>,
    window_open: bool,
    sources: Seq<SourceInfo>,
    source: int,
)
    requires
        tab_run(states, answers, window_open, sources),
        answers.len() == sources.len(),
        0 <= source < sources.len() <= usize::MAX,
    ensures
        exists|k: int| 1 <= k <= sources.len() && (#[trigger] states[k]).sel == source,
        forall|j: int, k: int|
            1 <= j < k <= sources.len() ==> (#[trigger] states[j]).sel != (#[trigger] states[k]).sel,
        states[0].sel < sources.len() ==> states.last() == states[0],
{
    let count = sources.len() as int;
    let sel = states[0].sel as int;
    let start = sel % count;
    let presses = if start < source {
        source - start
    } else {
        source + count - start
    };
    lemma_tab_run(states, answers, window_open, sources, presses);
    vstd::arithmetic::div_mod::lemma_add_mod_noop_right(presses, sel, count);
    if start >= source {
        vstd::arithmetic::div_mod::lemma_mod_add_multiples_vanish(source, count);
    }
    vstd::arithmetic::div_mod::lemma_small_mod(source as nat, count as nat);
    assert(states[presses].sel == source);
    assert forall|j: int, k: int| 1 <= j < k <= count implies (#[trigger] states[j]).sel != (
    #[trigger] states[k]).sel by {
        lemma_tab_run(states, answers, window_open, sources, j);
        lemma_tab_run(states, answers, window_open, sources, k);
        vstd::arithmetic::div_mod::lemma_fundamental_div_mod(sel + j, count);
        vstd::arithmetic::div_mod::lemma_fundamental_div_mod(sel + k, count);
        let p = (sel + j) / count;
        let q = (sel + k) / count;
        if (sel + j) % count == (sel + k) % count {
            assert(count * q - count * p == k - j);
            assert(false) by (nonlinear_arith)
                requires
                    count * q - count * p == k - j,
                    0 < k - j < count,
            ;
        }
    }
    if sel < count {
        lemma_tab_run(states, answers, window_open, sources, count);
        vstd::arithmetic::div_mod::lemma_mod_add_multiples_vanish(sel, count);
        vstd::arithmetic::div_mod::lemma_small_mod(sel as nat, count as nat);
    }
}

/// How far the overlay has come on its way in and out.
pub open spec fn phase_order(phase: FadePhase) -> int {
    match phase {
        FadePhase::FadingIn => 0,
        FadePhase::Up => 1,
        FadePhase::FadingOut => 2,
        FadePhase::Hidden => 3,
    }
}

/// The overlay goes in, stays, goes out and is hidden, and never back.
pub proof fn fading_goes_one_way(t: Single, u: Single)
    requires
        t.at_most(u),
    ensures
        phase_order(phase_at(t)) <= phase_order(phase_at(u)),
{
}

/// The modes and their names, in the order in which Space goes through them.
pub proof fn modes_have_their_order_and_names(
    mode: OverlayMode,
    next: OverlayMode,
    label: &'static str,
)
    requires
        call_ensures(OverlayMode::next, (mode,), next),
        call_ensures(OverlayMode::label, (mode,), label),
    ensures
        mode is Occasional ==> next is Permanent && label@ == "occasional"@,
        mode is Permanent ==> next is Never && label@ == "permanent"@,
        mode is Never ==> next is Occasional && label@ == "never"@,
{
}

/// The overlay fades in until 0.5 s, is up until 5.5 s, fades out until 6.7 s and is
/// hidden from then on.
pub proof fn the_overlay_keeps_its_times(t: Single, r: FadePhase)
    requires
        call_ensures(fade_phase, (t,), r),
    ensures
        t.bits < 0x3f00_0000 ==> r is FadingIn,
        0x3f00_0000 <= t.bits < 0x40b0_0000 ==> r is Up,
        0x40b0_0000 <= t.bits < 0x40d6_6666 ==> r is FadingOut,
        0x40d6_6666 <= t.bits < 0x8000_0000 ==> r is Hidden,
        0x8000_0000 <= t.bits <= 0xff80_0000 ==> r is FadingIn,
        0xff80_0000 < t.bits ==> r is Hidden,
{
}

/// The accent colours: their names, and their red, green and blue in hundredths.
pub proof fn accents_have_their_names_and_colours(
    i: usize,
    name: &'static str,
    rgb: (u8, u8, u8),
)
    requires
        i < 6,
        call_ensures(accent_name, (i,), name),
        call_ensures(accent_rgb, (i,), rgb),
    ensures
        i == 0 ==> name@ == "neon-red"@ && rgb == (100u8, 10u8, 22u8),
        i == 1 ==> name@ == "amber"@ && rgb == (100u8, 45u8, 5u8),
        i == 2 ==> name@ == "green"@ && rgb == (25u8, 100u8, 30u8),
        i == 3 ==> name@ == "cyan"@ && rgb == (0u8, 85u8, 100u8),
        i == 4 ==> name@ == "violet"@ && rgb == (55u8, 20u8, 100u8),
        i == 5 ==> name@ == "white"@ && rgb == (100u8, 100u8, 100u8),
{
}

proof fn lemma_accent_from(name: Seq<char>, i: int)
    requires
        0 <= i <= 6,
    ensures
        accent_from(name, i) matches Some(a) ==> i <= a < 6 && accent_label(a) == name,
        accent_from(name, i) is None ==> forall|a: int|
            i <= a < 6 ==> #[trigger] accent_label(a) != name,
    decreases 6 - i,
{
    if i < 6 {
        lemma_accent_from(name, i + 1);
    }
}

/// A name is found exactly if it is that of an accent colour, and stands for it.
pub proof fn a_name_stands_for_its_accent(
    text: &str,
    r: Option<usize>,
    i: usize,
    name: &'static str,
)
    requires
        call_ensures(find_accent, (text,), r),
        i < 6,
        call_ensures(accent_name, (i,), name),
    ensures
        text@ == name@ ==> r == Some(i),
        text@ != name@ ==> r != Some(i),
        r matches Some(a) ==> a < 6,
{
    lemma_accent_from(text@, 0);
    if text@ == name@ {
        accent_names_are_valid(i as int);
    }
}

/// The accent colour that is named behind the first `--accent` is started with,
/// wherever among the arguments that stands.
pub proof fn the_named_accent_is_started_with(
    args: &Vec<String>,
    r: Options,
    p: int,
    i: usize,
    name: &'static str,
)
    requires
        call_ensures(parse_options, (args,), r),
        0 <= p,
        p + 1 < args@.len(),
        forall|j: int| 0 <= j < p ==> #[trigger] args@[j]@ != "--accent"@,
        args@[p]@ == "--accent"@,
        i < 6,
        call_ensures(accent_name, (i,), name),
        args@[p + 1]@ == name@,
    ensures
        r.accent == i,
{
    lemma_argument_position(args@, "--accent"@, p);
    accent_names_are_valid(i as int);
}

/// Without `--accent`, with nothing behind it, or with what is no name of an accent
/// colour behind it, the first accent colour is started with.
pub proof fn the_first_accent_is_the_default(args: &Vec<String>, r: Options, p: int)
    requires
        call_ensures(parse_options, (args,), r),
        0 <= p <= args@.len(),
        forall|j: int| 0 <= j < p ==> #[trigger] args@[j]@ != "--accent"@,
        p < args@.len() ==> args@[p]@ == "--accent"@,
        p + 1 < args@.len() ==> args@[p + 1]@ != "neon-red"@ && args@[p + 1]@ != "amber"@ && args@[p
            + 1]@ != "green"@ && args@[p + 1]@ != "cyan"@ && args@[p + 1]@ != "violet"@ && args@[p
            + 1]@ != "white"@,
    ensures
        r.accent == 0,
{
    lemma_argument_position(args@, "--accent"@, p);
    if p + 1 < args@.len() {
        lemma_accent_from(args@[p + 1]@, 0);
    }
}

/// A flag counts wherever it stands among the arguments.
pub proof fn flags_count_anywhere(args: &Vec<String>, r: Options)
    requires
        call_ensures(parse_options, (args,), r),
    ensures
        forall|i: int|
            0 <= i < args@.len() && #[trigger] args@[i]@ == "--list-sources"@ ==> r.list_sources,
        (forall|i: int| 0 <= i < args@.len() ==> #[trigger] args@[i]@ != "--list-sources"@)
            ==> !r.list_sources,
        forall|i: int|
            0 <= i < args@.len() && #[trigger] args@[i]@ == "--mic"@ ==> !r.capture_system_output,
        (forall|i: int| 0 <= i < args@.len() ==> #[trigger] args@[i]@ != "--mic"@)
            ==> r.capture_system_output,
{
}

/// The line of a source is made of its id, its kind and its name, in columns.
pub proof fn listings_have_columns(
    src: &SourceInfo,
    id: &str,
    digits: String,
    id_column: String,
    kind: &'static str,
    kind_column: String,
    r: String,
)
    requires
        call_ensures(text::decimal_text, (src.id as u64,), digits),
        id@ == digits@,
        call_ensures(text::pad_right, (id, 5usize), id_column),
        call_ensures(kind_text, (src.is_sink,), kind),
        call_ensures(text::pad_right, (kind, 14usize), kind_column),
        call_ensures(source_line, (src,), r),
    ensures
        r@ == "  id="@ + id_column@ + " "@ + kind_column@ + " "@ + src.name@,
        src.is_sink ==> kind@ == "output/monitor"@,
        !src.is_sink ==> kind@ == "input"@,
{
}

/// The message at the start says what is captured and names the accent colour.
pub proof fn the_start_message_names_the_accent(
    options: &Options,
    name: &'static str,
    r: String,
)
    requires
        options.accent < 6,
        call_ensures(accent_name, (options.accent,), name),
        call_ensures(start_text, (options,), r),
    ensures
        options.capture_system_output ==> r@
            == "Capturing "@ + "system output (default sink monitor)"@ + ".  Accent: "@ + name@,
        !options.capture_system_output ==> r@
            == "Capturing "@ + "default microphone/input"@ + ".  Accent: "@ + name@,
{
}

/// The application starts in a window, with the first source, no song and the
/// occasional overlay.
pub proof fn the_application_starts_quietly(rate: u32, accent: usize, r: App)
    requires
        call_ensures(App::new, (rate, accent), r),
    ensures
        r.last_rate == rate,
        r.accent == accent,
        !r.fullscreen,
        r.sel == 0,
        r.track is None,
        r.overlay_mode is Occasional,
{
}

/// Esc quits, and so does closing the window; nothing changes.
pub proof fn esc_and_close_quit(
    app: &mut App,
    event: &WindowEvent,
    window_open: bool,
    sources: &Vec<SourceInfo>,
    r: Response,
)
    requires
        call_ensures(App::window_event, (app, event, window_open, sources), r),
        event is CloseRequested || ((*event) matches WindowEvent::Keyboard { key, pressed, repeat }
            && key is Escape && pressed && !repeat),
    ensures
        r is Exit,
        *final(app) == *old(app),
{
}

/// Keys count when they are pressed, not when they repeat and not when they are let
/// go.
pub proof fn keys_count_once(
    app: &mut App,
    event: &WindowEvent,
    window_open: bool,
    sources: &Vec<SourceInfo>,
    r: Response,
)
    requires
        call_ensures(App::window_event, (app, event, window_open, sources), r),
        (*event) matches WindowEvent::Keyboard { key, pressed, repeat } && (!pressed || repeat),
    ensures
        r is Nothing,
        *final(app) == *old(app),
{
}

/// The size of the window and the call for a frame are passed on; other events are
/// not answered. Nothing changes.
pub proof fn other_events_are_passed_on(
    app: &mut App,
    event: &WindowEvent,
    window_open: bool,
    sources: &Vec<SourceInfo>,
    r: Response,
)
    requires
        call_ensures(App::window_event, (app, event, window_open, sources), r),
        !(event is Keyboard),
    ensures
        *final(app) == *old(app),
        (*event) matches WindowEvent::Resized { width, height } ==> r == (Response::Resize {
            width,
            height,
        }),
        event is RedrawRequested ==> r is Redraw,
        event is Other ==> r is Nothing,
{
}

/// Tab goes to the source behind the selected one, round to the first, and captures
/// it by its id and kind; without sources it changes nothing.
pub proof fn tab_captures_the_next_source(
    app: &mut App,
    event: &WindowEvent,
    window_open: bool,
    sources: &Vec<SourceInfo>,
    r: Response,
)
    requires
        old(app).wf(),
        call_ensures(App::window_event, (app, event, window_open, sources), r),
        (*event) matches WindowEvent::Keyboard { key, pressed, repeat } && key is Tab && pressed
            && !repeat,
    ensures
        sources@.len() == 0 ==> {
            &&& *final(app) == *old(app)
            &&& r matches Response::NoSources { message }
            &&& message@ == "No audio sources discovered yet."@
        },
        sources@.len() > 0 ==> {
            &&& final(app).sel < sources@.len()
            &&& old(app).sel + 1 < sources@.len() ==> final(app).sel == old(app).sel + 1
            &&& old(app).sel + 1 == sources@.len() ==> final(app).sel == 0
            &&& final(app).sel == (old(app).sel + 1) % sources@.len() as int
            &&& r matches Response::Capture { message, command }
            &&& command matches Command::Connect { target, capture_sink }
            &&& target == Some(sources@[final(app).sel as int].id)
            &&& capture_sink == sources@[final(app).sel as int].is_sink
        },
        final(app).fullscreen == old(app).fullscreen,
        final(app).accent == old(app).accent,
        final(app).track == old(app).track,
        final(app).overlay_mode == old(app).overlay_mode,
        final(app).last_rate == old(app).last_rate,
{
    if sources@.len() > 0 {
        let n = sources@.len() as int;
        let s = old(app).sel + 1;
        vstd::arithmetic::div_mod::lemma_mod_bound(s, n);
        if s < n {
            vstd::arithmetic::div_mod::lemma_small_mod(s as nat, n as nat);
        }
        if s == n {
            vstd::arithmetic::div_mod::lemma_mod_self_0(n);
        }
    }
}

/// The message of a captured source names its id, its name and its kind.
pub proof fn the_captured_source_is_named(
    app: &mut App,
    sources: &Vec<SourceInfo>,
    digits: String,
    kind: &'static str,
    r: Response,
    i: int,
)
    requires
        call_ensures(App::cycle_source, (app, sources), r),
        sources@.len() > 0,
        i == (old(app).sel + 1) % sources@.len() as int,
        call_ensures(text::decimal_text, (sources@[i].id as u64,), digits),
        call_ensures(kind_text, (sources@[i].is_sink,), kind),
    ensures
        r matches Response::Capture { message, command } && message@ == "→ capturing ["@ + digits@
            + "] "@ + sources@[i].name@ + " ("@ + kind@ + ")"@,
{
}

/// Space goes to the next mode of the overlay and says so.
pub proof fn space_changes_the_overlay(
    app: &mut App,
    event: &WindowEvent,
    window_open: bool,
    sources: &Vec<SourceInfo>,
    next: OverlayMode,
    label: &'static str,
    r: Response,
)
    requires
        call_ensures(App::window_event, (app, event, window_open, sources), r),
        (*event) matches WindowEvent::Keyboard { key, pressed, repeat } && key is Space && pressed
            && !repeat,
        call_ensures(OverlayMode::next, (old(app).overlay_mode,), next),
        call_ensures(OverlayMode::label, (next,), label),
    ensures
        final(app).overlay_mode == next,
        r matches Response::OverlayChanged { message } && message@ == "→ now-playing overlay: "@
            + label@,
        final(app).fullscreen == old(app).fullscreen,
        final(app).accent == old(app).accent,
        final(app).track == old(app).track,
        final(app).sel == old(app).sel,
        final(app).last_rate == old(app).last_rate,
{
}

/// F11 and F, small or capital, toggle fullscreen if there is a window.
pub proof fn f_toggles_fullscreen(
    app: &mut App,
    event: &WindowEvent,
    window_open: bool,
    sources: &Vec<SourceInfo>,
    r: Response,
)
    requires
        call_ensures(App::window_event, (app, event, window_open, sources), r),
        (*event) matches WindowEvent::Keyboard { key, pressed, repeat } && pressed && !repeat && (
        key is F11 || (key matches Key::Character(c) && (c@ == seq!['f'] || c@ == seq!['F']))),
    ensures
        window_open ==> final(app).fullscreen == !old(app).fullscreen && r == Response::Fullscreen(
            !old(app).fullscreen,
        ),
        !window_open ==> r is Nothing && final(app).fullscreen == old(app).fullscreen,
        final(app).overlay_mode == old(app).overlay_mode,
        final(app).accent == old(app).accent,
        final(app).track == old(app).track,
        final(app).sel == old(app).sel,
        final(app).last_rate == old(app).last_rate,
{
}

/// C, small or capital, goes to the next accent colour, round to the first; the
/// digits from 1 to 6 pick one. The message names it.
pub proof fn c_and_digits_change_the_accent(
    app: &mut App,
    event: &WindowEvent,
    text: Seq<char>,
    window_open: bool,
    sources: &Vec<SourceInfo>,
    r: Response,
    accent: usize,
    name: &'static str,
)
    requires
        old(app).wf(),
        call_ensures(App::window_event, (app, event, window_open, sources), r),
        (*event) matches WindowEvent::Keyboard { key, pressed, repeat } && pressed && !repeat && (
        key matches Key::Character(c) && c@ == text),
        text == seq!['c'] || text == seq!['C'] || (text.len() > 0 && 49 <= text[0] as u32 <= 54),
        accent < 6,
        call_ensures(accent_name, (accent,), name),
    ensures
        text.len() > 0 && 49 <= text[0] as u32 <= 54 ==> final(app).accent == text[0] as u32 - 49,
        text[0] == 'c' || text[0] == 'C' ==> {
            &&& old(app).accent < 5 ==> final(app).accent == old(app).accent + 1
            &&& old(app).accent == 5 ==> final(app).accent == 0
        },
        accent == final(app).accent ==> (r matches Response::AccentChanged { message } && message@
            == "→ accent: "@ + name@),
        final(app).fullscreen == old(app).fullscreen,
        final(app).overlay_mode == old(app).overlay_mode,
        final(app).track == old(app).track,
        final(app).sel == old(app).sel,
        final(app).last_rate == old(app).last_rate,
{
}

/// Every other key is not answered and changes nothing.
pub proof fn other_keys_do_nothing(
    app: &mut App,
    event: &WindowEvent,
    window_open: bool,
    sources: &Vec<SourceInfo>,
    r: Response,
)
    requires
        call_ensures(App::window_event, (app, event, window_open, sources), r),
        (*event) matches WindowEvent::Keyboard { key, pressed, repeat } && (key is Other || (
        key matches Key::Character(c) && c@ != seq!['f'] && c@ != seq!['F'] && c@ != seq!['c']
            && c@ != seq!['C'] && (c@.len() == 0 || (c@[0] as u32) < 49 || c@[0] as u32 > 54))),
    ensures
        r is Nothing,
        *final(app) == *old(app),
{
    match *event {
        WindowEvent::Keyboard { key: Key::Character(c), .. } => {
            if c@.len() == 1 {
                assert(c@ =~= seq![c@[0]]);
            }
        },
        _ => {},
    }
}

/// What a key asks for is what its press brings about.
pub proof fn keys_do_what_they_ask_for(app: &App, key: &Key, r: KeyAction)
    requires
        app.wf(),
        call_ensures(App::key_action, (app, key), r),
    ensures
        key is Escape ==> r is Exit,
        key is Tab ==> r is CycleSource,
        key is Space ==> r is CycleOverlayMode,
        key is F11 ==> r is ToggleFullscreen,
        key is Other ==> r is Ignore,
        key matches Key::Character(c) ==> {
            &&& c@ == seq!['f'] || c@ == seq!['F'] ==> r is ToggleFullscreen
            &&& c@ == seq!['c'] || c@ == seq!['C'] ==> r == KeyAction::SetAccent(
                (app.accent + 1) as usize,
            )
            &&& c@.len() > 0 && 49 <= c@[0] as u32 <= 54 ==> r == KeyAction::SetAccent(
                (c@[0] as u32 - 49) as usize,
            )
        },
{
}

/// An accent colour is picked by its index, counted round, and the message names it.
pub proof fn accents_are_counted_round(
    app: &mut App,
    idx: usize,
    r: String,
    i: usize,
    name: &'static str,
)
    requires
        call_ensures(App::set_accent, (app, idx), r),
        i == idx as int % 6,
        call_ensures(accent_name, (i,), name),
    ensures
        final(app).accent == i,
        r@ == "→ accent: "@ + name@,
        final(app).fullscreen == old(app).fullscreen,
        final(app).overlay_mode == old(app).overlay_mode,
        final(app).track == old(app).track,
        final(app).sel == old(app).sel,
        final(app).last_rate == old(app).last_rate,
{
}

/// The analysis is made anew exactly if the rate changed, and the rate is kept.
pub proof fn a_new_rate_asks_for_a_new_analysis(app: &mut App, rate: u32, r: bool)
    requires
        call_ensures(App::update_rate, (app, rate), r),
    ensures
        rate != old(app).last_rate ==> r,
        rate == old(app).last_rate ==> !r,
        final(app).last_rate == rate,
        final(app).accent == old(app).accent,
        final(app).fullscreen == old(app).fullscreen,
        final(app).overlay_mode == old(app).overlay_mode,
        final(app).track == old(app).track,
        final(app).sel == old(app).sel,
{
}

/// The song is kept as it is reported. The overlay is called up for another song in
/// every mode, for the same one only in the occasional mode and after 30 s, and never
/// without a song.
pub proof fn another_song_calls_the_overlay_up(
    app: &mut App,
    playing: Option<String>,
    shown_for: Single,
    r: bool,
)
    requires
        call_ensures(App::update_track, (app, playing, shown_for), r),
    ensures
        playing is None ==> !r && final(app).track is None,
        playing is Some ==> final(app).track is Some && final(app).track->0@ == playing->0@,
        playing is Some && (old(app).track is None || old(app).track->0@ != playing->0@) ==> r,
        playing is Some && old(app).track is Some && old(app).track->0@ == playing->0@ ==> r == (
        old(app).overlay_mode is Occasional && 0x41f0_0000 <= shown_for.bits <= 0x7f80_0000),
        final(app).accent == old(app).accent,
        final(app).fullscreen == old(app).fullscreen,
        final(app).overlay_mode == old(app).overlay_mode,
        final(app).last_rate == old(app).last_rate,
        final(app).sel == old(app).sel,
{
}

/// Without a song there is no overlay; with one, the permanent overlay is always
/// up, the third mode never shows it, and the occasional one goes by the clock.
pub proof fn modes_decide_on_the_overlay(
    app: &App,
    shown_for: Single,
    phase: FadePhase,
    r: Visibility,
)
    requires
        call_ensures(App::overlay_visibility, (app, shown_for), r),
        call_ensures(fade_phase, (shown_for,), phase),
    ensures
        app.track is None ==> r is Hidden,
        app.track is Some && app.overlay_mode is Never ==> r is Hidden,
        app.track is Some && app.overlay_mode is Permanent ==> r is Full,
        app.track is Some && app.overlay_mode is Occasional ==> r == Visibility::Fading(phase),
{
}

/// After a frame that was not shown there is a wait of eight milliseconds, and none
/// after one that was.
pub proof fn only_hidden_frames_wait(presented: bool, r: u64)
    requires
        call_ensures(back_off, (presented,), r),
    ensures
        presented ==> r == 0,
        !presented ==> r == 8,
{
}

/// Every event is answered in every state with an accent colour and a source that
/// has a next index, whatever the window and the sources are.
pub proof fn every_event_is_answered(
    app: &mut App,
    shown: &App,
    event: &WindowEvent,
    key: &Key,
    window_open: bool,
    sources: &Vec<SourceInfo>,
)
    requires
        old(app).accent < 6,
        old(app).sel < usize::MAX,
        *shown == *old(app),
    ensures
        call_requires(App::window_event, (app, event, window_open, sources)),
        call_requires(App::key_pressed, (app, key, window_open, sources)),
        call_requires(App::cycle_source, (app, sources)),
        call_requires(App::key_action, (shown, key)),
{
}

/// Each of the six accent colours has a name and a colour, can be started with, and
/// can be told of.
pub proof fn every_accent_can_be_used(i: usize, rate: u32, options: &Options)
    requires
        i < 6,
        options.accent == i,
    ensures
        call_requires(accent_name, (i,)),
        call_requires(accent_rgb, (i,)),
        call_requires(App::new, (rate, i)),
        call_requires(start_text, (options,)),
{
}

} // verus!
