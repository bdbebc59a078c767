//! Persistent settings: a flat `key=value` text.
//!
//! Reading is lenient: a line that is not an assignment, an unknown key and a
//! value that cannot be read are passed over, and what is not set keeps its
//! default.
//!
//! The orbit of the globe is three single-precision numbers. Their text is read
//! and written outside the library: [`orbit_texts`] hands out the texts of a
//! file, and [`Settings::load_from`] takes what was read from them.

use crate::single;
use crate::single::Single;
use crate::text;
use vstd::prelude::*;

verus! {

/// What is kept from one run to the next.
#[derive(Clone, Copy, Debug, PartialEq, Eq, Structural)]
pub struct Settings {
    /// Index of the accent colour.
    pub accent: usize,
    /// Whether the scene is the globe.
    pub globe: bool,
    /// The mode of the now-playing overlay.
    pub overlay_mode: u8,
    pub globe_yaw: Single,
    pub globe_pitch: Single,
    pub globe_zoom: Single,
}

/// One of the three numbers of the globe's orbit.
#[derive(Clone, Copy, Debug, PartialEq, Eq, Structural)]
pub enum OrbitField {
    Yaw,
    Pitch,
    Zoom,
}

/// An assignment of a settings text.
pub enum Entry {
    Accent(usize),
    Globe(bool),
    OverlayMode(u8),
    Orbit(OrbitField, String),
}

/// An assignment of a settings text, with its text as characters.
pub enum EntryView {
    Accent(usize),
    Globe(bool),
    OverlayMode(u8),
    Orbit(OrbitField, Seq<char>),
}

impl View for Entry {
    type V = EntryView;

    open spec fn view(&self) -> EntryView {
        match self {
            Entry::Accent(v) => EntryView::Accent(*v),
            Entry::Globe(v) => EntryView::Globe(*v),
            Entry::OverlayMode(v) => EntryView::OverlayMode(*v),
            Entry::Orbit(f, t) => EntryView::Orbit(*f, t@),
        }
    }
}

/// The first position of `c` in `s`, or the length of `s` if it has none.
pub open spec fn position(s: Seq<char>, c: char) -> int
    decreases s.len(),
{
    if s.len() == 0 || s[0] == c {
        0
    } else {
        1 + position(s.drop_first(), c)
    }
}

/// What the assignment of `value` to `key` means, if it means anything.
pub open spec fn assigned(key: Seq<char>, value: Seq<char>) -> Option<EntryView> {
    if key == "accent"@ {
        match text::parsed_number(value, usize::MAX as int) {
            Some(v) => Some(EntryView::Accent(v as usize)),
            None => None,
        }
    } else if key == "globe"@ {
        Some(EntryView::Globe(value == "true"@))
    } else if key == "overlay_mode"@ {
        match text::parsed_number(value, u8::MAX as int) {
            Some(v) => Some(EntryView::OverlayMode(v as u8)),
            None => None,
        }
    } else if key == "globe_yaw"@ {
        Some(EntryView::Orbit(OrbitField::Yaw, value))
    } else if key == "globe_pitch"@ {
        Some(EntryView::Orbit(OrbitField::Pitch, value))
    } else if key == "globe_zoom"@ {
        Some(EntryView::Orbit(OrbitField::Zoom, value))
    } else {
        None
    }
}

/// What a line means: an assignment at its first equals sign, with the white
/// space around key and value left out.
pub open spec fn line_entry(line: Seq<char>) -> Option<EntryView> {
    let e = position(line, '=');
    if e < line.len() {
        assigned(text::trimmed(line.take(e)), text::trimmed(line.skip(e + 1)))
    } else {
        None
    }
}

/// The meaning of a line, as a list of at most one.
pub open spec fn line_entries(line: Seq<char>) -> Seq<EntryView> {
    match line_entry(line) {
        Some(e) => seq![e],
        None => seq![],
    }
}

/// The assignments of a text, line by line.
pub open spec fn entries(s: Seq<char>) -> Seq<EntryView>
    decreases s.len(),
{
    let i = position(s, '\n');
    if 0 <= i < s.len() {
        line_entries(s.take(i)) + entries(s.skip(i + 1))
    } else {
        line_entries(s)
    }
}

/// The texts of the numbers among the assignments, in order.
pub open spec fn number_texts(es: Seq<EntryView>) -> Seq<Seq<char>>
    decreases es.len(),
{
    if es.len() == 0 {
        seq![]
    } else {
        match es[0] {
            EntryView::Orbit(_, t) => seq![t] + number_texts(es.drop_first()),
            _ => number_texts(es.drop_first()),
        }
    }
}

/// What the settings are before anything is read.
pub open spec fn defaults() -> Settings {
    Settings {
        accent: 0,
        globe: false,
        overlay_mode: 0,
        globe_yaw: Single { bits: single::ZERO },
        globe_pitch: Single { bits: single::ZERO },
        globe_zoom: Single { bits: single::ONE },
    }
}

/// Settings with one number of the orbit replaced.
pub open spec fn with_orbit(s: Settings, field: OrbitField, x: Single) -> Settings {
    match field {
        OrbitField::Yaw => Settings { globe_yaw: x, ..s },
        OrbitField::Pitch => Settings { globe_pitch: x, ..s },
        OrbitField::Zoom => Settings { globe_zoom: x, ..s },
    }
}

/// Settings after assignments, made one after the other. `numbers` holds what
/// was read from the texts of the numbers, in order; where nothing could be
/// read the number stays.
pub open spec fn updated(
    s: Settings,
    es: Seq<EntryView>,
    numbers: Seq<Option<Single>>,
) -> Settings
    decreases es.len(),
{
    if es.len() == 0 {
        s
    } else {
        let rest = es.drop_first();
        match es[0] {
            EntryView::Accent(v) => updated(Settings { accent: v, ..s }, rest, numbers),
            EntryView::Globe(v) => updated(Settings { globe: v, ..s }, rest, numbers),
            EntryView::OverlayMode(v) => updated(Settings { overlay_mode: v, ..s }, rest, numbers),
            EntryView::Orbit(f, _) => updated(
                match numbers[0] {
                    Some(x) => with_orbit(s, f, x),
                    None => s,
                },
                rest,
                numbers.drop_first(),
            ),
        }
    }
}

/// One line of a settings text.
pub open spec fn assignment(key: Seq<char>, value: Seq<char>) -> Seq<char> {
    key + seq!['='] + value + seq!['\n']
}

/// How a truth value is written.
pub open spec fn truth_text(b: bool) -> Seq<char> {
    if b {
        "true"@
    } else {
        "false"@
    }
}

/// The settings text of `s`, with the numbers of the orbit written as `yaw`,
/// `pitch` and `zoom`.
pub open spec fn settings_text(
    s: Settings,
    yaw: Seq<char>,
    pitch: Seq<char>,
    zoom: Seq<char>,
) -> Seq<char> {
    assignment("accent"@, text::decimal(s.accent as nat)) + assignment("globe"@, truth_text(s.globe))
        + assignment("overlay_mode"@, text::decimal(s.overlay_mode as nat)) + assignment(
        "globe_yaw"@,
        yaw,
    ) + assignment("globe_pitch"@, pitch) + assignment("globe_zoom"@, zoom)
}

proof fn lemma_position(s: Seq<char>, c: char, i: int)
    requires
        0 <= i <= s.len(),
        forall|j: int| 0 <= j < i ==> #[trigger] s[j] != c,
        i < s.len() ==> s[i] == c,
    ensures
        position(s, c) == i,
    decreases s.len(),
{
    if s.len() > 0 && s[0] != c {
        let t = s.drop_first();
        assert forall|j: int| 0 <= j < i - 1 implies #[trigger] t[j] != c by {
            assert(t[j] == s[j + 1]);
        }
        lemma_position(t, c, i - 1);
    }
}

/// The first position of `c` from `from` on, or the length if it has none.
fn find_from(chars: &Vec<char>, from: usize, c: char) -> (r: usize)
    requires
        from <= chars@.len(),
    ensures
        from <= r <= chars@.len(),
        r - from == position(chars@.skip(from as int), c),
{
    let mut i: usize = from;
    let ghost rest = chars@.skip(from as int);
    while i < chars.len() && chars[i] != c
        invariant
            from <= i <= chars@.len(),
            rest == chars@.skip(from as int),
            forall|j: int| 0 <= j < i - from ==> #[trigger] rest[j] != c,
        decreases chars@.len() - i,
    {
        i = i + 1;
    }
    proof {
        lemma_position(rest, c, i - from);
    }
    i
}

/// What the assignment of `value` to `key` means.
fn assigned_entry(key: &str, value: &str) -> (r: Option<Entry>)
    ensures
        match assigned(key@, value@) {
            Some(e) => r matches Some(x) && x@ == e,
            None => r is None,
        },
{
    if text::same_text(key, "accent") {
        match text::parse_number(value, usize::MAX as u64) {
            Some(v) => Some(Entry::Accent(v as usize)),
            None => None,
        }
    } else if text::same_text(key, "globe") {
        Some(Entry::Globe(text::same_text(value, "true")))
    } else if text::same_text(key, "overlay_mode") {
        match text::parse_number(value, 255) {
            Some(v) => Some(Entry::OverlayMode(v as u8)),
            None => None,
        }
    } else if text::same_text(key, "globe_yaw") {
        Some(Entry::Orbit(OrbitField::Yaw, value.to_owned()))
    } else if text::same_text(key, "globe_pitch") {
        Some(Entry::Orbit(OrbitField::Pitch, value.to_owned()))
    } else if text::same_text(key, "globe_zoom") {
        Some(Entry::Orbit(OrbitField::Zoom, value.to_owned()))
    } else {
        None
    }
}

/// Reads one line.
pub fn read_line(line: &str) -> (r: Option<Entry>)
    ensures
        match line_entry(line@) {
            Some(e) => r matches Some(x) && x@ == e,
            None => r is None,
        },
{
    let chars: Vec<char> = text::to_chars(line);
    let e: usize = find_from(&chars, 0, '=');
    assert(chars@.skip(0) == line@);
    let len: usize = chars.len();
    if e < len {
        let key: String = text::trim(line.substring_char(0, e));
        let value: String = text::trim(line.substring_char(e + 1, len));
        assert(line@.subrange(0, e as int) == line@.take(e as int));
        assert(line@.subrange(e + 1, len as int) == line@.skip(e + 1));
        assigned_entry(key.as_str(), value.as_str())
    } else {
        None
    }
}

/// The assignments as characters.
pub open spec fn views(es: Seq<Entry>) -> Seq<EntryView> {
    es.map_values(|e: Entry| e@)
}

/// Reads the assignments of a settings text.
pub fn read_entries(contents: &str) -> (r: Vec<Entry>)
    ensures
        views(r@) == entries(contents@),
{
    let chars: Vec<char> = text::to_chars(contents);
    let len: usize = chars.len();
    let mut out: Vec<Entry> = Vec::new();
    let mut start: usize = 0;
    let mut done: bool = false;
    assert(chars@.skip(0) == contents@);
    assert(views(out@) + entries(contents@) == entries(contents@));
    while !done
        invariant
            chars@ == contents@,
            len == chars@.len(),
            start <= len,
            !done ==> views(out@) + entries(contents@.skip(start as int)) == entries(contents@),
            done ==> views(out@) == entries(contents@),
        decreases (if done { 0int } else { len - start + 1 }),
    {
        let ghost rest = contents@.skip(start as int);
        let end: usize = find_from(&chars, start, '\n');
        let line: &str = contents.substring_char(start, end);
        let ghost before = views(out@);
        assert(end - start < rest.len() ==> line@ == rest.take(end - start));
        assert(end == len ==> line@ == rest);
        match read_line(line) {
            Some(e) => {
                out.push(e);
                assert(views(out@) == before.push(e@));
            },
            None => {},
        }
        assert(views(out@) == before + line_entries(line@));
        if end < len {
            assert(rest.skip(end - start + 1) == contents@.skip(end + 1));
            assert(views(out@) + entries(contents@.skip(end + 1)) == before + entries(rest));
            start = end + 1;
        } else {
            assert(entries(rest) == line_entries(rest));
            done = true;
        }
    }
    out
}

/// The texts of the numbers of a settings text, in order.
pub fn orbit_texts(contents: &str) -> (r: Vec<String>)
    ensures
        r@.map_values(|t: String| t@) == number_texts(entries(contents@)),
{
    let es: Vec<Entry> = read_entries(contents);
    let mut out: Vec<String> = Vec::new();
    let mut i: usize = 0;
    let ghost all = entries(contents@);
    assert(all.skip(0) == all);
    assert(out@.map_values(|t: String| t@) == Seq::<Seq<char>>::empty());
    while i < es.len()
        invariant
            i <= es@.len(),
            views(es@) == all,
            out@.map_values(|t: String| t@) + number_texts(all.skip(i as int)) == number_texts(all),
        decreases es@.len() - i,
    {
        let ghost before = out@.map_values(|t: String| t@);
        assert(all[i as int] == es@[i as int]@);
        assert(all.skip(i as int).drop_first() == all.skip(i + 1));
        match &es[i] {
            Entry::Orbit(_, t) => {
                out.push(t.clone());
                assert(out@.map_values(|t: String| t@) == before.push(t@));
            },
            _ => {},
        }
        assert(out@.map_values(|t: String| t@) + number_texts(all.skip(i + 1)) == before
            + number_texts(all.skip(i as int)));
        i = i + 1;
    }
    out
}

impl Default for Settings {
    fn default() -> (r: Settings)
        ensures
            r == defaults(),
    {
        Settings {
            accent: 0,
            globe: false,
            overlay_mode: 0,
            globe_yaw: Single { bits: single::ZERO },
            globe_pitch: Single { bits: single::ZERO },
            globe_zoom: Single { bits: single::ONE },
        }
    }
}

impl Settings {
    /// The settings that a text holds, or the defaults if there is no text.
    ///
    /// `numbers` holds, for each of the [`orbit_texts`] in order, the number that
    /// was read from it, or nothing if it is not the text of a number.
    pub fn load_from(contents: Option<&str>, numbers: &Vec<Option<Single>>) -> (r: Settings)
        requires
            contents matches Some(t) ==> numbers@.len() == number_texts(entries(t@)).len(),
        ensures
            r == match contents {
                Some(t) => updated(defaults(), entries(t@), numbers@),
                None => defaults(),
            },
    {
        let mut s: Settings = Settings::default();
        match contents {
            None => s,
            Some(t) => {
                let es: Vec<Entry> = read_entries(t);
                let ghost all = entries(t@);
                let mut i: usize = 0;
                let mut k: usize = 0;
                let count: usize = numbers.len();
                assert(all.skip(0) == all);
                assert(numbers@.skip(0) == numbers@);
                while i < es.len()
                    invariant
                        i <= es@.len(),
                        k <= count == numbers@.len(),
                        views(es@) == all,
                        number_texts(all.skip(i as int)).len() == numbers@.len() - k,
                        updated(s, all.skip(i as int), numbers@.skip(k as int)) == updated(
                            defaults(),
                            all,
                            numbers@,
                        ),
                    decreases es@.len() - i,
                {
                    assert(all[i as int] == es@[i as int]@);
                    assert(all.skip(i as int).drop_first() == all.skip(i + 1));
                    match &es[i] {
                        Entry::Accent(v) => {
                            s.accent = *v;
                        },
                        Entry::Globe(v) => {
                            s.globe = *v;
                        },
                        Entry::OverlayMode(v) => {
                            s.overlay_mode = *v;
                        },
                        Entry::Orbit(f, _) => {
                            assert(numbers@.skip(k as int).drop_first() == numbers@.skip(k + 1));
                            match numbers[k] {
                                Some(x) => match *f {
                                    OrbitField::Yaw => {
                                        s.globe_yaw = x;
                                    },
                                    OrbitField::Pitch => {
                                        s.globe_pitch = x;
                                    },
                                    OrbitField::Zoom => {
                                        s.globe_zoom = x;
                                    },
                                },
                                None => {},
                            }
                            k = k + 1;
                        },
                    }
                    i = i + 1;
                }
                s
            },
        }
    }

    /// The text that keeps the settings, given the texts of the three numbers of
    /// the orbit.
    pub fn save_to(&self, yaw: &str, pitch: &str, zoom: &str) -> (r: String)
        ensures
            r@ == settings_text(*self, yaw@, pitch@, zoom@),
    {
        let mut body: String = String::new();
        append_assignment(&mut body, "accent", text::decimal_text(self.accent as u64).as_str());
        append_assignment(
            &mut body,
            "globe",
            if self.globe {
                "true"
            } else {
                "false"
            },
        );
        append_assignment(
            &mut body,
            "overlay_mode",
            text::decimal_text(self.overlay_mode as u64).as_str(),
        );
        append_assignment(&mut body, "globe_yaw", yaw);
        append_assignment(&mut body, "globe_pitch", pitch);
        append_assignment(&mut body, "globe_zoom", zoom);
        assert(body@ =~= settings_text(*self, yaw@, pitch@, zoom@));
        body
    }
}

/// Appends one line to a settings text.
fn append_assignment(body: &mut String, key: &str, value: &str)
    ensures
        final(body)@ == old(body)@ + assignment(key@, value@),
{
    proof {
        reveal_strlit("=");
        reveal_strlit("\n");
    }
    let ghost before = body@;
    body.append(key);
    body.append("=");
    body.append(value);
    body.append("\n");
    assert(body@ =~= before + assignment(key@, value@));
}

/// Text that a settings text can hold as a value: one line, without white space
/// at its ends.
pub open spec fn storable(t: Seq<char>) -> bool {
    &&& text::trimmed(t) == t
    &&& !t.contains('\n')
}

/// A line in front of a text adds its assignment in front of the others.
proof fn lemma_assignment_entries(key: Seq<char>, value: Seq<char>, rest: Seq<char>)
    requires
        storable(key),
        storable(value),
        !key.contains('='),
    ensures
        entries(assignment(key, value) + rest) == (match assigned(key, value) {
            Some(e) => seq![e],
            None => Seq::<EntryView>::empty(),
        }) + entries(rest),
{
    let line = key + seq!['='] + value;
    let whole = assignment(key, value) + rest;
    let i = line.len() as int;
    assert forall|j: int| 0 <= j < i implies #[trigger] whole[j] != '\n' by {
        assert(whole[j] == line[j]);
        if j < key.len() {
            assert(key.contains(key[j]));
        } else if j > key.len() {
            assert(line[j] == value[j - key.len() - 1]);
            assert(value.contains(value[j - key.len() - 1]));
        }
    }
    assert(whole[i] == '\n');
    lemma_position(whole, '\n', i);
    assert(whole.take(i) == line);
    assert(whole.skip(i + 1) == rest);
    assert forall|j: int| 0 <= j < key.len() implies #[trigger] line[j] != '=' by {
        assert(line[j] == key[j]);
        assert(key.contains(key[j]));
    }
    lemma_position(line, '=', key.len() as int);
    assert(line.take(key.len() as int) == key);
    assert(line.skip(key.len() as int + 1) == value);
    assert(line_entry(line) == assigned(key, value));
}

/// A digit is neither white space nor a line end.
proof fn lemma_decimal_storable(n: nat)
    ensures
        storable(text::decimal(n)),
{
    let t = text::decimal(n);
    text::lemma_decimal_digits(n);
    assert(text::is_digit(t[0]));
    assert(text::is_digit(t.last()));
    text::lemma_trimmed_fixed(t);
    if t.contains('\n') {
        let j = choose|j: int| 0 <= j < t.len() && t[j] == '\n';
        assert(text::is_digit(t[j]));
    }
}

/// The keys that a settings text uses are storable and hold no equals sign.
proof fn lemma_keys()
    ensures
        storable("accent"@) && !"accent"@.contains('='),
        storable("globe"@) && !"globe"@.contains('='),
        storable("overlay_mode"@) && !"overlay_mode"@.contains('='),
        storable("globe_yaw"@) && !"globe_yaw"@.contains('='),
        storable("globe_pitch"@) && !"globe_pitch"@.contains('='),
        storable("globe_zoom"@) && !"globe_zoom"@.contains('='),
        storable("true"@),
        storable("false"@),
        "true"@ != "false"@,
        "accent"@.len() == 6,
        "globe"@.len() == 5,
        "overlay_mode"@.len() == 12,
        "globe_yaw"@.len() == 9,
        "globe_pitch"@.len() == 11,
        "globe_zoom"@.len() == 10,
{
    reveal_strlit("accent");
    reveal_strlit("globe");
    reveal_strlit("overlay_mode");
    reveal_strlit("globe_yaw");
    reveal_strlit("globe_pitch");
    reveal_strlit("globe_zoom");
    reveal_strlit("true");
    reveal_strlit("false");
    text::lemma_trimmed_fixed("accent"@);
    text::lemma_trimmed_fixed("globe"@);
    text::lemma_trimmed_fixed("overlay_mode"@);
    text::lemma_trimmed_fixed("globe_yaw"@);
    text::lemma_trimmed_fixed("globe_pitch"@);
    text::lemma_trimmed_fixed("globe_zoom"@);
    text::lemma_trimmed_fixed("true"@);
    text::lemma_trimmed_fixed("false"@);
}

/// The assignments of a saved text are those of its settings, in order, and the
/// texts of the numbers come back as they were given.
#[verifier::spinoff_prover]
pub proof fn saved_text_entries(s: Settings, yaw: Seq<char>, pitch: Seq<char>, zoom: Seq<char>)
    requires
        storable(yaw),
        storable(pitch),
        storable(zoom),
    ensures
        entries(settings_text(s, yaw, pitch, zoom)) == seq![
            EntryView::Accent(s.accent),
            EntryView::Globe(s.globe),
            EntryView::OverlayMode(s.overlay_mode),
            EntryView::Orbit(OrbitField::Yaw, yaw),
            EntryView::Orbit(OrbitField::Pitch, pitch),
            EntryView::Orbit(OrbitField::Zoom, zoom),
        ],
        number_texts(entries(settings_text(s, yaw, pitch, zoom))) == seq![yaw, pitch, zoom],
{
    lemma_keys();
    let accent = text::decimal(s.accent as nat);
    let mode = text::decimal(s.overlay_mode as nat);
    lemma_decimal_storable(s.accent as nat);
    lemma_decimal_storable(s.overlay_mode as nat);
    text::decimal_reads_back(s.accent as nat, usize::MAX as int);
    text::decimal_reads_back(s.overlay_mode as nat, u8::MAX as int);
    let none = Seq::<char>::empty();
    let l6 = assignment("globe_zoom"@, zoom) + none;
    let l5 = assignment("globe_pitch"@, pitch) + l6;
    let l4 = assignment("globe_yaw"@, yaw) + l5;
    let l3 = assignment("overlay_mode"@, mode) + l4;
    let l2 = assignment("globe"@, truth_text(s.globe)) + l3;
    let l1 = assignment("accent"@, accent) + l2;
    assert(l1 =~= settings_text(s, yaw, pitch, zoom));
    lemma_assignment_entries("globe_zoom"@, zoom, none);
    lemma_assignment_entries("globe_pitch"@, pitch, l6);
    lemma_assignment_entries("globe_yaw"@, yaw, l5);
    lemma_assignment_entries("overlay_mode"@, mode, l4);
    lemma_assignment_entries("globe"@, truth_text(s.globe), l3);
    lemma_assignment_entries("accent"@, accent, l2);
    assert(line_entry(none) is None);
    assert(entries(none) == Seq::<EntryView>::empty());
    let es = entries(l1);
    assert(es =~= seq![
        EntryView::Accent(s.accent),
        EntryView::Globe(s.globe),
        EntryView::OverlayMode(s.overlay_mode),
        EntryView::Orbit(OrbitField::Yaw, yaw),
        EntryView::Orbit(OrbitField::Pitch, pitch),
        EntryView::Orbit(OrbitField::Zoom, zoom),
    ]);
    reveal_with_fuel(number_texts, 7);
    assert(number_texts(es) =~= seq![yaw, pitch, zoom]);
}

/// Text without any white space is storable.
pub proof fn unspaced_text_is_storable(t: Seq<char>)
    requires
        forall|i: int| 0 <= i < t.len() ==> !text::is_space(#[trigger] t[i]),
    ensures
        storable(t),
{
    text::lemma_trimmed_fixed(t);
    if t.contains('\n') {
        let j = choose|j: int| 0 <= j < t.len() && t[j] == '\n';
        assert(text::is_space(t[j]));
    }
}

/// What is read from the texts of the numbers among assignments, where `read` says
/// what is read from a text.
pub open spec fn readings(
    es: Seq<EntryView>,
    read: spec_fn(Seq<char>) -> Option<Single>,
) -> Seq<Option<Single>> {
    number_texts(es).map_values(read)
}

/// The settings that a text holds, where `read` says what is read from the text of
/// a number.
pub open spec fn loaded(
    contents: Seq<char>,
    read: spec_fn(Seq<char>) -> Option<Single>,
) -> Settings {
    updated(defaults(), entries(contents), readings(entries(contents), read))
}

/// Settings that are saved and loaded again are the same settings, as long as
/// each number is read back from its text.
pub proof fn saved_settings_load_back(
    s: Settings,
    yaw: Seq<char>,
    pitch: Seq<char>,
    zoom: Seq<char>,
    read: spec_fn(Seq<char>) -> Option<Single>,
)
    requires
        storable(yaw),
        storable(pitch),
        storable(zoom),
        read(yaw) == Some(s.globe_yaw),
        read(pitch) == Some(s.globe_pitch),
        read(zoom) == Some(s.globe_zoom),
    ensures
        loaded(settings_text(s, yaw, pitch, zoom), read) == s,
{
    saved_text_entries(s, yaw, pitch, zoom);
    let es = entries(settings_text(s, yaw, pitch, zoom));
    assert(readings(es, read) =~= seq![
        Some(s.globe_yaw),
        Some(s.globe_pitch),
        Some(s.globe_zoom),
    ]);
    reveal_with_fuel(updated, 7);
}

/// Lines are read one by one: the assignments of two texts put below each other
/// are those of the first followed by those of the second.
pub proof fn lines_are_read_one_by_one(a: Seq<char>, b: Seq<char>)
    ensures
        entries(a + seq!['\n'] + b) == entries(a) + entries(b),
    decreases a.len(),
{
    let whole = a + seq!['\n'] + b;
    let i = position(a, '\n');
    lemma_position_found(a, '\n');
    assert forall|j: int| 0 <= j < i implies #[trigger] whole[j] != '\n' by {
        assert(whole[j] == a[j]);
    }
    lemma_position(whole, '\n', i);
    if i < a.len() {
        let tail = a.skip(i + 1);
        lines_are_read_one_by_one(tail, b);
        assert(whole.take(i) == a.take(i));
        assert(whole.skip(i + 1) == tail + seq!['\n'] + b);
        assert(line_entries(a.take(i)) + (entries(tail) + entries(b)) =~= line_entries(a.take(i))
            + entries(tail) + entries(b));
    } else {
        assert(whole.take(i) == a);
        assert(whole.skip(i + 1) == b);
    }
}

/// The position of a character is where it first stands.
proof fn lemma_position_found(s: Seq<char>, c: char)
    ensures
        0 <= position(s, c) <= s.len(),
        position(s, c) < s.len() ==> s[position(s, c)] == c,
        forall|j: int| 0 <= j < position(s, c) ==> #[trigger] s[j] != c,
    decreases s.len(),
{
    if s.len() > 0 && s[0] != c {
        let t = s.drop_first();
        lemma_position_found(t, c);
        assert forall|j: int| 0 <= j < position(s, c) implies #[trigger] s[j] != c by {
            if j > 0 {
                assert(s[j] == t[j - 1]);
            }
        }
    }
}

/// What comes later is applied to what came before: reading two lists of
/// assignments one after the other is reading them as one list.
pub proof fn later_assignments_are_applied_last(
    s: Settings,
    first: Seq<EntryView>,
    first_numbers: Seq<Option<Single>>,
    second: Seq<EntryView>,
    second_numbers: Seq<Option<Single>>,
)
    requires
        first_numbers.len() == number_texts(first).len(),
    ensures
        updated(s, first + second, first_numbers + second_numbers) == updated(
            updated(s, first, first_numbers),
            second,
            second_numbers,
        ),
    decreases first.len(),
{
    if first.len() == 0 {
        assert(first + second == second);
        assert(first_numbers + second_numbers == second_numbers);
    } else {
        let both = first + second;
        let rest = first.drop_first();
        assert(both.drop_first() == rest + second);
        assert(both[0] == first[0]);
        match first[0] {
            EntryView::Accent(v) => {
                later_assignments_are_applied_last(
                    Settings { accent: v, ..s },
                    rest,
                    first_numbers,
                    second,
                    second_numbers,
                );
            },
            EntryView::Globe(v) => {
                later_assignments_are_applied_last(
                    Settings { globe: v, ..s },
                    rest,
                    first_numbers,
                    second,
                    second_numbers,
                );
            },
            EntryView::OverlayMode(v) => {
                later_assignments_are_applied_last(
                    Settings { overlay_mode: v, ..s },
                    rest,
                    first_numbers,
                    second,
                    second_numbers,
                );
            },
            EntryView::Orbit(f, _) => {
                let next = match first_numbers[0] {
                    Some(x) => with_orbit(s, f, x),
                    None => s,
                };
                assert((first_numbers + second_numbers).drop_first() == first_numbers.drop_first()
                    + second_numbers);
                later_assignments_are_applied_last(
                    next,
                    rest,
                    first_numbers.drop_first(),
                    second,
                    second_numbers,
                );
            },
        }
    }
}

/// A line that sets nothing: it is no assignment, its key is unknown, or its value
/// cannot be read.
pub open spec fn is_junk(line: Seq<char>, read: spec_fn(Seq<char>) -> Option<Single>) -> bool {
    match line_entry(line) {
        Some(EntryView::Orbit(_, t)) => read(t) is None,
        Some(_) => false,
        None => true,
    }
}

/// The six keys of a settings text.
pub open spec fn known_key(key: Seq<char>) -> bool {
    ||| key == "accent"@
    ||| key == "globe"@
    ||| key == "overlay_mode"@
    ||| key == "globe_yaw"@
    ||| key == "globe_pitch"@
    ||| key == "globe_zoom"@
}

/// A line without an equals sign is junk, and so is one with an unknown key.
pub proof fn unknown_lines_are_junk(line: Seq<char>, read: spec_fn(Seq<char>) -> Option<Single>)
    ensures
        !line.contains('=') ==> is_junk(line, read),
        !known_key(text::trimmed(line.take(position(line, '=')))) ==> is_junk(line, read),
{
    lemma_position_found(line, '=');
    if !line.contains('=') {
        assert(position(line, '=') == line.len());
    }
}

proof fn lemma_number_texts_append(a: Seq<EntryView>, b: Seq<EntryView>)
    ensures
        number_texts(a + b) == number_texts(a) + number_texts(b),
    decreases a.len(),
{
    if a.len() == 0 {
        assert(a + b == b);
    } else {
        assert((a + b).drop_first() == a.drop_first() + b);
        lemma_number_texts_append(a.drop_first(), b);
    }
}

/// Reading two lists of assignments one after the other is reading them as one.
proof fn lemma_loaded_append(
    s: Settings,
    a: Seq<EntryView>,
    b: Seq<EntryView>,
    read: spec_fn(Seq<char>) -> Option<Single>,
)
    ensures
        updated(s, a + b, readings(a + b, read)) == updated(
            updated(s, a, readings(a, read)),
            b,
            readings(b, read),
        ),
{
    lemma_number_texts_append(a, b);
    assert(readings(a + b, read) =~= readings(a, read) + readings(b, read));
    later_assignments_are_applied_last(s, a, readings(a, read), b, readings(b, read));
}

/// Junk between, above or below other lines makes no difference to the settings.
pub proof fn junk_lines_make_no_difference(
    above: Seq<char>,
    junk: Seq<char>,
    below: Seq<char>,
    read: spec_fn(Seq<char>) -> Option<Single>,
)
    requires
        is_junk(junk, read),
        !junk.contains('\n'),
    ensures
        loaded(above + seq!['\n'] + junk + seq!['\n'] + below, read) == loaded(
            above + seq!['\n'] + below,
            read,
        ),
        loaded(junk + seq!['\n'] + below, read) == loaded(below, read),
        loaded(above + seq!['\n'] + junk, read) == loaded(above, read),
{
    let a = entries(above);
    let j = entries(junk);
    let b = entries(below);
    lemma_position_found(junk, '\n');
    assert(position(junk, '\n') == junk.len());
    assert(j == line_entries(junk));
    lines_are_read_one_by_one(above, below);
    lines_are_read_one_by_one(above, junk);
    lines_are_read_one_by_one(above + seq!['\n'] + junk, below);
    lemma_loaded_append(defaults(), a, b, read);
    lemma_loaded_append(defaults(), a + j, b, read);
    lemma_loaded_append(defaults(), a, j, read);
    lines_are_read_one_by_one(junk, below);
    lemma_loaded_append(defaults(), j, b, read);
    reveal_with_fuel(updated, 2);
    reveal_with_fuel(number_texts, 2);
}

/// The settings that a text can assign.
pub enum SettingKey {
    Accent,
    Globe,
    OverlayMode,
    Orbit(OrbitField),
}

/// What an assignment sets.
pub open spec fn key_of(e: EntryView) -> SettingKey {
    match e {
        EntryView::Accent(_) => SettingKey::Accent,
        EntryView::Globe(_) => SettingKey::Globe,
        EntryView::OverlayMode(_) => SettingKey::OverlayMode,
        EntryView::Orbit(f, _) => SettingKey::Orbit(f),
    }
}

/// The assignments of one key, in order.
pub open spec fn of_key(es: Seq<EntryView>, key: SettingKey) -> Seq<EntryView>
    decreases es.len(),
{
    if es.len() == 0 {
        seq![]
    } else if key_of(es[0]) == key {
        seq![es[0]] + of_key(es.drop_first(), key)
    } else {
        of_key(es.drop_first(), key)
    }
}

/// Two settings agree on what a key sets.
spec fn agree_on(s: Settings, t: Settings, key: SettingKey) -> bool {
    match key {
        SettingKey::Accent => s.accent == t.accent,
        SettingKey::Globe => s.globe == t.globe,
        SettingKey::OverlayMode => s.overlay_mode == t.overlay_mode,
        SettingKey::Orbit(OrbitField::Yaw) => s.globe_yaw == t.globe_yaw,
        SettingKey::Orbit(OrbitField::Pitch) => s.globe_pitch == t.globe_pitch,
        SettingKey::Orbit(OrbitField::Zoom) => s.globe_zoom == t.globe_zoom,
    }
}

/// Settings after one assignment.
spec fn after_one(
    s: Settings,
    e: EntryView,
    read: spec_fn(Seq<char>) -> Option<Single>,
) -> Settings {
    match e {
        EntryView::Accent(v) => Settings { accent: v, ..s },
        EntryView::Globe(v) => Settings { globe: v, ..s },
        EntryView::OverlayMode(v) => Settings { overlay_mode: v, ..s },
        EntryView::Orbit(f, t) => match read(t) {
            Some(x) => with_orbit(s, f, x),
            None => s,
        },
    }
}

proof fn lemma_first_assignment(
    s: Settings,
    es: Seq<EntryView>,
    read: spec_fn(Seq<char>) -> Option<Single>,
)
    requires
        es.len() > 0,
    ensures
        updated(s, es, readings(es, read)) == updated(
            after_one(s, es[0], read),
            es.drop_first(),
            readings(es.drop_first(), read),
        ),
{
    if es[0] is Orbit {
        assert(readings(es, read).drop_first() =~= readings(es.drop_first(), read));
        assert(readings(es, read)[0] == read(number_texts(es)[0]));
    } else {
        assert(number_texts(es) == number_texts(es.drop_first()));
    }
}

/// What a key sets comes from the assignments of that key alone.
proof fn lemma_only_own_assignments_count(
    s: Settings,
    t: Settings,
    es: Seq<EntryView>,
    key: SettingKey,
    read: spec_fn(Seq<char>) -> Option<Single>,
)
    requires
        agree_on(s, t, key),
    ensures
        agree_on(
            updated(s, es, readings(es, read)),
            updated(t, of_key(es, key), readings(of_key(es, key), read)),
            key,
        ),
    decreases es.len(),
{
    if es.len() > 0 {
        let rest = es.drop_first();
        let own = of_key(es, key);
        lemma_first_assignment(s, es, read);
        if key_of(es[0]) == key {
            lemma_first_assignment(t, own, read);
            assert(own.drop_first() =~= of_key(rest, key));
            lemma_only_own_assignments_count(
                after_one(s, es[0], read),
                after_one(t, es[0], read),
                rest,
                key,
                read,
            );
        } else {
            lemma_only_own_assignments_count(after_one(s, es[0], read), t, rest, key, read);
        }
    }
}

/// The order of assignments of different keys makes no difference: two texts that
/// hold the same assignments of each key, in the same order, hold the same settings.
pub proof fn the_order_of_keys_makes_no_difference(
    one: Seq<char>,
    other: Seq<char>,
    read: spec_fn(Seq<char>) -> Option<Single>,
)
    requires
        forall|key: SettingKey|
            #[trigger] of_key(entries(one), key) == of_key(entries(other), key),
    ensures
        loaded(one, read) == loaded(other, read),
{
    assert forall|key: SettingKey| #[trigger]
        agree_on(loaded(one, read), loaded(other, read), key) by {
        let own = of_key(entries(one), key);
        assert(own == of_key(entries(other), key));
        lemma_only_own_assignments_count(defaults(), defaults(), entries(one), key, read);
        lemma_only_own_assignments_count(defaults(), defaults(), entries(other), key, read);
    }
    let a = loaded(one, read);
    let b = loaded(other, read);
    assert(agree_on(a, b, SettingKey::Accent));
    assert(agree_on(a, b, SettingKey::Globe));
    assert(agree_on(a, b, SettingKey::OverlayMode));
    assert(agree_on(a, b, SettingKey::Orbit(OrbitField::Yaw)));
    assert(agree_on(a, b, SettingKey::Orbit(OrbitField::Pitch)));
    assert(agree_on(a, b, SettingKey::Orbit(OrbitField::Zoom)));
}

/// Two lines with different keys, below each other, may change places.
pub proof fn lines_of_different_keys_may_change_places(
    above: Seq<char>,
    one: Seq<char>,
    other: Seq<char>,
    below: Seq<char>,
    read: spec_fn(Seq<char>) -> Option<Single>,
)
    requires
        !one.contains('\n'),
        !other.contains('\n'),
        line_entry(one) matches Some(e) ==> line_entry(other) matches Some(f) ==> key_of(e)
            != key_of(f),
    ensures
        loaded(
            above + seq!['\n'] + (one + seq!['\n'] + other) + seq!['\n'] + below,
            read,
        ) == loaded(
            above + seq!['\n'] + (other + seq!['\n'] + one) + seq!['\n'] + below,
            read,
        ),
{
    let nl = seq!['\n'];
    lemma_two_lines(above, one, other, below);
    lemma_two_lines(above, other, one, below);
    let a = entries(above);
    let b = entries(below);
    let p = line_entries(one);
    let q = line_entries(other);
    assert forall|key: SettingKey| #[trigger]
        of_key(a + (p + q) + b, key) == of_key(a + (q + p) + b, key) by {
        lemma_of_key_append(p, q, key);
        lemma_of_key_append(q, p, key);
        lemma_of_key_append(a, p + q, key);
        lemma_of_key_append(a, q + p, key);
        lemma_of_key_append(a + (p + q), b, key);
        lemma_of_key_append(a + (q + p), b, key);
        reveal_with_fuel(of_key, 2);
        assert(of_key(p, key) + of_key(q, key) =~= of_key(q, key) + of_key(p, key));
    }
    the_order_of_keys_makes_no_difference(
        above + nl + (one + nl + other) + nl + below,
        above + nl + (other + nl + one) + nl + below,
        read,
    );
}

proof fn lemma_two_lines(above: Seq<char>, one: Seq<char>, other: Seq<char>, below: Seq<char>)
    requires
        !one.contains('\n'),
        !other.contains('\n'),
    ensures
        entries(above + seq!['\n'] + (one + seq!['\n'] + other) + seq!['\n'] + below) == entries(
            above,
        ) + (line_entries(one) + line_entries(other)) + entries(below),
{
    let nl = seq!['\n'];
    lemma_position_found(one, '\n');
    lemma_position_found(other, '\n');
    assert(position(one, '\n') == one.len());
    assert(position(other, '\n') == other.len());
    lines_are_read_one_by_one(one, other);
    lines_are_read_one_by_one(above, one + nl + other);
    lines_are_read_one_by_one(above + nl + (one + nl + other), below);
}

proof fn lemma_of_key_append(a: Seq<EntryView>, b: Seq<EntryView>, key: SettingKey)
    ensures
        of_key(a + b, key) == of_key(a, key) + of_key(b, key),
    decreases a.len(),
{
    if a.len() == 0 {
        assert(a + b == b);
    } else {
        assert((a + b).drop_first() == a.drop_first() + b);
        lemma_of_key_append(a.drop_first(), b, key);
    }
}

/// A number of the orbit is assigned somewhere in a list.
pub open spec fn sets_orbit(es: Seq<EntryView>, field: OrbitField) -> bool {
    exists|i: int| 0 <= i < es.len() && (#[trigger] es[i] matches EntryView::Orbit(f, _) && f == field)
}

/// What no line assigns stays as it was, so that on reading a text it has its
/// default.
pub proof fn unassigned_settings_stay(
    s: Settings,
    es: Seq<EntryView>,
    numbers: Seq<Option<Single>>,
)
    ensures
        (forall|i: int| 0 <= i < es.len() ==> !(#[trigger] es[i] is Accent)) ==> updated(
            s,
            es,
            numbers,
        ).accent == s.accent,
        (forall|i: int| 0 <= i < es.len() ==> !(#[trigger] es[i] is Globe)) ==> updated(
            s,
            es,
            numbers,
        ).globe == s.globe,
        (forall|i: int| 0 <= i < es.len() ==> !(#[trigger] es[i] is OverlayMode)) ==> updated(
            s,
            es,
            numbers,
        ).overlay_mode == s.overlay_mode,
        !sets_orbit(es, OrbitField::Yaw) ==> updated(s, es, numbers).globe_yaw == s.globe_yaw,
        !sets_orbit(es, OrbitField::Pitch) ==> updated(s, es, numbers).globe_pitch == s.globe_pitch,
        !sets_orbit(es, OrbitField::Zoom) ==> updated(s, es, numbers).globe_zoom == s.globe_zoom,
    decreases es.len(),
{
    if es.len() > 0 {
        let rest = es.drop_first();
        let (next, ns) = match es[0] {
            EntryView::Accent(v) => (Settings { accent: v, ..s }, numbers),
            EntryView::Globe(v) => (Settings { globe: v, ..s }, numbers),
            EntryView::OverlayMode(v) => (Settings { overlay_mode: v, ..s }, numbers),
            EntryView::Orbit(f, _) => (
                match numbers[0] {
                    Some(x) => with_orbit(s, f, x),
                    None => s,
                },
                numbers.drop_first(),
            ),
        };
        unassigned_settings_stay(next, rest, ns);
        assert forall|i: int| 0 <= i < rest.len() implies #[trigger] rest[i] == es[i + 1] by {}
        assert forall|f: OrbitField| sets_orbit(rest, f) implies sets_orbit(es, f) by {
            let i = choose|i: int|
                0 <= i < rest.len() && (#[trigger] rest[i] matches EntryView::Orbit(g, _) && g == f);
            assert(es[i + 1] == rest[i]);
        }
        assert(es[0] matches EntryView::Orbit(f, _) ==> sets_orbit(es, f));
    }
}

/// A part of the path of the settings file.
#[derive(Clone, Copy, Debug, PartialEq, Eq, Structural)]
pub enum PathPart {
    /// The value of `XDG_CONFIG_HOME`.
    ConfigHome,
    /// The value of `HOME`.
    Home,
    /// The directory `.config`.
    DotConfig,
    /// The directory `visualizer`.
    Visualizer,
    /// The file `settings.conf`.
    SettingsFile,
}

/// The parts of the path of the settings file, given which of the two
/// environment variables are set. With neither there is no such file.
pub open spec fn settings_path(config_home_set: bool, home_set: bool) -> Option<Seq<PathPart>> {
    if config_home_set {
        Some(seq![PathPart::ConfigHome, PathPart::Visualizer, PathPart::SettingsFile])
    } else if home_set {
        Some(
            seq![
                PathPart::Home,
                PathPart::DotConfig,
                PathPart::Visualizer,
                PathPart::SettingsFile,
            ],
        )
    } else {
        None
    }
}

/// Finds the path of the settings file.
pub fn config_path(config_home_set: bool, home_set: bool) -> (r: Option<Vec<PathPart>>)
    ensures
        match settings_path(config_home_set, home_set) {
            Some(parts) => r matches Some(v) && v@ == parts,
            None => r is None,
        },
{
    if config_home_set {
        Some(vec![PathPart::ConfigHome, PathPart::Visualizer, PathPart::SettingsFile])
    } else if home_set {
        Some(vec![PathPart::Home, PathPart::DotConfig, PathPart::Visualizer, PathPart::SettingsFile])
    } else {
        None
    }
}

/// The fixed name of a part of the path; the parts that environment variables give
/// have none.
pub open spec fn part_label(part: PathPart) -> Option<Seq<char>> {
    match part {
        PathPart::ConfigHome => None,
        PathPart::Home => None,
        PathPart::DotConfig => Some(".config"@),
        PathPart::Visualizer => Some("visualizer"@),
        PathPart::SettingsFile => Some("settings.conf"@),
    }
}

/// Names a part of the path of the settings file.
pub fn part_name(part: PathPart) -> (r: Option<&'static str>)
    ensures
        match part_label(part) {
            Some(name) => r matches Some(s) && s@ == name,
            None => r is None,
        },
{
    match part {
        PathPart::ConfigHome => None,
        PathPart::Home => None,
        PathPart::DotConfig => Some(".config"),
        PathPart::Visualizer => Some("visualizer"),
        PathPart::SettingsFile => Some("settings.conf"),
    }
}

proof fn lemma_no_equals_sign(w: Seq<char>)
    requires
        forall|i: int| 0 <= i < w.len() ==> text::is_space(#[trigger] w[i]),
    ensures
        forall|i: int| 0 <= i < w.len() ==> #[trigger] w[i] != '=',
{
    assert forall|i: int| 0 <= i < w.len() implies #[trigger] w[i] != '=' by {
        assert(text::is_space(w[i]));
    }
}

proof fn lemma_line_parts(
    line: Seq<char>,
    w1: Seq<char>,
    key: Seq<char>,
    w2: Seq<char>,
    w3: Seq<char>,
    value: Seq<char>,
    w4: Seq<char>,
)
    requires
        line == (w1 + key + w2) + seq!['='] + (w3 + value + w4),
        forall|i: int| 0 <= i < w1.len() ==> text::is_space(#[trigger] w1[i]),
        forall|i: int| 0 <= i < w2.len() ==> text::is_space(#[trigger] w2[i]),
        forall|i: int| 0 <= i < w3.len() ==> text::is_space(#[trigger] w3[i]),
        forall|i: int| 0 <= i < w4.len() ==> text::is_space(#[trigger] w4[i]),
        forall|i: int| 0 <= i < key.len() ==> #[trigger] key[i] != '=',
        key.len() > 0 ==> !text::is_space(key[0]) && !text::is_space(key.last()),
        value.len() > 0 ==> !text::is_space(value[0]) && !text::is_space(value.last()),
    ensures
        line_entry(line) == assigned(key, value),
{
    let left = w1 + key + w2;
    let right = w3 + value + w4;
    lemma_no_equals_sign(w1);
    lemma_no_equals_sign(w2);
    assert forall|j: int| 0 <= j < left.len() implies #[trigger] line[j] != '=' by {
        assert(line[j] == left[j]);
        if j < w1.len() {
            assert(left[j] == w1[j]);
        } else if j < w1.len() + key.len() {
            assert(left[j] == key[j - w1.len()]);
        } else {
            assert(left[j] == w2[j - w1.len() - key.len()]);
        }
    }
    assert(line[left.len() as int] == '=');
    lemma_position(line, '=', left.len() as int);
    assert(line.take(left.len() as int) =~= left);
    assert(line.skip(left.len() as int + 1) =~= right);
    text::lemma_trimmed_core(w1, key, w2);
    text::lemma_trimmed_core(w3, value, w4);
}

/// A line is a key and a value with the first equals sign between them, and white
/// space around each makes no difference. The keys of numbers and of the mode take
/// numbers, that of the globe is on for `true` alone, those of the orbit keep their
/// text, and any other key says nothing.
pub proof fn assignments_are_read(
    line: &str,
    r: Option<Entry>,
    w1: Seq<char>,
    key: Seq<char>,
    w2: Seq<char>,
    w3: Seq<char>,
    value: &str,
    w4: Seq<char>,
    index: Option<u64>,
    mode: Option<u64>,
)
    requires
        call_ensures(read_line, (line,), r),
        line@ == (w1 + key + w2) + seq!['='] + (w3 + value@ + w4),
        forall|i: int| 0 <= i < w1.len() ==> text::is_space(#[trigger] w1[i]),
        forall|i: int| 0 <= i < w2.len() ==> text::is_space(#[trigger] w2[i]),
        forall|i: int| 0 <= i < w3.len() ==> text::is_space(#[trigger] w3[i]),
        forall|i: int| 0 <= i < w4.len() ==> text::is_space(#[trigger] w4[i]),
        forall|i: int| 0 <= i < key.len() ==> #[trigger] key[i] != '=',
        key.len() > 0 ==> !text::is_space(key[0]) && !text::is_space(key.last()),
        value@.len() > 0 ==> !text::is_space(value@[0]) && !text::is_space(value@.last()),
        call_ensures(text::parse_number, (value, usize::MAX as u64), index),
        call_ensures(text::parse_number, (value, 255u64), mode),
    ensures
        key == "accent"@ ==> match index {
            Some(v) => r == Some(Entry::Accent(v as usize)),
            None => r is None,
        },
        key == "overlay_mode"@ ==> match mode {
            Some(v) => r == Some(Entry::OverlayMode(v as u8)),
            None => r is None,
        },
        key == "globe"@ ==> r == Some(Entry::Globe(value@ == "true"@)),
        key == "globe_yaw"@ ==> (r matches Some(Entry::Orbit(OrbitField::Yaw, t)) && t@ == value@),
        key == "globe_pitch"@ ==> (r matches Some(Entry::Orbit(OrbitField::Pitch, t)) && t@
            == value@),
        key == "globe_zoom"@ ==> (r matches Some(Entry::Orbit(OrbitField::Zoom, t)) && t@
            == value@),
        key != "accent"@ && key != "overlay_mode"@ && key != "globe"@ && key != "globe_yaw"@ && key
            != "globe_pitch"@ && key != "globe_zoom"@ ==> r is None,
{
    lemma_line_parts(line@, w1, key, w2, w3, value@, w4);
    lemma_keys();
}

/// A line without an equals sign says nothing.
pub proof fn lines_without_equals_sign_say_nothing(line: &str, r: Option<Entry>)
    requires
        call_ensures(read_line, (line,), r),
        !line@.contains('='),
    ensures
        r is None,
{
    lemma_position_found(line@, '=');
}

/// The settings are 0, off, 0, 0.0, 0.0 and 1.0 where there is no text.
pub proof fn without_a_text_there_are_defaults(numbers: &Vec<Option<Single>>, r: Settings)
    requires
        call_ensures(Settings::load_from, (None, numbers), r),
    ensures
        r.accent == 0,
        !r.globe,
        r.overlay_mode == 0,
        r.globe_yaw.bits == 0,
        r.globe_pitch.bits == 0,
        r.globe_zoom.bits == 0x3f80_0000,
{
}

/// `s` with what a line sets, where `x` is what was read from the text of a number.
spec fn with_line(s: Settings, e: Option<Entry>, x: Option<Single>) -> Settings {
    match e {
        None => s,
        Some(Entry::Accent(v)) => Settings { accent: v, ..s },
        Some(Entry::Globe(v)) => Settings { globe: v, ..s },
        Some(Entry::OverlayMode(v)) => Settings { overlay_mode: v, ..s },
        Some(Entry::Orbit(f, _)) => match x {
            Some(x) => with_orbit(s, f, x),
            None => s,
        },
    }
}

proof fn lemma_one_line(line: Seq<char>, e: Option<Entry>)
    requires
        !line.contains('\n'),
        match line_entry(line) {
            Some(v) => e matches Some(x) && x@ == v,
            None => e is None,
        },
    ensures
        entries(line) == (match e {
            Some(x) => seq![x@],
            None => seq![],
        }),
        number_texts(entries(line)).len() == (if e is Some && e->0 is Orbit {
            1nat
        } else {
            0nat
        }),
        forall|s: Settings, x: Seq<Option<Single>>|
            #![trigger updated(s, entries(line), x)]
            x.len() == number_texts(entries(line)).len() ==> updated(s, entries(line), x)
                == with_line(
                s,
                e,
                if x.len() > 0 {
                    x[0]
                } else {
                    None
                },
            ),
{
    lemma_position_found(line, '\n');
    assert(position(line, '\n') == line.len());
    reveal_with_fuel(number_texts, 2);
    reveal_with_fuel(updated, 2);
}

/// A line at the end of a text sets what it assigns over what the text before it
/// says, and leaves everything else.
#[verifier::spinoff_prover]
pub proof fn the_last_line_is_applied_last(
    above: &str,
    line: &str,
    whole: &str,
    texts: Vec<String>,
    e: Option<Entry>,
    above_numbers: &Vec<Option<Single>>,
    numbers: &Vec<Option<Single>>,
    s: Settings,
    r: Settings,
)
    requires
        whole@ == above@ + seq!['\n'] + line@,
        !line@.contains('\n'),
        call_ensures(orbit_texts, (above,), texts),
        call_ensures(read_line, (line,), e),
        above_numbers@.len() == texts@.len(),
        e matches Some(Entry::Orbit(_, _)) ==> numbers@.len() == above_numbers@.len() + 1
            && numbers@.drop_last() == above_numbers@,
        !(e matches Some(Entry::Orbit(_, _))) ==> numbers@ == above_numbers@,
        call_ensures(Settings::load_from, (Some(above), above_numbers), s),
        call_ensures(Settings::load_from, (Some(whole), numbers), r),
    ensures
        e is None ==> r == s,
        e matches Some(Entry::Accent(v)) ==> r == (Settings { accent: v, ..s }),
        e matches Some(Entry::Globe(v)) ==> r == (Settings { globe: v, ..s }),
        e matches Some(Entry::OverlayMode(v)) ==> r == (Settings { overlay_mode: v, ..s }),
        e matches Some(Entry::Orbit(f, _)) ==> match numbers@.last() {
            None => r == s,
            Some(x) => match f {
                OrbitField::Yaw => r == (Settings { globe_yaw: x, ..s }),
                OrbitField::Pitch => r == (Settings { globe_pitch: x, ..s }),
                OrbitField::Zoom => r == (Settings { globe_zoom: x, ..s }),
            },
        },
{
    let ghost_numbers = if e matches Some(Entry::Orbit(_, _)) {
        seq![numbers@.last()]
    } else {
        seq![]
    };
    lines_are_read_one_by_one(above@, line@);
    lemma_one_line(line@, e);
    assert(texts@.map_values(|t: String| t@).len() == texts@.len());
    assert(numbers@ =~= above_numbers@ + ghost_numbers);
    later_assignments_are_applied_last(
        defaults(),
        entries(above@),
        above_numbers@,
        entries(line@),
        ghost_numbers,
    );
    assert(updated(s, entries(line@), ghost_numbers) == r);
}

/// A text of one line sets what it assigns over the defaults.
pub proof fn one_line_is_applied_to_the_defaults(
    line: &str,
    e: Option<Entry>,
    none: &Vec<Option<Single>>,
    numbers: &Vec<Option<Single>>,
    s: Settings,
    r: Settings,
)
    requires
        !line@.contains('\n'),
        call_ensures(read_line, (line,), e),
        e matches Some(Entry::Orbit(_, _)) ==> numbers@.len() == 1,
        !(e matches Some(Entry::Orbit(_, _))) ==> numbers@.len() == 0,
        call_ensures(Settings::load_from, (None, none), s),
        call_ensures(Settings::load_from, (Some(line), numbers), r),
    ensures
        e is None ==> r == s,
        e matches Some(Entry::Accent(v)) ==> r == (Settings { accent: v, ..s }),
        e matches Some(Entry::Globe(v)) ==> r == (Settings { globe: v, ..s }),
        e matches Some(Entry::OverlayMode(v)) ==> r == (Settings { overlay_mode: v, ..s }),
        e matches Some(Entry::Orbit(f, _)) ==> match numbers@[0] {
            None => r == s,
            Some(x) => match f {
                OrbitField::Yaw => r == (Settings { globe_yaw: x, ..s }),
                OrbitField::Pitch => r == (Settings { globe_pitch: x, ..s }),
                OrbitField::Zoom => r == (Settings { globe_zoom: x, ..s }),
            },
        },
{
    lemma_one_line(line@, e);
    assert(updated(s, entries(line@), numbers@) == r);
}

proof fn lemma_views_len(es: Seq<Entry>)
    ensures
        views(es).len() == es.len(),
        forall|i: int| 0 <= i < es.len() ==> #[trigger] views(es)[i] == es[i]@,
{
}

/// A line at the end of a text adds its number to the texts of the numbers, if it
/// assigns one, and nothing else.
#[verifier::spinoff_prover]
pub proof fn the_last_line_adds_its_number(
    above: &str,
    line: &str,
    whole: &str,
    e: Option<Entry>,
    texts: Vec<String>,
    r: Vec<String>,
)
    requires
        whole@ == above@ + seq!['\n'] + line@,
        !line@.contains('\n'),
        call_ensures(read_line, (line,), e),
        call_ensures(orbit_texts, (above,), texts),
        call_ensures(orbit_texts, (whole,), r),
    ensures
        e matches Some(Entry::Orbit(_, t)) ==> r@.len() == texts@.len() + 1 && r@.last()@ == t@,
        !(e matches Some(Entry::Orbit(_, _))) ==> r@.len() == texts@.len(),
        forall|i: int| 0 <= i < texts@.len() ==> (#[trigger] r@[i])@ == texts@[i]@,
{
    lines_are_read_one_by_one(above@, line@);
    lemma_one_line(line@, e);
    lemma_number_texts_append(entries(above@), entries(line@));
    reveal_with_fuel(number_texts, 2);
    let a = texts@.map_values(|t: String| t@);
    let b = r@.map_values(|t: String| t@);
    assert(b == a + number_texts(entries(line@)));
    assert forall|i: int| 0 <= i < texts@.len() implies (#[trigger] r@[i])@ == texts@[i]@ by {
        assert(b[i] == r@[i]@);
        assert(a[i] == texts@[i]@);
        assert(b[i] == a[i]);
    }
    if e matches Some(Entry::Orbit(_, _)) {
        assert(b[b.len() - 1] == number_texts(entries(line@))[0]);
    }
}

/// A line at the end of a text adds its assignment to those of the text, if it is
/// one.
#[verifier::spinoff_prover]
pub proof fn the_last_line_adds_its_assignment(
    above: &str,
    line: &str,
    whole: &str,
    e: Option<Entry>,
    before: Vec<Entry>,
    r: Vec<Entry>,
)
    requires
        whole@ == above@ + seq!['\n'] + line@,
        !line@.contains('\n'),
        call_ensures(read_line, (line,), e),
        call_ensures(read_entries, (above,), before),
        call_ensures(read_entries, (whole,), r),
    ensures
        e is None ==> r@.len() == before@.len(),
        e matches Some(x) ==> r@.len() == before@.len() + 1 && r@.last()@ == x@,
        forall|i: int| 0 <= i < before@.len() ==> (#[trigger] r@[i])@ == before@[i]@,
{
    lines_are_read_one_by_one(above@, line@);
    lemma_one_line(line@, e);
    lemma_views_len(before@);
    lemma_views_len(r@);
    let a = views(before@);
    let b = views(r@);
    assert(b == a + entries(line@));
    assert(r@.len() == a.len() + entries(line@).len());
    assert forall|i: int| 0 <= i < before@.len() implies (#[trigger] r@[i])@ == before@[i]@ by {
        assert(b[i] == r@[i]@);
        assert(a[i] == before@[i]@);
        assert(b[i] == a[i]);
    }
    if e is Some {
        let last = r@.len() - 1;
        assert(b[last] == r@[last]@);
        assert(b[last] == entries(line@)[0]);
    }
}

/// A saved text is six lines, a key and a value each, in this order.
pub proof fn settings_are_saved_line_by_line(
    s: &Settings,
    yaw: &str,
    pitch: &str,
    zoom: &str,
    accent: String,
    mode: String,
    r: String,
)
    requires
        call_ensures(text::decimal_text, (s.accent as u64,), accent),
        call_ensures(text::decimal_text, (s.overlay_mode as u64,), mode),
        call_ensures(Settings::save_to, (s, yaw, pitch, zoom), r),
    ensures
        r@ == "accent"@ + seq!['='] + accent@ + seq!['\n'] + ("globe"@ + seq!['='] + (if s.globe {
            "true"@
        } else {
            "false"@
        }) + seq!['\n']) + ("overlay_mode"@ + seq!['='] + mode@ + seq!['\n']) + ("globe_yaw"@ + seq![
            '=',
        ] + yaw@ + seq!['\n']) + ("globe_pitch"@ + seq!['='] + pitch@ + seq!['\n']) + (
        "globe_zoom"@ + seq!['='] + zoom@ + seq!['\n']),
{
}

/// The settings file is `visualizer/settings.conf` under the configuration
/// directory, or else under `.config` in the home directory, or nowhere.
pub proof fn the_file_is_under_the_configuration_directory(
    config_home_set: bool,
    home_set: bool,
    r: Option<Vec<PathPart>>,
)
    requires
        call_ensures(config_path, (config_home_set, home_set), r),
    ensures
        r is None <==> !config_home_set && !home_set,
        config_home_set ==> r->0@.len() == 3 && r->0@[0] is ConfigHome,
        !config_home_set && home_set ==> r->0@.len() == 4 && r->0@[0] is Home
            && r->0@[1] is DotConfig,
        r matches Some(p) ==> p@.last() is SettingsFile && p@[p@.len() - 2] is Visualizer,
{
}

/// The fixed names in the path.
pub proof fn parts_of_the_path_have_their_names(part: PathPart, r: Option<&'static str>)
    requires
        call_ensures(part_name, (part,), r),
    ensures
        part is ConfigHome || part is Home <==> r is None,
        part is DotConfig ==> r->0@ == ".config"@,
        part is Visualizer ==> r->0@ == "visualizer"@,
        part is SettingsFile ==> r->0@ == "settings.conf"@,
{
}

/// Every text can be loaded, with what was read from the texts of its numbers.
pub proof fn every_text_can_be_loaded(
    contents: &str,
    texts: Vec<String>,
    numbers: &Vec<Option<Single>>,
    none: &Vec<Option<Single>>,
)
    requires
        call_ensures(orbit_texts, (contents,), texts),
        numbers@.len() == texts@.len(),
    ensures
        call_requires(Settings::load_from, (Some(contents), numbers)),
        call_requires(Settings::load_from, (None, none)),
{
    assert(texts@.map_values(|t: String| t@).len() == texts@.len());
}

} // verus!
