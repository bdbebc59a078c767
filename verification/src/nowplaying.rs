//! The song that is playing: from what a media player reports to the text of the
//! overlay.
//!
//! A background thread polls the active media player outside the library and
//! publishes the text here, where the render thread reads it.

use crate::text;
use vstd::prelude::*;

verus! {

/// How long to wait between two polls, in milliseconds.
pub const POLL_MS: u64 = 1500;

/// What the active media player reports.
#[derive(Debug)]
pub struct PlayerReport {
    /// Playback is stopped. A paused player still has a current song.
    pub stopped: bool,
    /// The title of the song, if the player tells.
    pub title: Option<String>,
    /// The artists of the song, if the player tells.
    pub artists: Option<Vec<String>>,
}

/// The first text of a list that is not empty.
pub open spec fn first_nonempty(names: Seq<String>) -> Option<Seq<char>>
    decreases names.len(),
{
    if names.len() == 0 {
        None
    } else if names[0]@.len() > 0 {
        Some(names[0]@)
    } else {
        first_nonempty(names.drop_first())
    }
}

/// The artist to show.
pub open spec fn artist_of(report: PlayerReport) -> Option<Seq<char>> {
    match report.artists {
        Some(names) => first_nonempty(names@),
        None => None,
    }
}

/// The text for a song: artist and title, or the title alone.
pub open spec fn song_text(artist: Option<Seq<char>>, title: Seq<char>) -> Seq<char> {
    match artist {
        Some(a) => a + " — "@ + title,
        None => title,
    }
}

/// The text of what a player reports. A stopped player, and a song without a
/// title, have none.
pub open spec fn report_text(report: PlayerReport) -> Option<Seq<char>> {
    match report.title {
        Some(t) => if !report.stopped && text::trimmed(t@).len() > 0 {
            Some(song_text(artist_of(report), text::trimmed(t@)))
        } else {
            None
        },
        None => None,
    }
}

/// The text of what the active player reports, if there is an active player.
pub open spec fn playing_text(report: Option<PlayerReport>) -> Option<Seq<char>> {
    match report {
        Some(r) => report_text(r),
        None => None,
    }
}

/// Finds the artist to show.
fn find_artist(names: &Vec<String>) -> (r: Option<String>)
    ensures
        match first_nonempty(names@) {
            Some(a) => r matches Some(s) && s@ == a,
            None => r is None,
        },
{
    let mut i: usize = 0;
    assert(names@.skip(0) == names@);
    while i < names.len()
        invariant
            i <= names@.len(),
            first_nonempty(names@.skip(i as int)) == first_nonempty(names@),
        decreases names@.len() - i,
    {
        assert(names@.skip(i as int)[0] == names@[i as int]);
        assert(names@.skip(i as int).drop_first() == names@.skip(i + 1));
        if !names[i].as_str().is_empty() {
            return Some(names[i].clone());
        }
        i = i + 1;
    }
    None
}

/// Makes the text of what the active player reports.
pub fn now_playing_text(report: &Option<PlayerReport>) -> (r: Option<String>)
    ensures
        match playing_text(*report) {
            Some(t) => r matches Some(s) && s@ == t,
            None => r is None,
        },
{
    match report {
        None => None,
        Some(p) => {
            if p.stopped {
                return None;
            }
            let title: String = match &p.title {
                Some(t) => text::trim(t.as_str()),
                None => {
                    return None;
                },
            };
            if title.as_str().is_empty() {
                return None;
            }
            let artist: Option<String> = match &p.artists {
                Some(names) => find_artist(names),
                None => None,
            };
            match artist {
                Some(a) => {
                    let mut s: String = a;
                    s.append(" — ");
                    s.append(title.as_str());
                    Some(s)
                },
                None => Some(title),
            }
        },
    }
}

/// The text that the polling thread publishes and the render thread reads.
#[derive(Debug)]
pub struct NowPlaying {
    pub current: Option<String>,
}

impl NowPlaying {
    /// The published text as characters.
    pub open spec fn shown(&self) -> Option<Seq<char>> {
        match self.current {
            Some(s) => Some(s@),
            None => None,
        }
    }

    /// Nothing has been published yet.
    pub fn start() -> (r: NowPlaying)
        ensures
            r.shown() is None,
    {
        NowPlaying { current: None }
    }

    /// Publishes the text of what the active player reports.
    pub fn publish(&mut self, report: &Option<PlayerReport>)
        ensures
            final(self).shown() == playing_text(*report),
    {
        self.current = now_playing_text(report);
    }

    /// Current "Artist — Title", or `None` if nothing is playing or the player is
    /// not available.
    pub fn current(&self) -> (r: Option<String>)
        ensures
            match self.shown() {
                Some(t) => r matches Some(s) && s@ == t,
                None => r is None,
            },
    {
        match &self.current {
            Some(s) => Some(s.clone()),
            None => None,
        }
    }
}

/// What is shown is never empty.
pub proof fn shown_text_is_not_empty(report: PlayerReport)
    ensures
        report_text(report) matches Some(t) ==> t.len() > 0,
{
}

/// White space around a title makes no difference.
pub proof fn titles_are_trimmed(report: PlayerReport, other: PlayerReport)
    requires
        report.stopped == other.stopped,
        report.artists == other.artists,
        report.title matches Some(t) && other.title matches Some(u) && text::trimmed(t@)
            == text::trimmed(u@),
    ensures
        report_text(report) == report_text(other),
{
}

proof fn lemma_first_nonempty(names: Seq<String>, p: int)
    requires
        0 <= p <= names.len(),
        forall|j: int| 0 <= j < p ==> (#[trigger] names[j])@.len() == 0,
        p < names.len() ==> names[p]@.len() > 0,
    ensures
        p < names.len() ==> first_nonempty(names) == Some(names[p]@),
        p == names.len() ==> first_nonempty(names) is None,
    decreases names.len(),
{
    if p > 0 {
        let rest = names.drop_first();
        assert forall|j: int| 0 <= j < p - 1 implies (#[trigger] rest[j])@.len() == 0 by {
            assert(rest[j] == names[j + 1]);
        }
        assert(names[0]@.len() == 0);
        lemma_first_nonempty(rest, p - 1);
        if p < names.len() {
            assert(rest[p - 1] == names[p]);
        }
    }
}

/// Nothing is shown without a player, for a stopped one, without a title, or for a
/// title of white space alone.
pub proof fn nothing_is_shown_of_nothing(report: &Option<PlayerReport>, r: Option<String>)
    requires
        call_ensures(now_playing_text, (report,), r),
        report matches Some(p) ==> p.stopped || p.title is None || forall|i: int|
            0 <= i < p.title->0@.len() ==> text::is_space(#[trigger] p.title->0@[i]),
    ensures
        r is None,
{
    if report is Some && !report->0.stopped && report->0.title is Some {
        let t = report->0.title->0@;
        let none = Seq::<char>::empty();
        text::lemma_trimmed_core(t, none, none);
        assert(t + none + none =~= t);
    }
}

/// The title of a player that is not stopped is shown, without the white space
/// around it; the first artist that is not empty stands in front, with a dash and
/// one blank on each side of it between them.
pub proof fn a_song_is_shown_by_artist_and_title(
    report: &Option<PlayerReport>,
    p: PlayerReport,
    r: Option<String>,
    before: Seq<char>,
    title: Seq<char>,
    behind: Seq<char>,
    first: int,
)
    requires
        call_ensures(now_playing_text, (report,), r),
        *report == Some(p),
        !p.stopped,
        p.title is Some,
        p.title->0@ == before + title + behind,
        forall|i: int| 0 <= i < before.len() ==> text::is_space(#[trigger] before[i]),
        forall|i: int| 0 <= i < behind.len() ==> text::is_space(#[trigger] behind[i]),
        title.len() > 0,
        !text::is_space(title[0]) && !text::is_space(title.last()),
        p.artists is Some ==> {
            &&& 0 <= first <= p.artists->0@.len()
            &&& forall|j: int| 0 <= j < first ==> (#[trigger] p.artists->0@[j])@.len() == 0
            &&& first < p.artists->0@.len() ==> p.artists->0@[first]@.len() > 0
        },
    ensures
        r is Some,
        p.artists is None ==> r->0@ == title,
        p.artists is Some && first == p.artists->0@.len() ==> r->0@ == title,
        p.artists is Some && first < p.artists->0@.len() ==> r->0@ == p.artists->0@[first]@ + seq![
            ' ',
            '\u{2014}',
            ' ',
        ] + title,
{
    text::lemma_trimmed_core(before, title, behind);
    reveal_strlit(" — ");
    assert(" — "@ =~= seq![' ', '\u{2014}', ' ']);
    if p.artists is Some {
        lemma_first_nonempty(p.artists->0@, first);
    }
}

/// What is read is what was published last, and nothing before that.
pub proof fn what_was_published_is_read(
    board: &mut NowPlaying,
    report: &Option<PlayerReport>,
    text: Option<String>,
    after: &NowPlaying,
    r: Option<String>,
)
    requires
        call_ensures(NowPlaying::publish, (board, report), ()),
        call_ensures(now_playing_text, (report,), text),
        *after == *final(board),
        call_ensures(NowPlaying::current, (after,), r),
    ensures
        r is Some == text is Some,
        r is Some ==> r->0@ == text->0@,
{
}

/// Nothing is read before anything was published.
pub proof fn nothing_is_read_at_first(board: NowPlaying, after: &NowPlaying, r: Option<String>)
    requires
        call_ensures(NowPlaying::start, (), board),
        *after == board,
        call_ensures(NowPlaying::current, (after,), r),
    ensures
        r is None,
{
}

} // verus!
