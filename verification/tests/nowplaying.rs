use visualizer::nowplaying::{now_playing_text, NowPlaying, PlayerReport};

fn report(title: Option<&str>, artists: Option<&[&str]>) -> PlayerReport {
    PlayerReport {
        stopped: false,
        title: title.map(|t| t.to_string()),
        artists: artists.map(|a| a.iter().map(|s| s.to_string()).collect()),
    }
}

#[test]
fn artist_and_title() {
    let r = report(Some(" Song\t"), Some(&["", "Band", "Other"]));
    assert_eq!(now_playing_text(&Some(r)).unwrap(), "Band — Song");
}

#[test]
fn title_alone() {
    assert_eq!(now_playing_text(&Some(report(Some("Song"), None))).unwrap(), "Song");
    assert_eq!(now_playing_text(&Some(report(Some("Song"), Some(&[])))).unwrap(), "Song");
    assert_eq!(now_playing_text(&Some(report(Some("Song"), Some(&["", ""])))).unwrap(), "Song");
    assert_eq!(now_playing_text(&Some(report(Some("S"), Some(&[" "])))).unwrap(), "  — S");
}

#[test]
fn nothing_to_show() {
    assert!(now_playing_text(&None).is_none());
    assert!(now_playing_text(&Some(report(None, Some(&["Band"])))).is_none());
    assert!(now_playing_text(&Some(report(Some(" \n"), Some(&["Band"])))).is_none());
    let mut r = report(Some("Song"), None);
    r.stopped = true;
    assert!(now_playing_text(&Some(r)).is_none());
}

#[test]
fn text_is_published() {
    let mut n = NowPlaying::start();
    assert!(n.current().is_none());
    n.publish(&Some(report(Some("Song"), Some(&["Band"]))));
    assert_eq!(n.current(), Some("Band — Song".to_string()));
    n.publish(&None);
    assert_eq!(n.current(), None);
}
