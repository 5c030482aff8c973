use trackfish::queue::QueueType;
use trackfish::track::{
    get_artists, load_track, similar, strip_unnessecary, ExtendedText, TagData, Track,
};

fn track(title: &str, album: &str, artists: &[&str]) -> Track {
    Track {
        file: format!("{title}.mp3"),
        title: title.to_string(),
        album: album.to_string(),
        artists: artists.iter().map(|a| a.to_string()).collect(),
        genre: vec![String::new()],
        year: String::new(),
        len: 1,
    }
}

#[test]
fn strip_removes_blanks_and_punctuation_and_lowercases() {
    assert_eq!(strip_unnessecary("The Beatles!"), "thebeatles");
    assert_eq!(strip_unnessecary("  A-ha "), "aha");
    assert_eq!(strip_unnessecary("Hip\tHop\u{3000}"), "hiphop");
    assert_eq!(strip_unnessecary(""), "");
    assert_eq!(strip_unnessecary("ÉCLAIR"), "éclair");
}

#[test]
fn similar_ignores_case_blanks_and_punctuation() {
    assert!(similar("Hip Hop", "hip-hop"));
    assert!(similar("AC/DC", "acdc"));
    assert!(!similar("Rock", "Pop"));
}

#[test]
fn similar_is_reflexive_symmetric_transitive() {
    let names = ["R&B", "rb", "R B", "Soul"];
    for a in names {
        assert!(similar(a, a));
        for b in names {
            assert_eq!(similar(a, b), similar(b, a));
            for c in names {
                if similar(a, b) && similar(b, c) {
                    assert!(similar(a, c));
                }
            }
        }
    }
}

#[test]
fn default_track_is_placeholder() {
    let t = Track::default();
    assert_eq!(t.title, "No Track Selected");
    assert_eq!(t.file, "");
    assert_eq!(t.album, "");
    assert!(t.artists.is_empty());
    assert!(t.genre.is_empty());
    assert_eq!(t.len, 100);
}

#[test]
fn matches_by_queue_type() {
    let t = track("Song", "Abbey Road", &["The Beatles", "Billy Preston"]);
    assert!(t.matches(QueueType::AllTracks));
    assert!(t.matches(QueueType::Artist("the beatles".to_string())));
    assert!(!t.matches(QueueType::Artist("Queen".to_string())));
    assert!(t.matches(QueueType::Album("abbey-road".to_string())));
    assert!(!t.matches(QueueType::Album("Help".to_string())));
}

#[test]
fn clone_keeps_every_field() {
    let t = track("Song", "Album", &["A", "B"]);
    let c = t.clone();
    assert_eq!(c.title, t.title);
    assert_eq!(c.artists, t.artists);
    assert_eq!(c.file, t.file);
}

fn tag(texts: Vec<(&str, &str)>) -> TagData {
    TagData {
        title: Some("Title".to_string()),
        artist: Some("Main".to_string()),
        album: None,
        genre: Some("Rock\0Pop".to_string()),
        duration: None,
        date: Some("2001".to_string()),
        extended_texts: texts
            .into_iter()
            .map(|(d, v)| ExtendedText { description: d.to_string(), value: v.to_string() })
            .collect(),
    }
}

#[test]
fn get_artists_reads_first_artists_frame() {
    let t = tag(vec![("OTHER", "x"), ("ARTISTS", "A\0\0B"), ("ARTISTS", "C")]);
    assert_eq!(get_artists(&t), Some(vec!["A".to_string(), "B".to_string()]));
    let none = tag(vec![("OTHER", "x")]);
    assert_eq!(get_artists(&none), None);
}

#[test]
fn load_track_fills_defaults() {
    let t = load_track("f.mp3".to_string(), &tag(vec![]));
    assert_eq!(t.file, "f.mp3");
    assert_eq!(t.title, "Title");
    assert_eq!(t.artists, vec!["Main".to_string()]);
    assert_eq!(t.album, "");
    assert_eq!(t.genre, vec!["Rock".to_string(), "Pop".to_string()]);
    assert_eq!(t.year, "2001");
    assert_eq!(t.len, 1);

    let with_frame = load_track("g.mp3".to_string(), &tag(vec![("ARTISTS", "X\0Y")]));
    assert_eq!(with_frame.artists, vec!["X".to_string(), "Y".to_string()]);

    let empty = TagData {
        title: None,
        artist: None,
        album: None,
        genre: None,
        duration: Some(215),
        date: None,
        extended_texts: vec![],
    };
    let e = load_track("h.mp3".to_string(), &empty);
    assert_eq!(e.title, "");
    assert_eq!(e.artists, vec![String::new()]);
    assert_eq!(e.genre, vec![String::new()]);
    assert_eq!(e.len, 215);
}

#[test]
fn stripping_drops_exactly_white_space_and_ascii_punctuation() {
    for n in 0u32..0x3100 {
        if let Some(c) = char::from_u32(n) {
            let dropped = strip_unnessecary(&c.to_string()).is_empty();
            assert_eq!(dropped, c.is_whitespace() || c.is_ascii_punctuation(), "char {n:#x}");
        }
    }
}
