use trackfish::library::{
    bad_genre, bad_genres, load_edits, remove_topic_edits, remove_unneeded_brackets_edits,
    split_artists_complete, split_artists_edits, split_by_comma, split_title_artist_edits,
    tag_gaps, BulkEditorTool,
};
use trackfish::library::{cut_release_notes, names_tyler, add_artist, add_genre, genre_entered, remove_artist, remove_genre, split_first_artist};
use trackfish::track::Track;

fn strings(v: &[&str]) -> Vec<String> {
    v.iter().map(|s| s.to_string()).collect()
}

fn track(title: &str, album: &str, artists: &[&str], genres: &[&str]) -> Track {
    Track {
        file: format!("{title}.mp3"),
        title: title.to_string(),
        album: album.to_string(),
        artists: strings(artists),
        genre: strings(genres),
        year: "1999".to_string(),
        len: 200,
    }
}

#[test]
fn split_artists_complete_splits_and_dedups() {
    assert_eq!(
        split_artists_complete(strings(&["A, B & C feat. D"])),
        strings(&["A", "B", "C", "D"])
    );
    assert_eq!(split_artists_complete(strings(&["A & B", "B", "A ft. E"])), strings(&["A", "B", "E"]));
    assert_eq!(split_artists_complete(strings(&["Solo"])), strings(&["Solo"]));
    assert_eq!(split_artists_complete(strings(&["X,,Y"])), strings(&["X", "", "Y"]));
    assert_eq!(split_artists_complete(Vec::new()), Vec::<String>::new());
}

#[test]
fn split_artists_never_repeats_or_keeps_separators() {
    let inputs = [
        strings(&["A, A, A"]),
        strings(&["Earth, Wind & Fire", "Fire"]),
        strings(&["x feat. y ft. z", "y"]),
    ];
    for input in inputs {
        let out = split_artists_complete(input);
        for (i, a) in out.iter().enumerate() {
            assert!(!a.contains(',') && !a.contains('&'));
            for b in &out[i + 1..] {
                assert_ne!(a, b);
            }
        }
    }
}

#[test]
fn remove_topic_edits_pick_topic_artists() {
    let tracks = vec![
        track("a", "x", &["Queen - Topic"], &["Rock"]),
        track("b", "x", &["Queen"], &["Rock"]),
        track("c", "x", &["Other", "X- Topic"], &["Rock"]),
    ];
    let edits = remove_topic_edits(&tracks);
    assert_eq!(edits.len(), 2);
    assert_eq!(edits[0].0, 0);
    assert_eq!(edits[0].1.artists, strings(&["Queen - Topic"]));
    assert_eq!(edits[0].2.artists, strings(&["Queen"]));
    assert_eq!(edits[0].2.title, "a");
    assert_eq!(edits[1].0, 2);
    assert_eq!(edits[1].2.artists, strings(&["Other", "X- Topic"]));
}

#[test]
fn split_artists_edits_skip_tyler_and_single_artists() {
    let tracks = vec![
        track("a", "x", &["Tyler, The Creator"], &[]),
        track("b", "x", &["A, B"], &[]),
        track("c", "x", &["Solo"], &[]),
        track("d", "x", &["Earth, Wind & Fire"], &[]),
        track("e", "x", &["P feat. Q"], &[]),
    ];
    let edits = split_artists_edits(&tracks);
    let picked: Vec<usize> = edits.iter().map(|e| e.0).collect();
    assert_eq!(picked, vec![1, 3, 4]);
    assert_eq!(edits[0].2.artists, strings(&["A", "B"]));
    assert_eq!(edits[1].2.artists, strings(&["Earth", "Wind", "Fire"]));
    assert_eq!(edits[2].2.artists, strings(&["P", "Q"]));
    assert_eq!(edits[2].1.artists, strings(&["P feat. Q"]));
}

#[test]
fn split_title_artist_edits_take_the_first_two_pieces() {
    let tracks = vec![
        track("Artist - Song", "x", &["Old"], &[]),
        track("Plain", "x", &["Old"], &[]),
        track("A - B - C", "x", &["Old"], &[]),
    ];
    let edits = split_title_artist_edits(&tracks);
    assert_eq!(edits.len(), 2);
    assert_eq!(edits[0].0, 0);
    assert_eq!(edits[0].2.title, "Song");
    assert_eq!(edits[0].2.artists, strings(&["Artist"]));
    assert_eq!(edits[1].0, 2);
    assert_eq!(edits[1].2.title, "B");
    assert_eq!(edits[1].2.artists, strings(&["A"]));
    assert_eq!(edits[1].2.album, "x");
}

#[test]
fn remove_unneeded_brackets_takes_out_release_notes() {
    let tracks = vec![
        track("Song (Official Audio)", "x", &["A"], &[]),
        track("Song (Live)", "x", &["A"], &[]),
        track("Tune [AUDIO] (extra)", "x", &["A"], &[]),
        track(" OFFICIAL thing ", "x", &["A"], &[]),
        track("Audio Love (Live)", "x", &["A"], &[]),
        track("A (Official) B [audio] C", "x", &["A"], &[]),
        track("Open (official", "x", &["A"], &[]),
        track("X (Official Video]", "x", &["A"], &[]),
    ];
    let edits = remove_unneeded_brackets_edits(&tracks);
    let picked: Vec<usize> = edits.iter().map(|e| e.0).collect();
    assert_eq!(picked, vec![0, 2, 5]);
    assert_eq!(edits[0].2.title, "Song");
    assert_eq!(edits[1].2.title, "Tune  (extra)");
    assert_eq!(edits[2].2.title, "A  B  C");
    assert_eq!(edits[2].2.artists, strings(&["A"]));
    assert_eq!(cut_release_notes("a (b) [Audio]"), ("a (b) ".to_string(), true));
    assert_eq!(cut_release_notes("no notes"), ("no notes".to_string(), false));
}

#[test]
fn load_edits_dispatches_on_the_tool() {
    let tracks = vec![
        track("Artist - Song (Official Video)", "x", &["Q - Topic", "A & B"], &[]),
    ];
    assert_eq!(load_edits(BulkEditorTool::RemoveTopic, &tracks)[0].2.artists, strings(&["Q", "A & B"]));
    assert_eq!(load_edits(BulkEditorTool::SplitArtists, &tracks)[0].2.artists, strings(&["Q - Topic", "A", "B"]));
    assert_eq!(load_edits(BulkEditorTool::SplitTitleArtist, &tracks)[0].2.title, "Song (Official Video)");
    assert_eq!(load_edits(BulkEditorTool::RemoveUnneededBrackets, &tracks)[0].2.title, "Artist - Song");
    assert!(load_edits(BulkEditorTool::RemoveTopic, &Vec::new()).is_empty());
}

#[test]
fn bad_genre_names() {
    for g in ["Trance", "Electronic", "Jazz", "Pop", "Ambient", "Rnb"] {
        assert!(bad_genre(g));
    }
    assert!(!bad_genre("pop"));
    assert!(!bad_genre("Rock"));
    assert!(!bad_genre(""));
}

#[test]
fn bad_genres_needs_two_broad_genres() {
    assert!(bad_genres(&track("a", "x", &[], &["Pop", "Rock", "Jazz"])));
    assert!(!bad_genres(&track("a", "x", &[], &["Pop", "Rock"])));
    assert!(!bad_genres(&track("a", "x", &[], &[])));
}

#[test]
fn tag_gaps_finds_missing_tags() {
    let tracks = vec![
        track("a", "", &[], &["Rock"]),
        track("b", "MUSIC", &[], &[]),
        track("c", "Real", &[], &[""]),
        track("d", "Music Box", &[], &["Pop", "Trance"]),
    ];
    let gaps = tag_gaps(&tracks);
    assert_eq!(gaps.no_album, vec![0, 1]);
    assert_eq!(gaps.no_genres, vec![1, 2]);
    assert_eq!(gaps.bad_genres, vec![3]);
}

#[test]
fn split_by_comma_turns_feat_into_a_separator() {
    assert_eq!(split_by_comma("A feat. B, C & D"), strings(&["A", "B", "C", "D"]));
    assert_eq!(split_by_comma("A,,B"), strings(&["A", "", "B"]));
    assert_eq!(split_by_comma(""), strings(&[""]));
    assert_eq!(split_by_comma("A & A"), strings(&["A", "A"]));
}

#[test]
fn tag_editor_edits() {
    let mut t = track("Song", "Album", &["A feat. B & C", "D"], &["Rock"]);
    split_first_artist(&mut t);
    assert_eq!(t.artists, strings(&["A", "B", "C"]));
    assert_eq!(t.title, "Song");
    remove_artist(&mut t, 1);
    assert_eq!(t.artists, strings(&["A", "C"]));
    add_artist(&mut t);
    assert_eq!(t.artists, strings(&["A", "C", ""]));

    assert_eq!(genre_entered(&mut t, 0), 1);
    assert_eq!(t.genre, strings(&["Rock", ""]));
    assert_eq!(genre_entered(&mut t, 0), 1);
    assert_eq!(t.genre, strings(&["Rock", ""]));
    add_genre(&mut t);
    assert_eq!(t.genre, strings(&["Rock", "", ""]));
    remove_genre(&mut t, 0);
    assert_eq!(t.genre, strings(&["", ""]));
    assert_eq!(t.album, "Album");
}

#[test]
fn tyler_is_recognised_after_lower_casing() {
    assert!(names_tyler("tyler, the creator"));
    assert!(names_tyler("feat. tyler, the creator & co"));
    assert!(!names_tyler("Tyler, The Creator"));
    assert!(!names_tyler("tyler the creator"));
}

#[test]
fn split_artists_settles_after_one_pass() {
    let mut tracks = vec![
        track("a", "x", &["A, B & C feat. D ft. E"], &[]),
        track("b", "x", &["X feat.Y", "Z ft.W"], &[]),
        track("c", "x", &["Solo"], &[]),
    ];
    let edits = split_artists_edits(&tracks);
    assert_eq!(edits.len(), 2);
    for (i, _, changed) in edits {
        tracks[i] = changed;
    }
    assert_eq!(tracks[0].artists, strings(&["A", "B", "C", "D", "E"]));
    assert_eq!(tracks[1].artists, strings(&["X", "Y", "Z", "W"]));
    assert!(split_artists_edits(&tracks).is_empty());
}

#[test]
fn title_split_settles_after_one_pass() {
    let mut tracks = vec![track("A - B - C", "x", &["Old"], &[]), track("Plain", "x", &["Old"], &[])];
    for (i, _, changed) in split_title_artist_edits(&tracks) {
        tracks[i] = changed;
    }
    assert_eq!(tracks[0].title, "B");
    assert!(split_title_artist_edits(&tracks).is_empty());
}

#[test]
fn split_artists_complete_is_idempotent() {
    let inputs = [
        strings(&["A, B & C feat. D ft. E", "B"]),
        strings(&[" x ,,y", "z feat.w"]),
        strings(&["Solo"]),
        Vec::new(),
    ];
    for input in inputs {
        let once = split_artists_complete(input);
        for name in &once {
            assert_eq!(name.trim(), name);
            assert!(!name.contains("feat.") && !name.contains("ft."));
        }
        assert_eq!(split_artists_complete(once.clone()), once);
    }
}

#[test]
fn tag_fetch_order() {
    let mut no_album = vec![4, 9];
    let mut restarted = false;
    assert_eq!(trackfish::library::next_fetch(&mut no_album, &mut restarted, 0), 9);
    assert_eq!(trackfish::library::next_fetch(&mut no_album, &mut restarted, 9), 4);
    assert!(no_album.is_empty());
    assert!(!restarted);
    assert_eq!(trackfish::library::next_fetch(&mut no_album, &mut restarted, 4), 0);
    assert!(restarted);
    assert_eq!(trackfish::library::next_fetch(&mut no_album, &mut restarted, 0), 1);
    assert_eq!(trackfish::library::next_fetch(&mut no_album, &mut restarted, 7), 8);
    assert!(!trackfish::library::fetch_cache_full(10));
    assert!(trackfish::library::fetch_cache_full(11));
}
