use trackfish::queue::{
    contains_index, contains_name, sort_descending, PlayRequest, Queue, QueueManager, QueueType, ShuffleMode,
    SkipStep,
};
use trackfish::track::Track;

fn track(title: &str, album: &str, artists: &[&str], genres: &[&str]) -> Track {
    Track {
        file: format!("{title}.mp3"),
        title: title.to_string(),
        album: album.to_string(),
        artists: artists.iter().map(|a| a.to_string()).collect(),
        genre: genres.iter().map(|g| g.to_string()).collect(),
        year: String::new(),
        len: 180,
    }
}

fn library() -> Vec<Track> {
    vec![
        track("One", "First", &["The Beatles"], &["Rock", "Pop"]),
        track("Two", "First", &["Queen"], &["rock", "Jazz"]),
        track("Three", "Second", &["The Beatles", "Queen"], &[""]),
        track("Four", "Second", &["ABBA"], &["Pop"]),
    ]
}

fn strings(v: &[&str]) -> Vec<String> {
    v.iter().map(|s| s.to_string()).collect()
}

fn expect_play(step: SkipStep) -> PlayRequest {
    match step {
        SkipStep::Play(req) => req,
        other => panic!("expected a track to play, got {other:?}"),
    }
}

#[test]
fn new_at_builds_genre_table_and_radio_queue() {
    let m = QueueManager::new_at(library(), 2);
    assert_eq!(m.current_playing, 2);
    assert!(m.playing);
    assert_eq!(m.current_queue, 0);
    assert_eq!(m.queues.len(), 1);
    assert!(matches!(m.queues[0].queue_type, QueueType::AllTracks));
    assert_eq!(m.queues[0].cached_order, vec![2]);
    assert_eq!(m.queues[0].current_track, 0);
    assert_eq!(m.queues[0].shuffle_mode, ShuffleMode::PlaySimilar);
    assert_eq!(m.genres, strings(&["rock", "pop", "jazz", ""]));
    assert!(m.artists.is_empty());
    assert!(m.queue_tracks.is_empty());
    assert_eq!(m.track_info.len(), 4);
    assert_eq!(m.track_info[0].genres, vec![1, 0]);
    assert_eq!(m.track_info[1].genres, vec![2, 0]);
    assert_eq!(m.track_info[2].genres, vec![3]);
    assert_eq!(m.track_info[3].genres, vec![1]);
    for info in &m.track_info {
        assert_eq!(info.artist, 0);
        assert_eq!(info.bpm, 100);
    }
}

#[test]
fn new_starts_at_a_track_of_the_library() {
    for _ in 0..20 {
        let (m, req) = QueueManager::new(library());
        assert!(m.current_playing < 4);
        assert_eq!(m.queues[0].cached_order, vec![m.current_playing]);
        let req = req.expect("a library with tracks starts playing");
        assert_eq!(req.track, m.current_playing);
        assert_eq!(req.listened, None);
        assert_eq!(req.file, m.all_tracks[m.current_playing].file);
    }
    let (empty, none) = QueueManager::new(Vec::new());
    assert!(none.is_none());
    assert_eq!(empty.current_playing, 0);
    assert_eq!(empty.current_track().map(|t| t.title.clone()), None);
}

#[test]
fn radio_queue_asks_for_similar_then_goes_back() {
    let mut m = QueueManager::new_at(library(), 0);
    assert!(matches!(m.skip(), SkipStep::NeedSimilar));
    assert_eq!(m.current_playing, 0);
    assert_eq!(m.queues[0].current_track, 1);

    let req = m.play_similar(3);
    assert_eq!(req.listened, Some(0));
    assert_eq!(req.track, 3);
    assert_eq!(req.file, "Four.mp3");
    assert_eq!(m.queues[0].cached_order, vec![0, 3]);
    assert_eq!(m.current_playing, 3);

    let back = m.skipback(true).expect("moves back");
    assert_eq!(back.track, 0);
    assert_eq!(back.listened, Some(3));
    assert_eq!(m.queues[0].current_track, 0);
    assert_eq!(m.current_playing, 0);

    assert!(m.skipback(true).is_none());
    assert_eq!(m.current_playing, 0);

    let again = m.skipback(false).expect("restarts the track");
    assert_eq!(again.track, 0);
    assert_eq!(m.queues[0].current_track, 0);
}

#[test]
fn skip_then_skipback_returns_to_the_same_track() {
    let mut m = QueueManager::new_at(library(), 0);
    m.add_album_queue("First".to_string());
    let first = m.set_queue_and_track(1, 0);
    assert_eq!(first.track, 0);
    let before = m.queues[1].current_track;
    let forward = expect_play(m.skip());
    assert_eq!(forward.track, 1);
    let back = m.skipback(true).expect("moves back");
    assert_eq!(back.track, 0);
    assert_eq!(m.current_playing, 0);
    assert_eq!(m.queues[1].current_track, before);
}

#[test]
fn ordered_queue_hands_over_to_the_next_queue() {
    let mut m = QueueManager::new_at(library(), 0);
    m.add_album_queue("Second".to_string());
    m.add_artist_queue("Queen".to_string());
    assert_eq!(m.queues[1].cached_order, vec![2, 3]);
    assert_eq!(m.queues[2].cached_order, vec![1, 2]);

    let req = m.set_queue_and_track(1, 1);
    assert_eq!(req.track, 3);
    assert_eq!(m.current_queue, 1);

    let next = expect_play(m.skip());
    assert_eq!(next.track, 1);
    assert_eq!(next.listened, Some(3));
    assert_eq!(m.current_queue, 2);
    assert_eq!(m.current_playing, 1);

    m.set_queue_and_track(2, 1);
    assert!(matches!(m.skip(), SkipStep::Stay));
    assert_eq!(m.current_playing, 2);
    assert_eq!(m.current_queue, 2);
}

#[test]
fn queues_for_artist_album_and_current_album() {
    let mut m = QueueManager::new_at(library(), 1);
    m.add_artist_queue("The Beatles".to_string());
    assert_eq!(m.current_queue, 1);
    assert!(matches!(&m.queues[1].queue_type, QueueType::Artist(a) if a == "The Beatles"));
    assert_eq!(m.queues[1].cached_order, vec![0, 2]);
    assert_eq!(m.queues[1].shuffle_mode, ShuffleMode::Ordered);

    m.add_artist_queue("the beatles".to_string());
    assert!(m.queues[2].cached_order.is_empty());

    m.add_current_album_queue();
    assert!(matches!(&m.queues[3].queue_type, QueueType::Album(a) if a == "First"));
    assert_eq!(m.queues[3].cached_order, vec![0, 1]);

    m.add_all_queue(3);
    assert_eq!(m.current_queue, 4);
    assert!(matches!(m.queues[4].queue_type, QueueType::AllTracks));
    assert_eq!(m.queues[4].cached_order, vec![3]);
    assert_eq!(m.queues[4].shuffle_mode, ShuffleMode::PlaySimilar);
    assert_eq!(m.current_playing, 1);
}

#[test]
fn get_matching_uses_similar_names() {
    let m = QueueManager::new_at(library(), 0);
    assert_eq!(m.get_matching(QueueType::AllTracks), vec![0, 1, 2, 3]);
    assert_eq!(m.get_matching(QueueType::Artist("the-beatles".to_string())), vec![0, 2]);
    assert_eq!(m.get_matching(QueueType::Album("second".to_string())), vec![2, 3]);
    assert!(m.get_matching(QueueType::Artist("Nobody".to_string())).is_empty());
    assert_eq!(m.get_tracks_where(|t| t.album == "First"), vec![0, 1]);
}

#[test]
fn shuffle_queue_follows_the_shuffle_mode() {
    let mut m = QueueManager::new_at(library(), 0);
    m.shuffle_queue();
    assert!(m.queues[0].cached_order.is_empty());

    m.add_artist_queue("Queen".to_string());
    m.shuffle_queue();
    assert_eq!(m.queues[1].cached_order, vec![1, 2]);

    {
        let q = m.mut_queue();
        q.shuffle_mode = ShuffleMode::Random;
        q.queue_type = QueueType::Artist("QUEEN".to_string());
        q.cached_order = vec![];
    }
    m.shuffle_queue();
    assert_eq!(m.queues[1].cached_order, vec![1, 2]);
    assert_eq!(m.current_queue().cached_order, vec![1, 2]);
}

#[test]
fn genre_and_artist_lookup() {
    let mut m = QueueManager::new_at(library(), 0);
    assert_eq!(m.genre_index("ROCK"), 0);
    assert_eq!(m.genre_index("Metal"), 4);
    assert_eq!(m.genres.len(), 5);
    assert_eq!(m.genres[4], "metal");
    assert_eq!(m.genre_index("metal!"), 4);

    // A new artist is added and the table's new length comes back.
    assert_eq!(m.artist_index("The Beatles"), 1);
    assert_eq!(m.artists, strings(&["thebeatles"]));
    assert_eq!(m.artist_index("the beatles"), 0);
    assert_eq!(m.artist_index("Queen"), 2);
    assert_eq!(m.artists, strings(&["thebeatles", "queen"]));
}

#[test]
fn current_track_accessors() {
    let mut m = QueueManager::new_at(library(), 2);
    assert_eq!(m.current(), 2);
    assert_eq!(m.current_track_title(), Some("Three"));
    assert_eq!(m.current_track_album(), Some("Second"));
    assert_eq!(m.current_track_artist(), Some(&strings(&["The Beatles", "Queen"])));
    assert_eq!(m.current_track_genres(), Some(&strings(&[""])));
    assert_eq!(m.get_track(9).map(|t| t.title.clone()), None);
    assert_eq!(m.next_up().map(|t| t.title), Some("Three".to_string()));

    assert!(m.playing());
    m.toggle_playing();
    assert!(!m.playing());
    m.play();
    assert!(m.playing());

    let req = m.play_track(1);
    assert_eq!(req.listened, Some(2));
    assert_eq!(req.file, "Two.mp3");
    assert_eq!(m.get_queue(0).cached_order, vec![2]);

    let mut empty = QueueManager::new_at(Vec::new(), 5);
    assert_eq!(empty.current_track_title(), None);
    assert!(empty.next_up().is_none());
    let first = QueueManager::new_at(library(), 0);
    empty.all_tracks = first.all_tracks;
    let r = empty.play_track(0);
    assert_eq!(r.listened, None);
}

#[test]
fn queue_constructors_and_positions() {
    let q = Queue::new(QueueType::Genre("rock".to_string()), ShuffleMode::Random, vec![4, 2, 7]);
    assert_eq!(q.current_track, 0);
    assert_eq!(q.current(), 4);
    assert_eq!(q.track(2), 7);
    let p = Queue::new_from_pos(QueueType::AllTracks, ShuffleMode::Ordered, 3);
    assert_eq!(p.current_track, 3);
    assert!(p.cached_order.is_empty());
    let a = Queue::all();
    assert!(a.cached_order.is_empty());
    assert_eq!(a.shuffle_mode, ShuffleMode::PlaySimilar);
    assert_eq!(Queue::all_pos(5).cached_order, vec![5]);
}

#[test]
fn queue_type_labels() {
    assert_eq!(QueueType::AllTracks.label(), "All Tracks");
    assert_eq!(QueueType::Artist("Queen".to_string()).label(), "Queen");
    assert_eq!(QueueType::Genre("rock".to_string()).label(), "rock");
    assert_eq!(
        QueueType::Exclusion(Box::new(QueueType::Album("First".to_string()))).label(),
        "Excluding First"
    );
    let union = QueueType::Union(vec![
        QueueType::Artist("A".to_string()),
        QueueType::Album("B".to_string()),
        QueueType::Exclusion(Box::new(QueueType::AllTracks)),
    ]);
    assert_eq!(union.label(), "ABExcluding All Tracks");
    assert_eq!(QueueType::Union(vec![]).label(), "");
}

#[test]
fn sort_descending_keeps_every_element() {
    assert_eq!(sort_descending(&vec![3, 1, 2, 3]), vec![3, 3, 2, 1]);
    assert_eq!(sort_descending(&vec![]), Vec::<usize>::new());
    assert_eq!(sort_descending(&vec![0, 9]), vec![9, 0]);
}

#[test]
fn contains_name_compares_exactly() {
    let names = strings(&["Queen", "ABBA"]);
    assert!(contains_name(&names, &"ABBA".to_string()));
    assert!(!contains_name(&names, &"abba".to_string()));
    assert!(!contains_name(&Vec::new(), &"x".to_string()));
}

#[test]
fn radio_skips_queued_tracks_and_unknown_genres() {
    let mut m = QueueManager::new_at(library(), 0);
    assert_eq!(m.radio_eligible(), vec![false, true, false, true]);
    m.play_similar(3);
    assert_eq!(m.radio_eligible(), vec![false, true, false, false]);
    assert!(contains_index(&vec![4, 2], 2));
    assert!(!contains_index(&vec![4, 2], 3));
}

#[test]
fn current_entry_is_marked_only_in_the_current_queue() {
    let mut m = QueueManager::new_at(library(), 0);
    m.add_album_queue("Second".to_string());
    m.set_queue_and_track(1, 1);
    assert!(m.is_current_entry(1, 1));
    assert!(!m.is_current_entry(1, 0));
    assert!(!m.is_current_entry(0, 0));
}

#[test]
fn enqueue_appends_to_the_current_queue() {
    let mut m = QueueManager::new_at(library(), 0);
    m.add_album_queue("First".to_string());
    m.enqueue(3);
    assert_eq!(m.queues[1].cached_order, vec![0, 1, 3]);
    assert_eq!(m.queues[0].cached_order, vec![0]);
    assert_eq!(m.current_playing, 0);
}

#[test]
fn genre_table_holds_distinct_stripped_genres() {
    assert!(trackfish::queue::genres_settle_in(&library()));
    assert!(trackfish::queue::genres_settle_in(&Vec::new()));
    assert_genre_table_clean(QueueManager::new_at(library(), 0));
    let mut m = QueueManager::new_at(library(), 0);
    m.genre_index("Hip Hop");
    m.genre_index("hip-hop");
    m.genre_index("JAZZ");
    assert_genre_table_clean(m);
}

fn assert_genre_table_clean(m: QueueManager) {
    for (i, a) in m.genres.iter().enumerate() {
        assert_eq!(&trackfish::track::strip_unnessecary(a), a);
        for b in &m.genres[i + 1..] {
            assert!(!trackfish::track::similar(a, b));
        }
    }
}
