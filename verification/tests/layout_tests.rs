use trackfish::listview::{
    entry_row, first_row, gap_before, grid_columns, grid_row_height, grid_start, queue_position,
    rows_in_view, window_end,
};
use trackfish::ranking::{entries_above, rank_by_count};
use trackfish::view::{track_menu, TrackMenu, View};

#[test]
fn list_window_never_passes_the_end() {
    assert_eq!(rows_in_view(620, 62, 5), 15);
    assert_eq!(rows_in_view(0, 62, 5), 5);
    assert_eq!(window_end(10, 15, 1, 100), 25);
    assert_eq!(window_end(90, 15, 1, 100), 100);
    assert_eq!(window_end(0, 4, 5, 12), 12);
    assert_eq!(window_end(0, 2, 5, 12), 10);
    assert_eq!(first_row(0, 62), 0);
    assert_eq!(first_row(123, 62), 1);
    assert_eq!(first_row(124, 62), 2);
}

#[test]
fn album_grid_layout() {
    assert_eq!(grid_columns(300), 3);
    assert_eq!(grid_columns(1000), 6);
    assert_eq!(grid_row_height(1000, 6), (990 / 6) - 5 + 48);
    assert_eq!(grid_row_height(460, 3), 150 - 5 + 48);
    assert_eq!(grid_start(0, 5), 0);
    assert_eq!(grid_start(1, 5), 0);
    assert_eq!(grid_start(4, 5), 15);
}

#[test]
fn dragging_a_queue_entry() {
    // Dragging entry 5 up over row 2: the gap opens before entry 2.
    assert!(gap_before(5, 2, 2));
    assert!(!gap_before(5, 2, 3));
    // Dragging entry 1 down over row 3: the gap opens before entry 4.
    assert!(gap_before(1, 3, 4));
    assert!(!gap_before(1, 3, 3));
    assert!(!gap_before(2, 2, 2));

    assert_eq!(entry_row(4, None, 0), Some(4));
    assert_eq!(entry_row(4, Some(4), 9), None);
    assert_eq!(entry_row(2, Some(0), 3), Some(1));
    assert_eq!(entry_row(0, Some(3), 3), Some(0));
    assert_eq!(entry_row(5, Some(0), 3), Some(5));
}

#[test]
fn queue_position_counts_from_one() {
    assert_eq!(queue_position(0, 12), "Track: 1/12");
    assert_eq!(queue_position(9, 10), "Track: 10/10");
    assert_eq!(queue_position(0, 0), "Track: 1/0");
}

#[test]
fn ranking_is_stable_and_largest_first() {
    let items = vec![
        ("a".to_string(), 2),
        ("b".to_string(), 5),
        ("c".to_string(), 2),
        ("d".to_string(), 7),
        ("e".to_string(), 5),
    ];
    let ranked = rank_by_count(items);
    let names: Vec<&str> = ranked.iter().map(|(n, _)| n.as_str()).collect();
    assert_eq!(names, vec!["d", "b", "e", "a", "c"]);
    assert!(rank_by_count(Vec::<(u8, usize)>::new()).is_empty());
    assert_eq!(entries_above(&ranked, 2), vec![0, 1, 2]);
    assert_eq!(entries_above(&ranked, 1), vec![0, 1, 2, 3, 4]);
}

#[test]
fn track_menu_follows_the_view() {
    assert_eq!(track_menu(View::Queue), TrackMenu::Queue);
    assert_eq!(track_menu(View::Playlists), TrackMenu::Playlists);
    assert_eq!(track_menu(View::Song), TrackMenu::Explorer);
    assert_eq!(track_menu(View::Albums), TrackMenu::Explorer);
}
