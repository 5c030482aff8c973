use std::sync::mpsc::channel;

use trackfish::artwork::{parse_usize, track_image_id, track_image_path};
use trackfish::control::{ControlAction, ControlEvent, ControlState};
use trackfish::input::{key_to_action, Action, KeyPress};
use trackfish::media::{send_media_msg, MediaChannel, MediaMsg};
use trackfish::search::{search_library, search_names, search_tracks};
use trackfish::settings::{SettingsMenu, SettingsView};
use trackfish::timefmt::{decimal_string, display_time, format_whole_seconds};
use trackfish::track::Track;
use trackfish::view::{View, ViewData};

fn titled(title: &str) -> Track {
    Track {
        file: String::new(),
        title: title.to_string(),
        album: String::new(),
        artists: vec![],
        genre: vec![],
        year: String::new(),
        len: 1,
    }
}

#[test]
fn display_time_is_hours_minutes_seconds() {
    assert_eq!(display_time(3661), "1:01:01");
    assert_eq!(display_time(0), "0:00:00");
    assert_eq!(display_time(59), "0:00:59");
    assert_eq!(display_time(36000 + 600 + 10), "10:10:10");
    assert_eq!(decimal_string(1234567), "1234567");
    assert_eq!(decimal_string(0), "0");
}

#[test]
fn whole_seconds_as_minutes() {
    assert_eq!(format_whole_seconds(65), "1:05");
    assert_eq!(format_whole_seconds(0), "0:00");
    assert_eq!(format_whole_seconds(600), "10:00");
    assert_eq!(format_whole_seconds(-65), "-1:-5");
    assert_eq!(format_whole_seconds(-5), "0:-5");
    assert_eq!(format_whole_seconds(-120), "-2:00");
    assert_eq!(format_whole_seconds(i64::MIN), "-153722867280912930:-8");
}

#[test]
fn view_numbers_and_shifts() {
    let all = [
        View::Song,
        View::Queue,
        View::AllTracks,
        View::Albums,
        View::Artists,
        View::Genres,
        View::Playlists,
        View::Search,
        View::Settings,
    ];
    for (n, v) in all.iter().enumerate() {
        assert_eq!(v.to_usize(), n);
        assert_eq!(View::from_usize(n), *v);
        let mut w = *v;
        w.shift_up();
        assert_eq!(w, all[(n + 1) % 9]);
        w.shift_down();
        assert_eq!(w, *v);
        let mut d = *v;
        d.shift_down();
        assert_eq!(d, all[(n + 8) % 9]);
        d.shift_up();
        assert_eq!(d, *v);
    }
    assert_eq!(View::from_usize(7), View::Search);
    assert_eq!(View::from_usize(8), View::Settings);
    assert_eq!(View::from_usize(9), View::Song);
    assert_eq!(View::from_usize(100), View::Song);
}

#[test]
fn reopening_a_view_clears_its_selection() {
    let mut d = ViewData::new();
    assert_eq!(d.current, View::Song);
    d.artist = Some("Queen".to_string());
    d.album = Some("First".to_string());
    d.open(View::Artists);
    assert_eq!(d.artist.as_deref(), Some("Queen"));
    d.open(View::Artists);
    assert_eq!(d.artist, None);
    assert_eq!(d.album.as_deref(), Some("First"));

    d.playlist = Some(1);
    d.autoplaylist = Some(2);
    d.open(View::Playlists);
    assert_eq!(d.playlist, Some(1));
    d.open(View::Playlists);
    assert_eq!(d.playlist, None);
    assert_eq!(d.autoplaylist, None);
    assert_eq!(d.current, View::Playlists);
}

#[test]
fn search_by_stripped_prefix() {
    let tracks = vec![titled("Hey Jude"), titled("hey-ya!"), titled("Help"), titled("Jude")];
    assert_eq!(search_library(&tracks, "HEY"), vec![0, 1]);
    assert_eq!(search_library(&tracks, "he"), vec![0, 1, 2]);
    assert_eq!(search_library(&tracks, "  !! "), Vec::<usize>::new());
    assert_eq!(search_library(&tracks, "jude"), vec![3]);
    assert_eq!(search_tracks(&vec![2, 1], &tracks, "he"), vec![2, 1]);
    let names = vec!["The Beatles".to_string(), "Queen".to_string(), "the band".to_string()];
    assert_eq!(search_names(&names, "the b"), vec!["The Beatles".to_string(), "the band".to_string()]);
    assert_eq!(search_names(&names, ""), Vec::<String>::new());
}

#[test]
fn artwork_paths_name_tracks() {
    assert_eq!(track_image_id("/trackimage/5"), Some(5));
    assert_eq!(track_image_id("/trackimage/+7"), Some(7));
    assert_eq!(track_image_id("/trackimage/-1"), None);
    assert_eq!(track_image_id("/trackimage/"), None);
    assert_eq!(track_image_id("/trackimage/12x"), None);
    assert_eq!(track_image_id("42"), Some(42));
    assert_eq!(parse_usize("007"), Some(7));
    assert_eq!(parse_usize("+"), None);
    assert_eq!(parse_usize("18446744073709551615"), Some(usize::MAX));
    assert_eq!(parse_usize("18446744073709551616"), None);
}

#[test]
fn keys_map_to_actions() {
    assert_eq!(key_to_action(&KeyPress::Character("l".to_string())), Some(Action::Skip));
    assert_eq!(key_to_action(&KeyPress::Character("h".to_string())), Some(Action::SkipPrevious));
    assert_eq!(key_to_action(&KeyPress::Character(" ".to_string())), Some(Action::PauseToggle));
    assert_eq!(key_to_action(&KeyPress::Character("L".to_string())), None);
    assert_eq!(key_to_action(&KeyPress::Other), None);
}

#[test]
fn settings_headings() {
    assert_eq!(SettingsMenu::Radio.label(), "Radio Settings");
    assert_eq!(SettingsMenu::Audio.label(), "Audio Settings");
    assert_eq!(SettingsMenu::Library.label(), "Track Library");
    assert_eq!(SettingsMenu::Ui.label(), "Ui Settings");
}

#[test]
fn media_messages_go_through_an_open_channel() {
    let mut none: Option<MediaChannel> = None;
    assert!(!send_media_msg(&mut none, MediaMsg::Play));
    assert!(none.is_none());
    let (tx, rx) = channel();
    let mut open = Some(MediaChannel::new(tx));
    assert!(send_media_msg(&mut open, MediaMsg::SeekTo(30)));
    assert!(send_media_msg(&mut open, MediaMsg::Next));
    assert_eq!(rx.recv().unwrap(), MediaMsg::SeekTo(30));
    assert_eq!(rx.recv().unwrap(), MediaMsg::Next);
    assert!(rx.try_recv().is_err());
    drop(rx);
    assert!(!send_media_msg(&mut open, MediaMsg::Pause));
    assert!(open.is_some());
}

#[test]
fn playback_loop_skips_an_ended_track_once() {
    let mut s = ControlState::new();
    assert!(!s.track_playing);
    assert_eq!(s.step(ControlEvent::Tick { track_ended: true }), ControlAction::Nothing);
    assert_eq!(s.step(ControlEvent::TrackStarted), ControlAction::Nothing);
    assert!(s.track_playing);
    assert_eq!(s.step(ControlEvent::Tick { track_ended: false }), ControlAction::Nothing);
    assert_eq!(s.step(ControlEvent::Tick { track_ended: true }), ControlAction::Skip);
    assert!(!s.track_playing);
    assert_eq!(s.step(ControlEvent::Tick { track_ended: true }), ControlAction::Nothing);
    assert_eq!(s.step(ControlEvent::Media(MediaMsg::Next)), ControlAction::Skip);
    assert_eq!(s.step(ControlEvent::Media(MediaMsg::Previous)), ControlAction::Skipback);
    assert_eq!(s.step(ControlEvent::Media(MediaMsg::Play)), ControlAction::Play);
    assert_eq!(s.step(ControlEvent::Media(MediaMsg::Pause)), ControlAction::Pause);
    assert_eq!(s.step(ControlEvent::Media(MediaMsg::SeekTo(1500))), ControlAction::SeekMillis(1500));
    assert_eq!(s.step(ControlEvent::Closed), ControlAction::Stop);
}

#[test]
fn settings_view_folds_its_list_on_choice() {
    let mut v = SettingsView::new();
    assert_eq!(v.menu, SettingsMenu::Audio);
    assert!(!v.list_open);
    v.toggle_list();
    assert!(v.list_open);
    v.set_menu(SettingsMenu::Radio);
    assert_eq!(v.menu, SettingsMenu::Radio);
    assert!(!v.list_open);
    v.toggle_list();
    v.toggle_list();
    assert!(!v.list_open);
    assert_eq!(v.menu, SettingsMenu::Radio);
}

#[test]
fn every_name_is_found_by_itself() {
    let names = vec!["The Beatles".to_string(), "AC/DC".to_string(), "ac-dc live".to_string()];
    for n in &names {
        assert!(search_names(&names, n).contains(n));
    }
    assert_eq!(search_names(&names, "AC/DC"), vec!["AC/DC".to_string(), "ac-dc live".to_string()]);
}

#[test]
fn artwork_paths_read_back_to_their_track() {
    assert_eq!(track_image_path(42), "/trackimage/42");
    for n in [0u64, 7, 10, 12345, u64::MAX] {
        assert_eq!(track_image_id(&track_image_path(n)), Some(n as usize));
    }
}
