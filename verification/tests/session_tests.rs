use indexmap::IndexMap;
use trackerdl::download::{AttemptStep, DownloadState, DownloadTrack};
use trackerdl::session::{
    batch_done_status, loaded_status, session_done_status, App, BatchNext, Key, KeyAction,
};
use trackerdl::tracker::{included_track_total, EraItem, Era, Track, TrackerResponse};

const ID: &str = "1safK4FsrrdxRL5PEF_s-GibgVvyOlTpzx73Mbv-gFFw";

fn era(key: &str, count: usize) -> EraItem {
    EraItem {
        key: key.to_string(),
        name: key.to_uppercase(),
        track_count: count,
        selected: false,
        order: 0,
        categories: vec![],
    }
}

fn app_with(n: usize) -> App {
    let mut app = App::new(ID, true).unwrap();
    app.eras = (0..n).map(|i| era(&format!("e{}", i), i + 1)).collect();
    app
}

#[test]
fn a_session_starts_on_the_first_era() {
    let app = App::new(&format!(" {} ", ID), false).unwrap();
    assert_eq!(app.tracker_id, ID);
    assert_eq!(app.selected, Some(0));
    assert!(app.eras.is_empty());
    assert!(App::new("bad", false).is_err());
}

#[test]
fn selection_toggles_and_counts() {
    let mut app = app_with(3);
    app.toggle_selection();
    assert!(app.eras[0].selected);
    assert_eq!(app.selected_count(), 1);
    assert_eq!(app.selected_track_count(), 1);
    app.toggle_selection();
    assert!(!app.eras[0].selected);
    app.select_all();
    assert_eq!(app.selected_count(), 3);
    assert_eq!(app.selected_track_count(), 6);
    assert_eq!(app.selected_keys(), vec!["e0", "e1", "e2"]);
    app.deselect_all();
    assert_eq!(app.selected_count(), 0);
    assert!(app.selected_keys().is_empty());
    // a cursor past the list toggles nothing
    app.selected = Some(7);
    app.toggle_selection();
    assert_eq!(app.selected_count(), 0);
}

#[test]
fn navigation_keys_move_the_cursor() {
    let mut app = app_with(25);
    assert_eq!(app.handle_key(Key::Up), KeyAction::Nothing);
    assert_eq!(app.selected, Some(0));
    app.handle_key(Key::Down);
    app.handle_key(Key::Char('j'));
    assert_eq!(app.selected, Some(2));
    app.handle_key(Key::Char('k'));
    assert_eq!(app.selected, Some(1));
    app.handle_key(Key::PageDown);
    assert_eq!(app.selected, Some(11));
    app.handle_key(Key::PageDown);
    app.handle_key(Key::PageDown);
    assert_eq!(app.selected, Some(24));
    app.handle_key(Key::Down);
    assert_eq!(app.selected, Some(24));
    app.handle_key(Key::PageUp);
    assert_eq!(app.selected, Some(14));
    app.handle_key(Key::Home);
    assert_eq!(app.selected, Some(0));
    app.handle_key(Key::End);
    assert_eq!(app.selected, Some(24));
    let mut empty = app_with(0);
    empty.handle_key(Key::End);
    assert_eq!(empty.selected, Some(0));
    empty.handle_key(Key::PageDown);
    assert_eq!(empty.selected, Some(0));
}

#[test]
fn keys_select_and_act() {
    let mut app = app_with(2);
    app.handle_key(Key::Char(' '));
    assert!(app.eras[0].selected);
    app.handle_key(Key::Char('a'));
    assert_eq!(app.selected_count(), 2);
    app.handle_key(Key::Char('n'));
    assert_eq!(app.selected_count(), 0);
    app.handle_key(Key::Char('d'));
    assert!(app.show_details);
    assert_eq!(app.handle_key(Key::Char('r')), KeyAction::Reload);
    assert_eq!(app.status, "Reloading tracker...");
    assert_eq!(app.handle_key(Key::Enter), KeyAction::StartDownload);
    assert!(app.downloading);
    // while downloading only quitting works
    assert_eq!(app.handle_key(Key::Char('a')), KeyAction::Nothing);
    assert_eq!(app.selected_count(), 0);
    assert_eq!(app.handle_key(Key::Esc), KeyAction::Quit);
    assert!(app.should_quit);
}

#[test]
fn help_screen_swallows_keys() {
    let mut app = app_with(2);
    assert_eq!(app.handle_key(Key::Char('?')), KeyAction::Nothing);
    assert!(app.show_help);
    assert_eq!(app.handle_key(Key::Down), KeyAction::Nothing);
    assert_eq!(app.selected, Some(0));
    assert_eq!(app.handle_key(Key::Char('q')), KeyAction::Nothing);
    assert!(!app.show_help);
    assert!(!app.should_quit);
    assert_eq!(app.handle_key(Key::Char('q')), KeyAction::Quit);
}

#[test]
fn log_keeps_the_last_hundred_lines() {
    let mut app = app_with(0);
    for i in 0..150u64 {
        app.log(format!("line {}", i), i);
    }
    assert_eq!(app.log_messages.len(), 100);
    assert_eq!(app.log_messages[0].1, "line 50");
    let mut quiet = App::new(ID, false).unwrap();
    quiet.log("x".to_string(), 0);
    assert!(quiet.log_messages.is_empty());
}

fn tracker() -> TrackerResponse {
    let mut cats: IndexMap<String, Vec<Track>> = IndexMap::new();
    cats.insert(
        "Main".to_string(),
        vec![Track {
            name: "One".to_string(),
            quality: None,
            url: Some("https://pixeldrain.com/u/X".to_string()),
            available_length: None,
        }],
    );
    let mut eras: IndexMap<String, Era> = IndexMap::new();
    eras.insert("a".to_string(), Era { name: "Alpha".to_string(), data: Some(cats) });
    TrackerResponse { name: None, tabs: vec![], current_tab: "Main".to_string(), eras }
}

#[test]
fn loading_a_tracker_fills_the_list_and_status() {
    let mut app = app_with(0);
    app.begin_load();
    assert_eq!(app.status, "Loading tracker...");
    app.apply_tracker(tracker(), None);
    assert_eq!(app.eras.len(), 1);
    assert_eq!(app.status, "Loaded 1 eras, 1 tracks (1 with URLs)");
    app.handle_key(Key::Char('s'));
    assert_eq!(app.status, "Stats: 1 eras, 1 tracks, 1 with URLs | Hosts: pixeldrain");
    app.reload_failed("timeout");
    assert_eq!(app.status, "Reload failed: timeout");
    assert_eq!(loaded_status(2, 30, 25), "Loaded 2 eras, 30 tracks (25 with URLs)");
}

#[test]
fn tracker_link_includes_the_tab() {
    let app = app_with(0);
    assert_eq!(app.tracker_url(None), format!("https://tracker.israeli.ovh/get/{}", ID));
    assert_eq!(
        app.tracker_url(Some("Studio Albums")),
        format!("https://tracker.israeli.ovh/get/{}?tab=Studio Albums", ID)
    );
}

#[test]
fn starting_a_download_needs_a_selection() {
    let mut app = app_with(2);
    assert!(app.start_download().is_none());
    assert_eq!(app.status, "Nothing selected");
    app.handle_key(Key::Down);
    app.toggle_selection();
    let keys = app.start_download().unwrap();
    assert_eq!(keys, vec!["e1"]);
    assert!(app.downloading);
    assert_eq!(app.status, "Resolving track URLs...");
    assert_eq!(app.after_resolution(0, false), BatchNext::Stop);
    assert_eq!(app.status, "No playable tracks found");
    assert!(!app.downloading);
    assert_eq!(app.after_resolution(3, true), BatchNext::DryRun);
    assert_eq!(app.status, "Dry run: would download 3 tracks");
    assert_eq!(app.after_resolution(3, false), BatchNext::Proceed);
    assert_eq!(app.status, "Downloading 3 tracks...");
}

#[test]
fn closing_lines_report_results() {
    let tracks = vec![DownloadTrack {
        id: 0,
        name: "a".to_string(),
        era_name: "e".to_string(),
        original_url: "u".to_string(),
        playable_url: "u".to_string(),
        host: "h".to_string(),
    }];
    let mut s = DownloadState::begin(&tracks, 0);
    s.record_chunk(0, 2048, 2048, 1);
    s.record_step(0, AttemptStep::Complete);
    let now = 2_000_000_000;
    assert_eq!(batch_done_status(&s, now), "Done! 1 completed, 0 failed, 0 skipped | 2.0s | 1.00 KB/s");
    assert_eq!(
        session_done_status(&s, now),
        "Done! \u{2713}1 \u{2717}0 \u{2298}0 | 2.00 KB downloaded | 1.00 KB/s | 2s"
    );
    let mut app = app_with(1);
    app.downloading = true;
    app.check_download_done(&s, now);
    assert!(!app.downloading);
    assert_eq!(app.status, session_done_status(&s, now));
    app.finish_batch(&s, now);
    assert_eq!(app.status, batch_done_status(&s, now));
}

#[test]
fn a_tracker_is_taken_in_when_its_tracks_can_be_counted() {
    let mut app = app_with(0);
    assert_eq!(included_track_total(&tracker(), None), Some(1));
    assert_eq!(included_track_total(&tracker(), Some("no such era")), Some(0));
    assert!(app.try_apply_tracker(tracker(), None));
    assert_eq!(app.eras.len(), 1);
    assert_eq!(app.status, "Loaded 1 eras, 1 tracks (1 with URLs)");
}

#[test]
fn loading_keeps_what_was_loaded() {
    let mut app = app_with(0);
    app.apply_tracker(tracker(), None);
    app.begin_load();
    assert_eq!(app.eras.len(), 1);
    assert!(app.stats.is_some());
    assert!(app.tracker_data.is_some());
    app.toggle_selection();
    assert!(app.eras[0].selected);
    assert!(app.stats.is_some());
    assert_eq!(app.status, "Loading tracker...");
}
