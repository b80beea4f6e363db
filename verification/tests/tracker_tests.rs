use indexmap::IndexMap;
use trackerdl::download::DownloadTrack;
use trackerdl::fetch::{
    artist_folder, artist_name, assign_ids, collect_candidates, effective_concurrency,
    era_folder, file_name_from, size_mismatch, track_file_name, Candidate,
};
use trackerdl::tracker::{summarize_tracker, Era, Track, TrackerResponse};

fn t(name: &str, url: Option<&str>) -> Track {
    Track {
        name: name.to_string(),
        quality: None,
        url: url.map(|s| s.to_string()),
        available_length: None,
    }
}

fn sample() -> TrackerResponse {
    let mut cats1: IndexMap<String, Vec<Track>> = IndexMap::new();
    cats1.insert(
        "Released".to_string(),
        vec![
            t("One", Some("https://pixeldrain.com/u/AAA")),
            t("Two", Some("https://pillowcase.su/f/abc.flac")),
            t("Three", None),
        ],
    );
    cats1.insert(
        "Unreleased".to_string(),
        vec![t("Four", Some("https://krakenfiles.com/view/K1/file.html"))],
    );
    let mut cats2: IndexMap<String, Vec<Track>> = IndexMap::new();
    cats2.insert(
        "Leaks".to_string(),
        vec![
            t("Five", Some("https://pixeldrain.com/u/BBB")),
            t("Six", Some("https://example.com/six.wav")),
        ],
    );
    let mut eras: IndexMap<String, Era> = IndexMap::new();
    eras.insert("e1".to_string(), Era { name: "Goodbye & Good Riddance".to_string(), data: Some(cats1) });
    eras.insert("e2".to_string(), Era { name: "Death Race".to_string(), data: Some(cats2) });
    eras.insert("e3".to_string(), Era { name: "Empty".to_string(), data: None });
    TrackerResponse {
        name: Some("Artist".to_string()),
        tabs: vec!["Main".to_string()],
        current_tab: "Main".to_string(),
        eras,
    }
}

#[test]
fn summary_lists_eras_in_order_with_counts() {
    let data = sample();
    let (items, stats) = summarize_tracker(&data, None);
    assert_eq!(items.len(), 3);
    assert_eq!(items[0].key, "e1");
    assert_eq!(items[0].track_count, 4);
    assert_eq!(items[0].categories, vec!["Released".to_string(), "Unreleased".to_string()]);
    assert_eq!(items[1].order, 1);
    assert_eq!(items[1].track_count, 2);
    assert_eq!(items[2].track_count, 0);
    assert!(items[2].categories.is_empty());
    assert!(items.iter().all(|e| !e.selected));
    assert_eq!(stats.total_eras, 3);
    assert_eq!(stats.total_tracks, 6);
    assert_eq!(stats.tracks_with_urls, 5);
    assert_eq!(stats.tracks_without_urls, 1);
    let hosts: Vec<(String, usize)> = stats.hosts.iter().map(|(k, v)| (k.clone(), *v)).collect();
    assert_eq!(
        hosts,
        vec![
            ("pixeldrain".to_string(), 2),
            ("pillows".to_string(), 1),
            ("krakenfiles".to_string(), 1),
            ("unknown".to_string(), 1),
        ]
    );
    let formats: Vec<(String, usize)> =
        stats.formats.iter().map(|(k, v)| (k.clone(), *v)).collect();
    assert_eq!(
        formats,
        vec![("mp3".to_string(), 3), ("flac".to_string(), 1), ("wav".to_string(), 1)]
    );
    // the counts add up
    assert_eq!(stats.tracks_with_urls + stats.tracks_without_urls, stats.total_tracks);
    assert_eq!(stats.hosts.values().sum::<usize>(), stats.tracks_with_urls);
    assert_eq!(items.iter().map(|e| e.track_count).sum::<usize>(), stats.total_tracks);
}

#[test]
fn era_filter_is_case_insensitive_and_keeps_positions() {
    let data = sample();
    let (items, stats) = summarize_tracker(&data, Some("DEATH"));
    assert_eq!(items.len(), 1);
    assert_eq!(items[0].key, "e2");
    assert_eq!(items[0].order, 1);
    assert_eq!(stats.total_eras, 1);
    assert_eq!(stats.total_tracks, 2);
    let (items, _) = summarize_tracker(&data, Some("nothing"));
    assert!(items.is_empty());
}

#[test]
fn candidates_follow_selection_and_format_filter() {
    let data = sample();
    let keys = vec!["e2".to_string(), "missing".to_string(), "e1".to_string()];
    let all = collect_candidates(&data, &keys, None);
    let names: Vec<&str> = all.iter().map(|c| c.name.as_str()).collect();
    assert_eq!(names, vec!["Five", "Six", "One", "Two", "Four"]);
    assert_eq!(all[3].url, "https://pillows.su/f/abc.flac");
    assert_eq!(all[3].host, "pillows");
    assert_eq!(all[0].era_name, "Death Race");
    let flac = collect_candidates(&data, &keys, Some("FLAC"));
    assert_eq!(flac.len(), 1);
    assert_eq!(flac[0].name, "Two");
    let wav = collect_candidates(&data, &keys, Some("wav"));
    assert_eq!(wav.len(), 1);
    assert_eq!(wav[0].name, "Six");
}

#[test]
fn resolved_candidates_are_numbered_from_zero() {
    let c = |n: &str| Candidate {
        name: n.to_string(),
        era_name: "E".to_string(),
        url: format!("https://x/{}", n),
        host: "unknown".to_string(),
    };
    let cands = vec![c("a"), c("b"), c("c")];
    let resolved = vec![Some("https://p/a".to_string()), None, Some("https://p/c".to_string())];
    let tracks = assign_ids(&cands, &resolved);
    assert_eq!(tracks.len(), 2);
    assert_eq!(tracks[0].id, 0);
    assert_eq!(tracks[0].playable_url, "https://p/a");
    assert_eq!(tracks[1].id, 1);
    assert_eq!(tracks[1].name, "c");
    assert_eq!(tracks[1].original_url, "https://x/c");
}

fn dt(name: &str, era: &str, url: &str) -> DownloadTrack {
    DownloadTrack {
        id: 0,
        name: name.to_string(),
        era_name: era.to_string(),
        original_url: url.to_string(),
        playable_url: url.to_string(),
        host: "unknown".to_string(),
    }
}

#[test]
fn file_names_may_be_numbered() {
    assert_eq!(file_name_from("Song", "mp3", true, 0), "001 - Song.mp3");
    assert_eq!(file_name_from("Song", "mp3", false, 0), "Song.mp3");
    assert_eq!(file_name_from("X", "flac", true, 1233), "1234 - X.flac");
    let track = dt("A/B: C?", "Era", "https://x/y.FLAC");
    assert_eq!(track_file_name(&track, true, 41), "042 - AB C.flac");
    assert_eq!(track_file_name(&track, false, 41), "AB C.flac");
}

#[test]
fn folders_are_sanitized() {
    let track = dt("Song", "Era: <1>", "https://x/y.mp3");
    assert_eq!(era_folder(&track, true), None);
    assert_eq!(era_folder(&track, false), Some("Era 1".to_string()));
    assert_eq!(artist_name(Some("Given"), Some("Tracker")), "Given");
    assert_eq!(artist_name(None, Some("Tracker")), "Tracker");
    assert_eq!(artist_name(None, None), "Unknown Artist");
    assert_eq!(artist_folder(Some("AC/DC"), None), "ACDC");
    assert_eq!(artist_folder(None, None), "Unknown Artist");
}

#[test]
fn long_names_are_cut_to_255_bytes() {
    let long = "a".repeat(300);
    let track = dt(&long, "..", "https://x/y.ogg");
    assert_eq!(track_file_name(&track, false, 0), format!("{}.ogg", "a".repeat(255)));
    assert_eq!(era_folder(&track, false), Some(String::new()));
}

#[test]
fn concurrency_is_kept_within_bounds() {
    assert_eq!(effective_concurrency(0), 1);
    assert_eq!(effective_concurrency(5), 5);
    assert_eq!(effective_concurrency(20), 20);
    assert_eq!(effective_concurrency(100), 20);
}

#[test]
fn size_check_reports_a_mismatch() {
    assert_eq!(size_mismatch(false, Some(10), 9), None);
    assert_eq!(size_mismatch(true, None, 9), None);
    assert_eq!(size_mismatch(true, Some(9), 9), None);
    assert_eq!(
        size_mismatch(true, Some(10), 9),
        Some("Size mismatch: expected 10 got 9".to_string())
    );
}

#[test]
fn names_that_only_look_like_devices_are_kept() {
    let track = dt("Conversations", "Come & Go", "https://x/y.mp3");
    assert_eq!(track_file_name(&track, false, 0), "Conversations.mp3");
    assert_eq!(track_file_name(&track, true, 0), "001 - Conversations.mp3");
    assert_eq!(era_folder(&track, false), Some("Come & Go".to_string()));
    assert_eq!(artist_folder(Some("Control"), None), "Control");
}
