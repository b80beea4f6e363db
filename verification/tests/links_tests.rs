use trackerdl::links::{
    detect_format, detect_host, extract_tracker_id, get_file_extension, get_track_url, trim,
    TrackerIdError,
};
use trackerdl::tracker::Track;

const ID: &str = "1safK4FsrrdxRL5PEF_s-GibgVvyOlTpzx73Mbv-gFFw";

fn track(url: Option<&str>, quality: Option<&str>, len: Option<&str>) -> Track {
    Track {
        name: "Song".to_string(),
        quality: quality.map(|s| s.to_string()),
        url: url.map(|s| s.to_string()),
        available_length: len.map(|s| s.to_string()),
    }
}

#[test]
fn bare_tracker_id_is_accepted() {
    assert_eq!(extract_tracker_id(ID).unwrap(), ID);
}

#[test]
fn tracker_id_is_trimmed() {
    let input = format!("  \t{}\n", ID);
    assert_eq!(extract_tracker_id(&input).unwrap(), ID);
}

#[test]
fn tracker_id_is_found_in_sheet_link() {
    let url = format!("https://docs.google.com/spreadsheets/d/{}/edit#gid=0", ID);
    assert_eq!(extract_tracker_id(&url).unwrap(), ID);
}

#[test]
fn leftmost_id_run_is_taken() {
    let a = "A".repeat(44);
    let b = "B".repeat(44);
    let text = format!("x/{}/y/{}", a, b);
    assert_eq!(extract_tracker_id(&text).unwrap(), a);
    // a longer run yields its first 44 characters
    let long = format!("z/{}", "C".repeat(50));
    assert_eq!(extract_tracker_id(&long).unwrap(), "C".repeat(44));
}

#[test]
fn invalid_tracker_input_is_refused() {
    assert_eq!(extract_tracker_id("not-an-id"), Err(TrackerIdError::InvalidTrackerId));
    assert_eq!(extract_tracker_id(""), Err(TrackerIdError::InvalidTrackerId));
    // 43 id characters are not enough
    assert!(extract_tracker_id(&ID[..43]).is_err());
    assert_eq!(
        TrackerIdError::InvalidTrackerId.message(),
        "Invalid tracker ID or URL"
    );
}

#[test]
fn ids_are_44_ascii_characters() {
    // 22 two-byte letters make 44 bytes but only 22 characters
    let s = "é".repeat(22);
    assert_eq!(extract_tracker_id(&s), Err(TrackerIdError::InvalidTrackerId));
    let mixed = format!("{}é", "a".repeat(43));
    assert_eq!(extract_tracker_id(&mixed), Err(TrackerIdError::InvalidTrackerId));
}

#[test]
fn extracting_twice_gives_the_same_id() {
    let url = format!("https://docs.google.com/spreadsheets/d/{}/edit", ID);
    let once = extract_tracker_id(&url).unwrap();
    assert_eq!(extract_tracker_id(&once).unwrap(), once);
}

#[test]
fn trim_removes_unicode_white_space() {
    assert_eq!(trim("\u{3000} abc \u{2009}"), "abc");
    assert_eq!(trim("   "), "");
    assert_eq!(trim("a b"), "a b");
}

#[test]
fn hosts_are_detected() {
    assert_eq!(detect_host("https://pixeldrain.com/u/abc"), "pixeldrain");
    assert_eq!(detect_host("https://pillows.su/f/abc"), "pillows");
    assert_eq!(detect_host("https://pillowcase.su/f/abc"), "pillows");
    assert_eq!(detect_host("https://krakenfiles.com/view/x/file.html"), "krakenfiles");
    assert_eq!(detect_host("https://imgur.gg/f/abc"), "imgur.gg");
    assert_eq!(detect_host("https://soundcloud.com/a/b"), "soundcloud");
    assert_eq!(detect_host("https://tidal.com/browse/track/1"), "tidal");
    assert_eq!(detect_host("https://www.qobuz.com/track/1"), "qobuz");
    assert_eq!(detect_host("https://music.froste.lol/song/ab"), "froste");
    assert_eq!(detect_host("https://juicewrldapi.com/x.mp3"), "juicewrld");
    assert_eq!(detect_host("https://example.com/x.mp3"), "unknown");
    // the first domain in the fixed order wins
    assert_eq!(detect_host("https://imgur.gg/?r=pixeldrain.com"), "pixeldrain");
}

#[test]
fn formats_are_detected_case_insensitively() {
    assert_eq!(detect_format("https://x/a.FLAC"), "flac");
    assert_eq!(detect_format("https://x/a.m4a"), "m4a");
    assert_eq!(detect_format("https://x/a.Wav"), "wav");
    assert_eq!(detect_format("https://x/a.ogg"), "ogg");
    assert_eq!(detect_format("https://x/a.aac"), "aac");
    assert_eq!(detect_format("https://x/a.mp3"), "mp3");
    assert_eq!(detect_format("https://x/a"), "mp3");
}

#[test]
fn extensions_follow_formats_except_wav_with_ogg() {
    assert_eq!(get_file_extension("https://x/a.FLAC"), "flac");
    assert_eq!(get_file_extension("https://x/a.ogg"), "ogg");
    assert_eq!(get_file_extension("https://x/a.wav"), "wav");
    assert_eq!(get_file_extension("https://x/a.bin"), "mp3");
    // both .wav and .ogg: the format says wav, the extension says ogg
    let both = "https://x/a.wav?alt=b.ogg";
    assert_eq!(detect_format(both), "wav");
    assert_eq!(get_file_extension(both), "ogg");
}

#[test]
fn track_link_comes_from_first_web_field() {
    let t = track(Some("https://a/1.mp3"), Some("https://b/2.mp3"), None);
    assert_eq!(get_track_url(&t).unwrap(), "https://a/1.mp3");
    let t = track(Some("ftp://a"), Some("CD Quality"), Some("http://c/3.flac"));
    assert_eq!(get_track_url(&t).unwrap(), "http://c/3.flac");
    let t = track(None, Some("https://q/4"), Some("https://r/5"));
    assert_eq!(get_track_url(&t).unwrap(), "https://q/4");
    let t = track(Some("Snippet"), None, Some("3:21"));
    assert_eq!(get_track_url(&t), None);
}

#[test]
fn old_pillows_domain_is_rewritten() {
    let t = track(Some("https://pillowcase.su/f/abc?m=pillowcase.su"), None, None);
    assert_eq!(
        get_track_url(&t).unwrap(),
        "https://pillows.su/f/abc?m=pillows.su"
    );
}

#[test]
fn lower_casing_a_link_keeps_its_format() {
    for url in ["https://x/A.FLAC", "https://x/b.Wav?x=1", "https://x/c", "HTTPS://X/D.OGG"] {
        assert_eq!(detect_format(url), detect_format(&url.to_lowercase()));
    }
}
