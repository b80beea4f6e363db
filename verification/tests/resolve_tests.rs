use trackerdl::pages::{
    complete_scheme, decode_manifest, imgur_audio_url, json_as_str, json_get, json_index,
    kraken_audio_url, manifest_stream_url, player_script, qobuz_stream_url, tidal_manifest, Json,
};
use trackerdl::resolve::{
    after_step, next_action, resolution_steps, ResolveAction, ResolveStep, StepOutcome,
};

fn texts(steps: &[ResolveStep]) -> Vec<String> {
    steps
        .iter()
        .map(|s| match s {
            ResolveStep::Direct(u) => format!("direct {}", u),
            ResolveStep::KrakenPage(u) => format!("kraken {}", u),
            ResolveStep::ImgurPage(u) => format!("imgur {}", u),
            ResolveStep::TidalApi(u) => format!("tidal {}", u),
            ResolveStep::QobuzApi(u) => format!("qobuz {}", u),
        })
        .collect()
}

#[test]
fn direct_hosts_are_rewritten() {
    assert_eq!(
        texts(&resolution_steps("https://pixeldrain.com/u/AbC123?x=1")),
        vec!["direct https://pixeldrain.com/api/file/AbC123"]
    );
    assert_eq!(
        texts(&resolution_steps("https://pillows.su/f/0a1bz")),
        vec!["direct https://api.pillows.su/api/download/0a1b"]
    );
    assert_eq!(
        texts(&resolution_steps("https://music.froste.lol/song/deadbeef/x")),
        vec!["direct https://music.froste.lol/song/deadbeef/download"]
    );
    assert_eq!(
        texts(&resolution_steps("https://soundcloud.com/artist/song-name?in=x")),
        vec!["direct https://sc.maid.zone/_/restream/artist/song-name"]
    );
    assert_eq!(
        texts(&resolution_steps("https://juicewrldapi.com/files/a.mp3")),
        vec!["direct https://juicewrldapi.com/files/a.mp3"]
    );
    assert!(resolution_steps("https://example.com/a.mp3").is_empty());
}

#[test]
fn page_hosts_are_fetched() {
    assert_eq!(
        texts(&resolution_steps("https://krakenfiles.com/view/Kx9/file.html")),
        vec!["kraken https://krakenfiles.com/view/Kx9/file.html"]
    );
    assert_eq!(
        texts(&resolution_steps("https://imgur.gg/f/Zz1")),
        vec!["imgur https://imgur.gg/f/Zz1"]
    );
}

#[test]
fn api_hosts_are_asked() {
    assert_eq!(
        texts(&resolution_steps("https://tidal.com/browse/track/12345")),
        vec![
            "tidal https://triton.squid.wtf/track/?id=12345&quality=HI_RES_LOSSLESS",
            "tidal https://tidal.kinoplus.online/track/?id=12345&quality=HI_RES_LOSSLESS",
            "tidal https://tidal-api.binimum.org/track/?id=12345&quality=HI_RES_LOSSLESS",
        ]
    );
    assert_eq!(
        texts(&resolution_steps("https://tidal.com/track/9")).len(),
        3
    );
    assert_eq!(
        texts(&resolution_steps("https://open.qobuz.com/track/777")),
        vec!["qobuz https://qobuz.squid.wtf/api/download-music?track_id=777&quality=27"]
    );
}

#[test]
fn steps_run_in_order() {
    let steps = resolution_steps("https://tidal.com/track/5");
    assert!(matches!(next_action(&steps, 0), ResolveAction::Perform(0)));
    assert!(matches!(after_step(&steps, 0, StepOutcome::NotFound), ResolveAction::Perform(1)));
    match after_step(&steps, 1, StepOutcome::Found("https://s/1.flac".to_string())) {
        ResolveAction::Finish(Some(u)) => assert_eq!(u, "https://s/1.flac"),
        _ => panic!("expected a link"),
    }
    assert!(matches!(after_step(&steps, 2, StepOutcome::NotFound), ResolveAction::Finish(None)));
    assert!(matches!(
        after_step(&steps, 2, StepOutcome::Answered(None)),
        ResolveAction::Finish(None)
    ));
    let direct = resolution_steps("https://pixeldrain.com/u/A");
    match next_action(&direct, 0) {
        ResolveAction::Finish(Some(u)) => assert_eq!(u, "https://pixeldrain.com/api/file/A"),
        _ => panic!("expected a link"),
    }
    assert!(matches!(next_action(&direct, 1), ResolveAction::Finish(None)));
}

#[test]
fn kraken_pages_give_their_m4a_link() {
    let html = "<script>player({ m4a: '//cdn.kraken/x.m4a', other: 1 })</script>";
    assert_eq!(kraken_audio_url(html), Some("https://cdn.kraken/x.m4a".to_string()));
    let html = "m4a:\"https://cdn/y.m4a\"";
    assert_eq!(kraken_audio_url(html), Some("https://cdn/y.m4a".to_string()));
    assert_eq!(kraken_audio_url("<html></html>"), None);
    assert_eq!(complete_scheme("//a/b"), "https://a/b");
    assert_eq!(complete_scheme("http://a/b"), "http://a/b");
}

#[test]
fn imgur_pages_give_their_audio_link() {
    let html = r#"<html><body><audio src="https://i/a.mp3"></audio></body></html>"#;
    assert_eq!(imgur_audio_url(html), Some("https://i/a.mp3".to_string()));
    let html = r#"<html><body><audio><source src="https://i/b.m4a"></audio></body></html>"#;
    assert_eq!(imgur_audio_url(html), Some("https://i/b.m4a".to_string()));
    let html = r#"<html><head><script>var a = "https://x/no.mp3";</script><script>self.__next_f.push([1,"https://cdn/c.flac"])</script></head></html>"#;
    assert_eq!(imgur_audio_url(html), Some("https://cdn/c.flac".to_string()));
    assert_eq!(imgur_audio_url("<html></html>"), None);
    assert!(player_script("x bucketKey y"));
    assert!(!player_script("plain"));
}

fn obj(members: Vec<(&str, Json)>) -> Json {
    Json::Object(members.into_iter().map(|(k, v)| (k.to_string(), v)).collect())
}

#[test]
fn api_answers_give_their_links() {
    let tidal = obj(vec![(
        "data",
        obj(vec![("manifest", Json::Str("eyJ1cmxzIjpbImh0dHBzOi8vcy8xLmZsYWMiXX0=".to_string()))]),
    )]);
    let manifest = tidal_manifest(&tidal).unwrap();
    let bytes = decode_manifest(&manifest).unwrap();
    assert_eq!(bytes, br#"{"urls":["https://s/1.flac"]}"#.to_vec());
    assert_eq!(decode_manifest("not base64!"), None);
    let parsed = obj(vec![(
        "urls",
        Json::Array(vec![Json::Str("https://s/1.flac".to_string())]),
    )]);
    assert_eq!(manifest_stream_url(&parsed), Some("https://s/1.flac".to_string()));
    assert_eq!(manifest_stream_url(&Json::Null), None);
    let qobuz = obj(vec![("data", obj(vec![("url", Json::Str("https://q/2.flac".to_string()))]))]);
    assert_eq!(qobuz_stream_url(&qobuz), Some("https://q/2.flac".to_string()));
    assert_eq!(qobuz_stream_url(&obj(vec![("data", Json::Null)])), None);
    assert!(json_get(&Json::Bool(true), "a").is_none());
    assert!(json_index(&Json::Array(vec![]), 0).is_none());
    assert_eq!(json_as_str(&Json::Number("1".to_string())), None);
}
