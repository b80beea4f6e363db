use trackerdl::download::{
    after_attempt, backoff_delay, ActiveDownload, AttemptResult, AttemptStep, DownloadState,
    DownloadStatus, DownloadTrack, Rate,
};

fn track(id: usize, name: &str, host: &str) -> DownloadTrack {
    DownloadTrack {
        id,
        name: name.to_string(),
        era_name: "Era".to_string(),
        original_url: format!("https://o/{}", name),
        playable_url: format!("https://p/{}", name),
        host: host.to_string(),
    }
}

fn download(samples: Vec<(u64, u64)>, downloaded: u64, total: Option<u64>) -> ActiveDownload {
    ActiveDownload {
        id: 0,
        name: "a".to_string(),
        era_name: "e".to_string(),
        host: "h".to_string(),
        url: "u".to_string(),
        downloaded,
        total,
        status: DownloadStatus::Downloading,
        started_at: Some(1_000),
        speed_samples: samples,
        retries: 0,
        error: None,
    }
}

#[test]
fn speed_uses_the_last_ten_samples() {
    let d = download(vec![], 0, None);
    assert_eq!(d.current_speed(), Rate { bytes: 0, nanos: 0 });
    let d = download(vec![(0, 0)], 0, None);
    assert_eq!(d.current_speed(), Rate { bytes: 0, nanos: 0 });
    let d = download(vec![(0, 0), (2_000_000_000, 4096)], 4096, None);
    assert_eq!(d.current_speed(), Rate { bytes: 4096, nanos: 2_000_000_000 });
    let samples: Vec<(u64, u64)> = (0..15).map(|i| (i * 1_000, i * 100)).collect();
    let d = download(samples, 1400, None);
    // samples 5..=14
    assert_eq!(d.current_speed(), Rate { bytes: 900, nanos: 9_000 });
    // no time between samples: no speed
    let d = download(vec![(5, 0), (5, 100)], 100, None);
    assert_eq!(d.current_speed(), Rate { bytes: 0, nanos: 0 });
}

#[test]
fn eta_is_remaining_over_speed() {
    let d = download(vec![(0, 0), (1_000_000_000, 1000)], 1000, Some(5000));
    // 4000 bytes at 1000 B/s
    assert_eq!(d.eta(), Some(4_000_000_000));
    let d = download(vec![(0, 0), (1_000_000_000, 1000)], 1000, None);
    assert_eq!(d.eta(), Some(0));
    let d = download(vec![(0, 0), (1_000_000_000, 0)], 0, Some(10));
    assert_eq!(d.eta(), None);
    let d = download(vec![(0, 0), (1_000_000_000, 6000)], 6000, Some(5000));
    assert_eq!(d.eta(), Some(0));
}

#[test]
fn elapsed_counts_from_start() {
    let d = download(vec![], 0, None);
    assert_eq!(d.elapsed(4_000), Some(3_000));
    assert_eq!(d.elapsed(500), Some(0));
    let mut d = download(vec![], 0, None);
    d.started_at = None;
    assert_eq!(d.elapsed(4_000), None);
}

#[test]
fn a_batch_starts_pending() {
    let tracks = vec![track(0, "a", "pixeldrain"), track(1, "b", "pillows")];
    let s = DownloadState::begin(&tracks, 77);
    assert_eq!(s.total, 2);
    assert_eq!(s.downloads.len(), 2);
    assert_eq!(s.downloads[1].url, "https://p/b");
    assert!(s.downloads.iter().all(|d| d.status == DownloadStatus::Pending));
    assert_eq!(s.started_at, Some(77));
    assert_eq!(s.progress_percent(), 0);
    assert!(s.active_downloads().is_empty());
    assert!(!s.all_finished());
}

#[test]
fn steps_update_status_and_counters() {
    let tracks = vec![
        track(0, "a", "pixeldrain"),
        track(1, "b", "pillows"),
        track(2, "c", "pixeldrain"),
    ];
    let mut s = DownloadState::begin(&tracks, 0);
    s.mark_downloading(0, 10);
    assert_eq!(s.downloads[0].status, DownloadStatus::Downloading);
    assert_eq!(s.downloads[0].started_at, Some(10));
    assert_eq!(s.active_downloads().len(), 1);
    s.record_step(1, AttemptStep::Retry { attempts: 1, wait_secs: 2 });
    assert_eq!(s.downloads[1].status, DownloadStatus::Retrying);
    assert_eq!(s.downloads[1].retries, 1);
    assert_eq!(s.active_downloads().len(), 2);
    s.record_step(0, AttemptStep::Complete);
    s.record_step(1, AttemptStep::Fail("HTTP 404".to_string()));
    assert_eq!(s.downloads[1].error, Some("HTTP 404".to_string()));
    assert_eq!(s.progress_percent(), 66);
    s.record_step(2, AttemptStep::Skip);
    s.record_step(9, AttemptStep::Complete);
    assert_eq!((s.completed, s.failed, s.skipped), (1, 1, 1));
    assert_eq!(s.progress_percent(), 100);
    assert!(s.all_finished());
    let summary: Vec<(String, (usize, usize, usize))> =
        s.hosts_summary().iter().map(|(k, v)| (k.clone(), *v)).collect();
    assert_eq!(
        summary,
        vec![("pixeldrain".to_string(), (1, 0, 1)), ("pillows".to_string(), (0, 1, 0))]
    );
}

#[test]
fn progress_is_rounded_down() {
    let tracks: Vec<DownloadTrack> = (0..100).map(|i| track(i, "t", "h")).collect();
    let mut s = DownloadState::begin(&tracks, 0);
    for i in 0..28 {
        s.record_step(i, AttemptStep::Complete);
    }
    assert_eq!(s.progress_percent(), 28);
    s.record_step(28, AttemptStep::Complete);
    // 0.29 * 100.0 is just below 29 in floating point
    assert_eq!(s.progress_percent(), 28);
    s.record_step(29, AttemptStep::Complete);
    assert_eq!(s.progress_percent(), 30);
}

#[test]
fn percentages_match_float_arithmetic() {
    for total in 1u64..=150 {
        for done in 0..=3 * total {
            let d = download(vec![], done, Some(total));
            assert_eq!(d.percent_done(), (done as f64 / total as f64 * 100.0) as u16);
        }
    }
}

#[test]
fn chunks_are_recorded_and_samples_capped() {
    let tracks = vec![track(0, "a", "h")];
    let mut s = DownloadState::begin(&tracks, 0);
    s.set_expected_size(0, Some(6000));
    for i in 1..=60u64 {
        s.record_chunk(0, 100, i * 100, i * 1_000_000);
    }
    assert_eq!(s.total_bytes_downloaded, 6000);
    assert_eq!(s.downloads[0].downloaded, 6000);
    assert_eq!(s.downloads[0].total, Some(6000));
    assert_eq!(s.downloads[0].speed_samples.len(), 50);
    assert_eq!(s.downloads[0].speed_samples[0], (11_000_000, 1100));
    // a chunk for an unknown id still counts toward the batch
    s.record_chunk(5, 10, 10, 0);
    assert_eq!(s.total_bytes_downloaded, 6010);
}

#[test]
fn overall_speed_and_elapsed() {
    let tracks = vec![track(0, "a", "h")];
    let mut s = DownloadState::begin(&tracks, 1_000);
    s.record_chunk(0, 500, 500, 2_000);
    assert_eq!(s.overall_speed(3_000), Rate { bytes: 500, nanos: 2_000 });
    assert_eq!(s.overall_speed(1_000), Rate { bytes: 0, nanos: 0 });
    assert_eq!(s.elapsed(3_000), Some(2_000));
}

#[test]
fn throttling_waits_for_the_rate() {
    let tracks = vec![track(0, "a", "h")];
    let mut s = DownloadState::begin(&tracks, 0);
    s.mark_downloading(0, 0);
    // 2048 bytes at 1 KB/s should take 2 s; 0.5 s spent
    assert_eq!(s.throttle_delay(0, 2048, Some(1), 500_000_000), 1_500_000_000);
    assert_eq!(s.throttle_delay(0, 2048, Some(1), 3_000_000_000), 0);
    assert_eq!(s.throttle_delay(0, 2048, None, 0), 0);
    assert_eq!(s.throttle_delay(0, 2048, Some(0), 0), 0);
    // unknown download: no time spent
    assert_eq!(s.throttle_delay(7, 1024, Some(1), 5), 1_000_000_000);
}

#[test]
fn retries_back_off_exponentially() {
    assert_eq!(backoff_delay(0), 1);
    assert_eq!(backoff_delay(1), 2);
    assert_eq!(backoff_delay(3), 8);
    assert_eq!(backoff_delay(63), 1u64 << 63);
    assert!(matches!(after_attempt(0, 3, AttemptResult::Saved), AttemptStep::Complete));
    assert!(matches!(after_attempt(0, 3, AttemptResult::Skipped), AttemptStep::Skip));
    match after_attempt(0, 3, AttemptResult::Error("boom".to_string())) {
        AttemptStep::Retry { attempts, wait_secs } => {
            assert_eq!(attempts, 1);
            assert_eq!(wait_secs, 2);
        }
        _ => panic!("expected a retry"),
    }
    match after_attempt(2, 3, AttemptResult::Error("boom".to_string())) {
        AttemptStep::Retry { attempts, wait_secs } => {
            assert_eq!(attempts, 3);
            assert_eq!(wait_secs, 8);
        }
        _ => panic!("expected a retry"),
    }
    match after_attempt(3, 3, AttemptResult::Error("boom".to_string())) {
        AttemptStep::Fail(e) => assert_eq!(e, "boom"),
        _ => panic!("expected a failure"),
    }
    match after_attempt(0, 0, AttemptResult::Error("x".to_string())) {
        AttemptStep::Fail(e) => assert_eq!(e, "x"),
        _ => panic!("expected a failure"),
    }
}

#[test]
fn a_finished_batch_adds_up() {
    let tracks: Vec<DownloadTrack> = (0..4).map(|i| track(i, "t", "h")).collect();
    let mut s = DownloadState::begin(&tracks, 0);
    s.record_step(0, AttemptStep::Complete);
    s.record_step(1, AttemptStep::Retry { attempts: 1, wait_secs: 2 });
    s.record_step(1, AttemptStep::Fail("HTTP 500".to_string()));
    s.record_step(2, AttemptStep::Skip);
    s.record_step(3, AttemptStep::Complete);
    assert!(s.downloads.iter().all(|d| matches!(
        d.status,
        DownloadStatus::Complete | DownloadStatus::Failed | DownloadStatus::Skipped
    )));
    assert_eq!(s.completed + s.failed + s.skipped, s.total);
    assert_eq!(s.progress_percent(), 100);
}

#[test]
fn overfull_batches_follow_float_arithmetic() {
    let mut s = DownloadState::begin(&Vec::new(), 0);
    s.total = 100;
    s.completed = 113;
    // 1.13 * 100.0 is just below 113 in floating point
    assert_eq!(s.progress_percent(), 112);
    s.completed = 114;
    assert_eq!(s.progress_percent(), (114.0f64 / 100.0 * 100.0) as u16);
    for k in 0usize..=70000 {
        s.completed = k;
        assert_eq!(s.progress_percent(), (k as f64 / 100.0 * 100.0) as u16);
    }
}
