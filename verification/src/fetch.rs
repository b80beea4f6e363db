//! What to fetch and where to put it: the tracks of the selected eras that
//! pass the format filter, their download ids, file and folder names, the
//! pacing of a rate-limited transfer and the size check after it.
use vstd::prelude::*;
use crate::collections::{value_of, era_entries, era_lookup, category_count, category_at, category_entries};
use crate::text::{
    decimal, zero_pad, eq_ascii_nocase, lowercase_of, has_sub, push_decimal, push_decimal_padded, append,
    eq_ignore_ascii_case,
};
use crate::crates::{is_unsafe_file_char, sanitize, kept_file_chars, plain_file_text, sanitized_text};
use crate::links::{track_url_of, host_of, format_of_lower, extension_of_lower, get_track_url,
    detect_host, detect_format, get_file_extension};
use crate::tracker::{Era, Track, TrackerResponse, era_tracks, category_tracks};
use crate::download::{DownloadTrack, DownloadState, find_download, since};

verus! {

/// A track chosen for download whose audio link is not resolved yet.
#[derive(Debug, Clone)]
pub struct Candidate {
    pub name: String,
    pub era_name: String,
    pub url: String,
    pub host: String,
}

/// The abstract content of a [`Candidate`].
pub struct CandidateView {
    pub name: Seq<char>,
    pub era_name: Seq<char>,
    pub url: Seq<char>,
    pub host: Seq<char>,
}

impl View for Candidate {
    type V = CandidateView;

    open spec fn view(&self) -> CandidateView {
        CandidateView { name: self.name@, era_name: self.era_name@, url: self.url@, host: self.host@ }
    }
}

/// Whether a link passes the format filter: no filter, or the link's
/// format equals the filter up to ASCII case.
pub open spec fn format_passes(url: Seq<char>, filter: Option<Seq<char>>) -> bool {
    match filter {
        None => true,
        Some(f) => eq_ascii_nocase(format_of_lower(lowercase_of(url)), f),
    }
}

/// The candidates among a run of tracks of one era.
pub open spec fn track_candidates(ts: Seq<Track>, era_name: Seq<char>, filter: Option<Seq<char>>) -> Seq<
    CandidateView,
>
    decreases ts.len(),
{
    if ts.len() == 0 {
        Seq::empty()
    } else {
        let prev = track_candidates(ts.drop_last(), era_name, filter);
        match track_url_of(ts.last()) {
            Some(u) => if format_passes(u, filter) {
                prev.push(
                    CandidateView { name: ts.last().name@, era_name, url: u, host: host_of(u) },
                )
            } else {
                prev
            },
            None => prev,
        }
    }
}

/// The candidates of the eras stored under the given keys, key after key;
/// keys with no era give none.
pub open spec fn candidates_of(
    eras: Seq<(Seq<char>, Era)>,
    keys: Seq<Seq<char>>,
    filter: Option<Seq<char>>,
) -> Seq<CandidateView>
    decreases keys.len(),
{
    if keys.len() == 0 {
        Seq::empty()
    } else {
        let prev = candidates_of(eras, keys.drop_last(), filter);
        match value_of(eras, keys.last()) {
            Some(e) => prev + track_candidates(era_tracks(e), e.name@, filter),
            None => prev,
        }
    }
}

pub open spec fn opt_str(o: Option<&str>) -> Option<Seq<char>> {
    match o {
        Some(s) => Some(s@),
        None => None,
    }
}

proof fn lemma_track_candidates_append(a: Seq<Track>, b: Seq<Track>, en: Seq<char>, f: Option<Seq<char>>)
    ensures
        track_candidates(a + b, en, f) == track_candidates(a, en, f) + track_candidates(b, en, f),
    decreases b.len(),
{
    if b.len() == 0 {
        assert(a + b == a);
        assert(track_candidates(b, en, f) =~= Seq::<CandidateView>::empty());
    } else {
        assert((a + b).drop_last() == a + b.drop_last());
        lemma_track_candidates_append(a, b.drop_last(), en, f);
    }
}

fn add_track(
    out: &mut Vec<Candidate>,
    t: &Track,
    era_name: &String,
    format_filter: Option<&str>,
    Ghost(ts): Ghost<Seq<Track>>,
    Ghost(base): Ghost<Seq<CandidateView>>,
)
    requires
        old(out)@.map_values(|c: Candidate| c@) == base + track_candidates(ts, era_name@, opt_str(format_filter)),
    ensures
        final(out)@.map_values(|c: Candidate| c@) == base + track_candidates(ts.push(*t), era_name@, opt_str(format_filter)),
{
    let ghost before = out@;
    proof {
        assert(ts.push(*t).drop_last() == ts);
    }
    if let Some(url) = get_track_url(t) {
        let pass = match format_filter {
            Some(f) => {
                let detected = detect_format(url.as_str());
                eq_ignore_ascii_case(detected.as_str(), f)
            },
            None => true,
        };
        if pass {
            let host = detect_host(url.as_str());
            out.push(Candidate { name: t.name.clone(), era_name: era_name.clone(), url, host });
            proof {
                assert(out@.map_values(|c: Candidate| c@) =~= before.map_values(|c: Candidate| c@).push(
                    out@.last()@,
                ));
            }
        }
    }
}

/// The tracks to fetch: for each key in turn, the tracks of the era stored
/// under it, category after category, that have a link passing the format
/// filter, with the link's host.
pub fn collect_candidates(
    data: &TrackerResponse,
    keys: &Vec<String>,
    format_filter: Option<&str>,
) -> (r: Vec<Candidate>)
    ensures
        r@.map_values(|c: Candidate| c@) == candidates_of(
            era_entries(data.eras),
            keys@.map_values(|k: String| k@),
            opt_str(format_filter),
        ),
{
    let ghost eras = era_entries(data.eras);
    let ghost f = opt_str(format_filter);
    let ghost kv = keys@.map_values(|k: String| k@);
    let mut out: Vec<Candidate> = Vec::new();
    let n = keys.len();
    proof {
        assert(kv.take(0) == Seq::<Seq<char>>::empty());
        assert(out@.map_values(|c: Candidate| c@) =~= Seq::<CandidateView>::empty());
    }
    for i in 0..n
        invariant
            n == keys@.len(),
            eras == era_entries(data.eras),
            f == opt_str(format_filter),
            kv == keys@.map_values(|k: String| k@),
            out@.map_values(|c: Candidate| c@) == candidates_of(eras, kv.take(i as int), f),
    {
        proof {
            assert(kv.take(i + 1).drop_last() == kv.take(i as int));
            assert(kv.take(i + 1).last() == keys@[i as int]@);
        }
        if let Some(era) = era_lookup(&data.eras, keys[i].as_str()) {
            let ghost base = out@.map_values(|c: Candidate| c@);
            match &era.data {
                None => {
                    assert(era_tracks(*era) =~= Seq::<Track>::empty());
                    assert(track_candidates(era_tracks(*era), era.name@, f) =~= Seq::<CandidateView>::empty());
                },
                Some(m) => {
                    let ghost cats = category_entries(*m);
                    let cn = category_count(m);
                    proof {
                        assert(cats.take(0) == Seq::<(Seq<char>, Vec<Track>)>::empty());
                        assert(track_candidates(category_tracks(cats.take(0)), era.name@, f) =~= Seq::<CandidateView>::empty());
                    }
                    for c in 0..cn
                        invariant
                            cn == cats.len(),
                            cats == category_entries(*m),
                            f == opt_str(format_filter),
                            out@.map_values(|c: Candidate| c@) == base + track_candidates(
                                category_tracks(cats.take(c as int)),
                                era.name@,
                                f,
                            ),
                    {
                        let (_name, tracks) = category_at(m, c);
                        let ghost done = category_tracks(cats.take(c as int));
                        proof {
                            assert(cats.take(c + 1).drop_last() == cats.take(c as int));
                            assert(tracks@.take(0) == Seq::<Track>::empty());
                            assert(done + tracks@.take(0) == done);
                        }
                        let tn = tracks.len();
                        for j in 0..tn
                            invariant
                                tn == tracks@.len(),
                                f == opt_str(format_filter),
                                out@.map_values(|c: Candidate| c@) == base + track_candidates(
                                    done + tracks@.take(j as int),
                                    era.name@,
                                    f,
                                ),
                        {
                            proof {
                                assert(done + tracks@.take(j + 1) == (done + tracks@.take(j as int)).push(tracks@[j as int]));
                            }
                            add_track(&mut out, &tracks[j], &era.name, format_filter, Ghost(done + tracks@.take(j as int)), Ghost(base));
                        }
                        proof {
                            assert(tracks@.take(tn as int) == tracks@);
                        }
                    }
                    proof {
                        assert(cats.take(cn as int) == cats);
                    }
                },
            }
        }
    }
    proof {
        assert(kv.take(n as int) == kv);
    }
    out
}

/// The downloads made from the candidates whose audio link was resolved
/// (`resolved[i]` for candidate `i`), numbered from zero in order.
pub open spec fn numbered_tracks(cands: Seq<CandidateView>, resolved: Seq<Option<Seq<char>>>) -> Seq<
    (CandidateView, Seq<char>),
>
    decreases cands.len(),
{
    if cands.len() == 0 || resolved.len() == 0 {
        Seq::empty()
    } else {
        let prev = numbered_tracks(cands.drop_last(), resolved.drop_last());
        match resolved.last() {
            Some(p) => prev.push((cands.last(), p)),
            None => prev,
        }
    }
}

/// Numbers the resolved candidates from zero, in order, keeping the
/// resolved link as the link to fetch.
pub fn assign_ids(cands: &Vec<Candidate>, resolved: &Vec<Option<String>>) -> (r: Vec<DownloadTrack>)
    requires
        cands@.len() == resolved@.len(),
    ensures
        r@.len() == numbered_tracks(
            cands@.map_values(|c: Candidate| c@),
            resolved@.map_values(|o: Option<String>| crate::crates::opt_view(o)),
        ).len(),
        forall|k: int| 0 <= k < r@.len() ==> {
            let t = #[trigger] r@[k];
            let (c, p) = numbered_tracks(
                cands@.map_values(|c: Candidate| c@),
                resolved@.map_values(|o: Option<String>| crate::crates::opt_view(o)),
            )[k];
            &&& t.id == k
            &&& t.name@ == c.name && t.era_name@ == c.era_name
            &&& t.original_url@ == c.url && t.host@ == c.host
            &&& t.playable_url@ == p
        },
{
    let ghost cv = cands@.map_values(|c: Candidate| c@);
    let ghost rv = resolved@.map_values(|o: Option<String>| crate::crates::opt_view(o));
    let mut out: Vec<DownloadTrack> = Vec::new();
    let n = cands.len();
    proof {
        assert(cv.take(0) == Seq::<CandidateView>::empty());
    }
    for i in 0..n
        invariant
            n == cands@.len(),
            n == resolved@.len(),
            cv == cands@.map_values(|c: Candidate| c@),
            rv == resolved@.map_values(|o: Option<String>| crate::crates::opt_view(o)),
            out@.len() == numbered_tracks(cv.take(i as int), rv.take(i as int)).len(),
            out@.len() <= i,
            forall|k: int| 0 <= k < out@.len() ==> {
                let t = #[trigger] out@[k];
                let (c, p) = numbered_tracks(cv.take(i as int), rv.take(i as int))[k];
                &&& t.id == k
                &&& t.name@ == c.name && t.era_name@ == c.era_name
                &&& t.original_url@ == c.url && t.host@ == c.host
                &&& t.playable_url@ == p
            },
    {
        proof {
            assert(cv.take(i + 1).drop_last() == cv.take(i as int));
            assert(rv.take(i + 1).drop_last() == rv.take(i as int));
            assert(rv.take(i + 1).last() == crate::crates::opt_view(resolved@[i as int]));
            assert(cv.take(i + 1).last() == cands@[i as int]@);
        }
        match &resolved[i] {
            Some(p) => {
                let c = &cands[i];
                let id = out.len();
                out.push(
                    DownloadTrack {
                        id,
                        name: c.name.clone(),
                        era_name: c.era_name.clone(),
                        original_url: c.url.clone(),
                        playable_url: p.clone(),
                        host: c.host.clone(),
                    },
                );
            },
            None => {},
        }
    }
    proof {
        assert(cv.take(n as int) == cv);
        assert(rv.take(n as int) == rv);
    }
    out
}

// ---------------------------------------------------------------------------
// Files and folders
// ---------------------------------------------------------------------------

/// A name that `sanitize_filename` could have produced: no character it
/// removes, at most 255 bytes.
pub open spec fn safe_file_text(s: Seq<char>) -> bool {
    &&& forall|i: int| 0 <= i < s.len() ==> !is_unsafe_file_char(#[trigger] s[i])
    &&& vstd::utf8::encode_utf8(s).len() <= 255
}

/// The file name for a track: `NAME.EXT`, or `NNN - NAME.EXT` with the
/// 1-based position padded to three digits when numbering.
pub open spec fn file_name_text(name: Seq<char>, ext: Seq<char>, numbered: bool, index: nat) -> Seq<
    char,
> {
    if numbered {
        zero_pad(decimal(index + 1), 3) + " - "@ + name + "."@ + ext
    } else {
        name + "."@ + ext
    }
}

/// Builds a file name from an already sanitized track name.
pub fn file_name_from(name: &str, ext: &str, numbered: bool, index: usize) -> (r: String)
    requires
        index < usize::MAX,
    ensures
        r@ == file_name_text(name@, ext@, numbered, index as nat),
{
    let mut s = String::new();
    if numbered {
        push_decimal_padded(&mut s, (index + 1) as u128, 3);
        append(&mut s, " - ");
    }
    append(&mut s, name);
    append(&mut s, ".");
    append(&mut s, ext);
    s
}

/// The file name for the `index`-th track of a batch: its sanitized name
/// and the extension of its link, numbered when asked. A name that is
/// plain once its unsafe characters are gone is used as it is.
pub fn track_file_name(track: &DownloadTrack, numbered: bool, index: usize) -> (r: String)
    requires
        index < usize::MAX,
    ensures
        exists|s: Seq<char>|
            sanitized_text(s, track.name@) && safe_file_text(s) && r@ == file_name_text(
                s,
                extension_of_lower(lowercase_of(track.playable_url@)),
                numbered,
                index as nat,
            ),
        plain_file_text(kept_file_chars(track.name@)) ==> r@ == file_name_text(
            kept_file_chars(track.name@),
            extension_of_lower(lowercase_of(track.playable_url@)),
            numbered,
            index as nat,
        ),
{
    let name = sanitize(track.name.as_str());
    let ext = get_file_extension(track.playable_url.as_str());
    let r = file_name_from(name.as_str(), ext, numbered, index);
    assert(safe_file_text(name@));
    assert(sanitized_text(name@, track.name@));
    r
}

/// The era folder of a track, unless the layout is flat: the sanitized era
/// name.
pub fn era_folder(track: &DownloadTrack, flat: bool) -> (r: Option<String>)
    ensures
        flat <==> r is None,
        r matches Some(s) ==> safe_file_text(s@) && sanitized_text(s@, track.era_name@),
        !flat && plain_file_text(kept_file_chars(track.era_name@)) ==> (r matches Some(s) && s@
            == kept_file_chars(track.era_name@)),
{
    if flat {
        None
    } else {
        Some(sanitize(track.era_name.as_str()))
    }
}

/// The artist name the download folder is named after: the one given on
/// the command line, else the tracker's name, else `Unknown Artist`.
pub open spec fn artist_text(given: Option<&str>, tracker_name: Option<&str>) -> Seq<char> {
    match given {
        Some(a) => a@,
        None => match tracker_name {
            Some(t) => t@,
            None => "Unknown Artist"@,
        },
    }
}

/// The artist name the download folder is named after.
pub fn artist_name(given: Option<&str>, tracker_name: Option<&str>) -> (r: String)
    ensures
        r@ == artist_text(given, tracker_name),
{
    match given {
        Some(a) => String::from_str(a),
        None => match tracker_name {
            Some(t) => String::from_str(t),
            None => String::from_str("Unknown Artist"),
        },
    }
}

/// The folder the downloads go to, under the output directory: the
/// sanitized artist name.
pub fn artist_folder(given: Option<&str>, tracker_name: Option<&str>) -> (r: String)
    ensures
        safe_file_text(r@),
        sanitized_text(r@, artist_text(given, tracker_name)),
        plain_file_text(kept_file_chars(artist_text(given, tracker_name))) ==> r@
            == kept_file_chars(artist_text(given, tracker_name)),
{
    let a = artist_name(given, tracker_name);
    sanitize(a.as_str())
}

/// The number of downloads run at once: the requested number, kept within
/// 1 to 20.
pub fn effective_concurrency(requested: usize) -> (r: usize)
    ensures
        r == (if requested < 1 {
            1
        } else if requested > 20 {
            20
        } else {
            requested
        }),
{
    if requested < 1 {
        1
    } else if requested > 20 {
        20
    } else {
        requested
    }
}

// ---------------------------------------------------------------------------
// Pacing and checking a transfer
// ---------------------------------------------------------------------------

/// The pause (nanoseconds) that keeps a transfer within `rate` bytes per
/// second: how far the time `downloaded` bytes should take at that rate
/// runs ahead of the time `elapsed` spent so far; none without a limit.
pub open spec fn pause_for(downloaded: nat, rate: nat, elapsed: nat) -> nat {
    if rate == 0 {
        0
    } else if elapsed * rate < downloaded * 1_000_000_000 {
        ((downloaded * 1_000_000_000 - elapsed * rate) as nat / rate) as nat
    } else {
        0
    }
}

impl DownloadState {
    /// The pause to take after `downloaded` bytes of download `id`, for a
    /// limit of `rate_limit_kb` KB/s (none or zero: no limit); the time spent
    /// counts from the start of that download's transfer (zero when unknown).
    pub fn throttle_delay(&self, id: usize, downloaded: u64, rate_limit_kb: Option<u64>, now: u64) -> (r: u128)
        requires
            match rate_limit_kb {
                Some(k) => k * 1024 <= u64::MAX,
                None => true,
            },
        ensures
            r == pause_for(
                downloaded as nat,
                match rate_limit_kb {
                    Some(k) => (k * 1024) as nat,
                    None => 0,
                },
                ({
                    let i = find_download(self.downloads@, id);
                    if i >= 0 {
                        match self.downloads@[i].started_at {
                            Some(s) => since(s, now),
                            None => 0,
                        }
                    } else {
                        0
                    }
                }),
            ),
    {
        let rate: u64 = match rate_limit_kb {
            Some(k) => k * 1024,
            None => 0,
        };
        if rate == 0 {
            return 0;
        }
        let elapsed: u64 = match self.find(id) {
            Some(i) => match self.downloads[i].started_at {
                Some(s) => now.saturating_sub(s),
                None => 0,
            },
            None => 0,
        };
        proof {
            assert(downloaded as u128 * 1_000_000_000u128 <= 18446744073709551615u128 * 1_000_000_000u128) by (nonlinear_arith)
                requires downloaded <= 18446744073709551615u64;
            assert(elapsed as u128 * rate as u128 <= 18446744073709551615u128 * 18446744073709551615u128) by (nonlinear_arith)
                requires elapsed <= 18446744073709551615u64, rate <= 18446744073709551615u64;
        }
        let wanted: u128 = downloaded as u128 * 1_000_000_000u128;
        let spent: u128 = elapsed as u128 * rate as u128;
        if spent < wanted {
            (wanted - spent) / rate as u128
        } else {
            0
        }
    }
}

/// The size check after a transfer: when checking is asked for and the
/// expected size is known, a different number of bytes received is an error.
pub fn size_mismatch(verify: bool, expected: Option<u64>, received: u64) -> (r: Option<String>)
    ensures
        match r {
            Some(msg) => {
                &&& verify
                &&& expected is Some
                &&& expected->0 != received
                &&& msg@ == "Size mismatch: expected "@ + decimal(expected->0 as nat) + " got "@
                    + decimal(received as nat)
            },
            None => !verify || expected is None || expected == Some(received),
        },
{
    if verify {
        if let Some(e) = expected {
            if e != received {
                let mut s = String::from_str("Size mismatch: expected ");
                push_decimal(&mut s, e as u128);
                append(&mut s, " got ");
                push_decimal(&mut s, received as u128);
                return Some(s);
            }
        }
    }
    None
}


/// Every track chosen for download has a link that passes the format
/// filter, and its host is the host of that link.
pub proof fn lemma_candidates_pass_filter(
    eras: Seq<(Seq<char>, Era)>,
    keys: Seq<Seq<char>>,
    filter: Option<Seq<char>>,
)
    ensures
        forall|i: int|
            0 <= i < candidates_of(eras, keys, filter).len() ==> {
                let c = #[trigger] candidates_of(eras, keys, filter)[i];
                format_passes(c.url, filter) && c.host == host_of(c.url)
            },
    decreases keys.len(),
{
    if keys.len() > 0 {
        lemma_candidates_pass_filter(eras, keys.drop_last(), filter);
        let prev = candidates_of(eras, keys.drop_last(), filter);
        match value_of(eras, keys.last()) {
            Some(e) => {
                lemma_track_candidates_pass(era_tracks(e), e.name@, filter);
                let more = track_candidates(era_tracks(e), e.name@, filter);
                assert forall|i: int| 0 <= i < (prev + more).len() implies {
                    let c = #[trigger] (prev + more)[i];
                    format_passes(c.url, filter) && c.host == host_of(c.url)
                } by {
                    if i < prev.len() {
                        assert((prev + more)[i] == prev[i]);
                    } else {
                        assert((prev + more)[i] == more[i - prev.len()]);
                    }
                }
            },
            None => {},
        }
    }
}

/// The format filter keeps a track exactly when the format detected from
/// its link equals the filter up to ASCII case: every candidate's link has
/// that format, and every track whose link has it is a candidate. In
/// particular a link naming none of `.flac`, `.m4a`, `.wav`, `.ogg` and
/// `.aac` counts as mp3 and passes the filter `mp3` in any case.
pub proof fn lemma_format_filter_is_detected_format(
    ts: Seq<Track>,
    en: Seq<char>,
    f: Seq<char>,
    k: int,
)
    requires
        0 <= k < ts.len(),
    ensures
        forall|j: int|
            0 <= j < track_candidates(ts, en, Some(f)).len() ==> eq_ascii_nocase(
                format_of_lower(lowercase_of((#[trigger] track_candidates(ts, en, Some(f))[j]).url)),
                f,
            ),
        ({
            let u = track_url_of(ts[k])->0;
            let c = track_candidates(ts, en, Some(f));
            track_url_of(ts[k]) is Some && eq_ascii_nocase(format_of_lower(lowercase_of(u)), f)
                ==> exists|j: int| 0 <= j < c.len() && #[trigger] c[j].url == u && c[j].name == ts[k].name@
        }),
        ({
            let u = track_url_of(ts[k])->0;
            let l = lowercase_of(u);
            let c = track_candidates(ts, en, Some(f));
            track_url_of(ts[k]) is Some && eq_ascii_nocase("mp3"@, f) && !has_sub(l, ".flac"@)
                && !has_sub(l, ".m4a"@) && !has_sub(l, ".wav"@) && !has_sub(l, ".ogg"@) && !has_sub(
                l,
                ".aac"@,
            ) ==> exists|j: int| 0 <= j < c.len() && #[trigger] c[j].url == u && c[j].name == ts[k].name@
        }),
    decreases ts.len(),
{
    lemma_track_candidates_pass(ts, en, Some(f));
    let cur = track_candidates(ts, en, Some(f));
    assert forall|j: int| 0 <= j < cur.len() implies eq_ascii_nocase(
        format_of_lower(lowercase_of((#[trigger] cur[j]).url)),
        f,
    ) by {
        assert(format_passes(cur[j].url, Some(f)));
    }
    let d = ts.drop_last();
    let n = ts.len() - 1;
    let prev = track_candidates(d, en, Some(f));
    assert(ts.last() == ts[n]);
    match track_url_of(ts[k]) {
        Some(u) => {
            let lower = lowercase_of(u);
            if eq_ascii_nocase(format_of_lower(lower), f) || (eq_ascii_nocase("mp3"@, f) && !has_sub(
                lower,
                ".flac"@,
            ) && !has_sub(lower, ".m4a"@) && !has_sub(lower, ".wav"@) && !has_sub(lower, ".ogg"@)
                && !has_sub(lower, ".aac"@)) {
                assert(eq_ascii_nocase(format_of_lower(lower), f));
                if k < n {
                    assert(d[k] == ts[k]);
                    lemma_format_filter_is_detected_format(d, en, f, k);
                    let j = choose|j: int|
                        0 <= j < prev.len() && #[trigger] prev[j].url == u && prev[j].name
                            == ts[k].name@;
                    match track_url_of(ts[n]) {
                        Some(v) => if format_passes(v, Some(f)) {
                            assert(cur[j] == prev[j]);
                        } else {
                            assert(cur == prev);
                        },
                        None => {
                            assert(cur == prev);
                        },
                    }
                    assert(cur[j].url == u && cur[j].name == ts[k].name@);
                } else {
                    assert(format_passes(u, Some(f)));
                    assert(cur[prev.len() as int].url == u);
                }
            }
        },
        None => {},
    }
}

proof fn lemma_track_candidates_pass(ts: Seq<Track>, en: Seq<char>, filter: Option<Seq<char>>)
    ensures
        forall|i: int|
            0 <= i < track_candidates(ts, en, filter).len() ==> {
                let c = #[trigger] track_candidates(ts, en, filter)[i];
                format_passes(c.url, filter) && c.host == host_of(c.url) && c.era_name == en
            },
    decreases ts.len(),
{
    if ts.len() > 0 {
        lemma_track_candidates_pass(ts.drop_last(), en, filter);
        let prev = track_candidates(ts.drop_last(), en, filter);
        let cur = track_candidates(ts, en, filter);
        assert forall|i: int| 0 <= i < cur.len() implies {
            let c = #[trigger] cur[i];
            format_passes(c.url, filter) && c.host == host_of(c.url) && c.era_name == en
        } by {
            if i < prev.len() {
                assert(cur[i] == prev[i]);
            }
        }
    }
}

} // verus!
