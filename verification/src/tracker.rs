//! The tracker: its eras, their categories and tracks, the era list shown to
//! the user and the statistics gathered while loading it.
use vstd::prelude::*;
use indexmap::IndexMap;
use crate::collections::{
    key_index, value_of, stored, lemma_key_index_bounds, lemma_key_index_update,
    lemma_key_index_push, era_entries, era_count, era_at, category_entries, category_count,
    category_at, tally_entries, tally_new, tally_get, tally_insert,
};
use crate::text::{has_sub, matches_at, lowercase_of, to_lowercase, contains};
use crate::links::{
    track_url_of, host_of, format_of_lower, get_track_url, detect_host, detect_format,
};
use crate::crates::opt_view;

verus! {

/// One track of a tracker sheet. Any of the three text fields may hold the
/// track's link.
#[derive(Debug, Clone)]
pub struct Track {
    pub name: String,
    pub quality: Option<String>,
    pub url: Option<String>,
    pub available_length: Option<String>,
}

/// An era (an album or a period of work) with its tracks grouped in
/// categories.
#[derive(Debug)]
pub struct Era {
    pub name: String,
    pub data: Option<IndexMap<String, Vec<Track>>>,
}

/// A tracker sheet as the tracker service describes it.
#[derive(Debug)]
pub struct TrackerResponse {
    pub name: Option<String>,
    pub tabs: Vec<String>,
    pub current_tab: String,
    pub eras: IndexMap<String, Era>,
}

/// An era as the era list shows it.
#[derive(Debug, Clone)]
pub struct EraItem {
    pub key: String,
    pub name: String,
    pub track_count: usize,
    pub selected: bool,
    pub order: usize,
    pub categories: Vec<String>,
}

/// The abstract content of an [`EraItem`].
pub struct EraItemView {
    pub key: Seq<char>,
    pub name: Seq<char>,
    pub track_count: nat,
    pub selected: bool,
    pub order: nat,
    pub categories: Seq<Seq<char>>,
}

impl View for EraItem {
    type V = EraItemView;

    open spec fn view(&self) -> EraItemView {
        EraItemView {
            key: self.key@,
            name: self.name@,
            track_count: self.track_count as nat,
            selected: self.selected,
            order: self.order as nat,
            categories: self.categories@.map_values(|s: String| s@),
        }
    }
}

/// Counts gathered over the eras shown.
#[derive(Debug)]
pub struct TrackerStats {
    pub total_eras: usize,
    pub total_tracks: usize,
    pub tracks_with_urls: usize,
    pub tracks_without_urls: usize,
    pub hosts: IndexMap<String, usize>,
    pub formats: IndexMap<String, usize>,
}

// ---------------------------------------------------------------------------
// Specifications
// ---------------------------------------------------------------------------

/// The categories of an era (none when the era has no data).
pub open spec fn era_categories(e: Era) -> Seq<(Seq<char>, Vec<Track>)> {
    match e.data {
        Some(m) => category_entries(m),
        None => Seq::empty(),
    }
}

/// The tracks of a run of categories, category after category.
pub open spec fn category_tracks(cats: Seq<(Seq<char>, Vec<Track>)>) -> Seq<Track>
    decreases cats.len(),
{
    if cats.len() == 0 {
        Seq::empty()
    } else {
        category_tracks(cats.drop_last()) + cats.last().1@
    }
}

/// The tracks of an era.
pub open spec fn era_tracks(e: Era) -> Seq<Track> {
    category_tracks(era_categories(e))
}

/// Whether the era filter lets an era through: no filter, or the era's
/// lower-cased name contains the lower-cased filter.
pub open spec fn era_included(name: Seq<char>, filter: Option<Seq<char>>) -> bool {
    match filter {
        None => true,
        Some(f) => has_sub(lowercase_of(name), lowercase_of(f)),
    }
}

/// The list entry for the era at position `order` of the tracker.
pub open spec fn era_item_of(key: Seq<char>, e: Era, order: nat) -> EraItemView {
    EraItemView {
        key,
        name: e.name@,
        track_count: era_tracks(e).len(),
        selected: false,
        order,
        categories: era_categories(e).map_values(|c: (Seq<char>, Vec<Track>)| c.0),
    }
}

/// The list entries of the eras that the filter lets through, in tracker
/// order.
pub open spec fn era_items(eras: Seq<(Seq<char>, Era)>, filter: Option<Seq<char>>) -> Seq<
    EraItemView,
>
    decreases eras.len(),
{
    if eras.len() == 0 {
        Seq::empty()
    } else {
        let prev = era_items(eras.drop_last(), filter);
        let last = eras.last();
        if era_included(last.1.name@, filter) {
            prev.push(era_item_of(last.0, last.1, (eras.len() - 1) as nat))
        } else {
            prev
        }
    }
}

/// The tracks of the eras that the filter lets through, in tracker order.
pub open spec fn included_tracks(eras: Seq<(Seq<char>, Era)>, filter: Option<Seq<char>>) -> Seq<
    Track,
>
    decreases eras.len(),
{
    if eras.len() == 0 {
        Seq::empty()
    } else {
        let prev = included_tracks(eras.drop_last(), filter);
        let last = eras.last();
        if era_included(last.1.name@, filter) {
            prev + era_tracks(last.1)
        } else {
            prev
        }
    }
}

/// The links of those tracks that have one, in order.
pub open spec fn track_links(ts: Seq<Track>) -> Seq<Seq<char>>
    decreases ts.len(),
{
    if ts.len() == 0 {
        Seq::empty()
    } else {
        let prev = track_links(ts.drop_last());
        match track_url_of(ts.last()) {
            Some(u) => prev.push(u),
            None => prev,
        }
    }
}

/// How often each name occurs, in order of first occurrence.
pub open spec fn tally(keys: Seq<Seq<char>>) -> Seq<(Seq<char>, nat)>
    decreases keys.len(),
{
    if keys.len() == 0 {
        Seq::empty()
    } else {
        let prev = tally(keys.drop_last());
        let k = keys.last();
        let c: nat = match value_of(prev, k) {
            Some(c) => c,
            None => 0,
        };
        stored(prev, k, c + 1)
    }
}

/// The counts of a tally as natural numbers.
pub open spec fn counts_view(e: Seq<(Seq<char>, usize)>) -> Seq<(Seq<char>, nat)> {
    e.map_values(|p: (Seq<char>, usize)| (p.0, p.1 as nat))
}

/// The total of the counts of a tally.
pub open spec fn tally_total(e: Seq<(Seq<char>, nat)>) -> nat
    decreases e.len(),
{
    if e.len() == 0 {
        0
    } else {
        tally_total(e.drop_last()) + e.last().1
    }
}

/// The file hosts of a run of links.
pub open spec fn link_hosts(links: Seq<Seq<char>>) -> Seq<Seq<char>> {
    links.map_values(|u: Seq<char>| host_of(u))
}

/// The audio formats of a run of links.
pub open spec fn link_formats(links: Seq<Seq<char>>) -> Seq<Seq<char>> {
    links.map_values(|u: Seq<char>| format_of_lower(lowercase_of(u)))
}

/// The counters of `s` are those gathered over the tracks `ts`.
pub open spec fn stats_cover(s: TrackerStats, ts: Seq<Track>) -> bool {
    &&& s.total_tracks == ts.len()
    &&& s.tracks_with_urls == track_links(ts).len()
    &&& s.tracks_without_urls == ts.len() - track_links(ts).len()
    &&& counts_view(tally_entries(s.hosts)) == tally(link_hosts(track_links(ts)))
    &&& counts_view(tally_entries(s.formats)) == tally(link_formats(track_links(ts)))
}

pub open spec fn opt_str_view(o: Option<&str>) -> Option<Seq<char>> {
    match o {
        Some(s) => Some(s@),
        None => None,
    }
}

// ---------------------------------------------------------------------------
// Lemmas on tallies
// ---------------------------------------------------------------------------

proof fn lemma_counts_key_index(e: Seq<(Seq<char>, usize)>, k: Seq<char>)
    ensures
        key_index(counts_view(e), k) == key_index(e, k),
    decreases e.len(),
{
    if e.len() > 0 {
        assert(counts_view(e).drop_last() == counts_view(e.drop_last()));
        lemma_counts_key_index(e.drop_last(), k);
    }
}

proof fn lemma_counts_stored(e: Seq<(Seq<char>, usize)>, k: Seq<char>, v: usize)
    ensures
        counts_view(stored(e, k, v)) == stored(counts_view(e), k, v as nat),
        value_of(counts_view(e), k) == (match value_of(e, k) {
            Some(c) => Some(c as nat),
            None => None,
        }),
{
    lemma_counts_key_index(e, k);
    lemma_key_index_bounds(e, k);
    let i = key_index(e, k);
    if i >= 0 {
        assert(counts_view(e.update(i, (k, v))) =~= counts_view(e).update(i, (k, v as nat)));
    } else {
        assert(counts_view(e.push((k, v))) =~= counts_view(e).push((k, v as nat)));
    }
}

pub proof fn lemma_value_of_stored<V>(e: Seq<(Seq<char>, V)>, k: Seq<char>, v: V, q: Seq<char>)
    ensures
        value_of(stored(e, k, v), q) == (if q == k {
            Some(v)
        } else {
            value_of(e, q)
        }),
{
    lemma_key_index_bounds(e, k);
    lemma_key_index_bounds(e, q);
    let i = key_index(e, k);
    if i >= 0 {
        assert(e[i].0 == k);
        lemma_key_index_update(e, i, v, q);
        assert(e.update(i, (e[i].0, v)) == e.update(i, (k, v)));
        if q == k {
            assert(key_index(e, q) == i);
        } else {
            lemma_key_index_bounds(e.update(i, (k, v)), q);
            if key_index(e, q) >= 0 {
                assert(key_index(e, q) != i);
            }
        }
    } else {
        lemma_key_index_push(e, (k, v), q);
        lemma_key_index_bounds(e.push((k, v)), q);
        if key_index(e, q) >= 0 {
            assert(e.push((k, v))[key_index(e, q)] == e[key_index(e, q)]);
        }
    }
}

/// Every count of a tally is at most the number of names counted.
proof fn lemma_tally_counts_bounded(keys: Seq<Seq<char>>, q: Seq<char>)
    ensures
        match value_of(tally(keys), q) {
            Some(c) => c <= keys.len(),
            None => true,
        },
    decreases keys.len(),
{
    if keys.len() > 0 {
        let prev = tally(keys.drop_last());
        let k = keys.last();
        let c: nat = match value_of(prev, k) {
            Some(c) => c,
            None => 0,
        };
        lemma_tally_counts_bounded(keys.drop_last(), q);
        lemma_tally_counts_bounded(keys.drop_last(), k);
        lemma_value_of_stored(prev, k, c + 1, q);
    }
}

proof fn lemma_total_update(e: Seq<(Seq<char>, nat)>, i: int, kv: (Seq<char>, nat))
    requires
        0 <= i < e.len(),
    ensures
        tally_total(e.update(i, kv)) + e[i].1 == tally_total(e) + kv.1,
    decreases e.len(),
{
    if i < e.len() - 1 {
        assert(e.update(i, kv).drop_last() == e.drop_last().update(i, kv));
        lemma_total_update(e.drop_last(), i, kv);
    } else {
        assert(e.update(i, kv).drop_last() == e.drop_last());
    }
}

/// The counts of a tally add up to the number of names counted.
pub proof fn lemma_tally_total(keys: Seq<Seq<char>>)
    ensures
        tally_total(tally(keys)) == keys.len(),
    decreases keys.len(),
{
    if keys.len() > 0 {
        let prev = tally(keys.drop_last());
        let k = keys.last();
        lemma_tally_total(keys.drop_last());
        lemma_key_index_bounds(prev, k);
        let i = key_index(prev, k);
        if i >= 0 {
            lemma_total_update(prev, i, (k, prev[i].1 + 1));
        } else {
            assert(prev.push((k, 1nat)).drop_last() == prev);
        }
    }
}

// ---------------------------------------------------------------------------
// Gathering statistics
// ---------------------------------------------------------------------------

/// Adds one to the count of `key`.
fn bump(m: &mut IndexMap<String, usize>, key: String, Ghost(keys): Ghost<Seq<Seq<char>>>)
    requires
        counts_view(tally_entries(*old(m))) == tally(keys),
        keys.len() < usize::MAX,
    ensures
        counts_view(tally_entries(*final(m))) == tally(keys.push(key@)),
{
    let ghost e = tally_entries(*m);
    proof {
        lemma_counts_stored(e, key@, 0);
        lemma_tally_counts_bounded(keys, key@);
        assert(keys.push(key@).drop_last() == keys);
    }
    match tally_get(m, key.as_str()) {
        Some(c) => {
            proof {
                lemma_counts_stored(e, key@, (c + 1) as usize);
            }
            tally_insert(m, key, c + 1);
        },
        None => {
            proof {
                lemma_counts_stored(e, key@, 1);
            }
            tally_insert(m, key, 1);
        },
    }
}

/// Counts one more track.
fn count_track(s: &mut TrackerStats, t: &Track, Ghost(ts): Ghost<Seq<Track>>)
    requires
        stats_cover(*old(s), ts),
        ts.len() < usize::MAX,
    ensures
        stats_cover(*final(s), ts.push(*t)),
        final(s).total_eras == old(s).total_eras,
{
    let ghost links = track_links(ts);
    proof {
        assert(ts.push(*t).drop_last() == ts);
    }
    s.total_tracks = s.total_tracks + 1;
    match get_track_url(t) {
        Some(u) => {
            proof {
                assert(track_links(ts.push(*t)) == links.push(u@));
                assert(link_hosts(links.push(u@)) == link_hosts(links).push(host_of(u@)));
                assert(link_formats(links.push(u@)) == link_formats(links).push(
                    format_of_lower(lowercase_of(u@)),
                ));
                assert(links.len() <= ts.len()) by {
                    lemma_links_len(ts);
                }
            }
            s.tracks_with_urls = s.tracks_with_urls + 1;
            let host = detect_host(u.as_str());
            bump(&mut s.hosts, host, Ghost(link_hosts(links)));
            let format = detect_format(u.as_str());
            bump(&mut s.formats, format, Ghost(link_formats(links)));
        },
        None => {
            proof {
                lemma_links_len(ts);
            }
            s.tracks_without_urls = s.tracks_without_urls + 1;
        },
    }
}

proof fn lemma_links_len(ts: Seq<Track>)
    ensures
        track_links(ts).len() <= ts.len(),
    decreases ts.len(),
{
    if ts.len() > 0 {
        lemma_links_len(ts.drop_last());
    }
}

proof fn lemma_category_tracks_step(cats: Seq<(Seq<char>, Vec<Track>)>, c: int)
    requires
        0 <= c < cats.len(),
    ensures
        category_tracks(cats.take(c + 1)) == category_tracks(cats.take(c)) + cats[c].1@,
{
    assert(cats.take(c + 1).drop_last() == cats.take(c));
}

proof fn lemma_category_tracks_mono(cats: Seq<(Seq<char>, Vec<Track>)>, c: int)
    requires
        0 <= c <= cats.len(),
    ensures
        category_tracks(cats.take(c)).len() <= category_tracks(cats).len(),
    decreases cats.len() - c,
{
    if c < cats.len() {
        lemma_category_tracks_step(cats, c);
        lemma_category_tracks_mono(cats, c + 1);
    } else {
        assert(cats.take(c) == cats);
    }
}

proof fn lemma_included_step(
    eras: Seq<(Seq<char>, Era)>,
    filter: Option<Seq<char>>,
    i: int,
)
    requires
        0 <= i < eras.len(),
    ensures
        included_tracks(eras.take(i + 1), filter) == (if era_included(eras[i].1.name@, filter) {
            included_tracks(eras.take(i), filter) + era_tracks(eras[i].1)
        } else {
            included_tracks(eras.take(i), filter)
        }),
        era_items(eras.take(i + 1), filter) == (if era_included(eras[i].1.name@, filter) {
            era_items(eras.take(i), filter).push(era_item_of(eras[i].0, eras[i].1, i as nat))
        } else {
            era_items(eras.take(i), filter)
        }),
{
    assert(eras.take(i + 1).drop_last() == eras.take(i));
}

proof fn lemma_included_mono(eras: Seq<(Seq<char>, Era)>, filter: Option<Seq<char>>, i: int)
    requires
        0 <= i <= eras.len(),
    ensures
        included_tracks(eras.take(i), filter).len() <= included_tracks(eras, filter).len(),
    decreases eras.len() - i,
{
    if i < eras.len() {
        lemma_included_step(eras, filter, i);
        lemma_included_mono(eras, filter, i + 1);
    } else {
        assert(eras.take(i) == eras);
    }
}

/// Walks the categories of one era: records their names and counts their
/// tracks.
fn gather_era(
    era: &Era,
    stats: &mut TrackerStats,
    categories: &mut Vec<String>,
    Ghost(before): Ghost<Seq<Track>>,
    Ghost(bound): Ghost<nat>,
) -> (track_count: usize)
    requires
        stats_cover(*old(stats), before),
        old(categories)@.len() == 0,
        before.len() + era_tracks(*era).len() <= bound,
        bound <= usize::MAX,
    ensures
        stats_cover(*final(stats), before + era_tracks(*era)),
        final(stats).total_eras == old(stats).total_eras,
        track_count == era_tracks(*era).len(),
        final(categories)@.map_values(|s: String| s@) == era_categories(*era).map_values(
            |c: (Seq<char>, Vec<Track>)| c.0,
        ),
{
    let mut track_count: usize = 0;
    match &era.data {
        None => {
            assert(before + era_tracks(*era) == before);
            assert(categories@.map_values(|s: String| s@) =~= Seq::<Seq<char>>::empty());
        },
        Some(m) => {
            let ghost cats = category_entries(*m);
            let n = category_count(m);
            proof {
                assert(cats.take(0) == Seq::<(Seq<char>, Vec<Track>)>::empty());
                assert(before + category_tracks(cats.take(0)) == before);
                lemma_category_tracks_mono(cats, 0);
            }
            for c in 0..n
                invariant
                    n == cats.len(),
                    cats == category_entries(*m),
                    era.data == Some(*m),
                    stats_cover(*stats, before + category_tracks(cats.take(c as int))),
                    stats.total_eras == old(stats).total_eras,
                    track_count == category_tracks(cats.take(c as int)).len(),
                    before.len() + era_tracks(*era).len() <= bound,
                    bound <= usize::MAX,
                    categories@.map_values(|s: String| s@) == cats.take(c as int).map_values(
                        |p: (Seq<char>, Vec<Track>)| p.0,
                    ),
            {
                let (name, tracks) = category_at(m, c);
                proof {
                    lemma_category_tracks_step(cats, c as int);
                    lemma_category_tracks_mono(cats, c + 1);
                }
                let ghost done = before + category_tracks(cats.take(c as int));
                let tn = tracks.len();
                for j in 0..tn
                    invariant
                        tn == tracks@.len(),
                        stats_cover(*stats, done + tracks@.take(j as int)),
                        stats.total_eras == old(stats).total_eras,
                        track_count == category_tracks(cats.take(c as int)).len() + j,
                        done == before + category_tracks(cats.take(c as int)),
                        category_tracks(cats.take(c + 1)) == category_tracks(cats.take(c as int))
                            + tracks@,
                        before.len() + category_tracks(cats.take(c + 1)).len() <= bound,
                        bound <= usize::MAX,
                {
                    proof {
                        assert(tracks@.take(j + 1) == tracks@.take(j as int).push(tracks@[j as int]));
                        assert(done + tracks@.take(j + 1) == (done + tracks@.take(j as int)).push(
                            tracks@[j as int],
                        ));
                    }
                    count_track(stats, &tracks[j], Ghost(done + tracks@.take(j as int)));
                    track_count = track_count + 1;
                }
                proof {
                    assert(tracks@.take(tn as int) == tracks@);
                    assert(done + tracks@ == before + category_tracks(cats.take(c + 1)));
                }
                let ghost prev_names = categories@;
                categories.push(name.clone());
                proof {
                    assert(cats.take(c + 1) == cats.take(c as int).push(cats[c as int]));
                    assert(categories@ == prev_names.push(*name));
                    assert(categories@.map_values(|s: String| s@) =~= prev_names.map_values(
                        |s: String| s@,
                    ).push(name@));
                    assert(cats.take(c + 1).map_values(|p: (Seq<char>, Vec<Track>)| p.0)
                        =~= cats.take(c as int).map_values(|p: (Seq<char>, Vec<Track>)| p.0).push(
                        cats[c as int].0,
                    ));
                    assert(categories@.map_values(|s: String| s@) =~= cats.take(c + 1).map_values(
                        |p: (Seq<char>, Vec<Track>)| p.0,
                    ));
                }
            }
            proof {
                assert(cats.take(n as int) == cats);
            }
        },
    }
    track_count
}

/// Builds the era list and the statistics of a freshly loaded tracker. The
/// era filter, when given, keeps the eras whose lower-cased name contains the
/// lower-cased filter; each era keeps its position in the tracker as its
/// `order`, and the counts cover the tracks of the eras kept.
pub fn summarize_tracker(data: &TrackerResponse, filter_era: Option<&str>) -> (r: (
    Vec<EraItem>,
    TrackerStats,
))
    requires
        included_tracks(era_entries(data.eras), opt_str_view(filter_era)).len() <= usize::MAX,
    ensures
        r.0@.map_values(|e: EraItem| e@) == era_items(
            era_entries(data.eras),
            opt_str_view(filter_era),
        ),
        r.1.total_eras == r.0@.len(),
        stats_cover(r.1, included_tracks(era_entries(data.eras), opt_str_view(filter_era))),
{
    let ghost eras = era_entries(data.eras);
    let ghost filter = opt_str_view(filter_era);
    let filter_lower: Option<String> = match filter_era {
        Some(f) => Some(to_lowercase(f)),
        None => None,
    };
    let mut items: Vec<EraItem> = Vec::new();
    let mut stats = TrackerStats {
        total_eras: 0,
        total_tracks: 0,
        tracks_with_urls: 0,
        tracks_without_urls: 0,
        hosts: tally_new(),
        formats: tally_new(),
    };
    let n = era_count(&data.eras);
    proof {
        assert(eras.take(0) == Seq::<(Seq<char>, Era)>::empty());
        assert(tally(link_hosts(track_links(Seq::<Track>::empty()))) =~= Seq::<
            (Seq<char>, nat),
        >::empty());
        assert(counts_view(Seq::<(Seq<char>, usize)>::empty()) =~= Seq::<
            (Seq<char>, nat),
        >::empty());
        assert(link_formats(Seq::<Seq<char>>::empty()) =~= Seq::<Seq<char>>::empty());
        assert(link_hosts(Seq::<Seq<char>>::empty()) =~= Seq::<Seq<char>>::empty());
    }
    for i in 0..n
        invariant
            n == eras.len(),
            eras == era_entries(data.eras),
            filter == opt_str_view(filter_era),
            match filter_era {
                Some(f) => opt_view(filter_lower) == Some(lowercase_of(f@)),
                None => filter_lower is None,
            },
            included_tracks(eras, filter).len() <= usize::MAX,
            items@.map_values(|e: EraItem| e@) == era_items(eras.take(i as int), filter),
            stats_cover(stats, included_tracks(eras.take(i as int), filter)),
            stats.total_eras == 0,
    {
        let (key, era) = era_at(&data.eras, i);
        proof {
            lemma_included_step(eras, filter, i as int);
            lemma_included_mono(eras, filter, i + 1);
        }
        let keep = match &filter_lower {
            Some(fl) => {
                let name_lower = to_lowercase(era.name.as_str());
                contains(name_lower.as_str(), fl.as_str())
            },
            None => true,
        };
        if keep {
            let ghost before = included_tracks(eras.take(i as int), filter);
            let mut categories: Vec<String> = Vec::new();
            let track_count = gather_era(
                era,
                &mut stats,
                &mut categories,
                Ghost(before),
                Ghost(included_tracks(eras.take(i + 1), filter).len()),
            );
            let item = EraItem {
                key: key.clone(),
                name: era.name.clone(),
                track_count,
                selected: false,
                order: i,
                categories,
            };
            let ghost prev_items = items@;
            items.push(item);
            proof {
                assert(items@.map_values(|e: EraItem| e@) =~= prev_items.map_values(
                    |e: EraItem| e@,
                ).push(era_item_of(eras[i as int].0, eras[i as int].1, i as nat)));
            }
        }
    }
    proof {
        assert(eras.take(n as int) == eras);
    }
    stats.total_eras = items.len();
    (items, stats)
}


/// The number of tracks of an era, or none when it exceeds `limit`.
fn era_track_total(era: &Era, limit: usize) -> (r: Option<usize>)
    ensures
        match r {
            Some(n) => n == era_tracks(*era).len() && n <= limit,
            None => era_tracks(*era).len() > limit,
        },
{
    match &era.data {
        None => {
            assert(era_categories(*era) == Seq::<(Seq<char>, Vec<Track>)>::empty());
            Some(0)
        },
        Some(m) => {
            let ghost cats = category_entries(*m);
            let n = category_count(m);
            let mut total: usize = 0;
            assert(cats.take(0) == Seq::<(Seq<char>, Vec<Track>)>::empty());
            for j in 0..n
                invariant
                    n == cats.len(),
                    cats == category_entries(*m),
                    cats == era_categories(*era),
                    total == category_tracks(cats.take(j as int)).len(),
                    total <= limit,
            {
                let (_name, tracks) = category_at(m, j);
                proof {
                    lemma_category_tracks_step(cats, j as int);
                }
                let k = tracks.len();
                if k > limit - total {
                    proof {
                        lemma_category_tracks_mono(cats, j + 1);
                    }
                    return None;
                }
                total = total + k;
            }
            assert(cats.take(n as int) == cats);
            Some(total)
        },
    }
}

/// The number of tracks in the eras that the filter keeps, or none when it
/// does not fit in a `usize` (then the tracker cannot be summarized).
pub fn included_track_total(data: &TrackerResponse, filter_era: Option<&str>) -> (r: Option<usize>)
    ensures
        match r {
            Some(n) => n == included_tracks(era_entries(data.eras), opt_str_view(filter_era)).len(),
            None => included_tracks(era_entries(data.eras), opt_str_view(filter_era)).len()
                > usize::MAX,
        },
{
    let ghost eras = era_entries(data.eras);
    let ghost filter = opt_str_view(filter_era);
    let filter_lower: Option<String> = match filter_era {
        Some(f) => Some(to_lowercase(f)),
        None => None,
    };
    let n = era_count(&data.eras);
    let mut total: usize = 0;
    assert(eras.take(0) == Seq::<(Seq<char>, Era)>::empty());
    for i in 0..n
        invariant
            n == eras.len(),
            eras == era_entries(data.eras),
            filter == opt_str_view(filter_era),
            match filter_era {
                Some(f) => opt_view(filter_lower) == Some(lowercase_of(f@)),
                None => filter_lower is None,
            },
            total == included_tracks(eras.take(i as int), filter).len(),
    {
        let (_key, era) = era_at(&data.eras, i);
        proof {
            lemma_included_step(eras, filter, i as int);
        }
        let keep = match &filter_lower {
            Some(fl) => {
                let name_lower = to_lowercase(era.name.as_str());
                contains(name_lower.as_str(), fl.as_str())
            },
            None => true,
        };
        if keep {
            match era_track_total(era, usize::MAX - total) {
                Some(k) => {
                    total = total + k;
                },
                None => {
                    proof {
                        lemma_included_mono(eras, filter, i + 1);
                    }
                    return None;
                },
            }
        }
    }
    assert(eras.take(n as int) == eras);
    Some(total)
}

// ---------------------------------------------------------------------------
// Laws
// ---------------------------------------------------------------------------

/// Every counted track is counted either with or without a link, and the
/// per-host and per-format counts each add up to the tracks with a link.
pub proof fn lemma_stats_add_up(s: TrackerStats, ts: Seq<Track>)
    requires
        stats_cover(s, ts),
    ensures
        s.tracks_with_urls + s.tracks_without_urls == s.total_tracks,
        tally_total(counts_view(tally_entries(s.hosts))) == s.tracks_with_urls,
        tally_total(counts_view(tally_entries(s.formats))) == s.tracks_with_urls,
{
    lemma_links_len(ts);
    lemma_tally_total(link_hosts(track_links(ts)));
    lemma_tally_total(link_formats(track_links(ts)));
}

/// The track counts of the era list.
pub open spec fn items_track_total(items: Seq<EraItemView>) -> nat
    decreases items.len(),
{
    if items.len() == 0 {
        0
    } else {
        items_track_total(items.drop_last()) + items.last().track_count
    }
}

/// The era filter is a case-insensitive substring match: with a filter,
/// the era at position `i` is listed exactly when its lower-cased name
/// contains the lower-cased filter at some position (not only at its
/// start), and its entry carries its key and name; without a filter every
/// era is listed.
pub proof fn lemma_era_filter_is_substring(eras: Seq<(Seq<char>, Era)>, filter: Option<Seq<char>>, i: int)
    requires
        0 <= i < eras.len(),
    ensures
        (exists|j: int| 0 <= j < era_items(eras, filter).len() && #[trigger] era_items(eras, filter)[j].order == i)
            <==> match filter {
            None => true,
            Some(f) => {
                let name = lowercase_of(eras[i].1.name@);
                let lf = lowercase_of(f);
                exists|p: int|
                    0 <= p && p + lf.len() <= name.len() && #[trigger] name.subrange(p, p + lf.len())
                        == lf
            },
        },
        forall|j: int|
            0 <= j < era_items(eras, filter).len() && #[trigger] era_items(eras, filter)[j].order == i
                ==> era_items(eras, filter)[j].key == eras[i].0 && era_items(eras, filter)[j].name
                == eras[i].1.name@,
    decreases eras.len(),
{
    let d = eras.drop_last();
    let n = eras.len() - 1;
    let prev = era_items(d, filter);
    let cur = era_items(eras, filter);
    lemma_era_items_ordered(d, filter);
    let inc = era_included(eras[n].1.name@, filter);
    assert(eras.last() == eras[n]);
    if inc {
        assert(cur == prev.push(era_item_of(eras[n].0, eras[n].1, n as nat)));
    } else {
        assert(cur == prev);
    }
    if i < n {
        assert(d[i] == eras[i]);
        lemma_era_filter_is_substring(d, filter, i);
        if exists|j: int| 0 <= j < cur.len() && #[trigger] cur[j].order == i {
            let j = choose|j: int| 0 <= j < cur.len() && #[trigger] cur[j].order == i;
            assert(j < prev.len());
            assert(prev[j] == cur[j]);
        }
        if exists|j: int| 0 <= j < prev.len() && #[trigger] prev[j].order == i {
            let j = choose|j: int| 0 <= j < prev.len() && #[trigger] prev[j].order == i;
            assert(cur[j] == prev[j]);
        }
        assert forall|j: int| 0 <= j < cur.len() && #[trigger] cur[j].order == i implies cur[j].key
            == eras[i].0 && cur[j].name == eras[i].1.name@ by {
            assert(j < prev.len());
            assert(prev[j] == cur[j]);
        }
    } else {
        assert forall|j: int| 0 <= j < prev.len() implies #[trigger] prev[j].order != i by {
            assert(prev[j].order < d.len());
        }
        if inc {
            assert(cur[prev.len() as int].order == i);
        } else {
            if exists|j: int| 0 <= j < cur.len() && #[trigger] cur[j].order == i {
                let j = choose|j: int| 0 <= j < cur.len() && #[trigger] cur[j].order == i;
                assert(prev[j].order != i);
            }
        }
        match filter {
            None => {},
            Some(f) => {
                let name = lowercase_of(eras[i].1.name@);
                let lf = lowercase_of(f);
                if inc {
                    let p = choose|p: int| #[trigger] matches_at(name, lf, p);
                    assert(name.subrange(p, p + lf.len()) == lf);
                }
                if exists|p: int| 0 <= p && p + lf.len() <= name.len() && #[trigger] name.subrange(p, p + lf.len()) == lf {
                    let p = choose|p: int| 0 <= p && p + lf.len() <= name.len() && #[trigger] name.subrange(p, p + lf.len()) == lf;
                    assert(matches_at(name, lf, p));
                }
            },
        }
    }
}

/// The era list shows the eras in tracker order (their `order` strictly
/// increases, each below the number of eras), and its track counts add up
/// to the tracks counted in the statistics.
pub proof fn lemma_era_items_ordered(eras: Seq<(Seq<char>, Era)>, filter: Option<Seq<char>>)
    ensures
        forall|i: int, j: int|
            0 <= i < j < era_items(eras, filter).len() ==> #[trigger] era_items(eras, filter)[i].order
                < #[trigger] era_items(eras, filter)[j].order,
        forall|i: int|
            0 <= i < era_items(eras, filter).len() ==> #[trigger] era_items(eras, filter)[i].order
                < eras.len(),
        items_track_total(era_items(eras, filter)) == included_tracks(eras, filter).len(),
    decreases eras.len(),
{
    if eras.len() > 0 {
        let d = eras.drop_last();
        lemma_era_items_ordered(d, filter);
        let prev = era_items(d, filter);
        let cur = era_items(eras, filter);
        if era_included(eras.last().1.name@, filter) {
            assert(cur == prev.push(era_item_of(eras.last().0, eras.last().1, (eras.len() - 1) as nat)));
            assert forall|i: int| 0 <= i < cur.len() implies #[trigger] cur[i].order < eras.len() by {
                if i < prev.len() {
                    assert(cur[i] == prev[i]);
                }
            }
            assert forall|i: int, j: int| 0 <= i < j < cur.len() implies #[trigger] cur[i].order
                < #[trigger] cur[j].order by {
                assert(cur[i] == prev[i]);
                if j < prev.len() {
                    assert(cur[j] == prev[j]);
                    assert(prev[i].order < prev[j].order);
                } else {
                    assert(prev[i].order < d.len());
                }
            }
            assert(cur.drop_last() == prev);
        } else {
            assert(cur == prev);
        }
    }
}

} // verus!
