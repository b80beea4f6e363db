//! The state of an interactive session: the loaded tracker, the era list
//! with its selection and cursor, the status line, the log, and how keys
//! change them.
use vstd::prelude::*;
use crate::text::{decimal, push_decimal, append};
use crate::links::{extract_tracker_id, tracker_id_of, TrackerIdError};
use crate::collections::{tally_entries, tally_len, tally_at, era_entries};
use crate::tracker::{
    EraItem, TrackerResponse, TrackerStats, summarize_tracker, included_track_total, era_items,
    included_tracks, stats_cover, opt_str_view,
};
use crate::download::{DownloadState, since, finished_count};
use crate::format::{
    format_bytes, format_bytes_speed, format_duration, format_seconds_tenths, bytes_text,
    rate_text, duration_text, seconds_tenths_text,
};

verus! {

/// The largest number of log lines kept.
pub const MAX_LOG_LINES: usize = 100;

/// The tracker service.
pub const API_BASE: &'static str = "https://tracker.israeli.ovh";

/// A key press, as far as the session cares.
#[derive(Debug, Clone, Copy, PartialEq, Eq, Structural)]
pub enum Key {
    Char(char),
    Up,
    Down,
    PageUp,
    PageDown,
    Home,
    End,
    Enter,
    Esc,
    Other,
}

/// What the caller has to do after a key press.
#[derive(Debug, Clone, Copy, PartialEq, Eq, Structural)]
pub enum KeyAction {
    /// Nothing beyond redrawing.
    Nothing,
    /// Leave the session.
    Quit,
    /// Load the tracker again.
    Reload,
    /// Start downloading the selected eras in the background.
    StartDownload,
}

/// What follows once the links of the chosen tracks are resolved.
#[derive(Debug, Clone, Copy, PartialEq, Eq, Structural)]
pub enum BatchNext {
    /// Nothing can be downloaded.
    Stop,
    /// Only list what would be downloaded.
    DryRun,
    /// Download.
    Proceed,
}

/// An interactive or batch session.
pub struct App {
    pub tracker_id: String,
    pub tracker_data: Option<TrackerResponse>,
    pub eras: Vec<EraItem>,
    /// The era under the cursor.
    pub selected: Option<usize>,
    pub status: String,
    pub downloading: bool,
    pub should_quit: bool,
    pub stats: Option<TrackerStats>,
    pub show_details: bool,
    pub show_help: bool,
    pub verbose: bool,
    /// (time in nanoseconds, message), oldest first.
    pub log_messages: Vec<(u64, String)>,
}

// ---------------------------------------------------------------------------
// Selection
// ---------------------------------------------------------------------------

/// The number of selected eras.
pub open spec fn count_selected(eras: Seq<EraItem>) -> nat
    decreases eras.len(),
{
    if eras.len() == 0 {
        0
    } else {
        count_selected(eras.drop_last()) + if eras.last().selected {
            1nat
        } else {
            0nat
        }
    }
}

/// The number of tracks in the selected eras.
pub open spec fn selected_tracks(eras: Seq<EraItem>) -> nat
    decreases eras.len(),
{
    if eras.len() == 0 {
        0
    } else {
        selected_tracks(eras.drop_last()) + if eras.last().selected {
            eras.last().track_count as nat
        } else {
            0nat
        }
    }
}

/// The number of tracks in all eras.
pub open spec fn all_tracks(eras: Seq<EraItem>) -> nat
    decreases eras.len(),
{
    if eras.len() == 0 {
        0
    } else {
        all_tracks(eras.drop_last()) + eras.last().track_count as nat
    }
}

/// The keys of the selected eras, in list order.
pub open spec fn selected_keys_of(eras: Seq<EraItem>) -> Seq<Seq<char>>
    decreases eras.len(),
{
    if eras.len() == 0 {
        Seq::empty()
    } else {
        let prev = selected_keys_of(eras.drop_last());
        if eras.last().selected {
            prev.push(eras.last().key@)
        } else {
            prev
        }
    }
}

/// `b` is `a` with every era's selection set to `on`.
pub open spec fn all_set(a: Seq<EraItem>, b: Seq<EraItem>, on: bool) -> bool {
    &&& b.len() == a.len()
    &&& forall|i: int|
        0 <= i < a.len() ==> {
            let x = #[trigger] b[i];
            let y = a[i];
            x.selected == on && x.key == y.key && x.name == y.name && x.track_count
                == y.track_count && x.order == y.order && x.categories == y.categories
        }
}

/// `b` is `a` with the selection of era `i` flipped.
pub open spec fn flipped(a: Seq<EraItem>, b: Seq<EraItem>, i: int) -> bool {
    &&& b.len() == a.len()
    &&& forall|j: int| 0 <= j < a.len() && j != i ==> #[trigger] b[j] == a[j]
    &&& b[i].selected == !a[i].selected
    &&& b[i].key == a[i].key && b[i].name == a[i].name && b[i].track_count == a[i].track_count
    &&& b[i].order == a[i].order && b[i].categories == a[i].categories
}

/// The loaded tracker, its statistics, the id, the verbosity and the log
/// are the same in both sessions.
pub open spec fn same_data(a: App, b: App) -> bool {
    &&& b.tracker_id == a.tracker_id
    &&& b.tracker_data == a.tracker_data
    &&& b.stats == a.stats
    &&& b.verbose == a.verbose
    &&& b.log_messages == a.log_messages
}

/// The cursor and the screen flags are the same in both sessions.
pub open spec fn same_screen(a: App, b: App) -> bool {
    &&& b.selected == a.selected
    &&& b.downloading == a.downloading
    &&& b.should_quit == a.should_quit
    &&& b.show_details == a.show_details
    &&& b.show_help == a.show_help
}

/// Only the era list may differ between the two sessions.
pub open spec fn only_eras_changed(a: App, b: App) -> bool {
    same_data(a, b) && same_screen(a, b) && b.status == a.status
}

/// Only the status line may differ between the two sessions.
pub open spec fn only_status_changed(a: App, b: App) -> bool {
    same_data(a, b) && same_screen(a, b) && b.eras == a.eras
}

/// Only the status line and the downloading flag may differ between the
/// two sessions.
pub open spec fn only_progress_changed(a: App, b: App) -> bool {
    &&& same_data(a, b)
    &&& b.eras == a.eras
    &&& b.selected == a.selected
    &&& b.should_quit == a.should_quit
    &&& b.show_details == a.show_details
    &&& b.show_help == a.show_help
}

/// Session `b` is session `a` after taking in the tracker `data` with the
/// era filter `filter`: the era list and statistics of the kept eras, the
/// loaded-status line, the tracker itself; the rest unchanged.
pub open spec fn tracker_applied(a: App, b: App, data: TrackerResponse, filter: Option<Seq<char>>) -> bool {
    &&& b.eras@.map_values(|e: EraItem| e@) == era_items(era_entries(data.eras), filter)
    &&& b.stats matches Some(s) && stats_cover(s, included_tracks(era_entries(data.eras), filter))
        && s.total_eras == b.eras@.len() && b.status@ == loaded_text(
        s.total_eras as nat,
        s.total_tracks as nat,
        s.tracks_with_urls as nat,
    )
    &&& b.tracker_data == Some(data)
    &&& b.tracker_id == a.tracker_id
    &&& b.verbose == a.verbose
    &&& b.log_messages == a.log_messages
    &&& same_screen(a, b)
}

/// The log after adding a line when logging is on: the oldest line goes
/// once there are more than the maximum.
pub open spec fn logged(log: Seq<(u64, String)>, line: (u64, String)) -> Seq<(u64, String)> {
    let l = log.push(line);
    if l.len() > MAX_LOG_LINES {
        l.remove(0)
    } else {
        l
    }
}

/// The cursor position a navigation key leads to, from cursor `sel` in a
/// list of `len` eras; `None` for keys that do not move the cursor or when
/// it stays put.
pub open spec fn cursor_after(sel: Option<usize>, len: nat, key: Key) -> Option<int> {
    let i: int = match sel {
        Some(i) => i as int,
        None => 0,
    };
    let last: int = if len > 0 {
        len - 1
    } else {
        0
    };
    match key {
        Key::Up => if i > 0 {
            Some(i - 1)
        } else {
            None
        },
        Key::Char('k') => if i > 0 {
            Some(i - 1)
        } else {
            None
        },
        Key::Down => if i < last {
            Some(i + 1)
        } else {
            None
        },
        Key::Char('j') => if i < last {
            Some(i + 1)
        } else {
            None
        },
        Key::PageUp => Some(if i >= 10 {
            i - 10
        } else {
            0
        }),
        Key::PageDown => Some(if i + 10 < last {
            i + 10
        } else {
            last
        }),
        Key::Home => Some(0),
        Key::End => if len > 0 {
            Some(len - 1)
        } else {
            None
        },
        _ => None,
    }
}

/// A key that closes the help screen (or quits outside it).
pub open spec fn is_quit_key(key: Key) -> bool {
    key == Key::Esc || key == Key::Char('q')
}

impl App {
    /// A session for the tracker named by `tracker` (a bare id or a link
    /// holding one), with the cursor on the first era and nothing loaded.
    pub fn new(tracker: &str, verbose: bool) -> (r: Result<App, TrackerIdError>)
        ensures
            match r {
                Ok(app) => {
                    &&& tracker_id_of(tracker@) == Some(app.tracker_id@)
                    &&& app.tracker_data is None && app.eras@.len() == 0
                    &&& app.selected == Some(0usize)
                    &&& app.status@.len() == 0
                    &&& !app.downloading && !app.should_quit && !app.show_details
                        && !app.show_help
                    &&& app.stats is None
                    &&& app.verbose == verbose
                    &&& app.log_messages@.len() == 0
                },
                Err(_) => tracker_id_of(tracker@) is None,
            },
    {
        match extract_tracker_id(tracker) {
            Ok(id) => Ok(
                App {
                    tracker_id: id,
                    tracker_data: None,
                    eras: Vec::new(),
                    selected: Some(0),
                    status: String::new(),
                    downloading: false,
                    should_quit: false,
                    stats: None,
                    show_details: false,
                    show_help: false,
                    verbose,
                    log_messages: Vec::new(),
                },
            ),
            Err(e) => Err(e),
        }
    }

    /// Adds a line to the log when logging is on, keeping the most recent
    /// hundred lines.
    pub fn log(&mut self, msg: String, now: u64)
        ensures
            final(self).log_messages@ == (if old(self).verbose {
                logged(old(self).log_messages@, (now, msg))
            } else {
                old(self).log_messages@
            }),
            final(self).tracker_id == old(self).tracker_id,
            final(self).tracker_data == old(self).tracker_data,
            final(self).stats == old(self).stats,
            final(self).verbose == old(self).verbose,
            final(self).eras == old(self).eras,
            final(self).status == old(self).status,
            same_screen(*old(self), *final(self)),
    {
        if self.verbose {
            self.log_messages.push((now, msg));
            if self.log_messages.len() > MAX_LOG_LINES {
                self.log_messages.remove(0);
            }
        }
    }

    /// Flips the selection of the era under the cursor, if there is one.
    pub fn toggle_selection(&mut self)
        ensures
            match old(self).selected {
                Some(i) => if i < old(self).eras@.len() {
                    flipped(old(self).eras@, final(self).eras@, i as int)
                } else {
                    final(self).eras == old(self).eras
                },
                None => final(self).eras == old(self).eras,
            },
            only_eras_changed(*old(self), *final(self)),
    {
        if let Some(i) = self.selected {
            if i < self.eras.len() {
                let e = &mut self.eras[i];
                e.selected = !e.selected;
            }
        }
    }

    /// Selects every era.
    pub fn select_all(&mut self)
        ensures
            all_set(old(self).eras@, final(self).eras@, true),
            only_eras_changed(*old(self), *final(self)),
    {
        self.set_all(true);
    }

    /// Deselects every era.
    pub fn deselect_all(&mut self)
        ensures
            all_set(old(self).eras@, final(self).eras@, false),
            only_eras_changed(*old(self), *final(self)),
    {
        self.set_all(false);
    }

    fn set_all(&mut self, on: bool)
        ensures
            all_set(old(self).eras@, final(self).eras@, on),
            only_eras_changed(*old(self), *final(self)),
    {
        let n = self.eras.len();
        let ghost start = self.eras@;
        for i in 0..n
            invariant
                n == start.len(),
                self.eras@.len() == n,
                only_eras_changed(*old(self), *self),
                start == old(self).eras@,
                forall|j: int|
                    0 <= j < n ==> {
                        let x = #[trigger] self.eras@[j];
                        let y = start[j];
                        &&& j < i ==> x.selected == on
                        &&& j >= i ==> x.selected == y.selected
                        &&& x.key == y.key && x.name == y.name && x.track_count == y.track_count
                        &&& x.order == y.order && x.categories == y.categories
                    },
        {
            let e = &mut self.eras[i];
            e.selected = on;
        }
    }

    /// The number of selected eras.
    pub fn selected_count(&self) -> (r: usize)
        ensures
            r == count_selected(self.eras@),
    {
        let n = self.eras.len();
        let mut c: usize = 0;
        for i in 0..n
            invariant
                n == self.eras@.len(),
                c == count_selected(self.eras@.take(i as int)),
                c <= i,
        {
            proof {
                assert(self.eras@.take(i + 1).drop_last() == self.eras@.take(i as int));
            }
            if self.eras[i].selected {
                c = c + 1;
            }
        }
        proof {
            assert(self.eras@.take(n as int) == self.eras@);
        }
        c
    }

    /// The number of tracks in the selected eras.
    pub fn selected_track_count(&self) -> (r: usize)
        requires
            selected_tracks(self.eras@) <= usize::MAX,
        ensures
            r == selected_tracks(self.eras@),
    {
        let n = self.eras.len();
        let mut c: usize = 0;
        for i in 0..n
            invariant
                n == self.eras@.len(),
                c == selected_tracks(self.eras@.take(i as int)),
                selected_tracks(self.eras@) <= usize::MAX,
        {
            proof {
                assert(self.eras@.take(i + 1).drop_last() == self.eras@.take(i as int));
                lemma_selected_tracks_prefix(self.eras@, i + 1);
            }
            if self.eras[i].selected {
                c = c + self.eras[i].track_count;
            }
        }
        proof {
            assert(self.eras@.take(n as int) == self.eras@);
        }
        c
    }

    /// The keys of the selected eras, in list order.
    pub fn selected_keys(&self) -> (r: Vec<String>)
        ensures
            r@.map_values(|k: String| k@) == selected_keys_of(self.eras@),
    {
        selected_era_keys(&self.eras)
    }

    // -----------------------------------------------------------------------
    // Keys
    // -----------------------------------------------------------------------

    /// Applies a key press.
    ///
    /// With the help screen open, `?`, `q` and Esc close it and other keys do
    /// nothing. During a download, `q` and Esc quit and other keys do
    /// nothing. Otherwise `q`/Esc quit, `?` opens the help screen, the arrow
    /// keys, `k`/`j`, Page Up/Down, Home and End move the cursor, Space
    /// toggles the era under the cursor, `a`/`n` select all/none, `d` toggles
    /// the details panel, `r` asks for a reload, `s` shows the statistics in
    /// the status line and Enter starts downloading.
    pub fn handle_key(&mut self, key: Key) -> (action: KeyAction)
        requires
            !old(self).show_help && !old(self).downloading && key == Key::PageDown ==> match old(
                self,
            ).selected {
                Some(i) => i + 10 <= usize::MAX,
                None => true,
            },
        ensures
            same_data(*old(self), *final(self)),
            old(self).show_help || old(self).downloading ==> final(self).status == old(self).status,
            old(self).show_help ==> {
                &&& final(self).show_help == !(key == Key::Char('?') || is_quit_key(key))
                &&& action == KeyAction::Nothing
                &&& final(self).eras == old(self).eras
                &&& final(self).selected == old(self).selected
                &&& final(self).should_quit == old(self).should_quit
                &&& final(self).downloading == old(self).downloading
            },
            !old(self).show_help && old(self).downloading ==> {
                &&& action == (if is_quit_key(key) {
                    KeyAction::Quit
                } else {
                    KeyAction::Nothing
                })
                &&& final(self).should_quit == (old(self).should_quit || is_quit_key(key))
                &&& final(self).eras == old(self).eras
                &&& final(self).selected == old(self).selected
                &&& final(self).show_help == old(self).show_help
                &&& final(self).downloading
            },
            !old(self).show_help && !old(self).downloading ==> {
                &&& final(self).should_quit == (old(self).should_quit || is_quit_key(key))
                &&& final(self).show_help == (key == Key::Char('?'))
                &&& final(self).selected == (match cursor_after(
                    old(self).selected,
                    old(self).eras@.len(),
                    key,
                ) {
                    Some(c) => Some(c as usize),
                    None => old(self).selected,
                })
                &&& (key == Key::Char(' ') ==> (match old(self).selected {
                    Some(i) => if i < old(self).eras@.len() {
                        flipped(old(self).eras@, final(self).eras@, i as int)
                    } else {
                        final(self).eras == old(self).eras
                    },
                    None => final(self).eras == old(self).eras,
                }))
                &&& (key == Key::Char('a') ==> all_set(old(self).eras@, final(self).eras@, true))
                &&& (key == Key::Char('n') ==> all_set(old(self).eras@, final(self).eras@, false))
                &&& (key != Key::Char(' ') && key != Key::Char('a') && key != Key::Char('n')
                    ==> final(self).eras == old(self).eras)
                &&& final(self).show_details == (old(self).show_details != (key == Key::Char('d')))
                &&& final(self).downloading == (key == Key::Enter)
                &&& (key == Key::Char('r') ==> final(self).status@ == "Reloading tracker..."@)
                &&& (key == Key::Char('s') ==> match old(self).stats {
                    Some(st) => final(self).status@ == stats_text(st),
                    None => final(self).status == old(self).status,
                })
                &&& (key != Key::Char('r') && key != Key::Char('s') ==> final(self).status
                    == old(self).status)
                &&& action == (if old(self).should_quit || is_quit_key(key) {
                    KeyAction::Quit
                } else if key == Key::Char('r') {
                    KeyAction::Reload
                } else if key == Key::Enter {
                    KeyAction::StartDownload
                } else {
                    KeyAction::Nothing
                })
            },
    {
        if self.show_help {
            match key {
                Key::Char('?') | Key::Esc | Key::Char('q') => {
                    self.show_help = false;
                },
                _ => {},
            }
            return KeyAction::Nothing;
        }
        if self.downloading {
            if key == Key::Char('q') || key == Key::Esc {
                self.should_quit = true;
                return KeyAction::Quit;
            }
            return KeyAction::Nothing;
        }
        let mut action = KeyAction::Nothing;
        let len = self.eras.len();
        let last: usize = if len > 0 {
            len - 1
        } else {
            0
        };
        let i: usize = match self.selected {
            Some(i) => i,
            None => 0,
        };
        match key {
            Key::Char('q') | Key::Esc => {
                self.should_quit = true;
            },
            Key::Char('?') => {
                self.show_help = true;
            },
            Key::Up | Key::Char('k') => {
                if i > 0 {
                    self.selected = Some(i - 1);
                }
            },
            Key::Down | Key::Char('j') => {
                if i < last {
                    self.selected = Some(i + 1);
                }
            },
            Key::PageUp => {
                self.selected = Some(i.saturating_sub(10));
            },
            Key::PageDown => {
                let target = i + 10;
                self.selected = Some(
                    if target < last {
                        target
                    } else {
                        last
                    },
                );
            },
            Key::Home => {
                self.selected = Some(0);
            },
            Key::End => {
                if len > 0 {
                    self.selected = Some(len - 1);
                }
            },
            Key::Char(' ') => {
                self.toggle_selection();
            },
            Key::Char('a') => {
                self.select_all();
            },
            Key::Char('n') => {
                self.deselect_all();
            },
            Key::Char('d') => {
                self.show_details = !self.show_details;
            },
            Key::Char('r') => {
                self.status = String::from_str("Reloading tracker...");
                action = KeyAction::Reload;
            },
            Key::Char('s') => {
                if let Some(stats) = &self.stats {
                    self.status = stats_status(stats);
                }
            },
            Key::Enter => {
                self.downloading = true;
                action = KeyAction::StartDownload;
            },
            _ => {},
        }
        if self.should_quit {
            return KeyAction::Quit;
        }
        action
    }

    // -----------------------------------------------------------------------
    // Loading and downloading
    // -----------------------------------------------------------------------

    /// The link the tracker is loaded from, with the tab when one is asked
    /// for.
    pub fn tracker_url(&self, tab: Option<&str>) -> (r: String)
        ensures
            r@ == (match tab {
                Some(t) => API_BASE@ + "/get/"@ + self.tracker_id@ + "?tab="@ + t@,
                None => API_BASE@ + "/get/"@ + self.tracker_id@,
            }),
    {
        let mut s = String::from_str(API_BASE);
        append(&mut s, "/get/");
        append(&mut s, self.tracker_id.as_str());
        if let Some(t) = tab {
            append(&mut s, "?tab=");
            append(&mut s, t);
        }
        s
    }

    /// Shows that the tracker is being loaded.
    pub fn begin_load(&mut self)
        ensures
            final(self).status@ == "Loading tracker..."@,
            only_status_changed(*old(self), *final(self)),
    {
        self.status = String::from_str("Loading tracker...");
    }

    /// Takes in a freshly loaded tracker: builds the era list (kept by the
    /// era filter) and the statistics, and reports what was loaded.
    pub fn apply_tracker(&mut self, data: TrackerResponse, filter_era: Option<&str>)
        requires
            included_tracks(era_entries(data.eras), opt_str_view(filter_era)).len() <= usize::MAX,
        ensures
            tracker_applied(*old(self), *final(self), data, opt_str_view(filter_era)),
    {
        let (eras, stats) = summarize_tracker(&data, filter_era);
        self.status = loaded_status(stats.total_eras, stats.total_tracks, stats.tracks_with_urls);
        self.eras = eras;
        self.stats = Some(stats);
        self.tracker_data = Some(data);
    }

    /// Takes in a freshly loaded tracker when its kept tracks can be
    /// counted in a `usize`, as `apply_tracker` does; otherwise leaves the
    /// session as it is and says so.
    pub fn try_apply_tracker(&mut self, data: TrackerResponse, filter_era: Option<&str>) -> (loaded:
        bool)
        ensures
            loaded == (included_tracks(era_entries(data.eras), opt_str_view(filter_era)).len()
                <= usize::MAX),
            loaded ==> tracker_applied(*old(self), *final(self), data, opt_str_view(filter_era)),
            !loaded ==> *final(self) == *old(self),
    {
        match included_track_total(&data, filter_era) {
            Some(_) => {
                self.apply_tracker(data, filter_era);
                true
            },
            None => false,
        }
    }

    /// Reports a failed reload.
    pub fn reload_failed(&mut self, error: &str)
        ensures
            final(self).status@ == "Reload failed: "@ + error@,
            only_status_changed(*old(self), *final(self)),
    {
        let mut s = String::from_str("Reload failed: ");
        append(&mut s, error);
        self.status = s;
    }

    /// Starts downloading the selected eras: their keys, or none (and the
    /// status says so) when nothing is selected.
    pub fn start_download(&mut self) -> (r: Option<Vec<String>>)
        ensures
            match r {
                Some(keys) => {
                    &&& keys@.map_values(|k: String| k@) == selected_keys_of(old(self).eras@)
                    &&& keys@.len() > 0
                    &&& final(self).downloading
                    &&& final(self).status@ == "Resolving track URLs..."@
                },
                None => {
                    &&& selected_keys_of(old(self).eras@).len() == 0
                    &&& final(self).downloading == old(self).downloading
                    &&& final(self).status@ == "Nothing selected"@
                },
            },
            only_progress_changed(*old(self), *final(self)),
    {
        let keys = self.selected_keys();
        if keys.len() == 0 {
            self.status = String::from_str("Nothing selected");
            return None;
        }
        self.downloading = true;
        self.status = String::from_str("Resolving track URLs...");
        Some(keys)
    }

    /// Decides what follows once `count` tracks could be resolved.
    pub fn after_resolution(&mut self, count: usize, dry_run: bool) -> (r: BatchNext)
        ensures
            count == 0 ==> r == BatchNext::Stop && !final(self).downloading
                && final(self).status@ == "No playable tracks found"@,
            count > 0 && dry_run ==> r == BatchNext::DryRun && !final(self).downloading
                && final(self).status@ == "Dry run: would download "@ + decimal(count as nat)
                + " tracks"@,
            count > 0 && !dry_run ==> r == BatchNext::Proceed && final(self).downloading
                == old(self).downloading && final(self).status@ == "Downloading "@ + decimal(
                count as nat,
            ) + " tracks..."@,
            only_progress_changed(*old(self), *final(self)),
    {
        if count == 0 {
            self.status = String::from_str("No playable tracks found");
            self.downloading = false;
            return BatchNext::Stop;
        }
        if dry_run {
            let mut s = String::from_str("Dry run: would download ");
            push_decimal(&mut s, count as u128);
            append(&mut s, " tracks");
            self.status = s;
            self.downloading = false;
            return BatchNext::DryRun;
        }
        let mut s = String::from_str("Downloading ");
        push_decimal(&mut s, count as u128);
        append(&mut s, " tracks...");
        self.status = s;
        BatchNext::Proceed
    }

    /// Ends a batch download and reports its results.
    pub fn finish_batch(&mut self, state: &DownloadState, now: u64)
        ensures
            !final(self).downloading,
            final(self).status@ == batch_done_text(*state, now),
            only_progress_changed(*old(self), *final(self)),
    {
        self.status = batch_done_status(state, now);
        self.downloading = false;
    }

    /// Checks, while a background download runs, whether it is over; if so
    /// ends it and reports its results.
    pub fn check_download_done(&mut self, state: &DownloadState, now: u64)
        ensures
            (old(self).downloading && finished_count(*state) >= state.total && state.total > 0)
                ==> !final(self).downloading && final(self).status@ == session_done_text(
                *state,
                now,
            ),
            !(old(self).downloading && finished_count(*state) >= state.total && state.total > 0)
                ==> final(self).downloading == old(self).downloading && final(self).status
                == old(self).status,
            only_progress_changed(*old(self), *final(self)),
    {
        if self.downloading && state.all_finished() {
            self.downloading = false;
            self.status = session_done_status(state, now);
        }
    }
}

/// The keys of the selected eras of a list, in list order.
pub fn selected_era_keys(eras: &Vec<EraItem>) -> (r: Vec<String>)
    ensures
        r@.map_values(|k: String| k@) == selected_keys_of(eras@),
{
    let n = eras.len();
    let mut keys: Vec<String> = Vec::new();
    proof {
        assert(keys@.map_values(|k: String| k@) =~= Seq::<Seq<char>>::empty());
        assert(eras@.take(0) == Seq::<EraItem>::empty());
    }
    for i in 0..n
        invariant
            n == eras@.len(),
            keys@.map_values(|k: String| k@) == selected_keys_of(eras@.take(i as int)),
    {
        proof {
            assert(eras@.take(i + 1).drop_last() == eras@.take(i as int));
        }
        if eras[i].selected {
            let ghost before = keys@;
            keys.push(eras[i].key.clone());
            proof {
                assert(keys@.map_values(|k: String| k@) =~= before.map_values(|k: String| k@).push(
                    eras@[i as int].key@,
                ));
            }
        }
    }
    proof {
        assert(eras@.take(n as int) == eras@);
    }
    keys
}

proof fn lemma_selected_tracks_prefix(eras: Seq<EraItem>, i: int)
    requires
        0 <= i <= eras.len(),
    ensures
        selected_tracks(eras.take(i)) <= selected_tracks(eras),
    decreases eras.len() - i,
{
    if i < eras.len() {
        assert(eras.take(i + 1).drop_last() == eras.take(i));
        lemma_selected_tracks_prefix(eras, i + 1);
    } else {
        assert(eras.take(i) == eras);
    }
}

// ---------------------------------------------------------------------------
// Status lines
// ---------------------------------------------------------------------------

/// What the status line says after loading.
pub open spec fn loaded_text(eras: nat, tracks: nat, with_urls: nat) -> Seq<char> {
    "Loaded "@ + decimal(eras) + " eras, "@ + decimal(tracks) + " tracks ("@ + decimal(with_urls)
        + " with URLs)"@
}

/// Writes the status line after loading.
pub fn loaded_status(eras: usize, tracks: usize, with_urls: usize) -> (r: String)
    ensures
        r@ == loaded_text(eras as nat, tracks as nat, with_urls as nat),
{
    let mut s = String::from_str("Loaded ");
    push_decimal(&mut s, eras as u128);
    append(&mut s, " eras, ");
    push_decimal(&mut s, tracks as u128);
    append(&mut s, " tracks (");
    push_decimal(&mut s, with_urls as u128);
    append(&mut s, " with URLs)");
    s
}

/// Names joined with `, `.
pub open spec fn joined(names: Seq<Seq<char>>) -> Seq<char>
    decreases names.len(),
{
    if names.len() == 0 {
        Seq::empty()
    } else if names.len() == 1 {
        names[0]
    } else {
        joined(names.drop_last()) + ", "@ + names.last()
    }
}

/// What the status line says for the `s` key.
pub open spec fn stats_text(s: TrackerStats) -> Seq<char> {
    "Stats: "@ + decimal(s.total_eras as nat) + " eras, "@ + decimal(s.total_tracks as nat)
        + " tracks, "@ + decimal(s.tracks_with_urls as nat) + " with URLs | Hosts: "@ + joined(
        tally_entries(s.hosts).map_values(|e: (Seq<char>, usize)| e.0),
    )
}

/// Writes the statistics for the status line, hosts in order of first
/// appearance.
pub fn stats_status(stats: &TrackerStats) -> (r: String)
    ensures
        r@ == stats_text(*stats),
{
    let mut s = String::from_str("Stats: ");
    push_decimal(&mut s, stats.total_eras as u128);
    append(&mut s, " eras, ");
    push_decimal(&mut s, stats.total_tracks as u128);
    append(&mut s, " tracks, ");
    push_decimal(&mut s, stats.tracks_with_urls as u128);
    append(&mut s, " with URLs | Hosts: ");
    let ghost head = s@;
    let ghost names = tally_entries(stats.hosts).map_values(|e: (Seq<char>, usize)| e.0);
    let n = tally_len(&stats.hosts);
    proof {
        assert(names.take(0) == Seq::<Seq<char>>::empty());
    }
    for i in 0..n
        invariant
            n == names.len(),
            names == tally_entries(stats.hosts).map_values(|e: (Seq<char>, usize)| e.0),
            s@ == head + joined(names.take(i as int)),
    {
        let (name, _count) = tally_at(&stats.hosts, i);
        proof {
            assert(names.take(i + 1).drop_last() == names.take(i as int));
            assert(names.take(i + 1).last() == name@);
        }
        if i > 0 {
            append(&mut s, ", ");
        } else {
            assert(names.take(1) == seq![name@]);
        }
        append(&mut s, name.as_str());
    }
    proof {
        assert(names.take(n as int) == names);
    }
    s
}

/// The elapsed time of a batch for its closing line: seconds with one
/// decimal, or nothing when it never started.
pub open spec fn elapsed_tenths_text(state: DownloadState, now: u64) -> Seq<char> {
    match state.started_at {
        Some(s) => seconds_tenths_text(since(s, now)),
        None => Seq::empty(),
    }
}

/// The elapsed time of a batch as a duration, or nothing when it never
/// started.
pub open spec fn elapsed_duration_text(state: DownloadState, now: u64) -> Seq<char> {
    match state.started_at {
        Some(s) => duration_text(since(s, now) / 1_000_000_000),
        None => Seq::empty(),
    }
}

/// The average rate of a batch.
pub open spec fn overall_rate(state: DownloadState, now: u64) -> crate::download::Rate {
    match state.started_at {
        Some(s) => if since(s, now) > 0 {
            crate::download::Rate { bytes: state.total_bytes_downloaded, nanos: since(s, now) as u64 }
        } else {
            crate::download::Rate { bytes: 0, nanos: 0 }
        },
        None => crate::download::Rate { bytes: 0, nanos: 0 },
    }
}

/// The closing line of a batch download.
pub open spec fn batch_done_text(state: DownloadState, now: u64) -> Seq<char> {
    "Done! "@ + decimal(state.completed as nat) + " completed, "@ + decimal(state.failed as nat)
        + " failed, "@ + decimal(state.skipped as nat) + " skipped | "@ + elapsed_tenths_text(
        state,
        now,
    ) + " | "@ + rate_text(overall_rate(state, now))
}

/// Writes the closing line of a batch download.
pub fn batch_done_status(state: &DownloadState, now: u64) -> (r: String)
    ensures
        r@ == batch_done_text(*state, now),
{
    let mut s = String::from_str("Done! ");
    push_decimal(&mut s, state.completed as u128);
    append(&mut s, " completed, ");
    push_decimal(&mut s, state.failed as u128);
    append(&mut s, " failed, ");
    push_decimal(&mut s, state.skipped as u128);
    append(&mut s, " skipped | ");
    if let Some(e) = state.elapsed(now) {
        let t = format_seconds_tenths(e);
        append(&mut s, t.as_str());
    }
    append(&mut s, " | ");
    let rate = format_bytes_speed(state.overall_speed(now));
    append(&mut s, rate.as_str());
    s
}

/// The closing line of a download started from the era list.
pub open spec fn session_done_text(state: DownloadState, now: u64) -> Seq<char> {
    "Done! \u{2713}"@ + decimal(state.completed as nat) + " \u{2717}"@ + decimal(
        state.failed as nat,
    ) + " \u{2298}"@ + decimal(state.skipped as nat) + " | "@ + bytes_text(
        state.total_bytes_downloaded as nat,
    ) + " downloaded | "@ + rate_text(overall_rate(state, now)) + " | "@ + elapsed_duration_text(
        state,
        now,
    )
}

/// Writes the closing line of a download started from the era list.
pub fn session_done_status(state: &DownloadState, now: u64) -> (r: String)
    ensures
        r@ == session_done_text(*state, now),
{
    let mut s = String::from_str("Done! \u{2713}");
    push_decimal(&mut s, state.completed as u128);
    append(&mut s, " \u{2717}");
    push_decimal(&mut s, state.failed as u128);
    append(&mut s, " \u{2298}");
    push_decimal(&mut s, state.skipped as u128);
    append(&mut s, " | ");
    let total = format_bytes(state.total_bytes_downloaded);
    append(&mut s, total.as_str());
    append(&mut s, " downloaded | ");
    let rate = format_bytes_speed(state.overall_speed(now));
    append(&mut s, rate.as_str());
    append(&mut s, " | ");
    if let Some(e) = state.elapsed(now) {
        let t = format_duration(e as u128);
        append(&mut s, t.as_str());
    }
    s
}


// ---------------------------------------------------------------------------
// Laws
// ---------------------------------------------------------------------------

/// Toggling the same era twice restores the era list.
pub proof fn lemma_toggle_twice(a: Seq<EraItem>, b: Seq<EraItem>, c: Seq<EraItem>, i: int)
    requires
        0 <= i < a.len(),
        flipped(a, b, i),
        flipped(b, c, i),
    ensures
        c == a,
{
    assert(c[i] == a[i]);
    assert(c =~= a);
}

proof fn lemma_all_set_counts(a: Seq<EraItem>, b: Seq<EraItem>, on: bool)
    requires
        all_set(a, b, on),
    ensures
        count_selected(b) == (if on {
            b.len()
        } else {
            0
        }),
        selected_tracks(b) == (if on {
            all_tracks(a)
        } else {
            0
        }),
    decreases a.len(),
{
    if a.len() > 0 {
        let a2 = a.drop_last();
        let b2 = b.drop_last();
        assert forall|i: int| 0 <= i < a2.len() implies {
            let x = #[trigger] b2[i];
            let y = a2[i];
            x.selected == on && x.key == y.key && x.name == y.name && x.track_count
                == y.track_count && x.order == y.order && x.categories == y.categories
        } by {
            assert(b2[i] == b[i]);
            assert(a2[i] == a[i]);
        }
        lemma_all_set_counts(a2, b2, on);
        assert(b.last() == b[b.len() - 1]);
    }
}

/// After selecting all eras every era counts as selected and the selected
/// tracks are all tracks; after selecting none, nothing is selected.
pub proof fn lemma_select_all_none(a: Seq<EraItem>, all: Seq<EraItem>, none: Seq<EraItem>)
    requires
        all_set(a, all, true),
        all_set(a, none, false),
    ensures
        count_selected(all) == a.len(),
        selected_tracks(all) == all_tracks(a),
        count_selected(none) == 0,
        selected_tracks(none) == 0,
        selected_keys_of(none).len() == 0,
{
    lemma_all_set_counts(a, all, true);
    lemma_all_set_counts(a, none, false);
    lemma_no_keys(none);
}

proof fn lemma_no_keys(e: Seq<EraItem>)
    requires
        count_selected(e) == 0,
    ensures
        selected_keys_of(e).len() == 0,
    decreases e.len(),
{
    if e.len() > 0 {
        lemma_no_keys(e.drop_last());
    }
}

/// A cursor on an era stays on an era whatever navigation key is pressed.
pub proof fn lemma_cursor_in_range(sel: usize, len: nat, key: Key)
    requires
        sel < len,
    ensures
        match cursor_after(Some(sel), len, key) {
            Some(c) => 0 <= c < len,
            None => true,
        },
{
}

/// The log never holds more than the maximum number of lines.
pub proof fn lemma_log_bounded(log: Seq<(u64, String)>, line: (u64, String))
    requires
        log.len() <= MAX_LOG_LINES,
    ensures
        logged(log, line).len() <= MAX_LOG_LINES,
        logged(log, line).last() == line,
{
    let l = log.push(line);
    if l.len() > MAX_LOG_LINES {
        assert(l.remove(0).last() == l.last());
    }
}

} // verus!
