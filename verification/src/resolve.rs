//! Turning a track link into a link that serves the audio file itself.
//!
//! Some hosts need only a rewrite of the link; others need a page or an
//! API answer fetched first. The plan for a link is a list of steps tried in
//! order; a caller performs the fetching steps and reports what each gave.
use vstd::prelude::*;
use crate::text::{has_sub, contains, append};
use crate::crates::{opt_view, regex_capture, regex_capture_of};

verus! {

/// One way of obtaining the audio link.
#[derive(Debug, Clone)]
pub enum ResolveStep {
    /// The audio is served at this link.
    Direct(String),
    /// Fetch this KrakenFiles page and read the audio link from it.
    KrakenPage(String),
    /// Fetch this imgur.gg page and read the audio link from it.
    ImgurPage(String),
    /// Ask this Tidal API link for the track's stream manifest.
    TidalApi(String),
    /// Ask this Qobuz API link for the track's download link.
    QobuzApi(String),
}

/// The abstract content of a [`ResolveStep`].
pub enum StepView {
    Direct(Seq<char>),
    KrakenPage(Seq<char>),
    ImgurPage(Seq<char>),
    TidalApi(Seq<char>),
    QobuzApi(Seq<char>),
}

impl View for ResolveStep {
    type V = StepView;

    open spec fn view(&self) -> StepView {
        match self {
            ResolveStep::Direct(s) => StepView::Direct(s@),
            ResolveStep::KrakenPage(s) => StepView::KrakenPage(s@),
            ResolveStep::ImgurPage(s) => StepView::ImgurPage(s@),
            ResolveStep::TidalApi(s) => StepView::TidalApi(s@),
            ResolveStep::QobuzApi(s) => StepView::QobuzApi(s@),
        }
    }
}

pub open spec fn pixeldrain_pattern() -> Seq<char> {
    "pixeldrain\\.com/u/([a-zA-Z0-9]+)"@
}

pub open spec fn pillows_pattern() -> Seq<char> {
    "pillows\\.su/f/([a-f0-9]+)"@
}

pub open spec fn froste_pattern() -> Seq<char> {
    "music\\.froste\\.lol/song/([a-f0-9]+)"@
}

pub open spec fn kraken_pattern() -> Seq<char> {
    "krakenfiles\\.com/view/([a-zA-Z0-9]+)"@
}

pub open spec fn imgur_pattern() -> Seq<char> {
    "imgur\\.gg/f/([a-zA-Z0-9]+)"@
}

pub open spec fn soundcloud_pattern() -> Seq<char> {
    "soundcloud\\.com/([^/]+/[^/?#]+)"@
}

pub open spec fn tidal_pattern() -> Seq<char> {
    "tidal\\.com/(?:browse/)?track/(\\d+)"@
}

pub open spec fn qobuz_pattern() -> Seq<char> {
    "qobuz\\.com/track/(\\d+)"@
}

/// The Tidal API servers, asked in this order.
pub open spec fn tidal_api_bases() -> Seq<Seq<char>> {
    seq![
        "https://triton.squid.wtf"@,
        "https://tidal.kinoplus.online"@,
        "https://tidal-api.binimum.org"@,
    ]
}

/// The Tidal API link for a track id on one server.
pub open spec fn tidal_api_link(base: Seq<char>, id: Seq<char>) -> Seq<char> {
    base + "/track/?id="@ + id + "&quality=HI_RES_LOSSLESS"@
}

/// The steps from the Tidal rule on.
pub open spec fn plan_from_tidal(url: Seq<char>) -> Seq<StepView> {
    let tidal: Seq<StepView> = match regex_capture_of(tidal_pattern(), url, 1) {
        Some(id) => seq![
            StepView::TidalApi(tidal_api_link(tidal_api_bases()[0], id)),
            StepView::TidalApi(tidal_api_link(tidal_api_bases()[1], id)),
            StepView::TidalApi(tidal_api_link(tidal_api_bases()[2], id)),
        ],
        None => Seq::empty(),
    };
    let qobuz: Seq<StepView> = match regex_capture_of(qobuz_pattern(), url, 1) {
        Some(id) => seq![
            StepView::QobuzApi(
                "https://qobuz.squid.wtf/api/download-music?track_id="@ + id + "&quality=27"@,
            ),
        ],
        None => Seq::empty(),
    };
    let juice: Seq<StepView> = if has_sub(url, "juicewrldapi.com"@) {
        seq![StepView::Direct(url)]
    } else {
        Seq::empty()
    };
    tidal + qobuz + juice
}

/// The steps from the KrakenFiles rule on.
pub open spec fn plan_from_kraken(url: Seq<char>) -> Seq<StepView> {
    let kraken: Seq<StepView> = match regex_capture_of(kraken_pattern(), url, 1) {
        Some(id) => seq![
            StepView::KrakenPage("https://krakenfiles.com/view/"@ + id + "/file.html"@),
        ],
        None => Seq::empty(),
    };
    let imgur: Seq<StepView> = match regex_capture_of(imgur_pattern(), url, 1) {
        Some(id) => seq![StepView::ImgurPage("https://imgur.gg/f/"@ + id)],
        None => Seq::empty(),
    };
    let rest: Seq<StepView> = match regex_capture_of(soundcloud_pattern(), url, 1) {
        Some(path) => seq![StepView::Direct("https://sc.maid.zone/_/restream/"@ + path)],
        None => plan_from_tidal(url),
    };
    kraken + imgur + rest
}

/// The steps for a track link, in the order they are tried. Links to
/// pixeldrain, pillows and froste are rewritten directly; KrakenFiles and
/// imgur.gg pages are read; SoundCloud links are rewritten; Tidal tracks are
/// asked of three API servers in turn, Qobuz tracks of one; JuiceWRLD API
/// links are used as they are.
pub open spec fn resolution_plan(url: Seq<char>) -> Seq<StepView> {
    match regex_capture_of(pixeldrain_pattern(), url, 1) {
        Some(id) => seq![StepView::Direct("https://pixeldrain.com/api/file/"@ + id)],
        None => match regex_capture_of(pillows_pattern(), url, 1) {
            Some(id) => seq![StepView::Direct("https://api.pillows.su/api/download/"@ + id)],
            None => match regex_capture_of(froste_pattern(), url, 1) {
                Some(id) => seq![
                    StepView::Direct("https://music.froste.lol/song/"@ + id + "/download"@),
                ],
                None => plan_from_kraken(url),
            },
        },
    }
}

fn concat3(a: &str, b: &str, c: &str) -> (r: String)
    ensures
        r@ == a@ + b@ + c@,
{
    let mut s = String::from_str(a);
    append(&mut s, b);
    append(&mut s, c);
    s
}

fn push_step(v: &mut Vec<ResolveStep>, s: ResolveStep)
    ensures
        final(v)@.map_values(|x: ResolveStep| x@) == old(v)@.map_values(|x: ResolveStep| x@).push(
            s@,
        ),
{
    let ghost before = v@;
    v.push(s);
    assert(v@.map_values(|x: ResolveStep| x@) =~= before.map_values(|x: ResolveStep| x@).push(
        s@,
    ));
}

fn push_tidal_to_end(url: &str, steps: &mut Vec<ResolveStep>)
    ensures
        final(steps)@.map_values(|x: ResolveStep| x@) == old(steps)@.map_values(
            |x: ResolveStep| x@,
        ) + plan_from_tidal(url@),
{
    let ghost start = steps@.map_values(|x: ResolveStep| x@);
    proof {
        reveal_strlit("https://triton.squid.wtf");
        reveal_strlit("https://tidal.kinoplus.online");
        reveal_strlit("https://tidal-api.binimum.org");
    }
    if let Some(id) = regex_capture("tidal\\.com/(?:browse/)?track/(\\d+)", url, 1) {
        let a = concat3("https://triton.squid.wtf", "/track/?id=", id.as_str());
        push_step(steps, ResolveStep::TidalApi(concat3(a.as_str(), "&quality=HI_RES_LOSSLESS", "")));
        let b = concat3("https://tidal.kinoplus.online", "/track/?id=", id.as_str());
        push_step(steps, ResolveStep::TidalApi(concat3(b.as_str(), "&quality=HI_RES_LOSSLESS", "")));
        let c = concat3("https://tidal-api.binimum.org", "/track/?id=", id.as_str());
        push_step(steps, ResolveStep::TidalApi(concat3(c.as_str(), "&quality=HI_RES_LOSSLESS", "")));
        proof {
            reveal_strlit("");
        }
    }
    let ghost after_tidal = steps@.map_values(|x: ResolveStep| x@);
    if let Some(id) = regex_capture("qobuz\\.com/track/(\\d+)", url, 1) {
        let q = concat3(
            "https://qobuz.squid.wtf/api/download-music?track_id=",
            id.as_str(),
            "&quality=27",
        );
        push_step(steps, ResolveStep::QobuzApi(q));
    }
    let ghost after_qobuz = steps@.map_values(|x: ResolveStep| x@);
    if contains(url, "juicewrldapi.com") {
        push_step(steps, ResolveStep::Direct(String::from_str(url)));
    }
    assert(steps@.map_values(|x: ResolveStep| x@) =~= start + plan_from_tidal(url@));
}

/// The steps to try for a track link.
pub fn resolution_steps(url: &str) -> (r: Vec<ResolveStep>)
    ensures
        r@.map_values(|x: ResolveStep| x@) == resolution_plan(url@),
{
    let mut steps: Vec<ResolveStep> = Vec::new();
    proof {
        assert(steps@.map_values(|x: ResolveStep| x@) =~= Seq::<StepView>::empty());
    }
    if let Some(id) = regex_capture("pixeldrain\\.com/u/([a-zA-Z0-9]+)", url, 1) {
        push_step(&mut steps, ResolveStep::Direct(concat3("https://pixeldrain.com/api/file/", id.as_str(), "")));
        proof {
            reveal_strlit("");
        }
        return steps;
    }
    if let Some(id) = regex_capture("pillows\\.su/f/([a-f0-9]+)", url, 1) {
        push_step(&mut steps, ResolveStep::Direct(concat3("https://api.pillows.su/api/download/", id.as_str(), "")));
        proof {
            reveal_strlit("");
        }
        return steps;
    }
    if let Some(id) = regex_capture("music\\.froste\\.lol/song/([a-f0-9]+)", url, 1) {
        push_step(&mut steps, ResolveStep::Direct(concat3("https://music.froste.lol/song/", id.as_str(), "/download")));
        return steps;
    }
    if let Some(id) = regex_capture("krakenfiles\\.com/view/([a-zA-Z0-9]+)", url, 1) {
        push_step(&mut steps, ResolveStep::KrakenPage(concat3("https://krakenfiles.com/view/", id.as_str(), "/file.html")));
    }
    let ghost after_kraken = steps@.map_values(|x: ResolveStep| x@);
    if let Some(id) = regex_capture("imgur\\.gg/f/([a-zA-Z0-9]+)", url, 1) {
        push_step(&mut steps, ResolveStep::ImgurPage(concat3("https://imgur.gg/f/", id.as_str(), "")));
        proof {
            reveal_strlit("");
        }
    }
    let ghost after_imgur = steps@.map_values(|x: ResolveStep| x@);
    if let Some(path) = regex_capture("soundcloud\\.com/([^/]+/[^/?#]+)", url, 1) {
        push_step(&mut steps, ResolveStep::Direct(concat3("https://sc.maid.zone/_/restream/", path.as_str(), "")));
        proof {
            reveal_strlit("");
        }
    } else {
        push_tidal_to_end(url, &mut steps);
    }
    assert(steps@.map_values(|x: ResolveStep| x@) =~= resolution_plan(url@));
    steps
}

// ---------------------------------------------------------------------------
// Running a plan
// ---------------------------------------------------------------------------

/// What performing a fetching step gave.
pub enum StepOutcome {
    /// The audio link was found.
    Found(String),
    /// Nothing usable came back; the next step is tried.
    NotFound,
    /// The service answered, and its answer settles the matter (it may hold
    /// no link).
    Answered(Option<String>),
}

/// What to do next while resolving.
pub enum ResolveAction {
    /// Perform the fetching step at this position of the plan.
    Perform(usize),
    /// Stop: the audio link, or none.
    Finish(Option<String>),
}

/// The first thing to do from position `from` of the plan: a direct step
/// finishes with its link, a fetching step is performed, and the end of the
/// plan finishes with no link.
pub fn next_action(steps: &Vec<ResolveStep>, from: usize) -> (r: ResolveAction)
    ensures
        from >= steps@.len() ==> r matches ResolveAction::Finish(None),
        from < steps@.len() ==> match steps@[from as int] {
            ResolveStep::Direct(u) => r matches ResolveAction::Finish(Some(v)) && v@ == u@,
            _ => r matches ResolveAction::Perform(k) && k == from,
        },
{
    if from >= steps.len() {
        return ResolveAction::Finish(None);
    }
    match &steps[from] {
        ResolveStep::Direct(u) => ResolveAction::Finish(Some(u.clone())),
        _ => ResolveAction::Perform(from),
    }
}

/// What to do after the fetching step at position `i` gave `outcome`: a
/// found link or a settling answer finishes; otherwise the plan goes on
/// from the next position.
pub fn after_step(steps: &Vec<ResolveStep>, i: usize, outcome: StepOutcome) -> (r: ResolveAction)
    requires
        i < steps@.len(),
    ensures
        match outcome {
            StepOutcome::Found(u) => r matches ResolveAction::Finish(Some(v)) && v@ == u@,
            StepOutcome::Answered(a) => r matches ResolveAction::Finish(b) && opt_view(b)
                == opt_view(a),
            StepOutcome::NotFound => i + 1 >= steps@.len() ==> r matches ResolveAction::Finish(
                None,
            ),
        },
        outcome is NotFound && i + 1 < steps@.len() ==> match steps@[i + 1] {
            ResolveStep::Direct(u) => r matches ResolveAction::Finish(Some(v)) && v@ == u@,
            _ => r matches ResolveAction::Perform(k) && k == i + 1,
        },
{
    let n = steps.len();
    match outcome {
        StepOutcome::Found(u) => ResolveAction::Finish(Some(u)),
        StepOutcome::Answered(a) => ResolveAction::Finish(a),
        StepOutcome::NotFound => next_action(steps, i + 1),
    }
}

} // verus!
