//! What a track link is: which file host serves it, which audio format and
//! file extension it names, which field of a track holds it, and which
//! tracker id a user's input names.
use vstd::prelude::*;
use crate::text::{
    has_sub, has_prefix, matches_at, replace_all, lowercase_of, contains,
    starts_with, replace, to_lowercase, chars_of, string_of, ascii_lower_seq,
};
use crate::crates::{opt_view, first_id_run, regex_capture, id_run_at, is_id_class};
use crate::tracker::Track;

verus! {

broadcast use vstd::string::group_string_axioms;

// ---------------------------------------------------------------------------
// File hosts
// ---------------------------------------------------------------------------

/// The file host that a link points to, by the first domain it mentions in
/// the fixed order pixeldrain, pillows, krakenfiles, imgur.gg, soundcloud,
/// tidal, qobuz, froste, juicewrld.
pub open spec fn host_of(url: Seq<char>) -> Seq<char> {
    if has_sub(url, "pixeldrain.com"@) {
        "pixeldrain"@
    } else if has_sub(url, "pillows.su"@) || has_sub(url, "pillowcase.su"@) {
        "pillows"@
    } else if has_sub(url, "krakenfiles.com"@) {
        "krakenfiles"@
    } else if has_sub(url, "imgur.gg"@) {
        "imgur.gg"@
    } else if has_sub(url, "soundcloud.com"@) {
        "soundcloud"@
    } else if has_sub(url, "tidal.com"@) {
        "tidal"@
    } else if has_sub(url, "qobuz.com"@) {
        "qobuz"@
    } else if has_sub(url, "froste.lol"@) {
        "froste"@
    } else if has_sub(url, "juicewrldapi.com"@) {
        "juicewrld"@
    } else {
        "unknown"@
    }
}

/// Names the file host of a link.
pub fn detect_host(url: &str) -> (r: String)
    ensures
        r@ == host_of(url@),
{
    if contains(url, "pixeldrain.com") {
        String::from_str("pixeldrain")
    } else if contains(url, "pillows.su") || contains(url, "pillowcase.su") {
        String::from_str("pillows")
    } else if contains(url, "krakenfiles.com") {
        String::from_str("krakenfiles")
    } else if contains(url, "imgur.gg") {
        String::from_str("imgur.gg")
    } else if contains(url, "soundcloud.com") {
        String::from_str("soundcloud")
    } else if contains(url, "tidal.com") {
        String::from_str("tidal")
    } else if contains(url, "qobuz.com") {
        String::from_str("qobuz")
    } else if contains(url, "froste.lol") {
        String::from_str("froste")
    } else if contains(url, "juicewrldapi.com") {
        String::from_str("juicewrld")
    } else {
        String::from_str("unknown")
    }
}

// ---------------------------------------------------------------------------
// Audio formats and file extensions
// ---------------------------------------------------------------------------

/// The audio format that a lower-cased link names: the first of flac, m4a,
/// wav, ogg, aac whose `.`-suffix it contains, else mp3.
pub open spec fn format_of_lower(l: Seq<char>) -> Seq<char> {
    if has_sub(l, ".flac"@) {
        "flac"@
    } else if has_sub(l, ".m4a"@) {
        "m4a"@
    } else if has_sub(l, ".wav"@) {
        "wav"@
    } else if has_sub(l, ".ogg"@) {
        "ogg"@
    } else if has_sub(l, ".aac"@) {
        "aac"@
    } else {
        "mp3"@
    }
}

/// The file extension for a lower-cased link: the first of flac, m4a, ogg,
/// wav, aac whose `.`-suffix it contains, else mp3. (Unlike the format, ogg
/// is looked for before wav.)
pub open spec fn extension_of_lower(l: Seq<char>) -> Seq<char> {
    if has_sub(l, ".flac"@) {
        "flac"@
    } else if has_sub(l, ".m4a"@) {
        "m4a"@
    } else if has_sub(l, ".ogg"@) {
        "ogg"@
    } else if has_sub(l, ".wav"@) {
        "wav"@
    } else if has_sub(l, ".aac"@) {
        "aac"@
    } else {
        "mp3"@
    }
}

/// The audio format of a link that is already lower-cased.
pub fn format_from_lowercase(url_lower: &str) -> (r: String)
    ensures
        r@ == format_of_lower(url_lower@),
{
    if contains(url_lower, ".flac") {
        String::from_str("flac")
    } else if contains(url_lower, ".m4a") {
        String::from_str("m4a")
    } else if contains(url_lower, ".wav") {
        String::from_str("wav")
    } else if contains(url_lower, ".ogg") {
        String::from_str("ogg")
    } else if contains(url_lower, ".aac") {
        String::from_str("aac")
    } else {
        String::from_str("mp3")
    }
}

/// The audio format of a link, judged on its lower-cased form.
pub fn detect_format(url: &str) -> (r: String)
    ensures
        r@ == format_of_lower(lowercase_of(url@)),
{
    let lower = to_lowercase(url);
    format_from_lowercase(lower.as_str())
}

/// The file extension for a link that is already lower-cased.
pub fn extension_from_lowercase(url_lower: &str) -> (r: &'static str)
    ensures
        r@ == extension_of_lower(url_lower@),
{
    if contains(url_lower, ".flac") {
        "flac"
    } else if contains(url_lower, ".m4a") {
        "m4a"
    } else if contains(url_lower, ".ogg") {
        "ogg"
    } else if contains(url_lower, ".wav") {
        "wav"
    } else if contains(url_lower, ".aac") {
        "aac"
    } else {
        "mp3"
    }
}

/// The file extension for a link, judged on its lower-cased form.
pub fn get_file_extension(url: &str) -> (r: &'static str)
    ensures
        r@ == extension_of_lower(lowercase_of(url@)),
{
    let lower = to_lowercase(url);
    extension_from_lowercase(lower.as_str())
}

/// The format of a link is always one of the six listed formats, and for an
/// ASCII link lower-casing it again changes neither the text nor the format.
pub proof fn lemma_format_listed_and_stable(url: Seq<char>)
    ensures
        ({
            let f = format_of_lower(url);
            f == "flac"@ || f == "m4a"@ || f == "wav"@ || f == "ogg"@ || f == "aac"@ || f == "mp3"@
        }),
        ascii_lower_seq(ascii_lower_seq(url)) == ascii_lower_seq(url),
        format_of_lower(ascii_lower_seq(ascii_lower_seq(url))) == format_of_lower(
            ascii_lower_seq(url),
        ),
{
    assert(ascii_lower_seq(ascii_lower_seq(url)) =~= ascii_lower_seq(url));
}

/// The extension given to a downloaded file is the link's format, unless the
/// link mentions both `.wav` and `.ogg`.
pub proof fn lemma_extension_matches_format(lower: Seq<char>)
    requires
        !(has_sub(lower, ".wav"@) && has_sub(lower, ".ogg"@)),
    ensures
        extension_of_lower(lower) == format_of_lower(lower),
{
}

// ---------------------------------------------------------------------------
// The link of a track
// ---------------------------------------------------------------------------

/// A web link: it begins with `http://` or `https://`.
pub open spec fn is_web_link(u: Seq<char>) -> bool {
    has_prefix(u, "http://"@) || has_prefix(u, "https://"@)
}

/// The link a field holds, when it holds a web link.
pub open spec fn web_link(f: Option<String>) -> Option<Seq<char>> {
    match f {
        Some(u) => if is_web_link(u@) {
            Some(u@)
        } else {
            None
        },
        None => None,
    }
}

/// The old pillows domain is written as the current one.
pub open spec fn normalized_link(u: Seq<char>) -> Seq<char> {
    replace_all(u, "pillowcase.su"@, "pillows.su"@)
}

/// The link of a track: the first of its `url`, `quality` and
/// `available_length` fields that holds a web link, normalized.
pub open spec fn track_url_of(t: Track) -> Option<Seq<char>> {
    if web_link(t.url) is Some {
        Some(normalized_link(web_link(t.url)->0))
    } else if web_link(t.quality) is Some {
        Some(normalized_link(web_link(t.quality)->0))
    } else if web_link(t.available_length) is Some {
        Some(normalized_link(web_link(t.available_length)->0))
    } else {
        None
    }
}

/// A text whose replacement result begins with `q`, a text without the
/// letter `p`, itself begins with `q`: replacing `pillowcase.su` only ever
/// writes text that starts with `p`.
proof fn lemma_replaced_prefix_without_p(x: Seq<char>, q: Seq<char>)
    requires
        forall|k: int| 0 <= k < q.len() ==> q[k] != 'p',
        has_prefix(replace_all(x, "pillowcase.su"@, "pillows.su"@), q),
    ensures
        has_prefix(x, q),
    decreases x.len(),
{
    reveal_strlit("pillowcase.su");
    reveal_strlit("pillows.su");
    let r = replace_all(x, "pillowcase.su"@, "pillows.su"@);
    if q.len() == 0 {
        assert(x.subrange(0, 0) =~= q);
    } else if x.len() == 0 {
    } else if has_prefix(x, "pillowcase.su"@) {
        assert(r == "pillows.su"@ + replace_all(x.skip(13), "pillowcase.su"@, "pillows.su"@));
        assert(r[0] == 'p');
        assert(r.subrange(0, q.len() as int)[0] == q[0]);
    } else {
        let rest = replace_all(x.skip(1), "pillowcase.su"@, "pillows.su"@);
        assert(r == seq![x[0]] + rest);
        assert(r.subrange(0, q.len() as int)[0] == q[0]);
        let q1 = q.skip(1);
        assert(rest.subrange(0, q1.len() as int) =~= r.subrange(0, q.len() as int).skip(1));
        assert(has_prefix(rest, q1));
        lemma_replaced_prefix_without_p(x.skip(1), q1);
        assert(x[0] == q[0]);
        assert(q =~= seq![q[0]] + q1);
        assert(x.subrange(0, q.len() as int) =~= seq![x[0]] + x.skip(1).subrange(0, q1.len() as int));
    }
}

/// Replacing every `pillowcase.su` by `pillows.su` leaves none behind.
proof fn lemma_no_old_domain_left(x: Seq<char>)
    ensures
        !has_sub(replace_all(x, "pillowcase.su"@, "pillows.su"@), "pillowcase.su"@),
    decreases x.len(),
{
    reveal_strlit("pillowcase.su");
    reveal_strlit("pillows.su");
    let old_d = "pillowcase.su"@;
    let r = replace_all(x, old_d, "pillows.su"@);
    if x.len() == 0 {
        if has_sub(r, old_d) {
            let p = choose|p: int| #[trigger] matches_at(r, old_d, p);
            assert(false);
        }
    } else if has_prefix(x, old_d) {
        let rest = replace_all(x.skip(13), old_d, "pillows.su"@);
        lemma_no_old_domain_left(x.skip(13));
        assert(r == "pillows.su"@ + rest);
        if has_sub(r, old_d) {
            let p = choose|p: int| #[trigger] matches_at(r, old_d, p);
            if p >= 10 {
                assert(rest.subrange(p - 10, p - 10 + 13) =~= r.subrange(p, p + 13));
                assert(matches_at(rest, old_d, p - 10));
            } else {
                assert(r.subrange(p, p + 13)[0] == 'p');
                assert(r[p] == 'p');
                assert(p == 0);
                assert(r.subrange(0, 13)[6] == 'c');
                assert(r[6] == 's');
            }
        }
    } else {
        let rest = replace_all(x.skip(1), old_d, "pillows.su"@);
        lemma_no_old_domain_left(x.skip(1));
        assert(r == seq![x[0]] + rest);
        if has_sub(r, old_d) {
            let p = choose|p: int| #[trigger] matches_at(r, old_d, p);
            if p >= 1 {
                assert(rest.subrange(p - 1, p - 1 + 13) =~= r.subrange(p, p + 13));
                assert(matches_at(rest, old_d, p - 1));
            } else {
                let q = old_d.skip(1);
                assert forall|k: int| 0 <= k < q.len() implies q[k] != 'p' by {
                    assert(q[k] == old_d[k + 1]);
                }
                assert(rest.subrange(0, 12) =~= r.subrange(0, 13).skip(1));
                assert(has_prefix(rest, q));
                lemma_replaced_prefix_without_p(x.skip(1), q);
                assert(x[0] == r[0]);
                assert(r.subrange(0, 13)[0] == old_d[0]);
                assert(old_d =~= seq![old_d[0]] + q);
                assert(x.subrange(0, 13) =~= seq![x[0]] + x.skip(1).subrange(0, 12));
                assert(has_prefix(x, old_d));
            }
        }
    }
}

/// A text without `pillowcase.su` is left as it is.
proof fn lemma_replace_absent(x: Seq<char>)
    requires
        !has_sub(x, "pillowcase.su"@),
    ensures
        replace_all(x, "pillowcase.su"@, "pillows.su"@) == x,
    decreases x.len(),
{
    reveal_strlit("pillowcase.su");
    let old_d = "pillowcase.su"@;
    if x.len() > 0 {
        assert(!matches_at(x, old_d, 0));
        if has_sub(x.skip(1), old_d) {
            let p = choose|p: int| #[trigger] matches_at(x.skip(1), old_d, p);
            assert(x.subrange(p + 1, p + 1 + 13) =~= x.skip(1).subrange(p, p + 13));
            assert(matches_at(x, old_d, p + 1));
        }
        lemma_replace_absent(x.skip(1));
        assert(x =~= seq![x[0]] + x.skip(1));
    }
}

/// The fields of a track are searched in the order `url`, `quality`,
/// `available_length`: the link comes from the first of them that holds a
/// web link, and such a link without the old pillows domain is taken as it
/// is.
pub proof fn lemma_track_link_field_order(t: Track, v: Seq<char>)
    requires
        !has_sub(v, "pillowcase.su"@),
    ensures
        web_link(t.url) == Some(v) ==> track_url_of(t) == Some(v),
        web_link(t.url) is None && web_link(t.quality) == Some(v) ==> track_url_of(t) == Some(v),
        web_link(t.url) is None && web_link(t.quality) is None && web_link(t.available_length)
            == Some(v) ==> track_url_of(t) == Some(v),
{
    lemma_replace_absent(v);
}

/// A track's link never holds the old pillows domain `pillowcase.su`,
/// whichever of its fields the link came from; and it is one of its fields
/// that holds a web link.
pub proof fn lemma_track_link_has_no_old_domain(t: Track)
    ensures
        track_url_of(t) matches Some(u) ==> !has_sub(u, "pillowcase.su"@),
        track_url_of(t) is Some <==> (web_link(t.url) is Some || web_link(t.quality) is Some
            || web_link(t.available_length) is Some),
{
    if web_link(t.url) is Some {
        lemma_no_old_domain_left(web_link(t.url)->0);
    } else if web_link(t.quality) is Some {
        lemma_no_old_domain_left(web_link(t.quality)->0);
    } else if web_link(t.available_length) is Some {
        lemma_no_old_domain_left(web_link(t.available_length)->0);
    }
}

fn field_link(f: &Option<String>) -> (r: Option<String>)
    ensures
        match r {
            Some(u) => web_link(*f) == Some(u@),
            None => web_link(*f) is None,
        },
{
    match f {
        Some(u) => {
            if starts_with(u.as_str(), "http://") || starts_with(u.as_str(), "https://") {
                Some(u.clone())
            } else {
                None
            }
        },
        None => None,
    }
}

/// The link of a track, if one of its fields holds one.
pub fn get_track_url(track: &Track) -> (r: Option<String>)
    ensures
        opt_view(r) == track_url_of(*track),
{
    proof {
        reveal_strlit("pillowcase.su");
    }
    if let Some(u) = field_link(&track.url) {
        return Some(replace(u.as_str(), "pillowcase.su", "pillows.su"));
    }
    if let Some(u) = field_link(&track.quality) {
        return Some(replace(u.as_str(), "pillowcase.su", "pillows.su"));
    }
    if let Some(u) = field_link(&track.available_length) {
        return Some(replace(u.as_str(), "pillowcase.su", "pillows.su"));
    }
    None
}

// ---------------------------------------------------------------------------
// Tracker ids
// ---------------------------------------------------------------------------

/// A character with the Unicode White_Space property, which is what
/// `char::is_whitespace` and `str::trim` go by.
pub open spec fn is_white_space(c: char) -> bool {
    let u = c as u32;
    ||| (0x09 <= u && u <= 0x0D)
    ||| u == 0x20 || u == 0x85 || u == 0xA0 || u == 0x1680
    ||| (0x2000 <= u && u <= 0x200A)
    ||| u == 0x2028 || u == 0x2029 || u == 0x202F || u == 0x205F || u == 0x3000
}

/// `s` without leading white space.
pub open spec fn trim_front(s: Seq<char>) -> Seq<char>
    decreases s.len(),
{
    if s.len() > 0 && is_white_space(s[0]) {
        trim_front(s.skip(1))
    } else {
        s
    }
}

/// `s` without trailing white space.
pub open spec fn trim_back(s: Seq<char>) -> Seq<char>
    decreases s.len(),
{
    if s.len() > 0 && is_white_space(s.last()) {
        trim_back(s.drop_last())
    } else {
        s
    }
}

/// `s` without leading and trailing white space.
pub open spec fn trimmed(s: Seq<char>) -> Seq<char> {
    trim_back(trim_front(s))
}

proof fn lemma_trim_front(s: Seq<char>, i: int)
    requires
        0 <= i <= s.len(),
        forall|k: int| 0 <= k < i ==> is_white_space(#[trigger] s[k]),
        i == s.len() || !is_white_space(s[i]),
    ensures
        trim_front(s) == s.skip(i),
    decreases i,
{
    if i == 0 {
        assert(s.skip(0) == s);
    } else {
        let t = s.skip(1);
        assert forall|k: int| 0 <= k < i - 1 implies is_white_space(#[trigger] t[k]) by {
            assert(t[k] == s[k + 1]);
        }
        if i - 1 < t.len() {
            assert(t[i - 1] == s[i]);
        }
        lemma_trim_front(t, i - 1);
        assert(t.skip(i - 1) == s.skip(i));
    }
}

proof fn lemma_trim_back(s: Seq<char>, j: int)
    requires
        0 <= j <= s.len(),
        forall|k: int| j <= k < s.len() ==> is_white_space(#[trigger] s[k]),
        j == 0 || !is_white_space(s[j - 1]),
    ensures
        trim_back(s) == s.take(j),
    decreases s.len() - j,
{
    if j == s.len() {
        assert(s.take(j) == s);
    } else {
        let t = s.drop_last();
        assert forall|k: int| j <= k < t.len() implies is_white_space(#[trigger] t[k]) by {
            assert(t[k] == s[k]);
        }
        if j > 0 {
            assert(t[j - 1] == s[j - 1]);
        }
        lemma_trim_back(t, j);
        assert(t.take(j) == s.take(j));
    }
}

/// Whether a character has the White_Space property.
fn char_is_whitespace(c: char) -> (r: bool)
    ensures
        r == is_white_space(c),
{
    let u = c as u32;
    (0x09 <= u && u <= 0x0D) || u == 0x20 || u == 0x85 || u == 0xA0 || u == 0x1680 || (0x2000 <= u
        && u <= 0x200A) || u == 0x2028 || u == 0x2029 || u == 0x202F || u == 0x205F || u == 0x3000
}

/// The text with leading and trailing white space removed.
pub fn trim(s: &str) -> (r: String)
    ensures
        r@ == trimmed(s@),
{
    let v = chars_of(s);
    let n = v.len();
    let mut i: usize = 0;
    while i < n && char_is_whitespace(v[i])
        invariant
            n == v@.len(),
            i <= n,
            forall|k: int| 0 <= k < i ==> is_white_space(#[trigger] v@[k]),
        decreases n - i,
    {
        i = i + 1;
    }
    proof {
        lemma_trim_front(v@, i as int);
    }
    let mut j: usize = n;
    while j > i && char_is_whitespace(v[j - 1])
        invariant
            n == v@.len(),
            i <= j <= n,
            forall|k: int| j <= k < n ==> is_white_space(#[trigger] v@[k]),
        decreases j,
    {
        j = j - 1;
    }
    let ghost front = v@.skip(i as int);
    proof {
        assert forall|k: int| j - i <= k < front.len() implies is_white_space(#[trigger] front[k]) by {
            assert(front[k] == v@[k + i]);
        }
        if j > i {
            assert(front[j - i - 1] == v@[j - 1]);
        }
        lemma_trim_back(front, (j - i) as int);
        assert(front.take((j - i) as int) == v@.subrange(i as int, j as int));
    }
    string_of(&v.as_slice()[i..j])
}

/// The tracker id that an input names: the leftmost run of 44 characters
/// of `[a-zA-Z0-9_-]` in the trimmed input, if any. A bare id is the whole
/// trimmed input.
pub open spec fn tracker_id_of(input: Seq<char>) -> Option<Seq<char>> {
    first_id_run(trimmed(input))
}

/// A text of exactly 44 id characters is its own leftmost run.
proof fn lemma_whole_run(t: Seq<char>)
    requires
        t.len() == 44,
        forall|i: int| 0 <= i < t.len() ==> #[trigger] is_id_class(t[i]),
    ensures
        first_id_run(t) == Some(t),
{
    assert(id_run_at(t, 0)) by {
        assert forall|k: int| 0 <= k < 44 implies #[trigger] is_id_class(t[0 + k]) by {
            assert(is_id_class(t[k]));
        }
    }
    let i = choose|i: int| id_run_at(t, i) && forall|j: int| 0 <= j < i ==> !id_run_at(t, j);
    assert(i == 0);
    assert(t.subrange(0, 44) == t);
}

/// The error of an input that names no tracker.
#[derive(Debug, Clone, Copy, PartialEq, Eq, Structural)]
pub enum TrackerIdError {
    /// The input is neither a tracker id nor a text that holds one.
    InvalidTrackerId,
}

impl TrackerIdError {
    /// The message shown to the user.
    pub fn message(&self) -> (r: String)
        ensures
            r@ == "Invalid tracker ID or URL"@,
    {
        String::from_str("Invalid tracker ID or URL")
    }
}

fn char_is_id_class(c: char) -> (r: bool)
    ensures
        r == is_id_class(c),
{
    ('a' <= c && c <= 'z') || ('A' <= c && c <= 'Z') || ('0' <= c && c <= '9') || c == '_' || c
        == '-'
}

/// Whether a text is exactly 44 id characters.
fn is_bare_id(s: &str) -> (r: bool)
    ensures
        r == (s@.len() == 44 && forall|i: int| 0 <= i < s@.len() ==> #[trigger] is_id_class(s@[i])),
{
    let v = chars_of(s);
    let n = v.len();
    if n != 44 {
        return false;
    }
    for k in 0..n
        invariant
            n == v@.len(),
            v@ == s@,
            forall|i: int| 0 <= i < k ==> #[trigger] is_id_class(v@[i]),
    {
        if !char_is_id_class(v[k]) {
            return false;
        }
    }
    true
}

/// The tracker id named by a user's input: a bare 44-character id, or a
/// link (such as a spreadsheet URL) that holds one.
pub fn extract_tracker_id(input: &str) -> (r: Result<String, TrackerIdError>)
    ensures
        match r {
            Ok(id) => tracker_id_of(input@) == Some(id@),
            Err(_) => tracker_id_of(input@) is None,
        },
{
    let t = trim(input);
    if is_bare_id(t.as_str()) {
        proof {
            lemma_whole_run(t@);
        }
        return Ok(t);
    }
    match regex_capture("([a-zA-Z0-9_-]{44})", t.as_str(), 1) {
        Some(id) => Ok(id),
        None => Err(TrackerIdError::InvalidTrackerId),
    }
}


proof fn lemma_id_untrimmed(id: Seq<char>)
    requires
        forall|i: int| 0 <= i < id.len() ==> #[trigger] is_id_class(id[i]),
    ensures
        trimmed(id) == id,
{
    if id.len() > 0 {
        assert(is_id_class(id[0]));
        assert(!is_white_space(id[0]));
    }
    lemma_trim_front(id, 0);
    assert(id.skip(0) == id);
    if id.len() > 0 {
        assert(is_id_class(id[id.len() - 1]));
        assert(!is_white_space(id[id.len() - 1]));
    }
    lemma_trim_back(id, id.len() as int);
    assert(id.take(id.len() as int) == id);
}

proof fn lemma_least_run(t: Seq<char>, i: int)
    requires
        id_run_at(t, i),
    ensures
        exists|k: int| id_run_at(t, k) && forall|j: int| 0 <= j < k ==> !id_run_at(t, j),
    decreases i,
{
    if exists|j: int| 0 <= j < i && #[trigger] id_run_at(t, j) {
        let j = choose|j: int| 0 <= j < i && #[trigger] id_run_at(t, j);
        lemma_least_run(t, j);
    } else {
        assert(id_run_at(t, i) && forall|j: int| 0 <= j < i ==> !id_run_at(t, j));
    }
}

/// Every id is 44 characters of `[a-zA-Z0-9_-]`, and naming a tracker again
/// by the id it was named by gives the same id.
pub proof fn lemma_tracker_id_idempotent(input: Seq<char>, id: Seq<char>)
    requires
        tracker_id_of(input) == Some(id),
    ensures
        id.len() == 44,
        forall|i: int| 0 <= i < id.len() ==> #[trigger] is_id_class(id[i]),
        tracker_id_of(id) == Some(id),
{
    let t = trimmed(input);
    assert(exists|k: int| #[trigger] id_run_at(t, k));
    let k0 = choose|k: int| #[trigger] id_run_at(t, k);
    lemma_least_run(t, k0);
    let k = choose|k: int| id_run_at(t, k) && forall|j: int| 0 <= j < k ==> !id_run_at(t, j);
    assert(id == t.subrange(k, k + 44));
    assert forall|i: int| 0 <= i < id.len() implies #[trigger] is_id_class(id[i]) by {
        assert(id[i] == t[k + i]);
        assert(is_id_class(t[k + i]));
    }
    lemma_id_untrimmed(id);
    lemma_whole_run(id);
}

} // verus!
