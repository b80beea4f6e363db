//! Reading audio links out of what the file hosts send back: KrakenFiles
//! and imgur.gg pages, Tidal and Qobuz API answers.
use vstd::prelude::*;
use crate::text::{has_sub, has_prefix, contains, starts_with, append, str_eq};
use crate::crates::{
    opt_view, regex_capture, regex_capture_of, base64_decode, base64_standard_decode_of,
    html_first_attr, html_first_attr_of, html_texts, html_texts_of, audio_link_at,
    audio_link_text, audio_ext, link_body_char,
};

verus! {

// ---------------------------------------------------------------------------
// JSON answers
// ---------------------------------------------------------------------------

/// A JSON value as the API answers carry it.
#[derive(Debug)]
pub enum Json {
    Null,
    Bool(bool),
    /// A number, as written.
    Number(String),
    Str(String),
    Array(Vec<Json>),
    /// The members of an object, each key once.
    Object(Vec<(String, Json)>),
}

/// The value of the first member named `key` among `members`.
pub open spec fn member_value(members: Seq<(String, Json)>, key: Seq<char>) -> Option<Json>
    decreases members.len(),
{
    if members.len() == 0 {
        None
    } else if members[0].0@ == key {
        Some(members[0].1)
    } else {
        member_value(members.drop_first(), key)
    }
}

/// The member `key` of an object; nothing for other values.
pub open spec fn json_field(v: Json, key: Seq<char>) -> Option<Json> {
    match v {
        Json::Object(members) => member_value(members@, key),
        _ => None,
    }
}

/// The element at position `i` of an array; nothing for other values.
pub open spec fn json_item(v: Json, i: nat) -> Option<Json> {
    match v {
        Json::Array(items) => if i < items@.len() {
            Some(items@[i as int])
        } else {
            None
        },
        _ => None,
    }
}

/// The text of a string value; nothing for other values.
pub open spec fn json_text(v: Json) -> Option<Seq<char>> {
    match v {
        Json::Str(s) => Some(s@),
        _ => None,
    }
}

/// The text at `v.a.b`, if each step exists and the last is a string.
pub open spec fn text_at2(v: Json, a: Seq<char>, b: Seq<char>) -> Option<Seq<char>> {
    match json_field(v, a) {
        Some(x) => match json_field(x, b) {
            Some(y) => json_text(y),
            None => None,
        },
        None => None,
    }
}

/// The member `key` of an object value.
pub fn json_get<'a>(v: &'a Json, key: &str) -> (r: Option<&'a Json>)
    ensures
        match r {
            Some(x) => json_field(*v, key@) == Some(*x),
            None => json_field(*v, key@) is None,
        },
{
    match v {
        Json::Object(members) => {
            let n = members.len();
            assert(members@.skip(0) == members@);
            for i in 0..n
                invariant
                    n == members@.len(),
                    json_field(*v, key@) == member_value(members@, key@),
                    member_value(members@, key@) == member_value(members@.skip(i as int), key@),
            {
                let ghost rest = members@.skip(i as int);
                assert(rest[0] == members@[i as int]);
                assert(rest.drop_first() == members@.skip(i + 1));
                let (k, x) = &members[i];
                if str_eq(k.as_str(), key) {
                    assert(member_value(members@.skip(i as int), key@) == Some(members@[i as int].1));
                    return Some(x);
                }
            }
            assert(members@.skip(n as int).len() == 0);
            None
        },
        _ => None,
    }
}

/// The element at position `i` of an array value.
pub fn json_index(v: &Json, i: usize) -> (r: Option<&Json>)
    ensures
        match r {
            Some(x) => json_item(*v, i as nat) == Some(*x),
            None => json_item(*v, i as nat) is None,
        },
{
    match v {
        Json::Array(items) => if i < items.len() {
            Some(&items[i])
        } else {
            None
        },
        _ => None,
    }
}

/// The text of a string value.
pub fn json_as_str(v: &Json) -> (r: Option<&str>)
    ensures
        match r {
            Some(s) => json_text(*v) == Some(s@),
            None => json_text(*v) is None,
        },
{
    match v {
        Json::Str(s) => Some(s.as_str()),
        _ => None,
    }
}

fn text_at2_exec(v: &Json, a: &str, b: &str) -> (r: Option<String>)
    ensures
        opt_view(r) == text_at2(*v, a@, b@),
{
    match json_get(v, a) {
        Some(x) => match json_get(x, b) {
            Some(y) => match json_as_str(y) {
                Some(s) => Some(String::from_str(s)),
                None => None,
            },
            None => None,
        },
        None => None,
    }
}

/// The stream manifest in a Tidal API answer: the string at `data.manifest`.
pub fn tidal_manifest(answer: &Json) -> (r: Option<String>)
    ensures
        opt_view(r) == text_at2(*answer, "data"@, "manifest"@),
{
    text_at2_exec(answer, "data", "manifest")
}

/// The bytes of a base64-encoded (standard alphabet, padded) manifest.
pub fn decode_manifest(manifest: &str) -> (r: Option<Vec<u8>>)
    ensures
        match r {
            Some(v) => base64_standard_decode_of(manifest@) == Some(v@),
            None => base64_standard_decode_of(manifest@) is None,
        },
{
    base64_decode(manifest)
}

/// The stream link in a decoded Tidal manifest: the first element of its
/// `urls` array, when it is a string.
pub fn manifest_stream_url(manifest: &Json) -> (r: Option<String>)
    ensures
        opt_view(r) == (match json_field(*manifest, "urls"@) {
            Some(urls) => match json_item(urls, 0) {
                Some(u) => json_text(u),
                None => None,
            },
            None => None,
        }),
{
    match json_get(manifest, "urls") {
        Some(urls) => match json_index(urls, 0) {
            Some(u) => match json_as_str(u) {
                Some(s) => Some(String::from_str(s)),
                None => None,
            },
            None => None,
        },
        None => None,
    }
}

/// The download link in a Qobuz API answer: the string at `data.url`.
pub fn qobuz_stream_url(answer: &Json) -> (r: Option<String>)
    ensures
        opt_view(r) == text_at2(*answer, "data"@, "url"@),
{
    text_at2_exec(answer, "data", "url")
}

// ---------------------------------------------------------------------------
// Pages
// ---------------------------------------------------------------------------

/// The pattern of the M4A link in a KrakenFiles page.
pub open spec fn kraken_m4a_pattern() -> Seq<char> {
    "m4a:\\s*['\"]([^'\"]+)['\"]"@
}

/// A scheme-relative link (`//host/...`) completed with `https:`.
pub open spec fn with_scheme(u: Seq<char>) -> Seq<char> {
    if has_prefix(u, "//"@) {
        "https:"@ + u
    } else {
        u
    }
}

/// Completes a scheme-relative link with `https:`; other links are kept.
pub fn complete_scheme(link: &str) -> (r: String)
    ensures
        r@ == with_scheme(link@),
{
    if starts_with(link, "//") {
        let mut s = String::from_str("https:");
        append(&mut s, link);
        s
    } else {
        String::from_str(link)
    }
}

/// The audio link in a KrakenFiles page: the M4A link of its player
/// settings, completed with `https:` when scheme-relative.
pub fn kraken_audio_url(html: &str) -> (r: Option<String>)
    ensures
        opt_view(r) == (match regex_capture_of(kraken_m4a_pattern(), html@, 1) {
            Some(u) => Some(with_scheme(u)),
            None => None,
        }),
{
    match regex_capture("m4a:\\s*['\"]([^'\"]+)['\"]", html, 1) {
        Some(u) => Some(complete_scheme(u.as_str())),
        None => None,
    }
}

/// The pattern of an audio file link inside a page script.
pub open spec fn script_audio_pattern() -> Seq<char> {
    "https://[^\"'\\s\\\\]+\\.(?:mp3|m4a|flac|wav)"@
}

/// A script that carries the player's data.
pub open spec fn is_player_script(text: Seq<char>) -> bool {
    has_sub(text, "bucketKey"@) || has_sub(text, "self.__next_f.push"@)
}

/// The first audio file link found in a player script, from position `i` on.
pub open spec fn script_audio_from(texts: Seq<Seq<char>>, i: int) -> Option<Seq<char>>
    decreases texts.len() - i,
{
    if i < 0 || i >= texts.len() {
        None
    } else if is_player_script(texts[i]) && regex_capture_of(
        script_audio_pattern(),
        texts[i],
        0,
    ) is Some {
        regex_capture_of(script_audio_pattern(), texts[i], 0)
    } else {
        script_audio_from(texts, i + 1)
    }
}

/// The audio link in an imgur.gg page: the `src` of its first `audio`
/// element, else that of the first `audio source` element, else the first
/// audio file link in a player script.
pub open spec fn imgur_url_of(html: Seq<char>) -> Option<Seq<char>> {
    match html_first_attr_of(html, "audio"@, "src"@) {
        Some(u) => Some(u),
        None => match html_first_attr_of(html, "audio source"@, "src"@) {
            Some(u) => Some(u),
            None => script_audio_from(html_texts_of(html, "script"@), 0),
        },
    }
}

/// Whether a page script carries the player's data.
pub fn player_script(text: &str) -> (r: bool)
    ensures
        r == is_player_script(text@),
{
    contains(text, "bucketKey") || contains(text, "self.__next_f.push")
}

/// An imgur.gg page script holds a link of the audio link pattern.
pub open spec fn has_audio_link(text: Seq<char>) -> bool {
    exists|a: int, b: int| #[trigger] audio_link_at(text, a, b)
}

/// `u` is the first audio link of `text`: a text of the audio link
/// language found in `text`, starting where the leftmost such text starts.
pub open spec fn first_audio_link(text: Seq<char>, u: Seq<char>) -> bool {
    exists|a: int, b: int|
        #[trigger] audio_link_at(text, a, b) && u == text.subrange(a, b) && (forall|a2: int, b2: int|
            #[trigger] audio_link_at(text, a2, b2) ==> a <= a2)
}

/// The audio link in an imgur.gg page.
///
/// When the page has no `audio` element with a `src` (nor an `audio source`
/// one), the link is the first https link ending in `.mp3`, `.m4a`, `.flac`
/// or `.wav` in the first player script that holds one, and there is none
/// exactly when no player script holds such a link.
pub fn imgur_audio_url(html: &str) -> (r: Option<String>)
    ensures
        opt_view(r) == imgur_url_of(html@),
        ({
            let texts = html_texts_of(html@, "script"@);
            html_first_attr_of(html@, "audio"@, "src"@) is None && html_first_attr_of(
                html@,
                "audio source"@,
                "src"@,
            ) is None ==> {
                &&& (r is Some <==> exists|j: int|
                    0 <= j < texts.len() && (has_sub(texts[j], "bucketKey"@) || has_sub(
                        texts[j],
                        "self.__next_f.push"@,
                    )) && #[trigger] has_audio_link(texts[j]))
                &&& (r is Some ==> exists|j: int|
                    0 <= j < texts.len() && (has_sub(texts[j], "bucketKey"@) || has_sub(
                        texts[j],
                        "self.__next_f.push"@,
                    )) && #[trigger] first_audio_link(texts[j], r->0@) && (forall|j2: int|
                        0 <= j2 < j && (has_sub(texts[j2], "bucketKey"@) || has_sub(
                            texts[j2],
                            "self.__next_f.push"@,
                        )) ==> !#[trigger] has_audio_link(texts[j2])))
                &&& (r is Some ==> {
                    let u = r->0@;
                    &&& u.take(8) == "https://"@
                    &&& u.skip(u.len() - 4) == ".mp3"@ || u.skip(u.len() - 4) == ".m4a"@ || u.skip(
                        u.len() - 5,
                    ) == ".flac"@ || u.skip(u.len() - 4) == ".wav"@
                })
            }
        }),
{
    if let Some(u) = html_first_attr(html, "audio", "src") {
        return Some(u);
    }
    if let Some(u) = html_first_attr(html, "audio source", "src") {
        return Some(u);
    }
    let scripts = html_texts(html, "script");
    let ghost texts = html_texts_of(html@, "script"@);
    assert(imgur_url_of(html@) == script_audio_from(texts, 0));
    let n = scripts.len();
    for i in 0..n
        invariant
            n == texts.len(),
            texts == html_texts_of(html@, "script"@),
            html_first_attr_of(html@, "audio"@, "src"@) is None,
            html_first_attr_of(html@, "audio source"@, "src"@) is None,
            imgur_url_of(html@) == script_audio_from(texts, 0),
            scripts@.map_values(|s: String| s@) == texts,
            script_audio_from(texts, 0) == script_audio_from(texts, i as int),
            forall|j2: int|
                0 <= j2 < i && (has_sub(texts[j2], "bucketKey"@) || has_sub(
                    texts[j2],
                    "self.__next_f.push"@,
                )) ==> !#[trigger] has_audio_link(texts[j2]),
    {
        assert(texts[i as int] == scripts@[i as int]@);
        if player_script(scripts[i].as_str()) {
            if let Some(u) = regex_capture(
                "https://[^\"'\\s\\\\]+\\.(?:mp3|m4a|flac|wav)",
                scripts[i].as_str(),
                0,
            ) {
                assert(script_audio_from(texts, i as int) == Some(u@));
                proof {
                    lemma_audio_link_ending(u@);
                    assert(first_audio_link(texts[i as int], u@));
                    assert(has_audio_link(texts[i as int]));
                }
                return Some(u);
            }
            assert(!has_audio_link(texts[i as int]));
        }
        assert(script_audio_from(texts, i as int) == script_audio_from(texts, i + 1));
    }
    None
}

/// An audio link begins with `https://` and ends in one of its extensions.
proof fn lemma_audio_link_ending(u: Seq<char>)
    requires
        audio_link_text(u),
    ensures
        u.take(8) == "https://"@,
        u.skip(u.len() - 4) == ".mp3"@ || u.skip(u.len() - 4) == ".m4a"@ || u.skip(u.len() - 5)
            == ".flac"@ || u.skip(u.len() - 4) == ".wav"@,
{
    reveal_strlit("mp3");
    reveal_strlit("m4a");
    reveal_strlit("flac");
    reveal_strlit("wav");
    reveal_strlit(".mp3");
    reveal_strlit(".m4a");
    reveal_strlit(".flac");
    reveal_strlit(".wav");
    let k = choose|k: int|
        8 < k < u.len() && u.take(8) == "https://"@ && u[k] == '.' && #[trigger] audio_ext(
            u.skip(k + 1),
        ) && forall|m: int| 8 <= m < k ==> link_body_char(u[m]);
    let e = u.skip(k + 1);
    assert(u.skip(k) =~= seq!['.'] + e);
    if e == "mp3"@ {
        assert(u.skip(u.len() - 4) =~= ".mp3"@);
    } else if e == "m4a"@ {
        assert(u.skip(u.len() - 4) =~= ".m4a"@);
    } else if e == "flac"@ {
        assert(u.skip(u.len() - 5) =~= ".flac"@);
    } else {
        assert(u.skip(u.len() - 4) =~= ".wav"@);
    }
}

} // verus!
