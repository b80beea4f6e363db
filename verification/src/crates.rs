//! Trusted bindings to the outside crates that the link and page logic
//! calls: `regex`, `base64`, `scraper` and `sanitize-filename`.
//!
//! Each function here makes one outside call; Verus believes its contract.
use vstd::prelude::*;
use crate::text::{is_ascii_alnum, ascii_lower_seq};
use crate::links::is_white_space;
use base64::Engine;

verus! {

/// The view of an optional string.
pub open spec fn opt_view(o: Option<String>) -> Option<Seq<char>> {
    match o {
        Some(s) => Some(s@),
        None => None,
    }
}

// ---------------------------------------------------------------------------
// regex
// ---------------------------------------------------------------------------

/// What capture group `group` of the first (leftmost-first) match of the
/// regular expression `pattern` in `haystack` holds; `None` when the pattern
/// does not compile, does not match, or the group takes no part in the match.
pub uninterp spec fn regex_capture_of(pattern: Seq<char>, haystack: Seq<char>, group: nat) -> Option<
    Seq<char>,
>;

/// The pattern that picks a tracker id out of a longer text.
pub open spec fn id_pattern() -> Seq<char> {
    "([a-zA-Z0-9_-]{44})"@
}

/// A character of the class `[a-zA-Z0-9_-]`.
pub open spec fn is_id_class(c: char) -> bool {
    is_ascii_alnum(c) || c == '_' || c == '-'
}

/// 44 characters of the class `[a-zA-Z0-9_-]` start at position `i`.
pub open spec fn id_run_at(h: Seq<char>, i: int) -> bool {
    &&& 0 <= i
    &&& i + 44 <= h.len()
    &&& forall|k: int| 0 <= k < 44 ==> #[trigger] is_id_class(h[i + k])
}

/// The leftmost run of 44 id characters in `h`.
pub open spec fn first_id_run(h: Seq<char>) -> Option<Seq<char>> {
    if exists|i: int| #[trigger] id_run_at(h, i) {
        let i = choose|i: int| id_run_at(h, i) && forall|j: int| 0 <= j < i ==> !id_run_at(h, j);
        Some(h.subrange(i, i + 44))
    } else {
        None
    }
}

/// The pattern of an audio file link: `https://`, one or more characters
/// other than quotes, backslashes and white space, a dot and one of the
/// extensions mp3, m4a, flac, wav.
pub open spec fn audio_link_pattern() -> Seq<char> {
    "https://[^\"'\\s\\\\]+\\.(?:mp3|m4a|flac|wav)"@
}

/// A character of the class `[^"'\s\\]`.
pub open spec fn link_body_char(c: char) -> bool {
    c != '"' && c != '\'' && c != '\\' && !is_white_space(c)
}

/// One of the audio extensions of `audio_link_pattern`.
pub open spec fn audio_ext(e: Seq<char>) -> bool {
    e == "mp3"@ || e == "m4a"@ || e == "flac"@ || e == "wav"@
}

/// A text of the language of `audio_link_pattern`.
pub open spec fn audio_link_text(u: Seq<char>) -> bool {
    exists|k: int|
        8 < k < u.len() && u.take(8) == "https://"@ && u[k] == '.' && #[trigger] audio_ext(
            u.skip(k + 1),
        ) && forall|m: int| 8 <= m < k ==> link_body_char(u[m])
}

/// `h` holds a text of the language of `audio_link_pattern` from `i` to `j`.
pub open spec fn audio_link_at(h: Seq<char>, i: int, j: int) -> bool {
    0 <= i <= j <= h.len() && audio_link_text(h.subrange(i, j))
}

/// Calls `regex::Regex::new` on `pattern` and `Regex::captures` on
/// `haystack`, and hands back the text of capture group `group`.
/// The result is named `regex_capture_of`. For the tracker-id pattern
/// `([a-zA-Z0-9_-]{44})` and group 1 it is the leftmost run of 44 such
/// characters: the regex crate reports the leftmost-first match, and a
/// fixed-width class repetition matches at the first position where 44
/// class characters follow. For the audio link pattern and group 0 (the
/// whole match) there is a match exactly when the haystack holds a text of
/// the pattern's language, and the match is such a text, starting at the
/// leftmost position where one starts.
#[verifier::external_body]
pub(crate) fn regex_capture(pattern: &str, haystack: &str, group: usize) -> (r: Option<String>)
    ensures
        opt_view(r) == regex_capture_of(pattern@, haystack@, group as nat),
        pattern@ == id_pattern() && group == 1 ==> opt_view(r) == first_id_run(haystack@),
        pattern@ == audio_link_pattern() && group == 0 ==> (r is Some <==> exists|i: int, j: int|
            #[trigger] audio_link_at(haystack@, i, j)),
        pattern@ == audio_link_pattern() && group == 0 && r is Some ==> exists|i: int, j: int|
            #[trigger] audio_link_at(haystack@, i, j) && r->0@ == haystack@.subrange(i, j) && (forall|
                i2: int,
                j2: int,
            | #[trigger] audio_link_at(haystack@, i2, j2) ==> i <= i2),
{
    match regex::Regex::new(pattern) {
        Ok(re) => re.captures(haystack).and_then(|c| c.get(group)).map(|m| m.as_str().to_string()),
        Err(_) => None,
    }
}

// ---------------------------------------------------------------------------
// base64
// ---------------------------------------------------------------------------

/// What the standard (padded) base64 engine decodes `s` to; `None` when it
/// reports a decoding error.
pub uninterp spec fn base64_standard_decode_of(s: Seq<char>) -> Option<Seq<u8>>;

/// Calls `base64::engine::general_purpose::STANDARD.decode` on the bytes of
/// `s`; the result is named `base64_standard_decode_of`.
#[verifier::external_body]
pub(crate) fn base64_decode(s: &str) -> (r: Option<Vec<u8>>)
    ensures
        match r {
            Some(v) => base64_standard_decode_of(s@) == Some(v@),
            None => base64_standard_decode_of(s@) is None,
        },
{
    base64::engine::general_purpose::STANDARD.decode(s).ok()
}

// ---------------------------------------------------------------------------
// scraper
// ---------------------------------------------------------------------------

/// The value of attribute `attr` on the first element of the HTML document
/// `html` that the CSS selector `selector` picks, if that element has it.
pub uninterp spec fn html_first_attr_of(html: Seq<char>, selector: Seq<char>, attr: Seq<char>) -> Option<
    Seq<char>,
>;

/// The text content of every element of the HTML document `html` that the
/// CSS selector `selector` picks, in document order.
pub uninterp spec fn html_texts_of(html: Seq<char>, selector: Seq<char>) -> Seq<Seq<char>>;

/// Parses `html` with `scraper::Html::parse_document`, compiles `selector`
/// with `scraper::Selector::parse`, takes the first selected element and
/// reads its attribute `attr`. The result is named `html_first_attr_of`.
#[verifier::external_body]
pub(crate) fn html_first_attr(html: &str, selector: &str, attr: &str) -> (r: Option<String>)
    ensures
        opt_view(r) == html_first_attr_of(html@, selector@, attr@),
{
    let document = scraper::Html::parse_document(html);
    let sel = scraper::Selector::parse(selector).ok()?;
    document.select(&sel).next().and_then(|e| e.value().attr(attr)).map(|s| s.to_string())
}

/// Parses `html` with `scraper::Html::parse_document`, compiles `selector`
/// with `scraper::Selector::parse`, and collects the text of every selected
/// element (`ElementRef::text`, concatenated). The result is named
/// `html_texts_of`; an invalid selector selects nothing.
#[verifier::external_body]
pub(crate) fn html_texts(html: &str, selector: &str) -> (r: Vec<String>)
    ensures
        r@.map_values(|s: String| s@) == html_texts_of(html@, selector@),
{
    let document = scraper::Html::parse_document(html);
    match scraper::Selector::parse(selector) {
        Ok(sel) => document.select(&sel).map(|e| e.text().collect::<String>()).collect(),
        Err(_) => Vec::new(),
    }
}

// ---------------------------------------------------------------------------
// sanitize-filename
// ---------------------------------------------------------------------------

/// A character that `sanitize_filename::sanitize` always removes: one of
/// `/ ? < > \ : * | "` or a control character (U+0000..U+001F,
/// U+0080..U+009F).
pub open spec fn is_unsafe_file_char(c: char) -> bool {
    ||| c == '/' || c == '?' || c == '<' || c == '>' || c == '\\'
    ||| c == ':' || c == '*' || c == '|' || c == '"'
    ||| (c as u32) <= 0x1f
    ||| (0x80 <= (c as u32) && (c as u32) <= 0x9f)
}

/// What is left of a name once every character that
/// `sanitize_filename::sanitize` removes is taken out.
pub open spec fn kept_file_chars(name: Seq<char>) -> Seq<char> {
    name.filter(|c: char| !is_unsafe_file_char(c))
}

/// A device word that Windows reserves, in any case: `con`, `prn`, `aux`,
/// `nul`, or `com` or `lpt` followed by one digit.
pub open spec fn device_word(w: Seq<char>) -> bool {
    let l = ascii_lower_seq(w);
    ||| l == "con"@
    ||| l == "prn"@
    ||| l == "aux"@
    ||| l == "nul"@
    ||| l.len() == 4 && (l.take(3) == "com"@ || l.take(3) == "lpt"@) && '0' <= l[3] && l[3] <= '9'
}

/// The name is the device word of its first `k` characters, alone or
/// followed by a dot and a rest without a line break.
pub open spec fn device_name_at(t: Seq<char>, k: int) -> bool {
    &&& k <= t.len()
    &&& device_word(t.take(k))
    &&& t.len() == k || (t[k] == '.' && forall|j: int| k < j < t.len() ==> t[j] != '\n')
}

/// A name that `sanitize_filename` empties on Windows as a reserved device
/// name (its pattern `(?i)^(con|prn|aux|nul|com[0-9]|lpt[0-9])(\..*)?$`).
pub open spec fn windows_device_name(t: Seq<char>) -> bool {
    device_name_at(t, 3) || device_name_at(t, 4)
}

/// A name that `sanitize_filename::sanitize` leaves as it is on every
/// platform once its unsafe characters are gone: it does not end in a dot
/// or a space (so it is not made of dots only), is not a Windows device
/// name, and is at most 255 bytes long.
pub open spec fn plain_file_text(t: Seq<char>) -> bool {
    &&& t.len() > 0 ==> t.last() != '.' && t.last() != ' '
    &&& !windows_device_name(t)
    &&& vstd::utf8::encode_utf8(t).len() <= 255
}

/// What `sanitize_filename::sanitize` may return for `name` on any
/// platform: a prefix of the name with its unsafe characters taken out, of
/// at most 255 bytes, free of unsafe characters, and that whole text when it
/// is plain.
pub open spec fn sanitized_text(r: Seq<char>, name: Seq<char>) -> bool {
    &&& r.len() <= kept_file_chars(name).len()
    &&& r == kept_file_chars(name).take(r.len() as int)
    &&& plain_file_text(kept_file_chars(name)) ==> r == kept_file_chars(name)
    &&& forall|i: int| 0 <= i < r.len() ==> !is_unsafe_file_char(#[trigger] r[i])
    &&& vstd::utf8::encode_utf8(r).len() <= 255
}

/// Calls `sanitize_filename::sanitize`. The crate deletes the characters
/// of `is_unsafe_file_char`, replaces a name made only of dots by the empty
/// name, and cuts what is left to at most 255 bytes; on Windows it also
/// empties reserved device names and strips trailing dots and spaces. The
/// result is therefore a prefix of the name with its unsafe characters taken
/// out, and that whole text when it is `plain_file_text`. Which prefix it is
/// otherwise depends on the platform and is left unsaid.
#[verifier::external_body]
pub(crate) fn sanitize(name: &str) -> (r: String)
    ensures
        sanitized_text(r@, name@),
{
    sanitize_filename::sanitize(name)
}

} // verus!
