//! Requests to the oEmbed and player endpoints, and their answers.
//!
//! Two data sources are consulted for a video: the oEmbed endpoint
//! (`https://vimeo.com/api/oembed.json?url=…`), always-public JSON with the
//! metadata, and the player config, fetched from
//! `https://player.vimeo.com/video/<id>/config` or embedded in the player
//! page, which carries the progressive download URLs and the HLS manifest.

use std::collections::HashMap;

use vstd::prelude::*;
use vstd::string::StringExecFns;
use vstd::utf8;

use crate::error::PluginError;
use crate::json;
use crate::json::JsonValue;
use crate::text;

pub use crate::literal::js_object_literal_to_json;
pub use crate::player_config::{
    parse_player_config, CdnEntry, CdnTable, FilesConfig, HlsEntry, PlayerConfig, ProgressiveEntry,
    RequestConfig, VideoMeta,
};
pub use crate::scanner::{extract_player_config_from_html, gap_contains_assignment};

verus! {

// ── Host function envelope ───────────────────────────────────────────────────

/// An HTTP request for the host to make.
#[derive(Debug)]
pub struct HttpRequest {
    pub method: String,
    pub url: String,
    pub headers: HashMap<String, String>,
    pub body: Option<String>,
}

/// The host's answer to an HTTP request.
#[derive(Debug)]
pub struct HttpResponse {
    pub status: u16,
    pub headers: HashMap<String, String>,
    pub body: String,
}

/// The number of bytes in the UTF-8 form of `c`.
pub open spec fn width(c: char) -> int {
    let u = c as u32;
    if u <= 0x7f {
        1
    } else if u <= 0x7ff {
        2
    } else if u <= 0xffff {
        3
    } else {
        4
    }
}

/// How many leading characters of `s` fit into `room` bytes of UTF-8.
pub open spec fn fitting(s: Seq<char>, room: int) -> int
    decreases s.len(),
{
    if s.len() == 0 || width(s[0]) > room {
        0
    } else {
        1 + fitting(s.drop_first(), room - width(s[0]))
    }
}

/// `s` if it takes no more than `max` bytes, else as many whole characters as
/// fit into `max` bytes, and an ellipsis.
pub open spec fn excerpt(s: Seq<char>, max: int) -> Seq<char> {
    if utf8::encode_utf8(s).len() <= max {
        s
    } else {
        s.take(fitting(s, max)) + "…"@
    }
}

fn char_width(c: char) -> (n: usize)
    ensures
        n == width(c),
{
    let u: u32 = c as u32;
    if u <= 0x7f {
        1
    } else if u <= 0x7ff {
        2
    } else if u <= 0xffff {
        3
    } else {
        4
    }
}

/// Cuts `s` to at most `max` bytes on a character boundary.
pub fn truncate(s: &str, max: usize) -> (r: String)
    ensures
        r@ == excerpt(s@, max as int),
{
    if s.as_bytes().len() <= max {
        return s.to_owned();
    }
    let chars: Vec<char> = text::chars_of(s);
    let mut room: usize = max;
    let mut n: usize = 0;
    let mut out: String = String::new();
    assert(chars@.skip(0) =~= chars@);
    while n < chars.len() && char_width(chars[n]) <= room
        invariant
            n <= chars.len(),
            fitting(chars@, max as int) == n + fitting(chars@.skip(n as int), room as int),
            out@ == chars@.take(n as int),
        decreases chars.len() - n,
    {
        assert(chars@.skip(n as int).drop_first() =~= chars@.skip(n + 1));
        assert(chars@.take(n + 1) =~= chars@.take(n as int).push(chars@[n as int]));
        room -= char_width(chars[n]);
        out.push(chars[n]);
        n += 1;
    }
    out.append("…");
    out
}

/// `r` is what a status makes of an answer: the body on success, a refusal as
/// a private resource, any other status as such with an excerpt of the body.
pub open spec fn is_success_body(response: HttpResponse, r: Result<String, PluginError>) -> bool {
    if 200 <= response.status < 300 {
        r == Ok::<String, PluginError>(response.body)
    } else if response.status == 401 || response.status == 403 {
        r matches Err(PluginError::Private(message)) && message@ == "status "@ + text::decimal(
            response.status as nat,
        )
    } else {
        r matches Err(PluginError::HttpStatus { status, message }) && status == response.status
            && message@ == excerpt(response.body@, 256)
    }
}

impl HttpResponse {
    /// The body of a successful answer, or the error that the status stands
    /// for.
    pub fn into_success_body(self) -> (r: Result<String, PluginError>)
        ensures
            is_success_body(self, r),
    {
        if 200 <= self.status && self.status < 300 {
            Ok(self.body)
        } else if self.status == 401 || self.status == 403 {
            let mut message: String = "status ".to_owned();
            message.append(text::decimal_of(self.status as u64).as_str());
            Err(PluginError::Private(message))
        } else {
            Err(
                PluginError::HttpStatus {
                    status: self.status,
                    message: truncate(self.body.as_str(), 256),
                },
            )
        }
    }
}

/// The encoded bytes of a character count its width.
proof fn lemma_encoded_width(s: Seq<char>)
    requires
        s.len() > 0,
    ensures
        utf8::encode_utf8(s).len() == width(s[0]) + utf8::encode_utf8(s.drop_first()).len(),
{
    utf8::char_is_scalar(s[0]);
}

/// A text of at most `max` bytes is its own excerpt. That of a longer one is as
/// many whole characters as take at most `max` bytes, followed by the ellipsis.
pub proof fn law_excerpt_is_bounded(s: Seq<char>, max: int)
    requires
        max >= 0,
    ensures
        if utf8::encode_utf8(s).len() <= max {
            excerpt(s, max) == s
        } else {
            exists|n: int|
                0 <= n < s.len() && excerpt(s, max) == #[trigger] s.take(n) + "…"@
                    && utf8::encode_utf8(s.take(n)).len() <= max && max < utf8::encode_utf8(
                    s.take(n + 1),
                ).len()
        },
{
    if utf8::encode_utf8(s).len() > max {
        lemma_fitting(s, max);
        let n = fitting(s, max);
        assert(excerpt(s, max) == s.take(n) + "…"@);
    }
}

/// What fits fits, and one character more does not.
proof fn lemma_fitting(s: Seq<char>, room: int)
    requires
        0 <= room < utf8::encode_utf8(s).len(),
    ensures
        0 <= fitting(s, room) < s.len(),
        utf8::encode_utf8(s.take(fitting(s, room))).len() <= room,
        room < utf8::encode_utf8(s.take(fitting(s, room) + 1)).len(),
    decreases s.len(),
{
    let n = fitting(s, room);
    lemma_encoded_width(s);
    let rest = s.drop_first();
    if width(s[0]) <= room {
        lemma_fitting(rest, room - width(s[0]));
        lemma_encoded_width(s.take(n));
        lemma_encoded_width(s.take(n + 1));
        assert(s.take(n).drop_first() =~= rest.take(n - 1));
        assert(s.take(n + 1).drop_first() =~= rest.take(n));
    } else {
        lemma_encoded_width(s.take(1));
        assert(s.take(0) =~= Seq::<char>::empty());
    }
}

// ── oEmbed response ──────────────────────────────────────────────────────────

/// The part of the oEmbed schema that is used.
#[derive(Debug, PartialEq, Eq)]
pub struct OembedResponse {
    /// `"video"` for a single video. Other values are errors.
    pub kind: String,
    pub title: String,
    pub description: Option<String>,
    pub author_name: Option<String>,
    pub author_url: Option<String>,
    pub thumbnail_url: Option<String>,
    pub duration: Option<u64>,
    pub video_id: Option<u64>,
}

/// What becomes of a decoded oEmbed payload: a video passes, any other kind is
/// refused by name, and what did not decode is reported.
pub open spec fn is_judged_oembed(
    decoded: Result<OembedResponse, String>,
    r: Result<OembedResponse, PluginError>,
) -> bool {
    match decoded {
        Ok(payload) => if payload.kind@ == "video"@ {
            r == Ok::<OembedResponse, PluginError>(payload)
        } else {
            r matches Err(PluginError::UnsupportedUrl(message)) && message@ == "oEmbed kind '"@
                + payload.kind@ + "' is not a video"@
        },
        Err(reason) => r == Err::<OembedResponse, PluginError>(PluginError::ParseJson(reason)),
    }
}

/// Parses an oEmbed payload, which must describe a video. `decode` turns JSON
/// into the payload, or gives the reason why it cannot.
pub fn parse_oembed<D: Fn(&str) -> Result<OembedResponse, String>>(raw: &str, decode: D) -> (r:
    Result<OembedResponse, PluginError>)
    requires
        call_requires(decode, (raw,)),
    ensures
        exists|decoded: Result<OembedResponse, String>| #[trigger]
            call_ensures(decode, (raw,), decoded) && is_judged_oembed(decoded, r),
{
    match decode(raw) {
        Ok(payload) => {
            if !text::same_text(payload.kind.as_str(), "video") {
                let mut message: String = "oEmbed kind '".to_owned();
                message.append(payload.kind.as_str());
                message.append("' is not a video");
                return Err(PluginError::UnsupportedUrl(message));
            }
            Ok(payload)
        },
        Err(reason) => Err(PluginError::ParseJson(reason)),
    }
}

/// Parses the envelope of a host answer. `decode` turns JSON into the
/// envelope, or gives the reason why it cannot.
pub fn parse_http_response<D: Fn(&str) -> Result<HttpResponse, String>>(
    raw: &str,
    decode: D,
) -> (r: Result<HttpResponse, PluginError>)
    requires
        call_requires(decode, (raw,)),
    ensures
        exists|decoded: Result<HttpResponse, String>| #[trigger]
            call_ensures(decode, (raw,), decoded) && r == (match decoded {
                Ok(response) => Ok::<HttpResponse, PluginError>(response),
                Err(reason) => Err(PluginError::HostResponse(reason)),
            }),
{
    match decode(raw) {
        Ok(response) => Ok(response),
        Err(reason) => Err(PluginError::HostResponse(reason)),
    }
}

// ── Request builders ─────────────────────────────────────────────────────────

/// A byte that stands for itself in a URL component: letters, digits, `-`,
/// `_`, `.` and `~`.
pub open spec fn is_unreserved(b: u8) -> bool {
    ||| 0x30 <= b <= 0x39
    ||| 0x41 <= b <= 0x5a
    ||| 0x61 <= b <= 0x7a
    ||| b == 0x2d
    ||| b == 0x5f
    ||| b == 0x2e
    ||| b == 0x7e
}

/// The upper-case hexadecimal digit for a value below sixteen.
pub open spec fn hex_digit(d: int) -> char {
    if d < 10 {
        ((48 + d) as u8) as char
    } else {
        ((55 + d) as u8) as char
    }
}

/// How a byte is written in a URL component.
pub open spec fn encoded_byte(b: u8) -> Seq<char> {
    if is_unreserved(b) {
        seq![b as char]
    } else {
        seq!['%', hex_digit(b as int / 16), hex_digit(b as int % 16)]
    }
}

/// The percent encoding of a sequence of bytes.
pub open spec fn percent_encoded(bytes: Seq<u8>) -> Seq<char>
    decreases bytes.len(),
{
    if bytes.len() == 0 {
        seq![]
    } else {
        encoded_byte(bytes[0]) + percent_encoded(bytes.drop_first())
    }
}

fn to_hex_digit(d: u8) -> (c: char)
    requires
        d < 16,
    ensures
        c == hex_digit(d as int),
{
    if d < 10 {
        (48 + d) as char
    } else {
        (55 + d) as char
    }
}

/// Percent-encodes `s` for use as a URL component.
pub fn urlencode(s: &str) -> (out: String)
    ensures
        out@ == percent_encoded(utf8::encode_utf8(s@)),
{
    let bytes: &[u8] = s.as_bytes();
    let mut out: String = String::new();
    let mut i: usize = 0;
    assert(bytes@.skip(0) =~= bytes@);
    while i < bytes.len()
        invariant
            i <= bytes.len(),
            percent_encoded(bytes@) == out@ + percent_encoded(bytes@.skip(i as int)),
        decreases bytes.len() - i,
    {
        let b: u8 = bytes[i];
        let ghost written = out@;
        if (0x30 <= b && b <= 0x39) || (0x41 <= b && b <= 0x5a) || (0x61 <= b && b <= 0x7a) || b
            == 0x2d || b == 0x5f || b == 0x2e || b == 0x7e {
            out.push(b as char);
        } else {
            out.push('%');
            out.push(to_hex_digit(b / 16));
            out.push(to_hex_digit(b % 16));
        }
        proof {
            assert(bytes@.skip(i as int).drop_first() =~= bytes@.skip(i + 1));
            assert(out@ =~= written + encoded_byte(b));
            assert(percent_encoded(bytes@) =~= out@ + percent_encoded(bytes@.skip(i + 1)));
        }
        i += 1;
    }
    assert(bytes@.skip(i as int) =~= Seq::<u8>::empty());
    assert(out@ + percent_encoded(bytes@.skip(i as int)) =~= out@);
    out
}

/// The value of an upper-case hexadecimal digit.
pub open spec fn hex_value(c: char) -> int {
    if text::is_digit(c) {
        c as int - 48
    } else {
        c as int - 55
    }
}

/// The bytes that a percent-encoded text stands for.
pub open spec fn percent_decoded(s: Seq<char>) -> Seq<u8>
    decreases s.len(),
{
    if s.len() == 0 {
        seq![]
    } else if s[0] == '%' && s.len() >= 3 {
        seq![(hex_value(s[1]) * 16 + hex_value(s[2])) as u8] + percent_decoded(s.skip(3))
    } else {
        seq![s[0] as u8] + percent_decoded(s.drop_first())
    }
}

/// Decoding gives back what was encoded: two URLs never share an encoding.
pub proof fn law_percent_encoding_decodes(bytes: Seq<u8>)
    ensures
        percent_decoded(percent_encoded(bytes)) == bytes,
    decreases bytes.len(),
{
    if bytes.len() == 0 {
        assert(bytes =~= Seq::<u8>::empty());
    } else {
        let b = bytes[0];
        let rest = bytes.drop_first();
        let s = percent_encoded(bytes);
        let tail = percent_encoded(rest);
        law_percent_encoding_decodes(rest);
        if is_unreserved(b) {
            assert(s.drop_first() =~= tail);
        } else {
            assert(s.skip(3) =~= tail);
            assert(hex_value(s[1]) * 16 + hex_value(s[2]) == b);
        }
        assert(bytes =~= seq![b] + rest);
    }
}

/// A percent-encoded component holds nothing that could end it: every
/// character is unreserved or a `%`.
pub proof fn law_percent_encoding_is_safe(bytes: Seq<u8>)
    ensures
        forall|i: int|
            0 <= i < percent_encoded(bytes).len() ==> {
                let c = #[trigger] percent_encoded(bytes)[i];
                c == '%' || (c <= '\x7f' && is_unreserved(c as u8))
            },
    decreases bytes.len(),
{
    if bytes.len() > 0 {
        let rest = bytes.drop_first();
        let head = encoded_byte(bytes[0]);
        law_percent_encoding_is_safe(rest);
        assert forall|i: int| 0 <= i < percent_encoded(bytes).len() implies {
            let c = #[trigger] percent_encoded(bytes)[i];
            c == '%' || (c <= '\x7f' && is_unreserved(c as u8))
        } by {
            if i >= head.len() {
                assert(percent_encoded(bytes)[i] == percent_encoded(rest)[i - head.len()]);
            } else {
                assert(percent_encoded(bytes)[i] == head[i]);
            }
        }
    }
}

/// The URL of the oEmbed endpoint for a video.
pub open spec fn oembed_url(video_url: Seq<char>) -> Seq<char> {
    "https://vimeo.com/api/oembed.json?url="@ + percent_encoded(utf8::encode_utf8(video_url))
}

/// The URL of the player config endpoint for a video.
pub open spec fn player_config_url(video_id: Seq<char>) -> Seq<char> {
    "https://player.vimeo.com/video/"@ + video_id + "/config"@
}

/// The URL of the player page for a video, with its share token if it has one.
pub open spec fn embed_url(video_id: Seq<char>, hash: Option<Seq<char>>) -> Seq<char> {
    match hash {
        Some(token) => "https://player.vimeo.com/video/"@ + video_id + "?h="@ + token,
        None => "https://player.vimeo.com/video/"@ + video_id,
    }
}

/// The host request that fetches `url`.
pub open spec fn get_request(url: Seq<char>) -> Seq<char> {
    json::object_text(
        seq![
            ("method"@, json::JsonModel::Text("GET"@)),
            ("url"@, json::JsonModel::Text(url)),
        ],
    )
}

/// Writes a request without headers and body. Empty parts are left out.
fn request_text(request: HttpRequest) -> (r: Result<String, PluginError>)
    requires
        request.headers@ == Map::<String, String>::empty(),
        request.body is None,
    ensures
        r matches Ok(s) && s@ == json::object_text(
            seq![
                ("method"@, json::JsonModel::Text(request.method@)),
                ("url"@, json::JsonModel::Text(request.url@)),
            ],
        ),
{
    let mut fields: Vec<(String, JsonValue)> = Vec::new();
    fields.push(("method".to_owned(), JsonValue::Text(request.method)));
    fields.push(("url".to_owned(), JsonValue::Text(request.url)));
    proof {
        reveal_strlit("method");
        reveal_strlit("url");
        assert(json::models(fields@) =~= seq![
            ("method"@, json::JsonModel::Text(request.method@)),
            ("url"@, json::JsonModel::Text(request.url@)),
        ]);
        assert("method"@.len() != "url"@.len());
    }
    match json::object_to_string(fields) {
        Ok(s) => Ok(s),
        Err(error) => Err(PluginError::from(error)),
    }
}

/// A request to fetch `url`.
fn get(url: String) -> (request: HttpRequest)
    ensures
        request.method@ == "GET"@,
        request.url == url,
        request.headers@ == Map::<String, String>::empty(),
        request.body is None,
{
    HttpRequest { method: "GET".to_owned(), url, headers: HashMap::new(), body: None }
}

/// Builds the request for a video's oEmbed payload.
pub fn build_oembed_request(video_url: &str) -> (r: Result<String, PluginError>)
    ensures
        r matches Ok(s) && s@ == get_request(oembed_url(video_url@)),
{
    let mut url: String = "https://vimeo.com/api/oembed.json?url=".to_owned();
    url.append(urlencode(video_url).as_str());
    request_text(get(url))
}

/// Builds the request for a video's player config.
pub fn build_player_config_request(video_id: &str) -> (r: Result<String, PluginError>)
    ensures
        r matches Ok(s) && s@ == get_request(player_config_url(video_id@)),
{
    let mut url: String = "https://player.vimeo.com/video/".to_owned();
    url.append(video_id);
    url.append("/config");
    request_text(get(url))
}

/// Builds the request for a video's player page. A share token is kept, so
/// that restricted embeds open.
pub fn build_embed_html_request(video_id: &str, hash: Option<&str>) -> (r: Result<
    String,
    PluginError,
>)
    ensures
        r matches Ok(s) && s@ == get_request(
            embed_url(
                video_id@,
                match hash {
                    Some(token) => Some(token@),
                    None => None,
                },
            ),
        ),
{
    let mut url: String = "https://player.vimeo.com/video/".to_owned();
    url.append(video_id);
    if let Some(token) = hash {
        url.append("?h=");
        url.append(token);
    }
    request_text(get(url))
}

// ── Laws ─────────────────────────────────────────────────────────────────────

/// Bytes are encoded one by one. Letters, digits and `-`, `_`, `.` and `~` stand
/// for themselves, and every other byte becomes `%` and its two hexadecimal
/// digits in capitals.
pub proof fn law_percent_encoding_is_per_byte(a: Seq<u8>, b: u8)
    ensures
        percent_encoded(Seq::empty()) == Seq::<char>::empty(),
        percent_encoded(a.push(b)) == percent_encoded(a) + percent_encoded(seq![b]),
        ('0' as u8 <= b <= '9' as u8 || 'A' as u8 <= b <= 'Z' as u8 || 'a' as u8 <= b <= 'z' as u8
            || b == '-' as u8 || b == '_' as u8 || b == '.' as u8 || b == '~' as u8)
            ==> percent_encoded(seq![b]) == seq![b as char],
        !('0' as u8 <= b <= '9' as u8 || 'A' as u8 <= b <= 'Z' as u8 || 'a' as u8 <= b <= 'z' as u8
            || b == '-' as u8 || b == '_' as u8 || b == '.' as u8 || b == '~' as u8) ==> {
            let s = percent_encoded(seq![b]);
            &&& s.len() == 3
            &&& s[0] == '%'
            &&& '0' <= s[1] <= '9' || 'A' <= s[1] <= 'F'
            &&& '0' <= s[2] <= '9' || 'A' <= s[2] <= 'F'
            &&& (if s[1] <= '9' {
                s[1] as int - '0' as int
            } else {
                s[1] as int - 'A' as int + 10
            }) * 16 + (if s[2] <= '9' {
                s[2] as int - '0' as int
            } else {
                s[2] as int - 'A' as int + 10
            }) == b
        },
    decreases a.len(),
{
    let one = seq![b];
    assert(one.drop_first() =~= Seq::<u8>::empty());
    assert(percent_encoded(one) =~= encoded_byte(b)) by {
        assert(percent_encoded(one.drop_first()) =~= Seq::<char>::empty());
    }
    if a.len() == 0 {
        assert(a.push(b) =~= one);
        assert(percent_encoded(a) + percent_encoded(one) =~= percent_encoded(one));
    } else {
        law_percent_encoding_is_per_byte(a.drop_first(), b);
        assert(a.push(b).drop_first() =~= a.drop_first().push(b));
        assert(a.push(b)[0] == a[0]);
        assert(percent_encoded(a.push(b)) =~= percent_encoded(a) + percent_encoded(one));
    }
}

/// The oEmbed request carries the URL that it is about: behind a fixed address
/// stands nothing but the URL, and decoding gives it back.
pub proof fn law_oembed_request_carries_the_url(url: Seq<char>)
    ensures
        ({
            let address = "https://vimeo.com/api/oembed.json?url="@;
            let whole = oembed_url(url);
            &&& whole.len() >= address.len()
            &&& whole.take(address.len() as int) == address
            &&& percent_decoded(whole.skip(address.len() as int)) == utf8::encode_utf8(url)
        }),
{
    let address = "https://vimeo.com/api/oembed.json?url="@;
    let whole = oembed_url(url);
    assert(whole.take(address.len() as int) =~= address);
    assert(whole.skip(address.len() as int) =~= percent_encoded(utf8::encode_utf8(url)));
    law_percent_encoding_decodes(utf8::encode_utf8(url));
}

/// The config endpoint of a video lies below its player page, and the token is
/// appended to that page as the `h` parameter.
pub proof fn law_endpoints_belong_together(id: Seq<char>, token: Seq<char>)
    ensures
        player_config_url(id) == embed_url(id, None) + "/config"@,
        embed_url(id, Some(token)) == embed_url(id, None) + "?h="@ + token,
        embed_url(id, None) == embed_url(seq![], None) + id,
        embed_url(seq![], None) == "https://player.vimeo.com/video/"@,
{
    assert("https://player.vimeo.com/video/"@ + Seq::<char>::empty()
        =~= "https://player.vimeo.com/video/"@);
}

/// A request is a `GET` of the URL and says nothing else. The URL is read back
/// out of it as it is.
pub proof fn law_request_is_a_plain_get(url: Seq<char>)
    ensures
        ({
            let front = "{\"method\":\"GET\",\"url\":"@;
            let s = get_request(url);
            &&& s.len() > front.len()
            &&& s.take(front.len() as int) == front
            &&& s[front.len() as int] == '"'
            &&& json::string_content(s.skip(front.len() as int + 1)) == Some((url, "}"@))
        }),
{
    reveal_strlit("{\"method\":\"GET\",\"url\":");
    reveal_strlit("method");
    reveal_strlit("GET");
    reveal_strlit("url");
    reveal_strlit("}");
    let front = "{\"method\":\"GET\",\"url\":"@;
    let s = get_request(url);
    let first = ("method"@, json::JsonModel::Text("GET"@));
    let second = ("url"@, json::JsonModel::Text(url));
    let fields = seq![first, second];
    json::lemma_plain_text_is_not_escaped("method"@);
    json::lemma_plain_text_is_not_escaped("GET"@);
    json::lemma_plain_text_is_not_escaped("url"@);
    assert(fields.drop_last() =~= seq![first]);
    assert(seq![first].last() == first);
    assert(fields.last() == second);
    let head = json::members_text(seq![first]);
    assert(head == json::quoted("method"@) + seq![':'] + json::quoted("GET"@));
    assert(s =~= front + (json::quoted(url) + "}"@));
    assert(s.take(front.len() as int) =~= front);
    assert(s.skip(front.len() as int + 1) =~= (json::quoted(url) + "}"@).skip(1));
    json::law_quoted_text_reads_back(url, "}"@);
    assert(s[front.len() as int] == (json::quoted(url) + "}"@)[0]);
}

/// An answer comes to its body as it is, from status 200 up to 299. With 401
/// and 403 it is a private resource, and with any other status an error that
/// names the status and begins with what the body begins with.
pub proof fn law_status_decides(response: HttpResponse, r: Result<String, PluginError>)
    requires
        call_ensures(HttpResponse::into_success_body, (response,), r),
    ensures
        if 200 <= response.status <= 299 {
            r matches Ok(body) && body@ == response.body@
        } else if response.status == 401 || response.status == 403 {
            r matches Err(PluginError::Private(message)) && message@ == "status "@ + text::decimal(
                response.status as nat,
            )
        } else {
            &&& r matches Err(PluginError::HttpStatus { status, message })
            &&& status == response.status
            &&& utf8::encode_utf8(response.body@).len() <= 256 ==> message@ == response.body@
            &&& utf8::encode_utf8(response.body@).len() > 256 ==> exists|n: int|
                0 <= n < response.body@.len() && message@ == #[trigger] response.body@.take(n)
                    + "…"@ && utf8::encode_utf8(response.body@.take(n)).len() <= 256
                    < utf8::encode_utf8(response.body@.take(n + 1)).len()
        },
{
    law_excerpt_is_bounded(response.body@, 256);
}

/// An oEmbed payload passes as it is if it calls itself a video. Any other kind
/// is refused and named, and what did not decode is reported with its reason.
pub proof fn law_only_videos_pass<D: Fn(&str) -> Result<OembedResponse, String>>(
    raw: &str,
    decode: D,
    r: Result<OembedResponse, PluginError>,
    decoded: Result<OembedResponse, String>,
)
    requires
        call_ensures(parse_oembed::<D>, (raw, decode), r),
        forall|d: Result<OembedResponse, String>| #[trigger]
            call_ensures(decode, (raw,), d) ==> d == decoded,
    ensures
        r matches Ok(payload) ==> decoded == Ok::<OembedResponse, String>(payload)
            && payload.kind@ == "video"@,
        r is Ok <==> decoded is Ok && (decoded->Ok_0).kind@ == "video"@,
        decoded matches Err(reason) ==> r == Err::<OembedResponse, PluginError>(
            PluginError::ParseJson(reason),
        ),
        decoded is Ok && r is Err ==> (r->Err_0 matches PluginError::UnsupportedUrl(message)
            && message@ == "oEmbed kind '"@ + (decoded->Ok_0).kind@ + "' is not a video"@),
{
}

/// The envelope of a host answer passes as it was decoded, and what did not
/// decode is reported with its reason.
pub proof fn law_envelope_passes<D: Fn(&str) -> Result<HttpResponse, String>>(
    raw: &str,
    decode: D,
    r: Result<HttpResponse, PluginError>,
    decoded: Result<HttpResponse, String>,
)
    requires
        call_ensures(parse_http_response::<D>, (raw, decode), r),
        forall|d: Result<HttpResponse, String>| #[trigger]
            call_ensures(decode, (raw,), d) ==> d == decoded,
    ensures
        decoded matches Ok(response) ==> r == Ok::<HttpResponse, PluginError>(response),
        decoded matches Err(reason) ==> r == Err::<HttpResponse, PluginError>(
            PluginError::HostResponse(reason),
        ),
{
}

/// A text that fits is kept as it is. Of a longer one as many whole characters
/// are kept as fit, and an ellipsis follows.
pub proof fn law_truncation_keeps_what_fits(s: &str, max: usize, r: String)
    requires
        call_ensures(truncate, (s, max), r),
    ensures
        if utf8::encode_utf8(s@).len() <= max {
            r@ == s@
        } else {
            exists|n: int|
                0 <= n < s@.len() && r@ == #[trigger] s@.take(n) + "…"@ && utf8::encode_utf8(
                    s@.take(n),
                ).len() <= max < utf8::encode_utf8(s@.take(n + 1)).len()
        },
{
    law_excerpt_is_bounded(s@, max as int);
}

/// Encoding a URL component loses nothing: decoding gives back its bytes. What
/// is made of the ten digits, the Latin letters, `-`, `_`, `.` and `~` stays as it
/// is.
pub proof fn law_component_is_encoded(s: &str, r: String)
    requires
        call_ensures(urlencode, (s,), r),
    ensures
        percent_decoded(r@) == utf8::encode_utf8(s@),
        forall|i: int|
            0 <= i < r@.len() ==> ('0' <= #[trigger] r@[i] <= '9' || 'A' <= r@[i] <= 'Z' || 'a'
                <= r@[i] <= 'z' || r@[i] == '-' || r@[i] == '_' || r@[i] == '.' || r@[i] == '~'
                || r@[i] == '%'),
{
    let bytes = utf8::encode_utf8(s@);
    law_percent_encoding_decodes(bytes);
    law_percent_encoding_is_safe(bytes);
    assert forall|i: int| 0 <= i < r@.len() implies ('0' <= #[trigger] r@[i] <= '9' || 'A' <= r@[i]
        <= 'Z' || 'a' <= r@[i] <= 'z' || r@[i] == '-' || r@[i] == '_' || r@[i] == '.' || r@[i] == '~'
        || r@[i] == '%') by {
        lemma_unreserved_char(percent_encoded(bytes)[i]);
    }
}

/// The characters that stand for themselves in a URL component.
proof fn lemma_unreserved_char(c: char)
    requires
        c == '%' || (c <= '\x7f' && is_unreserved(c as u8)),
    ensures
        '0' <= c <= '9' || 'A' <= c <= 'Z' || 'a' <= c <= 'z' || c == '-' || c == '_' || c == '.' || c
            == '~' || c == '%',
{
}

/// Each request is a plain `GET` of the endpoint for the video.
pub proof fn law_requests_name_their_endpoints(
    video: &str,
    hash: Option<&str>,
    oembed: Result<String, PluginError>,
    config: Result<String, PluginError>,
    page: Result<String, PluginError>,
)
    requires
        call_ensures(build_oembed_request, (video,), oembed),
        call_ensures(build_player_config_request, (video,), config),
        call_ensures(build_embed_html_request, (video, hash), page),
    ensures
        oembed matches Ok(s) && s@ == get_request(
            "https://vimeo.com/api/oembed.json?url="@ + percent_encoded(utf8::encode_utf8(video@)),
        ),
        config matches Ok(s) && s@ == get_request(
            "https://player.vimeo.com/video/"@ + video@ + "/config"@,
        ),
        page matches Ok(s) && s@ == get_request(
            "https://player.vimeo.com/video/"@ + video@ + (match hash {
                Some(token) => "?h="@ + token@,
                None => seq![],
            }),
        ),
{
    let front = "https://player.vimeo.com/video/"@ + video@;
    assert(front + Seq::<char>::empty() =~= front);
    if let Some(token) = hash {
        assert(front + "?h="@ + token@ =~= front + ("?h="@ + token@));
    }
}

} // verus!
