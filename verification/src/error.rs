//! Errors raised while resolving a Vimeo link.

use vstd::prelude::*;
use vstd::string::StringExecFns;

use crate::text;

verus! {

/// `serde_json::Error`, carried unopened inside [`PluginError::SerdeJson`].
#[verifier::external_type_specification]
#[verifier::external_body]
pub struct ExJsonError(serde_json::Error);

/// Errors raised by the Vimeo plugin.
#[derive(Debug)]
pub enum PluginError {
    /// JSON parsing failure with contextual message.
    ParseJson(String),
    /// Direct serde_json failure.
    SerdeJson(serde_json::Error),
    /// The host answered an HTTP request with a non-2xx status.
    HttpStatus { status: u16, message: String },
    /// No player config was found on the page.
    PlayerConfigNotFound,
    /// A host function returned an invalid response envelope.
    HostResponse(String),
    /// The URL could not be classified as a Vimeo resource.
    UnsupportedUrl(String),
    /// The video is private or requires authentication.
    Private(String),
    /// The player config contained no usable variants.
    NoVariantsFound,
    /// The video is only offered as an HLS/DASH adaptive stream at the
    /// requested quality, so the caller must fall back to `download_to_file`.
    AdaptiveStreamOnly,
    /// yt-dlp exited with a non-zero code.
    Subprocess { exit_code: i32, stderr: String },
    /// yt-dlp succeeded but printed no output path.
    EmptyDownloadPath,
}

impl From<serde_json::Error> for PluginError {
    fn from(error: serde_json::Error) -> (r: Self) {
        PluginError::SerdeJson(error)
    }
}

impl vstd::std_specs::convert::FromSpecImpl<serde_json::Error> for PluginError {
    open spec fn obeys_from_spec() -> bool {
        true
    }

    open spec fn from_spec(error: serde_json::Error) -> Self {
        PluginError::SerdeJson(error)
    }
}

/// `serde_json::Error` as text, through its `Display`.
///
/// Nothing is claimed of the text: that of an I/O error comes from `std`, which
/// does not say what it depends on.
#[verifier::external_body]
fn describe_json_error(error: &serde_json::Error) -> (r: String) {
    error.to_string()
}

/// The decimal form of a number, with its sign if it is negative.
pub open spec fn signed_decimal(n: int) -> Seq<char> {
    if n < 0 {
        seq!['-'] + text::decimal((-n) as nat)
    } else {
        text::decimal(n as nat)
    }
}

/// What an error says, where `json_text` is what `serde_json` says of its own
/// error. No other error depends on that text.
pub open spec fn message_text(error: PluginError, json_text: Seq<char>) -> Seq<char> {
    match error {
        PluginError::ParseJson(reason) => "Vimeo JSON parse error: "@ + reason@,
        PluginError::SerdeJson(_) => "JSON error: "@ + json_text,
        PluginError::HttpStatus { status, message } => "Vimeo API returned status "@
            + text::decimal(status as nat) + ": "@ + message@,
        PluginError::PlayerConfigNotFound => "Vimeo player config not found on page"@,
        PluginError::HostResponse(reason) => "host function response invalid: "@ + reason@,
        PluginError::UnsupportedUrl(url) => "URL is not a recognised Vimeo resource: "@ + url@,
        PluginError::Private(reason) => "Vimeo resource is private: "@ + reason@,
        PluginError::NoVariantsFound => "no playable variants found for this Vimeo video"@,
        PluginError::AdaptiveStreamOnly => "video is only available as an "@ + ADAPTIVE_STREAM@
            + " at this quality; use download_to_file"@,
        PluginError::Subprocess { exit_code, stderr } => "yt-dlp failed (exit code "@
            + signed_decimal(exit_code as int) + "): "@ + stderr@,
        PluginError::EmptyDownloadPath => "yt-dlp reported no output path"@,
    }
}

/// The words by which the host recognises [`PluginError::AdaptiveStreamOnly`].
pub const ADAPTIVE_STREAM: &'static str = "adaptive stream (HLS/DASH)";

fn signed_decimal_of(n: i32) -> (r: String)
    ensures
        r@ == signed_decimal(n as int),
{
    if n < 0 {
        let mut r: String = "-".to_owned();
        let size: i64 = -(n as i64);
        r.append(text::decimal_of(size as u64).as_str());
        proof {
            reveal_strlit("-");
            assert("-"@ =~= seq!['-']);
        }
        r
    } else {
        text::decimal_of(n as u64)
    }
}

impl PluginError {
    /// The message to show for the error.
    pub fn message(&self) -> (r: String)
        ensures
            exists|json_text: Seq<char>| r@ == #[trigger] message_text(*self, json_text),
    {
        let json_text: String = match self {
            PluginError::SerdeJson(error) => describe_json_error(error),
            _ => String::new(),
        };
        self.message_with(json_text.as_str())
    }

    /// The message to show for the error, given the text of the `serde_json`
    /// error in it.
    pub fn message_with(&self, json_text: &str) -> (r: String)
        ensures
            r@ == message_text(*self, json_text@),
    {
        match self {
            PluginError::ParseJson(reason) => joined("Vimeo JSON parse error: ", reason.as_str()),
            PluginError::SerdeJson(_) => joined("JSON error: ", json_text),
            PluginError::HttpStatus { status, message } => {
                let mut r: String = joined(
                    "Vimeo API returned status ",
                    text::decimal_of(*status as u64).as_str(),
                );
                r.append(": ");
                r.append(message.as_str());
                r
            },
            PluginError::PlayerConfigNotFound => "Vimeo player config not found on page".to_owned(),
            PluginError::HostResponse(reason) => joined(
                "host function response invalid: ",
                reason.as_str(),
            ),
            PluginError::UnsupportedUrl(url) => joined(
                "URL is not a recognised Vimeo resource: ",
                url.as_str(),
            ),
            PluginError::Private(reason) => joined("Vimeo resource is private: ", reason.as_str()),
            PluginError::NoVariantsFound => "no playable variants found for this Vimeo video".to_owned(),
            PluginError::AdaptiveStreamOnly => {
                let mut r: String = joined("video is only available as an ", ADAPTIVE_STREAM);
                r.append(" at this quality; use download_to_file");
                r
            },
            PluginError::Subprocess { exit_code, stderr } => {
                let mut r: String = joined(
                    "yt-dlp failed (exit code ",
                    signed_decimal_of(*exit_code).as_str(),
                );
                r.append("): ");
                r.append(stderr.as_str());
                r
            },
            PluginError::EmptyDownloadPath => "yt-dlp reported no output path".to_owned(),
        }
    }
}

fn joined(a: &str, b: &str) -> (r: String)
    ensures
        r@ == a@ + b@,
{
    let mut r: String = a.to_owned();
    r.append(b);
    r
}

/// The host tells by its words that a video comes as an adaptive stream alone.
pub proof fn law_adaptive_stream_is_recognisable(json_text: Seq<char>)
    ensures
        exists|i: int| #[trigger]
            text::stands_at(
                message_text(PluginError::AdaptiveStreamOnly, json_text),
                "adaptive stream (HLS/DASH)"@,
                i,
            ),
{
    let s = message_text(PluginError::AdaptiveStreamOnly, json_text);
    let i = "video is only available as an "@.len() as int;
    assert(s.subrange(i, i + ADAPTIVE_STREAM@.len()) =~= ADAPTIVE_STREAM@);
    assert(text::stands_at(s, "adaptive stream (HLS/DASH)"@, i));
}

/// The message of every error but that of `serde_json` is fixed by the error.
pub proof fn law_message_is_fixed(error: PluginError, a: Seq<char>, b: Seq<char>)
    requires
        !(error is SerdeJson),
    ensures
        message_text(error, a) == message_text(error, b),
{
}

/// A message ends in what the error carries: the reason, the URL, the body or
/// the error output, as it is.
pub proof fn law_message_ends_in_the_reason(error: PluginError, json_text: Seq<char>)
    ensures
        ({
            let s = message_text(error, json_text);
            let reason = match error {
                PluginError::ParseJson(reason) => reason@,
                PluginError::SerdeJson(_) => json_text,
                PluginError::HttpStatus { status, message } => text::decimal(status as nat) + ": "@
                    + message@,
                PluginError::HostResponse(reason) => reason@,
                PluginError::UnsupportedUrl(url) => url@,
                PluginError::Private(reason) => reason@,
                PluginError::Subprocess { exit_code, stderr } => (if exit_code < 0 {
                    "-"@ + text::decimal((-exit_code) as nat)
                } else {
                    text::decimal(exit_code as nat)
                }) + "): "@ + stderr@,
                _ => seq![],
            };
            &&& reason.len() <= s.len()
            &&& s.skip(s.len() - reason.len()) == reason
        }),
{
    let s = message_text(error, json_text);
    reveal_strlit("-");
    assert("-"@ =~= seq!['-']);
    match error {
        PluginError::ParseJson(reason) => {
            assert(s.skip(s.len() - reason@.len()) =~= reason@);
        },
        PluginError::SerdeJson(_) => {
            assert(s.skip(s.len() - json_text.len()) =~= json_text);
        },
        PluginError::HttpStatus { status, message } => {
            let reason = text::decimal(status as nat) + ": "@ + message@;
            assert(s.skip(s.len() - reason.len()) =~= reason);
        },
        PluginError::HostResponse(reason) => {
            assert(s.skip(s.len() - reason@.len()) =~= reason@);
        },
        PluginError::UnsupportedUrl(url) => {
            assert(s.skip(s.len() - url@.len()) =~= url@);
        },
        PluginError::Private(reason) => {
            assert(s.skip(s.len() - reason@.len()) =~= reason@);
        },
        PluginError::Subprocess { exit_code, stderr } => {
            let code = if exit_code < 0 {
                "-"@ + text::decimal((-exit_code) as nat)
            } else {
                text::decimal(exit_code as nat)
            };
            let reason = code + "): "@ + stderr@;
            assert(s.skip(s.len() - reason.len()) =~= reason);
        },
        _ => {
            assert(s.skip(s.len() as int) =~= Seq::<char>::empty());
        },
    }
}

/// Errors of one kind differ in what they carry alone: their messages begin
/// alike.
pub proof fn law_messages_begin_alike(a: String, b: String, json_text: Seq<char>)
    ensures
        ({
            let x = message_text(PluginError::ParseJson(a), json_text);
            let y = message_text(PluginError::ParseJson(b), json_text);
            x.take(x.len() - a@.len()) == y.take(y.len() - b@.len())
        }),
        ({
            let x = message_text(PluginError::HostResponse(a), json_text);
            let y = message_text(PluginError::HostResponse(b), json_text);
            x.take(x.len() - a@.len()) == y.take(y.len() - b@.len())
        }),
        ({
            let x = message_text(PluginError::UnsupportedUrl(a), json_text);
            let y = message_text(PluginError::UnsupportedUrl(b), json_text);
            x.take(x.len() - a@.len()) == y.take(y.len() - b@.len())
        }),
        ({
            let x = message_text(PluginError::Private(a), json_text);
            let y = message_text(PluginError::Private(b), json_text);
            x.take(x.len() - a@.len()) == y.take(y.len() - b@.len())
        }),
{
    let x = message_text(PluginError::ParseJson(a), json_text);
    let y = message_text(PluginError::ParseJson(b), json_text);
    assert(x.take(x.len() - a@.len()) =~= y.take(y.len() - b@.len()));
    let x = message_text(PluginError::HostResponse(a), json_text);
    let y = message_text(PluginError::HostResponse(b), json_text);
    assert(x.take(x.len() - a@.len()) =~= y.take(y.len() - b@.len()));
    let x = message_text(PluginError::UnsupportedUrl(a), json_text);
    let y = message_text(PluginError::UnsupportedUrl(b), json_text);
    assert(x.take(x.len() - a@.len()) =~= y.take(y.len() - b@.len()));
    let x = message_text(PluginError::Private(a), json_text);
    let y = message_text(PluginError::Private(b), json_text);
    assert(x.take(x.len() - a@.len()) =~= y.take(y.len() - b@.len()));
}

/// What an error says: the words for its kind, and what it carries, as it is.
pub proof fn law_message_names_the_kind(
    error: PluginError,
    json_text: &str,
    r: String,
    shown: String,
)
    requires
        call_ensures(PluginError::message_with, (&error, json_text), r),
        call_ensures(PluginError::message, (&error,), shown),
    ensures
        !(error is SerdeJson) ==> shown@ == r@,
        match error {
            PluginError::ParseJson(reason) => r@ == "Vimeo JSON parse error: "@ + reason@,
            PluginError::SerdeJson(_) => r@ == "JSON error: "@ + json_text@ && exists|s: Seq<char>|
                shown@ == #[trigger] ("JSON error: "@ + s),
            PluginError::HttpStatus { status, message } => r@ == "Vimeo API returned status "@
                + text::decimal(status as nat) + ": "@ + message@,
            PluginError::PlayerConfigNotFound => r@ == "Vimeo player config not found on page"@,
            PluginError::HostResponse(reason) => r@ == "host function response invalid: "@
                + reason@,
            PluginError::UnsupportedUrl(url) => r@ == "URL is not a recognised Vimeo resource: "@
                + url@,
            PluginError::Private(reason) => r@ == "Vimeo resource is private: "@ + reason@,
            PluginError::NoVariantsFound => r@ == "no playable variants found for this Vimeo video"@,
            PluginError::AdaptiveStreamOnly => r@ == "video is only available as an "@
                + "adaptive stream (HLS/DASH)"@ + " at this quality; use download_to_file"@,
            PluginError::Subprocess { exit_code, stderr } => r@ == "yt-dlp failed (exit code "@ + (
            if exit_code < 0 {
                "-"@ + text::decimal((-exit_code) as nat)
            } else {
                text::decimal(exit_code as nat)
            }) + "): "@ + stderr@,
            PluginError::EmptyDownloadPath => r@ == "yt-dlp reported no output path"@,
        },
{
    reveal_strlit("-");
    assert("-"@ =~= seq!['-']);
    let text_of = choose|s: Seq<char>| shown@ == #[trigger] message_text(error, s);
    if error is SerdeJson {
        assert(shown@ == "JSON error: "@ + text_of);
    } else {
        law_message_is_fixed(error, text_of, json_text@);
    }
}

} // verus!
