//! Requests to the host's yt-dlp broker, and its answers.
//!
//! Most videos are served as HLS alone at the higher qualities. Where no
//! progressive variant is found the caller is told so with
//! [`PluginError::AdaptiveStreamOnly`], and the host downloads the video with
//! yt-dlp instead.

use vstd::prelude::*;
use vstd::string::StringExecFns;

use crate::error::PluginError;
use crate::json;
use crate::json::JsonValue;
use crate::text;

verus! {

/// The broker's answer.
#[derive(Debug)]
pub struct YtDlpResponse {
    pub exit_code: i32,
    pub stdout: String,
    pub stderr: String,
}

// ── Requests ─────────────────────────────────────────────────────────────────

/// The height that a quality names. An empty quality and `best` name none.
pub open spec fn quality_named(quality: Seq<char>) -> Option<u32> {
    let name = text::trimmed(quality);
    if name.len() == 0 || text::lowered(name) == "best"@ {
        None
    } else {
        text::number_in(text::trimmed_end(name, seq!['p']))
    }
}

/// The audio formats that may be asked for.
pub open spec fn audio_formats() -> Seq<Seq<char>> {
    seq!["aac"@, "flac"@, "m4a"@, "mp3"@, "ogg"@, "opus"@, "vorbis"@, "wav"@, "webm"@]
}

/// The audio format that a text names, in whatever case.
pub open spec fn audio_format_named(format: Seq<char>) -> Option<Seq<char>> {
    let name = text::lowered(text::trimmed(format));
    if audio_formats().contains(name) {
        Some(name)
    } else {
        None
    }
}

/// The names of the audio formats are lower case already.
proof fn lemma_audio_formats_are_lower_case()
    ensures
        forall|j: int|
            0 <= j < audio_formats().len() ==> text::lowered(#[trigger] audio_formats()[j])
                == audio_formats()[j],
{
    reveal_strlit("aac");
    reveal_strlit("flac");
    reveal_strlit("m4a");
    reveal_strlit("mp3");
    reveal_strlit("ogg");
    reveal_strlit("opus");
    reveal_strlit("vorbis");
    reveal_strlit("wav");
    reveal_strlit("webm");
    text::lemma_lowered_stays("aac"@);
    text::lemma_lowered_stays("flac"@);
    text::lemma_lowered_stays("m4a"@);
    text::lemma_lowered_stays("mp3"@);
    text::lemma_lowered_stays("ogg"@);
    text::lemma_lowered_stays("opus"@);
    text::lemma_lowered_stays("vorbis"@);
    text::lemma_lowered_stays("wav"@);
    text::lemma_lowered_stays("webm"@);
}

/// A text or `null`.
pub open spec fn optional_text(value: Option<Seq<char>>) -> json::JsonModel {
    match value {
        Some(s) => json::JsonModel::Text(s),
        None => json::JsonModel::Null,
    }
}

/// A number or `null`.
pub open spec fn optional_number(value: Option<u32>) -> json::JsonModel {
    match value {
        Some(n) => json::JsonModel::Number(n),
        None => json::JsonModel::Null,
    }
}

/// The members of a download request. Which program runs, how, where and for
/// how long is the host's to decide.
pub open spec fn download_fields(
    url: Seq<char>,
    quality: Seq<char>,
    format: Seq<char>,
    output_dir: Seq<char>,
    audio_only: bool,
) -> Seq<(Seq<char>, json::JsonModel)> {
    let audio_format = if audio_only {
        audio_format_named(format)
    } else {
        None
    };
    seq![
        ("action"@, json::JsonModel::Text("download"@)),
        ("url"@, json::JsonModel::Text(url)),
        ("quality"@, optional_number(quality_named(quality))),
        ("format"@, optional_text(audio_format)),
        ("output_dir"@, json::JsonModel::Text(output_dir)),
        ("audio_only"@, json::JsonModel::Flag(audio_only)),
    ]
}

proof fn lemma_download_fields_are_distinct(
    url: Seq<char>,
    quality: Seq<char>,
    format: Seq<char>,
    output_dir: Seq<char>,
    audio_only: bool,
)
    ensures
        json::has_distinct_keys(download_fields(url, quality, format, output_dir, audio_only)),
{
    reveal_strlit("action");
    reveal_strlit("url");
    reveal_strlit("quality");
    reveal_strlit("format");
    reveal_strlit("output_dir");
    reveal_strlit("audio_only");
    assert("action"@[0] == 'a' && "format"@[0] == 'f');
    assert("output_dir"@[0] == 'o' && "audio_only"@[0] == 'a');
    assert("action"@.len() == 6 && "url"@.len() == 3 && "quality"@.len() == 7);
    assert("format"@.len() == 6 && "output_dir"@.len() == 10 && "audio_only"@.len() == 10);
}

/// Reads the height out of a quality such as `1080p`.
pub fn parse_quality(quality: &str) -> (r: Option<u32>)
    ensures
        r == quality_named(quality@),
{
    let name: &str = text::trim(quality);
    proof {
        reveal_strlit("best");
        text::lemma_lowered_stays("best"@);
    }
    if name.is_empty() || text::eq_ignore_ascii_case(name, "best") {
        return None;
    }
    let marks: [char; 1] = ['p'];
    assert(marks@ =~= seq!['p']);
    text::parse_u32(text::trim_end_matches(name, marks.as_slice()))
}

/// Reads an audio format. Anything that yt-dlp cannot extract to is left out.
pub fn optional_audio_format(format: &str) -> (r: Option<&'static str>)
    ensures
        match audio_format_named(format@) {
            Some(name) => r matches Some(s) && s@ == name,
            None => r is None,
        },
{
    let formats: [&'static str; 9] = [
        "aac",
        "flac",
        "m4a",
        "mp3",
        "ogg",
        "opus",
        "vorbis",
        "wav",
        "webm",
    ];
    let name: &str = text::trim(format);
    let mut i: usize = 0;
    proof {
        lemma_audio_formats_are_lower_case();
    }
    while i < 9
        invariant
            i <= 9,
            forall|j: int| 0 <= j < 9 ==> (#[trigger] formats@[j])@ == audio_formats()[j],
            forall|j: int|
                0 <= j < 9 ==> text::lowered(#[trigger] audio_formats()[j]) == audio_formats()[j],
            name@ == text::trimmed(format@),
            forall|j: int| 0 <= j < i ==> text::lowered(name@) != #[trigger] audio_formats()[j],
        decreases 9 - i,
    {
        if text::eq_ignore_ascii_case(name, formats[i]) {
            assert(audio_formats()[i as int] == text::lowered(name@));
            return Some(formats[i]);
        }
        i += 1;
    }
    None
}

/// Builds the request that has the broker download a video.
pub fn build_download_request(
    url: &str,
    quality: &str,
    format: &str,
    output_dir: &str,
    audio_only: bool,
) -> (r: Result<String, PluginError>)
    ensures
        r matches Ok(s) && s@ == json::object_text(
            download_fields(url@, quality@, format@, output_dir@, audio_only),
        ),
{
    let height: JsonValue = match parse_quality(quality) {
        Some(height) => JsonValue::Number(height),
        None => JsonValue::Null,
    };
    let audio_format: Option<&'static str> = if audio_only {
        optional_audio_format(format)
    } else {
        None
    };
    let audio_format: JsonValue = match audio_format {
        Some(name) => JsonValue::Text(name.to_owned()),
        None => JsonValue::Null,
    };
    let mut fields: Vec<(String, JsonValue)> = Vec::new();
    fields.push(("action".to_owned(), JsonValue::Text("download".to_owned())));
    fields.push(("url".to_owned(), JsonValue::Text(url.to_owned())));
    fields.push(("quality".to_owned(), height));
    fields.push(("format".to_owned(), audio_format));
    fields.push(("output_dir".to_owned(), JsonValue::Text(output_dir.to_owned())));
    fields.push(("audio_only".to_owned(), JsonValue::Flag(audio_only)));
    proof {
        assert(json::models(fields@) =~= download_fields(
            url@,
            quality@,
            format@,
            output_dir@,
            audio_only,
        ));
        lemma_download_fields_are_distinct(url@, quality@, format@, output_dir@, audio_only);
    }
    match json::object_to_string(fields) {
        Ok(s) => Ok(s),
        Err(error) => Err(PluginError::from(error)),
    }
}

// ── Answers ──────────────────────────────────────────────────────────────────

/// The most characters of an error output that are kept.
pub const MAX_STDERR_CHARS: usize = 512;

/// An error output without surrounding white space, cut to a bounded length.
pub open spec fn stderr_excerpt(stderr: Seq<char>) -> Seq<char> {
    let content = text::trimmed(stderr);
    if content.len() <= MAX_STDERR_CHARS {
        content
    } else {
        content.take(MAX_STDERR_CHARS as int) + "… [truncated]"@
    }
}

/// Cuts an error output between characters, whatever their width.
pub fn truncate_stderr(stderr: &str) -> (r: String)
    ensures
        r@ == stderr_excerpt(stderr@),
{
    let content: &str = text::trim(stderr);
    let chars: Vec<char> = text::chars_of(content);
    if chars.len() <= MAX_STDERR_CHARS {
        content.to_owned()
    } else {
        let mut out: String = String::new();
        let mut i: usize = 0;
        while i < MAX_STDERR_CHARS
            invariant
                i <= MAX_STDERR_CHARS < chars@.len(),
                out@ == chars@.take(i as int),
            decreases MAX_STDERR_CHARS - i,
        {
            out.push(chars[i]);
            i += 1;
            assert(chars@.take(i as int) =~= chars@.take(i - 1).push(chars@[i - 1]));
        }
        out.append("… [truncated]");
        out
    }
}

/// What becomes of the broker's answer: the standard output of a run that
/// succeeded, the excerpted error output of one that failed.
pub open spec fn is_judged_run(
    decoded: Result<YtDlpResponse, serde_json::Error>,
    r: Result<String, PluginError>,
) -> bool {
    match decoded {
        Ok(response) => if response.exit_code == 0 {
            r == Ok::<String, PluginError>(response.stdout)
        } else {
            r matches Err(PluginError::Subprocess { exit_code, stderr }) && exit_code
                == response.exit_code && stderr@ == stderr_excerpt(response.stderr@)
        },
        Err(error) => r == Err::<String, PluginError>(PluginError::SerdeJson(error)),
    }
}

/// Reads the broker's answer. `decode` turns JSON into the answer.
pub fn parse_ytdlp_response<D: Fn(&str) -> Result<YtDlpResponse, serde_json::Error>>(
    response_json: &str,
    decode: D,
) -> (r: Result<String, PluginError>)
    requires
        call_requires(decode, (response_json,)),
    ensures
        exists|decoded: Result<YtDlpResponse, serde_json::Error>| #[trigger]
            call_ensures(decode, (response_json,), decoded) && is_judged_run(decoded, r),
{
    match decode(response_json) {
        Ok(response) => {
            if response.exit_code != 0 {
                return Err(
                    PluginError::Subprocess {
                        exit_code: response.exit_code,
                        stderr: truncate_stderr(response.stderr.as_str()),
                    },
                );
            }
            Ok(response.stdout)
        },
        Err(error) => Err(PluginError::from(error)),
    }
}

/// The last line of a text that is not blank, without the white space around
/// it.
pub open spec fn last_line(s: Seq<char>) -> Option<Seq<char>>
    decreases s.len(),
{
    let line = text::trimmed(text::behind_last(s, '\n'));
    if line.len() > 0 {
        Some(line)
    } else if !s.contains('\n') {
        None
    } else {
        proof {
            text::lemma_last_index_bounds(s, '\n');
        }
        last_line(s.take(text::last_index(s, '\n')))
    }
}

/// Reads the path of the downloaded file: the last line that yt-dlp printed.
///
/// The last line is taken because other output may have slipped in front of
/// it. A run that printed nothing did download, but did not say where to.
pub fn parse_download_path_from_stdout(stdout: &str) -> (r: Result<String, PluginError>)
    ensures
        match last_line(stdout@) {
            Some(line) => r matches Ok(path) && path@ == line,
            None => r matches Err(PluginError::EmptyDownloadPath),
        },
{
    let mut rest: &str = stdout;
    loop
        invariant
            last_line(rest@) == last_line(stdout@),
        decreases rest@.len(),
    {
        let line: &str = text::trim(text::after_last(rest, '\n'));
        if !line.is_empty() {
            return Ok(line.to_owned());
        }
        match text::split_last(rest, '\n') {
            Some((front, _)) => {
                proof {
                    text::lemma_last_index_bounds(rest@, '\n');
                }
                rest = front;
            },
            None => {
                return Err(PluginError::EmptyDownloadPath);
            },
        }
    }
}

// ── Laws ─────────────────────────────────────────────────────────────────────

/// A request says what to download, in what quality and where to, and nothing
/// about the process that does it. It names an audio format only when audio
/// alone is wanted, and only one of the known formats.
pub proof fn law_request_is_closed(
    url: Seq<char>,
    quality: Seq<char>,
    format: Seq<char>,
    output_dir: Seq<char>,
    audio_only: bool,
)
    ensures
        ({
            let fields = download_fields(url, quality, format, output_dir, audio_only);
            &&& fields.map_values(|field: (Seq<char>, json::JsonModel)| field.0) == seq![
                "action"@,
                "url"@,
                "quality"@,
                "format"@,
                "output_dir"@,
                "audio_only"@,
            ]
            &&& !audio_only ==> fields[3].1 == json::JsonModel::Null
            &&& fields[3].1 matches json::JsonModel::Text(name) ==> audio_formats().contains(name)
        }),
{
}

/// A download path is a single line that is not blank.
pub proof fn law_download_path_is_one_line(stdout: Seq<char>)
    ensures
        last_line(stdout) matches Some(line) ==> line.len() > 0 && !line.contains('\n'),
    decreases stdout.len(),
{
    let tail = text::behind_last(stdout, '\n');
    let line = text::trimmed(tail);
    text::lemma_last_index_bounds(stdout, '\n');
    if line.len() > 0 {
        text::lemma_trimmed_is_part(tail);
        if line.contains('\n') {
            assert(tail.contains('\n'));
            let i = choose|i: int| 0 <= i < tail.len() && tail[i] == '\n';
            assert(stdout[text::last_index(stdout, '\n') + 1 + i] == '\n');
        }
    } else if stdout.contains('\n') {
        law_download_path_is_one_line(stdout.take(text::last_index(stdout, '\n')));
    }
}

/// Blank lines behind a path do not matter.
pub proof fn law_trailing_blank_line_does_not_matter(stdout: Seq<char>, blank: Seq<char>)
    requires
        text::trimmed(blank).len() == 0,
        !blank.contains('\n'),
    ensures
        last_line(stdout + seq!['\n'] + blank) == last_line(stdout),
{
    let s = stdout + seq!['\n'] + blank;
    text::lemma_last_index(s, '\n', stdout.len() as int);
    assert(s[stdout.len() as int] == '\n');
    assert(text::behind_last(s, '\n') =~= blank);
    assert(s.take(stdout.len() as int) =~= stdout);
}

/// An excerpt of an error output is bounded.
pub proof fn law_stderr_excerpt_is_bounded(stderr: Seq<char>)
    ensures
        stderr_excerpt(stderr).len() <= MAX_STDERR_CHARS + 13,
{
    reveal_strlit("… [truncated]");
}

/// A number with any `p` behind it and white space around it is the quality of
/// that height, if it fits 32 bits.
pub proof fn law_quality_is_its_number(front: Seq<char>, n: nat, marks: Seq<char>, back: Seq<char>)
    requires
        text::is_blank(front),
        text::is_blank(back),
        forall|i: int| 0 <= i < marks.len() ==> #[trigger] marks[i] == 'p',
    ensures
        quality_named(front + (text::decimal(n) + marks) + back) == if n <= u32::MAX {
            Some(n as u32)
        } else {
            None
        },
{
    reveal_strlit("best");
    let name = text::decimal(n) + marks;
    text::lemma_decimal_is_tight(n);
    assert(name[0] == text::decimal(n)[0]);
    assert(text::is_tight(name)) by {
        if marks.len() > 0 {
            assert(name.last() == marks[marks.len() - 1]);
        } else {
            assert(name =~= text::decimal(n));
        }
    }
    text::law_trimming_keeps_the_text(front, name, back);
    assert(text::lowered(name)[0] == text::lower_char(name[0]));
    assert("best"@[0] == 'b');
    let set = seq!['p'];
    assert forall|i: int| 0 <= i < marks.len() implies set.contains(#[trigger] marks[i]) by {
        assert(set[0] == marks[i]);
    }
    assert(!set.contains(text::decimal(n).last()));
    text::law_trailing_marks_are_stripped(text::decimal(n), marks, set);
    text::law_number_is_read(0, n);
    assert(text::zeros(0) + text::decimal(n) =~= text::decimal(n));
}

/// Nothing but a number with `p` behind it is a quality. In particular neither
/// an empty text nor `best` is one.
pub proof fn law_only_numbers_are_qualities(quality: Seq<char>)
    ensures
        quality_named(quality) matches Some(n) ==> exists|digits: Seq<char>, marks: Seq<char>|
            text::trimmed(quality) == #[trigger] (digits + marks) && text::number_in(digits) == Some(
                n,
            ) && forall|i: int| 0 <= i < marks.len() ==> #[trigger] marks[i] == 'p',
{
    if quality_named(quality) is Some {
        let name = text::trimmed(quality);
        let set = seq!['p'];
        text::law_only_marks_are_stripped(name, set);
        let digits = text::trimmed_end(name, set);
        let marks = choose|marks: Seq<char>|
            name == #[trigger] (digits + marks) && forall|i: int|
                0 <= i < marks.len() ==> set.contains(#[trigger] marks[i]);
        assert forall|i: int| 0 <= i < marks.len() implies #[trigger] marks[i] == 'p' by {
            assert(set.contains(marks[i]));
        }
        assert(name == digits + marks);
    }
}

/// The nine audio formats are known by their names, in any case and with white
/// space around them, and no other name is.
pub proof fn law_nine_audio_formats(front: Seq<char>, name: Seq<char>, back: Seq<char>)
    requires
        text::is_blank(front),
        text::is_blank(back),
        text::is_tight(name),
    ensures
        ({
            let small = text::lowered(name);
            if small == "aac"@ || small == "flac"@ || small == "m4a"@ || small == "mp3"@ || small
                == "ogg"@ || small == "opus"@ || small == "vorbis"@ || small == "wav"@ || small
                == "webm"@ {
                audio_format_named(front + name + back) == Some(small)
            } else {
                audio_format_named(front + name + back) is None
            }
        }),
        audio_format_named(front) is None,
{
    text::law_trimming_keeps_the_text(front, name, back);
    text::law_blank_is_trimmed_away(front);
    let small = text::lowered(name);
    let all = audio_formats();
    assert(all[0] == "aac"@ && all[1] == "flac"@ && all[2] == "m4a"@ && all[3] == "mp3"@ && all[4]
        == "ogg"@ && all[5] == "opus"@ && all[6] == "vorbis"@ && all[7] == "wav"@ && all[8]
        == "webm"@ && all.len() == 9);
    assert(all.contains(all[0]) && all.contains(all[1]) && all.contains(all[2]) && all.contains(
        all[3],
    ) && all.contains(all[4]) && all.contains(all[5]) && all.contains(all[6]) && all.contains(
        all[7],
    ) && all.contains(all[8]));
    reveal_strlit("aac");
    reveal_strlit("flac");
    reveal_strlit("m4a");
    reveal_strlit("mp3");
    reveal_strlit("ogg");
    reveal_strlit("opus");
    reveal_strlit("vorbis");
    reveal_strlit("wav");
    reveal_strlit("webm");
    let none = text::lowered(Seq::empty());
    assert(none.len() == 0);
    if all.contains(none) {
        let i = choose|i: int| 0 <= i < all.len() && all[i] == none;
        assert(all[i].len() > 0);
    }
}

/// A request asks for the URL and the directory as they were given. It names
/// the height of the quality, or none.
pub proof fn law_request_says_what_is_wanted(
    url: Seq<char>,
    quality: Seq<char>,
    format: Seq<char>,
    output_dir: Seq<char>,
    audio_only: bool,
)
    ensures
        ({
            let fields = download_fields(url, quality, format, output_dir, audio_only);
            &&& fields[0].1 == json::JsonModel::Text("download"@)
            &&& fields[1].1 == json::JsonModel::Text(url)
            &&& fields[2].1 == match quality_named(quality) {
                Some(n) => json::JsonModel::Number(n),
                None => json::JsonModel::Null,
            }
            &&& fields[3].1 == match audio_format_named(format) {
                Some(name) => if audio_only {
                    json::JsonModel::Text(name)
                } else {
                    json::JsonModel::Null
                },
                None => json::JsonModel::Null,
            }
            &&& fields[4].1 == json::JsonModel::Text(output_dir)
            &&& fields[5].1 == json::JsonModel::Flag(audio_only)
        }),
{
}

/// The path is the last line of the output that is not blank, character for
/// character, whatever stands in front of it and with the white space around
/// it left out.
pub proof fn law_path_is_the_last_line(
    front: Seq<char>,
    pad: Seq<char>,
    line: Seq<char>,
    back: Seq<char>,
)
    requires
        text::is_blank(pad),
        text::is_blank(back),
        text::is_tight(line),
        !pad.contains('\n'),
        !line.contains('\n'),
        !back.contains('\n'),
    ensures
        last_line(pad + line + back) == Some(line),
        last_line(front + seq!['\n'] + (pad + line + back)) == Some(line),
        last_line(front + seq!['\n'] + line) == Some(line),
{
    let none = Seq::<char>::empty();
    lemma_last_line_of(front, pad + line + back);
    lemma_last_line_of(front, line);
    text::law_trimming_keeps_the_text(pad, line, back);
    text::law_trimming_keeps_the_text(none, line, none);
    assert(none + line + none =~= line);
    let whole = pad + line + back;
    assert forall|j: int| 0 <= j < whole.len() implies #[trigger] whole[j] != '\n' by {
        if j < pad.len() {
            assert(pad.contains(pad[j]));
        } else if j < pad.len() + line.len() {
            assert(line.contains(line[j - pad.len()]));
        } else {
            assert(back.contains(back[j - pad.len() - line.len()]));
        }
    }
    text::lemma_last_index_bounds(whole, '\n');
    assert(text::behind_last(whole, '\n') =~= whole);
    assert(text::behind_last(front + seq!['\n'] + whole, '\n') == whole);
}

/// Behind the last newline stands the last line.
proof fn lemma_last_line_of(front: Seq<char>, tail: Seq<char>)
    ensures
        !tail.contains('\n') ==> text::behind_last(front + seq!['\n'] + tail, '\n') == tail,
{
    if !tail.contains('\n') {
        let s = front + seq!['\n'] + tail;
        let n = front.len() as int;
        assert(s[n] == '\n');
        assert forall|j: int| n < j < s.len() implies #[trigger] s[j] != '\n' by {
            assert(s[j] == tail[j - n - 1]);
            assert(tail.contains(tail[j - n - 1]));
        }
        text::lemma_last_index(s, '\n', n);
        assert(text::behind_last(s, '\n') =~= tail);
    }
}

/// Only an output of white space alone has no path.
pub proof fn law_only_blank_output_has_no_path(stdout: Seq<char>)
    ensures
        last_line(stdout) is None <==> text::is_blank(stdout),
    decreases stdout.len(),
{
    let n = text::last_index(stdout, '\n');
    let tail = text::behind_last(stdout, '\n');
    text::lemma_last_index_bounds(stdout, '\n');
    text::law_trimmed_is_tight(tail);
    if text::is_blank(stdout) {
        assert forall|i: int| 0 <= i < tail.len() implies text::is_space(#[trigger] tail[i]) by {
            assert(tail[i] == stdout[n + 1 + i]);
        }
        text::law_blank_is_trimmed_away(tail);
    }
    if stdout.contains('\n') {
        let front = stdout.take(n);
        law_only_blank_output_has_no_path(front);
        if text::is_blank(stdout) {
            assert forall|i: int| 0 <= i < front.len() implies text::is_space(
                #[trigger] front[i],
            ) by {
                assert(front[i] == stdout[i]);
            }
        }
        if last_line(stdout) is None {
            assert forall|i: int| 0 <= i < stdout.len() implies text::is_space(
                #[trigger] stdout[i],
            ) by {
                if i < n {
                    assert(front[i] == stdout[i]);
                } else if i > n {
                    assert(tail[i - n - 1] == stdout[i]);
                }
            }
        }
    } else {
        assert(tail =~= stdout);
    }
}

/// An error output is kept as it is up to 512 characters, without the white
/// space around it. Of a longer one the first 512 are kept, and a note.
pub proof fn law_error_output_is_kept(front: Seq<char>, s: Seq<char>, back: Seq<char>)
    requires
        text::is_blank(front),
        text::is_blank(back),
        text::is_tight(s),
    ensures
        s.len() <= 512 ==> stderr_excerpt(front + s + back) == s,
        s.len() > 512 ==> stderr_excerpt(front + s + back) == s.take(512) + "… [truncated]"@,
        stderr_excerpt(front).len() == 0,
{
    text::law_trimming_keeps_the_text(front, s, back);
    text::law_blank_is_trimmed_away(front);
}

/// A run that ends with 0 comes to its output, and one that ends otherwise to
/// an error with its exit code and its error output.
pub proof fn law_exit_code_decides(
    decoded: Result<YtDlpResponse, serde_json::Error>,
    r: Result<String, PluginError>,
)
    requires
        is_judged_run(decoded, r),
    ensures
        r is Ok <==> decoded is Ok && (decoded->Ok_0).exit_code == 0,
        r matches Ok(stdout) ==> stdout@ == (decoded->Ok_0).stdout@,
        decoded is Ok && (decoded->Ok_0).exit_code != 0 ==> (r matches Err(
            PluginError::Subprocess { exit_code, stderr },
        ) && exit_code == (decoded->Ok_0).exit_code && stderr@ == stderr_excerpt(
            (decoded->Ok_0).stderr@,
        )),
        decoded matches Err(error) ==> r == Err::<String, PluginError>(
            PluginError::SerdeJson(error),
        ),
{
}

/// A quality is read as the number in it: with any `p` behind it and white space
/// around it.
pub proof fn law_quality_is_read(
    quality: &str,
    front: Seq<char>,
    n: nat,
    marks: Seq<char>,
    back: Seq<char>,
    r: Option<u32>,
)
    requires
        call_ensures(parse_quality, (quality,), r),
        quality@ == front + (text::decimal(n) + marks) + back,
        text::is_blank(front),
        text::is_blank(back),
        forall|i: int| 0 <= i < marks.len() ==> #[trigger] marks[i] == 'p',
    ensures
        r == if n <= u32::MAX {
            Some(n as u32)
        } else {
            None
        },
{
    law_quality_is_its_number(front, n, marks, back);
}

/// An audio format is read in any case and with white space around it, and is
/// given back in lower case. What is none of the nine is left out.
pub proof fn law_audio_format_is_read(
    format: &str,
    front: Seq<char>,
    name: Seq<char>,
    back: Seq<char>,
    r: Option<&'static str>,
)
    requires
        call_ensures(optional_audio_format, (format,), r),
        format@ == front + name + back,
        text::is_blank(front),
        text::is_blank(back),
        text::is_tight(name),
    ensures
        ({
            let small = text::lowered(name);
            if small == "aac"@ || small == "flac"@ || small == "m4a"@ || small == "mp3"@ || small
                == "ogg"@ || small == "opus"@ || small == "vorbis"@ || small == "wav"@ || small
                == "webm"@ {
                r matches Some(s) && s@ == small
            } else {
                r is None
            }
        }),
{
    law_nine_audio_formats(front, name, back);
}

/// The path is read off the last line of the output that is not blank, character
/// for character and without the white space around it.
pub proof fn law_path_is_read(
    stdout: &str,
    front: Seq<char>,
    pad: Seq<char>,
    line: Seq<char>,
    back: Seq<char>,
    r: Result<String, PluginError>,
)
    requires
        call_ensures(parse_download_path_from_stdout, (stdout,), r),
        stdout@ == pad + line + back || stdout@ == front + seq!['\n'] + (pad + line + back),
        text::is_blank(pad),
        text::is_blank(back),
        text::is_tight(line),
        !pad.contains('\n'),
        !line.contains('\n'),
        !back.contains('\n'),
    ensures
        r matches Ok(path) && path@ == line,
{
    law_path_is_the_last_line(front, pad, line, back);
}

/// Blank lines behind the path are passed over, and an output of white space
/// alone has no path.
pub proof fn law_blank_lines_are_passed_over(
    stdout: &str,
    longer: &str,
    blank: Seq<char>,
    r: Result<String, PluginError>,
    same: Result<String, PluginError>,
)
    requires
        call_ensures(parse_download_path_from_stdout, (stdout,), r),
        call_ensures(parse_download_path_from_stdout, (longer,), same),
        longer@ == stdout@ + seq!['\n'] + blank,
        text::is_blank(blank),
        !blank.contains('\n'),
    ensures
        r is Ok <==> same is Ok,
        r is Ok ==> (r->Ok_0)@ == (same->Ok_0)@,
        text::is_blank(stdout@) <==> (r matches Err(PluginError::EmptyDownloadPath)),
{
    text::law_blank_is_trimmed_away(blank);
    law_trailing_blank_line_does_not_matter(stdout@, blank);
    law_only_blank_output_has_no_path(stdout@);
}

/// An error output is cut behind 512 characters, not counting the white space
/// around it.
pub proof fn law_error_output_is_cut(
    stderr: &str,
    front: Seq<char>,
    s: Seq<char>,
    back: Seq<char>,
    r: String,
)
    requires
        call_ensures(truncate_stderr, (stderr,), r),
        stderr@ == front + s + back,
        text::is_blank(front),
        text::is_blank(back),
        text::is_tight(s),
    ensures
        r@ == if s.len() <= 512 {
            s
        } else {
            s.take(512) + "… [truncated]"@
        },
{
    law_error_output_is_kept(front, s, back);
}

/// The broker's answer comes to the output of a run that ended with 0, and else
/// to an error with its exit code and its error output.
pub proof fn law_answer_is_judged<D: Fn(&str) -> Result<YtDlpResponse, serde_json::Error>>(
    raw: &str,
    decode: D,
    r: Result<String, PluginError>,
    decoded: Result<YtDlpResponse, serde_json::Error>,
)
    requires
        call_ensures(parse_ytdlp_response::<D>, (raw, decode), r),
        forall|d: Result<YtDlpResponse, serde_json::Error>| #[trigger]
            call_ensures(decode, (raw,), d) ==> d == decoded,
    ensures
        match decoded {
            Ok(response) => if response.exit_code == 0 {
                r matches Ok(stdout) && stdout@ == response.stdout@
            } else {
                r matches Err(PluginError::Subprocess { exit_code, stderr }) && exit_code
                    == response.exit_code && stderr@ == stderr_excerpt(response.stderr@)
            },
            Err(error) => r == Err::<String, PluginError>(PluginError::SerdeJson(error)),
        },
{
}

/// A download request holds six members in a fixed order: what to do, the URL,
/// the height, the format, the directory and whether audio alone is wanted.
pub proof fn law_request_has_six_members(
    url: &str,
    quality: &str,
    format: &str,
    output_dir: &str,
    audio_only: bool,
    r: Result<String, PluginError>,
)
    requires
        call_ensures(build_download_request, (url, quality, format, output_dir, audio_only), r),
    ensures
        r matches Ok(s) && s@ == json::object_text(
            seq![
                ("action"@, json::JsonModel::Text("download"@)),
                ("url"@, json::JsonModel::Text(url@)),
                (
                    "quality"@,
                    match quality_named(quality@) {
                        Some(n) => json::JsonModel::Number(n),
                        None => json::JsonModel::Null,
                    },
                ),
                (
                    "format"@,
                    match audio_format_named(format@) {
                        Some(name) if audio_only => json::JsonModel::Text(name),
                        _ => json::JsonModel::Null,
                    },
                ),
                ("output_dir"@, json::JsonModel::Text(output_dir@)),
                ("audio_only"@, json::JsonModel::Flag(audio_only)),
            ],
        ),
{
    assert(download_fields(url@, quality@, format@, output_dir@, audio_only) =~= seq![
        ("action"@, json::JsonModel::Text("download"@)),
        ("url"@, json::JsonModel::Text(url@)),
        (
            "quality"@,
            match quality_named(quality@) {
                Some(n) => json::JsonModel::Number(n),
                None => json::JsonModel::Null,
            },
        ),
        (
            "format"@,
            match audio_format_named(format@) {
                Some(name) if audio_only => json::JsonModel::Text(name),
                _ => json::JsonModel::Null,
            },
        ),
        ("output_dir"@, json::JsonModel::Text(output_dir@)),
        ("audio_only"@, json::JsonModel::Flag(audio_only)),
    ]);
}

/// However a number is written, with zeros or a `+` in front, a quality of it
/// with any `p` behind and white space around is read as that number.
pub proof fn law_written_quality_is_read(
    quality: &str,
    front: Seq<char>,
    name: Seq<char>,
    n: u32,
    marks: Seq<char>,
    back: Seq<char>,
    r: Option<u32>,
)
    requires
        call_ensures(parse_quality, (quality,), r),
        quality@ == front + (name + marks) + back,
        text::number_in(name) == Some(n),
        text::is_blank(front),
        text::is_blank(back),
        forall|i: int| 0 <= i < marks.len() ==> #[trigger] marks[i] == 'p',
    ensures
        r == Some(n),
{
    reveal_strlit("best");
    let digits = text::without_plus(name);
    let whole = name + marks;
    assert(digits.last() == name.last());
    assert(text::is_digit(digits[digits.len() - 1]));
    assert(name[0] == '+' || text::is_digit(digits[0]));
    assert(whole[0] == name[0]);
    assert(text::is_tight(whole)) by {
        if marks.len() > 0 {
            assert(whole.last() == marks[marks.len() - 1]);
        } else {
            assert(whole =~= name);
        }
    }
    text::law_trimming_keeps_the_text(front, whole, back);
    assert(text::lowered(whole)[0] == text::lower_char(whole[0]));
    assert("best"@[0] == 'b');
    let set = seq!['p'];
    assert forall|i: int| 0 <= i < marks.len() implies set.contains(#[trigger] marks[i]) by {
        assert(set[0] == marks[i]);
    }
    assert(!set.contains(name.last()));
    text::law_trailing_marks_are_stripped(name, marks, set);
}

} // verus!
