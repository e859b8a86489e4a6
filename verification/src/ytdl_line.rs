//! The line grammar: one line of the download tool's output becomes a typed
//! event, or a parse failure.
//!
//! A line is recognized by one of a small set of mutually exclusive prefixes,
//! tried in a fixed order; the rest of the line is then read by the
//! sub-grammar of that prefix.  The whole grammar is stated over character
//! sequences by [`spec_parse`], and [`parse`] returns exactly what
//! [`spec_parse`] denotes.

use vstd::prelude::*;

use crate::numeric::{
    dec_mant, dec_scale, dec_sig_digits, digit_run, digit_run_end, digits_val, is_dec_token,
    is_digit_char, numtok_run, numtok_run_end, read_dec_token, read_u32_digits, round_div,
    sat_u32, scaled_round, space_run, space_run_end,
};
use crate::util::{match_at, match_lit};

verus! {

/// One sample of an ongoing download: completion percentage, whole size in
/// KiB, speed in KiB/s, and the estimated seconds left.
#[derive(Debug, Clone, Copy, PartialEq, Eq, Structural)]
pub struct DownloadProgress {
    pub percent: u32,
    pub total_size: u32,
    pub download_speed: u32,
    pub eta: u32,
}

/// The stage a download is in: still fetching data, or re-encoding audio
/// after the fetch.
#[derive(Debug, Clone, Copy, PartialEq, Eq, Structural)]
pub enum Progress {
    Downloading(DownloadProgress),
    Extracting,
}

/// A parsed output line of the download tool.
#[derive(Debug, Clone, PartialEq, Eq)]
pub enum YtdlLine {
    VideoUrl(String),
    VideoDownloadPath(String),
    VideoDownloadProgress(Progress),
    VideoDownloadDone,
    VideoDownloadError(String),
    VideoExtractAudio(String),
    PlaylistUrl(String),
    PlaylistName(String),
    PlaylistVideoCount(u32),
    PlaylistVideoIndex(u32),
    PlaylistDownloadDone,
}

/// Why a line was rejected: its prefix is not one the grammar knows, or the
/// rest of the line does not fit the prefix's sub-grammar.
#[derive(Debug, Clone, Copy, PartialEq, Eq, Structural)]
pub enum ParseError {
    UnrecognizedPrefix,
    Malformed,
}

/// The unit suffix of a size or speed.
#[derive(Debug, Clone, Copy, PartialEq, Eq, Structural)]
pub enum SizeMeasurement {
    B,
    KiB,
    MiB,
    GiB,
}

/// The recognized line prefixes, in the order they are tried.
#[derive(Debug, Clone, Copy, PartialEq, Eq, Structural)]
pub enum LinePrefix {
    Youtube,
    YoutubeTab,
    Download,
    Error,
    ExtractAudio,
}

/// The mathematical shape of a parsed line: [`YtdlLine`] with every string
/// replaced by its character sequence.
pub enum LineModel {
    VideoUrl(Seq<char>),
    VideoDownloadPath(Seq<char>),
    VideoDownloadProgress(Progress),
    VideoDownloadDone,
    VideoDownloadError(Seq<char>),
    VideoExtractAudio(Seq<char>),
    PlaylistUrl(Seq<char>),
    PlaylistName(Seq<char>),
    PlaylistVideoCount(u32),
    PlaylistVideoIndex(u32),
    PlaylistDownloadDone,
}

impl View for YtdlLine {
    type V = LineModel;

    open spec fn view(&self) -> LineModel {
        match self {
            YtdlLine::VideoUrl(url) => LineModel::VideoUrl(url@),
            YtdlLine::VideoDownloadPath(path) => LineModel::VideoDownloadPath(path@),
            YtdlLine::VideoDownloadProgress(p) => LineModel::VideoDownloadProgress(*p),
            YtdlLine::VideoDownloadDone => LineModel::VideoDownloadDone,
            YtdlLine::VideoDownloadError(msg) => LineModel::VideoDownloadError(msg@),
            YtdlLine::VideoExtractAudio(path) => LineModel::VideoExtractAudio(path@),
            YtdlLine::PlaylistUrl(url) => LineModel::PlaylistUrl(url@),
            YtdlLine::PlaylistName(name) => LineModel::PlaylistName(name@),
            YtdlLine::PlaylistVideoCount(n) => LineModel::PlaylistVideoCount(*n),
            YtdlLine::PlaylistVideoIndex(n) => LineModel::PlaylistVideoIndex(*n),
            YtdlLine::PlaylistDownloadDone => LineModel::PlaylistDownloadDone,
        }
    }
}

/// Everything of `s` from position `i` on.
pub open spec fn rest_from(s: Seq<char>, i: int) -> Seq<char> {
    s.subrange(i, s.len() as int)
}

/// First position at or after `i` where `c` occurs, or the length of `s`.
pub open spec fn find_from(s: Seq<char>, i: int, c: char) -> int
    decreases s.len() - i when 0 <= i <= s.len()
{
    if i < s.len() {
        if s[i] == c {
            i
        } else {
            find_from(s, i + 1, c)
        }
    } else {
        i
    }
}

proof fn lemma_find_from(s: Seq<char>, i: int, c: char)
    requires
        0 <= i <= s.len(),
    ensures
        i <= find_from(s, i, c) <= s.len(),
        find_from(s, i, c) < s.len() ==> s[find_from(s, i, c)] == c,
        forall|k: int| i <= k < find_from(s, i, c) ==> s[k] != c,
    decreases s.len() - i,
{
    if i < s.len() && s[i] != c {
        lemma_find_from(s, i + 1, c);
    }
}

/// Which recognized prefix the line starts with, if any.
pub open spec fn spec_prefix(s: Seq<char>) -> Option<LinePrefix> {
    if match_at(s, 0, "[youtube]"@) {
        Some(LinePrefix::Youtube)
    } else if match_at(s, 0, "[youtube:tab]"@) {
        Some(LinePrefix::YoutubeTab)
    } else if match_at(s, 0, "[download]"@) {
        Some(LinePrefix::Download)
    } else if match_at(s, 0, "ERROR:"@) {
        Some(LinePrefix::Error)
    } else if match_at(s, 0, "[ExtractAudio]"@) {
        Some(LinePrefix::ExtractAudio)
    } else {
        None
    }
}

/// The length of a recognized prefix.
pub open spec fn prefix_len(p: LinePrefix) -> int {
    match p {
        LinePrefix::Youtube => "[youtube]"@.len() as int,
        LinePrefix::YoutubeTab => "[youtube:tab]"@.len() as int,
        LinePrefix::Download => "[download]"@.len() as int,
        LinePrefix::Error => "ERROR:"@.len() as int,
        LinePrefix::ExtractAudio => "[ExtractAudio]"@.len() as int,
    }
}

/// Sub-grammar after `[youtube]`: an extraction notice carrying the video
/// URL.
pub open spec fn spec_youtube(s: Seq<char>, i: int) -> Result<LineModel, ParseError> {
    if match_at(s, i, " Extracting URL: "@) {
        Ok(LineModel::VideoUrl(rest_from(s, i + " Extracting URL: "@.len())))
    } else {
        Err(ParseError::Malformed)
    }
}

/// Sub-grammar after `[ExtractAudio]`: the destination of the extracted
/// audio file.
pub open spec fn spec_extract_audio(s: Seq<char>, i: int) -> Result<LineModel, ParseError> {
    if match_at(s, i, " Destination: "@) {
        Ok(LineModel::VideoExtractAudio(rest_from(s, i + " Destination: "@.len())))
    } else {
        Err(ParseError::Malformed)
    }
}

/// Sub-grammar after `ERROR:`: the message is everything after the next
/// colon and the single character that follows it.
pub open spec fn spec_error(s: Seq<char>, i: int) -> Result<LineModel, ParseError> {
    let c = find_from(s, i, ':');
    if c + 2 <= s.len() {
        Ok(LineModel::VideoDownloadError(rest_from(s, c + 2)))
    } else {
        Err(ParseError::Malformed)
    }
}

/// Sub-grammar after `[youtube:tab]`: a playlist URL, or a playlist video
/// count.
pub open spec fn spec_youtube_tab(s: Seq<char>, i: int) -> Result<LineModel, ParseError> {
    if match_at(s, i, " Extracting URL: "@) {
        Ok(LineModel::PlaylistUrl(rest_from(s, i + " Extracting URL: "@.len())))
    } else if match_at(s, i, " Playlist "@) {
        let c = find_from(s, i + " Playlist "@.len(), ':');
        if match_at(s, c, ": Downloading "@) {
            let k = digit_run_end(s, c + ": Downloading "@.len());
            if match_at(s, k, " items of "@) {
                let m0 = k + " items of "@.len();
                let m1 = digit_run_end(s, m0);
                if m0 < m1 && digits_val(s, m0, m1) <= u32::MAX {
                    Ok(LineModel::PlaylistVideoCount(digits_val(s, m0, m1) as u32))
                } else {
                    Err(ParseError::Malformed)
                }
            } else {
                Err(ParseError::Malformed)
            }
        } else {
            Err(ParseError::Malformed)
        }
    } else {
        Err(ParseError::Malformed)
    }
}

/// The value in whole KiB denoted by a mantissa/denominator pair with a unit
/// suffix, rounded to the nearest KiB and clamped into a `u32`; plain bytes
/// always round down to zero.
pub open spec fn kib_value(mant: int, scale: int, m: SizeMeasurement) -> u32 {
    match m {
        SizeMeasurement::B => 0,
        SizeMeasurement::KiB => sat_u32(round_div(mant, scale)),
        SizeMeasurement::MiB => sat_u32(round_div(mant * 1024, scale)),
        SizeMeasurement::GiB => sat_u32(round_div(mant * 1048576, scale)),
    }
}

/// A value given in plain bytes always normalizes to zero whole KiB,
/// whatever number stands before the unit.
pub proof fn lemma_bytes_normalize_to_zero(mant: int, scale: int)
    ensures
        kib_value(mant, scale, SizeMeasurement::B) == 0,
{
}

/// The unit suffix at position `i`, with the position right after it.
pub open spec fn spec_unit_at(s: Seq<char>, i: int) -> Option<(SizeMeasurement, int)> {
    if match_at(s, i, "B"@) {
        Some((SizeMeasurement::B, i + "B"@.len()))
    } else if match_at(s, i, "KiB"@) {
        Some((SizeMeasurement::KiB, i + "KiB"@.len()))
    } else if match_at(s, i, "MiB"@) {
        Some((SizeMeasurement::MiB, i + "MiB"@.len()))
    } else if match_at(s, i, "GiB"@) {
        Some((SizeMeasurement::GiB, i + "GiB"@.len()))
    } else {
        None
    }
}

/// Blank space, a decimal token and a unit suffix, as in ` 543.71KiB`:
/// yields the normalized KiB value and the position after the unit.
pub open spec fn spec_sized_value(s: Seq<char>, i: int) -> Option<(u32, int)> {
    let a = space_run_end(s, i);
    let b = numtok_run_end(s, a);
    if is_dec_token(s, a, b) && dec_sig_digits(s, a, b) <= 19 {
        match spec_unit_at(s, b) {
            Some((m, e)) => Some((kib_value(dec_mant(s, a, b), dec_scale(s, a, b), m), e)),
            None => None,
        }
    } else {
        None
    }
}

/// Colon-separated integer ETA components, one to three of them, weighted
/// seconds/minutes/hours from the right; anything after them is ignored.
/// `None` when no digits start the field or the total does not fit a `u32`.
pub open spec fn spec_eta(s: Seq<char>, i: int) -> Option<u32> {
    let j1 = digit_run_end(s, i);
    if j1 == i {
        None
    } else {
        let v1 = digits_val(s, i, j1);
        let total = if j1 < s.len() && s[j1] == ':' && j1 + 1 < s.len() && is_digit_char(
            s[j1 + 1],
        ) {
            let j2 = digit_run_end(s, j1 + 1);
            let v2 = digits_val(s, j1 + 1, j2);
            if j2 < s.len() && s[j2] == ':' && j2 + 1 < s.len() && is_digit_char(s[j2 + 1]) {
                let j3 = digit_run_end(s, j2 + 1);
                let v3 = digits_val(s, j2 + 1, j3);
                v1 * 3600 + v2 * 60 + v3
            } else {
                v1 * 60 + v2
            }
        } else {
            v1
        };
        if total <= u32::MAX {
            Some(total as u32)
        } else {
            None
        }
    }
}

/// Sub-grammar of a numeric progress line:
/// `<percent>% of <size><unit> at <speed><unit>/s ETA <eta>`.
/// A percentage that rounds to one hundred is the terminal done notice and
/// ends the line's reading right there.
pub open spec fn spec_progress_line(s: Seq<char>, i: int) -> Result<LineModel, ParseError> {
    let a = space_run_end(s, i);
    let b = numtok_run_end(s, a);
    if !(is_dec_token(s, a, b) && dec_sig_digits(s, a, b) <= 19) {
        Err(ParseError::Malformed)
    } else {
        let pct = sat_u32(round_div(dec_mant(s, a, b), dec_scale(s, a, b)));
        if pct == 100 {
            Ok(LineModel::VideoDownloadDone)
        } else if match_at(s, b, "% of"@) {
            match spec_sized_value(s, b + "% of"@.len()) {
                None => Err(ParseError::Malformed),
                Some((size, e1)) => if match_at(s, e1, " at"@) {
                    match spec_sized_value(s, e1 + " at"@.len()) {
                        None => Err(ParseError::Malformed),
                        Some((speed, e2)) => if match_at(s, e2, "/s ETA "@) {
                            match spec_eta(s, e2 + "/s ETA "@.len()) {
                                None => Err(ParseError::Malformed),
                                Some(eta) => Ok(
                                    LineModel::VideoDownloadProgress(
                                        Progress::Downloading(
                                            DownloadProgress {
                                                percent: pct,
                                                total_size: size,
                                                download_speed: speed,
                                                eta,
                                            },
                                        ),
                                    ),
                                ),
                            }
                        } else {
                            Err(ParseError::Malformed)
                        },
                    }
                } else {
                    Err(ParseError::Malformed)
                },
            }
        } else {
            Err(ParseError::Malformed)
        }
    }
}

/// Sub-grammar after `[download]`: a destination path, one of the playlist
/// notices, or a numeric progress line.
pub open spec fn spec_download(s: Seq<char>, i: int) -> Result<LineModel, ParseError> {
    if match_at(s, i, " Destination: "@) {
        Ok(LineModel::VideoDownloadPath(rest_from(s, i + " Destination: "@.len())))
    } else if match_at(s, i, " Downloading playlist: "@) {
        Ok(LineModel::PlaylistName(rest_from(s, i + " Downloading playlist: "@.len())))
    } else if match_at(s, i, " Downloading item "@) {
        let j = i + " Downloading item "@.len();
        let e = digit_run_end(s, j);
        if j < e && digits_val(s, j, e) <= u32::MAX {
            Ok(LineModel::PlaylistVideoIndex(digits_val(s, j, e) as u32))
        } else {
            Err(ParseError::Malformed)
        }
    } else if match_at(s, i, " Finished downloading playlist: "@) {
        Ok(LineModel::PlaylistDownloadDone)
    } else {
        spec_progress_line(s, i)
    }
}

/// The whole line grammar: the denoted event of a line, or why it is
/// rejected.
pub open spec fn spec_parse(s: Seq<char>) -> Result<LineModel, ParseError> {
    match spec_prefix(s) {
        None => Err(ParseError::UnrecognizedPrefix),
        Some(p) => {
            let i = prefix_len(p);
            match p {
                LinePrefix::Youtube => spec_youtube(s, i),
                LinePrefix::YoutubeTab => spec_youtube_tab(s, i),
                LinePrefix::Download => spec_download(s, i),
                LinePrefix::Error => spec_error(s, i),
                LinePrefix::ExtractAudio => spec_extract_audio(s, i),
            }
        },
    }
}

/// First occurrence of `c` at or after `i`, or the length of `s`.
pub fn find_char(s: &str, i: usize, c: char) -> (j: usize)
    requires
        i <= s@.len(),
    ensures
        j == find_from(s@, i as int, c),
        i <= j <= s@.len(),
        j < s@.len() ==> s@[j as int] == c,
{
    let n = s.unicode_len();
    let mut j = i;
    while j < n && s.get_char(j) != c
        invariant
            i <= j <= n,
            n == s@.len(),
            find_from(s@, i as int, c) == find_from(s@, j as int, c),
        decreases n - j,
    {
        j += 1;
    }
    proof {
        lemma_find_from(s@, i as int, c);
        lemma_find_from(s@, j as int, c);
    }
    j
}

/// Copies the tail of `s` from position `i` into an owned string.
fn tail_string(s: &str, i: usize) -> (r: String)
    requires
        i <= s@.len(),
    ensures
        r@ == rest_from(s@, i as int),
{
    let n = s.unicode_len();
    s.substring_char(i, n).to_owned()
}

/// Recognizes which known prefix starts the line; every other line is a
/// non-fatal `UnrecognizedPrefix` failure.
pub fn parse_prefix(input: &str) -> (r: Result<LinePrefix, ParseError>)
    ensures
        match r {
            Ok(p) => spec_prefix(input@) == Some(p),
            Err(e) => spec_prefix(input@) == None::<LinePrefix> && e
                == ParseError::UnrecognizedPrefix,
        },
{
    if let Some(_) = match_lit(input, 0, "[youtube]") {
        Ok(LinePrefix::Youtube)
    } else if let Some(_) = match_lit(input, 0, "[youtube:tab]") {
        Ok(LinePrefix::YoutubeTab)
    } else if let Some(_) = match_lit(input, 0, "[download]") {
        Ok(LinePrefix::Download)
    } else if let Some(_) = match_lit(input, 0, "ERROR:") {
        Ok(LinePrefix::Error)
    } else if let Some(_) = match_lit(input, 0, "[ExtractAudio]") {
        Ok(LinePrefix::ExtractAudio)
    } else {
        Err(ParseError::UnrecognizedPrefix)
    }
}

fn parse_youtube(s: &str, i: usize) -> (r: Result<YtdlLine, ParseError>)
    requires
        i <= s@.len(),
    ensures
        match r {
            Ok(line) => spec_youtube(s@, i as int) == Ok::<LineModel, ParseError>(line@),
            Err(e) => spec_youtube(s@, i as int) == Err::<LineModel, ParseError>(e),
        },
{
    match match_lit(s, i, " Extracting URL: ") {
        Some(j) => Ok(YtdlLine::VideoUrl(tail_string(s, j))),
        None => Err(ParseError::Malformed),
    }
}

fn parse_extract_audio(s: &str, i: usize) -> (r: Result<YtdlLine, ParseError>)
    requires
        i <= s@.len(),
    ensures
        match r {
            Ok(line) => spec_extract_audio(s@, i as int) == Ok::<LineModel, ParseError>(line@),
            Err(e) => spec_extract_audio(s@, i as int) == Err::<LineModel, ParseError>(e),
        },
{
    match match_lit(s, i, " Destination: ") {
        Some(j) => Ok(YtdlLine::VideoExtractAudio(tail_string(s, j))),
        None => Err(ParseError::Malformed),
    }
}

fn parse_error(s: &str, i: usize) -> (r: Result<YtdlLine, ParseError>)
    requires
        i <= s@.len(),
    ensures
        match r {
            Ok(line) => spec_error(s@, i as int) == Ok::<LineModel, ParseError>(line@),
            Err(e) => spec_error(s@, i as int) == Err::<LineModel, ParseError>(e),
        },
{
    let c = find_char(s, i, ':');
    let n = s.unicode_len();
    if n - c < 2 {
        Err(ParseError::Malformed)
    } else {
        Ok(YtdlLine::VideoDownloadError(tail_string(s, c + 2)))
    }
}

fn parse_youtube_tab(s: &str, i: usize) -> (r: Result<YtdlLine, ParseError>)
    requires
        i <= s@.len(),
    ensures
        match r {
            Ok(line) => spec_youtube_tab(s@, i as int) == Ok::<LineModel, ParseError>(line@),
            Err(e) => spec_youtube_tab(s@, i as int) == Err::<LineModel, ParseError>(e),
        },
{
    if let Some(j) = match_lit(s, i, " Extracting URL: ") {
        return Ok(YtdlLine::PlaylistUrl(tail_string(s, j)));
    }
    match match_lit(s, i, " Playlist ") {
        None => Err(ParseError::Malformed),
        Some(j) => {
            let c = find_char(s, j, ':');
            match match_lit(s, c, ": Downloading ") {
                None => Err(ParseError::Malformed),
                Some(k0) => {
                    let k = digit_run(s, k0);
                    match match_lit(s, k, " items of ") {
                        None => Err(ParseError::Malformed),
                        Some(m0) => {
                            let m1 = digit_run(s, m0);
                            if m0 == m1 {
                                return Err(ParseError::Malformed);
                            }
                            match read_u32_digits(s, m0, m1) {
                                Some(v) => Ok(YtdlLine::PlaylistVideoCount(v)),
                                None => Err(ParseError::Malformed),
                            }
                        },
                    }
                },
            }
        },
    }
}

/// Recognizes the unit suffix at position `i`.
fn parse_size_measurement(s: &str, i: usize) -> (r: Option<(SizeMeasurement, usize)>)
    requires
        i <= s@.len(),
    ensures
        match r {
            Some(me) => spec_unit_at(s@, i as int) == Some((me.0, me.1 as int)) && me.1
                <= s@.len(),
            None => spec_unit_at(s@, i as int) == None::<(SizeMeasurement, int)>,
        },
{
    if let Some(e) = match_lit(s, i, "B") {
        Some((SizeMeasurement::B, e))
    } else if let Some(e) = match_lit(s, i, "KiB") {
        Some((SizeMeasurement::KiB, e))
    } else if let Some(e) = match_lit(s, i, "MiB") {
        Some((SizeMeasurement::MiB, e))
    } else if let Some(e) = match_lit(s, i, "GiB") {
        Some((SizeMeasurement::GiB, e))
    } else {
        None
    }
}

/// Normalizes a mantissa/denominator pair with a unit into whole KiB.
fn get_size_in_kib(mant: u64, scale: u64, m: SizeMeasurement) -> (r: u32)
    requires
        mant < crate::numeric::pow10(19),
        1 <= scale <= crate::numeric::pow10(19),
    ensures
        r == kib_value(mant as int, scale as int, m),
{
    match m {
        SizeMeasurement::B => 0,
        SizeMeasurement::KiB => scaled_round(mant, 1, scale),
        SizeMeasurement::MiB => scaled_round(mant, 1024, scale),
        SizeMeasurement::GiB => scaled_round(mant, 1048576, scale),
    }
}

/// Reads blank space, a decimal token and a unit suffix starting at `i`.
fn parse_sized_value(s: &str, i: usize) -> (r: Option<(u32, usize)>)
    requires
        i <= s@.len(),
    ensures
        match r {
            Some(ve) => spec_sized_value(s@, i as int) == Some((ve.0, ve.1 as int)) && ve.1
                <= s@.len(),
            None => spec_sized_value(s@, i as int) == None::<(u32, int)>,
        },
{
    let a = space_run(s, i);
    let b = numtok_run(s, a);
    match read_dec_token(s, a, b) {
        None => None,
        Some((mant, scale)) => {
            match parse_size_measurement(s, b) {
                None => None,
                Some((m, e)) => Some((get_size_in_kib(mant, scale, m), e)),
            }
        },
    }
}

/// Reads the ETA field that starts at position `i`.
fn eta_at(s: &str, i: usize) -> (r: Option<u32>)
    requires
        i <= s@.len(),
    ensures
        r == spec_eta(s@, i as int),
{
    proof {
        crate::numeric::lemma_digit_run_end(s@, i as int);
    }
    let n = s.unicode_len();
    let j1 = digit_run(s, i);
    if j1 == i {
        return None;
    }
    let v1 = match read_u32_digits(s, i, j1) {
        Some(v) => v,
        None => {
            proof {
                if spec_eta(s@, i as int) is Some {
                    lemma_eta_overflow(s@, i as int);
                }
            }
            return None;
        },
    };
    let two = j1 < n && s.get_char(j1) == ':' && j1 + 1 < n && is_digit_exec(s, j1 + 1);
    if !two {
        return Some(v1);
    }
    let j2 = digit_run(s, j1 + 1);
    let v2 = match read_u32_digits(s, j1 + 1, j2) {
        Some(v) => v,
        None => {
            proof {
                if spec_eta(s@, i as int) is Some {
                    lemma_eta_overflow(s@, i as int);
                }
            }
            return None;
        },
    };
    let three = j2 < n && s.get_char(j2) == ':' && j2 + 1 < n && is_digit_exec(s, j2 + 1);
    let total: u64 = if three {
        let j3 = digit_run(s, j2 + 1);
        let v3 = match read_u32_digits(s, j2 + 1, j3) {
            Some(v) => v,
            None => {
                proof {
                    if spec_eta(s@, i as int) is Some {
                    lemma_eta_overflow(s@, i as int);
                }
                }
                return None;
            },
        };
        (v1 as u64) * 3600 + (v2 as u64) * 60 + (v3 as u64)
    } else {
        (v1 as u64) * 60 + (v2 as u64)
    };
    if total > 0xFFFF_FFFF {
        None
    } else {
        Some(total as u32)
    }
}

/// A digit at position `i` of `s`.
fn is_digit_exec(s: &str, i: usize) -> (r: bool)
    requires
        i < s@.len(),
    ensures
        r == is_digit_char(s@[i as int]),
{
    let u = s.get_char(i) as u32;
    48 <= u && u <= 57
}

/// When the ETA field is accepted, every one of its components fits a
/// `u32`, because the weighted total bounds each component from above.
proof fn lemma_eta_overflow(s: Seq<char>, i: int)
    requires
        0 <= i <= s.len(),
        digit_run_end(s, i) > i,
        spec_eta(s, i) is Some,
    ensures
        ({
            let j1 = digit_run_end(s, i);
            &&& digits_val(s, i, j1) <= u32::MAX
            &&& (j1 < s.len() && s[j1] == ':' && j1 + 1 < s.len() && is_digit_char(s[j1 + 1])
                ==> ({
                let j2 = digit_run_end(s, j1 + 1);
                &&& digits_val(s, j1 + 1, j2) <= u32::MAX
                &&& (j2 < s.len() && s[j2] == ':' && j2 + 1 < s.len() && is_digit_char(
                    s[j2 + 1],
                ) ==> digits_val(s, j2 + 1, digit_run_end(s, j2 + 1)) <= u32::MAX)
            }))
        }),
{
    let j1 = digit_run_end(s, i);
    crate::numeric::lemma_digit_run_end(s, i);
    crate::numeric::lemma_digits_val_bounds(s, i, j1);
    let v1 = digits_val(s, i, j1);
    if j1 < s.len() && s[j1] == ':' && j1 + 1 < s.len() && is_digit_char(s[j1 + 1]) {
        let j2 = digit_run_end(s, j1 + 1);
        crate::numeric::lemma_digit_run_end(s, j1 + 1);
        crate::numeric::lemma_digits_val_bounds(s, j1 + 1, j2);
        let v2 = digits_val(s, j1 + 1, j2);
        if j2 < s.len() && s[j2] == ':' && j2 + 1 < s.len() && is_digit_char(s[j2 + 1]) {
            let j3 = digit_run_end(s, j2 + 1);
            crate::numeric::lemma_digit_run_end(s, j2 + 1);
            crate::numeric::lemma_digits_val_bounds(s, j2 + 1, j3);
            let v3 = digits_val(s, j2 + 1, j3);
            assert(v1 * 3600 + v2 * 60 + v3 <= u32::MAX);
            assert(v1 * 3600 >= v1 && v2 * 60 >= v2) by (nonlinear_arith)
                requires
                    v1 >= 0,
                    v2 >= 0,
            ;
        } else {
            assert(v1 * 60 + v2 <= u32::MAX);
            assert(v1 * 60 >= v1) by (nonlinear_arith)
                requires
                    v1 >= 0,
            ;
        }
    }
}

/// Reads a numeric progress line starting at position `i`.
fn parse_progress_line(s: &str, i: usize) -> (r: Result<YtdlLine, ParseError>)
    requires
        i <= s@.len(),
    ensures
        match r {
            Ok(line) => spec_progress_line(s@, i as int) == Ok::<LineModel, ParseError>(line@),
            Err(e) => spec_progress_line(s@, i as int) == Err::<LineModel, ParseError>(e),
        },
{
    let a = space_run(s, i);
    let b = numtok_run(s, a);
    let (mant, scale) = match read_dec_token(s, a, b) {
        Some(ms) => ms,
        None => {
            return Err(ParseError::Malformed);
        },
    };
    let pct = scaled_round(mant, 1, scale);
    if pct == 100 {
        return Ok(YtdlLine::VideoDownloadDone);
    }
    let p1 = match match_lit(s, b, "% of") {
        Some(j) => j,
        None => {
            return Err(ParseError::Malformed);
        },
    };
    let (size, e1) = match parse_sized_value(s, p1) {
        Some(ve) => ve,
        None => {
            return Err(ParseError::Malformed);
        },
    };
    let p2 = match match_lit(s, e1, " at") {
        Some(j) => j,
        None => {
            return Err(ParseError::Malformed);
        },
    };
    let (speed, e2) = match parse_sized_value(s, p2) {
        Some(ve) => ve,
        None => {
            return Err(ParseError::Malformed);
        },
    };
    let p3 = match match_lit(s, e2, "/s ETA ") {
        Some(j) => j,
        None => {
            return Err(ParseError::Malformed);
        },
    };
    match eta_at(s, p3) {
        Some(eta) => Ok(
            YtdlLine::VideoDownloadProgress(
                Progress::Downloading(
                    DownloadProgress { percent: pct, total_size: size, download_speed: speed, eta },
                ),
            ),
        ),
        None => Err(ParseError::Malformed),
    }
}

fn parse_download(s: &str, i: usize) -> (r: Result<YtdlLine, ParseError>)
    requires
        i <= s@.len(),
    ensures
        match r {
            Ok(line) => spec_download(s@, i as int) == Ok::<LineModel, ParseError>(line@),
            Err(e) => spec_download(s@, i as int) == Err::<LineModel, ParseError>(e),
        },
{
    if let Some(j) = match_lit(s, i, " Destination: ") {
        return Ok(YtdlLine::VideoDownloadPath(tail_string(s, j)));
    }
    if let Some(j) = match_lit(s, i, " Downloading playlist: ") {
        return Ok(YtdlLine::PlaylistName(tail_string(s, j)));
    }
    if let Some(j) = match_lit(s, i, " Downloading item ") {
        let e = digit_run(s, j);
        if j == e {
            return Err(ParseError::Malformed);
        }
        return match read_u32_digits(s, j, e) {
            Some(v) => Ok(YtdlLine::PlaylistVideoIndex(v)),
            None => Err(ParseError::Malformed),
        };
    }
    if let Some(_) = match_lit(s, i, " Finished downloading playlist: ") {
        return Ok(YtdlLine::PlaylistDownloadDone);
    }
    parse_progress_line(s, i)
}

/// Reads the ETA field of a whole string, as it stands after `ETA ` in a
/// progress line.
pub fn parse_eta(input: &str) -> (r: Option<u32>)
    ensures
        r == spec_eta(input@, 0),
{
    eta_at(input, 0)
}

/// Turns one output line of the download tool into a typed event, or reports
/// why the line is not one: exactly the value [`spec_parse`] denotes.
pub fn parse(input: &str) -> (r: Result<YtdlLine, ParseError>)
    ensures
        match r {
            Ok(line) => spec_parse(input@) == Ok::<LineModel, ParseError>(line@),
            Err(e) => spec_parse(input@) == Err::<LineModel, ParseError>(e),
        },
{
    let p = match parse_prefix(input) {
        Ok(p) => p,
        Err(e) => {
            return Err(e);
        },
    };
    let i = match p {
        LinePrefix::Youtube => "[youtube]".unicode_len(),
        LinePrefix::YoutubeTab => "[youtube:tab]".unicode_len(),
        LinePrefix::Download => "[download]".unicode_len(),
        LinePrefix::Error => "ERROR:".unicode_len(),
        LinePrefix::ExtractAudio => "[ExtractAudio]".unicode_len(),
    };
    proof {
        assert(i == prefix_len(p));
        assert(i <= input@.len());
    }
    match p {
        LinePrefix::Youtube => parse_youtube(input, i),
        LinePrefix::YoutubeTab => parse_youtube_tab(input, i),
        LinePrefix::Download => parse_download(input, i),
        LinePrefix::Error => parse_error(input, i),
        LinePrefix::ExtractAudio => parse_extract_audio(input, i),
    }
}

} // verus!
