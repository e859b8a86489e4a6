//! The download-process runner's pure side: the fixed table of format
//! presets, the argument list handed to the external download tool, and the
//! name of the reply socket a client binds.
//!
//! Spawning the tool, draining its output and waiting for its exit are plain
//! process I/O and live outside the library; everything they need computed
//! is stated and proved here.

use vstd::prelude::*;

verus! {

/// The fixed format presets a download can be asked for.
#[derive(Debug, Clone, Copy, PartialEq, Eq, Structural)]
pub enum DownloadFormat {
    UpTo1440p,
    UpTo1080p,
    UpTo720p,
    UpTo480p,
    WorstVideo,
    AudioOnly,
}

/// Spawns download processes; the spawning itself happens outside the
/// library, against the argument lists built here.
#[derive(Debug, Clone, Copy, PartialEq, Eq, Structural)]
pub struct YtdlDownloader {}

impl YtdlDownloader {
    pub fn new() -> (r: Self)
        ensures
            r == (YtdlDownloader {  }),
    {
        Self {  }
    }
}

/// The CLI name of each preset.
pub open spec fn format_name_model(f: DownloadFormat) -> Seq<char> {
    match f {
        DownloadFormat::UpTo1440p => "1440p"@,
        DownloadFormat::UpTo1080p => "1080p"@,
        DownloadFormat::UpTo720p => "720p"@,
        DownloadFormat::UpTo480p => "480p"@,
        DownloadFormat::WorstVideo => "worst"@,
        DownloadFormat::AudioOnly => "audio-only"@,
    }
}

/// The name a preset goes by on the command line.
pub fn format_name(f: DownloadFormat) -> (r: &'static str)
    ensures
        r@ == format_name_model(f),
{
    match f {
        DownloadFormat::UpTo1440p => "1440p",
        DownloadFormat::UpTo1080p => "1080p",
        DownloadFormat::UpTo720p => "720p",
        DownloadFormat::UpTo480p => "480p",
        DownloadFormat::WorstVideo => "worst",
        DownloadFormat::AudioOnly => "audio-only",
    }
}

/// The flags each preset adds to the download tool's invocation.
pub open spec fn format_specifier_model(f: DownloadFormat) -> Seq<Seq<char>> {
    match f {
        DownloadFormat::UpTo1440p => seq![
            "-f"@,
            "bestvideo[height<=1440]+bestaudio/best[height<=1440]"@,
        ],
        DownloadFormat::UpTo1080p => seq![
            "-f"@,
            "bestvideo[height<=1080]+bestaudio/best[height<=1080]"@,
        ],
        DownloadFormat::UpTo720p => seq![
            "-f"@,
            "bestvideo[height<=720]+bestaudio/best[height<=720]"@,
        ],
        DownloadFormat::UpTo480p => seq![
            "-f"@,
            "bestvideo[height<=480]+bestaudio/best[height<=480]"@,
        ],
        DownloadFormat::WorstVideo => seq!["-S"@, "+size,+br,+res,+fps"@],
        DownloadFormat::AudioOnly => seq!["-x"@, "--audio-format"@, "mp3"@],
    }
}

/// The flag set of one preset, from the fixed table.
pub fn get_download_format_specifier(format: &DownloadFormat) -> (r: Vec<&'static str>)
    ensures
        r@.len() == format_specifier_model(*format).len(),
        forall|i: int| 0 <= i < r@.len() ==> r@[i]@ == format_specifier_model(*format)[i],
{
    let mut v: Vec<&'static str> = Vec::new();
    match format {
        DownloadFormat::UpTo1440p => {
            v.push("-f");
            v.push("bestvideo[height<=1440]+bestaudio/best[height<=1440]");
        },
        DownloadFormat::UpTo1080p => {
            v.push("-f");
            v.push("bestvideo[height<=1080]+bestaudio/best[height<=1080]");
        },
        DownloadFormat::UpTo720p => {
            v.push("-f");
            v.push("bestvideo[height<=720]+bestaudio/best[height<=720]");
        },
        DownloadFormat::UpTo480p => {
            v.push("-f");
            v.push("bestvideo[height<=480]+bestaudio/best[height<=480]");
        },
        DownloadFormat::WorstVideo => {
            v.push("-S");
            v.push("+size,+br,+res,+fps");
        },
        DownloadFormat::AudioOnly => {
            v.push("-x");
            v.push("--audio-format");
            v.push("mp3");
        },
    }
    v
}

/// The whole argument list of one download invocation: the preset's flags,
/// then the flags that turn on streamed line-by-line progress output, then
/// the URL.
pub open spec fn download_args_model(url: Seq<char>, f: DownloadFormat) -> Seq<Seq<char>> {
    format_specifier_model(f) + seq!["--progress"@, "--newline"@, "-r"@, "16384"@, url]
}

/// Builds the argument list the download tool is spawned with.
pub fn build_download_args(url: &str, format: &DownloadFormat) -> (r: Vec<String>)
    ensures
        r@.len() == download_args_model(url@, *format).len(),
        forall|i: int| 0 <= i < r@.len() ==> r@[i]@ == download_args_model(url@, *format)[i],
{
    let spec_flags = get_download_format_specifier(format);
    let mut v: Vec<String> = Vec::new();
    let mut i: usize = 0;
    while i < spec_flags.len()
        invariant
            i <= spec_flags@.len(),
            v@.len() == i,
            spec_flags@.len() == format_specifier_model(*format).len(),
            forall|j: int| 0 <= j < spec_flags@.len() ==> spec_flags@[j]@ == format_specifier_model(
                *format,
            )[j],
            forall|j: int| 0 <= j < i ==> v@[j]@ == format_specifier_model(*format)[j],
        decreases spec_flags@.len() - i,
    {
        v.push(spec_flags[i].to_owned());
        i += 1;
    }
    v.push("--progress".to_owned());
    v.push("--newline".to_owned());
    v.push("-r".to_owned());
    v.push("16384".to_owned());
    v.push(url.to_owned());
    v
}

/// The decimal digits of `n`, most significant first.
pub open spec fn dec_digits(n: nat) -> Seq<char>
    decreases n
{
    if n < 10 {
        seq![digit_char(n as int)]
    } else {
        dec_digits(n / 10).push(digit_char((n % 10) as int))
    }
}

/// The character of one decimal digit.
pub open spec fn digit_char(d: int) -> char {
    if d == 0 {
        '0'
    } else if d == 1 {
        '1'
    } else if d == 2 {
        '2'
    } else if d == 3 {
        '3'
    } else if d == 4 {
        '4'
    } else if d == 5 {
        '5'
    } else if d == 6 {
        '6'
    } else if d == 7 {
        '7'
    } else if d == 8 {
        '8'
    } else {
        '9'
    }
}

/// One decimal digit as a string.
fn digit_str(d: u64) -> (r: &'static str)
    requires
        d < 10,
    ensures
        r@ == seq![digit_char(d as int)],
{
    let r = match d {
        0 => "0",
        1 => "1",
        2 => "2",
        3 => "3",
        4 => "4",
        5 => "5",
        6 => "6",
        7 => "7",
        8 => "8",
        _ => "9",
    };
    proof {
        reveal_strlit("0");
        reveal_strlit("1");
        reveal_strlit("2");
        reveal_strlit("3");
        reveal_strlit("4");
        reveal_strlit("5");
        reveal_strlit("6");
        reveal_strlit("7");
        reveal_strlit("8");
        reveal_strlit("9");
        assert(r@ =~= seq![digit_char(d as int)]);
    }
    r
}

/// Writes `n` in decimal.
pub fn u64_to_string(n: u64) -> (r: String)
    ensures
        r@ == dec_digits(n as nat),
    decreases n,
{
    if n < 10 {
        digit_str(n).to_owned()
    } else {
        let mut s = u64_to_string(n / 10);
        s.append(digit_str(n % 10));
        s
    }
}

/// The filesystem name of the reply socket a client binds for the moment
/// `secs`: a fixed prefix followed by the decimal seconds.
pub open spec fn socket_path_model(secs: nat) -> Seq<char> {
    "/tmp/plsdo-ytdl-download-process-"@ + dec_digits(secs)
}

/// The reply-socket path for one moment in time.
pub fn socket_path_for(secs: u64) -> (r: String)
    ensures
        r@ == socket_path_model(secs as nat),
{
    let prefix = String::from_str("/tmp/plsdo-ytdl-download-process-");
    let digits = u64_to_string(secs);
    prefix.concat(digits.as_str())
}

/// Relies on `std::time::SystemTime`: the seconds elapsed since the UNIX
/// epoch, by the system clock.  A clock that stands before the epoch reads
/// as zero.  Nothing is assumed of the value.
#[verifier::external_body]
fn unix_time_secs() -> u64 {
    std::time::SystemTime::UNIX_EPOCH.elapsed().map(|d| d.as_secs()).unwrap_or(0)
}

/// A fresh path for the reply socket of a query client, distinguished by
/// the current time.
pub fn generate_socket_path() -> (r: String)
    ensures
        exists|secs: nat| r@ == socket_path_model(secs),
{
    let secs = unix_time_secs();
    let r = socket_path_for(secs);
    proof {
        assert(r@ == socket_path_model(secs as nat));
    }
    r
}

} // verus!
