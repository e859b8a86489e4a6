//! Audio-output bookkeeping: the state the desktop bar displays, and the
//! matching of an output against a user-supplied needle.

use vstd::prelude::*;

use crate::util::{contains_seq, str_contains};

verus! {

/// The names an output is known by on this machine.
#[derive(Debug, Clone, Copy, PartialEq, Eq, Structural)]
pub enum AudioOutputFriendlyName {
    Headphones,
    Speakers,
    Earbuds,
    Unrecognized,
}

/// What the desktop bar shows of the audio subsystem.
#[derive(Debug, Clone, Copy, PartialEq, Eq, Structural)]
pub struct AudioState {
    pub volume: u32,
    pub is_muted: bool,
    pub output: AudioOutputFriendlyName,
}

/// One audio sink: its system name and description, and the friendly name
/// its description was classified as.
#[derive(Debug, Clone, PartialEq, Eq)]
pub struct AudioOutput {
    pub name: String,
    pub description: String,
    pub friendly_name: AudioOutputFriendlyName,
}

/// The mathematical shape of an [`AudioOutput`].
pub struct OutputModel {
    pub name: Seq<char>,
    pub description: Seq<char>,
    pub friendly_name: AudioOutputFriendlyName,
}

impl View for AudioOutput {
    type V = OutputModel;

    open spec fn view(&self) -> OutputModel {
        OutputModel {
            name: self.name@,
            description: self.description@,
            friendly_name: self.friendly_name,
        }
    }
}

/// The code point of a character with ASCII capitals folded to small
/// letters.
pub open spec fn lower_code(c: char) -> int {
    if 65 <= c as u32 <= 90 {
        c as u32 + 32
    } else {
        (c as u32) as int
    }
}

/// Character-wise equality up to ASCII case.
pub open spec fn eq_ignore_case(a: Seq<char>, b: Seq<char>) -> bool {
    a.len() == b.len() && forall|i: int| 0 <= i < a.len() ==> lower_code(a[i]) == lower_code(b[i])
}

/// ASCII-case-insensitive comparison of two strings.
pub fn str_eq_ignore_case(a: &str, b: &str) -> (r: bool)
    ensures
        r == eq_ignore_case(a@, b@),
{
    let an = a.unicode_len();
    let bn = b.unicode_len();
    if an != bn {
        return false;
    }
    let mut i: usize = 0;
    while i < an
        invariant
            an == a@.len(),
            bn == b@.len(),
            an == bn,
            i <= an,
            forall|j: int| 0 <= j < i ==> lower_code(a@[j]) == lower_code(b@[j]),
        decreases an - i,
    {
        let ca = a.get_char(i) as u32;
        let cb = b.get_char(i) as u32;
        let la = if 65 <= ca && ca <= 90 {
            ca + 32
        } else {
            ca
        };
        let lb = if 65 <= cb && cb <= 90 {
            cb + 32
        } else {
            cb
        };
        if la != lb {
            assert(lower_code(a@[i as int]) != lower_code(b@[i as int]));
            return false;
        }
        i += 1;
    }
    true
}

/// The friendly name a needle spells, compared without regard to ASCII
/// case; every other needle spells none.
pub open spec fn friendly_name_model(s: Seq<char>) -> Option<AudioOutputFriendlyName> {
    if eq_ignore_case(s, "headphones"@) {
        Some(AudioOutputFriendlyName::Headphones)
    } else if eq_ignore_case(s, "speakers"@) {
        Some(AudioOutputFriendlyName::Speakers)
    } else if eq_ignore_case(s, "earbuds"@) {
        Some(AudioOutputFriendlyName::Earbuds)
    } else if eq_ignore_case(s, "unrecognized"@) {
        Some(AudioOutputFriendlyName::Unrecognized)
    } else {
        None
    }
}

/// Reads a needle as a friendly name, if it spells one.
pub fn parse_friendly_name(s: &str) -> (r: Option<AudioOutputFriendlyName>)
    ensures
        r == friendly_name_model(s@),
{
    if str_eq_ignore_case(s, "headphones") {
        Some(AudioOutputFriendlyName::Headphones)
    } else if str_eq_ignore_case(s, "speakers") {
        Some(AudioOutputFriendlyName::Speakers)
    } else if str_eq_ignore_case(s, "earbuds") {
        Some(AudioOutputFriendlyName::Earbuds)
    } else if str_eq_ignore_case(s, "unrecognized") {
        Some(AudioOutputFriendlyName::Unrecognized)
    } else {
        None
    }
}

/// An output matches a needle when the needle spells its friendly name, or
/// occurs inside its system name or description.
pub open spec fn is_matching_model(o: OutputModel, needle: Seq<char>) -> bool {
    ||| friendly_name_model(needle) == Some(o.friendly_name)
    ||| contains_seq(o.name, needle)
    ||| contains_seq(o.description, needle)
}

impl AudioOutput {
    /// Whether this output matches a user-supplied needle.
    pub fn is_matching(&self, needle: &str) -> (r: bool)
        ensures
            r == is_matching_model(self@, needle@),
    {
        let by_type = match parse_friendly_name(needle) {
            Some(t) => t == self.friendly_name,
            None => false,
        };
        if by_type {
            true
        } else {
            str_contains(self.name.as_str(), needle) || str_contains(
                self.description.as_str(),
                needle,
            )
        }
    }
}

/// Why no output could be handed back for a needle.
#[derive(Debug, Clone, Copy, PartialEq, Eq, Structural)]
pub enum AudioError {
    NoMatchingOutput,
    MultipleMatchingOutputs,
}

/// The output at index `i` matches the needle.
pub open spec fn matches_in(outputs: Seq<AudioOutput>, needle: Seq<char>, i: int) -> bool {
    0 <= i < outputs.len() && is_matching_model(outputs[i]@, needle)
}

/// Picks the single output that matches the needle: exactly one match hands
/// that output back, none or several are errors.
pub fn find_matching_output<'a>(outputs: &'a Vec<AudioOutput>, needle: &str) -> (r: Result<
    &'a AudioOutput,
    AudioError,
>)
    ensures
        match r {
            Ok(o) => {
                &&& exists|i: int| matches_in(outputs@, needle@, i) && o@ == outputs@[i]@
                &&& forall|i: int, j: int|
                    matches_in(outputs@, needle@, i) && matches_in(outputs@, needle@, j) ==> i
                        == j
            },
            Err(AudioError::NoMatchingOutput) => forall|i: int|
                !matches_in(outputs@, needle@, i),
            Err(AudioError::MultipleMatchingOutputs) => exists|i: int, j: int|
                i != j && matches_in(outputs@, needle@, i) && matches_in(outputs@, needle@, j),
        },
{
    let n = outputs.len();
    let mut found: Option<usize> = None;
    let mut i: usize = 0;
    while i < n
        invariant
            i <= n,
            n == outputs@.len(),
            match found {
                Some(k) => k < i && matches_in(outputs@, needle@, k as int) && forall|j: int|
                    0 <= j < i && j != k ==> !matches_in(outputs@, needle@, j),
                None => forall|j: int| 0 <= j < i ==> !matches_in(outputs@, needle@, j),
            },
        decreases n - i,
    {
        if outputs[i].is_matching(needle) {
            match found {
                Some(k) => {
                    assert(matches_in(outputs@, needle@, k as int));
                    assert(matches_in(outputs@, needle@, i as int));
                    return Err(AudioError::MultipleMatchingOutputs);
                },
                None => {
                    found = Some(i);
                },
            }
        }
        i += 1;
    }
    match found {
        Some(k) => {
            assert forall|a: int, b: int|
                matches_in(outputs@, needle@, a) && matches_in(outputs@, needle@, b) implies a
                == b by {}
            Ok(&outputs[k])
        },
        None => Err(AudioError::NoMatchingOutput),
    }
}

} // verus!
