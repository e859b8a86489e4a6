//! Per-process download state machines and the transition rules that the
//! aggregation daemon applies to them.
//!
//! Each tracked download walks forward through three stages: only its URL is
//! known, then URL with destination path and title, then the full record with
//! live progress.  The record is removed on an error event, or once its
//! process has exited.  Out-of-order events never stop the aggregator: the
//! offending message is rejected with an [`AggregatorError`] and everything
//! else keeps being served.

use vstd::prelude::*;
use vstd::map::*;

use crate::ProcessId;
use crate::message::{DownloadProcessMessage, Message, MessageModel, MessagePayload, PayloadModel,
    ProcessMessageModel};
use crate::ytdl_line::{DownloadProgress, LineModel, Progress, YtdlLine};

verus! {

/// A download of which only the source URL has been seen.
#[derive(Debug, Clone, PartialEq, Eq)]
pub struct UrlOnly {
    pub url: String,
}

/// A download whose destination is known: the title is the file stem of the
/// destination path.
#[derive(Debug, Clone, PartialEq, Eq)]
pub struct DownloadMetadata {
    pub url: String,
    pub path: String,
    pub title: String,
}

/// A download with live progress paired to its metadata.
#[derive(Debug, Clone, PartialEq, Eq)]
pub struct FullDownloadInfo {
    pub metadata: DownloadMetadata,
    pub progress: Progress,
}

/// The stages a tracked download moves through, strictly forward.
#[derive(Debug, Clone, PartialEq, Eq)]
pub enum DownloadInfo {
    UrlOnly(UrlOnly),
    MetadataOnly(DownloadMetadata),
    Full(FullDownloadInfo),
}

/// The mathematical shape of [`DownloadMetadata`].
pub struct MetadataModel {
    pub url: Seq<char>,
    pub path: Seq<char>,
    pub title: Seq<char>,
}

/// The mathematical shape of [`FullDownloadInfo`].
pub struct FullModel {
    pub metadata: MetadataModel,
    pub progress: Progress,
}

/// The mathematical shape of [`DownloadInfo`].
pub enum InfoModel {
    UrlOnly(Seq<char>),
    MetadataOnly(MetadataModel),
    Full(FullModel),
}

impl View for UrlOnly {
    type V = Seq<char>;

    open spec fn view(&self) -> Seq<char> {
        self.url@
    }
}

impl View for DownloadMetadata {
    type V = MetadataModel;

    open spec fn view(&self) -> MetadataModel {
        MetadataModel { url: self.url@, path: self.path@, title: self.title@ }
    }
}

impl View for FullDownloadInfo {
    type V = FullModel;

    open spec fn view(&self) -> FullModel {
        FullModel { metadata: self.metadata@, progress: self.progress }
    }
}

impl View for DownloadInfo {
    type V = InfoModel;

    open spec fn view(&self) -> InfoModel {
        match self {
            DownloadInfo::UrlOnly(u) => InfoModel::UrlOnly(u@),
            DownloadInfo::MetadataOnly(md) => InfoModel::MetadataOnly(md@),
            DownloadInfo::Full(f) => InfoModel::Full(f@),
        }
    }
}

/// Why a process message was rejected, or why a download ended badly.
#[derive(Debug, Clone, Copy, PartialEq, Eq, Structural)]
pub enum EventKind {
    Path,
    Progress,
    Done,
    ExtractAudio,
}

/// The rejections of the transition rules, and the process-failure report.
#[derive(Debug, Clone, Copy, PartialEq, Eq, Structural)]
pub enum AggregatorError {
    /// The event needs a tracked record, and the process id has none.
    NotTracked(EventKind),
    /// The event arrived at a stage it does not belong to; the record is
    /// evicted.
    OutOfOrder(EventKind),
    /// Audio extraction was announced before the download reached one
    /// hundred percent; the record is evicted.
    ExtractBeforeCompletion,
    /// The destination path has no usable file stem to derive a title from;
    /// the record is evicted.
    InvalidPath,
    /// The process exited with a nonzero code; its record is removed and the
    /// code surfaced.
    ProcessFailed(i32),
    /// Playlist lines are recognized by the grammar but have no transition
    /// rules yet; the record is left untouched.
    UnsupportedPlaylistEvent,
}

// ---------------------------------------------------------------------------
// Title derivation: the title of a download is the file stem of its
// destination path.

/// Where the final path segment begins: right after the last slash.
pub open spec fn name_start(p: Seq<char>) -> int
    decreases p.len()
{
    if p.len() == 0 {
        0
    } else if p[p.len() - 1] == '/' {
        p.len() as int
    } else {
        name_start(p.drop_last())
    }
}

/// Any position that is preceded by a slash (or is the start) and has no
/// slash after it is the unique segment start.
proof fn lemma_name_start_unique(p: Seq<char>, k: int)
    requires
        0 <= k <= p.len(),
        forall|j: int| k <= j < p.len() ==> p[j] != '/',
        k > 0 ==> p[k - 1] == '/',
    ensures
        k == name_start(p),
    decreases p.len(),
{
    if p.len() == 0 {
    } else if p[p.len() - 1] == '/' {
        assert(k == p.len());
    } else {
        assert(k < p.len() || k == p.len());
        if k == p.len() {
            assert(p[k - 1] == '/');
            assert(false);
        }
        assert(forall|j: int| 0 <= j < p.len() - 1 ==> p.drop_last()[j] == p[j]);
        lemma_name_start_unique(p.drop_last(), k);
    }
}

/// Last dot strictly inside `[lo, hi)`, or `lo - 1` when there is none.
pub open spec fn last_dot_from(p: Seq<char>, lo: int, hi: int) -> int
    decreases hi - lo when lo <= hi
{
    if hi <= lo {
        lo - 1
    } else if p[hi - 1] == '.' {
        hi - 1
    } else {
        last_dot_from(p, lo, hi - 1)
    }
}

proof fn lemma_last_dot_unique(p: Seq<char>, lo: int, k: int, hi: int)
    requires
        lo <= hi,
        lo - 1 <= k < hi || k == lo - 1,
        k >= lo ==> p[k] == '.',
        forall|j: int| k < j < hi ==> p[j] != '.',
    ensures
        k == last_dot_from(p, lo, hi),
    decreases hi - lo,
{
    if hi <= lo {
        assert(k == lo - 1);
    } else if p[hi - 1] == '.' {
        assert(k == hi - 1);
    } else {
        if k == hi - 1 {
            assert(k >= lo);
            assert(false);
        }
        lemma_last_dot_unique(p, lo, k, hi - 1);
    }
}

/// The title a destination path yields: the file stem of its final segment.
/// `None` when the segment is empty, or is one of the two relative-path
/// segments that name no file.
pub open spec fn title_model(path: Seq<char>) -> Option<Seq<char>> {
    let ns = name_start(path);
    if ns == path.len() {
        None
    } else if path.len() - ns == 1 && path[ns] == '.' {
        None
    } else if path.len() - ns == 2 && path[ns] == '.' && path[ns + 1] == '.' {
        None
    } else {
        let ld = last_dot_from(path, ns + 1, path.len() as int);
        if ld == ns {
            Some(path.subrange(ns, path.len() as int))
        } else {
            Some(path.subrange(ns, ld))
        }
    }
}

/// Computes the file stem of the final segment of `path`.
pub fn derive_title(path: &str) -> (r: Option<String>)
    ensures
        match r {
            Some(t) => title_model(path@) == Some(t@),
            None => title_model(path@) is None,
        },
{
    let n = path.unicode_len();
    let mut k = n;
    while k > 0 && path.get_char(k - 1) != '/'
        invariant
            k <= n,
            n == path@.len(),
            forall|j: int| k <= j < n ==> path@[j] != '/',
        decreases k,
    {
        k -= 1;
    }
    proof {
        lemma_name_start_unique(path@, k as int);
    }
    if k == n {
        return None;
    }
    if n - k == 1 && path.get_char(k) == '.' {
        return None;
    }
    if n - k == 2 && path.get_char(k) == '.' && path.get_char(k + 1) == '.' {
        return None;
    }
    let mut h = n;
    while h > k + 1 && path.get_char(h - 1) != '.'
        invariant
            k + 1 <= h <= n,
            n == path@.len(),
            k < n,
            forall|j: int| h <= j < n ==> path@[j] != '.',
        decreases h,
    {
        h -= 1;
    }
    if h == k + 1 {
        proof {
            lemma_last_dot_unique(path@, k + 1, k as int, n as int);
        }
        Some(path.substring_char(k, n).to_owned())
    } else {
        proof {
            lemma_last_dot_unique(path@, k + 1, (h - 1) as int, n as int);
        }
        Some(path.substring_char(k, h - 1).to_owned())
    }
}

// ---------------------------------------------------------------------------
// Stage constructors and in-place updates of a record.

impl UrlOnly {
    /// Pairs the stored URL with a destination path, deriving the title from
    /// the path's file stem; a path without one is rejected and the record
    /// is lost, as the transition table prescribes.
    pub fn create_metadata(self, path_string: String) -> (r: Result<
        DownloadMetadata,
        AggregatorError,
    >)
        ensures
            match r {
                Ok(md) => {
                    &&& title_model(path_string@) == Some(md@.title)
                    &&& md@.url == self@
                    &&& md@.path == path_string@
                },
                Err(e) => title_model(path_string@) is None && e == AggregatorError::InvalidPath,
            },
    {
        match derive_title(path_string.as_str()) {
            Some(title) => Ok(DownloadMetadata { url: self.url, path: path_string, title }),
            None => Err(AggregatorError::InvalidPath),
        }
    }
}

impl DownloadMetadata {
    /// Attaches the first progress sample to the stored metadata.
    pub fn create_full_download_info(self, progress: Progress) -> (r: FullDownloadInfo)
        ensures
            r@ == (FullModel { metadata: self@, progress }),
    {
        FullDownloadInfo { metadata: self, progress }
    }
}

/// A download counts as completed exactly when it reports one hundred
/// percent while still in the downloading stage.
pub open spec fn progress_is_completed(p: Progress) -> bool {
    match p {
        Progress::Downloading(dp) => dp.percent == 100,
        Progress::Extracting => false,
    }
}

/// The progress a record shows after the terminal done notice: percent
/// pinned to one hundred, speed and ETA cleared.
pub open spec fn completed_progress(p: Progress) -> Progress {
    match p {
        Progress::Downloading(dp) => Progress::Downloading(
            DownloadProgress {
                percent: 100,
                total_size: dp.total_size,
                download_speed: 0,
                eta: 0,
            },
        ),
        Progress::Extracting => Progress::Extracting,
    }
}

impl FullDownloadInfo {
    /// Replaces the live progress sample.
    pub fn update_progress(&mut self, progress: Progress)
        ensures
            final(self)@ == (FullModel { metadata: old(self)@.metadata, progress }),
    {
        self.progress = progress;
    }

    /// Whether the download itself has reached one hundred percent.
    pub fn is_completed(&self) -> (r: bool)
        ensures
            r == progress_is_completed(self@.progress),
    {
        match self.progress {
            Progress::Downloading(ref p) => p.percent == 100,
            Progress::Extracting => false,
        }
    }

    /// Forces the record into its completed shape.
    pub fn set_as_completed(&mut self)
        ensures
            final(self)@ == (FullModel {
                metadata: old(self)@.metadata,
                progress: completed_progress(old(self)@.progress),
            }),
    {
        if let Progress::Downloading(ref mut p) = self.progress {
            p.percent = 100;
            p.download_speed = 0;
            p.eta = 0;
        }
    }

    /// Moves the record into the audio-extraction stage.
    pub fn set_as_extracting(&mut self)
        ensures
            final(self)@ == (FullModel {
                metadata: old(self)@.metadata,
                progress: Progress::Extracting,
            }),
    {
        self.progress = Progress::Extracting;
    }
}

/// An exact copy of a metadata record.
fn dup_metadata(md: &DownloadMetadata) -> (r: DownloadMetadata)
    ensures
        r@ == md@,
{
    DownloadMetadata { url: md.url.clone(), path: md.path.clone(), title: md.title.clone() }
}

/// An exact copy of a record, stated through its view.
fn dup_info(info: &DownloadInfo) -> (r: DownloadInfo)
    ensures
        r@ == info@,
{
    match info {
        DownloadInfo::UrlOnly(u) => DownloadInfo::UrlOnly(UrlOnly { url: u.url.clone() }),
        DownloadInfo::MetadataOnly(md) => DownloadInfo::MetadataOnly(dup_metadata(md)),
        DownloadInfo::Full(f) => DownloadInfo::Full(
            FullDownloadInfo { metadata: dup_metadata(&f.metadata), progress: f.progress },
        ),
    }
}

// ---------------------------------------------------------------------------
// The aggregator's state: one record per process id.

/// An index of `s` holding the key `pid`.
pub open spec fn has_key(s: Seq<(ProcessId, DownloadInfo)>, pid: ProcessId) -> bool {
    exists|i: int| 0 <= i < s.len() && s[i].0 == pid
}

/// The index of the entry holding `pid`; meaningful under [`entries_wf`]
/// when [`has_key`] holds.
pub open spec fn key_index(s: Seq<(ProcessId, DownloadInfo)>, pid: ProcessId) -> int {
    choose|i: int| 0 <= i < s.len() && s[i].0 == pid
}

/// No process id occurs twice.
pub open spec fn entries_wf(s: Seq<(ProcessId, DownloadInfo)>) -> bool {
    forall|i: int, j: int| 0 <= i < j < s.len() ==> s[i].0 != s[j].0
}

/// The map the entry list denotes.
pub open spec fn map_of_entries(s: Seq<(ProcessId, DownloadInfo)>) -> Map<ProcessId, InfoModel> {
    Map::new(|pid: ProcessId| has_key(s, pid), |pid: ProcessId| s[key_index(s, pid)].1@)
}

proof fn lemma_key_index(s: Seq<(ProcessId, DownloadInfo)>, pid: ProcessId)
    requires
        entries_wf(s),
        has_key(s, pid),
    ensures
        0 <= key_index(s, pid) < s.len(),
        s[key_index(s, pid)].0 == pid,
        forall|i: int| 0 <= i < s.len() && s[i].0 == pid ==> i == key_index(s, pid),
{
    let ki = key_index(s, pid);
    assert(0 <= ki < s.len() && s[ki].0 == pid);
    assert forall|i: int| 0 <= i < s.len() && s[i].0 == pid implies i == ki by {
        if i < ki {
            assert(s[i].0 != s[ki].0);
        } else if i > ki {
            assert(s[ki].0 != s[i].0);
        }
    }
}

/// The whole state of the aggregation daemon: the records of every download
/// currently tracked, keyed by process id.
pub struct AggregatorState {
    pub entries: Vec<(ProcessId, DownloadInfo)>,
}

impl View for AggregatorState {
    type V = Map<ProcessId, InfoModel>;

    open spec fn view(&self) -> Map<ProcessId, InfoModel> {
        map_of_entries(self.entries@)
    }
}

impl AggregatorState {
    /// One record per process id.
    pub open spec fn wf(&self) -> bool {
        entries_wf(self.entries@)
    }

    /// An empty state: nothing is tracked.
    pub fn new() -> (s: Self)
        ensures
            s.wf(),
            s@ == Map::<ProcessId, InfoModel>::empty(),
            s.entries@.len() == 0,
    {
        let s = AggregatorState { entries: Vec::new() };
        proof {
            assert(s@ =~= Map::<ProcessId, InfoModel>::empty());
        }
        s
    }

    /// The index of the record of `pid`, if one is tracked.
    fn find(&self, pid: ProcessId) -> (r: Option<usize>)
        ensures
            match r {
                Some(i) => i < self.entries@.len() && self.entries@[i as int].0 == pid,
                None => !has_key(self.entries@, pid),
            },
    {
        let mut i: usize = 0;
        let n = self.entries.len();
        while i < n
            invariant
                i <= n,
                n == self.entries@.len(),
                forall|j: int| 0 <= j < i ==> self.entries@[j].0 != pid,
            decreases n - i,
        {
            if self.entries[i].0 == pid {
                return Some(i);
            }
            i += 1;
        }
        None
    }

    /// Removes and hands back the record of `pid`, if one is tracked.
    fn take_record(&mut self, pid: ProcessId) -> (r: Option<DownloadInfo>)
        requires
            old(self).wf(),
        ensures
            final(self).wf(),
            final(self)@ == old(self)@.remove(pid),
            match r {
                Some(info) => old(self)@.contains_key(pid) && info@ == old(self)@[pid],
                None => !old(self)@.contains_key(pid),
            },
    {
        match self.find(pid) {
            None => {
                proof {
                    assert(self@ =~= old(self)@.remove(pid));
                }
                None
            },
            Some(i) => {
                let entry = self.entries.remove(i);
                proof {
                    assert(has_key(old(self).entries@, pid));
                    lemma_remove_entry(old(self).entries@, i as int);
                    lemma_key_index(old(self).entries@, pid);
                    assert(key_index(old(self).entries@, pid) == i as int);
                }
                Some(entry.1)
            },
        }
    }

    /// Stores `info` as the record of `pid`, replacing any previous one.
    fn put_record(&mut self, pid: ProcessId, info: DownloadInfo)
        requires
            old(self).wf(),
        ensures
            final(self).wf(),
            final(self)@ == old(self)@.insert(pid, info@),
    {
        match self.find(pid) {
            Some(i) => {
                self.entries.set(i, (pid, info));
                proof {
                    lemma_set_entry(old(self).entries@, i as int, self.entries@[i as int]);
                }
            },
            None => {
                self.entries.push((pid, info));
                proof {
                    lemma_push_entry(
                        old(self).entries@,
                        self.entries@[old(self).entries@.len() as int],
                    );
                }
            },
        }
    }
}

proof fn lemma_remove_entry(s: Seq<(ProcessId, DownloadInfo)>, i: int)
    requires
        entries_wf(s),
        0 <= i < s.len(),
    ensures
        entries_wf(s.remove(i)),
        map_of_entries(s.remove(i)) == map_of_entries(s).remove(s[i].0),
{
    let t = s.remove(i);
    let pid = s[i].0;
    assert forall|a: int, b: int| 0 <= a < b < t.len() implies t[a].0 != t[b].0 by {
        let a0 = if a < i {
            a
        } else {
            a + 1
        };
        let b0 = if b < i {
            b
        } else {
            b + 1
        };
        assert(t[a] == s[a0] && t[b] == s[b0]);
        assert(0 <= a0 < b0 < s.len());
    }
    assert forall|q: ProcessId| has_key(t, q) implies has_key(s, q) && q != pid by {
        let j = choose|j: int| 0 <= j < t.len() && t[j].0 == q;
        let j0 = if j < i {
            j
        } else {
            j + 1
        };
        assert(t[j] == s[j0]);
        assert(s[j0].0 == q);
        if q == pid {
            assert(s[i].0 == q && j0 != i);
            assert(false);
        }
    }
    assert forall|q: ProcessId| has_key(s, q) && q != pid implies has_key(t, q) by {
        lemma_key_index(s, q);
        let j0 = key_index(s, q);
        assert(j0 != i);
        let j = if j0 < i {
            j0
        } else {
            j0 - 1
        };
        assert(t[j] == s[j0]);
        assert(0 <= j < t.len() && t[j].0 == q);
    }
    assert forall|q: ProcessId| has_key(t, q) implies t[key_index(t, q)].1@ == s[key_index(
        s,
        q,
    )].1@ by {
        lemma_key_index(t, q);
        lemma_key_index(s, q);
        let j = key_index(t, q);
        let j0 = if j < i {
            j
        } else {
            j + 1
        };
        assert(t[j] == s[j0]);
        assert(s[j0].0 == q);
        assert(j0 == key_index(s, q));
    }
    assert(map_of_entries(t) =~= map_of_entries(s).remove(pid));
}

proof fn lemma_set_entry(s: Seq<(ProcessId, DownloadInfo)>, i: int, e: (ProcessId, DownloadInfo))
    requires
        entries_wf(s),
        0 <= i < s.len(),
        e.0 == s[i].0,
    ensures
        entries_wf(s.update(i, e)),
        map_of_entries(s.update(i, e)) == map_of_entries(s).insert(e.0, e.1@),
{
    let t = s.update(i, e);
    assert forall|a: int, b: int| 0 <= a < b < t.len() implies t[a].0 != t[b].0 by {
        assert(t[a].0 == s[a].0 && t[b].0 == s[b].0);
    }
    assert forall|q: ProcessId| has_key(t, q) implies has_key(s, q) by {
        let j = choose|j: int| 0 <= j < t.len() && t[j].0 == q;
        assert(s[j].0 == q);
    }
    assert forall|q: ProcessId| has_key(s, q) implies has_key(t, q) by {
        let j = choose|j: int| 0 <= j < s.len() && s[j].0 == q;
        assert(t[j].0 == q);
    }
    assert forall|q: ProcessId| has_key(t, q) implies t[key_index(t, q)].1@ == (if q == e.0 {
        e.1@
    } else {
        s[key_index(s, q)].1@
    }) by {
        lemma_key_index(t, q);
        lemma_key_index(s, q);
        let j = key_index(t, q);
        if q == e.0 {
            assert(j == i);
        } else {
            assert(j != i);
            assert(t[j] == s[j]);
            assert(j == key_index(s, q));
        }
    }
    assert(has_key(t, e.0));
    assert(map_of_entries(t) =~= map_of_entries(s).insert(e.0, e.1@));
}

proof fn lemma_push_entry(s: Seq<(ProcessId, DownloadInfo)>, e: (ProcessId, DownloadInfo))
    requires
        entries_wf(s),
        !has_key(s, e.0),
    ensures
        entries_wf(s.push(e)),
        map_of_entries(s.push(e)) == map_of_entries(s).insert(e.0, e.1@),
{
    let t = s.push(e);
    assert forall|a: int, b: int| 0 <= a < b < t.len() implies t[a].0 != t[b].0 by {
        if b == s.len() {
            assert(t[a] == s[a] && t[b] == e);
            if s[a].0 == e.0 {
                assert(has_key(s, e.0));
            }
        } else {
            assert(t[a] == s[a] && t[b] == s[b]);
        }
    }
    assert forall|q: ProcessId| has_key(t, q) implies has_key(s, q) || q == e.0 by {
        let j = choose|j: int| 0 <= j < t.len() && t[j].0 == q;
        if j < s.len() {
            assert(s[j].0 == q);
        } else {
            assert(t[j] == e);
        }
    }
    assert forall|q: ProcessId| has_key(s, q) implies has_key(t, q) by {
        let j = choose|j: int| 0 <= j < s.len() && s[j].0 == q;
        assert(t[j].0 == q);
    }
    assert(t[s.len() as int] == e);
    assert(has_key(t, e.0));
    assert forall|q: ProcessId| has_key(t, q) implies t[key_index(t, q)].1@ == (if q == e.0 {
        e.1@
    } else {
        s[key_index(s, q)].1@
    }) by {
        lemma_key_index(t, q);
        let j = key_index(t, q);
        if q == e.0 {
            if j < s.len() {
                assert(s[j].0 == q);
                assert(has_key(s, e.0));
                assert(false);
            }
            assert(t[j] == e);
        } else {
            assert(j < s.len());
            assert(t[j] == s[j]);
            assert(has_key(s, q));
            lemma_key_index(s, q);
        }
    }
    assert(map_of_entries(t) =~= map_of_entries(s).insert(e.0, e.1@));
}

// ---------------------------------------------------------------------------
// The transition rules, stated over models.

/// What one transition leaves behind for the process id it concerns, and
/// whether it is rejected.
pub struct StepModel {
    pub info: Option<InfoModel>,
    pub err: Option<AggregatorError>,
}

/// The record of `pid`, if the map tracks one.
pub open spec fn map_at(m: Map<ProcessId, InfoModel>, pid: ProcessId) -> Option<InfoModel> {
    if m.contains_key(pid) {
        Some(m[pid])
    } else {
        None
    }
}

/// The transition table: from the current record of a process id (if any)
/// and one payload to the record afterwards and the rejection, if one.
///
/// Mirroring the remove-then-check discipline of the stage checks, a payload
/// that arrives at the wrong stage evicts the record it hit.  A fresh URL
/// overwrites whatever was tracked.  Playlist events are recognized but
/// unsupported: they leave the record untouched.
pub open spec fn spec_step(cur: Option<InfoModel>, payload: PayloadModel) -> StepModel {
    match payload {
        PayloadModel::Exited(code) => StepModel {
            info: None,
            err: if code != 0 {
                Some(AggregatorError::ProcessFailed(code))
            } else {
                None
            },
        },
        PayloadModel::Line(line) => match line {
            LineModel::VideoUrl(url) => StepModel {
                info: Some(InfoModel::UrlOnly(url)),
                err: None,
            },
            LineModel::VideoDownloadPath(path) => match cur {
                None => StepModel { info: None, err: Some(AggregatorError::NotTracked(EventKind::Path)) },
                Some(InfoModel::UrlOnly(url)) => match title_model(path) {
                    Some(title) => StepModel {
                        info: Some(InfoModel::MetadataOnly(MetadataModel { url, path, title })),
                        err: None,
                    },
                    None => StepModel { info: None, err: Some(AggregatorError::InvalidPath) },
                },
                Some(_) => StepModel {
                    info: None,
                    err: Some(AggregatorError::OutOfOrder(EventKind::Path)),
                },
            },
            LineModel::VideoDownloadProgress(pr) => match cur {
                None => StepModel {
                    info: None,
                    err: Some(AggregatorError::NotTracked(EventKind::Progress)),
                },
                Some(InfoModel::UrlOnly(_)) => StepModel {
                    info: None,
                    err: Some(AggregatorError::OutOfOrder(EventKind::Progress)),
                },
                Some(InfoModel::MetadataOnly(md)) => StepModel {
                    info: Some(InfoModel::Full(FullModel { metadata: md, progress: pr })),
                    err: None,
                },
                Some(InfoModel::Full(f)) => StepModel {
                    info: Some(InfoModel::Full(FullModel { metadata: f.metadata, progress: pr })),
                    err: None,
                },
            },
            LineModel::VideoDownloadDone => match cur {
                None => StepModel {
                    info: None,
                    err: Some(AggregatorError::NotTracked(EventKind::Done)),
                },
                Some(InfoModel::Full(f)) => StepModel {
                    info: Some(
                        InfoModel::Full(
                            FullModel {
                                metadata: f.metadata,
                                progress: completed_progress(f.progress),
                            },
                        ),
                    ),
                    err: None,
                },
                Some(_) => StepModel {
                    info: None,
                    err: Some(AggregatorError::OutOfOrder(EventKind::Done)),
                },
            },
            LineModel::VideoDownloadError(_) => StepModel { info: None, err: None },
            LineModel::VideoExtractAudio(_) => match cur {
                None => StepModel {
                    info: None,
                    err: Some(AggregatorError::NotTracked(EventKind::ExtractAudio)),
                },
                Some(InfoModel::Full(f)) => if progress_is_completed(f.progress) {
                    StepModel {
                        info: Some(
                            InfoModel::Full(
                                FullModel { metadata: f.metadata, progress: Progress::Extracting },
                            ),
                        ),
                        err: None,
                    }
                } else {
                    StepModel { info: None, err: Some(AggregatorError::ExtractBeforeCompletion) }
                },
                Some(_) => StepModel {
                    info: None,
                    err: Some(AggregatorError::OutOfOrder(EventKind::ExtractAudio)),
                },
            },
            LineModel::PlaylistUrl(_) => StepModel {
                info: cur,
                err: Some(AggregatorError::UnsupportedPlaylistEvent),
            },
            LineModel::PlaylistName(_) => StepModel {
                info: cur,
                err: Some(AggregatorError::UnsupportedPlaylistEvent),
            },
            LineModel::PlaylistVideoCount(_) => StepModel {
                info: cur,
                err: Some(AggregatorError::UnsupportedPlaylistEvent),
            },
            LineModel::PlaylistVideoIndex(_) => StepModel {
                info: cur,
                err: Some(AggregatorError::UnsupportedPlaylistEvent),
            },
            LineModel::PlaylistDownloadDone => StepModel {
                info: cur,
                err: Some(AggregatorError::UnsupportedPlaylistEvent),
            },
        },
    }
}

/// The map after one process message: the record of its process id steps,
/// every other record stays.
pub open spec fn spec_apply(m: Map<ProcessId, InfoModel>, msg: ProcessMessageModel) -> Map<
    ProcessId,
    InfoModel,
> {
    let st = spec_step(map_at(m, msg.pid), msg.payload);
    match st.info {
        Some(info) => m.insert(msg.pid, info),
        None => m.remove(msg.pid),
    }
}

/// What one process message reports back: accepted, or the rejection the
/// transition table gives it.
pub open spec fn spec_outcome(m: Map<ProcessId, InfoModel>, msg: ProcessMessageModel) -> Result<
    (),
    AggregatorError,
> {
    let st = spec_step(map_at(m, msg.pid), msg.payload);
    match st.err {
        Some(e) => Err(e),
        None => Ok(()),
    }
}

/// Applies one process message to the state: exactly one record steps
/// through the transition table of [`spec_step`], and a rejection never
/// changes any other record.
pub fn handle_download_process_message(
    state: &mut AggregatorState,
    message: DownloadProcessMessage,
) -> (r: Result<(), AggregatorError>)
    requires
        old(state).wf(),
    ensures
        final(state).wf(),
        final(state)@ == spec_apply(old(state)@, message@),
        r == spec_outcome(old(state)@, message@),
{
    let DownloadProcessMessage { pid, payload } = message;
    match payload {
        MessagePayload::ProcessExited(code) => {
            let _ = state.take_record(pid);
            if code != 0 {
                Err(AggregatorError::ProcessFailed(code))
            } else {
                Ok(())
            }
        },
        MessagePayload::YtdlLine(line) => match line {
            YtdlLine::VideoUrl(url) => {
                state.put_record(pid, DownloadInfo::UrlOnly(UrlOnly { url }));
                Ok(())
            },
            YtdlLine::VideoDownloadPath(path) => match state.take_record(pid) {
                None => Err(AggregatorError::NotTracked(EventKind::Path)),
                Some(DownloadInfo::UrlOnly(u)) => match u.create_metadata(path) {
                    Ok(md) => {
                        state.put_record(pid, DownloadInfo::MetadataOnly(md));
                        proof {
                            lemma_remove_insert(old(state)@, pid);
                        }
                        Ok(())
                    },
                    Err(e) => Err(e),
                },
                Some(_) => Err(AggregatorError::OutOfOrder(EventKind::Path)),
            },
            YtdlLine::VideoDownloadProgress(pr) => match state.take_record(pid) {
                None => Err(AggregatorError::NotTracked(EventKind::Progress)),
                Some(DownloadInfo::UrlOnly(_)) => Err(
                    AggregatorError::OutOfOrder(EventKind::Progress),
                ),
                Some(DownloadInfo::MetadataOnly(md)) => {
                    let full = md.create_full_download_info(pr);
                    state.put_record(pid, DownloadInfo::Full(full));
                    proof {
                        lemma_remove_insert(old(state)@, pid);
                    }
                    Ok(())
                },
                Some(DownloadInfo::Full(mut full)) => {
                    full.update_progress(pr);
                    state.put_record(pid, DownloadInfo::Full(full));
                    proof {
                        lemma_remove_insert(old(state)@, pid);
                    }
                    Ok(())
                },
            },
            YtdlLine::VideoDownloadDone => match state.take_record(pid) {
                None => Err(AggregatorError::NotTracked(EventKind::Done)),
                Some(DownloadInfo::Full(mut full)) => {
                    full.set_as_completed();
                    state.put_record(pid, DownloadInfo::Full(full));
                    proof {
                        lemma_remove_insert(old(state)@, pid);
                    }
                    Ok(())
                },
                Some(_) => Err(AggregatorError::OutOfOrder(EventKind::Done)),
            },
            YtdlLine::VideoDownloadError(_) => {
                let _ = state.take_record(pid);
                Ok(())
            },
            YtdlLine::VideoExtractAudio(_) => match state.take_record(pid) {
                None => Err(AggregatorError::NotTracked(EventKind::ExtractAudio)),
                Some(DownloadInfo::Full(mut full)) => {
                    if full.is_completed() {
                        full.set_as_extracting();
                        state.put_record(pid, DownloadInfo::Full(full));
                        proof {
                            lemma_remove_insert(old(state)@, pid);
                        }
                        Ok(())
                    } else {
                        Err(AggregatorError::ExtractBeforeCompletion)
                    }
                },
                Some(_) => Err(AggregatorError::OutOfOrder(EventKind::ExtractAudio)),
            },
            YtdlLine::PlaylistUrl(_) => {
                proof {
                    lemma_untouched(old(state)@, pid);
                }
                Err(AggregatorError::UnsupportedPlaylistEvent)
            },
            YtdlLine::PlaylistName(_) => {
                proof {
                    lemma_untouched(old(state)@, pid);
                }
                Err(AggregatorError::UnsupportedPlaylistEvent)
            },
            YtdlLine::PlaylistVideoCount(_) => {
                proof {
                    lemma_untouched(old(state)@, pid);
                }
                Err(AggregatorError::UnsupportedPlaylistEvent)
            },
            YtdlLine::PlaylistVideoIndex(_) => {
                proof {
                    lemma_untouched(old(state)@, pid);
                }
                Err(AggregatorError::UnsupportedPlaylistEvent)
            },
            YtdlLine::PlaylistDownloadDone => {
                proof {
                    lemma_untouched(old(state)@, pid);
                }
                Err(AggregatorError::UnsupportedPlaylistEvent)
            },
        },
    }
}

/// Removing a key and inserting it again is the same as inserting over it.
proof fn lemma_remove_insert(m: Map<ProcessId, InfoModel>, pid: ProcessId)
    ensures
        forall|v: InfoModel| #[trigger] m.remove(pid).insert(pid, v) == m.insert(pid, v),
{
    assert forall|v: InfoModel| #[trigger] m.remove(pid).insert(pid, v) == m.insert(pid, v) by {
        assert(m.remove(pid).insert(pid, v) =~= m.insert(pid, v));
    }
}

/// A map is unchanged both by re-inserting a tracked record and by removing
/// an untracked one.
proof fn lemma_untouched(m: Map<ProcessId, InfoModel>, pid: ProcessId)
    ensures
        m.contains_key(pid) ==> m.insert(pid, m[pid]) == m,
        !m.contains_key(pid) ==> m.remove(pid) == m,
{
    if m.contains_key(pid) {
        assert(m.insert(pid, m[pid]) =~= m);
    } else {
        assert(m.remove(pid) =~= m);
    }
}

// ---------------------------------------------------------------------------
// Queries and the envelope dispatcher.

/// What a query reports: every tracked record, in the order the state holds
/// them.
pub open spec fn spec_snapshot(s: AggregatorState) -> Seq<(ProcessId, InfoModel)> {
    s.entries@.map(|i: int, e: (ProcessId, DownloadInfo)| (e.0, e.1@))
}

/// Answers a snapshot query: an exact copy of every tracked record.  The
/// state itself is only read.
pub fn handle_query_message(state: &AggregatorState) -> (snap: Vec<(ProcessId, DownloadInfo)>)
    ensures
        snap@.len() == spec_snapshot(*state).len(),
        forall|i: int|
            0 <= i < snap@.len() ==> (snap@[i].0, snap@[i].1@) == spec_snapshot(*state)[i],
{
    let n = state.entries.len();
    let mut snap: Vec<(ProcessId, DownloadInfo)> = Vec::new();
    let mut i: usize = 0;
    while i < n
        invariant
            i <= n,
            n == state.entries@.len(),
            snap@.len() == i,
            forall|j: int|
                0 <= j < i ==> (snap@[j].0, snap@[j].1@) == (
                    state.entries@[j].0,
                    state.entries@[j].1@,
                ),
        decreases n - i,
    {
        let entry = &state.entries[i];
        snap.push((entry.0, dup_info(&entry.1)));
        i += 1;
    }
    snap
}

/// What the dispatcher did with one envelope: answered a query with a
/// snapshot, applied a process message, or rejected one.
#[derive(Debug)]
pub enum MessageOutcome {
    Snapshot(Vec<(ProcessId, DownloadInfo)>),
    Applied,
    Rejected(AggregatorError),
}

/// Dispatches one received envelope: a query reads the state and reports
/// every record; a process message steps exactly one record through the
/// transition table.
pub fn handle_message(state: &mut AggregatorState, message: Message) -> (r: MessageOutcome)
    requires
        old(state).wf(),
    ensures
        final(state).wf(),
        match (r, message@) {
            (MessageOutcome::Snapshot(snap), MessageModel::Query) => {
                &&& *final(state) == *old(state)
                &&& snap@.len() == spec_snapshot(*old(state)).len()
                &&& forall|i: int|
                    0 <= i < snap@.len() ==> (snap@[i].0, snap@[i].1@) == spec_snapshot(
                        *old(state),
                    )[i]
            },
            (MessageOutcome::Applied, MessageModel::Process(pm)) => {
                &&& final(state)@ == spec_apply(old(state)@, pm)
                &&& spec_outcome(old(state)@, pm) == Ok::<(), AggregatorError>(())
            },
            (MessageOutcome::Rejected(e), MessageModel::Process(pm)) => {
                &&& final(state)@ == spec_apply(old(state)@, pm)
                &&& spec_outcome(old(state)@, pm) == Err::<(), AggregatorError>(e)
            },
            _ => false,
        },
{
    match message {
        Message::QueryMessage => MessageOutcome::Snapshot(handle_query_message(state)),
        Message::DownloadProcessMessage(m) => match handle_download_process_message(state, m) {
            Ok(_) => MessageOutcome::Applied,
            Err(e) => MessageOutcome::Rejected(e),
        },
    }
}

// ---------------------------------------------------------------------------
// Laws of the transition system.

/// The state after a whole sequence of process messages.
pub open spec fn spec_apply_all(
    m: Map<ProcessId, InfoModel>,
    msgs: Seq<ProcessMessageModel>,
) -> Map<ProcessId, InfoModel>
    decreases msgs.len()
{
    if msgs.len() == 0 {
        m
    } else {
        spec_apply(spec_apply_all(m, msgs.drop_last()), msgs.last())
    }
}

/// The subsequence of messages that carry the given process id, in order.
pub open spec fn msgs_for(msgs: Seq<ProcessMessageModel>, pid: ProcessId) -> Seq<
    ProcessMessageModel,
>
    decreases msgs.len()
{
    if msgs.len() == 0 {
        Seq::empty()
    } else {
        let pre = msgs_for(msgs.drop_last(), pid);
        if msgs.last().pid == pid {
            pre.push(msgs.last())
        } else {
            pre
        }
    }
}

/// One process message never changes the record of any other process id.
pub proof fn lemma_apply_frames_others(
    m: Map<ProcessId, InfoModel>,
    msg: ProcessMessageModel,
    q: ProcessId,
)
    requires
        q != msg.pid,
    ensures
        map_at(spec_apply(m, msg), q) == map_at(m, q),
{
}

/// The record a process message leaves for its own process id is what the
/// transition table says, and it depends only on that record and the
/// payload.
pub proof fn lemma_apply_local(m: Map<ProcessId, InfoModel>, msg: ProcessMessageModel)
    ensures
        map_at(spec_apply(m, msg), msg.pid) == spec_step(map_at(m, msg.pid), msg.payload).info,
{
}

/// Interleaving independence: after any sequence of process messages, the
/// record of a process id is exactly what its own messages alone, in their
/// order, would have produced.  Messages of other process ids may be
/// interleaved arbitrarily without changing it.
pub proof fn lemma_interleaving_independent(
    m: Map<ProcessId, InfoModel>,
    msgs: Seq<ProcessMessageModel>,
    pid: ProcessId,
)
    ensures
        map_at(spec_apply_all(m, msgs), pid) == map_at(
            spec_apply_all(m, msgs_for(msgs, pid)),
            pid,
        ),
    decreases msgs.len(),
{
    if msgs.len() > 0 {
        let pre = msgs.drop_last();
        let last = msgs.last();
        lemma_interleaving_independent(m, pre, pid);
        if last.pid == pid {
            let own_pre = msgs_for(pre, pid);
            assert(msgs_for(msgs, pid) == own_pre.push(last));
            assert(own_pre.push(last).drop_last() == own_pre);
            assert(own_pre.push(last).last() == last);
            lemma_apply_local(spec_apply_all(m, pre), last);
            lemma_apply_local(spec_apply_all(m, own_pre), last);
        } else {
            assert(msgs_for(msgs, pid) == msgs_for(pre, pid));
            lemma_apply_frames_others(spec_apply_all(m, pre), last, pid);
        }
    }
}

/// Out-of-order rejection: a path event for an untracked process id is
/// rejected and inserts no record.
pub proof fn lemma_untracked_path_rejected(
    m: Map<ProcessId, InfoModel>,
    pid: ProcessId,
    path: Seq<char>,
)
    requires
        !m.contains_key(pid),
    ensures
        ({
            let msg = ProcessMessageModel {
                pid,
                payload: PayloadModel::Line(LineModel::VideoDownloadPath(path)),
            };
            &&& spec_apply(m, msg) == m
            &&& spec_outcome(m, msg) == Err::<(), AggregatorError>(
                AggregatorError::NotTracked(EventKind::Path),
            )
        }),
{
    assert(m.remove(pid) =~= m);
}

/// What a query leaves behind and reports, stated over the state value.
pub open spec fn spec_query(s: AggregatorState) -> (AggregatorState, Seq<(ProcessId, InfoModel)>) {
    (s, spec_snapshot(s))
}

/// Query idempotence: a query leaves the state exactly as it found it, so a
/// second query with no process message in between reports the same
/// snapshot.
pub proof fn lemma_query_idempotent(s: AggregatorState)
    ensures
        ({
            let (s1, r1) = spec_query(s);
            let (s2, r2) = spec_query(s1);
            &&& s1 == s
            &&& s2 == s
            &&& r1 == r2
        }),
{
}

} // verus!

