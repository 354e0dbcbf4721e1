//! File-change filtering and debouncing.
//!
//! Raw filesystem notifications arrive as operation/path pairs. An event
//! qualifies when it indicates a content mutation, its path's extension is on
//! the allow-list (if one is configured), and the path is not ignored by the
//! version-control collaborator (unless that check is disabled). After an
//! accepted event emits a trigger, every raw event inside the debounce window
//! is discarded, so one logical save fires at most once.
//!
//! Paths are handled as their raw bytes, with `/` separating components. The
//! version-control query runs outside this library; its outcome is handed in
//! as a [`VcsQueryOutcome`] and only interpreted here.

use vstd::prelude::*;
use vstd::slice::{slice_subrange, slice_to_vec};

verus! {

/// The path component separator.
pub const SEPARATOR: u8 = 47;

/// The extension separator, `.`.
pub const DOT: u8 = 46;

/// Options describing which files are watched and how their changes are
/// treated.
pub struct FileOptions {
    /// Paths to watch for changes, as raw path bytes.
    pub paths: Vec<Vec<u8>>,
    /// Duration in nanoseconds between an accepted change and the moment
    /// further raw events are processed again.
    pub debounce_nanos: u64,
    /// Only files with these extensions trigger execution; `None` allows any.
    pub extensions: Option<Vec<Vec<u8>>>,
    /// Include files excluded by the version-control system.
    pub no_git_ignore: bool,
}

/// Why a file event was suppressed. Used only for diagnostics.
#[derive(Clone, Copy, PartialEq, Eq, Structural, Debug)]
pub enum FilterReason {
    /// The path's extension is not on the configured allow-list.
    Extension,
    /// The path is ignored by the version-control system, or lies inside its
    /// metadata directory.
    GitIgnore,
}

/// Outcome of asking the version-control collaborator whether a path is
/// ignored.
#[derive(Clone, Copy, PartialEq, Eq, Structural, Debug)]
pub enum VcsQueryOutcome {
    /// The collaborator could not be invoked, or exited without a code.
    Unavailable,
    /// The collaborator exited with this code: `0` means ignored, `1` means
    /// not ignored, anything else is indeterminate.
    Exited(i32),
}

/// Whether the collaborator affirmatively reported the path as ignored.
/// Every other outcome — including failure to run it at all — counts as not
/// ignored (the check fails open).
pub open spec fn vcs_reports_ignored(outcome: VcsQueryOutcome) -> bool {
    outcome == VcsQueryOutcome::Exited(0)
}

/// No occurrence of `b` in `s` strictly after position `i`.
pub open spec fn no_byte_after(s: Seq<u8>, b: u8, i: int) -> bool {
    forall|k: int| i < k < s.len() ==> s[k] != b
}

/// Position `i` holds the last occurrence of `b` in `s`.
pub open spec fn is_last_byte_at(s: Seq<u8>, b: u8, i: int) -> bool {
    0 <= i < s.len() && s[i] == b && no_byte_after(s, b, i)
}

/// `b` occurs somewhere in `s`.
pub open spec fn has_byte(s: Seq<u8>, b: u8) -> bool {
    exists|i: int| 0 <= i < s.len() && s[i] == b
}

/// The position of the last occurrence of `b` in `s` (meaningful only when
/// `has_byte(s, b)`).
pub open spec fn last_byte_at(s: Seq<u8>, b: u8) -> int {
    choose|i: int| is_last_byte_at(s, b, i)
}

/// The last occurrence is unique.
pub proof fn lemma_last_byte_unique(s: Seq<u8>, b: u8, i: int, j: int)
    requires
        is_last_byte_at(s, b, i),
        is_last_byte_at(s, b, j),
    ensures
        i == j,
{
    if i < j {
        assert(s[j] == b);
        assert(false);
    }
    if j < i {
        assert(s[i] == b);
        assert(false);
    }
}

/// Wherever `b` occurs at all, a last occurrence exists.
pub proof fn lemma_has_byte_gives_last(s: Seq<u8>, b: u8)
    requires
        has_byte(s, b),
    ensures
        is_last_byte_at(s, b, last_byte_at(s, b)),
    decreases s.len(),
{
    if s[s.len() - 1] == b {
        assert(is_last_byte_at(s, b, s.len() - 1));
    } else {
        let w = choose|w: int| 0 <= w < s.len() && s[w] == b;
        assert(s.drop_last()[w] == b);
        assert(has_byte(s.drop_last(), b));
        lemma_has_byte_gives_last(s.drop_last(), b);
        let i = last_byte_at(s.drop_last(), b);
        assert(s[i] == b);
        assert forall|k: int| i < k < s.len() implies s[k] != b by {
            if k < s.len() - 1 {
                assert(s.drop_last()[k] != b);
            }
        }
        assert(is_last_byte_at(s, b, i));
    }
    assert(exists|i: int| is_last_byte_at(s, b, i));
}

/// The file name of a path: the bytes after the last separator, or the whole
/// path when it has none.
pub open spec fn file_name_of(p: Seq<u8>) -> Seq<u8> {
    if has_byte(p, SEPARATOR) {
        p.subrange(last_byte_at(p, SEPARATOR) + 1, p.len() as int)
    } else {
        p
    }
}

/// The extension of a path: the file name's bytes after its last `.`, where
/// that `.` must not be the name's first byte (a leading dot marks a hidden
/// file, not an extension). `None` when the name has no such dot; the bytes
/// are empty when the name ends in `.`.
pub open spec fn extension_of(p: Seq<u8>) -> Option<Seq<u8>> {
    let name = file_name_of(p);
    if exists|i: int| is_last_byte_at(name, DOT, i) && i >= 1 {
        Some(name.subrange(last_byte_at(name, DOT) + 1, name.len() as int))
    } else {
        None
    }
}

/// Finds the position of the last occurrence of `b` in `s`, if any.
fn last_index_of(s: &[u8], b: u8) -> (r: Option<usize>)
    ensures
        match r {
            Some(i) => is_last_byte_at(s@, b, i as int),
            None => !has_byte(s@, b),
        },
{
    let mut i: usize = s.len();
    while i > 0
        invariant
            i <= s@.len(),
            no_byte_after(s@, b, i - 1),
        decreases i,
    {
        i = i - 1;
        if s[i] == b {
            return Some(i);
        }
    }
    assert(forall|k: int| 0 <= k < s@.len() ==> s@[k] != b);
    None
}

/// Extracts the extension of a path given as raw bytes, as
/// [`extension_of`] defines it.
pub fn path_extension(path: &[u8]) -> (r: Option<Vec<u8>>)
    ensures
        r.is_some() == extension_of(path@).is_some(),
        r.is_some() ==> r.unwrap()@ == extension_of(path@).unwrap(),
{
    let n = path.len();
    let name_start: usize = match last_index_of(path, SEPARATOR) {
        Some(i) => {
            proof {
                lemma_has_byte_gives_last(path@, SEPARATOR);
                lemma_last_byte_unique(path@, SEPARATOR, i as int, last_byte_at(path@, SEPARATOR));
            }
            assert(i < n);
            i + 1
        },
        None => 0,
    };
    let name = slice_subrange(path, name_start, path.len());
    assert(name@ == file_name_of(path@));
    match last_index_of(name, DOT) {
        Some(i) if i >= 1 => {
            proof {
                lemma_has_byte_gives_last(name@, DOT);
                lemma_last_byte_unique(name@, DOT, i as int, last_byte_at(name@, DOT));
            }
            let ext = slice_subrange(name, i + 1, name.len());
            Some(slice_to_vec(ext))
        },
        Some(i) => {
            proof {
                if exists|k: int| is_last_byte_at(name@, DOT, k) && k >= 1 {
                    let k = choose|k: int| is_last_byte_at(name@, DOT, k) && k >= 1;
                    lemma_last_byte_unique(name@, DOT, i as int, k);
                }
            }
            None
        },
        None => {
            assert(forall|k: int| !is_last_byte_at(name@, DOT, k) || !(k >= 1)) by {
                assert(forall|k: int| is_last_byte_at(name@, DOT, k) ==> has_byte(name@, DOT));
            }
            None
        },
    }
}

/// The version-control metadata directory name, `.git`, as path bytes.
pub open spec fn vcs_dir_name() -> Seq<u8> {
    seq![DOT, 103u8, 105u8, 116u8]
}

/// `name` stands as a whole path component of `p` beginning at position `i`:
/// it is bounded by separators or by the path's ends.
pub open spec fn is_component_at(p: Seq<u8>, name: Seq<u8>, i: int) -> bool {
    &&& 0 <= i
    &&& i + name.len() <= p.len()
    &&& p.subrange(i, i + name.len() as int) == name
    &&& (i == 0 || p[i - 1] == SEPARATOR)
    &&& (i + name.len() == p.len() || p[i + name.len() as int] == SEPARATOR)
}

/// `name` is one of `p`'s path components.
pub open spec fn has_component(p: Seq<u8>, name: Seq<u8>) -> bool {
    exists|i: int| is_component_at(p, name, i)
}

/// Whether any component of the path is the version-control metadata
/// directory `.git`. Changes under it never concern the watched sources.
pub fn contains_git_dir(path: &[u8]) -> (r: bool)
    ensures
        r == has_component(path@, vcs_dir_name()),
{
    if path.len() < 4 {
        assert(forall|i: int| !is_component_at(path@, vcs_dir_name(), i));
        return false;
    }
    let mut i: usize = 0;
    while i <= path.len() - 4
        invariant
            path@.len() >= 4,
            i <= path@.len(),
            forall|j: int| 0 <= j < i ==> !is_component_at(path@, vcs_dir_name(), j),
        decreases path@.len() - i,
    {
        let starts_ok = i == 0 || path[i - 1] == SEPARATOR;
        let ends_ok = i + 4 == path.len() || path[i + 4] == SEPARATOR;
        let named_ok = path[i] == DOT && path[i + 1] == 103 && path[i + 2] == 105 && path[i + 3]
            == 116;
        if starts_ok && ends_ok && named_ok {
            assert(path@.subrange(i as int, i + 4) =~= vcs_dir_name());
            assert(is_component_at(path@, vcs_dir_name(), i as int));
            return true;
        }
        proof {
            if is_component_at(path@, vcs_dir_name(), i as int) {
                assert(path@.subrange(i as int, i + 4)[0] == path@[i as int]);
                assert(path@.subrange(i as int, i + 4)[1] == path@[i + 1]);
                assert(path@.subrange(i as int, i + 4)[2] == path@[i + 2]);
                assert(path@.subrange(i as int, i + 4)[3] == path@[i + 3]);
            }
        }
        i = i + 1;
    }
    assert(forall|j: int| i <= j ==> !is_component_at(path@, vcs_dir_name(), j));
    false
}

/// Whether a path's extension passes an allow-list: with no list configured
/// every path passes; with one, the path must have an extension and it must
/// be a member.
pub open spec fn extension_allowed(exts: Option<Seq<Seq<u8>>>, path: Seq<u8>) -> bool {
    match exts {
        None => true,
        Some(list) => match extension_of(path) {
            Some(e) => list.contains(e),
            None => false,
        },
    }
}

/// The filter's verdict on one changed path, given the version-control
/// collaborator's answer for it: the extension check comes first, then —
/// only when ignore-respect is enabled — the metadata-directory check and
/// the collaborator's report.
pub open spec fn filter_verdict(
    exts: Option<Seq<Seq<u8>>>,
    git_ignore: bool,
    path: Seq<u8>,
    vcs: VcsQueryOutcome,
) -> Result<(), FilterReason> {
    if !extension_allowed(exts, path) {
        Err(FilterReason::Extension)
    } else if git_ignore && (has_component(path, vcs_dir_name()) || vcs_reports_ignored(vcs)) {
        Err(FilterReason::GitIgnore)
    } else {
        Ok(())
    }
}

/// Decides which changed paths qualify to trigger execution.
pub struct FileFilter {
    /// Only allow these specific extensions, or anything.
    pub extensions: Option<Vec<Vec<u8>>>,
    /// Files ignored by the version-control system should be respected.
    pub git_ignore: bool,
}

impl FileFilter {
    /// The configured allow-list, as the byte sequences of its entries.
    pub open spec fn allowed_extensions(self) -> Option<Seq<Seq<u8>>> {
        match self.extensions {
            Some(list) => Some(Seq::new(list@.len(), |i: int| list@[i]@)),
            None => None,
        }
    }

    /// Builds the filter from the file options: it keeps the extension
    /// allow-list as given and respects version-control ignores unless they
    /// were switched off.
    pub fn from_args(options: FileOptions) -> (f: FileFilter)
        ensures
            f.extensions == options.extensions,
            f.git_ignore == !options.no_git_ignore,
    {
        FileFilter { extensions: options.extensions, git_ignore: !options.no_git_ignore }
    }

    /// Checks the path against the extension allow-list: `Ok` exactly when
    /// the extension is allowed, `Err(Extension)` otherwise.
    pub fn check_extension(&self, path: &[u8]) -> (r: Result<(), FilterReason>)
        ensures
            r == (if extension_allowed(self.allowed_extensions(), path@) {
                Result::<(), FilterReason>::Ok(())
            } else {
                Result::<(), FilterReason>::Err(FilterReason::Extension)
            }),
    {
        let list = match &self.extensions {
            None => {
                return Ok(());
            },
            Some(list) => list,
        };
        let ext = match path_extension(path) {
            None => {
                return Err(FilterReason::Extension);
            },
            Some(ext) => ext,
        };
        let ghost entries = self.allowed_extensions().unwrap();
        let mut k: usize = 0;
        while k < list.len()
            invariant
                k <= list@.len(),
                entries == Seq::new(list@.len(), |i: int| list@[i]@),
                self.allowed_extensions() == Some(entries),
                extension_of(path@) == Some(ext@),
                forall|j: int| 0 <= j < k ==> entries[j] != ext@,
            decreases list@.len() - k,
        {
            if bytes_equal(list[k].as_slice(), ext.as_slice()) {
                assert(entries[k as int] == ext@);
                assert(entries.contains(ext@));
                return Ok(());
            }
            k = k + 1;
        }
        assert(!entries.contains(ext@));
        Err(FilterReason::Extension)
    }

    /// Checks the path against version-control ignores, `vcs` being the
    /// collaborator's answer for this path: `Err(GitIgnore)` exactly when
    /// ignore-respect is enabled and the path either lies in the metadata
    /// directory or was affirmatively reported ignored. Indeterminate and
    /// failed queries pass (the check fails open).
    pub fn check_git_ignore(&self, path: &[u8], vcs: VcsQueryOutcome) -> (r: Result<
        (),
        FilterReason,
    >)
        ensures
            r == (if self.git_ignore && (has_component(path@, vcs_dir_name())
                || vcs_reports_ignored(vcs)) {
                Result::<(), FilterReason>::Err(FilterReason::GitIgnore)
            } else {
                Result::<(), FilterReason>::Ok(())
            }),
    {
        if !self.git_ignore {
            return Ok(());
        }
        if contains_git_dir(path) {
            return Err(FilterReason::GitIgnore);
        }
        match vcs {
            VcsQueryOutcome::Exited(code) if code == 0 => Err(FilterReason::GitIgnore),
            _ => Ok(()),
        }
    }

    /// The filter's full verdict on one changed path: `Ok` when the change
    /// qualifies to trigger execution, otherwise the first reason it was
    /// suppressed.
    pub fn matches_path(&self, path: &[u8], vcs: VcsQueryOutcome) -> (r: Result<
        (),
        FilterReason,
    >)
        ensures
            r == filter_verdict(self.allowed_extensions(), self.git_ignore, path@, vcs),
    {
        let checked = self.check_extension(path);
        if checked.is_err() {
            return checked;
        }
        self.check_git_ignore(path, vcs)
    }

    /// Whether deciding this path requires asking the version-control
    /// collaborator at all: only a path that passes the extension check,
    /// with ignore-respect enabled, outside the metadata directory, needs
    /// the query.
    pub fn needs_vcs_query(&self, path: &[u8]) -> (r: bool)
        ensures
            r == (self.git_ignore && extension_allowed(self.allowed_extensions(), path@)
                && !has_component(path@, vcs_dir_name())),
    {
        self.git_ignore && self.check_extension(path).is_ok() && !contains_git_dir(path)
    }
}

/// Where no query is needed, the verdict does not depend on the
/// collaborator's answer: a caller that skips the query may pass any
/// outcome.
pub proof fn lemma_verdict_without_query(
    exts: Option<Seq<Seq<u8>>>,
    git_ignore: bool,
    path: Seq<u8>,
    a: VcsQueryOutcome,
    b: VcsQueryOutcome,
)
    requires
        !(git_ignore && extension_allowed(exts, path) && !has_component(path, vcs_dir_name())),
    ensures
        filter_verdict(exts, git_ignore, path, a) == filter_verdict(exts, git_ignore, path, b),
{
}

/// Extension law: a changed path passes the filter only when the allow-list
/// admits its extension (or none is configured), and with ignore-respect
/// disabled the extension alone decides.
pub proof fn lemma_extension_decides(
    exts: Option<Seq<Seq<u8>>>,
    git_ignore: bool,
    path: Seq<u8>,
    vcs: VcsQueryOutcome,
)
    ensures
        !extension_allowed(exts, path) ==> filter_verdict(exts, git_ignore, path, vcs)
            == Result::<(), FilterReason>::Err(FilterReason::Extension),
        (filter_verdict(exts, false, path, vcs) == Result::<(), FilterReason>::Ok(()))
            == extension_allowed(exts, path),
{
}

/// Ignore-respect law: when it is enabled and the collaborator reports a
/// path as ignored, the filter never passes a change to that path, so no
/// trigger is emitted for it.
pub proof fn lemma_vcs_ignored_is_suppressed(
    exts: Option<Seq<Seq<u8>>>,
    path: Seq<u8>,
    vcs: VcsQueryOutcome,
)
    requires
        vcs_reports_ignored(vcs),
    ensures
        filter_verdict(exts, true, path, vcs) != Result::<(), FilterReason>::Ok(()),
{
}

/// The kinds of operation a raw filesystem notification may carry, as
/// independent flags (one notification may combine several).
#[derive(Clone, Copy, PartialEq, Eq, Structural, Debug)]
pub struct EventOp {
    /// A file's contents were written.
    pub write: bool,
    /// A file or directory was created.
    pub create: bool,
    /// A file or directory was removed.
    pub remove: bool,
    /// A file or directory was renamed.
    pub rename: bool,
    /// A file's permissions or metadata changed.
    pub chmod: bool,
    /// A writable handle was closed; notice only, no content mutation.
    pub close_write: bool,
    /// The watcher asks for a rescan; notice only, no content mutation.
    pub rescan: bool,
}

/// One raw filesystem notification: the operation, when the watcher could
/// tell it, and the affected path, when it reported one.
pub struct RawFileEvent {
    /// The operation flags; `None` when the watcher reported an error
    /// instead of an operation.
    pub op: Option<EventOp>,
    /// The affected path, as raw path bytes.
    pub path: Option<Vec<u8>>,
}

/// Whether the operation indicates a content mutation. Notice-only and
/// rescan flags do not.
pub open spec fn op_is_mutation(op: EventOp) -> bool {
    op.write || op.create || op.remove || op.rename || op.chmod
}

/// The path a raw event reports as mutated: present exactly when the event
/// carries both a mutating operation and a path.
pub open spec fn mutated_path(op: Option<EventOp>, path: Option<Seq<u8>>) -> Option<Seq<u8>> {
    match op {
        Some(o) => if op_is_mutation(o) {
            path
        } else {
            None
        },
        None => None,
    }
}

/// The path bytes of an event's path field, if any.
pub open spec fn path_view(path: Option<Vec<u8>>) -> Option<Seq<u8>> {
    match path {
        Some(p) => Some(p@),
        None => None,
    }
}

/// Given a raw event, returns the path that has been modified (if any).
pub fn modified_file(event: RawFileEvent) -> (r: Option<Vec<u8>>)
    ensures
        path_view(r) == mutated_path(event.op, path_view(event.path)),
{
    match event.op {
        Some(o) => {
            if o.write || o.create || o.remove || o.rename || o.chmod {
                event.path
            } else {
                None
            }
        },
        None => None,
    }
}

/// Whether one raw event passes the whole filter: it must report a mutated
/// path and the filter's verdict on that path must be a pass.
pub open spec fn event_accepted(
    exts: Option<Seq<Seq<u8>>>,
    git_ignore: bool,
    op: Option<EventOp>,
    path: Option<Seq<u8>>,
    vcs: VcsQueryOutcome,
) -> bool {
    match mutated_path(op, path) {
        Some(p) => filter_verdict(exts, git_ignore, p, vcs) == Result::<(), FilterReason>::Ok(()),
        None => false,
    }
}

/// `a + b` capped at the largest representable instant.
pub open spec fn saturating_add_u64(a: u64, b: u64) -> u64 {
    if a + b > u64::MAX {
        u64::MAX
    } else {
        (a + b) as u64
    }
}

/// The debounce transition. The state is the deadline before which raw
/// events are discarded (`None` when no window is open); an event carries
/// its arrival instant and whether the filter accepted it. The result is the
/// next state paired with whether a trigger is emitted: inside an open
/// window nothing is emitted and the window stands; outside one, an accepted
/// event emits and opens a window of `window` nanoseconds from its arrival.
pub open spec fn debounce_step(deadline: Option<u64>, now: u64, accepted: bool, window: u64) -> (
    Option<u64>,
    bool,
) {
    if deadline is Some && now < deadline.unwrap() {
        (deadline, false)
    } else if accepted {
        (Some(saturating_add_u64(now, window)), true)
    } else {
        (None, false)
    }
}

/// The debounce state of the file source: raw events arriving before
/// `deadline` are discarded.
pub struct FileSourceState {
    /// The instant, in nanoseconds on the event clock, until which raw
    /// events are discarded.
    pub deadline: Option<u64>,
}

impl FileSourceState {
    /// The initial state: no window is open.
    pub fn new() -> (s: FileSourceState)
        ensures
            s.deadline is None,
    {
        FileSourceState { deadline: None }
    }

    /// Whether an event arriving at `now` falls inside the open debounce
    /// window and will be discarded unexamined.
    pub fn in_debounce(&self, now: u64) -> (r: bool)
        ensures
            r == (self.deadline is Some && now < self.deadline.unwrap()),
    {
        match self.deadline {
            Some(d) => now < d,
            None => false,
        }
    }

    /// Processes one raw event arriving at `now`, with the collaborator's
    /// answer `vcs` for its path, and returns whether a trigger is emitted,
    /// following [`debounce_step`] on the filter's acceptance of the event.
    pub fn observe(
        &mut self,
        filter: &FileFilter,
        window: u64,
        now: u64,
        event: RawFileEvent,
        vcs: VcsQueryOutcome,
    ) -> (emit: bool)
        ensures
            ({
                let accepted = event_accepted(
                    filter.allowed_extensions(),
                    filter.git_ignore,
                    event.op,
                    path_view(event.path),
                    vcs,
                );
                let step = debounce_step(old(self).deadline, now, accepted, window);
                final(self).deadline == step.0 && emit == step.1
            }),
    {
        if self.in_debounce(now) {
            return false;
        }
        let accepted = match modified_file(event) {
            Some(path) => self.filter_accepts(filter, &path, vcs),
            None => false,
        };
        if accepted {
            let deadline = if now <= u64::MAX - window {
                now + window
            } else {
                u64::MAX
            };
            self.deadline = Some(deadline);
            true
        } else {
            self.deadline = None;
            false
        }
    }

    /// Whether the filter passes this path (a helper around
    /// [`FileFilter::matches_path`] yielding the bare verdict).
    fn filter_accepts(&self, filter: &FileFilter, path: &Vec<u8>, vcs: VcsQueryOutcome) -> (r:
        bool)
        ensures
            r == (filter_verdict(filter.allowed_extensions(), filter.git_ignore, path@, vcs)
                == Result::<(), FilterReason>::Ok(())),
    {
        filter.matches_path(path.as_slice(), vcs).is_ok()
    }
}

/// One event as the debounce law speaks of it: its arrival instant and
/// whether the filter accepted it.
pub struct TimedEvent {
    /// Arrival instant, in nanoseconds on the event clock.
    pub now: u64,
    /// Whether the filter accepted the event.
    pub accepted: bool,
}

/// The number of triggers emitted when a sequence of events runs through
/// the debounce transition from the given state.
pub open spec fn emitted_count(deadline: Option<u64>, window: u64, events: Seq<TimedEvent>) -> nat
    decreases events.len(),
{
    if events.len() == 0 {
        0
    } else {
        let step = debounce_step(deadline, events[0].now, events[0].accepted, window);
        (if step.1 {
            1nat
        } else {
            0nat
        }) + emitted_count(step.0, window, events.drop_first())
    }
}

/// Inside an open debounce window nothing is emitted: every event arriving
/// before the deadline is discarded and leaves the window standing.
pub proof fn lemma_window_discards_all(deadline: u64, window: u64, events: Seq<TimedEvent>)
    requires
        forall|i: int| 0 <= i < events.len() ==> events[i].now < deadline,
    ensures
        emitted_count(Some(deadline), window, events) == 0,
    decreases events.len(),
{
    if events.len() > 0 {
        assert(events[0].now < deadline);
        lemma_window_discards_all(deadline, window, events.drop_first());
    }
}

/// Debounce law: an accepted event that arrives with no window open emits
/// exactly one trigger, and any sequence of raw events arriving within the
/// debounce window after it — accepted or not — emits nothing more.
pub proof fn lemma_debounce_emits_exactly_once(
    deadline: Option<u64>,
    window: u64,
    first: TimedEvent,
    burst: Seq<TimedEvent>,
)
    requires
        first.accepted,
        deadline is Some ==> first.now >= deadline.unwrap(),
        forall|i: int| 0 <= i < burst.len() ==> burst[i].now < saturating_add_u64(
            first.now,
            window,
        ),
    ensures
        emitted_count(deadline, window, seq![first] + burst) == 1,
{
    let all = seq![first] + burst;
    assert(all[0] == first);
    let step = debounce_step(deadline, first.now, first.accepted, window);
    assert(step.1);
    assert(all.drop_first() =~= burst);
    lemma_window_discards_all(saturating_add_u64(first.now, window), window, burst);
}

/// Byte-for-byte equality of two byte strings.
pub fn bytes_equal(a: &[u8], b: &[u8]) -> (r: bool)
    ensures
        r == (a@ == b@),
{
    if a.len() != b.len() {
        return false;
    }
    let mut i: usize = 0;
    while i < a.len()
        invariant
            a@.len() == b@.len(),
            i <= a@.len(),
            forall|k: int| 0 <= k < i ==> a@[k] == b@[k],
        decreases a@.len() - i,
    {
        if a[i] != b[i] {
            return false;
        }
        i = i + 1;
    }
    assert(a@ =~= b@);
    true
}

} // verus!
