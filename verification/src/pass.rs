//! One scan: every file of every watched directory is handled in turn, and the state is
//! kept after each.
//!
//! A [`Pass`] says what has to be done next ([`Pass::action`]); what that gave is handed
//! back as a [`PassEvent`].
use vstd::prelude::*;

use crate::path::FilePath;
use crate::scan;
use crate::worker::FileResult;

verus! {

/// What came of the files of a scan.
#[derive(Clone, Copy, Debug, PartialEq, Eq, Structural)]
pub struct ScanStats {
    pub converted: u64,
    pub skipped: u64,
    pub failed: u64,
}

impl ScanStats {
    pub open spec fn total(self) -> int {
        self.converted + self.skipped + self.failed
    }

    /// With one more file. An interrupted one does not count.
    pub open spec fn plus(self, result: FileResult) -> ScanStats {
        match result {
            FileResult::Converted => ScanStats { converted: (self.converted + 1) as u64, ..self },
            FileResult::Skipped => ScanStats { skipped: (self.skipped + 1) as u64, ..self },
            FileResult::Failed => ScanStats { failed: (self.failed + 1) as u64, ..self },
            FileResult::Interrupted => self,
        }
    }

    pub fn zero() -> (r: ScanStats)
        ensures
            r == (ScanStats { converted: 0, skipped: 0, failed: 0 }),
    {
        ScanStats { converted: 0, skipped: 0, failed: 0 }
    }

    /// Counts a file.
    pub fn count(&mut self, result: FileResult)
        requires
            old(self).total() < u64::MAX,
        ensures
            *final(self) == old(self).plus(result),
    {
        match result {
            FileResult::Converted => {
                self.converted = self.converted + 1;
            },
            FileResult::Skipped => {
                self.skipped = self.skipped + 1;
            },
            FileResult::Failed => {
                self.failed = self.failed + 1;
            },
            FileResult::Interrupted => {},
        }
    }
}

/// What a scan waits for.
#[derive(Clone, Copy, Debug, PartialEq, Eq, Structural)]
pub enum PassPhase {
    /// A look at the next watched directory.
    Root,
    /// The files of it.
    List,
    /// Whether to go on with the next file.
    File,
    /// What came of the file.
    Handle,
    /// The state being kept after a file.
    Save,
    /// The missing files being forgotten.
    Prune,
    /// The state being kept at the end.
    LastSave,
    Over,
}

/// A scan of `roots` watched directories.
#[derive(Debug)]
pub struct Pass {
    pub roots: usize,
    /// Which directory it is at.
    pub root: usize,
    /// The files of that directory.
    pub files: Vec<FilePath>,
    /// Which file it is at.
    pub file: usize,
    pub stats: ScanStats,
    pub phase: PassPhase,
}

#[verifier::ext_equal]
pub struct PassView {
    pub roots: int,
    pub root: int,
    pub files: Seq<Seq<u8>>,
    pub file: int,
    pub stats: ScanStats,
    pub phase: PassPhase,
}

impl View for Pass {
    type V = PassView;

    open spec fn view(&self) -> PassView {
        PassView {
            roots: self.roots as int,
            root: self.root as int,
            files: scan::path_views(self.files@),
            file: self.file as int,
            stats: self.stats,
            phase: self.phase,
        }
    }
}

/// What a scan asks for.
#[derive(Debug)]
pub enum PassAction {
    /// See whether to stop, and whether this watched directory is one.
    LookAtRoot(usize),
    /// List the video files of this watched directory.
    ListRoot(usize),
    /// See whether to stop.
    AskShutdown,
    /// Handle this file, found in this watched directory.
    Handle(usize, FilePath),
    /// Keep the state.
    Save,
    /// Forget the files that are missing.
    Prune,
    Finish(ScanStats),
}

/// What an action gave.
#[derive(Debug)]
pub enum PassEvent {
    RootSeen { shutdown: bool, is_dir: bool },
    Listed(Vec<FilePath>),
    Shutdown(bool),
    Handled(FileResult),
    Saved,
    Pruned,
}

#[verifier::ext_equal]
pub enum PassEventView {
    RootSeen { shutdown: bool, is_dir: bool },
    Listed(Seq<Seq<u8>>),
    Shutdown(bool),
    Handled(FileResult),
    Saved,
    Pruned,
}

impl View for PassEvent {
    type V = PassEventView;

    open spec fn view(&self) -> PassEventView {
        match self {
            PassEvent::RootSeen { shutdown, is_dir } => PassEventView::RootSeen {
                shutdown: *shutdown,
                is_dir: *is_dir,
            },
            PassEvent::Listed(v) => PassEventView::Listed(scan::path_views(v@)),
            PassEvent::Shutdown(b) => PassEventView::Shutdown(*b),
            PassEvent::Handled(r) => PassEventView::Handled(*r),
            PassEvent::Saved => PassEventView::Saved,
            PassEvent::Pruned => PassEventView::Pruned,
        }
    }
}

impl PassView {
    /// The directory and the file that the scan is at are there.
    pub open spec fn wf(self) -> bool {
        &&& self.phase == PassPhase::Root || self.phase == PassPhase::List ==> self.root < self.roots
        &&& self.phase == PassPhase::File || self.phase == PassPhase::Handle || self.phase
            == PassPhase::Save ==> self.root < self.roots && self.file < self.files.len()
    }

    /// A scan at its start.
    pub open spec fn start(roots: int) -> PassView {
        PassView {
            roots,
            root: 0,
            files: Seq::empty(),
            file: 0,
            stats: ScanStats { converted: 0, skipped: 0, failed: 0 },
            phase: if roots == 0 {
                PassPhase::Prune
            } else {
                PassPhase::Root
            },
        }
    }

    pub open spec fn at(self, phase: PassPhase) -> PassView {
        PassView { phase, ..self }
    }

    /// Done with the directory.
    pub open spec fn next_root(self) -> PassView {
        PassView {
            root: self.root + 1,
            phase: if self.root + 1 == self.roots {
                PassPhase::Prune
            } else {
                PassPhase::Root
            },
            ..self
        }
    }

    /// The scan after an event. An event that it does not wait for changes nothing.
    pub open spec fn next(self, event: PassEventView) -> PassView {
        match (self.phase, event) {
            (PassPhase::Root, PassEventView::RootSeen { shutdown, is_dir }) => if shutdown {
                self.at(PassPhase::Prune)
            } else if is_dir {
                self.at(PassPhase::List)
            } else {
                self.next_root()
            },
            (PassPhase::List, PassEventView::Listed(files)) => {
                let listed = PassView { files, file: 0, ..self };
                if files.len() == 0 {
                    listed.next_root()
                } else {
                    listed.at(PassPhase::File)
                }
            },
            (PassPhase::File, PassEventView::Shutdown(true)) => self.next_root(),
            (PassPhase::File, PassEventView::Shutdown(false)) => self.at(PassPhase::Handle),
            (PassPhase::Handle, PassEventView::Handled(result)) => PassView {
                stats: self.stats.plus(result),
                phase: if result == FileResult::Interrupted {
                    PassPhase::Over
                } else {
                    PassPhase::Save
                },
                ..self
            },
            (PassPhase::Save, PassEventView::Saved) => if self.file + 1 == self.files.len() {
                self.next_root()
            } else {
                PassView { file: self.file + 1, phase: PassPhase::File, ..self }
            },
            (PassPhase::Prune, PassEventView::Pruned) => self.at(PassPhase::LastSave),
            (PassPhase::LastSave, PassEventView::Saved) => self.at(PassPhase::Over),
            _ => self,
        }
    }
}

impl Pass {
    /// A scan of `roots` watched directories.
    pub fn start(roots: usize) -> (r: Pass)
        ensures
            r@ == PassView::start(roots as int),
            r@.wf(),
    {
        let phase = if roots == 0 {
            PassPhase::Prune
        } else {
            PassPhase::Root
        };
        let r = Pass {
            roots,
            root: 0,
            files: Vec::new(),
            file: 0,
            stats: ScanStats::zero(),
            phase,
        };
        assert(r@.files =~= Seq::empty());
        r
    }

    /// What has to be done next.
    pub fn action(&self) -> (r: PassAction)
        requires
            self@.wf(),
        ensures
            match self@.phase {
                PassPhase::Root => r == PassAction::LookAtRoot(self.root),
                PassPhase::List => r == PassAction::ListRoot(self.root),
                PassPhase::File => r is AskShutdown,
                PassPhase::Handle => r matches PassAction::Handle(i, p) && i == self.root && p@
                    == self@.files[self@.file],
                PassPhase::Save => r is Save,
                PassPhase::Prune => r is Prune,
                PassPhase::LastSave => r is Save,
                PassPhase::Over => r == PassAction::Finish(self.stats),
            },
    {
        match self.phase {
            PassPhase::Root => PassAction::LookAtRoot(self.root),
            PassPhase::List => PassAction::ListRoot(self.root),
            PassPhase::File => PassAction::AskShutdown,
            PassPhase::Handle => PassAction::Handle(self.root, self.files[self.file].copy()),
            PassPhase::Save => PassAction::Save,
            PassPhase::Prune => PassAction::Prune,
            PassPhase::LastSave => PassAction::Save,
            PassPhase::Over => PassAction::Finish(self.stats),
        }
    }

    fn leave_root(&mut self)
        requires
            old(self).root < old(self).roots,
        ensures
            final(self)@ == old(self)@.next_root(),
    {
        self.root = self.root + 1;
        self.phase = if self.root == self.roots {
            PassPhase::Prune
        } else {
            PassPhase::Root
        };
    }
}

/// Takes up what an action gave.
pub fn run_once(pass: &mut Pass, event: PassEvent)
    requires
        old(pass)@.wf(),
        old(pass).stats.total() < u64::MAX,
    ensures
        final(pass)@.wf(),
        final(pass)@ == old(pass)@.next(event@),
{
    assert(pass@.files.len() == pass.files.len());
    match (pass.phase, event) {
        (PassPhase::Root, PassEvent::RootSeen { shutdown, is_dir }) => {
            if shutdown {
                pass.phase = PassPhase::Prune;
            } else if is_dir {
                pass.phase = PassPhase::List;
            } else {
                pass.leave_root();
            }
        },
        (PassPhase::List, PassEvent::Listed(files)) => {
            let none = files.len() == 0;
            pass.files = files;
            pass.file = 0;
            if none {
                pass.leave_root();
            } else {
                pass.phase = PassPhase::File;
            }
        },
        (PassPhase::File, PassEvent::Shutdown(stop)) => {
            if stop {
                pass.leave_root();
            } else {
                pass.phase = PassPhase::Handle;
            }
        },
        (PassPhase::Handle, PassEvent::Handled(result)) => {
            pass.stats.count(result);
            pass.phase = if result == FileResult::Interrupted {
                PassPhase::Over
            } else {
                PassPhase::Save
            };
        },
        (PassPhase::Save, PassEvent::Saved) => {
            if pass.file + 1 == pass.files.len() {
                pass.leave_root();
            } else {
                pass.file = pass.file + 1;
                pass.phase = PassPhase::File;
            }
        },
        (PassPhase::Prune, PassEvent::Pruned) => {
            pass.phase = PassPhase::LastSave;
        },
        (PassPhase::LastSave, PassEvent::Saved) => {
            pass.phase = PassPhase::Over;
        },
        _ => {},
    }
}

/// How many of the results are `which`.
pub open spec fn tally(results: Seq<FileResult>, which: FileResult) -> int
    decreases results.len(),
{
    if results.len() == 0 {
        0
    } else {
        tally(results.drop_last(), which) + if results.last() == which {
            1int
        } else {
            0
        }
    }
}

/// A scan after its next files came to `results`, with nobody asking it to stop.
pub open spec fn after_files(p: PassView, results: Seq<FileResult>) -> PassView
    decreases results.len(),
{
    if results.len() == 0 {
        p
    } else {
        after_files(p, results.drop_last()).next(PassEventView::Shutdown(false)).next(
            PassEventView::Handled(results.last()),
        ).next(PassEventView::Saved)
    }
}

/// Every file of a directory is handled in its turn and counted once, and then the next
/// directory is looked at.
pub proof fn law_every_file_counts(p: PassView, results: Seq<FileResult>)
    requires
        p.wf(),
        p.phase == PassPhase::File,
        p.file == 0,
        results.len() <= p.files.len(),
        p.stats.total() + results.len() <= u64::MAX,
        !results.contains(FileResult::Interrupted),
    ensures
        ({
            let end = after_files(p, results);
            &&& end.stats.converted == p.stats.converted + tally(results, FileResult::Converted)
            &&& end.stats.skipped == p.stats.skipped + tally(results, FileResult::Skipped)
            &&& end.stats.failed == p.stats.failed + tally(results, FileResult::Failed)
            &&& end.stats.total() == p.stats.total() + results.len()
            &&& end.roots == p.roots
            &&& results.len() < p.files.len() ==> end == (PassView {
                file: results.len() as int,
                stats: end.stats,
                ..p
            })
            &&& results.len() == p.files.len() ==> {
                &&& end.root == p.root + 1
                &&& end.phase == (if p.root + 1 == p.roots {
                    PassPhase::Prune
                } else {
                    PassPhase::Root
                })
            }
        }),
    decreases results.len(),
{
    if results.len() > 0 {
        let d = results.drop_last();
        let last = results.last();
        assert(last != FileResult::Interrupted) by {
            assert(results[results.len() - 1] == last);
        }
        assert(!d.contains(FileResult::Interrupted)) by {
            if d.contains(FileResult::Interrupted) {
                let i = choose|i: int| 0 <= i < d.len() && d[i] == FileResult::Interrupted;
                assert(results[i] == FileResult::Interrupted);
            }
        }
        law_every_file_counts(p, d);
    }
}

/// A watched directory as a scan finds it, and what comes of its files.
pub struct RootRun {
    pub is_dir: bool,
    pub files: Seq<Seq<u8>>,
    pub results: Seq<FileResult>,
}

impl RootRun {
    /// Each file came to something, and none was interrupted. What is no directory has
    /// no files.
    pub open spec fn wf(self) -> bool {
        &&& self.results.len() == self.files.len()
        &&& !self.results.contains(FileResult::Interrupted)
        &&& !self.is_dir ==> self.files.len() == 0
    }
}

/// A scan after one more directory, with nobody asking it to stop.
pub open spec fn after_root(p: PassView, run: RootRun) -> PassView {
    let seen = p.next(PassEventView::RootSeen { shutdown: false, is_dir: run.is_dir });
    if run.is_dir {
        after_files(seen.next(PassEventView::Listed(run.files)), run.results)
    } else {
        seen
    }
}

/// A scan after the directories `runs`, with nobody asking it to stop.
pub open spec fn after_roots(p: PassView, runs: Seq<RootRun>) -> PassView
    decreases runs.len(),
{
    if runs.len() == 0 {
        p
    } else {
        after_root(after_roots(p, runs.drop_last()), runs.last())
    }
}

/// How many files of all directories came to `which`.
pub open spec fn tally_all(runs: Seq<RootRun>, which: FileResult) -> int
    decreases runs.len(),
{
    if runs.len() == 0 {
        0
    } else {
        tally_all(runs.drop_last(), which) + tally(runs.last().results, which)
    }
}

/// How many files all directories have.
pub open spec fn file_count(runs: Seq<RootRun>) -> int
    decreases runs.len(),
{
    if runs.len() == 0 {
        0
    } else {
        file_count(runs.drop_last()) + runs.last().files.len()
    }
}

proof fn lemma_after_roots(roots: int, runs: Seq<RootRun>)
    requires
        runs.len() <= roots,
        forall|i: int| 0 <= i < runs.len() ==> (#[trigger] runs[i]).wf(),
        file_count(runs) <= u64::MAX,
    ensures
        ({
            let end = after_roots(PassView::start(roots), runs);
            &&& end.wf()
            &&& end.roots == roots
            &&& end.root == runs.len()
            &&& end.phase == (if runs.len() == roots {
                PassPhase::Prune
            } else {
                PassPhase::Root
            })
            &&& end.stats.converted == tally_all(runs, FileResult::Converted)
            &&& end.stats.skipped == tally_all(runs, FileResult::Skipped)
            &&& end.stats.failed == tally_all(runs, FileResult::Failed)
            &&& end.stats.total() == file_count(runs)
        }),
    decreases runs.len(),
{
    if runs.len() > 0 {
        let d = runs.drop_last();
        let last = runs.last();
        assert(last == runs[runs.len() - 1]);
        assert forall|i: int| 0 <= i < d.len() implies (#[trigger] d[i]).wf() by {
            assert(d[i] == runs[i]);
        }
        lemma_after_roots(roots, d);
        let p = after_roots(PassView::start(roots), d);
        let seen = p.next(PassEventView::RootSeen { shutdown: false, is_dir: last.is_dir });
        if last.is_dir {
            let listed = seen.next(PassEventView::Listed(last.files));
            if last.files.len() > 0 {
                law_every_file_counts(listed, last.results);
            }
        }
    }
}

/// A scan that nobody stops counts every file of every directory once, by what came of it.
pub proof fn law_scan_counts_all(roots: int, runs: Seq<RootRun>)
    requires
        runs.len() == roots,
        forall|i: int| 0 <= i < runs.len() ==> (#[trigger] runs[i]).wf(),
        file_count(runs) <= u64::MAX,
    ensures
        ({
            let end = after_roots(PassView::start(roots), runs).next(PassEventView::Pruned).next(
                PassEventView::Saved,
            );
            &&& end.phase == PassPhase::Over
            &&& end.stats.converted == tally_all(runs, FileResult::Converted)
            &&& end.stats.skipped == tally_all(runs, FileResult::Skipped)
            &&& end.stats.failed == tally_all(runs, FileResult::Failed)
            &&& end.stats.total() == file_count(runs)
        }),
{
    lemma_after_roots(roots, runs);
}

/// A scan that is asked to stop between directories handles no more files, but still
/// forgets the missing ones and keeps the state. One that is asked to stop between files
/// goes on to the next directory, where it is asked again.
pub proof fn law_stop_between_files(p: PassView, is_dir: bool)
    requires
        p.wf(),
    ensures
        p.phase == PassPhase::Root ==> p.next(
            PassEventView::RootSeen { shutdown: true, is_dir },
        ).phase == PassPhase::Prune,
        p.phase == PassPhase::File ==> ({
            let q = p.next(PassEventView::Shutdown(true));
            q.phase == PassPhase::Prune || q.phase == PassPhase::Root
        }),
{
}

/// An interrupted file ends the scan at once: the missing files are not forgotten, and
/// the counts stay as they were.
pub proof fn law_interruption_ends_pass(p: PassView)
    requires
        p.phase == PassPhase::Handle,
    ensures
        p.next(PassEventView::Handled(FileResult::Interrupted)) == p.at(PassPhase::Over),
{
}

/// What a scan still has to do, by which it comes to its end: directories first, then
/// files, then what is left of the current one.
pub open spec fn to_do(p: PassView) -> (int, int, int) {
    (
        match p.phase {
            PassPhase::Root | PassPhase::List | PassPhase::File | PassPhase::Handle
                | PassPhase::Save => p.roots - p.root + 1,
            PassPhase::Prune | PassPhase::LastSave => 1,
            PassPhase::Over => 0,
        },
        match p.phase {
            PassPhase::Root => 2,
            PassPhase::List => 1,
            PassPhase::Prune => 2,
            PassPhase::LastSave => 1,
            _ => 0,
        },
        match p.phase {
            PassPhase::File => 3 * (p.files.len() - p.file),
            PassPhase::Handle => 3 * (p.files.len() - p.file) - 1,
            PassPhase::Save => 3 * (p.files.len() - p.file) - 2,
            _ => 0,
        },
    )
}

/// Every event that a scan waits for brings it nearer to its end.
pub proof fn law_pass_ends(p: PassView, event: PassEventView)
    requires
        p.wf(),
        0 <= p.root <= p.roots,
        0 <= p.file,
        p.next(event) != p,
    ensures
        ({
            let (a, b, c) = to_do(p);
            let (x, y, z) = to_do(p.next(event));
            &&& 0 <= x && 0 <= y && 0 <= z
            &&& x < a || (x == a && y < b) || (x == a && y == b && z < c)
        }),
{
}

} // verus!
