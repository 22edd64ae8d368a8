//! What a scan does with its directories and files.
use vstd::prelude::*;

use crate::pass::{Pass, PassEvent, PassEventView, PassPhase, PassView};
use crate::worker::FileResult;

verus! {

/// At the next directory, or forgetting the missing files where there is none.
pub open spec fn is_at_next_root(before: PassView, after: PassView) -> bool {
    &&& after.root == before.root + 1
    &&& after.phase == if before.root + 1 < before.roots {
        PassPhase::Root
    } else {
        PassPhase::Prune
    }
    &&& after.roots == before.roots
    &&& after.stats == before.stats
}

pub open spec fn one_if(b: bool) -> int {
    if b {
        1
    } else {
        0
    }
}

/// A scan starts with the first directory and counts nothing yet.
pub proof fn law_a_scan_starts_at_the_first_directory(roots: int)
    requires
        roots >= 0,
    ensures
        ({
            let p = PassView::start(roots);
            &&& p.roots == roots
            &&& p.root == 0
            &&& p.phase == if roots > 0 {
                PassPhase::Root
            } else {
                PassPhase::Prune
            }
            &&& p.stats.converted == 0 && p.stats.skipped == 0 && p.stats.failed == 0
        }),
{
}

/// Of a directory that is one the files are listed and taken from the first on; one that is
/// not, or is empty, is passed over. Asked to stop, a scan goes to its end.
pub proof fn law_a_directory_is_listed(
    p: PassView,
    shutdown: bool,
    is_dir: bool,
    files: Seq<Seq<u8>>,
)
    requires
        p.wf(),
        p.phase == PassPhase::Root,
    ensures
        ({
            let seen = p.next(PassEventView::RootSeen { shutdown, is_dir });
            let listed = seen.next(PassEventView::Listed(files));
            &&& shutdown ==> seen.phase == PassPhase::Prune && seen.stats == p.stats
            &&& !shutdown && !is_dir ==> is_at_next_root(p, seen)
            &&& !shutdown && is_dir ==> {
                &&& seen.phase == PassPhase::List
                &&& seen.root == p.root
                &&& files.len() == 0 ==> is_at_next_root(p, listed)
                &&& files.len() > 0 ==> {
                    &&& listed.phase == PassPhase::File
                    &&& listed.root == p.root
                    &&& listed.roots == p.roots
                    &&& listed.files == files
                    &&& listed.file == 0
                    &&& listed.stats == p.stats
                }
            }
        }),
{
}

/// A file is handled, counted once by what came of it, and the state kept before the next
/// one; after the last file comes the next directory. An interrupted file is not counted and
/// ends the scan.
pub proof fn law_a_file_is_handled_counted_and_kept(p: PassView, result: FileResult)
    requires
        p.wf(),
        p.phase == PassPhase::File,
        p.stats.total() < u64::MAX,
    ensures
        ({
            let asked = p.next(PassEventView::Shutdown(false));
            let handled = asked.next(PassEventView::Handled(result));
            let kept = handled.next(PassEventView::Saved);
            &&& asked == (PassView { phase: PassPhase::Handle, ..p })
            &&& handled.root == p.root && handled.roots == p.roots && handled.files == p.files
                && handled.file == p.file
            &&& handled.stats.converted == p.stats.converted + one_if(result == FileResult::Converted)
            &&& handled.stats.skipped == p.stats.skipped + one_if(result == FileResult::Skipped)
            &&& handled.stats.failed == p.stats.failed + one_if(result == FileResult::Failed)
            &&& handled.phase == if result == FileResult::Interrupted {
                PassPhase::Over
            } else {
                PassPhase::Save
            }
            &&& result != FileResult::Interrupted ==> {
                &&& kept.stats == handled.stats
                &&& p.file + 1 < p.files.len() ==> kept == (PassView {
                    file: p.file + 1,
                    stats: handled.stats,
                    ..p
                })
                &&& p.file + 1 == p.files.len() ==> is_at_next_root(handled, kept)
            }
        }),
{
}

/// At the end the missing files are forgotten, and then the state is kept once more.
pub proof fn law_a_scan_ends_with_the_state_kept(p: PassView)
    requires
        p.phase == PassPhase::Prune,
    ensures
        ({
            let pruned = p.next(PassEventView::Pruned);
            let kept = pruned.next(PassEventView::Saved);
            &&& pruned == (PassView { phase: PassPhase::LastSave, ..p })
            &&& kept == (PassView { phase: PassPhase::Over, ..p })
        }),
{
}

/// Asked to stop between files, a scan leaves the directory without counting more.
pub proof fn law_a_stop_leaves_the_directory(p: PassView)
    requires
        p.phase == PassPhase::File,
        p.wf(),
    ensures
        is_at_next_root(p, p.next(PassEventView::Shutdown(true))),
{
}

/// Only the answer to what a scan asked for moves it.
pub proof fn law_other_answers_are_ignored(p: PassView, event: PassEventView)
    requires
        match p.phase {
            PassPhase::Root => !(event is RootSeen),
            PassPhase::List => !(event is Listed),
            PassPhase::File => !(event is Shutdown),
            PassPhase::Handle => !(event is Handled),
            PassPhase::Save | PassPhase::LastSave => !(event is Saved),
            PassPhase::Prune => !(event is Pruned),
            PassPhase::Over => true,
        },
    ensures
        p.next(event) == p,
{
}

/// Events are taken for what they hold.
pub proof fn law_events_are_taken_as_they_are(event: PassEvent)
    ensures
        match event {
            PassEvent::RootSeen { shutdown, is_dir } => event@ == (PassEventView::RootSeen {
                shutdown,
                is_dir,
            }),
            PassEvent::Listed(v) => match event@ {
                PassEventView::Listed(paths) => paths.len() == v@.len() && forall|i: int|
                    0 <= i < v@.len() ==> #[trigger] paths[i] == v@[i].bytes@,
                _ => false,
            },
            PassEvent::Shutdown(b) => event@ == PassEventView::Shutdown(b),
            PassEvent::Handled(r) => event@ == PassEventView::Handled(r),
            PassEvent::Saved => event@ == PassEventView::Saved,
            PassEvent::Pruned => event@ == PassEventView::Pruned,
        },
{
}

/// A scan is seen as what it holds.
pub proof fn law_a_scan_is_what_it_holds(p: Pass)
    ensures
        p@.roots == p.roots,
        p@.root == p.root,
        p@.file == p.file,
        p@.stats == p.stats,
        p@.phase == p.phase,
        p@.files.len() == p.files@.len(),
        forall|i: int| 0 <= i < p.files@.len() ==> #[trigger] p@.files[i] == p.files@[i].bytes@,
{
}

} // verus!
