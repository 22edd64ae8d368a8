//! What is remembered of files.
use vstd::prelude::*;

use crate::order;
use crate::path::{self, Component};
use crate::path_laws;
use crate::state::{
    self, Entry, EntryView, FileId, Outcome, OutcomeView, Record, SaveError, SavePlan, StateError,
};
use crate::utf8;

verus! {

/// A file is due that is not known, that changed, or that failed fewer than `max_attempts`
/// times as it is.
pub proof fn law_when_a_file_is_due(
    entries: Map<Seq<char>, EntryView>,
    key: Seq<char>,
    id: FileId,
    max_attempts: u32,
)
    ensures
        state::is_due(entries, key, id, max_attempts) <==> {
            ||| !entries.dom().contains(key)
            ||| entries[key].id.size != id.size
            ||| entries[key].id.mtime != id.mtime
            ||| match entries[key].outcome {
                OutcomeView::Done { .. } => false,
                OutcomeView::Failed { attempts, .. } => attempts < max_attempts,
            }
        },
{
}

/// Once done with, a file is remembered with its result; the rest stays.
pub proof fn law_what_done_remembers(
    entries: Map<Seq<char>, EntryView>,
    key: Seq<char>,
    id: FileId,
    output: Seq<u8>,
    at: u64,
)
    ensures
        ({
            let after = state::with_done(entries, key, id, output, at);
            &&& after.dom() == entries.dom().insert(key)
            &&& after[key].id.size == id.size
            &&& after[key].id.mtime == id.mtime
            &&& after[key].outcome == OutcomeView::Done { output, at }
            &&& after.remove(key) == entries.remove(key)
        }),
{
    assert(state::with_done(entries, key, id, output, at).remove(key) =~= entries.remove(key));
}

/// A failure counts one more than the failures of the file as it is, which is one for a file
/// that is not known, changed or was done with; the rest stays.
pub proof fn law_what_a_failure_remembers(
    entries: Map<Seq<char>, EntryView>,
    key: Seq<char>,
    id: FileId,
    error: Seq<char>,
    at: u64,
)
    requires
        entries.dom().contains(key) && entries[key].id == id ==> (
        entries[key].outcome matches OutcomeView::Failed { attempts, .. } ==> attempts < u32::MAX),
    ensures
        ({
            let after = state::with_failure(entries, key, id, error, at);
            let known = entries.dom().contains(key) && entries[key].id.size == id.size
                && entries[key].id.mtime == id.mtime;
            let before: int = match entries[key].outcome {
                OutcomeView::Failed { attempts, .. } => if known {
                    attempts as int
                } else {
                    0
                },
                OutcomeView::Done { .. } => 0,
            };
            &&& after.dom() == entries.dom().insert(key)
            &&& after[key].id.size == id.size
            &&& after[key].id.mtime == id.mtime
            &&& match after[key].outcome {
                OutcomeView::Failed { attempts, error: e, at: t } => attempts == before + 1 && e
                    == error && t == at,
                OutcomeView::Done { .. } => false,
            }
            &&& after.remove(key) == entries.remove(key)
            &&& state::failures(entries, key, id) == before
        }),
{
    assert(state::with_failure(entries, key, id, error, at).remove(key) =~= entries.remove(key));
}

/// The records of a state give its entries: of records with the same key the last.
pub proof fn law_entries_of_records(records: Seq<Record>, key: Seq<char>)
    ensures
        ({
            let m = state::entry_map(records);
            &&& m.dom().contains(key) <==> exists|i: int|
                0 <= i < records.len() && (#[trigger] records[i]).key@ == key
            &&& forall|i: int|
                0 <= i < records.len() && (#[trigger] records[i]).key@ == key && (forall|j: int|
                    i < j < records.len() ==> (#[trigger] records[j]).key@ != key) ==> m[key].id
                    == records[i].entry.id && m[key] == records[i].entry@
        }),
    decreases records.len(),
{
    if records.len() > 0 {
        let d = records.drop_last();
        let n = d.len() as int;
        law_entries_of_records(d, key);
        let m = state::entry_map(records);
        assert(records[n] == records.last());
        if m.dom().contains(key) && records[n].key@ != key {
            let i = choose|i: int| 0 <= i < d.len() && (#[trigger] d[i]).key@ == key;
            assert(records[i].key@ == key);
        }
        if exists|i: int| 0 <= i < records.len() && (#[trigger] records[i]).key@ == key {
            let i = choose|i: int|
                0 <= i < records.len() && (#[trigger] records[i]).key@ == key;
            if i < n {
                assert(d[i].key@ == key);
            }
        }
        assert forall|i: int|
            0 <= i < records.len() && (#[trigger] records[i]).key@ == key && (forall|j: int|
                i < j < records.len() ==> (#[trigger] records[j]).key@ != key) implies m[key].id
            == records[i].entry.id && m[key] == records[i].entry@ by {
            if i < n {
                assert(records[n].key@ != key);
                assert(d[i].key@ == key);
                assert forall|j: int| i < j < d.len() implies (#[trigger] d[j]).key@ != key by {
                    assert(d[j] == records[j]);
                }
            }
        }
    }
}

/// An entry is seen as what it holds.
pub proof fn law_entries_are_what_they_hold(entry: Entry)
    ensures
        entry@.id == entry.id,
        entry@.outcome == match entry.outcome {
            Outcome::Done { output, at } => OutcomeView::Done { output: output.bytes@, at },
            Outcome::Failed { attempts, error, at } => OutcomeView::Failed {
                attempts,
                error: error@,
                at,
            },
        },
{
}

/// The keys of missing files are those in the list.
pub proof fn law_which_keys_are_missing(missing: Seq<String>, key: Seq<char>)
    ensures
        state::key_set(missing).contains(key) <==> exists|i: int|
            0 <= i < missing.len() && (#[trigger] missing[i])@ == key,
{
    let keys = missing.map_values(|s: String| s@);
    if keys.contains(key) {
        let i = choose|i: int| 0 <= i < keys.len() && keys[i] == key;
        assert(missing[i]@ == key);
    }
    if exists|i: int| 0 <= i < missing.len() && (#[trigger] missing[i])@ == key {
        let i = choose|i: int| 0 <= i < missing.len() && (#[trigger] missing[i])@ == key;
        assert(keys[i] == key);
    }
}

/// A path with another extension is in the same directory, and its name is the stem of the
/// old one, a dot and that extension.
pub proof fn law_another_extension(p: Seq<u8>, ext: Seq<u8>)
    requires
        path::file_stem(p) is Some,
        path_laws::slash_free(ext),
        ext.len() > 0,
    ensures
        ({
            let q = state::with_extension(p, ext);
            path::components(q) == path::components(p).drop_last().push(
                Component::Normal(path::file_stem(p)->0.push(46u8) + ext),
            )
        }),
{
    let t = path::trim_tail(p);
    let i = path::name_start(t);
    let stem = path::file_stem(p)->0;
    let name = stem.push(46u8) + ext;
    let q = state::with_extension(p, ext);
    crate::naming::lemma_stem(p);
    path_laws::lemma_trim_tail_components(p);
    path_laws::lemma_parent_components(p);
    path_laws::lemma_last_run(t);
    assert(name[0] == stem[0]);
    assert(path_laws::slash_free(name));
    assert(name.len() >= 3 || name.len() == stem.len() + 1 + ext.len());
    lemma_not_dots(name, stem, ext);
    assert(q =~= t.take(i) + name);
    if i == 0 {
        assert(q =~= name);
        path_laws::lemma_plain_name(name);
        path_laws::lemma_trim_tail_components(t.take(i));
        path_laws::lemma_empty_components();
        assert(t.take(0) =~= Seq::empty());
        assert(path::components(path::parent(p)->0) =~= Seq::empty());
        assert(path::components(p).drop_last() =~= Seq::empty());
        assert(path::components(q) =~= path::components(p).drop_last().push(
            Component::Normal(name),
        ));
    } else {
        let d = t.take(i);
        path_laws::lemma_plain_name(name);
        assert(d.last() == 47u8);
        assert(path::join(d, name) =~= q);
        path_laws::lemma_join_components(d, name);
        path_laws::lemma_trim_tail_components(d);
        assert(path::components(q) =~= path::components(p).drop_last().push(
            Component::Normal(name),
        ));
    }
}

proof fn lemma_not_dots(name: Seq<u8>, stem: Seq<u8>, ext: Seq<u8>)
    requires
        name == stem.push(46u8) + ext,
        stem.len() > 0,
        ext.len() > 0,
    ensures
        !path::is_blank(name),
        name != seq![46u8, 46u8],
{
    assert(name.len() >= 3);
    assert(seq![46u8].len() == 1);
    assert(seq![46u8, 46u8].len() == 2);
}

/// What is said of a state that cannot be read or kept names the file.
pub proof fn law_state_errors_name_the_file(
    error: StateError,
    failure: SaveError,
    p: Seq<u8>,
    plan: SavePlan,
)
    ensures
        error.text(p) == match error {
            StateError::Reading => "reading "@ + utf8::shown(p),
            StateError::Parsing => "parsing state file "@ + utf8::shown(p),
        },
        failure.text(plan) == match failure {
            SaveError::Creating => "creating "@ + utf8::shown(plan.parent->0.bytes@),
            SaveError::Writing => "writing "@ + utf8::shown(plan.temporary.bytes@),
            SaveError::Permissions => "chmod "@ + utf8::shown(plan.temporary.bytes@),
            SaveError::Replacing => "replacing "@ + utf8::shown(plan.target.bytes@),
        },
{
}

/// A path without a file name keeps its extension.
pub proof fn law_no_name_no_extension(p: Seq<u8>, ext: Seq<u8>)
    requires
        path::file_name(p) is None,
    ensures
        state::with_extension(p, ext) == p,
{
}

/// Records are kept in the order of the bytes of their keys.
pub proof fn law_order_of_records(records: Seq<Record>)
    ensures
        state::keys_ascend(records) <==> forall|i: int, j: int|
            0 <= i < j < records.len() ==> order::bytes_less(
                vstd::utf8::encode_utf8((#[trigger] records[i]).key@),
                vstd::utf8::encode_utf8((#[trigger] records[j]).key@),
            ),
{
    if forall|i: int, j: int|
        0 <= i < j < records.len() ==> order::bytes_less(
            vstd::utf8::encode_utf8((#[trigger] records[i]).key@),
            vstd::utf8::encode_utf8((#[trigger] records[j]).key@),
        ) {
        assert forall|i: int, j: int| 0 <= i < j < records.len() implies state::key_less(
            #[trigger] records[i].key@,
            #[trigger] records[j].key@,
        ) by {
            assert(order::bytes_less(
                vstd::utf8::encode_utf8(records[i].key@),
                vstd::utf8::encode_utf8(records[j].key@),
            ));
        }
    }
    if state::keys_ascend(records) {
        assert forall|i: int, j: int| 0 <= i < j < records.len() implies order::bytes_less(
            vstd::utf8::encode_utf8((#[trigger] records[i]).key@),
            vstd::utf8::encode_utf8((#[trigger] records[j]).key@),
        ) by {
            assert(state::key_less(records[i].key@, records[j].key@));
        }
    }
}

} // verus!
