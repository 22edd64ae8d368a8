//! Which files have already been handled, so that the same video is not converted on
//! every scan.
use vstd::prelude::*;
use vstd::string::*;

use crate::order::{self, bytes_before};
use crate::path::{self, FilePath, DOT};
use crate::text::same_str;
use crate::utf8::{self, shown_text};

verus! {

/// Identity of a file on disk. If either field changes it is a new file.
#[derive(Debug, Clone, Copy, PartialEq, Eq, Structural)]
pub struct FileId {
    pub size: u64,
    /// Modification time, in seconds since the epoch.
    pub mtime: u64,
}

impl FileId {
    /// The identity of a file of `size` bytes. `modified` is its modification time in
    /// whole seconds since the epoch, where that is known and not before it.
    pub fn of(size: u64, modified: Option<u64>) -> (r: FileId)
        ensures
            r.size == size,
            r.mtime == (match modified {
                Some(t) => t,
                None => 0,
            }),
    {
        FileId { size, mtime: now(modified) }
    }
}

/// The clock in whole seconds since the epoch, or 0 where it is not past it.
pub fn now(since_epoch: Option<u64>) -> (r: u64)
    ensures
        r == (match since_epoch {
            Some(t) => t,
            None => 0,
        }),
{
    match since_epoch {
        Some(t) => t,
        None => 0,
    }
}

/// What came of a file.
#[derive(Debug)]
pub enum Outcome {
    Done { output: FilePath, at: u64 },
    Failed { attempts: u32, error: String, at: u64 },
}

/// What came of a file, as mathematical values.
#[verifier::ext_equal]
pub enum OutcomeView {
    Done { output: Seq<u8>, at: u64 },
    Failed { attempts: u32, error: Seq<char>, at: u64 },
}

impl Clone for Outcome {
    fn clone(&self) -> (r: Self)
        ensures
            r@ == self@,
    {
        match self {
            Outcome::Done { output, at } => Outcome::Done { output: output.copy(), at: *at },
            Outcome::Failed { attempts, error, at } => Outcome::Failed {
                attempts: *attempts,
                error: error.clone(),
                at: *at,
            },
        }
    }
}

impl View for Outcome {
    type V = OutcomeView;

    open spec fn view(&self) -> OutcomeView {
        match self {
            Outcome::Done { output, at } => OutcomeView::Done { output: output@, at: *at },
            Outcome::Failed { attempts, error, at } => OutcomeView::Failed {
                attempts: *attempts,
                error: error@,
                at: *at,
            },
        }
    }
}

/// What is remembered of a file.
#[derive(Debug)]
pub struct Entry {
    pub id: FileId,
    pub outcome: Outcome,
}

#[verifier::ext_equal]
pub struct EntryView {
    pub id: FileId,
    pub outcome: OutcomeView,
}

impl Clone for Entry {
    fn clone(&self) -> (r: Self)
        ensures
            r@ == self@,
    {
        Entry { id: self.id, outcome: self.outcome.clone() }
    }
}

impl View for Entry {
    type V = EntryView;

    open spec fn view(&self) -> EntryView {
        EntryView { id: self.id, outcome: self.outcome@ }
    }
}

/// An entry under its key.
#[derive(Debug)]
pub struct Record {
    pub key: String,
    pub entry: Entry,
}

/// The order of keys: that of their bytes.
pub open spec fn key_less(a: Seq<char>, b: Seq<char>) -> bool {
    order::bytes_less(vstd::utf8::encode_utf8(a), vstd::utf8::encode_utf8(b))
}

/// Every key comes after the one before it.
pub open spec fn keys_ascend(s: Seq<Record>) -> bool {
    forall|i: int, j: int| 0 <= i < j < s.len() ==> key_less(#[trigger] s[i].key@, #[trigger] s[j].key@)
}

/// The entries of a run of records by their keys. A later record replaces an earlier one.
pub open spec fn entry_map(s: Seq<Record>) -> Map<Seq<char>, EntryView>
    decreases s.len(),
{
    if s.len() == 0 {
        Map::empty()
    } else {
        entry_map(s.drop_last()).insert(s.last().key@, s.last().entry@)
    }
}

/// What is remembered, and where it is kept.
#[verifier::ext_equal]
pub struct StateView {
    pub entries: Map<Seq<char>, EntryView>,
    /// The file that it is kept in.
    pub path: Seq<u8>,
    /// Whether it differs from what is kept.
    pub dirty: bool,
}

/// What is remembered of files.
#[derive(Debug)]
pub struct State {
    entries: Vec<Record>,
    path: FilePath,
    dirty: bool,
}

impl View for State {
    type V = StateView;

    closed spec fn view(&self) -> StateView {
        StateView { entries: entry_map(self.entries@), path: self.path@, dirty: self.dirty }
    }
}

/// Whether a file is to be processed: it is not known, it changed, or it failed fewer
/// than `max_attempts` times.
pub open spec fn is_due(
    entries: Map<Seq<char>, EntryView>,
    key: Seq<char>,
    id: FileId,
    max_attempts: u32,
) -> bool {
    if !entries.dom().contains(key) || entries[key].id != id {
        true
    } else {
        match entries[key].outcome {
            OutcomeView::Done { .. } => false,
            OutcomeView::Failed { attempts, .. } => attempts < max_attempts,
        }
    }
}

/// How often the file has failed as it is now.
pub open spec fn failures(
    entries: Map<Seq<char>, EntryView>,
    key: Seq<char>,
    id: FileId,
) -> u32 {
    if entries.dom().contains(key) && entries[key].id == id {
        match entries[key].outcome {
            OutcomeView::Failed { attempts, .. } => attempts,
            OutcomeView::Done { .. } => 0,
        }
    } else {
        0
    }
}

/// The entries after a file was done with.
pub open spec fn with_done(
    entries: Map<Seq<char>, EntryView>,
    key: Seq<char>,
    id: FileId,
    output: Seq<u8>,
    at: u64,
) -> Map<Seq<char>, EntryView> {
    entries.insert(key, EntryView { id, outcome: OutcomeView::Done { output, at } })
}

/// The entries after a file failed once more.
pub open spec fn with_failure(
    entries: Map<Seq<char>, EntryView>,
    key: Seq<char>,
    id: FileId,
    error: Seq<char>,
    at: u64,
) -> Map<Seq<char>, EntryView> {
    let attempts = (failures(entries, key, id) + 1) as u32;
    entries.insert(key, EntryView { id, outcome: OutcomeView::Failed { attempts, error, at } })
}

/// The keys among `v`.
pub open spec fn key_set(v: Seq<String>) -> Set<Seq<char>> {
    v.map_values(|s: String| s@).to_set()
}

/// `p` with the extension `ext` in place of its own, if it has a file name.
pub open spec fn with_extension(p: Seq<u8>, ext: Seq<u8>) -> Seq<u8> {
    let t = path::trim_tail(p);
    match path::file_stem(p) {
        Some(s) => t.take(path::name_start(t)) + s.push(DOT) + ext,
        None => p,
    }
}

/// What reading the kept state gave.
#[derive(Debug)]
pub enum Stored {
    /// There is no file.
    Missing,
    /// The file could not be read.
    Unreadable,
    /// The file does not hold a state.
    Unparsable,
    Records(Vec<Record>),
}

/// Why no state could be had.
#[derive(Debug, Clone, Copy, PartialEq, Eq, Structural)]
pub enum StateError {
    Reading,
    Parsing,
}

impl StateError {
    /// What is said of it, where `path` is the file that the state is kept in.
    pub open spec fn text(self, path: Seq<u8>) -> Seq<char> {
        match self {
            StateError::Reading => "reading "@ + utf8::shown(path),
            StateError::Parsing => "parsing state file "@ + utf8::shown(path),
        }
    }

    /// What is said of it, where `path` is the file that the state is kept in.
    pub fn message(self, path: &FilePath) -> (r: String)
        ensures
            r@ == self.text(path@),
    {
        let mut s: String = match self {
            StateError::Reading => "reading ".to_owned(),
            StateError::Parsing => "parsing state file ".to_owned(),
        };
        s.append(shown_text(path.bytes.as_slice()).as_str());
        s
    }
}

/// How to keep a state: make `parent` where there is one, write to `temporary`, give
/// that file the permissions `mode`, and put it in the place of `target`.
#[derive(Debug)]
pub struct SavePlan {
    pub parent: Option<FilePath>,
    pub temporary: FilePath,
    pub target: FilePath,
    pub mode: u32,
}

/// Which part of a plan could not be carried out.
#[derive(Debug, Clone, Copy, PartialEq, Eq, Structural)]
pub enum SaveError {
    /// The directory cannot be created.
    Creating,
    /// The new file cannot be written.
    Writing,
    /// The new file cannot be given its permissions.
    Permissions,
    /// The new file cannot be put in the place of the old one.
    Replacing,
}

impl SaveError {
    /// What is said of it, where `plan` was to be carried out.
    pub open spec fn text(self, plan: SavePlan) -> Seq<char> {
        match self {
            SaveError::Creating => "creating "@ + utf8::shown(plan.parent->0@),
            SaveError::Writing => "writing "@ + utf8::shown(plan.temporary@),
            SaveError::Permissions => "chmod "@ + utf8::shown(plan.temporary@),
            SaveError::Replacing => "replacing "@ + utf8::shown(plan.target@),
        }
    }

    /// What is said of it, where `plan` was to be carried out.
    pub fn message(self, plan: &SavePlan) -> (r: String)
        requires
            self == SaveError::Creating ==> plan.parent is Some,
        ensures
            r@ == self.text(*plan),
    {
        let (mut s, path): (String, &FilePath) = match (self, &plan.parent) {
            (SaveError::Creating, Some(parent)) => ("creating ".to_owned(), parent),
            (SaveError::Writing, _) => ("writing ".to_owned(), &plan.temporary),
            (SaveError::Permissions, _) => ("chmod ".to_owned(), &plan.temporary),
            (_, _) => ("replacing ".to_owned(), &plan.target),
        };
        s.append(shown_text(path.bytes.as_slice()).as_str());
        s
    }
}

proof fn lemma_key_order(a: Seq<char>, b: Seq<char>, c: Seq<char>)
    ensures
        !key_less(a, a),
        key_less(a, b) && key_less(b, c) ==> key_less(a, c),
        a != b ==> key_less(a, b) || key_less(b, a),
{
    order::lemma_bytes_less_strict_total();
    let lt = |x: Seq<u8>, y: Seq<u8>| order::bytes_less(x, y);
    let (x, y, z) = (
        vstd::utf8::encode_utf8(a),
        vstd::utf8::encode_utf8(b),
        vstd::utf8::encode_utf8(c),
    );
    assert(!lt(x, x));
    assert(lt(x, y) && lt(y, z) ==> lt(x, z));
    vstd::utf8::encode_utf8_decode_utf8(a);
    vstd::utf8::encode_utf8_decode_utf8(b);
    assert(a != b ==> x != y);
    assert(x != y ==> lt(x, y) || lt(y, x));
}

/// What the map of records with ascending keys holds.
proof fn lemma_entry_map(s: Seq<Record>)
    requires
        keys_ascend(s),
    ensures
        forall|i: int|
            0 <= i < s.len() ==> entry_map(s).dom().contains(#[trigger] s[i].key@) && entry_map(
                s,
            )[s[i].key@] == s[i].entry@,
        forall|k: Seq<char>|
            #[trigger] entry_map(s).dom().contains(k) ==> exists|i: int|
                0 <= i < s.len() && #[trigger] s[i].key@ == k,
        entry_map(s).dom().finite(),
        entry_map(s).dom().len() == s.len(),
    decreases s.len(),
{
    if s.len() > 0 {
        let d = s.drop_last();
        assert(keys_ascend(d)) by {
            assert forall|i: int, j: int| 0 <= i < j < d.len() implies key_less(
                #[trigger] d[i].key@,
                #[trigger] d[j].key@,
            ) by {
                assert(key_less(s[i].key@, s[j].key@));
            }
        }
        lemma_entry_map(d);
        let last = s.last().key@;
        assert forall|i: int| 0 <= i < d.len() implies #[trigger] d[i].key@ != last by {
            assert(key_less(s[i].key@, s[s.len() - 1].key@));
            lemma_key_order(last, last, last);
        }
        assert(!entry_map(d).dom().contains(last));
        assert forall|i: int| 0 <= i < s.len() implies entry_map(s).dom().contains(
            #[trigger] s[i].key@,
        ) && entry_map(s)[s[i].key@] == s[i].entry@ by {
            if i < d.len() {
                assert(d[i].key@ != last);
            }
        }
        assert forall|k: Seq<char>| #[trigger] entry_map(s).dom().contains(k) implies exists|i: int|
            0 <= i < s.len() && #[trigger] s[i].key@ == k by {
            if k == last {
                assert(s[s.len() - 1].key@ == k);
            } else {
                assert(entry_map(d).dom().contains(k));
                let i = choose|i: int| 0 <= i < d.len() && #[trigger] d[i].key@ == k;
                assert(s[i].key@ == k);
            }
        }
        assert(entry_map(s).dom() =~= entry_map(d).dom().insert(last));
    }
}

/// Two runs of records with ascending keys and the same records by key have the same map.
proof fn lemma_same_map(s: Seq<Record>, m: Map<Seq<char>, EntryView>)
    requires
        keys_ascend(s),
        forall|i: int|
            0 <= i < s.len() ==> m.dom().contains(#[trigger] s[i].key@) && m[s[i].key@]
                == s[i].entry@,
        forall|k: Seq<char>|
            #[trigger] m.dom().contains(k) ==> exists|i: int|
                0 <= i < s.len() && #[trigger] s[i].key@ == k,
    ensures
        entry_map(s) == m,
{
    lemma_entry_map(s);
    assert forall|k: Seq<char>| m.dom().contains(k) implies entry_map(s).dom().contains(k) && m[k]
        == entry_map(s)[k] by {
        let i = choose|i: int| 0 <= i < s.len() && #[trigger] s[i].key@ == k;
        assert(entry_map(s).dom().contains(s[i].key@));
    }
    assert forall|k: Seq<char>| entry_map(s).dom().contains(k) implies m.dom().contains(k) by {
        let i = choose|i: int| 0 <= i < s.len() && #[trigger] s[i].key@ == k;
        assert(m.dom().contains(s[i].key@));
    }
    assert(entry_map(s) =~= m);
}

impl State {
    /// The records are in the order of their keys, no key occurring twice.
    pub closed spec fn wf(self) -> bool {
        keys_ascend(self.entries@)
    }

    /// A state that remembers nothing, kept at `path`.
    pub fn empty(path: &FilePath) -> (r: State)
        ensures
            r.wf(),
            r@ == (StateView { entries: Map::empty(), path: path@, dirty: false }),
    {
        let r = State { entries: Vec::new(), path: path.copy(), dirty: false };
        assert(r@.entries =~= Map::empty());
        r
    }

    /// The state that was kept at `path`, or one that remembers nothing where none was.
    pub fn load(path: &FilePath, stored: Stored) -> (r: Result<State, StateError>)
        ensures
            match stored {
                Stored::Missing => r matches Ok(s) && s.wf() && s@ == (StateView {
                    entries: Map::empty(),
                    path: path@,
                    dirty: false,
                }),
                Stored::Unreadable => r == Err::<State, _>(StateError::Reading),
                Stored::Unparsable => r == Err::<State, _>(StateError::Parsing),
                Stored::Records(v) => r matches Ok(s) && s.wf() && s@ == (StateView {
                    entries: entry_map(v@),
                    path: path@,
                    dirty: false,
                }),
            },
    {
        match stored {
            Stored::Missing => Ok(State::empty(path)),
            Stored::Unreadable => Err(StateError::Reading),
            Stored::Unparsable => Err(StateError::Parsing),
            Stored::Records(v) => {
                let mut state = State::empty(path);
                let mut i: usize = 0;
                assert(v@.take(0) =~= Seq::empty());
                while i < v.len()
                    invariant
                        i <= v.len(),
                        state.wf(),
                        state@ == (StateView {
                            entries: entry_map(v@.take(i as int)),
                            path: path@,
                            dirty: false,
                        }),
                    decreases v.len() - i,
                {
                    assert(v@.take(i + 1).drop_last() =~= v@.take(i as int));
                    state.put(v[i].key.clone(), copy_entry(&v[i].entry));
                    i += 1;
                }
                assert(v@.take(v@.len() as int) =~= v@);
                Ok(state)
            },
        }
    }

    /// The key of a file: the path that it resolves to, or the path itself where it
    /// does not resolve, as text.
    pub fn key(path: &FilePath, resolved: &Option<FilePath>) -> (r: String)
        ensures
            r@ == utf8::shown(
                match *resolved {
                    Some(p) => p@,
                    None => path@,
                },
            ),
    {
        match resolved {
            Some(p) => shown_text(p.bytes.as_slice()),
            None => shown_text(path.bytes.as_slice()),
        }
    }

    /// Where the record of a key is or belongs.
    fn find(&self, key: &str) -> (r: (usize, bool))
        requires
            self.wf(),
        ensures
            r.0 <= self.entries@.len(),
            forall|j: int| 0 <= j < r.0 ==> key_less(#[trigger] self.entries@[j].key@, key@),
            r.1 ==> r.0 < self.entries@.len() && self.entries@[r.0 as int].key@ == key@,
            !r.1 ==> forall|j: int|
                r.0 <= j < self.entries@.len() ==> key_less(key@, #[trigger] self.entries@[j].key@),
            r.1 == self@.entries.dom().contains(key@),
            r.1 ==> self@.entries[key@] == self.entries@[r.0 as int].entry@,
    {
        let ghost s = self.entries@;
        let mut low: usize = 0;
        let mut high: usize = self.entries.len();
        while low < high
            invariant
                low <= high <= self.entries.len(),
                s == self.entries@,
                keys_ascend(s),
                forall|j: int| 0 <= j < low ==> key_less(#[trigger] s[j].key@, key@),
                forall|j: int| high <= j < s.len() ==> !key_less(#[trigger] s[j].key@, key@),
            decreases high - low,
        {
            let mid: usize = low + (high - low) / 2;
            if bytes_before(self.entries[mid].key.as_str().as_bytes(), key.as_bytes()) {
                assert forall|j: int| 0 <= j <= mid implies key_less(#[trigger] s[j].key@, key@) by {
                    if j < mid {
                        assert(key_less(s[j].key@, s[mid as int].key@));
                        lemma_key_order(s[j].key@, s[mid as int].key@, key@);
                    }
                }
                low = mid + 1;
            } else {
                assert forall|j: int| mid <= j < s.len() implies !key_less(
                    #[trigger] s[j].key@,
                    key@,
                ) by {
                    if j > mid {
                        assert(key_less(s[mid as int].key@, s[j].key@));
                        lemma_key_order(s[mid as int].key@, s[j].key@, key@);
                    }
                }
                high = mid;
            }
        }
        proof {
            lemma_entry_map(s);
        }
        if low < self.entries.len() && same_str(self.entries[low].key.as_str(), key) {
            (low, true)
        } else {
            proof {
                assert forall|j: int| low <= j < s.len() implies key_less(
                    key@,
                    #[trigger] s[j].key@,
                ) by {
                    lemma_key_order(key@, s[j].key@, key@);
                    if s[j].key@ == key@ && j > low {
                        assert(key_less(s[low as int].key@, s[j].key@));
                    }
                }
                if self@.entries.dom().contains(key@) {
                    let i = choose|i: int| 0 <= i < s.len() && #[trigger] s[i].key@ == key@;
                    lemma_key_order(key@, key@, key@);
                }
            }
            (low, false)
        }
    }
}

/// A copy of an entry.
fn copy_entry(e: &Entry) -> (r: Entry)
    ensures
        r@ == e@,
{
    let outcome = match &e.outcome {
        Outcome::Done { output, at } => Outcome::Done { output: output.copy(), at: *at },
        Outcome::Failed { attempts, error, at } => Outcome::Failed {
            attempts: *attempts,
            error: error.clone(),
            at: *at,
        },
    };
    Entry { id: e.id, outcome }
}

impl State {
    /// Puts an entry under a key.
    fn put(&mut self, key: String, entry: Entry)
        requires
            old(self).wf(),
        ensures
            final(self).wf(),
            final(self)@ == (StateView {
                entries: old(self)@.entries.insert(key@, entry@),
                ..old(self)@
            }),
    {
        let ghost before = self.entries@;
        let ghost k = key@;
        let ghost e = entry@;
        let (i, found) = self.find(key.as_str());
        proof {
            lemma_entry_map(before);
        }
        if found {
            self.entries.set(i, Record { key, entry });
            let ghost after = self.entries@;
            proof {
                assert forall|a: int, b: int| 0 <= a < b < after.len() implies key_less(
                    #[trigger] after[a].key@,
                    #[trigger] after[b].key@,
                ) by {
                    assert(after[a].key@ == before[a].key@ && after[b].key@ == before[b].key@);
                }
                let m = entry_map(before).insert(k, e);
                assert forall|a: int| 0 <= a < after.len() implies m.dom().contains(
                    #[trigger] after[a].key@,
                ) && m[after[a].key@] == after[a].entry@ by {
                    if a != i {
                        assert(after[a] == before[a]);
                        lemma_key_order(k, k, k);
                        if a < i {
                            assert(key_less(before[a].key@, before[i as int].key@));
                        } else {
                            assert(key_less(before[i as int].key@, before[a].key@));
                        }
                    }
                }
                assert forall|q: Seq<char>| #[trigger] m.dom().contains(q) implies exists|a: int|
                    0 <= a < after.len() && #[trigger] after[a].key@ == q by {
                    if q == k {
                        assert(after[i as int].key@ == q);
                    } else {
                        let a = choose|a: int| 0 <= a < before.len() && #[trigger] before[a].key@ == q;
                        assert(after[a].key@ == q);
                    }
                }
                lemma_same_map(after, m);
            }
        } else {
            self.entries.insert(i, Record { key, entry });
            let ghost after = self.entries@;
            proof {
                assert forall|a: int, b: int| 0 <= a < b < after.len() implies key_less(
                    #[trigger] after[a].key@,
                    #[trigger] after[b].key@,
                ) by {
                    if a < i && b > i {
                        assert(after[a] == before[a] && after[b] == before[b - 1]);
                        assert(key_less(before[a].key@, before[b - 1].key@));
                    } else if a == i {
                        assert(after[b] == before[b - 1]);
                    } else if b == i {
                        assert(after[a] == before[a]);
                    } else if b < i {
                        assert(after[a] == before[a] && after[b] == before[b]);
                        assert(key_less(before[a].key@, before[b].key@));
                    } else {
                        assert(after[a] == before[a - 1] && after[b] == before[b - 1]);
                        assert(key_less(before[a - 1].key@, before[b - 1].key@));
                    }
                }
                let m = entry_map(before).insert(k, e);
                assert forall|a: int| 0 <= a < after.len() implies m.dom().contains(
                    #[trigger] after[a].key@,
                ) && m[after[a].key@] == after[a].entry@ by {
                    if a < i {
                        assert(after[a] == before[a]);
                    } else if a > i {
                        assert(after[a] == before[a - 1]);
                    }
                    if a != i {
                        assert(entry_map(before).dom().contains(after[a].key@));
                    }
                }
                assert forall|q: Seq<char>| #[trigger] m.dom().contains(q) implies exists|a: int|
                    0 <= a < after.len() && #[trigger] after[a].key@ == q by {
                    if q == k {
                        assert(after[i as int].key@ == q);
                    } else {
                        let a = choose|a: int| 0 <= a < before.len() && #[trigger] before[a].key@ == q;
                        if a < i {
                            assert(after[a].key@ == q);
                        } else {
                            assert(after[a + 1].key@ == q);
                        }
                    }
                }
                lemma_same_map(after, m);
            }
        }
    }

    /// Whether a file is to be processed, given its identity on disk.
    pub fn needs_work(&self, key: &str, id: FileId, max_attempts: u32) -> (r: bool)
        requires
            self.wf(),
        ensures
            r == is_due(self@.entries, key@, id, max_attempts),
    {
        let (i, found) = self.find(key);
        if !found {
            return true;
        }
        if self.entries[i].entry.id != id {
            return true;
        }
        match &self.entries[i].entry.outcome {
            Outcome::Done { .. } => false,
            Outcome::Failed { attempts, .. } => *attempts < max_attempts,
        }
    }

    /// Remembers that a file was done with at the time `at`.
    pub fn record_done(&mut self, key: String, id: FileId, output: &FilePath, at: u64)
        requires
            old(self).wf(),
        ensures
            final(self).wf(),
            final(self)@ == (StateView {
                entries: with_done(old(self)@.entries, key@, id, output@, at),
                dirty: true,
                ..old(self)@
            }),
    {
        self.put(key, Entry { id, outcome: Outcome::Done { output: output.copy(), at } });
        self.dirty = true;
    }

    /// How often a file has failed as it is now.
    pub fn attempts(&self, key: &str, id: FileId) -> (r: u32)
        requires
            self.wf(),
        ensures
            r == failures(self@.entries, key@, id),
    {
        let (i, found) = self.find(key);
        if found && self.entries[i].entry.id == id {
            match &self.entries[i].entry.outcome {
                Outcome::Failed { attempts, .. } => *attempts,
                Outcome::Done { .. } => 0,
            }
        } else {
            0
        }
    }

    /// Remembers that a file failed once more, at the time `at`.
    pub fn record_failure(&mut self, key: String, id: FileId, error: &str, at: u64)
        requires
            old(self).wf(),
            failures(old(self)@.entries, key@, id) < u32::MAX,
        ensures
            final(self).wf(),
            final(self)@ == (StateView {
                entries: with_failure(old(self)@.entries, key@, id, error@, at),
                dirty: true,
                ..old(self)@
            }),
    {
        let attempts: u32 = self.attempts(key.as_str(), id) + 1;
        self.put(
            key,
            Entry { id, outcome: Outcome::Failed { attempts, error: error.to_owned(), at } },
        );
        self.dirty = true;
    }

    /// The records, in the order of their keys.
    pub fn records(&self) -> (r: &Vec<Record>)
        requires
            self.wf(),
        ensures
            keys_ascend(r@),
            entry_map(r@) == self@.entries,
    {
        &self.entries
    }

    /// Takes a key out, if it is there.
    fn take_out(&mut self, key: &str) -> (r: bool)
        requires
            old(self).wf(),
        ensures
            final(self).wf(),
            r == old(self)@.entries.dom().contains(key@),
            final(self)@ == (StateView { entries: old(self)@.entries.remove(key@), ..old(self)@ }),
    {
        let ghost before = self.entries@;
        let ghost k = key@;
        let (i, found) = self.find(key);
        proof {
            lemma_entry_map(before);
        }
        if !found {
            assert(old(self)@.entries.remove(k) =~= old(self)@.entries);
            return false;
        }
        let _ = self.entries.remove(i);
        let ghost after = self.entries@;
        proof {
            assert forall|a: int, b: int| 0 <= a < b < after.len() implies key_less(
                #[trigger] after[a].key@,
                #[trigger] after[b].key@,
            ) by {
                let a0 = if a < i { a } else { a + 1 };
                let b0 = if b < i { b } else { b + 1 };
                assert(after[a] == before[a0] && after[b] == before[b0]);
                assert(key_less(before[a0].key@, before[b0].key@));
            }
            let m = entry_map(before).remove(k);
            assert forall|a: int| 0 <= a < after.len() implies m.dom().contains(
                #[trigger] after[a].key@,
            ) && m[after[a].key@] == after[a].entry@ by {
                let a0 = if a < i { a } else { a + 1 };
                assert(after[a] == before[a0]);
                assert(entry_map(before).dom().contains(before[a0].key@));
                lemma_key_order(k, k, k);
                if a0 < i {
                    assert(key_less(before[a0].key@, before[i as int].key@));
                } else {
                    assert(key_less(before[i as int].key@, before[a0].key@));
                }
            }
            assert forall|q: Seq<char>| #[trigger] m.dom().contains(q) implies exists|a: int|
                0 <= a < after.len() && #[trigger] after[a].key@ == q by {
                let a = choose|a: int| 0 <= a < before.len() && #[trigger] before[a].key@ == q;
                if a < i {
                    assert(after[a].key@ == q);
                } else {
                    assert(after[a - 1].key@ == q);
                }
            }
            lemma_same_map(after, m);
        }
        true
    }

    /// Forgets the files that are missing, and says how many these were.
    pub fn prune_missing(&mut self, missing: &Vec<String>) -> (removed: usize)
        requires
            old(self).wf(),
        ensures
            final(self).wf(),
            final(self)@ == (StateView {
                entries: old(self)@.entries.remove_keys(key_set(missing@)),
                dirty: old(self)@.dirty || removed > 0,
                ..old(self)@
            }),
            removed == old(self)@.entries.dom().intersect(key_set(missing@)).len(),
    {
        let ghost m = old(self)@.entries;
        let before: usize = self.entries.len();
        let mut i: usize = 0;
        let ghost names = missing@.map_values(|s: String| s@);
        proof {
            lemma_entry_map(self.entries@);
            assert(m.remove_keys(names.take(0).to_set()) =~= m);
        }
        while i < missing.len()
            invariant
                i <= missing.len(),
                names == missing@.map_values(|s: String| s@),
                self.wf(),
                self@ == (StateView {
                    entries: m.remove_keys(names.take(i as int).to_set()),
                    ..old(self)@
                }),
            decreases missing.len() - i,
        {
            let _ = self.take_out(missing[i].as_str());
            proof {
                let seen = names.take(i as int);
                let more = names.take(i + 1);
                assert(more =~= seen.push(names[i as int]));
                assert forall|k: Seq<char>| #[trigger] more.to_set().contains(k) == (
                seen.to_set().contains(k) || k == names[i as int]) by {
                    if seen.contains(k) {
                        let a = choose|a: int| 0 <= a < seen.len() && seen[a] == k;
                        assert(more[a] == k);
                    }
                    if k == names[i as int] {
                        assert(more[i as int] == k);
                    }
                    if more.contains(k) && k != names[i as int] {
                        let a = choose|a: int| 0 <= a < more.len() && more[a] == k;
                        assert(seen[a] == k);
                    }
                }
                assert(self@.entries =~= m.remove_keys(names.take(i + 1).to_set()));
            }
            i += 1;
        }
        proof {
            assert(names.take(names.len() as int) =~= names);
            lemma_entry_map(self.entries@);
            let gone = m.dom().intersect(names.to_set());
            let kept = self@.entries.dom();
            assert(kept =~= m.dom().difference(gone));
            assert(kept.disjoint(gone));
            vstd::set_lib::lemma_set_disjoint_lens(kept, gone);
            assert(kept + gone =~= m.dom());
        }
        let removed: usize = before - self.entries.len();
        if removed > 0 {
            self.dirty = true;
        }
        removed
    }

    /// How to keep the state, or `None` where it already is kept.
    pub fn save_if_dirty(&self) -> (r: Option<SavePlan>)
        ensures
            !self@.dirty ==> r is None,
            self@.dirty ==> r is Some && ({
                let plan = r->0;
                &&& (match plan.parent {
                    Some(p) => path::parent(self@.path) == Some(p@),
                    None => path::parent(self@.path) is None,
                })
                &&& plan.temporary@ == with_extension(
                    self@.path,
                    vstd::utf8::encode_utf8("json.tmp"@),
                )
                &&& plan.target@ == self@.path
                &&& plan.mode == 0o644
            }),
    {
        if !self.dirty {
            return None;
        }
        let temporary = set_extension(&self.path, "json.tmp".as_bytes());
        Some(
            SavePlan {
                parent: self.path.parent(),
                temporary,
                target: self.path.copy(),
                mode: 0o644,
            },
        )
    }

    /// Notes that the state has been kept.
    pub fn saved(&mut self)
        requires
            old(self).wf(),
        ensures
            final(self).wf(),
            final(self)@ == (StateView { dirty: false, ..old(self)@ }),
    {
        self.dirty = false;
    }
}

impl Default for State {
    fn default() -> (r: Self)
        ensures
            r.wf(),
            r@ == (StateView { entries: Map::empty(), path: Seq::empty(), dirty: false }),
    {
        let path = FilePath { bytes: Vec::new() };
        assert(path@ =~= Seq::empty());
        State::empty(&path)
    }
}

/// A path with another extension.
fn set_extension(p: &FilePath, ext: &[u8]) -> (r: FilePath)
    ensures
        r@ == with_extension(p@, ext@),
{
    match p.file_stem() {
        None => p.copy(),
        Some(s) => {
            let mut bytes = p.name_prefix();
            path::push_bytes(&mut bytes, s.as_slice());
            bytes.push(DOT);
            path::push_bytes(&mut bytes, ext);
            assert(bytes@ =~= with_extension(p@, ext@));
            FilePath { bytes }
        },
    }
}

/// A file that was done with is left alone until it changes.
pub proof fn law_done_is_left_alone(
    entries: Map<Seq<char>, EntryView>,
    key: Seq<char>,
    id: FileId,
    output: Seq<u8>,
    at: u64,
    seen: FileId,
    max_attempts: u32,
)
    ensures
        is_due(with_done(entries, key, id, output, at), key, seen, max_attempts) <==> seen != id,
{
}

/// A file that changed is processed again, whatever came of it before, and none of its
/// earlier failures counts.
pub proof fn law_changed_is_due(
    entries: Map<Seq<char>, EntryView>,
    key: Seq<char>,
    seen: FileId,
    max_attempts: u32,
)
    requires
        entries.dom().contains(key),
        entries[key].id.size != seen.size || entries[key].id.mtime != seen.mtime,
    ensures
        is_due(entries, key, seen, max_attempts),
        failures(entries, key, seen) == 0,
{
}

/// What is recorded of one file changes nothing for another.
pub proof fn law_other_files_unaffected(
    entries: Map<Seq<char>, EntryView>,
    key: Seq<char>,
    id: FileId,
    output: Seq<u8>,
    error: Seq<char>,
    at: u64,
    other: Seq<char>,
    seen: FileId,
    max_attempts: u32,
)
    requires
        other != key,
    ensures
        is_due(with_done(entries, key, id, output, at), other, seen, max_attempts) == is_due(
            entries,
            other,
            seen,
            max_attempts,
        ),
        is_due(with_failure(entries, key, id, error, at), other, seen, max_attempts) == is_due(
            entries,
            other,
            seen,
            max_attempts,
        ),
{
}

/// A file that was forgotten is processed again.
pub proof fn law_pruned_is_due(
    entries: Map<Seq<char>, EntryView>,
    missing: Set<Seq<char>>,
    key: Seq<char>,
    id: FileId,
    max_attempts: u32,
)
    ensures
        missing.contains(key) ==> is_due(entries.remove_keys(missing), key, id, max_attempts),
        !missing.contains(key) ==> is_due(entries.remove_keys(missing), key, id, max_attempts)
            == is_due(entries, key, id, max_attempts),
{
}

/// The entries after a file failed with each of `errors` in turn, always at the time `at`.
pub open spec fn after_failures(
    entries: Map<Seq<char>, EntryView>,
    key: Seq<char>,
    id: FileId,
    errors: Seq<Seq<char>>,
    at: u64,
) -> Map<Seq<char>, EntryView>
    decreases errors.len(),
{
    if errors.len() == 0 {
        entries
    } else {
        with_failure(
            after_failures(entries, key, id, errors.drop_last(), at),
            key,
            id,
            errors.last(),
            at,
        )
    }
}

/// Failures add up while the file stays as it is, and it is given up after
/// `max_attempts` of them.
pub proof fn law_gives_up_after_max_attempts(
    entries: Map<Seq<char>, EntryView>,
    key: Seq<char>,
    id: FileId,
    errors: Seq<Seq<char>>,
    at: u64,
    max_attempts: u32,
)
    requires
        errors.len() > 0,
        failures(entries, key, id) + errors.len() <= u32::MAX,
    ensures
        failures(after_failures(entries, key, id, errors, at), key, id) == failures(
            entries,
            key,
            id,
        ) + errors.len(),
        is_due(after_failures(entries, key, id, errors, at), key, id, max_attempts) <==> failures(
            entries,
            key,
            id,
        ) + errors.len() < max_attempts,
    decreases errors.len(),
{
    if errors.len() > 1 {
        law_gives_up_after_max_attempts(entries, key, id, errors.drop_last(), at, max_attempts);
    } else {
        assert(after_failures(entries, key, id, errors.drop_last(), at) == entries);
    }
}

/// What is kept comes back: a state read from the records that it was kept as has each
/// of them under its key, and nothing else.
pub proof fn law_kept_comes_back(kept: Seq<Record>)
    requires
        keys_ascend(kept),
    ensures
        forall|i: int|
            0 <= i < kept.len() ==> entry_map(kept).dom().contains(#[trigger] kept[i].key@)
                && entry_map(kept)[kept[i].key@] == kept[i].entry@,
        entry_map(kept).dom() == kept.map_values(|r: Record| r.key@).to_set(),
        entry_map(kept).dom().len() == kept.len(),
{
    lemma_entry_map(kept);
    let keys = kept.map_values(|r: Record| r.key@);
    assert forall|k: Seq<char>| entry_map(kept).dom().contains(k) == keys.to_set().contains(k) by {
        if entry_map(kept).dom().contains(k) {
            let i = choose|i: int| 0 <= i < kept.len() && #[trigger] kept[i].key@ == k;
            assert(keys[i] == k);
        }
        if keys.contains(k) {
            let i = choose|i: int| 0 <= i < keys.len() && keys[i] == k;
            assert(entry_map(kept).dom().contains(kept[i].key@));
        }
    }
    assert(entry_map(kept).dom() =~= keys.to_set());
}

} // verus!
