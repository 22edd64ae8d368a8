//! Which files a scan takes up, and in what order.
use vstd::prelude::*;

use crate::path::{self, Component};
use crate::path_laws;
use crate::scan::{self, WalkEntry};
use crate::text;

verus! {

/// The endings of video files, in lower case.
pub open spec fn is_video_ending(t: Seq<char>) -> bool {
    ||| t == "mp4"@
    ||| t == "m4v"@
    ||| t == "mov"@
    ||| t == "mkv"@
    ||| t == "webm"@
    ||| t == "avi"@
    ||| t == "wmv"@
    ||| t == "flv"@
    ||| t == "f4v"@
    ||| t == "mpg"@
    ||| t == "mpeg"@
    ||| t == "m2v"@
    ||| t == "ts"@
    ||| t == "m2ts"@
    ||| t == "mts"@
    ||| t == "vob"@
    ||| t == "ogv"@
    ||| t == "ogm"@
    ||| t == "3gp"@
    ||| t == "3g2"@
    ||| t == "divx"@
    ||| t == "mxf"@
    ||| t == "asf"@
    ||| t == "rm"@
    ||| t == "rmvb"@
    ||| t == "y4m"@
}

/// A path is that of a video where its extension is one of the known ones, whatever the
/// case of its ASCII letters.
pub proof fn law_which_names_are_videos(p: Seq<u8>)
    ensures
        scan::is_video_path(p) <==> {
            &&& path::file_extension(p) is Some
            &&& vstd::utf8::valid_utf8(path::file_extension(p)->0)
            &&& is_video_ending(
                text::ascii_lower(vstd::utf8::decode_utf8(path::file_extension(p)->0)),
            )
        },
{
    let list = scan::video_names();
    assert(list[0] == "mp4"@);
    assert(list[1] == "m4v"@);
    assert(list[2] == "mov"@);
    assert(list[3] == "mkv"@);
    assert(list[4] == "webm"@);
    assert(list[5] == "avi"@);
    assert(list[6] == "wmv"@);
    assert(list[7] == "flv"@);
    assert(list[8] == "f4v"@);
    assert(list[9] == "mpg"@);
    assert(list[10] == "mpeg"@);
    assert(list[11] == "m2v"@);
    assert(list[12] == "ts"@);
    assert(list[13] == "m2ts"@);
    assert(list[14] == "mts"@);
    assert(list[15] == "vob"@);
    assert(list[16] == "ogv"@);
    assert(list[17] == "ogm"@);
    assert(list[18] == "3gp"@);
    assert(list[19] == "3g2"@);
    assert(list[20] == "divx"@);
    assert(list[21] == "mxf"@);
    assert(list[22] == "asf"@);
    assert(list[23] == "rm"@);
    assert(list[24] == "rmvb"@);
    assert(list[25] == "y4m"@);
    if path::file_extension(p) is Some {
        let t = text::ascii_lower(vstd::utf8::decode_utf8(path::file_extension(p)->0));
        if list.contains(t) {
            let i = choose|i: int| 0 <= i < list.len() && list[i] == t;
            assert(is_video_ending(list[i]));
        }
        if is_video_ending(t) {
            lemma_listed(t);
        }
    }
}

proof fn lemma_listed(t: Seq<char>)
    requires
        is_video_ending(t),
    ensures
        scan::video_names().contains(t),
{
    let list = scan::video_names();
    assert(list[0] == "mp4"@);
    assert(list[1] == "m4v"@);
    assert(list[2] == "mov"@);
    assert(list[3] == "mkv"@);
    assert(list[4] == "webm"@);
    assert(list[5] == "avi"@);
    assert(list[6] == "wmv"@);
    assert(list[7] == "flv"@);
    assert(list[8] == "f4v"@);
    assert(list[9] == "mpg"@);
    assert(list[10] == "mpeg"@);
    assert(list[11] == "m2v"@);
    assert(list[12] == "ts"@);
    assert(list[13] == "m2ts"@);
    assert(list[14] == "mts"@);
    assert(list[15] == "vob"@);
    assert(list[16] == "ogv"@);
    assert(list[17] == "ogm"@);
    assert(list[18] == "3gp"@);
    assert(list[19] == "3g2"@);
    assert(list[20] == "divx"@);
    assert(list[21] == "mxf"@);
    assert(list[22] == "asf"@);
    assert(list[23] == "rm"@);
    assert(list[24] == "rmvb"@);
    assert(list[25] == "y4m"@);
}

/// Whether a path is the root of a walk, or names something directly in it.
pub open spec fn is_near(root: Seq<u8>, p: Seq<u8>) -> bool {
    let cs = path::components(p);
    ||| cs == path::components(root)
    ||| cs.len() > 0 && cs.last() != Component::Root && cs.drop_last() == path::components(root)
}

/// Whether an entry of a walk from `root` is a file with the path `p` that is to be taken.
pub open spec fn is_taken(
    root: Seq<u8>,
    recursive: bool,
    entry: Option<WalkEntry>,
    p: Seq<u8>,
) -> bool {
    match entry {
        Some(e) => e.is_file && e.path.bytes@ == p && scan::is_video_path(p) && (recursive
            || is_near(root, p)),
        None => false,
    }
}

/// To be just this path.
pub open spec fn is_just(p: Seq<u8>) -> spec_fn(Seq<u8>) -> bool {
    |q: Seq<u8>| q == p
}

/// How often a path is among others.
pub open spec fn times_among(s: Seq<Seq<u8>>, p: Seq<u8>) -> nat {
    s.filter(is_just(p)).len()
}

/// How often a walk came upon a path that is to be taken.
pub open spec fn times_taken(
    root: Seq<u8>,
    recursive: bool,
    entries: Seq<Option<WalkEntry>>,
    p: Seq<u8>,
) -> nat {
    entries.filter(|e: Option<WalkEntry>| is_taken(root, recursive, e, p)).len()
}

proof fn lemma_wanted_is_near(root: Seq<u8>, recursive: bool, p: Seq<u8>)
    ensures
        scan::is_wanted(root, recursive, p) <==> recursive || is_near(root, p),
{
    path_laws::lemma_parent_components(p);
    let cs = path::components(p);
    if cs.len() > 0 && path::parent(p) is None {
        assert(cs.last() == Component::Root);
    }
}

/// How often a path is among the wanted ones.
proof fn lemma_wanted_count(
    root: Seq<u8>,
    recursive: bool,
    entries: Seq<Option<WalkEntry>>,
    p: Seq<u8>,
)
    ensures
        times_among(scan::wanted(root, recursive, entries), p) == times_taken(
            root,
            recursive,
            entries,
            p,
        ),
    decreases entries.len(),
{
    let want = |q: Seq<u8>| scan::is_wanted(root, recursive, q);
    let same = is_just(p);
    let taken = |e: Option<WalkEntry>| is_taken(root, recursive, e, p);
    reveal(Seq::filter);
    if entries.len() > 0 {
        let d = entries.drop_last();
        let e = entries.last();
        lemma_wanted_count(root, recursive, d, p);
        if e is Some {
            let q = e->0.path@;
            lemma_wanted_is_near(root, recursive, q);
            scan::videos(d).lemma_filter_push(q, want);
            scan::videos(d).filter(want).lemma_filter_push(q, same);
        }
    }
}

proof fn lemma_filter_twice(s: Seq<Seq<u8>>, p: Seq<u8>)
    ensures
        times_among(s, p) == times_among(scan::alike(s, path::components(p)), p),
    decreases s.len(),
{
    let same = is_just(p);
    let c = path::components(p);
    let pred = |q: Seq<u8>| path::components(q) == c;
    reveal(Seq::filter);
    if s.len() > 0 {
        let d = s.drop_last();
        let x = s.last();
        lemma_filter_twice(d, p);
        assert(s =~= d.push(x));
        d.lemma_filter_push(x, pred);
        scan::alike(d, c).lemma_filter_push(x, same);
    }
}

/// A scan takes up every file of a walk that has the name of a video, once for each time
/// that the walk came upon it, and nothing else; without going deeper only what is directly
/// in the directory. No path comes before an earlier one.
pub proof fn law_which_files_are_taken(
    root: Seq<u8>,
    recursive: bool,
    entries: Seq<Option<WalkEntry>>,
    result: Seq<Seq<u8>>,
)
    requires
        scan::sorted_from(scan::wanted(root, recursive, entries), result),
    ensures
        forall|p: Seq<u8>|
            #[trigger] result.contains(p) <==> exists|i: int|
                0 <= i < entries.len() && is_taken(root, recursive, #[trigger] entries[i], p),
        forall|p: Seq<u8>|
            #[trigger] times_among(result, p) == times_taken(root, recursive, entries, p),
        forall|i: int, j: int|
            0 <= i < j < result.len() ==> !#[trigger] path::path_less(result[j], result[i]),
{
    assert forall|p: Seq<u8>|
        #[trigger] times_among(result, p) == times_taken(root, recursive, entries, p) by {
        lemma_times(root, recursive, entries, result, p);
    }
    assert forall|p: Seq<u8>|
        #[trigger] result.contains(p) <==> exists|i: int|
            0 <= i < entries.len() && is_taken(root, recursive, #[trigger] entries[i], p) by {
        lemma_times(root, recursive, entries, result, p);
        lemma_among(result, p);
        lemma_taken(root, recursive, entries, p);
    }
}

proof fn lemma_times(
    root: Seq<u8>,
    recursive: bool,
    entries: Seq<Option<WalkEntry>>,
    result: Seq<Seq<u8>>,
    p: Seq<u8>,
)
    requires
        scan::sorted_from(scan::wanted(root, recursive, entries), result),
    ensures
        times_among(result, p) == times_taken(root, recursive, entries, p),
{
    let all = scan::wanted(root, recursive, entries);
    let c = path::components(p);
    assert(scan::alike(result, c) == scan::alike(all, c));
    lemma_filter_twice(result, p);
    lemma_filter_twice(all, p);
    lemma_wanted_count(root, recursive, entries, p);
}

proof fn lemma_among(s: Seq<Seq<u8>>, p: Seq<u8>)
    ensures
        s.contains(p) <==> times_among(s, p) > 0,
{
    let same = is_just(p);
    let found = s.filter(same);
    if s.contains(p) {
        let i = choose|i: int| 0 <= i < s.len() && s[i] == p;
        s.lemma_filter_contains(same, i);
        assert(found.contains(s[i]));
    }
    if found.len() > 0 {
        s.lemma_filter_pred(same, 0);
        assert(found.contains(found[0]));
        s.lemma_filter_contains_rev(same, found[0]);
    }
}

proof fn lemma_taken(
    root: Seq<u8>,
    recursive: bool,
    entries: Seq<Option<WalkEntry>>,
    p: Seq<u8>,
)
    ensures
        (exists|i: int|
            0 <= i < entries.len() && is_taken(root, recursive, #[trigger] entries[i], p))
            <==> times_taken(root, recursive, entries, p) > 0,
{
    let taken = |e: Option<WalkEntry>| is_taken(root, recursive, e, p);
    let found = entries.filter(taken);
    if exists|i: int|
        0 <= i < entries.len() && is_taken(root, recursive, #[trigger] entries[i], p) {
        let k = choose|i: int|
            0 <= i < entries.len() && is_taken(root, recursive, #[trigger] entries[i], p);
        entries.lemma_filter_contains(taken, k);
        assert(found.contains(entries[k]));
    }
    if found.len() > 0 {
        entries.lemma_filter_pred(taken, 0);
        assert(found.contains(found[0]));
        entries.lemma_filter_contains_rev(taken, found[0]);
        let k = choose|k: int| 0 <= k < entries.len() && entries[k] == found[0];
        assert(is_taken(root, recursive, entries[k], p));
    }
}

} // verus!
