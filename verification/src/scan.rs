//! Which files of a tree are videos, and where the result of converting one goes.
use vstd::prelude::*;

use crate::config::{OutputConfig, OutputMode};
use crate::naming::{self, Resolved};
use crate::order;
use crate::path::{self, Component, FilePath};
use crate::path_laws;
use crate::text::{self, lowered, same_text};
use crate::utf8::utf8_text;

verus! {

/// Extensions of candidate video files, in lower case.
pub open spec fn video_names() -> Seq<Seq<char>> {
    seq![
        "mp4"@, "m4v"@, "mov"@, "mkv"@, "webm"@, "avi"@, "wmv"@, "flv"@, "f4v"@, "mpg"@,
        "mpeg"@, "m2v"@, "ts"@, "m2ts"@, "mts"@, "vob"@, "ogv"@, "ogm"@, "3gp"@, "3g2"@,
        "divx"@, "mxf"@, "asf"@, "rm"@, "rmvb"@, "y4m"@,
    ]
}

/// Whether an extension is that of a video, in any case.
pub open spec fn is_video_extension(ext: Seq<u8>) -> bool {
    vstd::utf8::valid_utf8(ext) && video_names().contains(
        text::ascii_lower(vstd::utf8::decode_utf8(ext)),
    )
}

/// Whether a path has the extension of a video.
pub open spec fn is_video_path(p: Seq<u8>) -> bool {
    match path::file_extension(p) {
        Some(ext) => is_video_extension(ext),
        None => false,
    }
}

/// Extensions of candidate video files, in lower case.
pub fn video_extensions() -> (r: Vec<&'static str>)
    ensures
        r@.map_values(|s: &'static str| s@) == video_names(),
{
    let r: Vec<&'static str> = vec![
        "mp4", "m4v", "mov", "mkv", "webm", "avi", "wmv", "flv", "f4v", "mpg", "mpeg", "m2v",
        "ts", "m2ts", "mts", "vob", "ogv", "ogm", "3gp", "3g2", "divx", "mxf", "asf", "rm",
        "rmvb", "y4m",
    ];
    assert(r@.map_values(|s: &'static str| s@) =~= video_names());
    r
}

/// Whether a path has the extension of a video.
pub fn has_video_extension(file: &FilePath) -> (r: bool)
    ensures
        r == is_video_path(file@),
{
    let ext = match file.extension() {
        Some(e) => e,
        None => {
            return false;
        },
    };
    let name = match utf8_text(ext.as_slice()) {
        Some(t) => t,
        None => {
            return false;
        },
    };
    let lower = lowered(name.as_str());
    let known = video_extensions();
    let ghost list = known@.map_values(|s: &'static str| s@);
    let mut i: usize = 0;
    #[verifier::loop_isolation(false)]
    while i < known.len()
        invariant
            i <= known.len(),
            list == known@.map_values(|s: &'static str| s@),
            forall|j: int| 0 <= j < i ==> list[j] != lower@,
        decreases known.len() - i,
    {
        assert(list[i as int] == known@[i as int]@);
        if same_text(lower.as_slice(), known[i]) {
            assert(list.contains(lower@));
            return true;
        }
        i += 1;
    }
    assert(!list.contains(lower@));
    false
}

/// How deep below a watched directory to look.
pub fn max_depth(recursive: bool) -> (r: usize)
    ensures
        r == if recursive {
            usize::MAX
        } else {
            1
        },
{
    if recursive {
        usize::MAX
    } else {
        1
    }
}

/// Something that a walk through a tree came upon.
#[derive(Debug)]
pub struct WalkEntry {
    pub path: FilePath,
    pub is_file: bool,
}

/// The paths of the video files that a walk came upon, in its order. What could not be
/// read (`None`) is left out.
pub open spec fn videos(entries: Seq<Option<WalkEntry>>) -> Seq<Seq<u8>>
    decreases entries.len(),
{
    if entries.len() == 0 {
        Seq::empty()
    } else {
        let before = videos(entries.drop_last());
        match entries.last() {
            Some(e) => if e.is_file && is_video_path(e.path@) {
                before.push(e.path@)
            } else {
                before
            },
            None => before,
        }
    }
}

/// Whether a path names something directly in the directory `root`.
pub open spec fn is_child(root: Seq<u8>, p: Seq<u8>) -> bool {
    path::parent(p) is Some && path::components(path::parent(p)->0) == path::components(root)
}

/// Whether a path that a walk from `root` came upon is wanted: any, or only `root` itself
/// and what is directly in it.
pub open spec fn is_wanted(root: Seq<u8>, recursive: bool, p: Seq<u8>) -> bool {
    recursive || path::components(p) == path::components(root) || is_child(root, p)
}

/// The paths of the wanted video files that a walk from `root` came upon.
pub open spec fn wanted(root: Seq<u8>, recursive: bool, entries: Seq<Option<WalkEntry>>) -> Seq<
    Seq<u8>,
> {
    videos(entries).filter(|p: Seq<u8>| is_wanted(root, recursive, p))
}

/// The bytes of each path.
pub open spec fn path_views(v: Seq<FilePath>) -> Seq<Seq<u8>> {
    v.map_values(|p: FilePath| p@)
}

/// The paths of `s` that have the components `c`.
pub open spec fn alike(s: Seq<Seq<u8>>, c: Seq<Component>) -> Seq<Seq<u8>> {
    s.filter(|p: Seq<u8>| path::components(p) == c)
}

/// No path comes before an earlier one.
pub open spec fn is_ordered(s: Seq<Seq<u8>>) -> bool {
    forall|i: int, j: int| 0 <= i < j < s.len() ==> !#[trigger] path::path_less(s[j], s[i])
}

/// `to` is `from` in the order of paths, where paths with the same components keep
/// the order that they had.
pub open spec fn sorted_from(from: Seq<Seq<u8>>, to: Seq<Seq<u8>>) -> bool {
    &&& is_ordered(to)
    &&& forall|c: Seq<Component>| #[trigger] alike(to, c) == alike(from, c)
}

/// The order of paths is that of their components, which is a strict total order.
pub proof fn lemma_component_order()
    ensures
        order::strict_total(
            |a: Seq<Component>, b: Seq<Component>|
                order::lex(a, b, |x: Component, y: Component| path::component_less(x, y)),
        ),
{
    order::lemma_bytes_less_strict_total();
    let bytes = |a: Seq<u8>, b: Seq<u8>| order::bytes_less(a, b);
    let lt = |x: Component, y: Component| path::component_less(x, y);
    assert forall|x: Component| !#[trigger] lt(x, x) by {
        if x is Normal {
            assert(!bytes(x->Normal_0, x->Normal_0));
        }
    }
    assert forall|x: Component, y: Component, z: Component| #[trigger]
        lt(x, y) && #[trigger] lt(y, z) implies lt(
        x,
        z,
    ) by {
        if x is Normal && y is Normal && z is Normal {
            assert(bytes(x->Normal_0, y->Normal_0) && bytes(y->Normal_0, z->Normal_0));
            assert(bytes(x->Normal_0, z->Normal_0));
        }
    }
    assert forall|x: Component, y: Component| x != y implies #[trigger] lt(x, y) || lt(y, x) by {
        if x is Normal && y is Normal {
            assert(bytes(x->Normal_0, y->Normal_0) || bytes(y->Normal_0, x->Normal_0));
        }
    }
    order::lemma_lex_strict_total(lt);
}

/// What the order of paths allows to conclude about three of them.
proof fn lemma_path_order(a: Seq<u8>, b: Seq<u8>, c: Seq<u8>)
    ensures
        !path::path_less(a, a),
        path::path_less(a, b) ==> path::components(a) != path::components(b),
        path::path_less(a, b) ==> !path::path_less(b, a),
        path::path_less(a, b) && !path::path_less(c, b) ==> path::path_less(a, c),
{
    lemma_component_order();
    let lt = |x: Seq<Component>, y: Seq<Component>|
        order::lex(x, y, |p: Component, q: Component| path::component_less(p, q));
    let (x, y, z) = (path::components(a), path::components(b), path::components(c));
    assert(lt(x, y) == path::path_less(a, b));
    assert(lt(y, x) == path::path_less(b, a));
    assert(lt(z, y) == path::path_less(c, b));
    assert(lt(y, z) == path::path_less(b, c));
    assert(lt(x, z) == path::path_less(a, c));
    assert(!lt(x, x));
    assert(y != z ==> lt(y, z) || lt(z, y));
    assert(lt(x, y) && lt(y, x) ==> lt(x, x));
}

/// Where a path goes in an ordered run of paths: behind all that do not come after it.
fn insertion_point(sorted: &Vec<FilePath>, p: &FilePath) -> (r: usize)
    requires
        is_ordered(path_views(sorted@)),
    ensures
        r <= sorted.len(),
        forall|j: int| 0 <= j < r ==> !path::path_less(p@, #[trigger] path_views(sorted@)[j]),
        forall|j: int|
            r <= j < sorted.len() ==> path::path_less(p@, #[trigger] path_views(sorted@)[j]),
{
    let ghost v = path_views(sorted@);
    let mut low: usize = 0;
    let mut high: usize = sorted.len();
    while low < high
        invariant
            low <= high <= sorted.len(),
            v == path_views(sorted@),
            is_ordered(v),
            forall|j: int| 0 <= j < low ==> !path::path_less(p@, #[trigger] v[j]),
            forall|j: int| high <= j < sorted.len() ==> path::path_less(p@, #[trigger] v[j]),
        decreases high - low,
    {
        let mid: usize = low + (high - low) / 2;
        assert(v[mid as int] == sorted@[mid as int]@);
        if p.before(&sorted[mid]) {
            assert forall|j: int| mid <= j < sorted.len() implies path::path_less(
                p@,
                #[trigger] v[j],
            ) by {
                if j > mid {
                    assert(!path::path_less(v[j], v[mid as int]));
                    lemma_path_order(p@, v[mid as int], v[j]);
                }
            }
            high = mid;
        } else {
            assert forall|j: int| 0 <= j <= mid implies !path::path_less(p@, #[trigger] v[j]) by {
                if j < mid {
                    assert(!path::path_less(v[mid as int], v[j]));
                    lemma_path_order(p@, v[j], v[mid as int]);
                }
            }
            low = mid + 1;
        }
    }
    low
}

/// Inserting a path where it belongs keeps the order, and puts it behind its equals.
proof fn lemma_insert_sorted(from: Seq<Seq<u8>>, to: Seq<Seq<u8>>, p: Seq<u8>, k: int)
    requires
        sorted_from(from, to),
        0 <= k <= to.len(),
        forall|j: int| 0 <= j < k ==> !path::path_less(p, #[trigger] to[j]),
        forall|j: int| k <= j < to.len() ==> path::path_less(p, #[trigger] to[j]),
    ensures
        sorted_from(from.push(p), to.insert(k, p)),
{
    let after = to.insert(k, p);
    assert forall|i: int, j: int| 0 <= i < j < after.len() implies !#[trigger] path::path_less(
        after[j],
        after[i],
    ) by {
        if i < k && j > k {
            assert(after[i] == to[i] && after[j] == to[j - 1]);
        } else if i == k {
            assert(after[j] == to[j - 1]);
            lemma_path_order(p, to[j - 1], p);
        } else if j == k {
            assert(after[i] == to[i]);
        } else if j < k {
            assert(after[i] == to[i] && after[j] == to[j]);
        } else {
            assert(after[i] == to[i - 1] && after[j] == to[j - 1]);
        }
    }
    assert forall|c: Seq<Component>| #[trigger] alike(after, c) == alike(from.push(p), c) by {
        let pred = |q: Seq<u8>| path::components(q) == c;
        let front = to.take(k);
        let back = to.skip(k);
        assert(to =~= front + back);
        assert(after =~= front.push(p) + back);
        Seq::filter_distributes_over_add(front, back, pred);
        Seq::filter_distributes_over_add(front.push(p), back, pred);
        front.lemma_filter_push(p, pred);
        from.lemma_filter_push(p, pred);
        assert(alike(to, c) == alike(from, c));
        if path::components(p) == c {
            assert forall|j: int| 0 <= j < back.len() implies !pred(#[trigger] back[j]) by {
                assert(back[j] == to[k + j]);
                lemma_path_order(p, to[k + j], p);
            }
            back.lemma_all_neg_filter_empty(pred);
            assert(back.filter(pred) =~= Seq::empty());
            assert(alike(after, c) =~= alike(from.push(p), c));
        } else {
            assert(alike(after, c) =~= alike(from.push(p), c));
        }
    }
}

fn wants(root: &FilePath, recursive: bool, p: &FilePath) -> (r: bool)
    ensures
        r == is_wanted(root@, recursive, p@),
{
    if recursive || p.same(root) {
        return true;
    }
    match p.parent() {
        Some(dir) => dir.same(root),
        None => false,
    }
}

/// The wanted video files that a walk from `root` came upon, in the order of paths.
pub fn candidates(root: &FilePath, recursive: bool, entries: Vec<Option<WalkEntry>>) -> (r: Vec<
    FilePath,
>)
    ensures
        sorted_from(wanted(root@, recursive, entries@), path_views(r@)),
{
    let ghost want = |p: Seq<u8>| is_wanted(root@, recursive, p);
    let mut out: Vec<FilePath> = Vec::new();
    let mut i: usize = 0;
    assert(entries@.take(0) =~= Seq::empty());
    assert(path_views(out@) =~= Seq::empty());
    assert(videos(entries@.take(0)).filter(want) =~= Seq::empty());
    while i < entries.len()
        invariant
            i <= entries.len(),
            want == (|p: Seq<u8>| is_wanted(root@, recursive, p)),
            sorted_from(videos(entries@.take(i as int)).filter(want), path_views(out@)),
        decreases entries.len() - i,
    {
        let ghost seen = entries@.take(i + 1);
        let ghost found = videos(entries@.take(i as int));
        assert(seen.drop_last() =~= entries@.take(i as int));
        match &entries[i] {
            Some(e) => {
                proof {
                    found.lemma_filter_push(e.path@, want);
                }
                if e.is_file && has_video_extension(&e.path) && wants(root, recursive, &e.path) {
                    let ghost before = path_views(out@);
                    let k = insertion_point(&out, &e.path);
                    out.insert(k, e.path.copy());
                    assert(path_views(out@) =~= before.insert(k as int, e.path@));
                    proof {
                        lemma_insert_sorted(found.filter(want), before, e.path@, k as int);
                    }
                }
            },
            None => {},
        }
        i += 1;
    }
    assert(entries@.take(entries@.len() as int) =~= entries@);
    out
}

proof fn lemma_filters_commute(
    s: Seq<Seq<u8>>,
    f: spec_fn(Seq<u8>) -> bool,
    g: spec_fn(Seq<u8>) -> bool,
)
    ensures
        s.filter(f).filter(g) == s.filter(g).filter(f),
    decreases s.len(),
{
    if s.len() == 0 {
        assert(s =~= Seq::empty());
    } else {
        let d = s.drop_last();
        let x = s.last();
        assert(s =~= d.push(x));
        lemma_filters_commute(d, f, g);
        d.lemma_filter_push(x, f);
        d.lemma_filter_push(x, g);
        d.filter(f).lemma_filter_push(x, g);
        d.filter(g).lemma_filter_push(x, f);
    }
}

proof fn lemma_filter_ordered(s: Seq<Seq<u8>>, f: spec_fn(Seq<u8>) -> bool)
    requires
        is_ordered(s),
    ensures
        is_ordered(s.filter(f)),
    decreases s.len(),
{
    reveal(Seq::filter);
    if s.len() > 0 {
        let d = s.drop_last();
        let kept = d.filter(f);
        lemma_filter_ordered(d, f);
        assert forall|i: int| 0 <= i < kept.len() implies !path::path_less(
            s.last(),
            #[trigger] kept[i],
        ) by {
            assert(kept.contains(kept[i]));
            d.lemma_filter_contains_rev(f, kept[i]);
            let j = choose|j: int| 0 <= j < d.len() && d[j] == kept[i];
            assert(!path::path_less(s[s.len() - 1], s[j]));
        }
    }
}

/// Dropping paths before sorting is the same as dropping them afterwards.
proof fn lemma_filter_sorted(
    from: Seq<Seq<u8>>,
    to: Seq<Seq<u8>>,
    f: spec_fn(Seq<u8>) -> bool,
)
    requires
        sorted_from(from, to),
    ensures
        sorted_from(from.filter(f), to.filter(f)),
{
    lemma_filter_ordered(to, f);
    assert forall|c: Seq<Component>| #[trigger] alike(to.filter(f), c) == alike(
        from.filter(f),
        c,
    ) by {
        let same = |p: Seq<u8>| path::components(p) == c;
        assert(alike(to, c) == alike(from, c));
        lemma_filters_commute(to, f, same);
        lemma_filters_commute(from, f, same);
    }
}

/// The last of an ordered run comes last among all that it holds.
proof fn lemma_last_is_latest(s: Seq<Seq<u8>>, c: Seq<Component>)
    requires
        is_ordered(s),
        s.len() > 0,
        alike(s, c).len() > 0,
    ensures
        !order::lex(
            path::components(s.last()),
            c,
            |x: Component, y: Component| path::component_less(x, y),
        ),
{
    let same = |p: Seq<u8>| path::components(p) == c;
    let q = s.filter(same)[0];
    s.lemma_filter_pred(same, 0);
    assert(s.filter(same).contains(q));
    s.lemma_filter_contains_rev(same, q);
    let j = choose|j: int| 0 <= j < s.len() && s[j] == q;
    lemma_path_order(q, q, q);
    if j < s.len() - 1 {
        assert(!path::path_less(s[s.len() - 1], s[j]));
    }
}

/// There is one way only to sort.
proof fn lemma_sorted_unique(from: Seq<Seq<u8>>, a: Seq<Seq<u8>>, b: Seq<Seq<u8>>)
    requires
        sorted_from(from, a),
        sorted_from(from, b),
    ensures
        a == b,
{
    assert forall|c: Seq<Component>| #[trigger] alike(a, c) == alike(b, c) by {
        assert(alike(a, c) == alike(from, c));
        assert(alike(b, c) == alike(from, c));
    }
    lemma_ordered_unique(a, b);
}

proof fn lemma_alike_last(s: Seq<Seq<u8>>, c: Seq<Component>)
    requires
        s.len() > 0,
    ensures
        alike(s, c) == if path::components(s.last()) == c {
            alike(s.drop_last(), c).push(s.last())
        } else {
            alike(s.drop_last(), c)
        },
{
    let same = |p: Seq<u8>| path::components(p) == c;
    assert(s =~= s.drop_last().push(s.last()));
    s.drop_last().lemma_filter_push(s.last(), same);
}

proof fn lemma_ordered_unique(a: Seq<Seq<u8>>, b: Seq<Seq<u8>>)
    requires
        is_ordered(a),
        is_ordered(b),
        forall|c: Seq<Component>| #[trigger] alike(a, c) == alike(b, c),
    ensures
        a == b,
    decreases a.len(),
{
    if a.len() > 0 {
        let ca = path::components(a.last());
        lemma_alike_last(a, ca);
        assert(alike(a, ca) == alike(b, ca));
        if b.len() == 0 {
            b.lemma_filter_len(|p: Seq<u8>| path::components(p) == ca);
        }
    }
    if b.len() > 0 {
        let cb = path::components(b.last());
        lemma_alike_last(b, cb);
        assert(alike(a, cb) == alike(b, cb));
        if a.len() == 0 {
            a.lemma_filter_len(|p: Seq<u8>| path::components(p) == cb);
        }
    }
    if a.len() > 0 && b.len() > 0 {
        let (ca, cb) = (path::components(a.last()), path::components(b.last()));
        let lt = |x: Seq<Component>, y: Seq<Component>|
            order::lex(x, y, |p: Component, q: Component| path::component_less(p, q));
        lemma_last_is_latest(a, cb);
        lemma_last_is_latest(b, ca);
        lemma_component_order();
        assert(!lt(ca, cb) && !lt(cb, ca));
        assert(ca == cb);
        let (da, db) = (a.drop_last(), b.drop_last());
        assert(alike(a, ca).last() == a.last() && alike(b, ca).last() == b.last());
        assert forall|c: Seq<Component>| #[trigger] alike(da, c) == alike(db, c) by {
            lemma_alike_last(a, c);
            lemma_alike_last(b, c);
            assert(alike(a, c) == alike(b, c));
            if c == ca {
                assert(alike(a, c).drop_last() =~= alike(da, c));
                assert(alike(b, c).drop_last() =~= alike(db, c));
            }
        }
        lemma_ordered_unique(da, db);
        assert(a =~= da.push(a.last()));
        assert(b =~= db.push(b.last()));
    } else {
        assert(a =~= b);
    }
}

proof fn lemma_same_filter(
    s: Seq<Seq<u8>>,
    f: spec_fn(Seq<u8>) -> bool,
    g: spec_fn(Seq<u8>) -> bool,
)
    requires
        forall|i: int| 0 <= i < s.len() ==> f(#[trigger] s[i]) == g(s[i]),
    ensures
        s.filter(f) == s.filter(g),
    decreases s.len(),
{
    reveal(Seq::filter);
    if s.len() > 0 {
        lemma_same_filter(s.drop_last(), f, g);
    }
}

proof fn lemma_filter_everything(s: Seq<Seq<u8>>, f: spec_fn(Seq<u8>) -> bool)
    requires
        forall|i: int| 0 <= i < s.len() ==> f(#[trigger] s[i]),
    ensures
        s.filter(f) == s,
    decreases s.len(),
{
    reveal(Seq::filter);
    if s.len() > 0 {
        lemma_filter_everything(s.drop_last(), f);
        assert(s =~= s.drop_last().push(s.last()));
    }
}

/// Whether nothing that a walk from `root` came upon is a file at `root` itself, as where
/// `root` is a directory.
pub open spec fn root_is_no_file(root: Seq<u8>, entries: Seq<Option<WalkEntry>>) -> bool {
    forall|i: int|
        0 <= i < entries.len() && (#[trigger] entries[i]) is Some && entries[i]->0.is_file
            ==> path::components(entries[i]->0.path@) != path::components(root)
}

proof fn lemma_videos_are_not_root(root: Seq<u8>, entries: Seq<Option<WalkEntry>>, i: int)
    requires
        root_is_no_file(root, entries),
        0 <= i < videos(entries).len(),
    ensures
        path::components(videos(entries)[i]) != path::components(root),
    decreases entries.len(),
{
    if entries.len() > 0 {
        let d = entries.drop_last();
        assert forall|k: int|
            0 <= k < d.len() && (#[trigger] d[k]) is Some
                && d[k]->0.is_file implies path::components(d[k]->0.path@) != path::components(
            root,
        ) by {
            assert(d[k] == entries[k]);
        }
        assert(entries.last() == entries[entries.len() - 1]);
        if i < videos(d).len() {
            lemma_videos_are_not_root(root, d, i);
        }
    }
}

/// Without going deeper, the candidates of a directory are exactly those of the whole tree
/// that are directly in it, in the same order. `shallow` is what a walk came upon that does
/// not go deeper, or the whole walk again.
pub proof fn law_flat_scan_is_direct_children(
    root: Seq<u8>,
    entries: Seq<Option<WalkEntry>>,
    shallow: Seq<Option<WalkEntry>>,
    all: Seq<Seq<u8>>,
    flat: Seq<Seq<u8>>,
)
    requires
        root_is_no_file(root, entries),
        wanted(root, false, shallow) == wanted(root, false, entries),
        sorted_from(wanted(root, true, entries), all),
        sorted_from(wanted(root, false, shallow), flat),
    ensures
        flat == all.filter(|p: Seq<u8>| is_child(root, p)),
{
    let found = videos(entries);
    let child = |p: Seq<u8>| is_child(root, p);
    lemma_filter_everything(found, |p: Seq<u8>| is_wanted(root, true, p));
    assert forall|i: int| 0 <= i < found.len() implies is_wanted(root, false, #[trigger] found[i])
        == is_child(root, found[i]) by {
        lemma_videos_are_not_root(root, entries, i);
    }
    lemma_same_filter(found, |p: Seq<u8>| is_wanted(root, false, p), child);
    lemma_filter_sorted(found, all, child);
    lemma_sorted_unique(found.filter(child), flat, all.filter(child));
}

/// The directory that the result of converting `input` goes to.
///
/// Below another directory it has the place that the source has below `watch_root`, or
/// no place of its own where the source is not below it.
pub open spec fn result_dir(
    input: Seq<u8>,
    watch_root: Seq<u8>,
    mode: OutputMode,
    directory: Option<Seq<u8>>,
) -> Option<Seq<u8>> {
    match (mode, directory) {
        (OutputMode::Beside, _) => path::parent(input),
        (OutputMode::Directory, None) => None,
        (OutputMode::Directory, Some(base)) => match path::strip_prefix(input, watch_root) {
            Some(rest) => match path::parent(rest) {
                Some(rel) => Some(path::join(base, rel)),
                None => Some(base),
            },
            None => Some(base),
        },
    }
}

/// The directory that the result of converting `input` goes to.
pub fn output_dir(input: &FilePath, watch_root: &FilePath, output: &OutputConfig) -> (r: Option<
    FilePath,
>)
    ensures
        naming::view_of(r) == result_dir(
            input@,
            watch_root@,
            output.mode,
            naming::view_of(output.directory),
        ),
{
    match output.mode {
        OutputMode::Beside => input.parent(),
        OutputMode::Directory => match &output.directory {
            None => None,
            Some(base) => match input.strip_prefix(watch_root) {
                Some(rest) => match rest.parent() {
                    Some(rel) => Some(base.join(rel.bytes.as_slice())),
                    None => Some(base.copy()),
                },
                None => Some(base.copy()),
            },
        },
    }
}

/// The path that the result of converting `input` would have, before it is known
/// whether this is the source itself.
pub fn output_choice(input: &FilePath, watch_root: &FilePath, output: &OutputConfig) -> (r: Option<
    FilePath,
>)
    ensures
        naming::view_of(r) == naming::choice(
            input@,
            result_dir(input@, watch_root@, output.mode, naming::view_of(output.directory)),
            output.suffix@,
        ),
{
    let dir = output_dir(input, watch_root, output);
    naming::first_choice(input, &dir, output.suffix.as_str())
}

/// The `.webm` path for the result of converting `input`, where `resolved` says what the
/// path of `output_choice` and the source resolve to.
pub fn output_path(
    input: &FilePath,
    watch_root: &FilePath,
    output: &OutputConfig,
    resolved: &Resolved,
) -> (r: Option<FilePath>)
    ensures
        naming::view_of(r) == naming::settled(
            input@,
            result_dir(input@, watch_root@, output.mode, naming::view_of(output.directory)),
            output.suffix@,
            naming::view_of(resolved.choice),
            naming::view_of(resolved.input),
        ),
{
    let dir = output_dir(input, watch_root, output);
    naming::settle(input, &dir, output.suffix.as_str(), resolved)
}

/// A result beside its source has the source's path but for the file name.
pub proof fn law_beside_source(input: Seq<u8>, name: Seq<u8>, suffix: Seq<char>)
    requires
        naming::usable_stem(input) is Some,
        path_laws::slash_free(vstd::utf8::encode_utf8(suffix)),
        name == naming::webm_name(naming::usable_stem(input)->0, suffix)
            || name == naming::av1_webm_name(naming::usable_stem(input)->0, suffix),
    ensures
        path::parent(input) is Some,
        path::components(path::join(path::parent(input)->0, name)) == path::components(
            input,
        ).drop_last().push(Component::Normal(name)),
{
    naming::lemma_name_is_component(input, name, suffix);
    path_laws::lemma_parent_components(input);
    let d = path::parent(input)->0;
    if d.len() == 0 {
        assert(path::join(d, name) =~= name);
        path_laws::lemma_empty_components();
        assert(d =~= Seq::empty());
    } else {
        path_laws::lemma_join_components(d, name);
    }
    assert(path::components(path::join(d, name)) =~= path::components(input).drop_last().push(
        Component::Normal(name),
    ));
}

/// A source that already has the name of its result gets a result with `.av1` in its
/// name. Any other gets the plain name, unless that leads back to the source by another
/// path.
pub proof fn law_name_of_result(
    input: Seq<u8>,
    suffix: Seq<char>,
    choice_resolved: Option<Seq<u8>>,
    input_resolved: Option<Seq<u8>>,
)
    requires
        naming::usable_stem(input) is Some,
        path_laws::slash_free(vstd::utf8::encode_utf8(suffix)),
    ensures
        ({
            let stem = naming::usable_stem(input)->0;
            let dir = path::parent(input);
            let result = naming::settled(input, dir, suffix, choice_resolved, input_resolved);
            let plain = naming::webm_name(stem, suffix);
            &&& dir is Some
            &&& path::file_name(input) == Some(plain) ==> result == Some(
                path::join(dir->0, naming::av1_webm_name(stem, suffix)),
            )
            &&& path::file_name(input) != Some(plain) && (choice_resolved is None || input_resolved
                is None) ==> result == Some(path::join(dir->0, plain))
        }),
{
    reveal(naming::choice);
    reveal(naming::settled);
    let plain = naming::webm_name(naming::usable_stem(input)->0, suffix);
    law_beside_source(input, plain, suffix);
    naming::lemma_stem(input);
    let cs = path::components(input);
    let cf = path::components(path::join(path::parent(input)->0, plain));
    assert(cf.last() == Component::Normal(plain));
    assert(path::file_name(input) == Some(plain) ==> cf =~= cs);
    naming::law_result_has_a_place(
        input,
        path::parent(input),
        suffix,
        choice_resolved,
        input_resolved,
    );
}

/// A result below another directory has the place there that the source has below the
/// watched one.
pub proof fn law_mirrors_tree(
    input: Seq<u8>,
    watch_root: Seq<u8>,
    base: Seq<u8>,
    name: Seq<u8>,
    suffix: Seq<char>,
)
    requires
        naming::usable_stem(input) is Some,
        path_laws::slash_free(vstd::utf8::encode_utf8(suffix)),
        name == naming::webm_name(naming::usable_stem(input)->0, suffix)
            || name == naming::av1_webm_name(naming::usable_stem(input)->0, suffix),
        path::components(watch_root).is_prefix_of(path::components(input)),
        path::components(watch_root).len() < path::components(input).len(),
        path::components(watch_root).len() > 0 || path::lead(input).len() == 0,
    ensures
        result_dir(input, watch_root, OutputMode::Directory, Some(base)) is Some,
        path::components(
            path::join(result_dir(input, watch_root, OutputMode::Directory, Some(base))->0, name),
        ) == path::components(base) + path::components(input).skip(
            path::components(watch_root).len() as int,
        ).drop_last().push(Component::Normal(name)),
{
    naming::lemma_name_is_component(input, name, suffix);
    naming::lemma_stem(input);
    path_laws::lemma_strip_prefix_components(input, watch_root);
    let n = path::components(watch_root).len() as int;
    let rest = path::strip_prefix(input, watch_root)->0;
    path_laws::lemma_parent_components(rest);
    let cs = path::components(rest);
    assert(cs == path::components(input).skip(n));
    assert(cs.last() == path::components(input).last());
    let rel = path::parent(rest)->0;
    let d = path::join(base, rel);
    path_laws::lemma_lead(input);
    path_laws::lemma_lead(rel);
    if path::lead(rel).len() > 0 {
        assert(path::components(rel)[0] == path::components(input)[n]);
    }
    assert(path::components(rel) =~= path::body(path::names(rel)));
    path_laws::lemma_empty_components();
    if base.len() == 0 {
        assert(base =~= Seq::empty());
        assert(d =~= rel);
    } else {
        path_laws::lemma_join_components(base, rel);
    }
    assert(path::components(d) =~= path::components(base) + cs.drop_last());
    if d.len() == 0 {
        assert(d =~= Seq::empty());
        assert(path::join(d, name) =~= name);
    } else {
        path_laws::lemma_join_components(d, name);
    }
    assert(path::components(path::join(d, name)) =~= path::components(base) + cs.drop_last().push(
        Component::Normal(name),
    ));
}

} // verus!
