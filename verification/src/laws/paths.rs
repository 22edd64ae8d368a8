//! What the bytes of a path name.
use vstd::prelude::*;

use crate::naming;
use crate::order;
use crate::path::{self, Component};
use crate::path_laws;

verus! {

/// No byte is a slash.
pub open spec fn is_name(n: Seq<u8>) -> bool {
    forall|i: int| 0 <= i < n.len() ==> #[trigger] n[i] != 47u8
}

/// What a name adds to a path: nothing where it is empty or a dot.
pub open spec fn adds(n: Seq<u8>) -> Seq<Component> {
    if n.len() == 0 || n == seq![46u8] {
        Seq::empty()
    } else if n == seq![46u8, 46u8] {
        seq![Component::Parent]
    } else {
        seq![Component::Normal(n)]
    }
}

/// The components of a path: a name after a slash adds what it names; alone it is that, or
/// the current directory where it is a dot; after a leading slash it is below the root.
pub proof fn law_components(a: Seq<u8>, n: Seq<u8>)
    requires
        is_name(n),
    ensures
        a.len() > 0 ==> path::components(a.push(47u8) + n) == path::components(a) + adds(n),
        path::components(n) == if n == seq![46u8] {
            seq![Component::Current]
        } else {
            adds(n)
        },
        path::components(seq![47u8] + n) == seq![Component::Root] + adds(n),
{
    let sep = |b: u8| b == 47u8;
    lemma_names_of_name(n);
    lemma_body_of_name(n);
    assert(path::components(n) =~= if n == seq![46u8] {
        seq![Component::Current]
    } else {
        adds(n)
    });
    if a.len() > 0 {
        lemma_after_slash(a, n);
    }
    let e = Seq::<u8>::empty();
    lemma_names_of_name(e);
    path_laws::lemma_pieces_concat(e, 47u8, n, sep);
    assert(e.push(47u8) + n =~= seq![47u8] + n);
    assert(path::names(seq![47u8] + n) =~= seq![e, n]);
    assert(seq![e, n].drop_last() =~= seq![e]);
    assert(seq![e].drop_last() =~= Seq::empty());
    assert(path::body(seq![e].drop_last()) =~= Seq::empty());
    assert(path::body(seq![e]) =~= Seq::empty());
    assert(path::body(seq![e, n]) =~= adds(n));
}

proof fn lemma_names_of_name(n: Seq<u8>)
    requires
        is_name(n),
    ensures
        path::names(n) == seq![n],
    decreases n.len(),
{
    if n.len() > 0 {
        let d = n.drop_last();
        lemma_names_of_name(d);
        assert(n.last() == n[n.len() - 1]);
        assert(d.push(n.last()) =~= n);
        assert(path::names(n) =~= seq![n]);
    } else {
        assert(n =~= Seq::empty());
        assert(path::names(n) =~= seq![n]);
    }
}

proof fn lemma_body_of_name(n: Seq<u8>)
    ensures
        path::body(seq![n]) == adds(n),
{
    assert(seq![n].drop_last() =~= Seq::empty());
    assert(path::body(seq![n].drop_last()) =~= Seq::empty());
    assert(path::body(seq![n]) =~= adds(n));
}

proof fn lemma_after_slash(a: Seq<u8>, n: Seq<u8>)
    requires
        is_name(n),
        a.len() > 0,
    ensures
        path::components(a.push(47u8) + n) == path::components(a) + adds(n),
{
    let sep = |b: u8| b == 47u8;
    let p = a.push(47u8) + n;
    path_laws::lemma_pieces_concat(a, 47u8, n, sep);
    lemma_names_of_name(n);
    let before = path::names(a);
    text_nonempty(a);
    assert(path::names(p) =~= before.push(n));
    assert(before.push(n).drop_last() =~= before);
    assert(p[0] == a[0]);
    assert(path::names(p)[0] == before[0]);
    assert(path::lead(p) == path::lead(a));
    assert(path::body(before.push(n)) =~= path::body(before) + adds(n));
    assert(path::components(p) =~= path::components(a) + adds(n));
}

proof fn text_nonempty(a: Seq<u8>)
    ensures
        path::names(a).len() >= 1,
{
    crate::text::lemma_pieces_nonempty(a, |b: u8| b == 47u8);
}

/// The file name is the last component, where that is a name.
pub proof fn law_file_name(p: Seq<u8>, n: Seq<u8>)
    ensures
        path::file_name(p) == Some(n) <==> path::components(p).len() > 0 && path::components(
            p,
        ).last() == Component::Normal(n),
{
}

/// A file name is its stem, a dot and its extension, which holds no dot; it has no extension
/// where it holds no dot but a leading one.
pub proof fn law_stem_and_extension(p: Seq<u8>)
    ensures
        match path::file_name(p) {
            None => path::file_stem(p) is None && path::file_extension(p) is None,
            Some(n) => {
                &&& path::file_stem(p) is Some
                &&& path::file_stem(p)->0.len() > 0
                &&& match path::file_extension(p) {
                    Some(e) => n == path::file_stem(p)->0.push(46u8) + e && (forall|i: int|
                        0 <= i < e.len() ==> #[trigger] e[i] != 46u8),
                    None => n == path::file_stem(p)->0 && (forall|i: int|
                        0 < i < n.len() ==> #[trigger] n[i] != 46u8),
                }
            },
        },
{
    if path::file_name(p) is Some {
        let n = path::file_name(p)->0;
        let d = path::last_dot(n);
        lemma_last_dot(n);
        naming::lemma_stem(p);
        if d > 0 {
            assert(n =~= n.take(d).push(46u8) + n.skip(d + 1));
        }
    }
}

proof fn lemma_last_dot(n: Seq<u8>)
    ensures
        -1 <= path::last_dot(n) < n.len(),
        path::last_dot(n) >= 0 ==> n[path::last_dot(n)] == 46u8,
        forall|i: int| path::last_dot(n) < i < n.len() ==> #[trigger] n[i] != 46u8,
    decreases n.len(),
{
    if n.len() > 0 && n.last() != 46u8 {
        let d = n.drop_last();
        lemma_last_dot(d);
        assert forall|i: int| path::last_dot(n) < i < n.len() implies #[trigger] n[i] != 46u8 by {
            if i < d.len() {
                assert(d[i] == n[i]);
            }
        }
    }
}

/// The parent of a path has its components but for the last, and there is one unless
/// nothing or only the root is named.
pub proof fn law_parent(p: Seq<u8>)
    ensures
        ({
            let cs = path::components(p);
            &&& path::parent(p) is Some <==> cs.len() > 0 && cs.last() != Component::Root
            &&& path::parent(p) is Some ==> path::components(path::parent(p)->0) == cs.drop_last()
        }),
{
    path_laws::lemma_parent_components(p);
}

/// What is left below a directory has the components that the directory lacks, and there is
/// something left only where the path starts with the components of the directory.
pub proof fn law_what_is_left_below(p: Seq<u8>, base: Seq<u8>)
    ensures
        ({
            let (cs, bs) = (path::components(p), path::components(base));
            let below = bs.len() <= cs.len() && cs.take(bs.len() as int) == bs;
            &&& path::strip_prefix(p, base) is Some <==> below
            &&& below ==> path::components(path::strip_prefix(p, base)->0) == cs.skip(
                bs.len() as int,
            )
        }),
{
    path_laws::lemma_strip_prefix_components(p, base);
}

/// A relative path taken from a directory stands behind it and one slash; an absolute one
/// replaces it.
pub proof fn law_joining(a: Seq<u8>, b: Seq<u8>)
    ensures
        ({
            let j = path::join(a, b);
            &&& b.len() > 0 && b[0] == 47u8 ==> j == b
            &&& !(b.len() > 0 && b[0] == 47u8) && a.len() > 0 && a.last() != 47u8 ==> j == a
                + seq![47u8] + b
            &&& !(b.len() > 0 && b[0] == 47u8) && (a.len() == 0 || a.last() == 47u8) ==> j == a
                + b
        }),
{
    assert(a.push(47u8) + b =~= a + seq![47u8] + b);
}

/// Whether two runs agree up to `k`, and there the first ends or has the lesser element.
pub open spec fn parts_at<T>(
    a: Seq<T>,
    b: Seq<T>,
    k: int,
    less: spec_fn(T, T) -> bool,
) -> bool {
    &&& 0 <= k <= a.len()
    &&& k < b.len()
    &&& a.take(k) == b.take(k)
    &&& k == a.len() || (a[k] != b[k] && less(a[k], b[k]))
}

proof fn lemma_lex<T>(a: Seq<T>, b: Seq<T>, less: spec_fn(T, T) -> bool)
    ensures
        order::lex(a, b, less) <==> exists|k: int| parts_at(a, b, k, less),
    decreases a.len(),
{
    if b.len() == 0 {
    } else if a.len() == 0 {
        assert(a.take(0) =~= b.take(0));
        assert(parts_at(a, b, 0, less));
    } else if a[0] != b[0] {
        assert(a.take(0) =~= b.take(0));
        if less(a[0], b[0]) {
            assert(parts_at(a, b, 0, less));
        }
        assert forall|k: int| parts_at(a, b, k, less) implies less(a[0], b[0]) by {
            if k > 0 {
                assert(a.take(k)[0] == b.take(k)[0]);
            }
        }
    } else {
        let (x, y) = (a.drop_first(), b.drop_first());
        lemma_lex(x, y, less);
        if exists|k: int| parts_at(x, y, k, less) {
            let k = choose|k: int| parts_at(x, y, k, less);
            assert(a.take(k + 1) =~= seq![a[0]] + x.take(k));
            assert(b.take(k + 1) =~= seq![b[0]] + y.take(k));
            assert(parts_at(a, b, k + 1, less));
        }
        if exists|k: int| parts_at(a, b, k, less) {
            let k = choose|k: int| parts_at(a, b, k, less);
            assert(k > 0);
            assert(x.take(k - 1) =~= a.take(k).drop_first());
            assert(y.take(k - 1) =~= b.take(k).drop_first());
            assert(parts_at(x, y, k - 1, less));
        }
    }
}

/// Byte strings are ordered by the first byte in which they differ, and a start of one
/// comes before it.
pub proof fn law_order_of_bytes(a: Seq<u8>, b: Seq<u8>)
    ensures
        order::bytes_less(a, b) <==> exists|k: int|
            0 <= k <= a.len() && k < b.len() && #[trigger] a.take(k) == b.take(k) && (k == a.len()
                || a[k] < b[k]),
{
    let less = |x: u8, y: u8| x < y;
    lemma_lex(a, b, less);
    if exists|k: int| parts_at(a, b, k, less) {
        let k = choose|k: int| parts_at(a, b, k, less);
        assert(a.take(k) == b.take(k));
    }
    if exists|k: int|
        0 <= k <= a.len() && k < b.len() && #[trigger] a.take(k) == b.take(k) && (k == a.len()
            || a[k] < b[k]) {
        let k = choose|k: int|
            0 <= k <= a.len() && k < b.len() && #[trigger] a.take(k) == b.take(k) && (k == a.len()
                || a[k] < b[k]);
        assert(parts_at(a, b, k, less));
    }
}

/// The order of components: the root, a leading dot, two dots, then names by their bytes.
pub open spec fn comes_before(a: Component, b: Component) -> bool {
    match (a, b) {
        (Component::Normal(x), Component::Normal(y)) => order::bytes_less(x, y),
        (Component::Normal(_), _) => false,
        (_, Component::Normal(_)) => true,
        (Component::Root, b) => b != Component::Root,
        (Component::Current, b) => b == Component::Parent,
        (Component::Parent, _) => false,
    }
}

/// Paths are ordered by the first component in which they differ, and a directory comes
/// before what is in it.
pub proof fn law_order_of_paths(a: Seq<u8>, b: Seq<u8>)
    ensures
        ({
            let (x, y) = (path::components(a), path::components(b));
            path::path_less(a, b) <==> exists|k: int|
                0 <= k <= x.len() && k < y.len() && #[trigger] x.take(k) == y.take(k) && (k
                    == x.len() || (x[k] != y[k] && comes_before(x[k], y[k])))
        }),
{
    let (x, y) = (path::components(a), path::components(b));
    let less = |p: Component, q: Component| path::component_less(p, q);
    lemma_lex(x, y, less);
    assert forall|p: Component, q: Component| p != q implies #[trigger] less(p, q)
        == comes_before(p, q) by {
    }
    if exists|k: int| parts_at(x, y, k, less) {
        let k = choose|k: int| parts_at(x, y, k, less);
        assert(x.take(k) == y.take(k));
        assert(k == x.len() || less(x[k], y[k]) == comes_before(x[k], y[k]));
    }
    if exists|k: int|
        0 <= k <= x.len() && k < y.len() && #[trigger] x.take(k) == y.take(k) && (k == x.len()
            || (x[k] != y[k] && comes_before(x[k], y[k]))) {
        let k = choose|k: int|
            0 <= k <= x.len() && k < y.len() && #[trigger] x.take(k) == y.take(k) && (k == x.len()
                || (x[k] != y[k] && comes_before(x[k], y[k])));
        assert(k == x.len() || less(x[k], y[k]) == comes_before(x[k], y[k]));
        assert(parts_at(x, y, k, less));
    }
}

} // verus!
