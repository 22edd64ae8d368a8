//! What taking paths apart and putting them together does to their components.
use vstd::prelude::*;

use crate::path::{self, DOT, SLASH};
use crate::text;

verus! {

/// No byte of `p` is a slash.
pub open spec fn slash_free(p: Seq<u8>) -> bool {
    forall|i: int| 0 <= i < p.len() ==> p[i] != SLASH
}

/// The runs of two sequences with a separator between them are the runs of the
/// first, then those of the second.
pub proof fn lemma_pieces_concat<T>(a: Seq<T>, x: T, b: Seq<T>, sep: spec_fn(T) -> bool)
    requires
        sep(x),
    ensures
        text::pieces(a.push(x) + b, sep) == text::pieces(a, sep)
            + text::pieces(b, sep),
    decreases b.len(),
{
    let whole = a.push(x) + b;
    if b.len() == 0 {
        assert(whole =~= a.push(x));
        assert(whole.drop_last() =~= a);
        assert(text::pieces(whole, sep) =~= text::pieces(a, sep)
            + text::pieces(b, sep));
    } else {
        lemma_pieces_concat(a, x, b.drop_last(), sep);
        text::lemma_pieces_nonempty(b.drop_last(), sep);
        assert(whole.drop_last() =~= a.push(x) + b.drop_last());
        assert(text::pieces(whole, sep) =~= text::pieces(a, sep)
            + text::pieces(b, sep));
    }
}

/// Without a separator there is one run.
proof fn lemma_names_slash_free(p: Seq<u8>)
    requires
        slash_free(p),
    ensures
        path::names(p) == seq![p],
    decreases p.len(),
{
    if p.len() > 0 {
        lemma_names_slash_free(p.drop_last());
        assert(p.drop_last().push(p.last()) =~= p);
        assert(path::names(p) =~= seq![p]);
    } else {
        assert(p =~= Seq::empty());
        assert(path::names(p) =~= seq![p]);
    }
}

/// No run holds a slash.
pub proof fn lemma_runs_slash_free(p: Seq<u8>, i: int)
    requires
        0 <= i < path::names(p).len(),
    ensures
        slash_free(path::names(p)[i]),
    decreases p.len(),
{
    if p.len() > 0 {
        let before = path::names(p.drop_last());
        text::lemma_pieces_nonempty(p.drop_last(), |b: u8| b == SLASH);
        if i < before.len() {
            lemma_runs_slash_free(p.drop_last(), i);
        }
    }
}

/// The first run, and the runs that follow it.
proof fn lemma_first_run(p: Seq<u8>)
    ensures
        ({
            let f = path::first_len(p);
            &&& 0 <= f <= p.len()
            &&& slash_free(p.take(f))
            &&& f == p.len() ==> path::names(p) == seq![p]
            &&& f < p.len() ==> p[f] == SLASH && path::names(p) == seq![p.take(f)]
                + path::names(p.skip(f + 1))
        }),
    decreases p.len(),
{
    let f = path::first_len(p);
    lemma_first_len(p);
    if f == p.len() {
        assert(p.take(f) =~= p);
        lemma_names_slash_free(p);
    } else {
        lemma_names_slash_free(p.take(f));
        lemma_pieces_concat(p.take(f), SLASH, p.skip(f + 1), |b: u8| b == SLASH);
        assert(p =~= p.take(f).push(SLASH) + p.skip(f + 1));
    }
}

proof fn lemma_first_len(p: Seq<u8>)
    ensures
        ({
            let f = path::first_len(p);
            &&& 0 <= f <= p.len()
            &&& slash_free(p.take(f))
            &&& f < p.len() ==> p[f] == SLASH
        }),
    decreases p.len(),
{
    if p.len() > 0 && p[0] != SLASH {
        lemma_first_len(p.skip(1));
        let f = path::first_len(p);
        assert forall|i: int| 0 <= i < f implies p.take(f)[i] != SLASH by {
            if i > 0 {
                assert(p.skip(1).take(f - 1)[i - 1] == p[i]);
            }
        }
    }
}

/// The last run, and the runs before it.
pub proof fn lemma_last_run(p: Seq<u8>)
    ensures
        ({
            let i = path::name_start(p);
            &&& 0 <= i <= p.len()
            &&& slash_free(p.skip(i))
            &&& i == 0 ==> path::names(p) == seq![p]
            &&& i > 0 ==> p[i - 1] == SLASH && path::names(p) == path::names(
                p.take(i - 1),
            ).push(p.skip(i))
        }),
{
    let i = path::name_start(p);
    lemma_name_start(p);
    lemma_names_slash_free(p.skip(i));
    if i == 0 {
        assert(p.skip(0) =~= p);
    } else {
        lemma_pieces_concat(p.take(i - 1), SLASH, p.skip(i), |b: u8| b == SLASH);
        assert(p =~= p.take(i - 1).push(SLASH) + p.skip(i));
        assert(path::names(p) =~= path::names(p.take(i - 1)).push(p.skip(i)));
    }
}

proof fn lemma_name_start(p: Seq<u8>)
    ensures
        ({
            let i = path::name_start(p);
            &&& 0 <= i <= p.len()
            &&& slash_free(p.skip(i))
            &&& i > 0 ==> p[i - 1] == SLASH
        }),
    decreases p.len(),
{
    if p.len() > 0 && p.last() != SLASH {
        lemma_name_start(p.drop_last());
        let i = path::name_start(p);
        assert forall|j: int| 0 <= j < p.skip(i).len() implies p.skip(i)[j] != SLASH by {
            if j < p.len() - 1 - i {
                assert(p.drop_last().skip(i)[j] == p[i + j]);
            }
        }
    }
}

/// What a concatenation of runs names.
proof fn lemma_body_concat(x: Seq<Seq<u8>>, y: Seq<Seq<u8>>)
    ensures
        path::body(x + y) == path::body(x) + path::body(y),
    decreases y.len(),
{
    if y.len() == 0 {
        assert(x + y =~= x);
        assert(path::body(x + y) =~= path::body(x) + path::body(y));
    } else {
        lemma_body_concat(x, y.drop_last());
        assert((x + y).drop_last() =~= x + y.drop_last());
        assert(path::body(x + y) =~= path::body(x) + path::body(y));
    }
}

/// What a single run names.
proof fn lemma_body_single(n: Seq<u8>)
    ensures
        path::is_blank(n) ==> path::body(seq![n]) == Seq::<
            path::Component,
        >::empty(),
        !path::is_blank(n) ==> path::body(seq![n]) == seq![path::named(n)],
{
    assert(seq![n].drop_last() =~= Seq::empty());
    assert(path::body(seq![n].drop_last()) =~= Seq::empty());
    assert(!path::is_blank(n) ==> path::body(seq![n]) =~= seq![
        path::named(n),
    ]);
}

/// Trailing slashes and blank runs do not count.
pub proof fn lemma_trim_tail_components(p: Seq<u8>)
    ensures
        path::components(path::trim_tail(p)) == path::components(p),
    decreases p.len(),
{
    if p.len() >= 2 && (p.last() == SLASH || (p.last() == DOT && p[p.len() - 2] == SLASH)) {
        let d = p.drop_last();
        lemma_trim_tail_components(d);
        text::lemma_pieces_nonempty(d, |b: u8| b == SLASH);
        let before = path::names(d);
        if p.last() == SLASH {
            assert(path::names(p).drop_last() =~= before);
        } else {
            let e = d.drop_last();
            text::lemma_pieces_nonempty(e, |b: u8| b == SLASH);
            assert(before =~= path::names(e).push(Seq::empty()));
            assert(Seq::<u8>::empty().push(DOT) =~= seq![DOT]);
            assert(path::names(p).drop_last() =~= path::names(e));
            assert(before.drop_last() =~= path::names(e));
            assert(path::names(p).last() =~= seq![DOT]);
        }
        assert(path::body(path::names(p)) == path::body(before));
        assert(path::names(p)[0] == before[0]);
        assert(p[0] == d[0]);
    }
}

proof fn lemma_trim_tail_fixed(p: Seq<u8>)
    ensures
        ({
            let t = path::trim_tail(p);
            t.len() >= 2 ==> t.last() != SLASH && !(t.last() == DOT && t[t.len() - 2] == SLASH)
        }),
    decreases p.len(),
{
    if p.len() >= 2 && (p.last() == SLASH || (p.last() == DOT && p[p.len() - 2] == SLASH)) {
        lemma_trim_tail_fixed(p.drop_last());
    }
}

/// A path has a parent exactly where it has a component other than the root, and the
/// parent has its components but for the last.
pub proof fn lemma_parent_components(p: Seq<u8>)
    ensures
        ({
            let cs = path::components(p);
            match path::parent(p) {
                Some(d) => cs.len() > 0 && cs.last() != path::Component::Root
                    && path::components(d) == cs.drop_last(),
                None => cs.len() == 0 || cs == seq![path::Component::Root],
            }
        }),
{
    let t = path::trim_tail(p);
    lemma_trim_tail_components(p);
    lemma_trim_tail_fixed(p);
    let cs = path::components(p);
    if t.len() == 0 {
        assert(t =~= Seq::empty());
        lemma_names_slash_free(t);
        lemma_body_single(t);
        assert(cs =~= Seq::empty());
    } else if t == seq![SLASH] {
        assert(t.drop_last() =~= Seq::empty());
        lemma_names_slash_free(t.drop_last());
        assert(path::names(t) =~= seq![Seq::empty()].push(Seq::empty()));
        assert(path::names(t).drop_last() =~= seq![Seq::empty()]);
        lemma_body_single(Seq::empty());
        assert(cs =~= seq![path::Component::Root]);
    } else {
        let i = path::name_start(t);
        let n = t.skip(i);
        lemma_last_run(t);
        lemma_trim_tail_components(t.take(i));
        if i == 0 {
            assert(n =~= t);
            assert(t.take(0) =~= Seq::empty());
            lemma_names_slash_free(Seq::empty());
            lemma_body_single(Seq::empty());
            lemma_body_single(t);
            assert(!path::is_absolute(t));
            assert(path::components(Seq::empty()) =~= Seq::empty());
            assert(cs.drop_last() =~= Seq::empty());
            assert(cs.len() == 1);
        } else {
            let h = t.take(i - 1);
            text::lemma_pieces_nonempty(h, |b: u8| b == SLASH);
            assert(t.take(i).drop_last() =~= h);
            assert(path::names(t.take(i)) =~= path::names(h).push(Seq::empty()));
            assert(path::names(t.take(i)).drop_last() =~= path::names(h));
            assert(path::names(t).drop_last() =~= path::names(h));
            if t.len() == 1 {
                assert(t =~= seq![SLASH]);
            }
            if n.len() == 0 {
                assert(t.last() == SLASH);
            }
            if n == seq![DOT] {
                assert(t.last() == n[0]);
                assert(t[t.len() - 2] == SLASH);
            }
            assert(path::body(path::names(t)) == path::body(
                path::names(h),
            ).push(path::named(n)));
            assert(path::lead(t) == path::lead(t.take(i)));
            assert(cs =~= path::components(t.take(i)).push(path::named(n)));
            assert(cs.drop_last() =~= path::components(t.take(i)));
        }
    }
}

/// A path whose last run is a name ends in that name.
pub proof fn lemma_last_name(p: Seq<u8>)
    requires
        ({
            let n = p.skip(path::name_start(p));
            !path::is_blank(n) && n != seq![DOT, DOT]
        }),
    ensures
        path::components(p).len() > 0,
        path::components(p).last() == path::Component::Normal(
            p.skip(path::name_start(p)),
        ),
{
    lemma_last_run(p);
    let n = p.skip(path::name_start(p));
    assert(path::names(p).last() =~= n);
}

/// What a joined path is made of: the components of the directory, then what the
/// runs of the relative path name.
pub proof fn lemma_join_components(a: Seq<u8>, b: Seq<u8>)
    requires
        a.len() > 0,
        !path::is_absolute(b),
    ensures
        path::components(path::join(a, b)) == path::components(a)
            + path::body(path::names(b)),
{
    let sep = |x: u8| x == SLASH;
    let j = path::join(a, b);
    if a.last() == SLASH {
        let h = a.drop_last();
        assert(a =~= h.push(SLASH));
        lemma_pieces_concat(h, SLASH, b, sep);
        lemma_body_concat(path::names(h), path::names(b));
        text::lemma_pieces_nonempty(h, sep);
        assert(path::names(a).drop_last() =~= path::names(h));
        assert(path::lead(j) == path::lead(a));
    } else {
        lemma_pieces_concat(a, SLASH, b, sep);
        lemma_body_concat(path::names(a), path::names(b));
        text::lemma_pieces_nonempty(a, sep);
        assert(path::lead(j) == path::lead(a));
    }
    assert(path::components(j) =~= path::components(a) + path::body(
        path::names(b),
    ));
}

/// Leading slashes and blank runs name nothing.
proof fn lemma_trim_head_components(q: Seq<u8>)
    ensures
        path::components(path::trim_head(q)) == path::body(
            path::names(q),
        ),
    decreases q.len(),
{
    lemma_first_run(q);
    let f = path::first_len(q);
    if path::is_absolute(q) {
        lemma_trim_head_components(q.skip(1));
        assert(q.take(0) =~= Seq::empty());
        lemma_body_concat(seq![q.take(0)], path::names(q.skip(1)));
        lemma_body_single(q.take(0));
        assert(path::body(path::names(q)) =~= path::body(
            path::names(q.skip(1)),
        ));
    } else if q == seq![DOT] {
        lemma_names_slash_free(q);
        lemma_body_single(q);
        lemma_names_slash_free(Seq::empty());
        lemma_body_single(Seq::empty());
        assert(path::components(Seq::empty()) =~= Seq::empty());
    } else if q.len() >= 2 && q[0] == DOT && q[1] == SLASH {
        lemma_trim_head_components(q.skip(2));
        assert(q.skip(1)[0] == SLASH);
        assert(path::first_len(q.skip(1)) == 0);
        assert(f == 1);
        assert(q.take(1) =~= seq![DOT]);
        lemma_body_concat(seq![q.take(1)], path::names(q.skip(2)));
        lemma_body_single(q.take(1));
        assert(path::body(path::names(q)) =~= path::body(
            path::names(q.skip(2)),
        ));
    } else {
        if path::names(q)[0] == seq![DOT] {
            if f == q.len() {
                assert(q == seq![DOT]);
            } else {
                assert(q.take(f) == seq![DOT]);
                assert(q.take(f)[0] == q[0]);
                assert(q.take(f).len() == 1);
                assert(q[1] == SLASH);
            }
        }
        assert(path::lead(q) =~= Seq::empty());
        assert(path::components(q) =~= path::body(path::names(q)));
    }
}

/// What follows the first component has the other components.
proof fn lemma_after_first_components(p: Seq<u8>)
    requires
        path::components(p).len() > 0,
    ensures
        path::components(path::after_first(p)) == path::components(
            p,
        ).drop_first(),
{
    lemma_first_run(p);
    let f = path::first_len(p);
    let cs = path::components(p);
    if path::is_absolute(p) {
        lemma_trim_head_components(p.skip(1));
        assert(p.take(0) =~= Seq::empty());
        lemma_body_concat(seq![p.take(0)], path::names(p.skip(1)));
        lemma_body_single(p.take(0));
        assert(cs.drop_first() =~= path::body(path::names(p.skip(1))));
    } else if f == p.len() {
        assert(p.skip(f) =~= Seq::empty());
        lemma_body_single(p);
        lemma_names_slash_free(Seq::empty());
        lemma_body_single(Seq::empty());
        lemma_trim_head_components(Seq::empty());
        assert(cs.drop_first() =~= Seq::empty());
    } else {
        let q = p.skip(f);
        let rest = path::names(p.skip(f + 1));
        lemma_trim_head_components(q);
        lemma_first_run(q);
        assert(q[0] == SLASH);
        assert(path::first_len(q) == 0);
        assert(q.skip(1) =~= p.skip(f + 1));
        assert(q.take(0) =~= Seq::empty());
        lemma_body_concat(seq![q.take(0)], rest);
        lemma_body_single(q.take(0));
        lemma_body_concat(seq![p.take(f)], rest);
        lemma_body_single(p.take(f));
        assert(path::body(path::names(q)) =~= path::body(rest));
        assert(p.take(f).len() == f);
        assert(f > 0);
        assert(cs.drop_first() =~= path::body(rest));
    }
}

proof fn lemma_after_components(p: Seq<u8>, n: nat)
    requires
        n <= path::components(p).len(),
    ensures
        path::components(path::after(p, n)) == path::components(p).skip(
            n as int,
        ),
    decreases n,
{
    let cs = path::components(p);
    if n == 0 {
        assert(cs.skip(0) =~= cs);
    } else {
        lemma_after_first_components(p);
        lemma_after_components(path::after_first(p), (n - 1) as nat);
        assert(cs.drop_first().skip(n - 1) =~= cs.skip(n as int));
    }
}

/// What is left of a path below a directory has the components that the directory
/// does not have.
pub proof fn lemma_strip_prefix_components(p: Seq<u8>, base: Seq<u8>)
    ensures
        path::strip_prefix(p, base) is Some <==> path::components(
            base,
        ).is_prefix_of(path::components(p)),
        path::strip_prefix(p, base) is Some ==> path::components(
            path::strip_prefix(p, base)->0,
        ) == path::components(p).skip(path::components(base).len() as int),
{
    if path::components(base).is_prefix_of(path::components(p)) {
        let n = path::components(base).len();
        lemma_after_components(p, n);
        lemma_trim_tail_components(path::after(p, n));
    }
}

/// A name without slashes that is no `.` or `..` is one component.
pub proof fn lemma_plain_name(n: Seq<u8>)
    requires
        slash_free(n),
        !path::is_blank(n),
        n != seq![DOT, DOT],
    ensures
        path::body(path::names(n)) == seq![path::Component::Normal(n)],
        path::components(n) == seq![path::Component::Normal(n)],
{
    lemma_names_slash_free(n);
    lemma_body_single(n);
    assert(path::components(n) =~= seq![path::Component::Normal(n)]);
}

/// The empty path has no component.
pub proof fn lemma_empty_components()
    ensures
        path::components(Seq::empty()) == Seq::<path::Component>::empty(),
{
    lemma_names_slash_free(Seq::empty());
    lemma_body_single(Seq::empty());
    assert(path::components(Seq::empty()) =~= Seq::empty());
}

proof fn lemma_body_is_named(ns: Seq<Seq<u8>>, i: int)
    requires
        0 <= i < path::body(ns).len(),
    ensures
        path::body(ns)[i] is Parent || path::body(ns)[i] is Normal,
    decreases ns.len(),
{
    if ns.len() > 0 && i < path::body(ns.drop_last()).len() {
        lemma_body_is_named(ns.drop_last(), i);
    }
}

/// The root and a leading `.` are first components, and no path starts with one
/// unless its first component says so.
pub proof fn lemma_lead(p: Seq<u8>)
    ensures
        path::lead(p).len() > 0 <==> path::components(p).len() > 0 && (path::components(p)[0] is Root
            || path::components(p)[0] is Current),
        forall|i: int|
            1 <= i < path::components(p).len() ==> !(#[trigger] path::components(p)[i] is Root)
                && !(path::components(p)[i] is Current),
{
    let l = path::lead(p).len() as int;
    let b = path::body(path::names(p));
    assert forall|i: int| l <= i < path::components(p).len() implies !(#[trigger] path::components(
        p,
    )[i] is Root) && !(path::components(p)[i] is Current) by {
        assert(path::components(p)[i] == b[i - l]);
        lemma_body_is_named(path::names(p), i - l);
    }
}

} // verus!
