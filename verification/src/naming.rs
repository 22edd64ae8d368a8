//! The names of converted files.
use vstd::prelude::*;

use crate::path::{self, Component, FilePath, DOT, SLASH};
use crate::path_laws;
use crate::utf8::utf8_text;

verus! {

/// The file name of a converted video.
pub open spec fn webm_name(stem: Seq<u8>, suffix: Seq<char>) -> Seq<u8> {
    stem + vstd::utf8::encode_utf8(suffix) + vstd::utf8::encode_utf8(".webm"@)
}

/// The file name of a converted video whose first name is that of the source.
pub open spec fn av1_webm_name(stem: Seq<u8>, suffix: Seq<char>) -> Seq<u8> {
    stem + vstd::utf8::encode_utf8(suffix) + vstd::utf8::encode_utf8(".av1.webm"@)
}

/// What the name of a converted file is built from: the stem of the source, which
/// has to be text.
pub open spec fn usable_stem(input: Seq<u8>) -> Option<Seq<u8>> {
    match path::file_stem(input) {
        Some(s) => if vstd::utf8::valid_utf8(s) {
            Some(s)
        } else {
            None
        },
        None => None,
    }
}

/// Whether two paths lead to the same file: by where they resolve to, if both do,
/// else by their components.
pub open spec fn same_file(
    a: Seq<u8>,
    b: Seq<u8>,
    a_resolved: Option<Seq<u8>>,
    b_resolved: Option<Seq<u8>>,
) -> bool {
    match (a_resolved, b_resolved) {
        (Some(x), Some(y)) => path::components(x) == path::components(y),
        _ => path::components(a) == path::components(b),
    }
}

/// The first choice for the result of converting `input` into the directory `dir`.
#[verifier::opaque]
pub open spec fn choice(input: Seq<u8>, dir: Option<Seq<u8>>, suffix: Seq<char>) -> Option<
    Seq<u8>,
> {
    match (usable_stem(input), dir) {
        (Some(s), Some(d)) => Some(path::join(d, webm_name(s, suffix))),
        _ => None,
    }
}

/// Whether the first choice `first` is the source itself, by its components or by where it
/// leads.
pub open spec fn is_taken(
    first: Seq<u8>,
    input: Seq<u8>,
    choice_resolved: Option<Seq<u8>>,
    input_resolved: Option<Seq<u8>>,
) -> bool {
    path::components(first) == path::components(input) || same_file(
        first,
        input,
        choice_resolved,
        input_resolved,
    )
}

/// The path for the result: the first choice, or another name beside it where the
/// first choice is the source itself. There is none where that other name is the source's.
#[verifier::opaque]
pub open spec fn settled(
    input: Seq<u8>,
    dir: Option<Seq<u8>>,
    suffix: Seq<char>,
    choice_resolved: Option<Seq<u8>>,
    input_resolved: Option<Seq<u8>>,
) -> Option<Seq<u8>> {
    match (usable_stem(input), dir) {
        (Some(s), Some(d)) => {
            let first = path::join(d, webm_name(s, suffix));
            let second = path::join(d, av1_webm_name(s, suffix));
            if !is_taken(first, input, choice_resolved, input_resolved) {
                Some(first)
            } else if path::components(second) != path::components(input) {
                Some(second)
            } else {
                None
            }
        },
        _ => None,
    }
}

/// Where two paths resolve to, by the file system.
#[derive(Debug)]
pub struct Resolved {
    pub choice: Option<FilePath>,
    pub input: Option<FilePath>,
}

pub open spec fn view_of(p: Option<FilePath>) -> Option<Seq<u8>> {
    match p {
        Some(p) => Some(p@),
        None => None,
    }
}

/// Whether two paths lead to the same file.
pub fn same_path(
    a: &FilePath,
    b: &FilePath,
    a_resolved: &Option<FilePath>,
    b_resolved: &Option<FilePath>,
) -> (r: bool)
    ensures
        r == same_file(a@, b@, view_of(*a_resolved), view_of(*b_resolved)),
{
    match (a_resolved, b_resolved) {
        (Some(x), Some(y)) => x.same(y),
        _ => a.same(b),
    }
}

fn stem_of(input: &FilePath) -> (r: Option<Vec<u8>>)
    ensures
        r is Some <==> usable_stem(input@) is Some,
        r is Some ==> r->0@ == usable_stem(input@)->0,
{
    match input.file_stem() {
        Some(s) => match utf8_text(s.as_slice()) {
            Some(_) => Some(s),
            None => None,
        },
        None => None,
    }
}

fn named_after(stem: Vec<u8>, suffix: &str, tail: &str) -> (r: Vec<u8>)
    ensures
        r@ == stem@ + vstd::utf8::encode_utf8(suffix@) + vstd::utf8::encode_utf8(tail@),
{
    let mut name = stem;
    path::push_bytes(&mut name, suffix.as_bytes());
    path::push_bytes(&mut name, tail.as_bytes());
    name
}

/// The first choice for the result of converting `input` into `dir`.
pub fn first_choice(input: &FilePath, dir: &Option<FilePath>, suffix: &str) -> (r: Option<FilePath>)
    ensures
        view_of(r) == choice(input@, view_of(*dir), suffix@),
{
    proof {
        reveal(choice);
    }
    match (stem_of(input), dir) {
        (Some(s), Some(d)) => {
            let name = named_after(s, suffix, ".webm");
            Some(d.join(name.as_slice()))
        },
        _ => None,
    }
}

/// The path for the result of converting `input` into `dir`.
pub fn settle(
    input: &FilePath,
    dir: &Option<FilePath>,
    suffix: &str,
    resolved: &Resolved,
) -> (r: Option<FilePath>)
    ensures
        view_of(r) == settled(
            input@,
            view_of(*dir),
            suffix@,
            view_of(resolved.choice),
            view_of(resolved.input),
        ),
{
    proof {
        reveal(choice);
        reveal(settled);
    }
    let first = match first_choice(input, dir, suffix) {
        Some(p) => p,
        None => {
            return None;
        },
    };
    if !first.same(input) && !same_path(&first, input, &resolved.choice, &resolved.input) {
        return Some(first);
    }
    match (stem_of(input), dir) {
        (Some(s), Some(d)) => {
            let name = named_after(s, suffix, ".av1.webm");
            let second = d.join(name.as_slice());
            if second.same(input) {
                None
            } else {
                Some(second)
            }
        },
        _ => None,
    }
}

/// The bytes of the two endings.
proof fn lemma_endings()
    ensures
        vstd::utf8::encode_utf8(".webm"@) == seq![46u8, 119u8, 101u8, 98u8, 109u8],
        vstd::utf8::encode_utf8(".av1.webm"@) == seq![
            46u8, 97u8, 118u8, 49u8, 46u8, 119u8, 101u8, 98u8, 109u8,
        ],
{
    reveal_strlit(".webm");
    reveal_strlit(".av1.webm");
    vstd::utf8::is_ascii_chars_encode_utf8(".webm"@);
    vstd::utf8::is_ascii_chars_encode_utf8(".av1.webm"@);
    assert(vstd::utf8::encode_utf8(".webm"@) =~= seq![46u8, 119u8, 101u8, 98u8, 109u8]);
    assert(vstd::utf8::encode_utf8(".av1.webm"@) =~= seq![
        46u8, 97u8, 118u8, 49u8, 46u8, 119u8, 101u8, 98u8, 109u8,
    ]);
}

/// The last component of a path into which a name was put, where the name ends in a
/// part without slashes that is no `.` or `..`.
proof fn lemma_joined_last(dir: Seq<u8>, name: Seq<u8>)
    requires
        !path::is_absolute(name),
        ({
            let n = name.skip(path::name_start(name));
            !path::is_blank(n) && n != seq![DOT, DOT]
        }),
    ensures
        path::components(path::join(dir, name)).len() > 0,
        path::components(path::join(dir, name)).last() == Component::Normal(
            name.skip(path::name_start(name)),
        ),
{
    path_laws::lemma_last_name(name);
    if dir.len() == 0 {
        assert(path::join(dir, name) =~= name);
    } else {
        path_laws::lemma_join_components(dir, name);
        path_laws::lemma_last_run(name);
        let b = path::body(path::names(name));
        assert(path::names(name).last() =~= name.skip(path::name_start(name)));
        assert(b.last() == Component::Normal(name.skip(path::name_start(name))));
        assert(path::components(path::join(dir, name)).last() == b.last());
    }
}

/// Where the last run of `x + y` starts if `y` has no slash.
proof fn lemma_name_start_append(x: Seq<u8>, y: Seq<u8>)
    requires
        path_laws::slash_free(y),
    ensures
        path::name_start(x + y) == path::name_start(x),
    decreases y.len(),
{
    if y.len() == 0 {
        assert(x + y =~= x);
    } else {
        assert((x + y).drop_last() =~= x + y.drop_last());
        assert((x + y).last() == y.last());
        lemma_name_start_append(x, y.drop_last());
    }
}

/// What a stem and an extension are made of.
proof fn lemma_last_dot(name: Seq<u8>)
    ensures
        -1 <= path::last_dot(name) < name.len(),
        path::last_dot(name) >= 0 ==> name[path::last_dot(name)] == DOT,
        forall|i: int| path::last_dot(name) < i < name.len() ==> name[i] != DOT,
    decreases name.len(),
{
    if name.len() > 0 && name.last() != DOT {
        lemma_last_dot(name.drop_last());
        assert forall|i: int| path::last_dot(name) < i < name.len() implies name[i] != DOT by {
            if i < name.len() - 1 {
                assert(name.drop_last()[i] == name[i]);
            }
        }
    }
}

/// A stem is not empty, holds no slash, and starts the file name.
pub proof fn lemma_stem(input: Seq<u8>)
    requires
        path::file_stem(input) is Some,
    ensures
        path::file_name(input) is Some,
        ({
            let s = path::file_stem(input)->0;
            let n = path::file_name(input)->0;
            &&& s.len() > 0
            &&& path_laws::slash_free(s)
            &&& path_laws::slash_free(n)
            &&& s.is_prefix_of(n)
            &&& !path::is_blank(n)
            &&& n != seq![DOT, DOT]
        }),
{
    let n = path::file_name(input)->0;
    lemma_normal_component(input, path::components(input).len() - 1);
    lemma_last_dot(n);
    let s = path::stem(n);
    assert forall|i: int| 0 <= i < s.len() implies s[i] != SLASH by {
        assert(s[i] == n[i]);
    }
    assert(s =~= n.take(s.len() as int));
}

/// What the name of a component can be.
proof fn lemma_normal_component(p: Seq<u8>, i: int)
    requires
        0 <= i < path::components(p).len(),
        path::components(p)[i] is Normal,
    ensures
        ({
            let n = path::components(p)[i]->Normal_0;
            &&& path_laws::slash_free(n)
            &&& !path::is_blank(n)
            &&& n != seq![DOT, DOT]
        }),
{
    let l = path::lead(p).len() as int;
    assert(i >= l);
    assert(path::components(p)[i] == path::body(path::names(p))[i - l]);
    assert forall|k: int| 0 <= k < path::names(p).len() implies path_laws::slash_free(
        #[trigger] path::names(p)[k],
    ) by {
        path_laws::lemma_runs_slash_free(p, k);
    }
    lemma_body_names(path::names(p), i - l);
}

proof fn lemma_body_names(ns: Seq<Seq<u8>>, i: int)
    requires
        forall|k: int| 0 <= k < ns.len() ==> path_laws::slash_free(#[trigger] ns[k]),
        0 <= i < path::body(ns).len(),
        path::body(ns)[i] is Normal,
    ensures
        ({
            let n = path::body(ns)[i]->Normal_0;
            &&& path_laws::slash_free(n)
            &&& !path::is_blank(n)
            &&& n != seq![DOT, DOT]
        }),
    decreases ns.len(),
{
    if ns.len() > 0 {
        let before = path::body(ns.drop_last());
        assert(path_laws::slash_free(ns.last()));
        if i < before.len() {
            assert forall|k: int| 0 <= k < ns.drop_last().len() implies path_laws::slash_free(
                #[trigger] ns.drop_last()[k],
            ) by {
                assert(ns.drop_last()[k] == ns[k]);
            }
            lemma_body_names(ns.drop_last(), i);
        }
    }
}

/// The name of a result holds no slash if the suffix holds none, and is then a component.
pub proof fn lemma_name_is_component(input: Seq<u8>, name: Seq<u8>, suffix: Seq<char>)
    requires
        usable_stem(input) is Some,
        path_laws::slash_free(vstd::utf8::encode_utf8(suffix)),
        name == webm_name(usable_stem(input)->0, suffix) || name == av1_webm_name(
            usable_stem(input)->0,
            suffix,
        ),
    ensures
        !path::is_absolute(name),
        path::body(path::names(name)) == seq![Component::Normal(name)],
        path::components(name) == seq![Component::Normal(name)],
{
    let s = usable_stem(input)->0;
    let sx = vstd::utf8::encode_utf8(suffix);
    lemma_stem(input);
    lemma_endings();
    let y = s + sx;
    let e = if name == webm_name(s, suffix) {
        vstd::utf8::encode_utf8(".webm"@)
    } else {
        vstd::utf8::encode_utf8(".av1.webm"@)
    };
    assert(name =~= y + e);
    assert(name[0] == s[0]);
    assert forall|i: int| 0 <= i < name.len() implies name[i] != SLASH by {
        if i >= y.len() {
            assert(name[i] == e[i - y.len()]);
        } else if i >= s.len() {
            assert(name[i] == sx[i - s.len()]);
        } else {
            assert(name[i] == s[i]);
        }
    }
    assert(name.len() >= 5);
    path_laws::lemma_plain_name(name);
}

/// Without a first choice there is no result.
pub proof fn lemma_no_choice(
    input: Seq<u8>,
    dir: Option<Seq<u8>>,
    suffix: Seq<char>,
    choice_resolved: Option<Seq<u8>>,
    input_resolved: Option<Seq<u8>>,
)
    requires
        choice(input, dir, suffix) is None,
    ensures
        settled(input, dir, suffix, choice_resolved, input_resolved) is None,
{
    reveal(choice);
    reveal(settled);
}

/// The result never goes where the source is: its path never has the components of the
/// source's path, and the first choice is taken only if it does not lead to the source.
pub proof fn law_result_is_not_source(
    input: Seq<u8>,
    dir: Option<Seq<u8>>,
    suffix: Seq<char>,
    choice_resolved: Option<Seq<u8>>,
    input_resolved: Option<Seq<u8>>,
)
    ensures
        ({
            let result = settled(input, dir, suffix, choice_resolved, input_resolved);
            &&& result is Some ==> path::components(result->0) != path::components(input)
            &&& result is Some && result == choice(input, dir, suffix) && choice_resolved is Some
                && input_resolved is Some ==> path::components(choice_resolved->0)
                != path::components(input_resolved->0)
        }),
{
    reveal(choice);
    reveal(settled);
    if choice(input, dir, suffix) is Some {
        lemma_two_names(input, dir->0, suffix);
    }
}

/// The two names for a result are never the same.
proof fn lemma_two_names(input: Seq<u8>, d: Seq<u8>, suffix: Seq<char>)
    requires
        usable_stem(input) is Some,
    ensures
        path::components(path::join(d, webm_name(usable_stem(input)->0, suffix)))
            != path::components(path::join(d, av1_webm_name(usable_stem(input)->0, suffix))),
{
    lemma_stem(input);
    lemma_endings();
    let s = usable_stem(input)->0;
    let y = s + vstd::utf8::encode_utf8(suffix);
    let e1 = vstd::utf8::encode_utf8(".webm"@);
    let e2 = vstd::utf8::encode_utf8(".av1.webm"@);
    lemma_name_start_append(y, e1);
    lemma_name_start_append(y, e2);
    path_laws::lemma_last_run(y);
    let k = path::name_start(y);
    let z = y.skip(k);
    let n1 = webm_name(s, suffix).skip(k);
    let n2 = av1_webm_name(s, suffix).skip(k);
    assert(n1 =~= z + e1);
    assert(n2 =~= z + e2);
    assert(n1.len() >= 5 && n2.len() >= 9);
    assert(webm_name(s, suffix)[0] == s[0]);
    assert(av1_webm_name(s, suffix)[0] == s[0]);
    lemma_joined_last(d, webm_name(s, suffix));
    lemma_joined_last(d, av1_webm_name(s, suffix));
    assert(n1.len() != n2.len());
}

/// Where there is a first choice there is a result, unless the suffix holds a slash.
pub proof fn law_result_has_a_place(
    input: Seq<u8>,
    dir: Option<Seq<u8>>,
    suffix: Seq<char>,
    choice_resolved: Option<Seq<u8>>,
    input_resolved: Option<Seq<u8>>,
)
    requires
        choice(input, dir, suffix) is Some,
        path_laws::slash_free(vstd::utf8::encode_utf8(suffix)),
    ensures
        settled(input, dir, suffix, choice_resolved, input_resolved) is Some,
{
    reveal(choice);
    reveal(settled);
    let s = usable_stem(input)->0;
    let sx = vstd::utf8::encode_utf8(suffix);
    let name = av1_webm_name(s, suffix);
    let e = vstd::utf8::encode_utf8(".av1.webm"@);
    lemma_stem(input);
    lemma_endings();
    lemma_name_is_component(input, name, suffix);
    path_laws::lemma_last_run(name);
    assert(path::name_start(name) == 0) by {
        let k = path::name_start(name);
        if k > 0 {
            assert(name[k - 1] == SLASH);
            lemma_name_holds_no_slash(s, sx, e);
        }
    }
    assert(name.skip(0) =~= name);
    assert(name.len() >= 9);
    lemma_joined_last(dir->0, name);
    let n = path::file_name(input)->0;
    assert(path::components(input).last() == Component::Normal(n));
    if n == name {
        assert(name =~= s + sx + e);
        lemma_last_dot(n);
        let m = n.len() as int;
        assert(n[m - 5] == e[4]);
        assert(path::last_dot(n) >= m - 5);
        assert(s.len() == path::last_dot(n));
        assert(s.len() <= m - 9);
    }
}

proof fn lemma_name_holds_no_slash(s: Seq<u8>, sx: Seq<u8>, e: Seq<u8>)
    requires
        path_laws::slash_free(s),
        path_laws::slash_free(sx),
        path_laws::slash_free(e),
    ensures
        path_laws::slash_free(s + sx + e),
{
}

} // verus!
