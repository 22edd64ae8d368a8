//! File paths as the bytes that the operating system keeps, and the components
//! that these bytes name.
//!
//! These are Unix paths: any bytes can stand in a name but `/`, which separates names, and
//! a path has no prefix such as a drive. Paths of other systems are not modelled.
use vstd::prelude::*;

use crate::order::{self, bytes_before, same_bytes};
use crate::text;

verus! {

pub const SLASH: u8 = 47;

pub const DOT: u8 = 46;

/// One step of a path.
#[verifier::ext_equal]
pub enum Component {
    /// The leading `/` of an absolute path.
    Root,
    /// A leading `.`.
    Current,
    /// `..`
    Parent,
    /// A file or directory name.
    Normal(Seq<u8>),
}

/// The runs of a path between its slashes.
pub open spec fn names(p: Seq<u8>) -> Seq<Seq<u8>> {
    text::pieces(p, |b: u8| b == SLASH)
}

/// Whether a run names nothing: it is empty, or a `.`.
pub open spec fn is_blank(name: Seq<u8>) -> bool {
    name.len() == 0 || name == seq![DOT]
}

/// What a run that is not blank names.
pub open spec fn named(name: Seq<u8>) -> Component {
    if name == seq![DOT, DOT] {
        Component::Parent
    } else {
        Component::Normal(name)
    }
}

/// What the runs of a path name, blank runs left out.
pub open spec fn body(ns: Seq<Seq<u8>>) -> Seq<Component>
    decreases ns.len(),
{
    if ns.len() == 0 {
        Seq::empty()
    } else if is_blank(ns.last()) {
        body(ns.drop_last())
    } else {
        body(ns.drop_last()).push(named(ns.last()))
    }
}

pub open spec fn is_absolute(p: Seq<u8>) -> bool {
    p.len() > 0 && p[0] == SLASH
}

/// The component that stands before the named ones: the root of an absolute
/// path, or the `.` that a relative path starts with.
pub open spec fn lead(p: Seq<u8>) -> Seq<Component> {
    if is_absolute(p) {
        seq![Component::Root]
    } else if names(p)[0] == seq![DOT] {
        seq![Component::Current]
    } else {
        Seq::empty()
    }
}

/// The components of a path. Repeated and trailing slashes do not count, nor does
/// a `.` other than a leading one.
pub open spec fn components(p: Seq<u8>) -> Seq<Component> {
    lead(p) + body(names(p))
}

/// Where the last run of a path starts.
pub open spec fn name_start(p: Seq<u8>) -> int
    decreases p.len(),
{
    if p.len() == 0 {
        0
    } else if p.last() == SLASH {
        p.len() as int
    } else {
        name_start(p.drop_last())
    }
}

/// `p` without the slashes and blank runs that it ends in. One byte always stays.
pub open spec fn trim_tail(p: Seq<u8>) -> Seq<u8>
    decreases p.len(),
{
    if p.len() >= 2 && (p.last() == SLASH || (p.last() == DOT && p[p.len() - 2] == SLASH)) {
        trim_tail(p.drop_last())
    } else {
        p
    }
}

/// `p` without the slashes and blank runs that it starts with.
pub open spec fn trim_head(p: Seq<u8>) -> Seq<u8>
    decreases p.len(),
{
    if is_absolute(p) {
        trim_head(p.skip(1))
    } else if p == seq![DOT] {
        Seq::empty()
    } else if p.len() >= 2 && p[0] == DOT && p[1] == SLASH {
        trim_head(p.skip(2))
    } else {
        p
    }
}

/// How long the first run of a path is.
pub open spec fn first_len(p: Seq<u8>) -> int
    decreases p.len(),
{
    if p.len() == 0 || p[0] == SLASH {
        0
    } else {
        1 + first_len(p.skip(1))
    }
}

/// What follows the first component.
pub open spec fn after_first(p: Seq<u8>) -> Seq<u8> {
    if is_absolute(p) {
        trim_head(p.skip(1))
    } else {
        trim_head(p.skip(first_len(p)))
    }
}

/// What follows the first `n` components.
pub open spec fn after(p: Seq<u8>, n: nat) -> Seq<u8>
    decreases n,
{
    if n == 0 {
        p
    } else {
        after(after_first(p), (n - 1) as nat)
    }
}

/// The path without its last component, or `None` where there is none to drop:
/// for the root and the empty path.
pub open spec fn parent(p: Seq<u8>) -> Option<Seq<u8>> {
    let t = trim_tail(p);
    if t.len() == 0 || t == seq![SLASH] {
        None
    } else {
        Some(trim_tail(t.take(name_start(t))))
    }
}

/// The last component, where it is a name.
pub open spec fn file_name(p: Seq<u8>) -> Option<Seq<u8>> {
    let cs = components(p);
    if cs.len() == 0 {
        None
    } else {
        match cs.last() {
            Component::Normal(n) => Some(n),
            _ => None,
        }
    }
}

/// Where the last dot of a name stands, or -1.
pub open spec fn last_dot(name: Seq<u8>) -> int
    decreases name.len(),
{
    if name.len() == 0 {
        -1
    } else if name.last() == DOT {
        name.len() - 1
    } else {
        last_dot(name.drop_last())
    }
}

/// A name up to its last dot. A leading dot does not count.
pub open spec fn stem(name: Seq<u8>) -> Seq<u8> {
    if last_dot(name) <= 0 {
        name
    } else {
        name.take(last_dot(name))
    }
}

/// What follows the last dot of a name. A leading dot does not count.
pub open spec fn extension(name: Seq<u8>) -> Option<Seq<u8>> {
    if last_dot(name) <= 0 {
        None
    } else {
        Some(name.skip(last_dot(name) + 1))
    }
}

pub open spec fn file_stem(p: Seq<u8>) -> Option<Seq<u8>> {
    match file_name(p) {
        Some(n) => Some(stem(n)),
        None => None,
    }
}

pub open spec fn file_extension(p: Seq<u8>) -> Option<Seq<u8>> {
    match file_name(p) {
        Some(n) => extension(n),
        None => None,
    }
}

/// `b` taken from the directory `a`. An absolute `b` replaces `a`.
pub open spec fn join(a: Seq<u8>, b: Seq<u8>) -> Seq<u8> {
    if is_absolute(b) {
        b
    } else if a.len() == 0 || a.last() == SLASH {
        a + b
    } else {
        a.push(SLASH) + b
    }
}

/// What is left of `p` below the directory `base`, or `None` where `p` is not below it.
pub open spec fn strip_prefix(p: Seq<u8>, base: Seq<u8>) -> Option<Seq<u8>> {
    if components(base).is_prefix_of(components(p)) {
        Some(trim_tail(after(p, components(base).len())))
    } else {
        None
    }
}

/// The place of a kind of component in the order of paths.
pub open spec fn rank(c: Component) -> int {
    match c {
        Component::Root => 0,
        Component::Current => 1,
        Component::Parent => 2,
        Component::Normal(_) => 3,
    }
}

pub open spec fn component_less(a: Component, b: Component) -> bool {
    match (a, b) {
        (Component::Normal(x), Component::Normal(y)) => order::bytes_less(x, y),
        _ => rank(a) < rank(b),
    }
}

/// The order of paths: component by component.
pub open spec fn path_less(a: Seq<u8>, b: Seq<u8>) -> bool {
    order::lex(components(a), components(b), |x: Component, y: Component| component_less(x, y))
}

/// A file path.
#[derive(Debug)]
pub struct FilePath {
    pub bytes: Vec<u8>,
}

impl View for FilePath {
    type V = Seq<u8>;

    open spec fn view(&self) -> Seq<u8> {
        self.bytes@
    }
}

/// One step of a path, as a value.
#[derive(Debug)]
pub enum Part {
    Root,
    Current,
    Parent,
    Normal(Vec<u8>),
}

impl View for Part {
    type V = Component;

    open spec fn view(&self) -> Component {
        match self {
            Part::Root => Component::Root,
            Part::Current => Component::Current,
            Part::Parent => Component::Parent,
            Part::Normal(n) => Component::Normal(n@),
        }
    }
}

/// The components that a run of parts stands for.
pub open spec fn parts_view(v: Seq<Part>) -> Seq<Component> {
    v.map_values(|p: Part| p@)
}

/// The bytes that each vector holds.
pub open spec fn byte_views(v: Seq<Vec<u8>>) -> Seq<Seq<u8>> {
    v.map_values(|w: Vec<u8>| w@)
}

/// The bytes of `s` from `start` up to `end`.
pub fn copy_range(s: &[u8], start: usize, end: usize) -> (r: Vec<u8>)
    requires
        start <= end <= s.len(),
    ensures
        r@ == s@.subrange(start as int, end as int),
{
    let mut out: Vec<u8> = Vec::new();
    let mut i: usize = start;
    while i < end
        invariant
            start <= i <= end <= s.len(),
            out@ == s@.subrange(start as int, i as int),
        decreases end - i,
    {
        assert(s@.subrange(start as int, i + 1) =~= s@.subrange(start as int, i as int).push(
            s@[i as int],
        ));
        out.push(s[i]);
        i += 1;
    }
    out
}

/// Appends bytes.
pub fn push_bytes(v: &mut Vec<u8>, more: &[u8])
    ensures
        final(v)@ == old(v)@ + more@,
{
    let mut i: usize = 0;
    assert(v@ =~= old(v)@ + more@.take(0));
    while i < more.len()
        invariant
            i <= more.len(),
            v@ == old(v)@ + more@.take(i as int),
        decreases more.len() - i,
    {
        assert(more@.take(i + 1) =~= more@.take(i as int).push(more@[i as int]));
        v.push(more[i]);
        assert(v@ =~= old(v)@ + more@.take(i + 1));
        i += 1;
    }
    assert(more@.take(more@.len() as int) =~= more@);
}

/// The runs of a path between its slashes.
fn split_names(p: &[u8]) -> (r: Vec<Vec<u8>>)
    ensures
        byte_views(r@) == names(p@),
{
    let mut done: Vec<Vec<u8>> = Vec::new();
    let mut current: Vec<u8> = Vec::new();
    let mut i: usize = 0;
    assert(p@.take(0) =~= Seq::<u8>::empty());
    assert(byte_views(done@).push(current@) =~= names(p@.take(0)));
    while i < p.len()
        invariant
            i <= p.len(),
            names(p@.take(i as int)) == byte_views(done@).push(current@),
        decreases p.len() - i,
    {
        let ghost before = names(p@.take(i as int));
        assert(p@.take(i + 1).drop_last() =~= p@.take(i as int));
        let b: u8 = p[i];
        if b == SLASH {
            done.push(current);
            assert(byte_views(done@) =~= before);
            current = Vec::new();
            assert(names(p@.take(i + 1)) =~= byte_views(done@).push(current@));
        } else {
            current.push(b);
            assert(before.last().push(b) =~= current@);
            assert(names(p@.take(i + 1)) =~= byte_views(done@).push(current@));
        }
        i += 1;
    }
    assert(p@.take(p@.len() as int) =~= p@);
    let ghost done_before = byte_views(done@);
    let ghost last = current@;
    done.push(current);
    assert(byte_views(done@) =~= done_before.push(last));
    done
}

fn is_dots(name: &[u8], count: usize) -> (r: bool)
    requires
        count == 1 || count == 2,
    ensures
        count == 1 ==> r == (name@ == seq![DOT]),
        count == 2 ==> r == (name@ == seq![DOT, DOT]),
{
    let r = name.len() == count && name[0] == DOT && name[count - 1] == DOT;
    assert(count == 1 && r ==> name@ =~= seq![DOT]);
    assert(count == 2 && r ==> name@ =~= seq![DOT, DOT]);
    r
}

impl FilePath {
    /// The components of the path.
    pub fn parts(&self) -> (r: Vec<Part>)
        ensures
            parts_view(r@) == components(self@),
    {
        let runs = split_names(self.bytes.as_slice());
        let mut out: Vec<Part> = Vec::new();
        proof {
            text::lemma_pieces_nonempty(self@, |b: u8| b == SLASH);
            assert(byte_views(runs@)[0] == runs@[0]@);
        }
        if self.bytes.len() > 0 && self.bytes[0] == SLASH {
            out.push(Part::Root);
        } else if is_dots(runs[0].as_slice(), 1) {
            out.push(Part::Current);
        }
        assert(parts_view(out@) =~= lead(self@));
        let mut i: usize = 0;
        assert(names(self@).take(0) =~= Seq::empty());
        assert(parts_view(out@) =~= lead(self@) + body(names(self@).take(0)));
        while i < runs.len()
            invariant
                i <= runs.len(),
                byte_views(runs@) == names(self@),
                parts_view(out@) == lead(self@) + body(names(self@).take(i as int)),
            decreases runs.len() - i,
        {
            let ghost upto = names(self@).take(i + 1);
            let ghost before = parts_view(out@);
            assert(upto.drop_last() =~= names(self@).take(i as int));
            assert(upto.last() == runs@[i as int]@);
            let run = copy_range(runs[i].as_slice(), 0, runs[i].len());
            assert(run@ =~= upto.last());
            if run.len() == 0 || is_dots(run.as_slice(), 1) {
            } else if is_dots(run.as_slice(), 2) {
                out.push(Part::Parent);
                assert(parts_view(out@) =~= before.push(Component::Parent));
            } else {
                out.push(Part::Normal(run));
                assert(parts_view(out@) =~= before.push(Component::Normal(upto.last())));
            }
            assert(parts_view(out@) =~= lead(self@) + body(upto));
            i += 1;
        }
        assert(names(self@).take(names(self@).len() as int) =~= names(self@));
        out
    }

    /// A copy of the path.
    pub fn copy(&self) -> (r: FilePath)
        ensures
            r@ == self@,
    {
        let bytes = copy_range(self.bytes.as_slice(), 0, self.bytes.len());
        assert(bytes@ =~= self@);
        FilePath { bytes }
    }

    /// The path that a text names.
    pub fn from_text(s: &str) -> (r: FilePath)
        ensures
            r@ == vstd::utf8::encode_utf8(s@),
    {
        let bytes = copy_range(s.as_bytes(), 0, s.as_bytes().len());
        assert(bytes@ =~= vstd::utf8::encode_utf8(s@));
        FilePath { bytes }
    }

    /// The last component, where it is a name.
    pub fn file_name(&self) -> (r: Option<Vec<u8>>)
        ensures
            r is Some <==> file_name(self@) is Some,
            r is Some ==> r->0@ == file_name(self@)->0,
    {
        let mut parts = self.parts();
        if parts.len() == 0 {
            return None;
        }
        assert(parts_view(parts@).last() == parts@.last()@);
        match parts.pop() {
            Some(Part::Normal(n)) => Some(n),
            _ => None,
        }
    }

    /// The file name up to its last dot.
    pub fn file_stem(&self) -> (r: Option<Vec<u8>>)
        ensures
            r is Some <==> file_stem(self@) is Some,
            r is Some ==> r->0@ == file_stem(self@)->0,
    {
        match self.file_name() {
            None => None,
            Some(name) => {
                match dot_index(name.as_slice()) {
                    Some(d) if d > 0 => {
                        let s = copy_range(name.as_slice(), 0, d);
                        assert(s@ =~= name@.take(d as int));
                        Some(s)
                    },
                    _ => Some(name),
                }
            },
        }
    }

    /// What follows the last dot of the file name.
    pub fn extension(&self) -> (r: Option<Vec<u8>>)
        ensures
            r is Some <==> file_extension(self@) is Some,
            r is Some ==> r->0@ == file_extension(self@)->0,
    {
        match self.file_name() {
            None => None,
            Some(name) => {
                match dot_index(name.as_slice()) {
                    Some(d) if d > 0 => {
                        let e = copy_range(name.as_slice(), d + 1, name.len());
                        assert(e@ =~= name@.skip(d + 1));
                        Some(e)
                    },
                    _ => None,
                }
            },
        }
    }

    /// The path without its last component.
    pub fn parent(&self) -> (r: Option<FilePath>)
        ensures
            r is Some <==> parent(self@) is Some,
            r is Some ==> r->0@ == parent(self@)->0,
    {
        let end = tail_end(self.bytes.as_slice());
        if end == 0 || (end == 1 && self.bytes[0] == SLASH) {
            assert(end == 1 ==> self@.take(1) =~= seq![SLASH]);
            return None;
        }
        assert(trim_tail(self@) == seq![SLASH] ==> self@[0] == trim_tail(self@)[0]);
        let head = self.name_prefix();
        let head_end = tail_end(head.as_slice());
        let bytes = copy_range(head.as_slice(), 0, head_end);
        assert(bytes@ =~= trim_tail(head@));
        Some(FilePath { bytes })
    }

    /// What stands before the last run of the path.
    pub fn name_prefix(&self) -> (r: Vec<u8>)
        ensures
            r@ == trim_tail(self@).take(name_start(trim_tail(self@))),
    {
        let end = tail_end(self.bytes.as_slice());
        let t = copy_range(self.bytes.as_slice(), 0, end);
        assert(t@ =~= trim_tail(self@));
        let start = last_run(t.as_slice());
        let head = copy_range(t.as_slice(), 0, start);
        assert(head@ =~= t@.take(start as int));
        head
    }

    /// `other` taken from this directory.
    pub fn join(&self, other: &[u8]) -> (r: FilePath)
        ensures
            r@ == join(self@, other@),
    {
        if other.len() > 0 && other[0] == SLASH {
            let bytes = copy_range(other, 0, other.len());
            assert(bytes@ =~= other@);
            return FilePath { bytes };
        }
        let mut bytes = self.copy().bytes;
        if bytes.len() > 0 && bytes[bytes.len() - 1] != SLASH {
            bytes.push(SLASH);
        }
        push_bytes(&mut bytes, other);
        FilePath { bytes }
    }

    /// What is left of the path below `base`.
    pub fn strip_prefix(&self, base: &FilePath) -> (r: Option<FilePath>)
        ensures
            r is Some <==> strip_prefix(self@, base@) is Some,
            r is Some ==> r->0@ == strip_prefix(self@, base@)->0,
    {
        let mine = self.parts();
        let theirs = base.parts();
        if theirs.len() > mine.len() {
            return None;
        }
        let mut i: usize = 0;
        while i < theirs.len()
            invariant
                i <= theirs.len() <= mine.len(),
                parts_view(mine@) == components(self@),
                parts_view(theirs@) == components(base@),
                forall|j: int|
                    0 <= j < i ==> components(self@)[j] == #[trigger] components(base@)[j],
            decreases theirs.len() - i,
        {
            assert(parts_view(mine@)[i as int] == mine@[i as int]@);
            assert(parts_view(theirs@)[i as int] == theirs@[i as int]@);
            if !same_part(&mine[i], &theirs[i]) {
                assert(components(self@).take(components(base@).len() as int)[i as int]
                    == components(self@)[i as int]);
                return None;
            }
            i += 1;
        }
        assert(components(base@) =~= components(self@).take(components(base@).len() as int));
        let mut rest = self.copy().bytes;
        let mut n: usize = theirs.len();
        while n > 0
            invariant
                after(self@, components(base@).len()) == after(rest@, n as nat),
            decreases n,
        {
            rest = drop_first_part(rest.as_slice());
            n -= 1;
        }
        let end = tail_end(rest.as_slice());
        let bytes = copy_range(rest.as_slice(), 0, end);
        assert(bytes@ =~= trim_tail(rest@));
        Some(FilePath { bytes })
    }

    /// Whether two paths have the same components.
    pub fn same(&self, other: &FilePath) -> (r: bool)
        ensures
            r == (components(self@) == components(other@)),
    {
        let a = self.parts();
        let b = other.parts();
        assert(parts_view(a@).len() == a.len() && parts_view(b@).len() == b.len());
        if a.len() != b.len() {
            return false;
        }
        let mut i: usize = 0;
        while i < a.len()
            invariant
                i <= a.len() == b.len(),
                parts_view(a@) == components(self@),
                parts_view(b@) == components(other@),
                forall|j: int|
                    0 <= j < i ==> components(self@)[j] == #[trigger] components(other@)[j],
            decreases a.len() - i,
        {
            assert(parts_view(a@)[i as int] == a@[i as int]@);
            assert(parts_view(b@)[i as int] == b@[i as int]@);
            if !same_part(&a[i], &b[i]) {
                return false;
            }
            i += 1;
        }
        assert(components(self@) =~= components(other@));
        true
    }

    /// Whether this path comes before `other`.
    pub fn before(&self, other: &FilePath) -> (r: bool)
        ensures
            r == path_less(self@, other@),
    {
        let a = self.parts();
        let b = other.parts();
        let ghost lt = |x: Component, y: Component| component_less(x, y);
        let ghost va = components(self@);
        let ghost vb = components(other@);
        let mut i: usize = 0;
        assert(va.skip(0) =~= va);
        assert(vb.skip(0) =~= vb);
        while i < a.len() && i < b.len() && same_part(&a[i], &b[i])
            invariant
                i <= a.len(),
                i <= b.len(),
                parts_view(a@) == va,
                parts_view(b@) == vb,
                order::lex(va, vb, lt) == order::lex(
                    va.skip(i as int),
                    vb.skip(i as int),
                    lt,
                ),
            decreases a.len() - i,
        {
            assert(parts_view(a@)[i as int] == a@[i as int]@);
            assert(parts_view(b@)[i as int] == b@[i as int]@);
            assert(va.skip(i as int).drop_first() =~= va.skip(i + 1));
            assert(vb.skip(i as int).drop_first() =~= vb.skip(i + 1));
            i += 1;
        }
        if i == b.len() {
            false
        } else if i == a.len() {
            true
        } else {
            assert(parts_view(a@)[i as int] == a@[i as int]@);
            assert(parts_view(b@)[i as int] == b@[i as int]@);
            part_before(&a[i], &b[i])
        }
    }
}

/// Where the last dot of a name stands.
fn dot_index(name: &[u8]) -> (r: Option<usize>)
    ensures
        r is None ==> last_dot(name@) == -1,
        r is Some ==> r->0 == last_dot(name@) && r->0 < name.len(),
{
    let mut i: usize = name.len();
    assert(name@.take(i as int) =~= name@);
    while i > 0
        invariant
            i <= name.len(),
            last_dot(name@) == last_dot(name@.take(i as int)),
        decreases i,
    {
        if name[i - 1] == DOT {
            return Some(i - 1);
        }
        assert(name@.take(i as int).drop_last() =~= name@.take(i - 1));
        i -= 1;
    }
    None
}

/// Where the slashes and blank runs start that a path ends in.
fn tail_end(p: &[u8]) -> (r: usize)
    ensures
        r <= p.len(),
        trim_tail(p@) == p@.take(r as int),
{
    let mut end: usize = p.len();
    assert(p@.take(end as int) =~= p@);
    while end >= 2 && (p[end - 1] == SLASH || (p[end - 1] == DOT && p[end - 2] == SLASH))
        invariant
            end <= p.len(),
            trim_tail(p@) == trim_tail(p@.take(end as int)),
        decreases end,
    {
        assert(p@.take(end as int).drop_last() =~= p@.take(end - 1));
        end -= 1;
    }
    end
}

/// Where the last run of a path starts.
fn last_run(p: &[u8]) -> (r: usize)
    ensures
        r <= p.len(),
        r == name_start(p@),
{
    let mut i: usize = p.len();
    assert(p@.take(i as int) =~= p@);
    while i > 0
        invariant
            i <= p.len(),
            name_start(p@) == name_start(p@.take(i as int)),
        decreases i,
    {
        if p[i - 1] == SLASH {
            return i;
        }
        assert(p@.take(i as int).drop_last() =~= p@.take(i - 1));
        i -= 1;
    }
    0
}

/// What follows the first component.
fn drop_first_part(p: &[u8]) -> (r: Vec<u8>)
    ensures
        r@ == after_first(p@),
{
    let mut i: usize = 0;
    if p.len() > 0 && p[0] == SLASH {
        i = 1;
    } else {
        assert(p@.skip(0) =~= p@);
        while i < p.len() && p[i] != SLASH
            invariant
                i <= p.len(),
                first_len(p@) == i + first_len(p@.skip(i as int)),
            decreases p.len() - i,
        {
            assert(p@.skip(i as int).skip(1) =~= p@.skip(i + 1));
            i += 1;
        }
        assert(first_len(p@) == i);
    }
    assert(after_first(p@) == trim_head(p@.skip(i as int)));
    while i < p.len() && (p[i] == SLASH || (p[i] == DOT && (i + 1 == p.len() || p[i + 1] == SLASH)))
        invariant
            i <= p.len(),
            after_first(p@) == trim_head(p@.skip(i as int)),
        decreases p.len() - i,
    {
        let ghost here = p@.skip(i as int);
        if p[i] == SLASH {
            assert(here.skip(1) =~= p@.skip(i + 1));
            i += 1;
        } else if i + 1 == p.len() {
            assert(here =~= seq![DOT]);
            i += 1;
            assert(p@.skip(i as int) =~= Seq::<u8>::empty());
        } else {
            assert(here.skip(2) =~= p@.skip(i + 2));
            assert(here != seq![DOT]) by {
                assert(here.len() >= 2);
            }
            i += 2;
        }
    }
    let r = copy_range(p, i, p.len());
    assert(r@ =~= p@.skip(i as int));
    assert(r@ == seq![DOT] ==> r@[0] == p@[i as int]);
    r
}

fn same_part(a: &Part, b: &Part) -> (r: bool)
    ensures
        r == (a@ == b@),
{
    match (a, b) {
        (Part::Root, Part::Root) => true,
        (Part::Current, Part::Current) => true,
        (Part::Parent, Part::Parent) => true,
        (Part::Normal(x), Part::Normal(y)) => same_bytes(x.as_slice(), y.as_slice()),
        _ => false,
    }
}

fn part_rank(p: &Part) -> (r: u8)
    ensures
        r == rank(p@),
{
    match p {
        Part::Root => 0,
        Part::Current => 1,
        Part::Parent => 2,
        Part::Normal(_) => 3,
    }
}

fn part_before(a: &Part, b: &Part) -> (r: bool)
    ensures
        r == component_less(a@, b@),
{
    match (a, b) {
        (Part::Normal(x), Part::Normal(y)) => bytes_before(x.as_slice(), y.as_slice()),
        _ => part_rank(a) < part_rank(b),
    }
}

} // verus!
