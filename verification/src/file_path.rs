//! Portable file paths.
//!
//! A file system path is decomposed into a minimal base (empty for
//! relative paths) and a normalized relative part: no `.` segments, no
//! empty segments, and `..` only as a leading run of segments that could
//! not be resolved against anything. The decomposition keeps enough
//! information to reconstruct an equivalent file system path.

use vstd::prelude::*;
use vstd::string::StrSliceExecFns;
use vstd::string::StringExecFns;

verus! {

/// A `.` segment, which normalization drops.
pub open spec fn is_current_dir_segment(s: Seq<char>) -> bool {
    s.len() == 1 && s[0] == '.'
}

/// A `..` segment, which cancels the preceding normal segment if there is one.
pub open spec fn is_parent_dir_segment(s: Seq<char>) -> bool {
    s.len() == 2 && s[0] == '.' && s[1] == '.'
}

/// A raw path component: nonempty and free of separators.
pub open spec fn is_component(s: Seq<char>) -> bool {
    s.len() > 0 && (forall|i: int| 0 <= i < s.len() ==> s[i] != '/')
}

/// A segment that may appear in a normalized relative path.
pub open spec fn is_normalized_segment(s: Seq<char>) -> bool {
    is_component(s) && !is_current_dir_segment(s)
}

/// A normalized relative path: every segment valid, and `..` segments
/// only as a leading run.
pub open spec fn is_normalized(segs: Seq<Seq<char>>) -> bool {
    &&& forall|i: int| 0 <= i < segs.len() ==> is_normalized_segment(#[trigger] segs[i])
    &&& forall|i: int|
        0 < i < segs.len() && is_parent_dir_segment(#[trigger] segs[i]) ==> is_parent_dir_segment(
            segs[i - 1],
        )
}

/// One scanning step of the component splitter: a separator closes the
/// pending component (if any); any other character extends it.
pub open spec fn split_step(acc: (Seq<Seq<char>>, Seq<char>), c: char) -> (Seq<Seq<char>>, Seq<
    char,
>) {
    if c == '/' {
        if acc.1.len() > 0 {
            (acc.0.push(acc.1), Seq::empty())
        } else {
            acc
        }
    } else {
        (acc.0, acc.1.push(c))
    }
}

/// The splitter state after scanning all of `s`: the components closed so
/// far, and the still-open component.
pub open spec fn split_state(s: Seq<char>) -> (Seq<Seq<char>>, Seq<char>)
    decreases s.len(),
{
    if s.len() == 0 {
        (Seq::empty(), Seq::empty())
    } else {
        split_step(split_state(s.drop_last()), s.last())
    }
}

/// The components of `s`: maximal nonempty runs between separators.
pub open spec fn components_of(s: Seq<char>) -> Seq<Seq<char>> {
    let (closed, open) = split_state(s);
    if open.len() > 0 {
        closed.push(open)
    } else {
        closed
    }
}

/// One normalization step: drop `.`, let `..` cancel a trailing normal
/// segment of the buffer, keep everything else.
pub open spec fn collapse_step(buf: Seq<Seq<char>>, seg: Seq<char>) -> Seq<Seq<char>> {
    if is_current_dir_segment(seg) {
        buf
    } else if is_parent_dir_segment(seg) {
        if buf.len() > 0 && !is_parent_dir_segment(buf.last()) {
            buf.drop_last()
        } else {
            buf.push(seg)
        }
    } else {
        buf.push(seg)
    }
}

/// Normalization of `segs`, applied left to right on top of an already
/// normalized buffer.
pub open spec fn collapse_onto(buf: Seq<Seq<char>>, segs: Seq<Seq<char>>) -> Seq<Seq<char>>
    decreases segs.len(),
{
    if segs.len() == 0 {
        buf
    } else {
        collapse_step(collapse_onto(buf, segs.drop_last()), segs.last())
    }
}

/// The normalized segments of a path text.
pub open spec fn normalized_segments_of(s: Seq<char>) -> Seq<Seq<char>> {
    collapse_onto(Seq::empty(), components_of(s))
}

/// Whether a path text is absolute.
pub open spec fn is_absolute_path(s: Seq<char>) -> bool {
    s.len() > 0 && s[0] == '/'
}

/// The segments joined by separators.
pub open spec fn joined_segments(segs: Seq<Seq<char>>) -> Seq<char>
    decreases segs.len(),
{
    if segs.len() == 0 {
        Seq::empty()
    } else if segs.len() == 1 {
        segs[0]
    } else {
        joined_segments(segs.drop_last()) + seq!['/'] + segs.last()
    }
}

/// The file system text of a decomposed path.
pub open spec fn path_text(absolute: bool, segs: Seq<Seq<char>>) -> Seq<char> {
    if absolute {
        seq!['/'] + joined_segments(segs)
    } else {
        joined_segments(segs)
    }
}

/// Portable file path.
///
/// Decomposed into a minimal base and a normalized relative part. Path
/// text uses `/` as the separator; the base is the leading separator of
/// an absolute path, and empty for a relative one. Constructed by
/// [`FilePath::import_path`], which establishes [`FilePath::wf`].
#[derive(Debug, PartialEq, Eq)]
pub struct FilePath {
    /// Whether the path is anchored at the file system root.
    pub is_absolute: bool,
    /// The normalized relative part.
    pub segments: Vec<String>,
}

impl FilePath {
    /// The relative part as a sequence of character sequences.
    pub open spec fn segs(&self) -> Seq<Seq<char>> {
        self.segments.deep_view()
    }

    /// The relative part is normalized.
    pub open spec fn wf(&self) -> bool {
        is_normalized(self.segs())
    }
}

/// The splitter state after scanning `t` on top of the state `acc`.
pub open spec fn split_from(acc: (Seq<Seq<char>>, Seq<char>), t: Seq<char>) -> (Seq<Seq<char>>, Seq<
    char,
>)
    decreases t.len(),
{
    if t.len() == 0 {
        acc
    } else {
        split_step(split_from(acc, t.drop_last()), t.last())
    }
}

proof fn lemma_split_state_is_from(s: Seq<char>)
    ensures
        split_state(s) == split_from((Seq::<Seq<char>>::empty(), Seq::<char>::empty()), s),
    decreases s.len(),
{
    if s.len() > 0 {
        lemma_split_state_is_from(s.drop_last());
    }
}

proof fn lemma_split_from_append(acc: (Seq<Seq<char>>, Seq<char>), x: Seq<char>, y: Seq<char>)
    ensures
        split_from(acc, x + y) == split_from(split_from(acc, x), y),
    decreases y.len(),
{
    if y.len() == 0 {
        assert(x + y =~= x);
    } else {
        assert((x + y).drop_last() =~= x + y.drop_last());
        assert((x + y).last() == y.last());
        lemma_split_from_append(acc, x, y.drop_last());
    }
}

proof fn lemma_split_state_append(s: Seq<char>, t: Seq<char>)
    ensures
        split_state(s + t) == split_from(split_state(s), t),
{
    lemma_split_state_is_from(s + t);
    lemma_split_state_is_from(s);
    lemma_split_from_append((Seq::<Seq<char>>::empty(), Seq::<char>::empty()), s, t);
}

proof fn lemma_split_from_no_separator(acc: (Seq<Seq<char>>, Seq<char>), t: Seq<char>)
    requires
        forall|k: int| 0 <= k < t.len() ==> t[k] != '/',
    ensures
        split_from(acc, t) == (acc.0, acc.1 + t),
    decreases t.len(),
{
    if t.len() == 0 {
        assert(acc.1 + t =~= acc.1);
    } else {
        lemma_split_from_no_separator(acc, t.drop_last());
        assert(acc.1 + t.drop_last() + seq![t.last()] =~= acc.1 + t);
    }
}

/// Everything the splitter has produced or holds open is free of
/// separators, and the closed components are nonempty.
proof fn lemma_split_state_valid(s: Seq<char>)
    ensures
        forall|i: int|
            0 <= i < split_state(s).0.len() ==> is_component(#[trigger] split_state(s).0[i]),
        forall|k: int| 0 <= k < split_state(s).1.len() ==> #[trigger] split_state(s).1[k] != '/',
    decreases s.len(),
{
    if s.len() > 0 {
        lemma_split_state_valid(s.drop_last());
        let (closed, open) = split_state(s.drop_last());
        let c = s.last();
        if c == '/' && open.len() > 0 {
            assert(is_component(open));
            assert(forall|i: int|
                0 <= i < closed.push(open).len() ==> closed.push(open)[i] == if i < closed.len() {
                    closed[i]
                } else {
                    open
                });
        } else if c != '/' {
            assert(forall|k: int|
                0 <= k < open.push(c).len() ==> open.push(c)[k] == if k < open.len() {
                    open[k]
                } else {
                    c
                });
        }
    }
}

/// Every component of a path text is valid.
pub proof fn lemma_components_valid(s: Seq<char>)
    ensures
        forall|i: int|
            0 <= i < components_of(s).len() ==> is_component(#[trigger] components_of(s)[i]),
{
    lemma_split_state_valid(s);
}

/// Normalization of valid components yields a normalized path.
pub proof fn lemma_collapse_normalized(buf: Seq<Seq<char>>, segs: Seq<Seq<char>>)
    requires
        is_normalized(buf),
        forall|i: int| 0 <= i < segs.len() ==> is_component(#[trigger] segs[i]),
    ensures
        is_normalized(collapse_onto(buf, segs)),
    decreases segs.len(),
{
    if segs.len() > 0 {
        lemma_collapse_normalized(buf, segs.drop_last());
        let mid = collapse_onto(buf, segs.drop_last());
        let last = segs.last();
        if is_current_dir_segment(last) {
        } else if is_parent_dir_segment(last) {
            if mid.len() > 0 && !is_parent_dir_segment(mid.last()) {
                assert(is_normalized(mid.drop_last())) by {
                    assert(forall|i: int|
                        0 <= i < mid.drop_last().len() ==> mid.drop_last()[i] == mid[i]);
                }
            } else {
                assert(is_normalized(mid.push(last)));
            }
        } else {
            assert(is_normalized(mid.push(last)));
        }
    }
}

/// Normalization does not change an already normalized path: collapsing
/// `segs` onto `buf` just concatenates them when the whole is normalized.
pub proof fn lemma_collapse_already_normalized(buf: Seq<Seq<char>>, segs: Seq<Seq<char>>)
    requires
        is_normalized(buf + segs),
    ensures
        collapse_onto(buf, segs) == buf + segs,
    decreases segs.len(),
{
    if segs.len() == 0 {
        assert(buf + segs =~= buf);
    } else {
        let whole = buf + segs;
        let shorter = buf + segs.drop_last();
        assert(forall|i: int| 0 <= i < shorter.len() ==> shorter[i] == whole[i]);
        assert(is_normalized(shorter));
        lemma_collapse_already_normalized(buf, segs.drop_last());
        let last = segs.last();
        assert(last == whole[whole.len() - 1]);
        assert(is_normalized_segment(last));
        if is_parent_dir_segment(last) {
            if shorter.len() > 0 {
                assert(shorter.last() == whole[whole.len() - 2]);
                assert(is_parent_dir_segment(shorter.last()));
            }
        }
        assert(shorter.push(last) =~= buf + segs);
    }
}

/// Normalization processes concatenated input piecewise.
pub proof fn lemma_collapse_onto_append(buf: Seq<Seq<char>>, a: Seq<Seq<char>>, b: Seq<Seq<char>>)
    ensures
        collapse_onto(buf, a + b) == collapse_onto(collapse_onto(buf, a), b),
    decreases b.len(),
{
    if b.len() == 0 {
        assert(a + b =~= a);
    } else {
        assert((a + b).drop_last() =~= a + b.drop_last());
        assert((a + b).last() == b.last());
        lemma_collapse_onto_append(buf, a, b.drop_last());
    }
}

/// A leading run of `..` segments in the buffer survives any further
/// normalization: a `..` only ever cancels a trailing normal segment.
proof fn lemma_collapse_onto_keeps_parent_prefix(buf: Seq<Seq<char>>, segs: Seq<Seq<char>>, k: int)
    requires
        0 <= k <= buf.len(),
        forall|i: int| 0 <= i < k ==> is_parent_dir_segment(#[trigger] buf[i]),
    ensures
        collapse_onto(buf, segs).len() >= k,
        forall|i: int| 0 <= i < k ==> #[trigger] collapse_onto(buf, segs)[i] == buf[i],
    decreases segs.len(),
{
    if segs.len() > 0 {
        lemma_collapse_onto_keeps_parent_prefix(buf, segs.drop_last(), k);
        let mid = collapse_onto(buf, segs.drop_last());
        let last = segs.last();
        if is_current_dir_segment(last) {
        } else if is_parent_dir_segment(last) && mid.len() > 0 && !is_parent_dir_segment(
            mid.last(),
        ) {
            assert(mid.len() > k) by {
                if mid.len() == k {
                    assert(mid.last() == mid[k - 1]);
                }
            }
        }
    }
}

/// Normalization preserves leading unresolvable `..` segments: however
/// many `..` components a path starts with, the normalized path starts
/// with the same run, while resolvable ones further in are collapsed.
pub proof fn lemma_leading_parents_preserved(p: Seq<char>, k: int)
    requires
        0 <= k <= components_of(p).len(),
        forall|i: int| 0 <= i < k ==> is_parent_dir_segment(#[trigger] components_of(p)[i]),
    ensures
        normalized_segments_of(p).len() >= k,
        forall|i: int| 0 <= i < k ==> #[trigger] normalized_segments_of(p)[i] == components_of(
            p,
        )[i],
{
    let cs = components_of(p);
    let head = cs.take(k);
    let tail = cs.skip(k);
    assert(head + tail =~= cs);
    lemma_collapse_onto_append(Seq::empty(), head, tail);
    assert(is_normalized(head)) by {
        lemma_components_valid(p);
        assert(forall|i: int| 0 <= i < k ==> head[i] == cs[i]);
    }
    assert(Seq::<Seq<char>>::empty() + head =~= head);
    lemma_collapse_already_normalized(Seq::empty(), head);
    lemma_collapse_onto_keeps_parent_prefix(head, tail, k);
}

/// A prefix of a normalized path is normalized.
pub proof fn lemma_take_normalized(segs: Seq<Seq<char>>, k: int)
    requires
        is_normalized(segs),
        0 <= k <= segs.len(),
    ensures
        is_normalized(segs.take(k)),
{
    assert(forall|i: int| 0 <= i < k ==> segs.take(k)[i] == segs[i]);
}

/// Compares two strings by their characters.
pub(crate) fn strings_equal(a: &String, b: &String) -> (r: bool)
    ensures
        r == (a@ == b@),
{
    a.eq(b)
}

/// Compares a string to a string slice by their characters.
pub(crate) fn strings_equal_str(a: &String, b: &str) -> (r: bool)
    ensures
        r == (a@ == b@),
{
    let owned = b.to_owned();
    a.eq(&owned)
}

/// Checks for the `.` segment.
pub(crate) fn seg_is_current(s: &String) -> (r: bool)
    ensures
        r == is_current_dir_segment(s@),
{
    s.as_str().unicode_len() == 1 && s.as_str().get_char(0) == '.'
}

/// Checks for the `..` segment.
pub(crate) fn seg_is_parent(s: &String) -> (r: bool)
    ensures
        r == is_parent_dir_segment(s@),
{
    s.as_str().unicode_len() == 2 && s.as_str().get_char(0) == '.' && s.as_str().get_char(1) == '.'
}

/// Splits a path text into its components: the maximal nonempty runs
/// between separators.
fn split_path_components(path: &str) -> (components: Vec<String>)
    ensures
        components.deep_view() == components_of(path@),
{
    let ghost s = path@;
    let n = path.unicode_len();
    let mut components: Vec<String> = Vec::new();
    let mut i: usize = 0;
    while i < n
        invariant
            n == s.len(),
            s == path@,
            i <= n,
            components.deep_view() == components_of(s.take(i as int)),
            split_state(s.take(i as int)).1.len() > 0 ==> i == n || s[i as int] == '/',
        decreases n - i,
    {
        let c = path.get_char(i);
        if c == '/' {
            proof {
                assert(s.take(i + 1).drop_last() =~= s.take(i as int));
                assert(s.take(i + 1).last() == s[i as int]);
            }
            i = i + 1;
        } else {
            let mut j = i + 1;
            while j < n && path.get_char(j) != '/'
                invariant
                    n == s.len(),
                    s == path@,
                    i < j <= n,
                    forall|k: int| i <= k < j ==> s[k] != '/',
                decreases n - j,
            {
                j = j + 1;
            }
            let seg = path.substring_char(i, j).to_owned();
            proof {
                assert(split_state(s.take(i as int)).1.len() == 0);
                assert(s.take(j as int) =~= s.take(i as int) + s.subrange(i as int, j as int));
                lemma_split_state_append(s.take(i as int), s.subrange(i as int, j as int));
                lemma_split_from_no_separator(
                    split_state(s.take(i as int)),
                    s.subrange(i as int, j as int),
                );
                assert(split_state(s.take(i as int)).1 + s.subrange(i as int, j as int)
                    =~= s.subrange(i as int, j as int));
                let old_dv = components.deep_view();
                let new_dv = old_dv.push(seg@);
                assert(new_dv =~= components_of(s.take(j as int)));
            }
            components.push(seg);
            proof {
                assert(components.deep_view() =~= components_of(s.take(j as int)));
            }
            i = j;
        }
    }
    proof {
        assert(s.take(n as int) =~= s);
    }
    components
}

/// Normalizes a list of components by dropping `.` and resolving `..`
/// against the already collapsed buffer.
fn collapse_components(components: &Vec<String>) -> (r: Vec<String>)
    ensures
        r.deep_view() == collapse_onto(Seq::empty(), components.deep_view()),
{
    let buf: Vec<String> = Vec::new();
    proof {
        assert(buf.deep_view() =~= Seq::<Seq<char>>::empty());
    }
    collapse_components_onto(buf, components)
}

/// Normalizes a list of components on top of an existing buffer, dropping
/// `.` and letting `..` cancel a trailing normal segment of the buffer.
pub(crate) fn collapse_components_onto(buf: Vec<String>, components: &Vec<String>) -> (r: Vec<
    String,
>)
    ensures
        r.deep_view() == collapse_onto(buf.deep_view(), components.deep_view()),
{
    let ghost base = buf.deep_view();
    let ghost dv = components.deep_view();
    let mut buf = buf;
    let mut j: usize = 0;
    while j < components.len()
        invariant
            dv == components.deep_view(),
            j <= components.len(),
            dv.len() == components.len(),
            buf.deep_view() == collapse_onto(base, dv.take(j as int)),
        decreases components.len() - j,
    {
        proof {
            assert(dv.take(j + 1).drop_last() =~= dv.take(j as int));
            assert(dv.take(j + 1).last() == dv[j as int]);
        }
        let seg = &components[j];
        if seg_is_current(seg) {
        } else if seg_is_parent(seg) {
            let blen = buf.len();
            if blen > 0 && !seg_is_parent(&buf[blen - 1]) {
                let ghost old_bv = buf.deep_view();
                let _ = buf.pop();
                proof {
                    assert(buf.deep_view() =~= old_bv.drop_last());
                }
            } else {
                let ghost old_bv = buf.deep_view();
                buf.push(seg.clone());
                proof {
                    assert(buf.deep_view() =~= old_bv.push(dv[j as int]));
                }
            }
        } else {
            let ghost old_bv = buf.deep_view();
            buf.push(seg.clone());
            proof {
                assert(buf.deep_view() =~= old_bv.push(dv[j as int]));
            }
        }
        j = j + 1;
    }
    proof {
        assert(dv.take(dv.len() as int) =~= dv);
    }
    buf
}

/// Clones a vector of strings, keeping the exact contents.
pub(crate) fn clone_segments(v: &Vec<String>) -> (r: Vec<String>)
    ensures
        r@ == v@,
{
    let mut r: Vec<String> = Vec::new();
    let mut i: usize = 0;
    while i < v.len()
        invariant
            i <= v.len(),
            r@ == v@.take(i as int),
        decreases v.len() - i,
    {
        r.push(v[i].clone());
        proof {
            assert(r@ =~= v@.take(i + 1));
        }
        i = i + 1;
    }
    proof {
        assert(v@.take(v@.len() as int) =~= v@);
    }
    r
}

impl Clone for FilePath {
    fn clone(&self) -> (r: Self)
        ensures
            r.is_absolute == self.is_absolute,
            r.segments@ == self.segments@,
            r.segs() == self.segs(),
    {
        FilePath { is_absolute: self.is_absolute, segments: clone_segments(&self.segments) }
    }
}

impl FilePath {
    /// Whether the path has no base, i.e. is relative.
    pub fn is_relative(&self) -> (r: bool)
        ensures
            r == !self.is_absolute,
    {
        !self.is_absolute
    }

    /// The base path text: `/` for absolute paths, empty for relative ones.
    pub fn base(&self) -> (r: String)
        ensures
            self.is_absolute ==> r@ == seq!['/'],
            !self.is_absolute ==> r@ == Seq::<char>::empty(),
    {
        if self.is_absolute {
            let r = String::from_str("/");
            proof {
                reveal_strlit("/");
                assert(r@ =~= seq!['/']);
            }
            r
        } else {
            String::new()
        }
    }

    /// The relative part as path text, segments joined by separators.
    pub fn relative(&self) -> (r: String)
        ensures
            r@ == joined_segments(self.segs()),
    {
        let ghost dv = self.segments.deep_view();
        let mut out = String::new();
        let mut j: usize = 0;
        while j < self.segments.len()
            invariant
                dv == self.segments.deep_view(),
                dv.len() == self.segments.len(),
                j <= self.segments.len(),
                out@ == joined_segments(dv.take(j as int)),
            decreases self.segments.len() - j,
        {
            proof {
                assert(dv.take(j + 1).drop_last() =~= dv.take(j as int));
                assert(dv.take(j + 1).last() == dv[j as int]);
            }
            if j > 0 {
                out.append("/");
                proof {
                    reveal_strlit("/");
                    assert(out@ =~= joined_segments(dv.take(j as int)) + seq!['/']);
                }
            }
            out.append(self.segments[j].as_str());
            proof {
                if j == 0 {
                    assert(out@ =~= dv[0]);
                } else {
                    assert(out@ =~= joined_segments(dv.take(j as int)) + seq!['/'] + dv[j as int]);
                }
            }
            j = j + 1;
        }
        proof {
            assert(dv.take(dv.len() as int) =~= dv);
        }
        out
    }

    /// Reconstructs the file system path text.
    pub fn to_path(&self) -> (r: String)
        ensures
            r@ == path_text(self.is_absolute, self.segs()),
    {
        let rel = self.relative();
        if self.is_absolute {
            let r = String::from_str("/").concat(rel.as_str());
            proof {
                reveal_strlit("/");
                assert(r@ =~= seq!['/'] + joined_segments(self.segs()));
            }
            r
        } else {
            rel
        }
    }

    /// The same path with the base removed.
    pub fn into_relative(self) -> (r: FilePath)
        ensures
            !r.is_absolute,
            r.segs() == self.segs(),
    {
        FilePath { is_absolute: false, segments: self.segments }
    }

    /// The parent path, if the relative part is nonempty.
    pub fn to_parent_path(&self) -> (r: Option<FilePath>)
        ensures
            r is Some <==> self.segs().len() > 0,
            r matches Some(p) ==> p.is_absolute == self.is_absolute && p.segs()
                == self.segs().drop_last(),
    {
        if self.segments.len() == 0 {
            None
        } else {
            let mut segments = clone_segments(&self.segments);
            let _ = segments.pop();
            proof {
                assert(segments.deep_view() =~= self.segs().drop_last());
            }
            Some(FilePath { is_absolute: self.is_absolute, segments })
        }
    }

    /// Imports a file system path, decomposing it into base and
    /// normalized relative part.
    pub fn import_path(path: &str) -> (r: FilePath)
        ensures
            r.is_absolute == is_absolute_path(path@),
            r.segs() == normalized_segments_of(path@),
            r.wf(),
    {
        let is_absolute = path.unicode_len() > 0 && path.get_char(0) == '/';
        let components = split_path_components(path);
        let segments = collapse_components(&components);
        proof {
            lemma_components_valid(path@);
            lemma_collapse_normalized(Seq::empty(), components_of(path@));
        }
        FilePath { is_absolute, segments }
    }
}

proof fn lemma_split_state_joined(segs: Seq<Seq<char>>)
    requires
        segs.len() > 0,
        forall|i: int| 0 <= i < segs.len() ==> is_component(#[trigger] segs[i]),
    ensures
        split_state(joined_segments(segs)) == (segs.drop_last(), segs.last()),
    decreases segs.len(),
{
    let init = (Seq::<Seq<char>>::empty(), Seq::<char>::empty());
    if segs.len() == 1 {
        lemma_split_state_is_from(segs[0]);
        lemma_split_from_no_separator(init, segs[0]);
        assert(Seq::<char>::empty() + segs[0] =~= segs[0]);
        assert(segs.drop_last() =~= Seq::<Seq<char>>::empty());
    } else {
        let dl = segs.drop_last();
        let last = segs.last();
        lemma_split_state_joined(dl);
        assert(joined_segments(segs) == joined_segments(dl) + seq!['/'] + last);
        assert(joined_segments(dl) + seq!['/'] + last =~= joined_segments(dl) + (seq!['/']
            + last));
        lemma_split_state_append(joined_segments(dl), seq!['/'] + last);
        lemma_split_from_append(split_state(joined_segments(dl)), seq!['/'], last);
        let st = split_state(joined_segments(dl));
        assert(seq!['/'].len() == 1);
        assert(seq!['/'].drop_last() =~= Seq::<char>::empty());
        assert(seq!['/'].last() == '/');
        assert(split_from(st, Seq::<char>::empty()) == st);
        assert(split_from(st, seq!['/']) == split_step(split_from(st, seq!['/'].drop_last()),
            seq!['/'].last()));
        assert(split_from(st, seq!['/']) == split_step(st, '/'));
        assert(is_component(dl.last()));
        assert(st.1.len() > 0);
        let flushed = split_step(st, '/');
        assert(flushed.0 =~= dl);
        assert(flushed.1 =~= Seq::<char>::empty());
        lemma_split_from_no_separator((dl, Seq::<char>::empty()), last);
        assert(Seq::<char>::empty() + last =~= last);
    }
}

/// Splitting the text of a list of valid segments recovers the segments.
pub proof fn lemma_components_of_path_text(absolute: bool, segs: Seq<Seq<char>>)
    requires
        forall|i: int| 0 <= i < segs.len() ==> is_component(#[trigger] segs[i]),
    ensures
        components_of(path_text(absolute, segs)) == segs,
{
    let init = (Seq::<Seq<char>>::empty(), Seq::<char>::empty());
    if absolute {
        assert(seq!['/'].len() == 1);
        assert(seq!['/'].drop_last() =~= Seq::<char>::empty());
        assert(seq!['/'].last() == '/');
        assert(split_state(Seq::<char>::empty()) == init);
        assert(split_state(seq!['/']) == split_step(split_state(seq!['/'].drop_last()),
            seq!['/'].last()));
        assert(split_state(seq!['/']) == split_step(init, '/'));
        lemma_split_state_append(seq!['/'], joined_segments(segs));
        lemma_split_state_is_from(joined_segments(segs));
    }
    if segs.len() == 0 {
        assert(components_of(path_text(absolute, segs)) =~= segs);
    } else {
        lemma_split_state_joined(segs);
        assert(components_of(joined_segments(segs)) =~= segs.drop_last().push(segs.last()));
        assert(segs.drop_last().push(segs.last()) =~= segs);
        if absolute {
            assert(components_of(path_text(absolute, segs)) =~= segs);
        }
    }
}

proof fn lemma_joined_first(segs: Seq<Seq<char>>)
    requires
        segs.len() > 0,
        forall|i: int| 0 <= i < segs.len() ==> is_component(#[trigger] segs[i]),
    ensures
        joined_segments(segs).len() > 0,
        joined_segments(segs)[0] == segs[0][0],
    decreases segs.len(),
{
    if segs.len() == 1 {
        assert(is_component(segs[0]));
    } else {
        lemma_joined_first(segs.drop_last());
        assert(segs.drop_last()[0] == segs[0]);
    }
}

/// Importing a path is idempotent: re-importing the reconstructed text of
/// an imported path yields the same decomposition. The normalized part
/// keeps unresolvable leading `..` segments and has collapsed all
/// resolvable ones: `..` occurs only as a leading run and `.` not at all.
pub proof fn lemma_import_path_idempotent(p: Seq<char>)
    ensures
        is_normalized(normalized_segments_of(p)),
        is_absolute_path(path_text(is_absolute_path(p), normalized_segments_of(p)))
            == is_absolute_path(p),
        normalized_segments_of(path_text(is_absolute_path(p), normalized_segments_of(p)))
            == normalized_segments_of(p),
{
    lemma_components_valid(p);
    lemma_collapse_normalized(Seq::empty(), components_of(p));
    let norm = normalized_segments_of(p);
    assert(forall|i: int| 0 <= i < norm.len() ==> is_component(#[trigger] norm[i])) by {
        assert(forall|i: int|
            0 <= i < norm.len() ==> is_normalized_segment(#[trigger] norm[i]));
    }
    lemma_components_of_path_text(is_absolute_path(p), norm);
    assert(Seq::<Seq<char>>::empty() + norm =~= norm);
    lemma_collapse_already_normalized(Seq::empty(), norm);
    if is_absolute_path(p) {
        assert(path_text(true, norm)[0] == '/');
    } else {
        if norm.len() > 0 {
            lemma_joined_first(norm);
            assert(is_component(norm[0]));
        }
    }
}

} // verus!
