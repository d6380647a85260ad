//! The directory snapshot renderer.
//!
//! The surrounding program walks the file system and hands over a flat
//! listing of the directories found under a root, each as its chain of name
//! components. Everything with display meaning happens here, verified:
//! hidden and denylisted names are excluded, the listing is truncated to a
//! depth bound, sorted into the fixed display order, and rendered as a tree
//! of connector-prefixed lines. The output is a function of the set of
//! listed paths alone, so two walks of an unchanged directory tree render
//! identically however the walk ordered its results.

use vstd::prelude::*;

use crate::catalog::str_eq;

verus! {

/// A directory inside the snapshot root, as its chain of name components
/// relative to the root.
#[derive(Debug)]
pub struct RelPath {
    pub parts: Vec<String>,
}

impl View for RelPath {
    type V = Seq<Seq<char>>;

    open spec fn view(&self) -> Seq<Seq<char>> {
        self.parts.deep_view()
    }
}

impl DeepView for RelPath {
    type V = Seq<Seq<char>>;

    open spec fn deep_view(&self) -> Seq<Seq<char>> {
        self@
    }
}

/// What a walk of the file system found at a root path: nothing, because the
/// path does not exist, or the directories below it.
#[derive(Debug)]
pub enum DirSnapshot {
    Missing,
    Listed(Vec<RelPath>),
}

impl View for DirSnapshot {
    type V = Option<Seq<Seq<Seq<char>>>>;

    open spec fn view(&self) -> Option<Seq<Seq<Seq<char>>>> {
        match self {
            DirSnapshot::Missing => None,
            DirSnapshot::Listed(v) => Some(v.deep_view()),
        }
    }
}

/// The marker that opens a hidden entry's name.
pub open spec fn spec_hidden(name: Seq<char>) -> bool {
    name.len() > 0 && name[0] == '.'
}

/// The names of generated and dependency directories that the tree never
/// shows. A policy constant, not a platform fact.
pub open spec fn denylist() -> Seq<Seq<char>> {
    seq!["node_modules"@, "target"@, "dist"@, "build"@]
}

/// Whether a single name is kept out of the tree.
pub open spec fn spec_excluded_name(name: Seq<char>) -> bool {
    spec_hidden(name) || denylist().contains(name)
}

/// Whether every component of a path survives the exclusion policy. An
/// excluded component hides the entry and all its descendants.
pub open spec fn spec_included_path(p: Seq<Seq<char>>) -> bool {
    forall|i: int| 0 <= i < p.len() ==> !spec_excluded_name(#[trigger] p[i])
}

/// Whether a listed path is shown at all: within the depth bound and with no
/// excluded component.
pub open spec fn spec_visible(p: Seq<Seq<char>>, max_depth: int) -> bool {
    1 <= p.len() <= max_depth && spec_included_path(p)
}

/// The exclusion test on one name, as the policy above states it.
pub fn is_excluded_name(name: &str) -> (r: bool)
    ensures
        r == spec_excluded_name(name@),
{
    proof {
        assert(denylist()[0] == "node_modules"@);
        assert(denylist()[1] == "target"@);
        assert(denylist()[2] == "dist"@);
        assert(denylist()[3] == "build"@);
    }
    if name.unicode_len() > 0 && name.get_char(0) == '.' {
        return true;
    }
    let r = str_eq(name, "node_modules") || str_eq(name, "target") || str_eq(name, "dist")
        || str_eq(name, "build");
    proof {
        if !r {
            assert forall|i: int| 0 <= i < denylist().len() implies denylist()[i] != name@ by {}
        }
    }
    r
}

/// Lexicographic order on names, by character code point.
pub open spec fn chars_le(a: Seq<char>, b: Seq<char>) -> bool
    decreases a.len(),
{
    if a.len() == 0 {
        true
    } else if b.len() == 0 {
        false
    } else if (a[0] as u32) < (b[0] as u32) {
        true
    } else if (b[0] as u32) < (a[0] as u32) {
        false
    } else {
        chars_le(a.skip(1), b.skip(1))
    }
}

/// Order on paths: component by component, a strict prefix first. This is
/// the depth-first pre-order in which the tree shows per-level-sorted
/// directories.
pub open spec fn path_le(a: Seq<Seq<char>>, b: Seq<Seq<char>>) -> bool
    decreases a.len(),
{
    if a.len() == 0 {
        true
    } else if b.len() == 0 {
        false
    } else if a[0] == b[0] {
        path_le(a.skip(1), b.skip(1))
    } else {
        chars_le(a[0], b[0])
    }
}

/// The path order as a relation value, for sorting.
pub open spec fn path_leq() -> spec_fn(Seq<Seq<char>>, Seq<Seq<char>>) -> bool {
    |a: Seq<Seq<char>>, b: Seq<Seq<char>>| path_le(a, b)
}

/// Two characters with one code point are one character.
proof fn lemma_char_cast_injective(a: char, b: char)
    requires
        (a as u32) == (b as u32),
    ensures
        a == b,
{
    vstd::utf8::char_u32_cast(a, a as u32);
    vstd::utf8::char_u32_cast(b, b as u32);
}

proof fn lemma_chars_le_connex(a: Seq<char>, b: Seq<char>)
    ensures
        chars_le(a, b) || chars_le(b, a),
    decreases a.len(),
{
    if a.len() > 0 && b.len() > 0 {
        if !((a[0] as u32) < (b[0] as u32)) && !((b[0] as u32) < (a[0] as u32)) {
            lemma_char_cast_injective(a[0], b[0]);
            lemma_chars_le_connex(a.skip(1), b.skip(1));
        }
    }
}

proof fn lemma_chars_le_antisym(a: Seq<char>, b: Seq<char>)
    requires
        chars_le(a, b),
        chars_le(b, a),
    ensures
        a == b,
    decreases a.len(),
{
    if a.len() == 0 {
        assert(b.len() == 0);
        assert(a =~= b);
    } else {
        assert(b.len() > 0);
        assert((a[0] as u32) == (b[0] as u32));
        lemma_char_cast_injective(a[0], b[0]);
        lemma_chars_le_antisym(a.skip(1), b.skip(1));
        assert(a =~= b) by {
            assert(a.skip(1).len() == a.len() - 1);
            assert(b.skip(1).len() == b.len() - 1);
            assert(a.len() == b.len());
            assert(forall|i: int|
                1 <= i < a.len() ==> a[i] == a.skip(1)[i - 1] && b[i] == b.skip(1)[i - 1]);
        }
    }
}

proof fn lemma_chars_le_trans(a: Seq<char>, b: Seq<char>, c: Seq<char>)
    requires
        chars_le(a, b),
        chars_le(b, c),
    ensures
        chars_le(a, c),
    decreases a.len(),
{
    if a.len() > 0 {
        assert(b.len() > 0);
        assert(c.len() > 0);
        let x = a[0] as u32;
        let y = b[0] as u32;
        let z = c[0] as u32;
        if x == y && y == z {
            lemma_chars_le_trans(a.skip(1), b.skip(1), c.skip(1));
        } else {
            assert(x < z);
        }
    }
}

proof fn lemma_path_le_refl(a: Seq<Seq<char>>)
    ensures
        path_le(a, a),
    decreases a.len(),
{
    if a.len() > 0 {
        lemma_path_le_refl(a.skip(1));
    }
}

proof fn lemma_path_le_connex(a: Seq<Seq<char>>, b: Seq<Seq<char>>)
    ensures
        path_le(a, b) || path_le(b, a),
    decreases a.len(),
{
    if a.len() > 0 && b.len() > 0 {
        if a[0] == b[0] {
            lemma_path_le_connex(a.skip(1), b.skip(1));
        } else {
            lemma_chars_le_connex(a[0], b[0]);
        }
    }
}

proof fn lemma_path_le_antisym(a: Seq<Seq<char>>, b: Seq<Seq<char>>)
    requires
        path_le(a, b),
        path_le(b, a),
    ensures
        a == b,
    decreases a.len(),
{
    if a.len() == 0 {
        assert(b.len() == 0);
        assert(a =~= b);
    } else {
        assert(b.len() > 0);
        if a[0] != b[0] {
            lemma_chars_le_antisym(a[0], b[0]);
        }
        assert(a[0] == b[0]);
        lemma_path_le_antisym(a.skip(1), b.skip(1));
        assert(a =~= b) by {
            assert(a.skip(1).len() == a.len() - 1);
            assert(b.skip(1).len() == b.len() - 1);
            assert(a.len() == b.len());
            assert(forall|i: int|
                1 <= i < a.len() ==> a[i] == a.skip(1)[i - 1] && b[i] == b.skip(1)[i - 1]);
        }
    }
}

proof fn lemma_path_le_trans(a: Seq<Seq<char>>, b: Seq<Seq<char>>, c: Seq<Seq<char>>)
    requires
        path_le(a, b),
        path_le(b, c),
    ensures
        path_le(a, c),
    decreases a.len(),
{
    if a.len() > 0 {
        assert(b.len() > 0);
        assert(c.len() > 0);
        if a[0] == b[0] && b[0] == c[0] {
            lemma_path_le_trans(a.skip(1), b.skip(1), c.skip(1));
        } else if a[0] == b[0] {
            assert(chars_le(a[0], c[0]));
        } else if b[0] == c[0] {
            assert(chars_le(a[0], c[0]));
        } else {
            lemma_chars_le_trans(a[0], b[0], c[0]);
            if a[0] == c[0] {
                lemma_chars_le_antisym(a[0], b[0]);
            }
        }
    }
}

/// The path order is a total order, so sorting by it has exactly one result.
pub proof fn lemma_path_le_total_ordering()
    ensures
        vstd::relations::total_ordering(path_leq()),
{
    assert forall|a: Seq<Seq<char>>| #[trigger] path_leq()(a, a) by {
        lemma_path_le_refl(a);
    }
    assert forall|a: Seq<Seq<char>>, b: Seq<Seq<char>>|
        #[trigger] path_leq()(a, b) && #[trigger] path_leq()(b, a) implies a == b by {
        lemma_path_le_antisym(a, b);
    }
    assert forall|a: Seq<Seq<char>>, b: Seq<Seq<char>>, c: Seq<Seq<char>>|
        #[trigger] path_leq()(a, b) && #[trigger] path_leq()(b, c) implies path_leq()(a, c) by {
        lemma_path_le_trans(a, b, c);
    }
    assert forall|a: Seq<Seq<char>>, b: Seq<Seq<char>>|
        #[trigger] path_leq()(a, b) || #[trigger] path_leq()(b, a) by {
        lemma_path_le_connex(a, b);
    }
}

/// Decide the name order, matching `chars_le`.
pub fn chars_le_exec(a: &str, b: &str) -> (r: bool)
    ensures
        r == chars_le(a@, b@),
{
    let a_len = a.unicode_len();
    let b_len = b.unicode_len();
    let mut i: usize = 0;
    proof {
        assert(a@.skip(0) =~= a@);
        assert(b@.skip(0) =~= b@);
    }
    loop
        invariant
            i <= a_len,
            i <= b_len,
            a_len == a@.len(),
            b_len == b@.len(),
            forall|j: int| 0 <= j < i ==> a@[j] == b@[j],
            chars_le(a@, b@) == chars_le(a@.skip(i as int), b@.skip(i as int)),
        decreases a_len - i,
    {
        if i == a_len {
            proof {
                assert(a@.skip(i as int).len() == 0);
            }
            return true;
        }
        if i == b_len {
            proof {
                assert(b@.skip(i as int).len() == 0);
                assert(a@.skip(i as int).len() > 0);
            }
            return false;
        }
        let ca = a.get_char(i);
        let cb = b.get_char(i);
        proof {
            assert(a@.skip(i as int)[0] == a@[i as int]);
            assert(b@.skip(i as int)[0] == b@[i as int]);
        }
        if (ca as u32) < (cb as u32) {
            return true;
        }
        if (cb as u32) < (ca as u32) {
            return false;
        }
        proof {
            assert(ca == cb) by {
                assert((ca as u32) == (cb as u32));
            }
            assert(a@.skip(i as int).skip(1) =~= a@.skip(i + 1));
            assert(b@.skip(i as int).skip(1) =~= b@.skip(i + 1));
        }
        i = i + 1;
    }
}

/// Decide the path order, matching `path_le`.
pub fn path_le_exec(a: &RelPath, b: &RelPath) -> (r: bool)
    ensures
        r == path_le(a@, b@),
{
    let a_len = a.parts.len();
    let b_len = b.parts.len();
    proof {
        assert(a@.len() == a_len);
        assert(b@.len() == b_len);
    }
    let mut i: usize = 0;
    proof {
        assert(a@.skip(0) =~= a@);
        assert(b@.skip(0) =~= b@);
    }
    loop
        invariant
            i <= a_len,
            i <= b_len,
            a_len == a@.len(),
            b_len == b@.len(),
            path_le(a@, b@) == path_le(a@.skip(i as int), b@.skip(i as int)),
        decreases a_len - i,
    {
        if i == a_len {
            proof {
                assert(a@.skip(i as int).len() == 0);
            }
            return true;
        }
        if i == b_len {
            proof {
                assert(b@.skip(i as int).len() == 0);
                assert(a@.skip(i as int).len() > 0);
            }
            return false;
        }
        proof {
            assert(a@.skip(i as int)[0] == a@[i as int]);
            assert(b@.skip(i as int)[0] == b@[i as int]);
            assert(a@[i as int] == a.parts@[i as int]@);
            assert(b@[i as int] == b.parts@[i as int]@);
        }
        if str_eq(a.parts[i].as_str(), b.parts[i].as_str()) {
            proof {
                assert(a@.skip(i as int).skip(1) =~= a@.skip(i + 1));
                assert(b@.skip(i as int).skip(1) =~= b@.skip(i + 1));
            }
            i = i + 1;
        } else {
            return chars_le_exec(a.parts[i].as_str(), b.parts[i].as_str());
        }
    }
}

/// An exact copy of a listed path.
fn clone_rel(p: &RelPath) -> (r: RelPath)
    ensures
        r@ == p@,
{
    let mut parts: Vec<String> = Vec::new();
    let n = p.parts.len();
    proof {
        assert(p@.len() == n);
    }
    let mut i: usize = 0;
    while i < n
        invariant
            i <= n,
            n == p.parts@.len(),
            n == p@.len(),
            parts.deep_view() == p@.take(i as int),
        decreases n - i,
    {
        let ghost pre = parts.deep_view();
        parts.push(p.parts[i].clone());
        proof {
            assert(parts.deep_view() =~= pre.push(p@[i as int]));
            assert(p@.take(i + 1) =~= p@.take(i as int).push(p@[i as int]));
        }
        i = i + 1;
    }
    proof {
        assert(p@.take(n as int) =~= p@);
    }
    let r = RelPath { parts };
    proof {
        assert(r@ =~= p@);
    }
    r
}

/// The visibility test on one listed path, as `spec_visible` states it.
fn path_is_visible(p: &RelPath, max_depth: usize) -> (r: bool)
    ensures
        r == spec_visible(p@, max_depth as int),
{
    let n = p.parts.len();
    proof {
        assert(p@.len() == n);
    }
    if n == 0 || n > max_depth {
        return false;
    }
    let mut i: usize = 0;
    while i < n
        invariant
            i <= n,
            n == p.parts@.len(),
            n == p@.len(),
            forall|j: int| 0 <= j < i ==> !spec_excluded_name(#[trigger] p@[j]),
        decreases n - i,
    {
        proof {
            assert(p@[i as int] == p.parts@[i as int]@);
        }
        if is_excluded_name(p.parts[i].as_str()) {
            proof {
                assert(spec_excluded_name(p@[i as int]));
            }
            return false;
        }
        i = i + 1;
    }
    true
}

/// The visibility predicate as a relation value, for filtering.
pub open spec fn visible_pred(max_depth: int) -> spec_fn(Seq<Seq<char>>) -> bool {
    |p: Seq<Seq<char>>| spec_visible(p, max_depth)
}

/// Keep exactly the visible paths of a listing, in their given order.
fn filter_visible(v: &Vec<RelPath>, max_depth: usize) -> (r: Vec<RelPath>)
    ensures
        r.deep_view() == v.deep_view().filter(visible_pred(max_depth as int)),
{
    let ghost src = v.deep_view();
    let mut r: Vec<RelPath> = Vec::new();
    let n = v.len();
    proof {
        assert(src.len() == n);
        assert(src.take(0) =~= Seq::<Seq<Seq<char>>>::empty());
        reveal(Seq::filter);
        assert(r.deep_view() =~= src.take(0).filter(visible_pred(max_depth as int)));
    }
    let mut i: usize = 0;
    while i < n
        invariant
            i <= n,
            n == v@.len(),
            src == v.deep_view(),
            src.len() == n,
            r.deep_view() == src.take(i as int).filter(visible_pred(max_depth as int)),
        decreases n - i,
    {
        let ghost r_pre = r.deep_view();
        proof {
            assert(v@[i as int]@ == src[i as int]);
        }
        if path_is_visible(&v[i], max_depth) {
            r.push(clone_rel(&v[i]));
            proof {
                assert(r.deep_view() =~= r_pre.push(src[i as int]));
            }
        }
        proof {
            assert(src.take(i + 1) =~= src.take(i as int).push(src[i as int]));
            crate::engine::lemma_filter_push(
                src.take(i as int),
                src[i as int],
                visible_pred(max_depth as int),
            );
        }
        i = i + 1;
    }
    proof {
        assert(src.take(n as int) =~= src);
    }
    r
}

/// Inserting an element anywhere in a sequence adds it to the sequence's
/// multiset.
proof fn lemma_insert_multiset<A>(s: Seq<A>, pos: int, x: A)
    requires
        0 <= pos <= s.len(),
    ensures
        s.insert(pos, x).to_multiset() == s.to_multiset().insert(x),
{
    broadcast use vstd::seq_lib::group_to_multiset_ensures;

    let front = s.subrange(0, pos);
    let back = s.subrange(pos, s.len() as int);
    vstd::seq_lib::lemma_multiset_commutative(front.push(x), back);
    vstd::seq_lib::lemma_multiset_commutative(front, back);
    assert(s =~= front + back);
    assert(front.push(x).to_multiset() =~= front.to_multiset().insert(x));
    assert(s.insert(pos, x).to_multiset() =~= s.to_multiset().insert(x));
}

/// Sort a listing into display order: the one `path_le`-sorted arrangement
/// of the given paths, as the specification-level sort states it.
fn sort_paths(v: Vec<RelPath>) -> (r: Vec<RelPath>)
    ensures
        r.deep_view() == v.deep_view().sort_by(path_leq()),
{
    broadcast use vstd::seq_lib::group_to_multiset_ensures;

    let ghost orig = v.deep_view();
    let mut src = v;
    let mut r: Vec<RelPath> = Vec::new();
    proof {
        assert(r.deep_view() =~= Seq::<Seq<Seq<char>>>::empty());
        assert(r.deep_view().to_multiset().add(src.deep_view().to_multiset()) =~= orig.to_multiset());
    }
    while src.len() > 0
        invariant
            vstd::relations::sorted_by(r.deep_view(), path_leq()),
            r.deep_view().to_multiset().add(src.deep_view().to_multiset()) == orig.to_multiset(),
        decreases src.len(),
    {
        let ghost src_pre = src.deep_view();
        let ghost r_pre = r.deep_view();
        let x = src.remove(0);
        proof {
            assert(src_pre.len() > 0);
            src_pre.to_multiset_ensures();
            assert(src.deep_view() =~= src_pre.remove(0));
            assert(x@ == src_pre[0]);
            assert(src_pre.remove(0).to_multiset() =~= src_pre.to_multiset().remove(src_pre[0]));
            assert(src_pre.contains(src_pre[0]));
            assert(src_pre.to_multiset().count(x@) > 0);
        }
        let mut j: usize = 0;
        while j < r.len() && path_le_exec(&r[j], &x)
            invariant
                j <= r.len(),
                r.deep_view().len() == r@.len(),
                forall|k: int| 0 <= k < j ==> path_le(#[trigger] r.deep_view()[k], x@),
            decreases r.len() - j,
        {
            proof {
                assert(r.deep_view()[j as int] == r@[j as int]@);
            }
            j = j + 1;
        }
        proof {
            assert(j < r@.len() ==> !path_le(r.deep_view()[j as int], x@));
        }
        let ghost jj = j as int;
        r.insert(j, x);
        proof {
            assert(r.deep_view() =~= r_pre.insert(jj, x@));
            lemma_insert_multiset(r_pre, jj, x@);
            assert(r.deep_view().to_multiset().add(src.deep_view().to_multiset()) =~= orig.to_multiset()) by {
                assert(r.deep_view().to_multiset() =~= r_pre.to_multiset().insert(x@));
                assert(src.deep_view().to_multiset() =~= src_pre.to_multiset().remove(x@));
                assert(r_pre.to_multiset().insert(x@).add(src_pre.to_multiset().remove(x@))
                    =~= r_pre.to_multiset().add(src_pre.to_multiset()));
            }
            let rd = r.deep_view();
            r_pre.insert_ensures(jj, x@);
            assert forall|a: int, b: int| 0 <= a < b < rd.len() implies path_leq()(
                rd[a],
                rd[b],
            ) by {
                if b < jj {
                    assert(rd[a] == r_pre[a] && rd[b] == r_pre[b]);
                } else if b == jj {
                    assert(rd[b] == x@);
                    assert(path_le(r_pre[jj - 1], x@));
                    assert(rd[a] == r_pre[a]);
                    if a < jj - 1 {
                        assert(path_leq()(r_pre[a], r_pre[jj - 1]));
                        lemma_path_le_trans(r_pre[a], r_pre[jj - 1], x@);
                    }
                } else if a == jj {
                    assert(rd[a] == x@);
                    assert(rd[b] == r_pre[b - 1]);
                    assert(!path_le(r_pre[jj], x@));
                    lemma_path_le_connex(r_pre[jj], x@);
                    if jj < b - 1 {
                        assert(path_leq()(r_pre[jj], r_pre[b - 1]));
                        lemma_path_le_trans(x@, r_pre[jj], r_pre[b - 1]);
                    }
                } else if a < jj && b > jj {
                    assert(rd[a] == r_pre[a] && rd[b] == r_pre[b - 1]);
                    if a == b - 1 {
                        assert(a == jj - 1 || a < jj - 1);
                        assert(path_le(r_pre[jj - 1], x@));
                        lemma_path_le_refl(r_pre[a]);
                    } else {
                        assert(path_leq()(r_pre[a], r_pre[b - 1]));
                    }
                } else {
                    assert(rd[a] == x@ || rd[a] == r_pre[a] || rd[a] == r_pre[a - 1]);
                    assert(a > jj);
                    assert(rd[a] == r_pre[a - 1] && rd[b] == r_pre[b - 1]);
                    assert(path_leq()(r_pre[a - 1], r_pre[b - 1]));
                }
            }
        }
    }
    proof {
        assert(src.deep_view().to_multiset().len() == 0);
        assert(r.deep_view().to_multiset() =~= orig.to_multiset()) by {
            assert forall|a: Seq<Seq<char>>|
                r.deep_view().to_multiset().count(a) == orig.to_multiset().count(a) by {
                assert(r.deep_view().to_multiset().add(src.deep_view().to_multiset()).count(a)
                    == orig.to_multiset().count(a));
            }
        }
        lemma_path_le_total_ordering();
        orig.lemma_sort_by_ensures(path_leq());
        vstd::seq_lib::lemma_sorted_unique(
            r.deep_view(),
            orig.sort_by(path_leq()),
            path_leq(),
        );
        assert(r.deep_view() == orig.sort_by(path_leq()));
    }
    r
}

/// Whether `q` is a later sibling of `p`: same parent chain, same depth, and
/// a strictly greater name.
pub open spec fn spec_later_sibling(p: Seq<Seq<char>>, q: Seq<Seq<char>>) -> bool {
    &&& q.len() == p.len()
    &&& q.take(p.len() - 1) == p.take(p.len() - 1)
    &&& q.last() != p.last()
    &&& chars_le(p.last(), q.last())
}

/// Whether the listing holds a later sibling of `p`. Decides between the
/// tee connector and the corner connector, and between a continuation bar
/// and blank space in the prefix.
pub open spec fn spec_has_later_sibling(listing: Seq<Seq<Seq<char>>>, p: Seq<Seq<char>>) -> bool {
    exists|j: int| 0 <= j < listing.len() && spec_later_sibling(p, #[trigger] listing[j])
}

/// The connector prefix of a line: one bar-or-blank column per ancestor,
/// a bar where that ancestor has a later sibling still to be drawn.
pub open spec fn spec_tree_prefix(listing: Seq<Seq<Seq<char>>>, p: Seq<Seq<char>>) -> Seq<char>
    decreases p.len(),
{
    if p.len() <= 1 {
        Seq::<char>::empty()
    } else {
        spec_tree_prefix(listing, p.drop_last()) + (if spec_has_later_sibling(
            listing,
            p.drop_last(),
        ) {
            "\u{2502}   "@
        } else {
            "    "@
        })
    }
}

/// A path's display form relative to the root: `.` with one `/`-joined
/// component per level.
pub open spec fn spec_rel_display(p: Seq<Seq<char>>) -> Seq<char>
    decreases p.len(),
{
    if p.len() == 0 {
        "."@
    } else {
        spec_rel_display(p.drop_last()) + "/"@ + p.last()
    }
}

/// One rendered directory line: connector prefix, tee or corner connector,
/// folder marker, the directory's name, and its relative path in parens.
pub open spec fn spec_line(listing: Seq<Seq<Seq<char>>>, p: Seq<Seq<char>>) -> Seq<char> {
    spec_tree_prefix(listing, p) + (if spec_has_later_sibling(listing, p) {
        "\u{251c}\u{2500}\u{2500} "@
    } else {
        "\u{2514}\u{2500}\u{2500} "@
    }) + "\u{1f4c1} "@ + p.last() + " ("@ + spec_rel_display(p) + ")"@
}

/// The longest suffix of a path with no separator in it: the name the
/// header shows for the root.
pub open spec fn spec_base_name(p: Seq<char>) -> Seq<char>
    decreases p.len(),
{
    if p.len() > 0 && p.contains('/') {
        spec_base_name(p.skip(1))
    } else {
        p
    }
}

/// The header line above the tree, naming the root.
pub open spec fn spec_header(path: Seq<char>) -> Seq<char> {
    "\u{1f4c2} "@ + spec_base_name(path) + " (./)"@
}

/// The single line shown for a root that does not exist.
pub open spec fn spec_missing_line() -> Seq<char> {
    "  (path does not exist)"@
}

/// The visible part of a listing, in display order.
pub open spec fn spec_visible_sorted(listing: Seq<Seq<Seq<char>>>, max_depth: int) -> Seq<
    Seq<Seq<char>>,
> {
    listing.filter(visible_pred(max_depth)).sort_by(path_leq())
}

/// The lines below the header: one per visible path, in display order.
pub open spec fn spec_body_lines(listing: Seq<Seq<Seq<char>>>, max_depth: int) -> Seq<Seq<char>> {
    spec_visible_sorted(listing, max_depth).map_values(
        |p: Seq<Seq<char>>| spec_line(spec_visible_sorted(listing, max_depth), p),
    )
}

/// Everything the tree shows for a snapshot: a sentinel line for a missing
/// root, else the header followed by the body lines.
pub open spec fn spec_tree_lines(
    path: Seq<char>,
    snap: Option<Seq<Seq<Seq<char>>>>,
    max_depth: int,
) -> Seq<Seq<char>> {
    match snap {
        None => seq![spec_missing_line()],
        Some(listing) => seq![spec_header(path)] + spec_body_lines(listing, max_depth),
    }
}

proof fn lemma_base_name_at(p: Seq<char>, i: int)
    requires
        0 <= i <= p.len(),
        forall|j: int| i <= j < p.len() ==> p[j] != '/',
        i > 0 ==> p[i - 1] == '/',
    ensures
        spec_base_name(p) == p.skip(i),
    decreases i,
{
    if i == 0 {
        assert(!p.contains('/'));
        assert(p.skip(0) =~= p);
    } else {
        assert(p.contains('/')) by {
            assert(p[i - 1] == '/');
        }
        lemma_base_name_at(p.skip(1), i - 1);
        assert(p.skip(1).skip(i - 1) =~= p.skip(i));
    }
}

/// The name the header shows for a root path, matching `spec_base_name`.
fn base_name(path: &str) -> (r: String)
    ensures
        r@ == spec_base_name(path@),
{
    let n = path.unicode_len();
    let mut start: usize = 0;
    let mut k: usize = 0;
    while k < n
        invariant
            k <= n,
            start <= k,
            n == path@.len(),
            forall|j: int| start <= j < k ==> path@[j] != '/',
            start > 0 ==> path@[start - 1] == '/',
        decreases n - k,
    {
        if path.get_char(k) == '/' {
            start = k + 1;
        }
        k = k + 1;
    }
    proof {
        lemma_base_name_at(path@, start as int);
    }
    let r = path.substring_char(start, n).to_owned();
    r
}

/// Whether `q` is a later sibling of the depth-`upto` prefix of `p`.
fn later_sibling_check(p: &RelPath, upto: usize, q: &RelPath) -> (r: bool)
    requires
        1 <= upto <= p@.len(),
    ensures
        r == spec_later_sibling(p@.take(upto as int), q@),
{
    let ghost pt = p@.take(upto as int);
    proof {
        assert(pt.len() == upto);
        assert(pt.last() == p@[upto - 1]);
        assert(pt.take(upto - 1) =~= p@.take(upto - 1));
        assert(p@.len() == p.parts@.len());
        assert(q@.len() == q.parts@.len());
    }
    if q.parts.len() != upto {
        return false;
    }
    let mut k: usize = 0;
    while k < upto - 1
        invariant
            k <= upto - 1,
            1 <= upto <= p@.len(),
            upto == q@.len(),
            p@.len() == p.parts@.len(),
            q@.len() == q.parts@.len(),
            pt == p@.take(upto as int),
            forall|t: int| 0 <= t < k ==> q@[t] == p@[t],
        decreases upto - 1 - k,
    {
        proof {
            assert(p@[k as int] == p.parts@[k as int]@);
            assert(q@[k as int] == q.parts@[k as int]@);
        }
        if !str_eq(q.parts[k].as_str(), p.parts[k].as_str()) {
            proof {
                if q@.take(upto - 1) == pt.take(upto - 1) {
                    assert(q@.take(upto - 1)[k as int] == pt.take(upto - 1)[k as int]);
                    assert(false);
                }
            }
            return false;
        }
        k = k + 1;
    }
    proof {
        assert(q@.take(upto - 1) =~= pt.take(upto - 1));
    }
    proof {
        assert(p@[upto - 1] == p.parts@[upto - 1]@);
        assert(q@[upto - 1] == q.parts@[upto - 1]@);
        assert(q@.last() == q@[upto - 1]);
    }
    if str_eq(q.parts[upto - 1].as_str(), p.parts[upto - 1].as_str()) {
        return false;
    }
    chars_le_exec(p.parts[upto - 1].as_str(), q.parts[upto - 1].as_str())
}

/// Whether the listing holds a later sibling of the depth-`upto` prefix of
/// `p`, matching `spec_has_later_sibling`.
fn has_later_sibling_upto(listing: &Vec<RelPath>, p: &RelPath, upto: usize) -> (r: bool)
    requires
        1 <= upto <= p@.len(),
    ensures
        r == spec_has_later_sibling(listing.deep_view(), p@.take(upto as int)),
{
    let ghost l = listing.deep_view();
    let n = listing.len();
    proof {
        assert(l.len() == n);
    }
    let mut j: usize = 0;
    while j < n
        invariant
            j <= n,
            1 <= upto <= p@.len(),
            l == listing.deep_view(),
            l.len() == n,
            n == listing@.len(),
            forall|t: int| 0 <= t < j ==> !spec_later_sibling(p@.take(upto as int), #[trigger] l[t]),
        decreases n - j,
    {
        proof {
            assert(listing@[j as int]@ == l[j as int]);
        }
        if later_sibling_check(p, upto, &listing[j]) {
            proof {
                assert(spec_later_sibling(p@.take(upto as int), l[j as int]));
            }
            return true;
        }
        j = j + 1;
    }
    false
}

/// A path's display form relative to the root, matching `spec_rel_display`.
fn rel_display(p: &RelPath) -> (r: String)
    ensures
        r@ == spec_rel_display(p@),
{
    let mut s = ".".to_owned();
    let n = p.parts.len();
    proof {
        assert(p@.len() == n);
        assert(p@.take(0) =~= Seq::<Seq<char>>::empty());
    }
    let mut k: usize = 0;
    while k < n
        invariant
            k <= n,
            n == p.parts@.len(),
            n == p@.len(),
            s@ == spec_rel_display(p@.take(k as int)),
        decreases n - k,
    {
        s.append("/");
        s.append(p.parts[k].as_str());
        proof {
            assert(p@[k as int] == p.parts@[k as int]@);
            assert(p@.take(k + 1).drop_last() =~= p@.take(k as int));
            assert(p@.take(k + 1).last() == p@[k as int]);
        }
        k = k + 1;
    }
    proof {
        assert(p@.take(n as int) =~= p@);
    }
    s
}

/// One rendered line for a visible path, matching `spec_line`.
fn render_line(listing: &Vec<RelPath>, p: &RelPath) -> (r: String)
    requires
        p@.len() >= 1,
    ensures
        r@ == spec_line(listing.deep_view(), p@),
{
    let ghost l = listing.deep_view();
    let d = p.parts.len();
    proof {
        assert(p@.len() == d);
    }
    let mut s = String::new();
    proof {
        assert(p@.take(1).len() == 1);
        assert(s@ =~= spec_tree_prefix(l, p@.take(1)));
    }
    let mut k: usize = 1;
    while k < d
        invariant
            1 <= k <= d,
            d == p@.len(),
            d == p.parts@.len(),
            l == listing.deep_view(),
            s@ == spec_tree_prefix(l, p@.take(k as int)),
        decreases d - k,
    {
        if has_later_sibling_upto(listing, p, k) {
            s.append("\u{2502}   ");
        } else {
            s.append("    ");
        }
        proof {
            assert(p@.take(k + 1).drop_last() =~= p@.take(k as int));
            assert(p@.take(k + 1).len() == k + 1);
        }
        k = k + 1;
    }
    proof {
        assert(p@.take(d as int) =~= p@);
    }
    if has_later_sibling_upto(listing, p, d) {
        s.append("\u{251c}\u{2500}\u{2500} ");
    } else {
        s.append("\u{2514}\u{2500}\u{2500} ");
    }
    s.append("\u{1f4c1} ");
    proof {
        assert(p@.last() == p.parts@[d - 1]@);
    }
    s.append(p.parts[d - 1].as_str());
    s.append(" (");
    let rel = rel_display(p);
    s.append(rel.as_str());
    s.append(")");
    proof {
        assert(s@ =~= spec_line(l, p@));
    }
    s
}

/// Render the snapshot of a root path as display lines: a sentinel when the
/// path does not exist, else a header naming the root followed by one line
/// per visible directory, in sorted depth-first pre-order, with tree
/// connectors showing nesting.
pub fn build_tree_lines(path: &str, snapshot: &DirSnapshot, max_depth: usize) -> (r: Vec<String>)
    ensures
        r.deep_view() == spec_tree_lines(path@, snapshot@, max_depth as int),
{
    match snapshot {
        DirSnapshot::Missing => {
            let mut r: Vec<String> = Vec::new();
            r.push("  (path does not exist)".to_owned());
            proof {
                assert(r.deep_view() =~= seq![spec_missing_line()]);
            }
            r
        },
        DirSnapshot::Listed(v) => {
            let ghost listing = v.deep_view();
            let ghost sv = spec_visible_sorted(listing, max_depth as int);
            let visible = filter_visible(v, max_depth);
            let sorted = sort_paths(visible);
            proof {
                assert(sorted.deep_view() == sv);
                lemma_rendered_entries_visible(listing, max_depth as int);
            }
            let mut r: Vec<String> = Vec::new();
            let mut header = "\u{1f4c2} ".to_owned();
            let bn = base_name(path);
            header.append(bn.as_str());
            header.append(" (./)");
            r.push(header);
            proof {
                assert(r.deep_view() =~= seq![spec_header(path@)]);
            }
            let ghost body = spec_body_lines(listing, max_depth as int);
            let n = sorted.len();
            proof {
                assert(sv.len() == n);
                assert(body.len() == n);
                assert(r.deep_view() =~= seq![spec_header(path@)] + body.take(0));
            }
            let mut i: usize = 0;
            while i < n
                invariant
                    i <= n,
                    n == sorted@.len(),
                    sorted.deep_view() == sv,
                    sv == spec_visible_sorted(listing, max_depth as int),
                    sv.len() == n,
                    body == spec_body_lines(listing, max_depth as int),
                    body.len() == n,
                    forall|t: int| 0 <= t < n ==> spec_visible(#[trigger] sv[t], max_depth as int),
                    r.deep_view() == seq![spec_header(path@)] + body.take(i as int),
                decreases n - i,
            {
                let ghost r_pre = r.deep_view();
                proof {
                    assert(sorted@[i as int]@ == sv[i as int]);
                    assert(spec_visible(sv[i as int], max_depth as int));
                }
                let line = render_line(&sorted, &sorted[i]);
                r.push(line);
                proof {
                    assert(body[i as int] == spec_line(sv, sv[i as int]));
                    assert(body.take(i + 1) =~= body.take(i as int).push(body[i as int]));
                    assert(r.deep_view() =~= r_pre.push(body[i as int]));
                    assert(r.deep_view() =~= seq![spec_header(path@)] + body.take(i + 1));
                }
                i = i + 1;
            }
            proof {
                assert(body.take(n as int) =~= body);
                assert(r.deep_view() =~= seq![spec_header(path@)] + body);
            }
            r
        },
    }
}

/// Filtering a sequence and taking the multiset commute.
proof fn lemma_filter_to_multiset<A>(s: Seq<A>, p: spec_fn(A) -> bool)
    ensures
        s.filter(p).to_multiset() == s.to_multiset().filter(p),
    decreases s.len(),
{
    broadcast use vstd::seq_lib::group_to_multiset_ensures;
    broadcast use vstd::multiset::group_multiset_axioms;

    reveal(Seq::filter);
    if s.len() == 0 {
        assert(s.filter(p).to_multiset() =~= s.to_multiset().filter(p));
    } else {
        lemma_filter_to_multiset(s.drop_last(), p);
        assert(s =~= s.drop_last().push(s.last()));
        assert(s.to_multiset() =~= s.drop_last().to_multiset().insert(s.last()));
        if p(s.last()) {
            assert(s.filter(p) == s.drop_last().filter(p).push(s.last()));
            assert(s.filter(p).to_multiset() =~= s.drop_last().filter(p).to_multiset().insert(
                s.last(),
            ));
        }
        assert(s.filter(p).to_multiset() =~= s.to_multiset().filter(p));
    }
}

/// Removing an element that the filter drops leaves the filtered sequence
/// unchanged.
proof fn lemma_filter_remove_dropped<A>(s: Seq<A>, p: spec_fn(A) -> bool, i: int)
    requires
        0 <= i < s.len(),
        !p(s[i]),
    ensures
        s.filter(p) == s.remove(i).filter(p),
    decreases s.len(),
{
    reveal(Seq::filter);
    if i == s.len() - 1 {
        assert(s.remove(i) =~= s.drop_last());
    } else {
        lemma_filter_remove_dropped(s.drop_last(), p, i);
        assert(s.remove(i).drop_last() =~= s.drop_last().remove(i));
        assert(s.remove(i).last() == s.last());
        assert(s.remove(i).len() == s.len() - 1);
    }
}

/// Every path the tree body shows is visible: within the depth bound and
/// with no hidden or denylisted component.
pub proof fn lemma_rendered_entries_visible(listing: Seq<Seq<Seq<char>>>, max_depth: int)
    ensures
        forall|t: int|
            0 <= t < spec_visible_sorted(listing, max_depth).len() ==> spec_visible(
                #[trigger] spec_visible_sorted(listing, max_depth)[t],
                max_depth,
            ),
{
    lemma_path_le_total_ordering();
    let fil = listing.filter(visible_pred(max_depth));
    let sv = spec_visible_sorted(listing, max_depth);
    fil.lemma_sort_by_ensures(path_leq());
    assert forall|t: int| 0 <= t < sv.len() implies spec_visible(sv[t], max_depth) by {
        fil.to_multiset_ensures();
        sv.to_multiset_ensures();
        assert(sv.contains(sv[t]));
        assert(sv.to_multiset().count(sv[t]) > 0);
        assert(fil.to_multiset().count(sv[t]) > 0);
        assert(fil.contains(sv[t]));
        let w = choose|w: int| 0 <= w < fil.len() && fil[w] == sv[t];
        listing.lemma_filter_pred(visible_pred(max_depth), w);
    }
}

/// A snapshot entry that is not visible contributes nothing: the tree for
/// the listing equals the tree for the listing without it.
pub proof fn lemma_invisible_entry_no_effect(
    path: Seq<char>,
    listing: Seq<Seq<Seq<char>>>,
    i: int,
    max_depth: int,
)
    requires
        0 <= i < listing.len(),
        !spec_visible(listing[i], max_depth),
    ensures
        spec_tree_lines(path, Some(listing), max_depth) == spec_tree_lines(
            path,
            Some(listing.remove(i)),
            max_depth,
        ),
{
    lemma_filter_remove_dropped(listing, visible_pred(max_depth), i);
    assert(spec_visible_sorted(listing, max_depth) == spec_visible_sorted(
        listing.remove(i),
        max_depth,
    ));
}

/// A directory beyond the depth bound never gets a line: removing it from
/// the snapshot leaves the rendered tree unchanged.
pub proof fn lemma_deep_entry_no_effect(
    path: Seq<char>,
    listing: Seq<Seq<Seq<char>>>,
    i: int,
    max_depth: int,
)
    requires
        0 <= i < listing.len(),
        listing[i].len() > max_depth,
    ensures
        spec_tree_lines(path, Some(listing), max_depth) == spec_tree_lines(
            path,
            Some(listing.remove(i)),
            max_depth,
        ),
{
    lemma_invisible_entry_no_effect(path, listing, i, max_depth);
}

/// A hidden or denylisted entry, or any entry below one, never gets a line:
/// removing it from the snapshot leaves the rendered tree unchanged.
pub proof fn lemma_excluded_entry_no_effect(
    path: Seq<char>,
    listing: Seq<Seq<Seq<char>>>,
    i: int,
    max_depth: int,
)
    requires
        0 <= i < listing.len(),
        !spec_included_path(listing[i]),
    ensures
        spec_tree_lines(path, Some(listing), max_depth) == spec_tree_lines(
            path,
            Some(listing.remove(i)),
            max_depth,
        ),
{
    lemma_invisible_entry_no_effect(path, listing, i, max_depth);
}

/// Rendering is deterministic: two snapshots that list the same directories,
/// in whatever order the walks found them, render to identical lines.
pub proof fn lemma_tree_deterministic(
    path: Seq<char>,
    l1: Seq<Seq<Seq<char>>>,
    l2: Seq<Seq<Seq<char>>>,
    max_depth: int,
)
    requires
        l1.to_multiset() == l2.to_multiset(),
    ensures
        spec_tree_lines(path, Some(l1), max_depth) == spec_tree_lines(path, Some(l2), max_depth),
{
    broadcast use vstd::multiset::group_multiset_axioms;

    lemma_path_le_total_ordering();
    let p = visible_pred(max_depth);
    lemma_filter_to_multiset(l1, p);
    lemma_filter_to_multiset(l2, p);
    let f1 = l1.filter(p);
    let f2 = l2.filter(p);
    assert(f1.to_multiset() =~= f2.to_multiset());
    f1.lemma_sort_by_ensures(path_leq());
    f2.lemma_sort_by_ensures(path_leq());
    vstd::seq_lib::lemma_sorted_unique(
        f1.sort_by(path_leq()),
        f2.sort_by(path_leq()),
        path_leq(),
    );
    assert(spec_visible_sorted(l1, max_depth) == spec_visible_sorted(l2, max_depth));
}

} // verus!
