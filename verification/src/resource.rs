//! The uniform resource abstraction: everything a module serves (a workbin
//! file, a video, a recording) has a stable id, a relative destination path
//! and a last-updated timestamp.  This module also holds the path
//! uniquification pass and the download engine's decision logic.

use vstd::prelude::*;

use crate::util::{rfind_char, rfind_char_exec};

verus! {

broadcast use vstd::utf8::char_is_scalar, vstd::utf8::char_u32_cast, vstd::seq_lib::group_to_multiset_ensures;

/// A downloadable item: a stable server id, a sanitized relative path, and
/// the server's last-updated time in milliseconds since the epoch.
pub trait Resource: Sized {
    /// The server id, as a sequence of characters.
    spec fn id_spec(&self) -> Seq<char>;

    /// The relative destination path, as a sequence of characters.
    spec fn path_spec(&self) -> Seq<char>;

    /// The last-updated time, in milliseconds since the epoch.
    spec fn updated_spec(&self) -> int;

    fn id(&self) -> (r: &str)
        ensures
            r@ == self.id_spec(),
    ;

    fn path(&self) -> (r: &String)
        ensures
            r@ == self.path_spec(),
    ;

    fn last_updated(&self) -> (r: i64)
        ensures
            r == self.updated_spec(),
    ;

    /// Replace the destination path; the id and timestamp stay.
    fn set_path(&mut self, p: String)
        ensures
            final(self).path_spec() == p@,
            final(self).id_spec() == old(self).id_spec(),
            final(self).updated_spec() == old(self).updated_spec(),
    ;
}

/// Strict lexicographic order on character sequences, by scalar value.
pub open spec fn lex_lt(a: Seq<char>, b: Seq<char>) -> bool
    decreases a.len(),
{
    if b.len() == 0 {
        false
    } else if a.len() == 0 {
        true
    } else if (a[0] as u32) < (b[0] as u32) {
        true
    } else if a[0] == b[0] {
        lex_lt(a.subrange(1, a.len() as int), b.subrange(1, b.len() as int))
    } else {
        false
    }
}

/// Exactly one of `lex_lt(a, b)`, `lex_lt(b, a)` and `a == b` holds.
pub proof fn lemma_lex_lt_trichotomy(a: Seq<char>, b: Seq<char>)
    ensures
        lex_lt(a, b) || lex_lt(b, a) || a == b,
        lex_lt(a, b) ==> !lex_lt(b, a) && a != b,
    decreases a.len(),
{
    if a.len() == 0 && b.len() == 0 {
        assert(a =~= b);
    } else if a.len() > 0 && b.len() > 0 {
        if a[0] != b[0] && (a[0] as u32) == (b[0] as u32) {
            vstd::utf8::char_u32_cast(a[0], a[0] as u32);
            vstd::utf8::char_u32_cast(b[0], b[0] as u32);
            assert(false);
        }
        if a[0] == b[0] {
            let a1 = a.subrange(1, a.len() as int);
            let b1 = b.subrange(1, b.len() as int);
            lemma_lex_lt_trichotomy(a1, b1);
            if a1 == b1 {
                assert(forall|j: int| 1 <= j < a.len() ==> a[j] == a1[j - 1] && b[j] == b1[j - 1]);
                assert(a =~= b);
            }
            if a == b {
                assert(a1 =~= b1);
            }
        }
    }
}

/// Lexicographic order is transitive.
pub proof fn lemma_lex_lt_transitive(a: Seq<char>, b: Seq<char>, c: Seq<char>)
    requires
        lex_lt(a, b),
        lex_lt(b, c),
    ensures
        lex_lt(a, c),
    decreases a.len(),
{
    if a.len() > 0 && b.len() > 0 && c.len() > 0 {
        if a[0] == b[0] && b[0] == c[0] {
            lemma_lex_lt_transitive(
                a.subrange(1, a.len() as int),
                b.subrange(1, b.len() as int),
                c.subrange(1, c.len() as int),
            );
        }
    }
}

proof fn lemma_lex_lt_skip(a: Seq<char>, b: Seq<char>, i: int)
    requires
        0 <= i <= a.len(),
        0 <= i <= b.len(),
        forall|j: int| 0 <= j < i ==> a[j] == b[j],
    ensures
        lex_lt(a, b) == lex_lt(
            a.subrange(i, a.len() as int),
            b.subrange(i, b.len() as int),
        ),
    decreases i,
{
    if i == 0 {
        assert(a.subrange(0, a.len() as int) =~= a);
        assert(b.subrange(0, b.len() as int) =~= b);
    } else {
        let a1 = a.subrange(1, a.len() as int);
        let b1 = b.subrange(1, b.len() as int);
        lemma_lex_lt_skip(a1, b1, i - 1);
        assert(a1.subrange(i - 1, a1.len() as int) =~= a.subrange(i, a.len() as int));
        assert(b1.subrange(i - 1, b1.len() as int) =~= b.subrange(i, b.len() as int));
    }
}

/// Compare two strings in the lexicographic order `lex_lt`.
pub fn str_lex_lt(a: &str, b: &str) -> (r: bool)
    ensures
        r == lex_lt(a@, b@),
{
    let alen = a.unicode_len();
    let blen = b.unicode_len();
    let mut i: usize = 0;
    while i < alen && i < blen && a.get_char(i) == b.get_char(i)
        invariant
            alen == a@.len(),
            blen == b@.len(),
            0 <= i <= alen,
            0 <= i <= blen,
            forall|j: int| 0 <= j < i ==> a@[j] == b@[j],
        decreases alen - i,
    {
        i = i + 1;
    }
    proof {
        lemma_lex_lt_skip(a@, b@, i as int);
    }
    if i == alen {
        i < blen
    } else if i == blen {
        false
    } else {
        (a.get_char(i) as u32) < (b.get_char(i) as u32)
    }
}

/// The order the uniquification pass sorts by: path ascending, and for equal
/// paths the newest resource first.
pub open spec fn res_le<T: Resource>(x: T, y: T) -> bool {
    lex_lt(x.path_spec(), y.path_spec()) || (x.path_spec() == y.path_spec()
        && x.updated_spec() >= y.updated_spec())
}

/// `res_le` is total.
pub proof fn lemma_res_le_total<T: Resource>(x: T, y: T)
    ensures
        res_le(x, y) || res_le(y, x),
{
    lemma_lex_lt_trichotomy(x.path_spec(), y.path_spec());
}

/// `res_le` is transitive.
pub proof fn lemma_res_le_transitive<T: Resource>(x: T, y: T, z: T)
    requires
        res_le(x, y),
        res_le(y, z),
    ensures
        res_le(x, z),
{
    lemma_lex_lt_trichotomy(x.path_spec(), y.path_spec());
    lemma_lex_lt_trichotomy(y.path_spec(), z.path_spec());
    if lex_lt(x.path_spec(), y.path_spec()) && lex_lt(y.path_spec(), z.path_spec()) {
        lemma_lex_lt_transitive(x.path_spec(), y.path_spec(), z.path_spec());
    }
}

fn res_le_exec<T: Resource>(x: &T, y: &T) -> (r: bool)
    ensures
        r == res_le(*x, *y),
{
    if str_lex_lt(x.path().as_str(), y.path().as_str()) {
        true
    } else if str_lex_lt(y.path().as_str(), x.path().as_str()) {
        false
    } else {
        proof {
            lemma_lex_lt_trichotomy(x.path_spec(), y.path_spec());
        }
        x.last_updated() >= y.last_updated()
    }
}

/// Where a path's last component begins: just after the last `/`, or at the
/// start when the path is a bare filename.
pub open spec fn last_component_start(p: Seq<char>) -> int {
    match rfind_char(p, '/') {
        Some(i) => i + 1,
        None => 0,
    }
}

/// The collision rewrite: the resource id, preceded by `_`, is spliced into
/// the path's last component just before its (last) extension, so
/// `A/X.pdf` with id `ID1` becomes `A/X_ID1.pdf`.
pub open spec fn rewrite_path(p: Seq<char>, id: Seq<char>) -> Seq<char> {
    let cs = last_component_start(p);
    let dir = p.subrange(0, cs);
    let name = p.subrange(cs, p.len() as int);
    match rfind_char(name, '.') {
        Some(i) => dir + name.subrange(0, i) + seq!['_'] + id + seq!['.'] + name.subrange(
            i + 1,
            name.len() as int,
        ),
        None => dir + name + seq!['_'] + id,
    }
}

/// Build the collision rewrite of a path.
pub fn rewrite_path_exec(p: &str, id: &str) -> (r: String)
    ensures
        r@ == rewrite_path(p@, id@),
{
    let len = p.unicode_len();
    let cs: usize = match rfind_char_exec(p, '/') {
        Some(i) => i + 1,
        None => 0,
    };
    let name = p.substring_char(cs, len);
    let mut r = String::new();
    r.append(p.substring_char(0, cs));
    match rfind_char_exec(name, '.') {
        Some(i) => {
            let nlen = name.unicode_len();
            r.append(name.substring_char(0, i));
            r.push('_');
            r.append(id);
            r.push('.');
            r.append(name.substring_char(i + 1, nlen));
        },
        None => {
            r.append(name);
            r.push('_');
            r.append(id);
        },
    }
    proof {
        assert(r@ =~= rewrite_path(p@, id@));
    }
    r
}

/// Compare two strings for character-wise equality.
pub fn str_eq(a: &str, b: &str) -> (r: bool)
    ensures
        r == (a@ == b@),
{
    let lt = str_lex_lt(a, b);
    let gt = str_lex_lt(b, a);
    proof {
        lemma_lex_lt_trichotomy(a@, b@);
    }
    !lt && !gt
}

/// Pairwise sortedness in the uniquification order: paths ascending, and
/// within one path the newest resource first.
pub open spec fn sorted_for_uniquify<T: Resource>(s: Seq<T>) -> bool {
    forall|i: int, j: int| 0 <= i <= j < s.len() ==> res_le(s[i], s[j])
}

/// In a sorted batch, resources with equal paths stand consecutively.
proof fn lemma_sorted_groups_consecutive<T: Resource>(s: Seq<T>, i: int, j: int, k: int)
    requires
        sorted_for_uniquify(s),
        0 <= i <= j <= k < s.len(),
        s[i].path_spec() == s[k].path_spec(),
    ensures
        s[j].path_spec() == s[i].path_spec(),
{
    let pi = s[i].path_spec();
    let pj = s[j].path_spec();
    lemma_lex_lt_trichotomy(pi, pj);
    lemma_lex_lt_trichotomy(pj, pi);
    assert(res_le(s[i], s[j]));
    assert(res_le(s[j], s[k]));
    if pi != pj {
        assert(lex_lt(pi, pj));
        assert(lex_lt(pj, pi));
        lemma_lex_lt_transitive(pi, pj, pi);
        lemma_lex_lt_trichotomy(pi, pi);
    }
}

fn sort_resources<T: Resource>(v: &mut Vec<T>)
    ensures
        final(v)@.len() == old(v)@.len(),
        final(v)@.to_multiset() == old(v)@.to_multiset(),
        sorted_for_uniquify(final(v)@),
{
    let ghost orig = v@;
    let mut i: usize = 1;
    while i < v.len()
        invariant
            1 <= i,
            v@.len() == orig.len(),
            v@.to_multiset() == orig.to_multiset(),
            forall|a: int, b: int| 0 <= a <= b < i && b < v@.len() ==> res_le(v@[a], v@[b]),
        decreases v@.len() - i,
    {
        let x = v.remove(i);
        let ghost v1 = v@;
        let mut j: usize = 0;
        while j < i && res_le_exec(&v[j], &x)
            invariant
                0 <= j <= i,
                i < v1.len() + 1,
                v@ == v1,
                i <= v@.len() + 1,
                forall|a: int| 0 <= a < j ==> res_le(v1[a], x),
            decreases i - j,
        {
            j = j + 1;
        }
        proof {
            if j < i {
                lemma_res_le_total(v1[j as int], x);
            }
        }
        v.insert(j, x);
        proof {
            assert(v@.to_multiset() =~= orig.to_multiset());
            assert forall|a: int, b: int|
                0 <= a <= b < i + 1 && b < v@.len() implies res_le(v@[a], v@[b]) by {
                let jj = j as int;
                if b < jj {
                    assert(v@[a] == v1[a] && v@[b] == v1[b]);
                } else if a < jj && b == jj {
                    assert(v@[b] == x);
                    assert(res_le(v1[a], x));
                } else if a == jj && b == jj {
                    assert(v@[a] == x && v@[b] == x);
                } else if a == jj && b > jj {
                    assert(v@[a] == x && v@[b] == v1[b - 1]);
                    assert(res_le(x, v1[jj]));
                    assert(res_le(v1[jj], v1[b - 1]));
                    lemma_res_le_transitive(x, v1[jj], v1[b - 1]);
                } else if a < jj && b > jj {
                    assert(v@[a] == v1[a] && v@[b] == v1[b - 1]);
                } else {
                    assert(v@[a] == v1[a - 1] && v@[b] == v1[b - 1]);
                }
            }
        }
        i = i + 1;
    }
    proof {
        if v@.len() <= 1 {
            assert(sorted_for_uniquify(v@));
        }
    }
}

/// Whether index `k` starts a run of equal paths in the sorted batch `s`:
/// the first resource of each run keeps its clean path.
pub open spec fn is_group_leader<T: Resource>(s: Seq<T>, k: int) -> bool {
    k == 0 || s[k].path_spec() != s[k - 1].path_spec()
}

/// `r` is one of the batch's resources, with its path kept or rewritten
/// with its own id.
pub open spec fn derived_from<T: Resource>(orig: Seq<T>, r: T) -> bool {
    exists|x: T|
        #[trigger] orig.contains(x) && r.id_spec() == x.id_spec() && r.updated_spec()
            == x.updated_spec() && (r.path_spec() == x.path_spec() || r.path_spec()
            == rewrite_path(x.path_spec(), x.id_spec()))
}

/// No other resource of the batch shares `x`'s path with an equal or newer
/// timestamp.
pub open spec fn strictly_newest_in_group<T: Resource>(s: Seq<T>, x: T) -> bool {
    forall|y: T|
        s.contains(y) && y != x && y.path_spec() == x.path_spec() ==> y.updated_spec()
            < x.updated_spec()
}

/// The uniquification relation: `g` is a sorted permutation of the batch
/// `orig`, and `out` is `g` with every run-leader's path kept and every
/// other path rewritten with its own id.
pub open spec fn uniquified_from<T: Resource>(orig: Seq<T>, g: Seq<T>, out: Seq<T>) -> bool {
    g.to_multiset() == orig.to_multiset() && out.len() == g.len() && sorted_for_uniquify(g) && (
    forall|k: int|
        0 <= k < g.len() ==> (#[trigger] out[k]).id_spec() == g[k].id_spec() && out[
            k
        ].updated_spec() == g[k].updated_spec() && out[k].path_spec() == (if is_group_leader(
            g,
            k,
        ) {
            g[k].path_spec()
        } else {
            rewrite_path(g[k].path_spec(), g[k].id_spec())
        }))
}

/// The spliced-id names of the batch are fresh: no rewritten name equals a
/// path already in the batch, and no two resources rewrite to the same
/// name.  Uniqueness of the output paths needs this; a batch that holds
/// both a duplicated `X.pdf` and a file already named `X_<id>.pdf` genuinely
/// comes out colliding.
pub open spec fn rewrites_fresh<T: Resource>(batch: Seq<T>) -> bool {
    (forall|x: T, y: T|
        batch.contains(x) && batch.contains(y) ==> rewrite_path(x.path_spec(), x.id_spec())
            != y.path_spec()) && (forall|x: T, y: T|
        batch.contains(x) && batch.contains(y) && x != y ==> rewrite_path(
            x.path_spec(),
            x.id_spec(),
        ) != rewrite_path(y.path_spec(), y.id_spec()))
}

/// Sort the batch by path (ties: newest first) and then rewrite the path of
/// every resource that collides with an earlier one, splicing the resource
/// id into the filename.  Unconditionally, the result is a sorted
/// permutation of the batch in which only paths changed, and every output
/// is an input with its path kept or rewritten with its own id.  For a
/// duplicate-free batch whose spliced-id names are fresh, no two resources
/// share a path afterwards; for a duplicate-free batch, the newest resource
/// of each path group keeps its clean path.
pub fn sort_and_make_all_paths_unique<T: Resource>(v: &mut Vec<T>)
    ensures
        final(v)@.len() == old(v)@.len(),
        // the batch was sorted and its collisions rewritten, and nothing else
        exists|g: Seq<T>| #[trigger] uniquified_from(old(v)@, g, final(v)@),
        // every output is an input, its path kept or rewritten with its id
        forall|i: int|
            0 <= i < final(v)@.len() ==> #[trigger] derived_from(old(v)@, final(v)@[i]),
        // no two resources share a path
        old(v)@.no_duplicates() && rewrites_fresh(old(v)@) ==> forall|i: int, j: int|
            0 <= i < j < final(v)@.len() ==> final(v)@[i].path_spec() != final(v)@[j].path_spec(),
        // the newest resource of each path group keeps its path
        old(v)@.no_duplicates() ==> forall|x: T|
            old(v)@.contains(x) && #[trigger] strictly_newest_in_group(old(v)@, x)
                ==> exists|i: int|
                0 <= i < final(v)@.len() && final(v)@[i].id_spec() == x.id_spec() && final(v)@[i].path_spec()
                    == x.path_spec(),
{
    let ghost orig = v@;
    sort_resources(v);
    let ghost g = v@;
    proof {
        if orig.no_duplicates() {
            orig.lemma_multiset_has_no_duplicates();
            g.lemma_multiset_has_no_duplicates_conv();
        }
        assert forall|x: T| g.contains(x) <==> orig.contains(x) by {
            assert(g.to_multiset().count(x) == orig.to_multiset().count(x));
        }
    }
    if v.len() > 1 {
        let mut leader: usize = 0;
        let mut i: usize = 1;
        while i < v.len()
            invariant
                1 <= i <= g.len(),
                v@.len() == g.len(),
                g.len() > 1,
                leader < i,
                sorted_for_uniquify(g),
                is_group_leader(g, leader as int),
                forall|k: int| leader <= k < i ==> g[k].path_spec() == g[leader as int].path_spec(),
                forall|k: int|
                    0 <= k < v@.len() ==> v@[k].id_spec() == g[k].id_spec() && v@[
                        k
                    ].updated_spec() == g[k].updated_spec(),
                forall|k: int| i <= k < v@.len() ==> v@[k] == g[k],
                forall|k: int|
                    0 <= k < i ==> v@[k].path_spec() == (if is_group_leader(g, k) {
                        g[k].path_spec()
                    } else {
                        rewrite_path(g[k].path_spec(), g[k].id_spec())
                    }),
            decreases v@.len() - i,
        {
            let same = str_eq(v[i].path().as_str(), v[leader].path().as_str());
            if same {
                proof {
                    assert(v@[i as int] == g[i as int]);
                    assert(g[i as int].path_spec() == g[leader as int].path_spec());
                    lemma_sorted_groups_consecutive(g, leader as int, i - 1, i as int);
                    assert(!is_group_leader(g, i as int));
                }
                let newp = rewrite_path_exec(v[i].path().as_str(), v[i].id());
                let elem = &mut v[i];
                elem.set_path(newp);
            } else {
                proof {
                    assert(v@[i as int] == g[i as int]);
                    assert(g[i - 1].path_spec() == g[leader as int].path_spec());
                    assert(is_group_leader(g, i as int));
                }
                leader = i;
            }
            i = i + 1;
        }
    }
    proof {
        let out = v@;
        let n = out.len();
        // with one resource, or none, the loop did not run and nothing changed
        if n <= 1 {
            assert forall|k: int| 0 <= k < n implies out[k].path_spec() == (if is_group_leader(
                g,
                k,
            ) {
                g[k].path_spec()
            } else {
                rewrite_path(g[k].path_spec(), g[k].id_spec())
            }) by {
                assert(is_group_leader(g, 0));
            }
        }
        assert(forall|k: int|
            0 <= k < n ==> out[k].path_spec() == (if is_group_leader(g, k) {
                g[k].path_spec()
            } else {
                rewrite_path(g[k].path_spec(), g[k].id_spec())
            }));
        // pairwise distinct paths, for a duplicate-free batch with fresh
        // rewritten names
        if orig.no_duplicates() && rewrites_fresh(orig) {
            assert forall|i: int, j: int|
                0 <= i < j < n implies out[i].path_spec() != out[j].path_spec() by {
                assert(orig.contains(g[i]) && orig.contains(g[j]));
                assert(g[i] != g[j]);
                if is_group_leader(g, i) && is_group_leader(g, j) {
                    if g[i].path_spec() == g[j].path_spec() {
                        lemma_sorted_groups_consecutive(g, i, j - 1, j);
                    }
                }
            }
        }
        // provenance: each output is an input record
        assert forall|i: int| 0 <= i < n implies #[trigger] derived_from(orig, out[i]) by {
            assert(g.contains(g[i]));
            let x = g[i];
            assert(orig.contains(x) && out[i].id_spec() == x.id_spec() && out[i].updated_spec()
                == x.updated_spec() && (out[i].path_spec() == x.path_spec() || out[i].path_spec()
                == rewrite_path(x.path_spec(), x.id_spec())));
        }
        assert(uniquified_from(orig, g, out));
        // the strictly newest of a group is its leader and keeps its path
        if orig.no_duplicates() {
            assert forall|x: T|
                orig.contains(x) && #[trigger] strictly_newest_in_group(orig, x) implies exists|
                i: int,
            |
                0 <= i < n && out[i].id_spec() == x.id_spec() && out[i].path_spec()
                    == x.path_spec() by {
                assert(g.contains(x));
                let jx = choose|jx: int| 0 <= jx < g.len() && g[jx] == x;
                if !is_group_leader(g, jx) {
                    let y = g[jx - 1];
                    assert(g.contains(y));
                    assert(orig.contains(y));
                    assert(y != x);
                    assert(y.path_spec() == x.path_spec());
                    assert(res_le(g[jx - 1], g[jx]));
                    lemma_lex_lt_trichotomy(y.path_spec(), x.path_spec());
                    assert(y.updated_spec() >= x.updated_spec());
                    assert(y.updated_spec() < x.updated_spec());
                }
                assert(out[jx].id_spec() == x.id_spec() && out[jx].path_spec() == x.path_spec());
            }
        }
    }
}

/// What the user asked the engine to do with a file that changed on the
/// server since it was downloaded.
#[derive(Copy, Clone, PartialEq, Eq, Debug)]
pub enum OverwriteMode {
    Skip,
    Overwrite,
    Rename,
}

/// What the download engine did with the destination.
#[derive(Clone, PartialEq, Eq, Debug)]
pub enum OverwriteResult {
    NewFile,
    AlreadyHave,
    Skipped,
    Overwritten,
    Renamed { renamed_path: String },
}

impl OverwriteResult {
    /// An equal copy of this result.
    pub fn duplicate(&self) -> (r: OverwriteResult)
        ensures
            r == *self,
    {
        match self {
            OverwriteResult::NewFile => OverwriteResult::NewFile,
            OverwriteResult::AlreadyHave => OverwriteResult::AlreadyHave,
            OverwriteResult::Skipped => OverwriteResult::Skipped,
            OverwriteResult::Overwritten => OverwriteResult::Overwritten,
            OverwriteResult::Renamed { renamed_path } => OverwriteResult::Renamed {
                renamed_path: renamed_path.clone(),
            },
        }
    }
}

/// A failed download attempt either re-enters the retry loop or aborts this
/// resource.
#[derive(Copy, Clone, PartialEq, Eq, Debug)]
pub enum RetryableError {
    Retry(crate::Error),
    Fail(crate::Error),
}

pub type RetryableResult<T> = Result<T, RetryableError>;

/// A calendar date, as the platform's time library reports it.
#[derive(Copy, Clone, PartialEq, Eq, Structural, Debug)]
pub struct DateStamp {
    pub year: u64,
    pub month: u64,
    pub day: u64,
}

/// The marker spliced into a renamed file's stem, before the date.
pub open spec fn autorename_tag() -> Seq<char> {
    seq!['_', 'a', 'u', 't', 'o', 'r', 'e', 'n', 'a', 'm', 'e', '_']
}

/// The invariable front of every rename candidate for `p` and `date`: the
/// directory, the stem up to the first dot, the marker and the date.
pub open spec fn rename_candidate_prefix(p: Seq<char>, date: DateStamp) -> Seq<char> {
    let cs = last_component_start(p);
    let dir = p.subrange(0, cs);
    let name = p.subrange(cs, p.len() as int);
    dir + crate::util::spec_stem_first_dot(name) + autorename_tag() + crate::util::spec_pad_dec(
        date.year as nat,
        4,
    ) + seq!['-'] + crate::util::spec_pad_dec(date.month as nat, 2) + seq!['-']
        + crate::util::spec_pad_dec(date.day as nat, 2)
}

/// The `i`-th name tried for the stale file in rename mode: the stem gains
/// the marker, the file's date, and from the second try on a counter; the
/// compound extension after the first dot is kept.  The date is the prior
/// modification time's UTC calendar date — deliberately not the
/// machine-local date, so that the name is a pure function of the
/// timestamp and does not depend on the machine's time zone.
pub open spec fn rename_candidate_spec(p: Seq<char>, date: DateStamp, i: nat) -> Seq<char> {
    let cs = last_component_start(p);
    let name = p.subrange(cs, p.len() as int);
    let base = rename_candidate_prefix(p, date) + (if i == 0 {
        Seq::<char>::empty()
    } else {
        seq!['_'] + crate::util::spec_dec(i)
    });
    match crate::util::spec_ext_first_dot(name) {
        Some(e) => base + seq!['.'] + e,
        None => base,
    }
}

/// Build the `i`-th rename candidate for a stale destination.
pub fn rename_candidate(path: &str, date: &DateStamp, i: u64) -> (r: String)
    ensures
        r@ == rename_candidate_spec(path@, *date, i as nat),
{
    let len = path.unicode_len();
    let cs: usize = match rfind_char_exec(path, '/') {
        Some(k) => k + 1,
        None => 0,
    };
    let name = path.substring_char(cs, len);
    let mut r = String::new();
    r.append(path.substring_char(0, cs));
    let (stem, ext) = crate::util::split_file_name(name);
    r.append(stem.as_str());
    r.append("_autorename_");
    proof {
        reveal_strlit("_autorename_");
        assert("_autorename_"@ =~= autorename_tag());
    }
    crate::util::push_pad_dec(&mut r, date.year, 4);
    r.push('-');
    crate::util::push_pad_dec(&mut r, date.month, 2);
    r.push('-');
    crate::util::push_pad_dec(&mut r, date.day, 2);
    proof {
        assert(r@ =~= rename_candidate_prefix(path@, *date));
    }
    if i > 0 {
        r.push('_');
        crate::util::push_dec(&mut r, i);
    }
    match ext {
        Some(e) => {
            r.push('.');
            r.append(e.as_str());
        },
        None => {},
    }
    proof {
        assert(r@ =~= rename_candidate_spec(path@, *date, i as nat));
    }
    r
}

/// Successive rename candidates never repeat: each try uses a fresh name.
pub proof fn lemma_rename_candidates_distinct(p: Seq<char>, date: DateStamp, i: nat, j: nat)
    requires
        i != j,
    ensures
        rename_candidate_spec(p, date, i) != rename_candidate_spec(p, date, j),
{
    crate::util::lemma_dec_len(i);
    crate::util::lemma_dec_len(j);
    let ci = rename_candidate_spec(p, date, i);
    let cj = rename_candidate_spec(p, date, j);
    let pre = rename_candidate_prefix(p, date);
    let cs = last_component_start(p);
    let name = p.subrange(cs, p.len() as int);
    if ci == cj {
        if i == 0 || j == 0 {
            assert(ci.len() != cj.len());
        } else {
            let di = crate::util::spec_dec(i);
            let dj = crate::util::spec_dec(j);
            match crate::util::spec_ext_first_dot(name) {
                Some(e) => {
                    assert(ci.len() == pre.len() + 1 + di.len() + 1 + e.len());
                    assert(cj.len() == pre.len() + 1 + dj.len() + 1 + e.len());
                },
                None => {
                    assert(ci.len() == pre.len() + 1 + di.len());
                    assert(cj.len() == pre.len() + 1 + dj.len());
                },
            }
            assert(di.len() == dj.len());
            assert forall|k: int| 0 <= k < di.len() implies di[k] == dj[k] by {
                let n = pre.len() + 1 + k;
                assert(ci[n] == di[k]);
                assert(cj[n] == dj[k]);
            }
            assert(di =~= dj);
            crate::util::lemma_dec_injective(i, j);
        }
    }
}

/// Whether a path stands among the existing directory entries.
pub open spec fn path_taken(existing: Seq<Seq<char>>, p: Seq<char>) -> bool {
    exists|k: int| 0 <= k < existing.len() && existing[k] == p
}

/// The views of a batch of existing entries.
pub open spec fn entry_views(existing: Seq<String>) -> Seq<Seq<char>> {
    existing.map_values(|s: String| s@)
}

fn path_taken_exec(existing: &Vec<String>, p: &str) -> (r: bool)
    ensures
        r == path_taken(entry_views(existing@), p@),
{
    let mut k: usize = 0;
    while k < existing.len()
        invariant
            0 <= k <= existing@.len(),
            forall|kk: int| 0 <= kk < k ==> entry_views(existing@)[kk] != p@,
        decreases existing@.len() - k,
    {
        if str_eq(existing[k].as_str(), p) {
            proof {
                assert(entry_views(existing@)[k as int] == p@);
            }
            return true;
        }
        k = k + 1;
    }
    false
}

/// Find the first rename candidate that no existing directory entry uses.
/// Because the candidates never repeat, at most one more candidate than
/// there are entries needs to be tried, so the search always ends.
pub fn find_free_rename_path(path: &str, date: &DateStamp, existing: &Vec<String>) -> (r: String)
    requires
        existing@.len() < 0x1000_0000,
    ensures
        !path_taken(entry_views(existing@), r@),
        exists|i: nat|
            r@ == #[trigger] rename_candidate_spec(path@, *date, i) && (forall|ii: nat|
                ii < i ==> path_taken(
                    entry_views(existing@),
                    rename_candidate_spec(path@, *date, ii),
                )),
{
    let n = existing.len();
    let mut i: usize = 0;
    while i <= n
        invariant
            existing@.len() == n < 0x1000_0000,
            0 <= i <= n + 1,
            forall|ii: nat|
                ii < i ==> path_taken(
                    entry_views(existing@),
                    rename_candidate_spec(path@, *date, ii),
                ),
        decreases n + 1 - i,
    {
        let cand = rename_candidate(path, date, i as u64);
        if !path_taken_exec(existing, cand.as_str()) {
            proof {
                assert(cand@ == rename_candidate_spec(path@, *date, i as nat));
            }
            return cand;
        }
        i = i + 1;
    }
    proof {
        let eviews = entry_views(existing@);
        let f = |ii: int| rename_candidate_spec(path@, *date, ii as nat);
        let rng = vstd::set_lib::set_int_range(0, n + 1);
        vstd::set_lib::lemma_int_range(0, n + 1);
        assert(vstd::relations::injective_on(f, rng)) by {
            assert forall|a: int, b: int|
                rng.contains(a) && rng.contains(b) && #[trigger] f(a) == #[trigger] f(b) implies a
                == b by {
                if a != b {
                    lemma_rename_candidates_distinct(path@, *date, a as nat, b as nat);
                }
            }
        }
        let image = rng.map(f);
        vstd::set_lib::lemma_map_size(rng, image, f);
        assert(image.subset_of(eviews.to_set())) by {
            assert forall|c: Seq<char>| image.contains(c) implies eviews.to_set().contains(c) by {
                let ii = choose|ii: int| rng.contains(ii) && f(ii) == c;
                assert(path_taken(eviews, rename_candidate_spec(path@, *date, ii as nat)));
                let k = choose|k: int|
                    0 <= k < eviews.len() && eviews[k] == rename_candidate_spec(
                        path@,
                        *date,
                        ii as nat,
                    );
                assert(eviews.contains(eviews[k]));
            }
        }
        eviews.lemma_cardinality_of_set();
        vstd::set_lib::lemma_len_subset(image, eviews.to_set());
        assert(false);
    }
    unreached()
}

/// A filesystem action the engine orders; the surrounding program performs
/// them in the order given.  Only `CommitTempToDest` and `SetDestMtime`
/// write to the final destination.
#[derive(Clone, PartialEq, Eq, Debug)]
pub enum FsAction {
    /// Create the destination's parent directories.
    CreateParentDir,
    /// Move the stale destination aside, to this fresh name.
    RenameDestTo(String),
    /// Delete the temporary file after a failed attempt.
    DeleteTemp,
    /// Atomically move the finished temporary file onto the destination.
    CommitTempToDest,
    /// Stamp the destination with the server's time, in milliseconds.
    SetDestMtime(i64),
}

/// How the retry loop ended on a finite transcript of attempt outcomes.
#[derive(Copy, Clone, PartialEq, Eq, Debug)]
pub enum RetryPhase {
    /// An attempt succeeded and the temporary file was committed.
    Done,
    /// An attempt failed for good; the resource is abandoned.
    Aborted(crate::Error),
    /// Every attempt in the transcript asked for a retry.
    NeedsMoreAttempts,
}

/// One step of the retry loop: what to do once an attempt's outcome is
/// known and, after a failure, whether the temporary file could be deleted.
#[derive(Copy, Clone, PartialEq, Eq, Debug)]
pub enum RetryStep {
    /// Move the temporary file onto the destination; the download is done.
    Commit,
    /// Run the next attempt.
    RetryAgain,
    /// Abandon this resource with the given error.
    Abort(crate::Error),
}

/// Decide the retry loop's next move.  A successful attempt commits; a
/// transient failure retries, unless the temporary file could not be
/// removed; a permanent failure abandons the resource.
pub fn infinite_retry_step(outcome: &RetryableResult<()>, temp_delete_succeeded: bool) -> (r:
    RetryStep)
    ensures
        outcome is Ok ==> r == RetryStep::Commit,
        forall|e: crate::Error|
            *outcome == Result::<(), RetryableError>::Err(RetryableError::Retry(e)) ==> r == (
            if temp_delete_succeeded {
                RetryStep::RetryAgain
            } else {
                RetryStep::Abort("Unable to delete temporary file")
            }),
        forall|e: crate::Error|
            *outcome == Result::<(), RetryableError>::Err(RetryableError::Fail(e)) ==> r
                == RetryStep::Abort(e),
{
    match outcome {
        Ok(_) => RetryStep::Commit,
        Err(RetryableError::Retry(_)) => {
            if temp_delete_succeeded {
                RetryStep::RetryAgain
            } else {
                RetryStep::Abort("Unable to delete temporary file")
            }
        },
        Err(RetryableError::Fail(e)) => RetryStep::Abort(e),
    }
}

/// The filesystem actions the retry loop performs on a transcript of
/// attempt outcomes, assuming temp-file deletions succeed.
pub open spec fn spec_retry_actions(attempts: Seq<RetryableResult<()>>) -> Seq<FsAction>
    decreases attempts.len(),
{
    if attempts.len() == 0 {
        Seq::<FsAction>::empty()
    } else {
        match attempts[0] {
            Ok(u) => seq![FsAction::CommitTempToDest],
            Err(RetryableError::Retry(e)) => seq![FsAction::DeleteTemp] + spec_retry_actions(
                attempts.subrange(1, attempts.len() as int),
            ),
            Err(RetryableError::Fail(e)) => seq![FsAction::DeleteTemp],
        }
    }
}

/// How the retry loop ends on a transcript of attempt outcomes.
pub open spec fn spec_retry_status(attempts: Seq<RetryableResult<()>>) -> RetryPhase
    decreases attempts.len(),
{
    if attempts.len() == 0 {
        RetryPhase::NeedsMoreAttempts
    } else {
        match attempts[0] {
            Ok(u) => RetryPhase::Done,
            Err(RetryableError::Retry(e)) => spec_retry_status(
                attempts.subrange(1, attempts.len() as int),
            ),
            Err(RetryableError::Fail(e)) => RetryPhase::Aborted(e),
        }
    }
}

/// Unless the loop committed, the destination was never written: a failed
/// or unfinished transcript orders no `CommitTempToDest` and no mtime stamp.
pub proof fn lemma_retry_failure_leaves_destination(attempts: Seq<RetryableResult<()>>)
    ensures
        !(spec_retry_status(attempts) is Done) ==> forall|k: int|
            0 <= k < spec_retry_actions(attempts).len() ==> spec_retry_actions(attempts)[k]
                == FsAction::DeleteTemp,
    decreases attempts.len(),
{
    if attempts.len() > 0 {
        match attempts[0] {
            Err(RetryableError::Retry(e)) => {
                lemma_retry_failure_leaves_destination(
                    attempts.subrange(1, attempts.len() as int),
                );
            },
            _ => {},
        }
    }
}

/// When the loop commits, it does so exactly once, as its last action; all
/// earlier actions only cleaned up the temporary file.
pub proof fn lemma_retry_commit_shape(attempts: Seq<RetryableResult<()>>)
    ensures
        spec_retry_status(attempts) is Done ==> {
            let acts = spec_retry_actions(attempts);
            acts.len() >= 1 && acts.last() == FsAction::CommitTempToDest && forall|k: int|
                0 <= k < acts.len() - 1 ==> acts[k] == FsAction::DeleteTemp
        },
    decreases attempts.len(),
{
    if attempts.len() > 0 {
        match attempts[0] {
            Err(RetryableError::Retry(e)) => {
                lemma_retry_commit_shape(attempts.subrange(1, attempts.len() as int));
            },
            _ => {},
        }
    }
}

/// Run the retry loop over a finite transcript of attempt outcomes,
/// collecting the filesystem actions it orders.
pub fn drive_retry_phase(attempts: &Vec<RetryableResult<()>>) -> (r: (Vec<FsAction>, RetryPhase))
    ensures
        r.0@ == spec_retry_actions(attempts@),
        r.1 == spec_retry_status(attempts@),
{
    let mut acts: Vec<FsAction> = Vec::new();
    let mut i: usize = 0;
    proof {
        assert(attempts@.subrange(0, attempts@.len() as int) =~= attempts@);
    }
    while i < attempts.len()
        invariant
            0 <= i <= attempts@.len(),
            spec_retry_actions(attempts@) =~= acts@ + spec_retry_actions(
                attempts@.subrange(i as int, attempts@.len() as int),
            ),
            spec_retry_status(attempts@) == spec_retry_status(
                attempts@.subrange(i as int, attempts@.len() as int),
            ),
        decreases attempts@.len() - i,
    {
        let ghost rest = attempts@.subrange(i as int, attempts@.len() as int);
        proof {
            assert(rest[0] == attempts@[i as int]);
            assert(rest.subrange(1, rest.len() as int) =~= attempts@.subrange(
                i + 1,
                attempts@.len() as int,
            ));
        }
        match &attempts[i] {
            Ok(_) => {
                acts.push(FsAction::CommitTempToDest);
                proof {
                    assert(acts@ =~= spec_retry_actions(attempts@));
                }
                return (acts, RetryPhase::Done);
            },
            Err(RetryableError::Retry(_)) => {
                acts.push(FsAction::DeleteTemp);
            },
            Err(RetryableError::Fail(e)) => {
                acts.push(FsAction::DeleteTemp);
                proof {
                    assert(acts@ =~= spec_retry_actions(attempts@));
                }
                return (acts, RetryPhase::Aborted(e));
            },
        }
        i = i + 1;
    }
    proof {
        assert(attempts@.subrange(i as int, attempts@.len() as int) =~= Seq::<
            RetryableResult<()>,
        >::empty());
        assert(acts@ =~= spec_retry_actions(attempts@));
    }
    (acts, RetryPhase::NeedsMoreAttempts)
}

/// How a whole download of one resource ended.
#[derive(Clone, PartialEq, Eq, Debug)]
pub enum EngineOutcome {
    /// The engine finished, reporting what happened to the destination.
    Finished(OverwriteResult),
    /// The engine abandoned this resource with an error.
    Failed(crate::Error),
    /// Every attempt in the transcript asked for a retry.
    NeedsMoreAttempts,
}

/// Run the whole download engine of one resource over a transcript of
/// attempt outcomes: act on the prepare decision, loop over the attempts,
/// and stamp the committed file with the server's time.  In rename mode
/// `renamed_path` is the fresh name found for the stale file.
///
/// A destination that is already new enough is never touched: the engine
/// orders no action at all.  And whenever the engine fails, it has ordered
/// no `CommitTempToDest` and no `SetDestMtime`: the destination either
/// kept its old bytes and time, or had been moved aside whole.
pub fn drive_download(
    prep: &PrepareDecision,
    renamed_path: &String,
    last_updated: i64,
    attempts: &Vec<RetryableResult<()>>,
) -> (r: (Vec<FsAction>, EngineOutcome))
    ensures
        forall|res: OverwriteResult|
            *prep == (PrepareDecision::Keep { result: res }) ==> r.0@ =~= Seq::<FsAction>::empty()
                && r.1 == EngineOutcome::Finished(res),
        forall|e: crate::Error|
            *prep == (PrepareDecision::Fault { error: e }) ==> r.0@ =~= Seq::<FsAction>::empty()
                && r.1 == EngineOutcome::Failed(e),
        forall|res: OverwriteResult|
            *prep == (PrepareDecision::Proceed { result: res }) ==> r.0@ =~= seq![
                FsAction::CreateParentDir,
            ] + spec_retry_actions(attempts@) + (if spec_retry_status(attempts@) is Done {
                seq![FsAction::SetDestMtime(last_updated)]
            } else {
                Seq::<FsAction>::empty()
            }) && r.1 == (match spec_retry_status(attempts@) {
                RetryPhase::Done => EngineOutcome::Finished(res),
                RetryPhase::Aborted(e) => EngineOutcome::Failed(e),
                RetryPhase::NeedsMoreAttempts => EngineOutcome::NeedsMoreAttempts,
            }),
        prep is RenameExisting ==> r.0@ =~= seq![
            FsAction::RenameDestTo(*renamed_path),
            FsAction::CreateParentDir,
        ] + spec_retry_actions(attempts@) + (if spec_retry_status(attempts@) is Done {
            seq![FsAction::SetDestMtime(last_updated)]
        } else {
            Seq::<FsAction>::empty()
        }) && r.1 == (match spec_retry_status(attempts@) {
            RetryPhase::Done => EngineOutcome::Finished(
                OverwriteResult::Renamed { renamed_path: *renamed_path },
            ),
            RetryPhase::Aborted(e) => EngineOutcome::Failed(e),
            RetryPhase::NeedsMoreAttempts => EngineOutcome::NeedsMoreAttempts,
        }),
        // atomicity: on failure the destination was never written
        r.1 is Failed || r.1 is NeedsMoreAttempts ==> forall|k: int|
            0 <= k < r.0@.len() ==> !(r.0@[k] is CommitTempToDest) && !(r.0@[k] is SetDestMtime),
{
    match prep {
        PrepareDecision::Keep { result } => (Vec::new(), EngineOutcome::Finished(result.duplicate())),
        PrepareDecision::Fault { error } => (Vec::new(), EngineOutcome::Failed(error)),
        PrepareDecision::Proceed { result } => {
            let mut acts: Vec<FsAction> = Vec::new();
            acts.push(FsAction::CreateParentDir);
            let (mut phase_acts, phase) = drive_retry_phase(attempts);
            acts.append(&mut phase_acts);
            match phase {
                RetryPhase::Done => {
                    acts.push(FsAction::SetDestMtime(last_updated));
                    (acts, EngineOutcome::Finished(result.duplicate()))
                },
                RetryPhase::Aborted(e) => {
                    proof {
                        lemma_retry_failure_leaves_destination(attempts@);
                    }
                    (acts, EngineOutcome::Failed(e))
                },
                RetryPhase::NeedsMoreAttempts => {
                    proof {
                        lemma_retry_failure_leaves_destination(attempts@);
                    }
                    (acts, EngineOutcome::NeedsMoreAttempts)
                },
            }
        },
        PrepareDecision::RenameExisting => {
            let mut acts: Vec<FsAction> = Vec::new();
            acts.push(FsAction::RenameDestTo(renamed_path.clone()));
            acts.push(FsAction::CreateParentDir);
            let (mut phase_acts, phase) = drive_retry_phase(attempts);
            acts.append(&mut phase_acts);
            match phase {
                RetryPhase::Done => {
                    acts.push(FsAction::SetDestMtime(last_updated));
                    (
                        acts,
                        EngineOutcome::Finished(
                            OverwriteResult::Renamed { renamed_path: renamed_path.clone() },
                        ),
                    )
                },
                RetryPhase::Aborted(e) => {
                    proof {
                        lemma_retry_failure_leaves_destination(attempts@);
                    }
                    (acts, EngineOutcome::Failed(e))
                },
                RetryPhase::NeedsMoreAttempts => {
                    proof {
                        lemma_retry_failure_leaves_destination(attempts@);
                    }
                    (acts, EngineOutcome::NeedsMoreAttempts)
                },
            }
        },
    }
}

/// How the filesystem answered the metadata probe of the destination.
#[derive(Clone, PartialEq, Eq, Debug)]
pub enum MetadataStatus {
    /// The destination does not exist.
    Absent,
    /// Reading the metadata was not permitted.
    PermissionDenied,
    /// The metadata could not be read for another reason.
    OtherError,
    /// The filesystem keeps no modification time.
    MtimeUnsupported,
    /// The destination exists with this modification time, in milliseconds
    /// since the epoch.
    Present { mtime: i64 },
}

/// What the engine decided to do with the destination before downloading.
#[derive(Clone, PartialEq, Eq, Debug)]
pub enum PrepareDecision {
    /// Download; the result to report afterwards.
    Proceed { result: OverwriteResult },
    /// Do not download; the result to report.
    Keep { result: OverwriteResult },
    /// Move the stale file to a fresh name, then download.
    RenameExisting,
    /// Give up on this resource.
    Fault { error: crate::Error },
}

/// Decide what to do with the destination: a missing file is downloaded
/// fresh; a file at least as new as the server's copy is kept whatever the
/// mode; a stale file is skipped, overwritten or renamed according to the
/// mode.
pub fn prepare_decision(meta: &MetadataStatus, mode: OverwriteMode, last_updated: i64) -> (r:
    PrepareDecision)
    ensures
        meta is Absent ==> r == (PrepareDecision::Proceed { result: OverwriteResult::NewFile }),
        meta is PermissionDenied ==> r == (PrepareDecision::Fault {
            error: "Permission denied when retrieving file metadata",
        }),
        meta is OtherError ==> r == (PrepareDecision::Fault {
            error: "Unable to retrieve file metadata",
        }),
        meta is MtimeUnsupported ==> r == (PrepareDecision::Fault {
            error: "File system does not support last modified time",
        }),
        // a destination at least as new as the server copy is never touched
        forall|t: i64|
            meta == (MetadataStatus::Present { mtime: t }) && last_updated <= t ==> r == (
            PrepareDecision::Keep { result: OverwriteResult::AlreadyHave }),
        forall|t: i64|
            meta == (MetadataStatus::Present { mtime: t }) && last_updated > t ==> r == (match mode {
                OverwriteMode::Skip => PrepareDecision::Keep {
                    result: OverwriteResult::Skipped,
                },
                OverwriteMode::Overwrite => PrepareDecision::Proceed {
                    result: OverwriteResult::Overwritten,
                },
                OverwriteMode::Rename => PrepareDecision::RenameExisting,
            }),
{
    match meta {
        MetadataStatus::Absent => PrepareDecision::Proceed { result: OverwriteResult::NewFile },
        MetadataStatus::PermissionDenied => PrepareDecision::Fault {
            error: "Permission denied when retrieving file metadata",
        },
        MetadataStatus::OtherError => PrepareDecision::Fault {
            error: "Unable to retrieve file metadata",
        },
        MetadataStatus::MtimeUnsupported => PrepareDecision::Fault {
            error: "File system does not support last modified time",
        },
        MetadataStatus::Present { mtime } => {
            if last_updated <= *mtime {
                PrepareDecision::Keep { result: OverwriteResult::AlreadyHave }
            } else {
                match mode {
                    OverwriteMode::Skip => PrepareDecision::Keep {
                        result: OverwriteResult::Skipped,
                    },
                    OverwriteMode::Overwrite => PrepareDecision::Proceed {
                        result: OverwriteResult::Overwritten,
                    },
                    OverwriteMode::Rename => PrepareDecision::RenameExisting,
                }
            }
        },
    }
}

} // verus!
