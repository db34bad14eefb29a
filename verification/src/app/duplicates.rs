//! Grouping the files that share coop map codes.
use vstd::prelude::*;

use crate::search::{file_codes_view, files_view, names_view, FileCodes};
use crate::text::{
    lemma_lex_total, lex_le, lex_lt, sort_strings, sorted_texts, strings_view, string_lt,
};

verus! {

/// Files `i` and `j` are different files that hold a common map code.
pub open spec fn linked(fs: Seq<(Seq<char>, Seq<Seq<char>>)>, i: int, j: int) -> bool {
    &&& 0 <= i < fs.len()
    &&& 0 <= j < fs.len()
    &&& i != j
    &&& exists|c: Seq<char>| fs[i].1.contains(c) && fs[j].1.contains(c)
}

/// `p` is a chain of files, each linked to the next.
pub open spec fn is_path(fs: Seq<(Seq<char>, Seq<Seq<char>>)>, p: Seq<int>) -> bool {
    &&& p.len() >= 1
    &&& forall|k: int| 0 <= k < p.len() ==> 0 <= #[trigger] p[k] < fs.len()
    &&& forall|k: int| 0 <= k < p.len() - 1 ==> linked(fs, #[trigger] p[k], p[k + 1])
}

/// Files `i` and `j` are joined by a chain of shared map codes (every file is
/// joined to itself).
pub open spec fn connected(fs: Seq<(Seq<char>, Seq<Seq<char>>)>, i: int, j: int) -> bool {
    exists|p: Seq<int>| #[trigger] is_path(fs, p) && p[0] == i && p.last() == j
}

/// Every file is joined to itself.
pub proof fn lemma_connected_refl(fs: Seq<(Seq<char>, Seq<Seq<char>>)>, i: int)
    requires
        0 <= i < fs.len(),
    ensures
        connected(fs, i, i),
{
    let p = seq![i];
    assert(is_path(fs, p));
}

/// Two files that share a map code are joined, both ways.
pub proof fn lemma_linked_connected(fs: Seq<(Seq<char>, Seq<Seq<char>>)>, i: int, j: int)
    requires
        linked(fs, i, j),
    ensures
        connected(fs, i, j),
        connected(fs, j, i),
{
    let p = seq![i, j];
    assert(is_path(fs, p));
    let q = seq![j, i];
    assert forall|k: int| 0 <= k < q.len() - 1 implies linked(fs, #[trigger] q[k], q[k + 1]) by {
        let c = choose|c: Seq<char>| fs[i].1.contains(c) && fs[j].1.contains(c);
        assert(fs[j].1.contains(c) && fs[i].1.contains(c));
    }
    assert(is_path(fs, q));
}

/// Joining is transitive.
pub proof fn lemma_connected_trans(fs: Seq<(Seq<char>, Seq<Seq<char>>)>, i: int, j: int, k: int)
    requires
        connected(fs, i, j),
        connected(fs, j, k),
    ensures
        connected(fs, i, k),
{
    let p = choose|p: Seq<int>| #[trigger] is_path(fs, p) && p[0] == i && p.last() == j;
    let q = choose|q: Seq<int>| #[trigger] is_path(fs, q) && q[0] == j && q.last() == k;
    let r = p + q.drop_first();
    assert forall|x: int| 0 <= x < r.len() implies 0 <= #[trigger] r[x] < fs.len() by {
        if x >= p.len() {
            assert(r[x] == q[x - p.len() + 1]);
        }
    }
    assert forall|x: int| 0 <= x < r.len() - 1 implies linked(fs, #[trigger] r[x], r[x + 1]) by {
        if x < p.len() - 1 {
            assert(r[x] == p[x] && r[x + 1] == p[x + 1]);
        } else if x == p.len() - 1 {
            assert(r[x] == q[0]);
            assert(r[x + 1] == q[1]);
        } else {
            assert(r[x] == q[x - p.len() + 1]);
            assert(r[x + 1] == q[x - p.len() + 2]);
        }
    }
    assert(is_path(fs, r));
    if q.len() == 1 {
        assert(r.last() == p.last());
    } else {
        assert(r.last() == q.last());
    }
}

/// Joining is symmetric.
pub proof fn lemma_connected_symm(fs: Seq<(Seq<char>, Seq<Seq<char>>)>, i: int, j: int)
    requires
        connected(fs, i, j),
    ensures
        connected(fs, j, i),
{
    let p = choose|p: Seq<int>| #[trigger] is_path(fs, p) && p[0] == i && p.last() == j;
    lemma_path_symm(fs, p);
}

proof fn lemma_path_symm(fs: Seq<(Seq<char>, Seq<Seq<char>>)>, p: Seq<int>)
    requires
        is_path(fs, p),
    ensures
        connected(fs, p.last(), p[0]),
    decreases p.len(),
{
    if p.len() == 1 {
        lemma_connected_refl(fs, p[0]);
    } else {
        let q = p.drop_last();
        assert(is_path(fs, q)) by {
            assert forall|k: int| 0 <= k < q.len() - 1 implies linked(fs, #[trigger] q[k], q[k + 1]) by {
                assert(q[k] == p[k] && q[k + 1] == p[k + 1]);
            }
        }
        lemma_path_symm(fs, q);
        let n = p.len() - 1;
        assert(linked(fs, p[n - 1], p[n]));
        lemma_linked_connected(fs, p[n - 1], p[n]);
        lemma_connected_trans(fs, p[n], p[n - 1], p[0]);
    }
}

/// When all linked files carry equal labels, so do all connected ones.
proof fn lemma_labels_follow_paths(
    fs: Seq<(Seq<char>, Seq<Seq<char>>)>,
    labels: Seq<usize>,
    p: Seq<int>,
)
    requires
        labels.len() == fs.len(),
        is_path(fs, p),
        forall|x: int, y: int| #[trigger] linked(fs, x, y) ==> labels[x] == labels[y],
    ensures
        labels[p[0]] == labels[p.last()],
    decreases p.len(),
{
    if p.len() > 1 {
        let q = p.drop_last();
        assert(is_path(fs, q)) by {
            assert forall|k: int| 0 <= k < q.len() - 1 implies linked(fs, #[trigger] q[k], q[k + 1]) by {
                assert(q[k] == p[k] && q[k + 1] == p[k + 1]);
            }
        }
        lemma_labels_follow_paths(fs, labels, q);
        assert(linked(fs, p[p.len() - 2], p[p.len() - 1]));
    }
}

/// `g` lists, in strictly increasing order, the names of the files connected
/// to file `i`, and there are at least two of them.
pub open spec fn is_component_of(fs: Seq<(Seq<char>, Seq<Seq<char>>)>, i: int, g: Seq<Seq<char>>) -> bool {
    &&& 0 <= i < fs.len()
    &&& g.len() >= 2
    &&& forall|a: int, b: int| 0 <= a < b < g.len() ==> lex_lt(#[trigger] g[a], #[trigger] g[b])
    &&& forall|n: Seq<char>|
        #[trigger] g.contains(n) <==> exists|j: int| 0 <= j < fs.len() && #[trigger] fs[j].0 == n && connected(fs, i, j)
}

/// `g` is the group of some file (see [`is_component_of`]).
pub open spec fn is_duplicate_group(fs: Seq<(Seq<char>, Seq<Seq<char>>)>, g: Seq<Seq<char>>) -> bool {
    exists|i: int| is_component_of(fs, i, g)
}

/// The names of the files are pairwise different.
pub open spec fn names_distinct(fs: Seq<(Seq<char>, Seq<Seq<char>>)>) -> bool {
    forall|i: int, j: int| 0 <= i < fs.len() && 0 <= j < fs.len() && i != j ==> #[trigger] fs[i].0 != #[trigger] fs[j].0
}

/// Two strictly increasing lists with the same entries are equal.
proof fn lemma_strictly_sorted_unique(a: Seq<Seq<char>>, b: Seq<Seq<char>>)
    requires
        forall|x: int, y: int| 0 <= x < y < a.len() ==> lex_lt(#[trigger] a[x], #[trigger] a[y]),
        forall|x: int, y: int| 0 <= x < y < b.len() ==> lex_lt(#[trigger] b[x], #[trigger] b[y]),
        forall|n: Seq<char>| a.contains(n) <==> b.contains(n),
    ensures
        a == b,
    decreases a.len(),
{
    if a.len() == 0 {
        if b.len() > 0 {
            assert(b.contains(b[0]));
        }
    } else {
        assert(a.contains(a[0]));
        assert(b.len() > 0);
        assert(b.contains(b[0]));
        let k = choose|k: int| 0 <= k < b.len() && b[k] == a[0];
        let m = choose|m: int| 0 <= m < a.len() && a[m] == b[0];
        if k > 0 {
            assert(lex_lt(b[0], b[k]));
            if m > 0 {
                assert(lex_lt(a[0], a[m]));
            }
            lemma_lex_total(a[0], b[0]);
            crate::text::lemma_lex_irreflexive(a[0]);
        }
        assert(a[0] == b[0]);
        let a1 = a.drop_first();
        let b1 = b.drop_first();
        assert forall|n: Seq<char>| a1.contains(n) <==> b1.contains(n) by {
            if a1.contains(n) {
                let x = choose|x: int| 0 <= x < a1.len() && a1[x] == n;
                assert(a.contains(a[x + 1]));
                assert(lex_lt(a[0], a[x + 1]));
                crate::text::lemma_lex_irreflexive(n);
                let y = choose|y: int| 0 <= y < b.len() && b[y] == n;
                assert(y != 0);
                assert(b1[y - 1] == n);
            }
            if b1.contains(n) {
                let y = choose|y: int| 0 <= y < b1.len() && b1[y] == n;
                assert(b.contains(b[y + 1]));
                assert(lex_lt(b[0], b[y + 1]));
                crate::text::lemma_lex_irreflexive(n);
                let x = choose|x: int| 0 <= x < a.len() && a[x] == n;
                assert(x != 0);
                assert(a1[x - 1] == n);
            }
        }
        lemma_strictly_sorted_unique(a1, b1);
        assert(a == seq![a[0]] + a1);
        assert(b == seq![b[0]] + b1);
    }
}

/// Two groups of duplicates that share a file are the same group: no file
/// is listed in two groups.
pub proof fn lemma_duplicate_groups_disjoint(
    fs: Seq<(Seq<char>, Seq<Seq<char>>)>,
    g: Seq<Seq<char>>,
    h: Seq<Seq<char>>,
    n: Seq<char>,
)
    requires
        names_distinct(fs),
        is_duplicate_group(fs, g),
        is_duplicate_group(fs, h),
        g.contains(n),
        h.contains(n),
    ensures
        g == h,
{
    let i = choose|i: int| is_component_of(fs, i, g);
    let i2 = choose|i: int| is_component_of(fs, i, h);
    let j = choose|j: int| 0 <= j < fs.len() && #[trigger] fs[j].0 == n && connected(fs, i, j);
    let j2 = choose|j: int| 0 <= j < fs.len() && #[trigger] fs[j].0 == n && connected(fs, i2, j);
    assert(j == j2);
    lemma_connected_symm(fs, i, j);
    lemma_connected_symm(fs, i2, j);
    assert forall|m: Seq<char>| g.contains(m) <==> h.contains(m) by {
        if g.contains(m) {
            let k = choose|k: int| 0 <= k < fs.len() && #[trigger] fs[k].0 == m && connected(fs, i, k);
            lemma_connected_trans(fs, j, i, k);
            lemma_connected_trans(fs, i2, j, k);
        }
        if h.contains(m) {
            let k = choose|k: int| 0 <= k < fs.len() && #[trigger] fs[k].0 == m && connected(fs, i2, k);
            lemma_connected_trans(fs, j, i2, k);
            lemma_connected_trans(fs, i, j, k);
        }
    }
    lemma_strictly_sorted_unique(g, h);
}

/// Whether lists `a` and `b` share an entry.
fn share_code(a: &Vec<String>, b: &Vec<String>) -> (r: bool)
    ensures
        r == exists|c: Seq<char>| names_view(a@).contains(c) && names_view(b@).contains(c),
{
    let mut x: usize = 0;
    while x < a.len()
        invariant
            x <= a@.len(),
            forall|k: int| 0 <= k < x ==> !names_view(b@).contains(#[trigger] names_view(a@)[k]),
        decreases a.len() - x,
    {
        let mut y: usize = 0;
        while y < b.len()
            invariant
                x < a@.len(),
                y <= b@.len(),
                forall|k: int| 0 <= k < y ==> #[trigger] names_view(b@)[k] != a@[x as int]@,
            decreases b.len() - y,
        {
            if a[x].eq(&b[y]) {
                proof {
                    let c = a@[x as int]@;
                    assert(names_view(a@)[x as int] == c);
                    assert(names_view(b@)[y as int] == c);
                    assert(names_view(a@).contains(c) && names_view(b@).contains(c));
                }
                return true;
            }
            y += 1;
        }
        proof {
            assert(names_view(a@)[x as int] == a@[x as int]@);
            assert forall|k: int| 0 <= k < names_view(b@).len() implies names_view(b@)[k] != names_view(a@)[x as int] by {}
        }
        x += 1;
    }
    proof {
        assert forall|c: Seq<char>| !(names_view(a@).contains(c) && names_view(b@).contains(c)) by {
            if names_view(a@).contains(c) {
                let k = choose|k: int| 0 <= k < names_view(a@).len() && names_view(a@)[k] == c;
                assert(!names_view(b@).contains(names_view(a@)[k]));
            }
        }
    }
    false
}

/// Labels the files so that two files carry the same label exactly when
/// they are connected.
fn label_components(files: &Vec<FileCodes>) -> (labels: Vec<usize>)
    ensures
        labels@.len() == files@.len(),
        forall|x: int, y: int|
            0 <= x < files@.len() && 0 <= y < files@.len() ==> (labels@[x] == labels@[y]
                <==> connected(files_view(files@), x, y)),
{
    let ghost fs = files_view(files@);
    let n = files.len();
    let mut labels: Vec<usize> = Vec::new();
    let mut k: usize = 0;
    while k < n
        invariant
            k <= n,
            labels@.len() == k,
            forall|x: int| 0 <= x < k ==> labels@[x] == x,
        decreases n - k,
    {
        labels.push(k);
        k += 1;
    }
    proof {
        assert forall|x: int, y: int|
            0 <= x < n && 0 <= y < n && labels@[x] == labels@[y] implies connected(fs, x, y) by {
            lemma_connected_refl(fs, x);
        }
    }
    let mut i: usize = 0;
    while i < n
        invariant
            fs == files_view(files@),
            n == files@.len(),
            i <= n,
            labels@.len() == n,
            forall|x: int, y: int|
                0 <= x < n && 0 <= y < n && #[trigger] labels@[x] == #[trigger] labels@[y] ==> connected(fs, x, y),
            forall|x: int, y: int|
                0 <= x < i && #[trigger] linked(fs, x, y) ==> labels@[x] == labels@[y],
        decreases n - i,
    {
        let mut j: usize = 0;
        while j < n
            invariant
                fs == files_view(files@),
                n == files@.len(),
                i < n,
                j <= n,
                labels@.len() == n,
                forall|x: int, y: int|
                    0 <= x < n && 0 <= y < n && #[trigger] labels@[x] == #[trigger] labels@[y] ==> connected(fs, x, y),
                forall|x: int, y: int|
                    (0 <= x < i || (x == i && 0 <= y < j)) && #[trigger] linked(fs, x, y) ==> labels@[x] == labels@[y],
            decreases n - j,
        {
            proof {
                assert(fs[i as int] == file_codes_view(files@[i as int]));
                assert(fs[j as int] == file_codes_view(files@[j as int]));
            }
            let differ = i != j && labels[i] != labels[j];
            let shared = share_code(&files[i].codes, &files[j].codes);
            proof {
                if shared {
                    let c = choose|c: Seq<char>|
                        names_view(files@[i as int].codes@).contains(c) && names_view(
                            files@[j as int].codes@,
                        ).contains(c);
                    assert(fs[i as int].1.contains(c) && fs[j as int].1.contains(c));
                }
            }
            if differ && shared {
                let a = labels[i];
                let b = labels[j];
                let ghost old_labels = labels@;
                proof {
                    assert(linked(fs, i as int, j as int));
                    lemma_linked_connected(fs, i as int, j as int);
                }
                let mut k: usize = 0;
                while k < n
                    invariant
                        labels@.len() == n,
                        old_labels.len() == n,
                        k <= n,
                        forall|x: int| 0 <= x < k ==> #[trigger] labels@[x] == if old_labels[x] == b {
                            a
                        } else {
                            old_labels[x]
                        },
                        forall|x: int| k <= x < n ==> #[trigger] labels@[x] == old_labels[x],
                    decreases n - k,
                {
                    if labels[k] == b {
                        labels.set(k, a);
                    }
                    k += 1;
                }
                proof {
                    assert(old_labels[i as int] == a && old_labels[j as int] == b);
                    assert forall|x: int, y: int|
                        0 <= x < n && 0 <= y < n && #[trigger] labels@[x] == #[trigger] labels@[y] implies connected(fs, x, y) by {
                        let lx = old_labels[x];
                        let ly = old_labels[y];
                        if lx == b && ly != b {
                            // x ~ j ~ i ~ y
                            assert(old_labels[x] == old_labels[j as int]);
                            assert(old_labels[i as int] == old_labels[y]);
                            lemma_connected_symm(fs, i as int, j as int);
                            lemma_connected_trans(fs, x, j as int, i as int);
                            lemma_connected_trans(fs, x, i as int, y);
                        } else if lx != b && ly == b {
                            assert(old_labels[x] == old_labels[i as int]);
                            assert(old_labels[j as int] == old_labels[y]);
                            lemma_connected_trans(fs, x, i as int, j as int);
                            lemma_connected_trans(fs, x, j as int, y);
                        } else {
                            assert(old_labels[x] == old_labels[y]);
                        }
                    }
                    assert forall|x: int, y: int|
                        (0 <= x < i || (x == i && 0 <= y < j + 1)) && #[trigger] linked(fs, x, y) implies labels@[x] == labels@[y] by {
                        if x == i && y == j {
                        } else {
                            assert(old_labels[x] == old_labels[y]);
                        }
                    }
                }
            } else {
                proof {
                    if i != j && labels@[i as int] != labels@[j as int] {
                        assert forall|c: Seq<char>| !(fs[i as int].1.contains(c) && fs[j as int].1.contains(c)) by {
                            assert(!(names_view(files@[i as int].codes@).contains(c) && names_view(
                                files@[j as int].codes@,
                            ).contains(c)));
                        }
                        assert(!linked(fs, i as int, j as int));
                    }
                }
            }
            j += 1;
        }
        i += 1;
    }
    proof {
        assert forall|x: int, y: int|
            0 <= x < n && 0 <= y < n && connected(fs, x, y) implies labels@[x] == labels@[y] by {
            let p = choose|p: Seq<int>| #[trigger] is_path(fs, p) && p[0] == x && p.last() == y;
            lemma_labels_follow_paths(fs, labels@, p);
        }
    }
    labels
}

/// A list with no repeated entry keeps that property through any reordering
/// with the same contents.
proof fn lemma_same_contents_no_duplicates(a: Seq<Seq<char>>, b: Seq<Seq<char>>)
    requires
        a.no_duplicates(),
        a.to_multiset() == b.to_multiset(),
    ensures
        b.no_duplicates(),
{
    a.lemma_multiset_has_no_duplicates();
    b.lemma_multiset_has_no_duplicates_conv();
}

/// A sorted list without repeated entries is strictly increasing.
proof fn lemma_sorted_strict(s: Seq<Seq<char>>)
    requires
        sorted_texts(s),
        s.no_duplicates(),
    ensures
        forall|a: int, b: int| 0 <= a < b < s.len() ==> lex_lt(#[trigger] s[a], #[trigger] s[b]),
{
    assert forall|a: int, b: int| 0 <= a < b < s.len() implies lex_lt(#[trigger] s[a], #[trigger] s[b]) by {
        assert(lex_le(s[a], s[b]));
        assert(s[a] != s[b]);
    }
}

/// The names of the files, in order.
fn file_names(files: &Vec<FileCodes>) -> (names: Vec<String>)
    ensures
        strings_view(names@) == files_view(files@).map_values(|f: (Seq<char>, Seq<Seq<char>>)| f.0),
{
    let ghost fs = files_view(files@);
    let mut names: Vec<String> = Vec::new();
    let mut k: usize = 0;
    while k < files.len()
        invariant
            k <= files@.len(),
            fs == files_view(files@),
            strings_view(names@) == fs.map_values(|f: (Seq<char>, Seq<Seq<char>>)| f.0).subrange(0, k as int),
        decreases files.len() - k,
    {
        let ghost before = strings_view(names@);
        names.push(files[k].name.clone());
        proof {
            assert(fs[k as int] == file_codes_view(files@[k as int]));
            assert(strings_view(names@) == before.push(files@[k as int].name@));
        }
        k += 1;
    }
    proof {
        let all = fs.map_values(|f: (Seq<char>, Seq<Seq<char>>)| f.0);
        assert(all.subrange(0, files@.len() as int) == all);
    }
    names
}

/// The index of the file named `name`, which must be one of them.
fn index_of_name(files: &Vec<FileCodes>, name: &String) -> (k: usize)
    requires
        exists|j: int| 0 <= j < files@.len() && #[trigger] files@[j].name@ == name@,
    ensures
        k < files@.len(),
        files@[k as int].name@ == name@,
{
    let mut k: usize = 0;
    while k < files.len()
        invariant
            k <= files@.len(),
            forall|j: int| 0 <= j < k ==> #[trigger] files@[j].name@ != name@,
            exists|j: int| 0 <= j < files@.len() && #[trigger] files@[j].name@ == name@,
        decreases files.len() - k,
    {
        if files[k].name.eq(name) {
            return k;
        }
        k += 1;
    }
    k
}

/// Finds the groups of files that share coop map codes: two files belong
/// to one group when a chain of files, each sharing a map code with the
/// next, joins them. Each group of two or more files is listed once, its
/// names in sorted order, and the groups are ordered by their first name.
pub fn find_duplicates(files: &Vec<FileCodes>) -> (groups: Vec<Vec<String>>)
    requires
        names_distinct(files_view(files@)),
    ensures
        forall|a: int|
            0 <= a < groups@.len() ==> is_duplicate_group(files_view(files@), strings_view(#[trigger] groups@[a]@)),
        forall|i: int|
            #![trigger files_view(files@)[i]]
            0 <= i < files@.len() && (exists|j: int| #[trigger] linked(files_view(files@), i, j)) ==> exists|a: int|
                0 <= a < groups@.len() && strings_view(#[trigger] groups@[a]@).contains(files_view(files@)[i].0),
        forall|a: int, b: int|
            0 <= a < b < groups@.len() ==> lex_lt(
                strings_view(#[trigger] groups@[a]@)[0],
                strings_view(#[trigger] groups@[b]@)[0],
            ),
{
    let ghost fs = files_view(files@);
    let n = files.len();
    let labels = label_components(files);
    let names = file_names(files);
    let ghost all_names = strings_view(names@);
    proof {
        assert(all_names.no_duplicates()) by {
            assert forall|a: int, b: int| 0 <= a < all_names.len() && 0 <= b < all_names.len() && a != b implies all_names[a] != all_names[b] by {
                assert(all_names[a] == fs[a].0 && all_names[b] == fs[b].0);
            }
        }
    }
    let sorted = sort_strings(names);
    let ghost order = strings_view(sorted@);
    proof {
        lemma_same_contents_no_duplicates(all_names, order);
        lemma_sorted_strict(order);
        all_names.to_multiset_ensures();
        order.to_multiset_ensures();
        assert forall|x: Seq<char>| #[trigger] order.contains(x) <==> all_names.contains(x) by {
            assert(order.to_multiset().count(x) == all_names.to_multiset().count(x));
        }
        assert(order.len() == all_names.len());
        assert forall|x: int| 0 <= x < n implies !lex_lt(#[trigger] fs[x].0, order[0]) by {
            assert(all_names[x] == fs[x].0);
            assert(all_names.contains(fs[x].0));
            assert(order.contains(fs[x].0));
            let u = choose|u: int| 0 <= u < order.len() && order[u] == fs[x].0;
            if u > 0 {
                assert(lex_lt(order[0], order[u]));
            }
            if u > 0 {
                crate::text::lemma_lex_total(order[0], order[u]);
            } else {
                crate::text::lemma_lex_irreflexive(order[0]);
            }
        }
    }
    let mut done: Vec<bool> = Vec::new();
    let mut k: usize = 0;
    while k < n
        invariant
            k <= n,
            done@.len() == k,
            forall|x: int| 0 <= x < k ==> !done@[x],
        decreases n - k,
    {
        done.push(false);
        k += 1;
    }
    let mut groups: Vec<Vec<String>> = Vec::new();
    let mut t: usize = 0;
    while t < sorted.len()
        invariant
            fs == files_view(files@),
            n == files@.len() == fs.len(),
            names_distinct(fs),
            labels@.len() == n,
            forall|x: int, y: int|
                0 <= x < n && 0 <= y < n ==> (labels@[x] == labels@[y] <==> connected(fs, x, y)),
            all_names == fs.map_values(|f: (Seq<char>, Seq<Seq<char>>)| f.0),
            order == strings_view(sorted@),
            order.len() == n,
            forall|a: int, b: int| 0 <= a < b < order.len() ==> lex_lt(#[trigger] order[a], #[trigger] order[b]),
            forall|x: Seq<char>| #[trigger] order.contains(x) <==> all_names.contains(x),
            t <= n,
            done@.len() == n,
            forall|x: int, y: int|
                0 <= x < n && 0 <= y < n && labels@[x] == labels@[y] ==> #[trigger] done@[x] == #[trigger] done@[y],
            forall|x: int| 0 <= x < n && !done@[x] ==> !lex_lt(#[trigger] fs[x].0, order[t as int]) || t == n,
            forall|a: int|
                0 <= a < groups@.len() ==> is_duplicate_group(fs, strings_view(#[trigger] groups@[a]@)),
            forall|a: int, b: int|
                0 <= a < b < groups@.len() ==> lex_lt(
                    strings_view(#[trigger] groups@[a]@)[0],
                    strings_view(#[trigger] groups@[b]@)[0],
                ),
            forall|a: int|
                0 <= a < groups@.len() && t < n ==> lex_lt(strings_view(#[trigger] groups@[a]@)[0], order[t as int]),
            forall|x: int|
                0 <= x < n && #[trigger] done@[x] && (exists|j: int| #[trigger] linked(fs, x, j)) ==> exists|a: int|
                    0 <= a < groups@.len() && strings_view(#[trigger] groups@[a]@).contains(fs[x].0),
            forall|u: int, x: int| 0 <= u < t && 0 <= x < n && #[trigger] order[u] == #[trigger] fs[x].0 ==> done@[x],
        decreases sorted.len() - t,
    {
        proof {
            assert(order.contains(order[t as int]));
            assert(all_names.contains(order[t as int]));
            let j = choose|j: int| 0 <= j < all_names.len() && all_names[j] == order[t as int];
            assert(files@[j].name@ == fs[j].0);
        }
        let m = index_of_name(files, &sorted[t]);
        proof {
            assert(fs[m as int] == file_codes_view(files@[m as int]));
            assert(fs[m as int].0 == order[t as int]);
        }
        let ghost old_done = done@;
        let ghost old_groups = groups@;
        if !done[m] {
            // the component of m: all files with its label
            let mut members: Vec<String> = Vec::new();
            let ghost mut idx: Seq<int> = Seq::empty();
            let mut k: usize = 0;
            while k < n
                invariant
                    fs == files_view(files@),
                    n == files@.len() == fs.len(),
                    labels@.len() == n,
                    done@.len() == n,
                    k <= n,
                    m < n,
                    idx.len() == members@.len(),
                    forall|q: int| 0 <= q < idx.len() ==> 0 <= #[trigger] idx[q] < k && labels@[idx[q]] == labels@[m as int] && strings_view(members@)[q] == fs[idx[q]].0,
                    forall|q: int, r: int| 0 <= q < r < idx.len() ==> #[trigger] idx[q] < #[trigger] idx[r],
                    forall|x: int| 0 <= x < k && labels@[x] == labels@[m as int] ==> exists|q: int| 0 <= q < idx.len() && #[trigger] idx[q] == x,
                    forall|x: int| 0 <= x < n ==> #[trigger] done@[x] == (old_done[x] || (x < k && labels@[x] == labels@[m as int])),
                decreases n - k,
            {
                if labels[k] == labels[m] {
                    let ghost before = strings_view(members@);
                    let ghost old_idx = idx;
                    members.push(files[k].name.clone());
                    done.set(k, true);
                    proof {
                        idx = idx.push(k as int);
                        assert forall|x: int| 0 <= x < k + 1 && labels@[x] == labels@[m as int] implies exists|q: int| 0 <= q < idx.len() && #[trigger] idx[q] == x by {
                            if x == k {
                                assert(idx[idx.len() - 1] == x);
                            } else {
                                let q = choose|q: int| 0 <= q < old_idx.len() && #[trigger] old_idx[q] == x;
                                assert(idx[q] == x);
                            }
                        }
                        assert(fs[k as int] == file_codes_view(files@[k as int]));
                        assert(strings_view(members@) == before.push(fs[k as int].0));
                    }
                }
                k += 1;
            }
            let ghost mv = strings_view(members@);
            proof {
                // members are the names of the files connected to m
                assert forall|x: Seq<char>| #[trigger] mv.contains(x) <==> exists|j: int| 0 <= j < n && #[trigger] fs[j].0 == x && connected(fs, m as int, j) by {
                    if mv.contains(x) {
                        let q = choose|q: int| 0 <= q < mv.len() && mv[q] == x;
                        assert(fs[idx[q]].0 == x);
                        assert(connected(fs, m as int, idx[q]));
                    }
                    if exists|j: int| 0 <= j < n && #[trigger] fs[j].0 == x && connected(fs, m as int, j) {
                        let j = choose|j: int| 0 <= j < n && #[trigger] fs[j].0 == x && connected(fs, m as int, j);
                        assert(labels@[j] == labels@[m as int]);
                        let q = choose|q: int| 0 <= q < idx.len() && #[trigger] idx[q] == j;
                        assert(mv[q] == x);
                    }
                }
                assert(mv.no_duplicates()) by {
                    assert forall|a: int, b: int| 0 <= a < mv.len() && 0 <= b < mv.len() && a != b implies mv[a] != mv[b] by {
                        assert(idx[a] != idx[b]);
                        assert(fs[idx[a]].0 != fs[idx[b]].0);
                    }
                }
                // every member was not yet done, so no member name comes before m's
                assert forall|x: Seq<char>| mv.contains(x) implies !lex_lt(x, order[t as int]) by {
                    let q = choose|q: int| 0 <= q < mv.len() && mv[q] == x;
                    let j = idx[q];
                    assert(old_done[j] == old_done[m as int]);
                }
                // m itself is a member
                lemma_connected_refl(fs, m as int);
                assert(mv.contains(fs[m as int].0));
            }
            if members.len() >= 2 {
                let g = sort_strings(members);
                let ghost gv = strings_view(g@);
                proof {
                    mv.to_multiset_ensures();
                    gv.to_multiset_ensures();
                    lemma_same_contents_no_duplicates(mv, gv);
                    lemma_sorted_strict(gv);
                    assert forall|x: Seq<char>| #[trigger] gv.contains(x) <==> mv.contains(x) by {
                        assert(gv.to_multiset().count(x) == mv.to_multiset().count(x));
                    }
                    assert(is_component_of(fs, m as int, gv));
                    // its first name is m's
                    assert(gv.contains(gv[0]));
                    assert(!lex_lt(gv[0], order[t as int]));
                    assert(gv.contains(order[t as int]));
                    let q = choose|q: int| 0 <= q < gv.len() && gv[q] == order[t as int];
                    if q > 0 {
                        assert(lex_lt(gv[0], gv[q]));
                    }
                    assert(gv[0] == order[t as int]);
                }
                groups.push(g);
                proof {
                    assert(strings_view(groups@[old_groups.len() as int]@) == gv);
                }
            }
            proof {
                let new_g = groups@;
                assert forall|a: int| 0 <= a < new_g.len() implies is_duplicate_group(fs, strings_view(#[trigger] new_g[a]@)) by {
                    if a < old_groups.len() {
                        assert(new_g[a] == old_groups[a]);
                    } else {
                        assert(is_component_of(fs, m as int, strings_view(new_g[a]@)));
                    }
                }
                assert forall|a: int, b: int| 0 <= a < b < new_g.len() implies lex_lt(
                    strings_view(#[trigger] new_g[a]@)[0],
                    strings_view(#[trigger] new_g[b]@)[0],
                ) by {
                    assert(new_g[a] == old_groups[a]);
                    if b < old_groups.len() {
                        assert(new_g[b] == old_groups[b]);
                    }
                }
                if t + 1 < n {
                    assert(lex_lt(order[t as int], order[t + 1]));
                    assert forall|a: int| 0 <= a < new_g.len() implies lex_lt(strings_view(#[trigger] new_g[a]@)[0], order[t + 1]) by {
                        if a < old_groups.len() {
                            assert(new_g[a] == old_groups[a]);
                            crate::text::lemma_lex_transitive(strings_view(new_g[a]@)[0], order[t as int], order[t + 1]);
                        }
                    }
                }
                assert forall|x: int|
                    0 <= x < n && #[trigger] done@[x] && (exists|j: int| #[trigger] linked(fs, x, j)) implies exists|a: int|
                        0 <= a < new_g.len() && strings_view(#[trigger] new_g[a]@).contains(fs[x].0) by {
                    if old_done[x] {
                        let a = choose|a: int| 0 <= a < old_groups.len() && strings_view(#[trigger] old_groups[a]@).contains(fs[x].0);
                        assert(new_g[a] == old_groups[a]);
                    } else {
                        // x is in m's component, which has two or more files
                        let j = choose|j: int| #[trigger] linked(fs, x, j);
                        lemma_linked_connected(fs, x, j);
                        assert(labels@[x] == labels@[m as int]);
                        assert(labels@[j] == labels@[x]);
                        lemma_connected_symm(fs, x, m as int);
                        lemma_connected_trans(fs, m as int, x, j);
                        assert(mv.contains(fs[x].0));
                        assert(mv.contains(fs[j].0));
                        assert(fs[x].0 != fs[j].0);
                        assert(mv.len() >= 2) by {
                            let q1 = choose|q: int| 0 <= q < mv.len() && mv[q] == fs[x].0;
                            let q2 = choose|q: int| 0 <= q < mv.len() && mv[q] == fs[j].0;
                            assert(q1 != q2);
                        }
                        let last = (new_g.len() - 1) as int;
                        assert(strings_view(new_g[last]@).contains(fs[x].0));
                    }
                }
            }
        }
        proof {
            if t + 1 < n {
                assert(lex_lt(order[t as int], order[t + 1]));
                assert forall|a: int| 0 <= a < groups@.len() implies lex_lt(strings_view(#[trigger] groups@[a]@)[0], order[t + 1]) by {
                    if a < old_groups.len() {
                        assert(groups@[a] == old_groups[a]);
                        crate::text::lemma_lex_transitive(strings_view(groups@[a]@)[0], order[t as int], order[t + 1]);
                    } else {
                        assert(strings_view(groups@[a]@)[0] == order[t as int]);
                    }
                }
            }
        }
        proof {
            // everything named up to order[t] is done now
            assert forall|x: int| 0 <= x < n && !done@[x] implies !lex_lt(#[trigger] fs[x].0, order[t + 1]) || t + 1 == n by {
                if t + 1 < n && lex_lt(fs[x].0, order[t + 1]) {
                    assert(all_names[x] == fs[x].0);
                    assert(order.contains(fs[x].0));
                    let u = choose|u: int| 0 <= u < order.len() && order[u] == fs[x].0;
                    if u > t + 1 {
                        crate::text::lemma_lex_total(order[t + 1], order[u]);
                    }
                    crate::text::lemma_lex_irreflexive(fs[x].0);
                    assert(u <= t);
                    if u == t {
                        assert(fs[x].0 == fs[m as int].0);
                        assert(x == m);
                    }
                }
            }
        }
        t += 1;
    }
    proof {
        assert forall|x: int| 0 <= x < n implies #[trigger] done@[x] by {
            assert(all_names[x] == fs[x].0);
            assert(order.contains(fs[x].0));
            let u = choose|u: int| 0 <= u < order.len() && order[u] == fs[x].0;
        }
        assert forall|i: int|
            #![trigger files_view(files@)[i]]
            0 <= i < files@.len() && (exists|j: int| #[trigger] linked(files_view(files@), i, j)) implies exists|a: int|
                0 <= a < groups@.len() && strings_view(#[trigger] groups@[a]@).contains(files_view(files@)[i].0) by {
            assert(done@[i]);
            let j = choose|j: int| #[trigger] linked(fs, i, j);
            assert(linked(fs, i, j));
        }
    }
    groups
}

} // verus!
