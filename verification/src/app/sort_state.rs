use indexmap::IndexMap;
use std::cmp::Ordering;
use std::path::PathBuf;
use vstd::prelude::*;

verus! {

/// The file time that the list is ordered by.
#[derive(Debug, Default, Clone, Copy, PartialEq, Eq, Structural)]
pub enum SortField {
    #[default]
    CreatedAt,
    ModifiedAt,
}

/// How the file list is ordered.
#[derive(Debug)]
pub struct SortState {
    pub field: SortField,
    pub ascending: bool,
}

impl Default for SortState {
    /// Newest created first.
    fn default() -> (s: Self)
        ensures
            s.field == SortField::CreatedAt,
            !s.ascending,
    {
        Self { field: SortField::CreatedAt, ascending: false }
    }
}

/// The other sort field.
pub open spec fn other_field(f: SortField) -> SortField {
    match f {
        SortField::CreatedAt => SortField::ModifiedAt,
        SortField::ModifiedAt => SortField::CreatedAt,
    }
}

impl SortState {
    /// Switches between ordering by creation and by modification time.
    pub fn toggle_field(&mut self)
        ensures
            final(self).field == other_field(old(self).field),
            final(self).ascending == old(self).ascending,
    {
        self.field = match self.field {
            SortField::CreatedAt => SortField::ModifiedAt,
            SortField::ModifiedAt => SortField::CreatedAt,
        };
    }

    /// Switches between ascending and descending order.
    pub fn toggle_order(&mut self)
        ensures
            final(self).ascending == !old(self).ascending,
            final(self).field == old(self).field,
    {
        self.ascending = !self.ascending;
    }
}

/// Toggling the sort field twice gives back the field one started from, and
/// the toggle always changes it.
pub proof fn lemma_toggle_field_involution(f: SortField)
    ensures
        other_field(other_field(f)) == f,
        other_field(f) != f,
{
}

/// Toggling the order twice gives back the state one started from: `s1` is
/// what `toggle_order` makes of `s0`, and `s2` what it makes of `s1`.
pub proof fn lemma_toggle_order_twice(s0: SortState, s1: SortState, s2: SortState)
    requires
        s1.ascending == !s0.ascending,
        s1.field == s0.field,
        s2.ascending == !s1.ascending,
        s2.field == s1.field,
    ensures
        s2 == s0,
{
}

/// A path of the standard library, carried through as it is.
#[verifier::external_type_specification]
#[verifier::external_body]
pub struct ExPathBuf(PathBuf);

/// The ordered map of the `indexmap` crate, carried through as it is.
#[verifier::external_type_specification]
#[verifier::external_body]
#[verifier::reject_recursive_types(K)]
#[verifier::reject_recursive_types(V)]
#[verifier::reject_recursive_types(S)]
pub struct ExIndexMap<K, V, S>(IndexMap<K, V, S>);

/// The entries of the map in its order: each file's name (its key, by
/// view) with its path.
pub uninterp spec fn listed_entries(m: IndexMap<String, PathBuf>) -> Seq<(Seq<char>, PathBuf)>;

/// A time of each listed file, by name, in nanoseconds from the Unix epoch
/// (negative before it).
#[derive(Debug)]
pub struct FileTimes {
    pub entries: Vec<(String, i128)>,
}

/// The entries of a time table as plain values.
pub open spec fn times_view(t: FileTimes) -> Seq<(Seq<char>, i128)> {
    t.entries@.map_values(|e: (String, i128)| (e.0@, e.1))
}

/// The time recorded for `name`: that of the first entry with the name, or
/// the Unix epoch (0) when there is none.
pub open spec fn time_of(t: Seq<(Seq<char>, i128)>, name: Seq<char>) -> i128
    decreases t.len(),
{
    if t.len() == 0 {
        0
    } else if t[0].0 == name {
        t[0].1
    } else {
        time_of(t.drop_first(), name)
    }
}

impl FileTimes {
    /// The time recorded for `name` (see [`time_of`]).
    pub fn lookup(&self, name: &String) -> (t: i128)
        ensures
            t == time_of(times_view(*self), name@),
    {
        let ghost tv = times_view(*self);
        let mut k: usize = 0;
        proof {
            assert(tv.subrange(0, tv.len() as int) == tv);
        }
        while k < self.entries.len()
            invariant
                tv == times_view(*self),
                k <= tv.len(),
                time_of(tv.subrange(k as int, tv.len() as int), name@) == time_of(tv, name@),
            decreases self.entries.len() - k,
        {
            let ghost rest = tv.subrange(k as int, tv.len() as int);
            proof {
                assert(rest[0] == tv[k as int]);
                assert(rest.drop_first() == tv.subrange(k + 1, tv.len() as int));
                assert(tv[k as int] == (self.entries@[k as int].0@, self.entries@[k as int].1));
            }
            if self.entries[k].0.eq(name) {
                return self.entries[k].1;
            }
            k += 1;
        }
        0
    }
}

/// The time a file is ordered by: its creation or modification time, by the
/// sort field; the Unix epoch when unknown.
pub open spec fn sort_time(
    field: SortField,
    created: Seq<(Seq<char>, i128)>,
    modified: Seq<(Seq<char>, i128)>,
    name: Seq<char>,
) -> i128 {
    match field {
        SortField::CreatedAt => time_of(created, name),
        SortField::ModifiedAt => time_of(modified, name),
    }
}

/// Whether times `a` then `b` are in order.
pub open spec fn keys_in_order(a: i128, b: i128, ascending: bool) -> bool {
    if ascending {
        a <= b
    } else {
        a >= b
    }
}

/// How a file with time `a` compares with one with time `b`: by time,
/// earliest first when ascending, latest first otherwise.
pub open spec fn time_order(a: i128, b: i128, ascending: bool) -> Ordering {
    let (x, y) = if ascending {
        (a, b)
    } else {
        (b, a)
    };
    if x < y {
        Ordering::Less
    } else if x == y {
        Ordering::Equal
    } else {
        Ordering::Greater
    }
}

/// `new` is `old` reordered by a stable sort by `key`: `new[k]` is
/// `old[p[k]]` for a permutation `p`, the keys are in order, and entries
/// with equal keys keep their order.
pub open spec fn is_stable_sort<A>(
    old: Seq<A>,
    new: Seq<A>,
    key: spec_fn(A) -> i128,
    ascending: bool,
    p: Seq<int>,
) -> bool {
    &&& new.len() == old.len()
    &&& p.len() == old.len()
    &&& forall|k: int| 0 <= k < new.len() ==> 0 <= #[trigger] p[k] < old.len() && new[k] == old[p[k]]
    &&& forall|a: int, b: int| 0 <= a < b < new.len() ==> #[trigger] p[a] != #[trigger] p[b]
    &&& forall|a: int, b: int|
        0 <= a < b < new.len() ==> keys_in_order(key(#[trigger] new[a]), key(#[trigger] new[b]), ascending)
    &&& forall|a: int, b: int|
        0 <= a < b < new.len() && key(#[trigger] new[a]) == key(#[trigger] new[b]) ==> p[a] < p[b]
}

impl SortState {
    /// The time the file `name` is ordered by, given both time tables.
    pub open spec fn key_of(self, created: FileTimes, modified: FileTimes) -> spec_fn(Seq<char>) -> i128 {
        |name: Seq<char>| sort_time(self.field, times_view(created), times_view(modified), name)
    }

    /// The time an entry of the list is ordered by: that of its name.
    pub open spec fn entry_key(self, created: FileTimes, modified: FileTimes) -> spec_fn(
        (Seq<char>, PathBuf),
    ) -> i128 {
        |e: (Seq<char>, PathBuf)| sort_time(self.field, times_view(created), times_view(modified), e.0)
    }

    /// How the file `a` compares with the file `b` in the list's order (see
    /// [`time_order`]).
    pub fn compare_names(&self, created: &FileTimes, modified: &FileTimes, a: &String, b: &String) -> (o: Ordering)
        ensures
            o == time_order(
                self.key_of(*created, *modified)(a@),
                self.key_of(*created, *modified)(b@),
                self.ascending,
            ),
    {
        let times = match self.field {
            SortField::CreatedAt => created,
            SortField::ModifiedAt => modified,
        };
        let ta = times.lookup(a);
        let tb = times.lookup(b);
        let (x, y) = if self.ascending {
            (ta, tb)
        } else {
            (tb, ta)
        };
        if x < y {
            Ordering::Less
        } else if x == y {
            Ordering::Equal
        } else {
            Ordering::Greater
        }
    }

    /// Orders the files by the sort field, ascending or descending; each
    /// name keeps its path, and files with equal times keep their order.
    pub fn apply_to(&self, files: &mut IndexMap<String, PathBuf>, created: &FileTimes, modified: &FileTimes)
        ensures
            exists|p: Seq<int>|
                is_stable_sort(
                    listed_entries(*old(files)),
                    listed_entries(*final(files)),
                    self.entry_key(*created, *modified),
                    self.ascending,
                    p,
                ),
    {
        sort_listed_files(self, files, created, modified);
    }
}

/// Sorts the files with `IndexMap::sort_by` (indexmap), comparing two
/// entries by their names with [`SortState::compare_names`]. The crate
/// documents it as a stable sort of the key-value pairs, and the comparison
/// orders files by one time each, so the entries (each name with its path)
/// come out as a stable sort of the entries by those times.
#[verifier::external_body]
fn sort_listed_files(state: &SortState, files: &mut IndexMap<String, PathBuf>, created: &FileTimes, modified: &FileTimes)
    ensures
        exists|p: Seq<int>|
            is_stable_sort(
                listed_entries(*old(files)),
                listed_entries(*final(files)),
                state.entry_key(*created, *modified),
                state.ascending,
                p,
            ),
{
    files.sort_by(|a, _, b, _| state.compare_names(created, modified, a, b));
}

/// A list of `n` distinct indices below `n` holds every index below `n`.
proof fn lemma_indices_onto(p: Seq<int>, n: int)
    requires
        p.len() == n,
        forall|k: int| 0 <= k < n ==> 0 <= #[trigger] p[k] < n,
        forall|a: int, b: int| 0 <= a < b < n ==> #[trigger] p[a] != #[trigger] p[b],
    ensures
        forall|x: int| 0 <= x < n ==> #[trigger] p.contains(x),
{
    broadcast use vstd::seq_lib::group_seq_properties;
    assert(p.no_duplicates()) by {
        assert forall|a: int, b: int| 0 <= a < p.len() && 0 <= b < p.len() && a != b implies p[a] != p[b] by {
            if a > b {
                assert(p[b] != p[a]);
            }
        }
    }
    p.unique_seq_to_set();
    vstd::set_lib::lemma_int_range(0, n);
    let r = vstd::set_lib::set_int_range(0, n);
    assert(p.to_set().subset_of(r));
    vstd::set_lib::lemma_subset_equality(p.to_set(), r);
    assert forall|x: int| 0 <= x < n implies #[trigger] p.contains(x) by {
        assert(r.contains(x));
        assert(p.to_set().contains(x));
    }
}

/// The permutations of two stable sorts agree at `k` when they agree before it.
proof fn lemma_stable_sort_step<A>(
    old: Seq<A>,
    new1: Seq<A>,
    new2: Seq<A>,
    key: spec_fn(A) -> i128,
    ascending: bool,
    p1: Seq<int>,
    p2: Seq<int>,
    k: int,
)
    requires
        is_stable_sort(old, new1, key, ascending, p1),
        is_stable_sort(old, new2, key, ascending, p2),
        0 <= k < old.len(),
        forall|j: int| 0 <= j < k ==> p1[j] == p2[j],
    ensures
        p1[k] == p2[k],
{
    let n = old.len() as int;
    if p1[k] != p2[k] {
        lemma_indices_onto(p1, n);
        lemma_indices_onto(p2, n);
        let x = p1[k];
        let y = p2[k];
        assert(p2.contains(x) && p1.contains(y));
        let m = choose|m: int| 0 <= m < n && #[trigger] p2[m] == x;
        let m1 = choose|m: int| 0 <= m < n && #[trigger] p1[m] == y;
        if m < k {
            assert(p1[m] == x);
            assert(p1[m] != p1[k]);
        }
        if m1 < k {
            assert(p2[m1] == y);
            assert(p2[m1] != p2[k]);
        }
        assert(k < m && k < m1);
        assert(new2[k] == old[y] && new2[m] == old[x]);
        assert(new1[k] == old[x] && new1[m1] == old[y]);
        assert(keys_in_order(key(new2[k]), key(new2[m]), ascending));
        assert(keys_in_order(key(new1[k]), key(new1[m1]), ascending));
        assert(key(old[x]) == key(old[y]));
        assert(p2[k] < p2[m]);
        assert(p1[k] < p1[m1]);
    }
}

proof fn lemma_stable_sort_same_permutation<A>(
    old: Seq<A>,
    new1: Seq<A>,
    new2: Seq<A>,
    key: spec_fn(A) -> i128,
    ascending: bool,
    p1: Seq<int>,
    p2: Seq<int>,
    k: int,
)
    requires
        is_stable_sort(old, new1, key, ascending, p1),
        is_stable_sort(old, new2, key, ascending, p2),
        0 <= k <= old.len(),
    ensures
        forall|j: int| 0 <= j < k ==> p1[j] == p2[j],
    decreases k,
{
    if k > 0 {
        lemma_stable_sort_same_permutation(old, new1, new2, key, ascending, p1, p2, k - 1);
        lemma_stable_sort_step(old, new1, new2, key, ascending, p1, p2, k - 1);
    }
}

/// The order a sort gives is fully determined: two stable sorts of the same
/// entries by the same key and direction are the same list.
pub proof fn lemma_stable_sort_unique<A>(
    old: Seq<A>,
    new1: Seq<A>,
    new2: Seq<A>,
    key: spec_fn(A) -> i128,
    ascending: bool,
    p1: Seq<int>,
    p2: Seq<int>,
)
    requires
        is_stable_sort(old, new1, key, ascending, p1),
        is_stable_sort(old, new2, key, ascending, p2),
    ensures
        new1 == new2,
{
    lemma_stable_sort_same_permutation(old, new1, new2, key, ascending, p1, p2, old.len() as int);
    assert forall|k: int| 0 <= k < new1.len() implies new1[k] == new2[k] by {
        assert(p1[k] == p2[k]);
    }
    assert(new1 =~= new2);
}

/// Sorting a list that is already in order leaves it as it is; in
/// particular, sorting twice by the same state gives what sorting once gave.
pub proof fn lemma_sort_keeps_ordered_list<A>(
    old: Seq<A>,
    new: Seq<A>,
    key: spec_fn(A) -> i128,
    ascending: bool,
    p: Seq<int>,
)
    requires
        is_stable_sort(old, new, key, ascending, p),
        forall|a: int, b: int|
            0 <= a < b < old.len() ==> keys_in_order(key(#[trigger] old[a]), key(#[trigger] old[b]), ascending),
    ensures
        new == old,
{
    let id = Seq::new(old.len(), |k: int| k);
    assert(is_stable_sort(old, old, key, ascending, id));
    lemma_stable_sort_unique(old, new, old, key, ascending, p, id);
}

} // verus!
