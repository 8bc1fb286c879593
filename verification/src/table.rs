//! Ordered, uniquely keyed collections built on vectors of pairs: a `Row`
//! maps column headers to cell values, a `RowTable` maps row keys to rows in
//! source order, and a `KeySet` is a set of row keys. Insertion keeps the
//! position of an existing key and replaces its value, so later duplicates
//! override earlier ones without reordering.

use vstd::prelude::*;

use crate::cells::{CellModel, CtxValue};
use crate::text::str_eq;

verus! {

broadcast use vstd::set::group_set_axioms;

/// The keys of an association sequence, in order.
pub open spec fn spec_assoc_keys<V>(s: Seq<(Seq<char>, V)>) -> Seq<Seq<char>> {
    s.map_values(|p: (Seq<char>, V)| p.0)
}

/// No key occurs twice.
pub open spec fn spec_unique_keys<V>(s: Seq<(Seq<char>, V)>) -> bool {
    forall|i: int, j: int| 0 <= i < j < s.len() ==> s[i].0 != s[j].0
}

/// Index of the first pair with key `k`, if any.
pub open spec fn spec_assoc_find<V>(s: Seq<(Seq<char>, V)>, k: Seq<char>) -> Option<int>
    decreases s.len(),
{
    if s.len() == 0 {
        None
    } else if s[0].0 == k {
        Some(0)
    } else {
        match spec_assoc_find(s.drop_first(), k) {
            Some(i) => Some(i + 1),
            None => None,
        }
    }
}

/// Value of the first pair with key `k`, if any.
pub open spec fn spec_assoc_get<V>(s: Seq<(Seq<char>, V)>, k: Seq<char>) -> Option<V> {
    match spec_assoc_find(s, k) {
        Some(i) => Some(s[i].1),
        None => None,
    }
}

/// Insertion: replace in place when the key exists, append otherwise.
pub open spec fn spec_assoc_insert<V>(s: Seq<(Seq<char>, V)>, k: Seq<char>, v: V) -> Seq<
    (Seq<char>, V),
> {
    match spec_assoc_find(s, k) {
        Some(i) => s.update(i, (k, v)),
        None => s.push((k, v)),
    }
}

pub broadcast proof fn lemma_assoc_find_props<V>(s: Seq<(Seq<char>, V)>, k: Seq<char>)
    ensures
        match #[trigger] spec_assoc_find(s, k) {
            Some(i) => 0 <= i < s.len() && s[i].0 == k && forall|j: int|
                0 <= j < i ==> s[j].0 != k,
            None => forall|j: int| 0 <= j < s.len() ==> s[j].0 != k,
        },
    decreases s.len(),
{
    if s.len() > 0 && s[0].0 != k {
        lemma_assoc_find_props(s.drop_first(), k);
        let t = s.drop_first();
        match spec_assoc_find(t, k) {
            Some(i) => {
                assert(s[i + 1] == t[i]);
                assert forall|j: int| 0 <= j < i + 1 implies s[j].0 != k by {
                    if j > 0 {
                        assert(t[j - 1] == s[j]);
                    }
                }
            },
            None => {
                assert forall|j: int| 0 <= j < s.len() implies s[j].0 != k by {
                    if j > 0 {
                        assert(t[j - 1] == s[j]);
                    }
                }
            },
        }
    }
}

/// A first occurrence seen directly gives the result of `spec_assoc_find`.
pub proof fn lemma_assoc_find_at<V>(s: Seq<(Seq<char>, V)>, k: Seq<char>, i: int)
    requires
        0 <= i < s.len(),
        s[i].0 == k,
        forall|j: int| 0 <= j < i ==> s[j].0 != k,
    ensures
        spec_assoc_find(s, k) == Some(i),
{
    lemma_assoc_find_props(s, k);
    match spec_assoc_find(s, k) {
        Some(p) => {
            if p < i {
                assert(s[p].0 != k);
            } else if p > i {
                assert(s[i].0 != k);
            }
        },
        None => {
            assert(s[i].0 != k);
        },
    }
}

/// No occurrence anywhere gives `None`.
pub proof fn lemma_assoc_find_none<V>(s: Seq<(Seq<char>, V)>, k: Seq<char>)
    requires
        forall|j: int| 0 <= j < s.len() ==> s[j].0 != k,
    ensures
        spec_assoc_find(s, k) is None,
{
    lemma_assoc_find_props(s, k);
    if let Some(p) = spec_assoc_find(s, k) {
        assert(s[p].0 != k);
    }
}

/// Insertion keeps keys unique.
pub proof fn lemma_assoc_insert_unique<V>(s: Seq<(Seq<char>, V)>, k: Seq<char>, v: V)
    requires
        spec_unique_keys(s),
    ensures
        spec_unique_keys(spec_assoc_insert(s, k, v)),
        spec_assoc_get(spec_assoc_insert(s, k, v), k) == Some(v),
{
    lemma_assoc_find_props(s, k);
    let t = spec_assoc_insert(s, k, v);
    match spec_assoc_find(s, k) {
        Some(i) => {
            assert forall|a: int, b: int| 0 <= a < b < t.len() implies t[a].0 != t[b].0 by {
                if a != i && b != i {
                    assert(s[a].0 != s[b].0);
                }
            }
            lemma_assoc_find_at(t, k, i);
        },
        None => {
            assert forall|a: int, b: int| 0 <= a < b < t.len() implies t[a].0 != t[b].0 by {
                if b < t.len() - 1 {
                    assert(s[a].0 != s[b].0);
                }
            }
            lemma_assoc_find_at(t, k, s.len() as int);
        },
    }
}

/// Every pair of `add` inserted into `base`, left to right.
pub open spec fn spec_merge<V>(base: Seq<(Seq<char>, V)>, add: Seq<(Seq<char>, V)>) -> Seq<
    (Seq<char>, V),
>
    decreases add.len(),
{
    if add.len() == 0 {
        base
    } else {
        spec_merge(spec_assoc_insert(base, add[0].0, add[0].1), add.drop_first())
    }
}

/// A mapping from column-header strings to cell values, in column order.
#[derive(Debug)]
pub struct Row {
    cells: Vec<(String, CtxValue)>,
}

impl View for Row {
    type V = Seq<(Seq<char>, CellModel)>;

    closed spec fn view(&self) -> Seq<(Seq<char>, CellModel)> {
        self.cells@.map_values(|p: (String, CtxValue)| (p.0@, p.1@))
    }
}

impl Row {
    /// Headers never repeat within a row.
    pub open spec fn well_formed(&self) -> bool {
        spec_unique_keys(self@)
    }

    pub fn new() -> (r: Row)
        ensures
            r@ == Seq::<(Seq<char>, CellModel)>::empty(),
            r.well_formed(),
    {
        let r = Row { cells: Vec::new() };
        proof {
            assert(r@ =~= Seq::<(Seq<char>, CellModel)>::empty());
        }
        r
    }

    pub fn len(&self) -> (r: usize)
        ensures
            r == self@.len(),
    {
        self.cells.len()
    }

    pub fn key_at(&self, i: usize) -> (r: &String)
        requires
            i < self@.len(),
        ensures
            r@ == self@[i as int].0,
    {
        &self.cells[i].0
    }

    pub fn value_at(&self, i: usize) -> (r: &CtxValue)
        requires
            i < self@.len(),
        ensures
            r@ == self@[i as int].1,
    {
        &self.cells[i].1
    }

    /// Index of the first cell under `key`, scanning in column order.
    fn find(&self, key: &str) -> (r: Option<usize>)
        ensures
            match r {
                Some(i) => spec_assoc_find(self@, key@) == Some(i as int),
                None => spec_assoc_find(self@, key@) is None,
            },
    {
        let n = self.cells.len();
        let mut i: usize = 0;
        while i < n
            invariant
                i <= n,
                n == self@.len(),
                forall|j: int| 0 <= j < i ==> self@[j].0 != key@,
            decreases n - i,
        {
            if str_eq(self.cells[i].0.as_str(), key) {
                proof {
                    lemma_assoc_find_at(self@, key@, i as int);
                }
                return Some(i);
            }
            i = i + 1;
        }
        proof {
            lemma_assoc_find_none(self@, key@);
        }
        None
    }

    pub fn get(&self, key: &str) -> (r: Option<&CtxValue>)
        ensures
            match r {
                Some(v) => spec_assoc_get(self@, key@) == Some(v@),
                None => spec_assoc_get(self@, key@) is None,
            },
    {
        match self.find(key) {
            Some(i) => {
                proof {
                    lemma_assoc_find_props(self@, key@);
                }
                Some(&self.cells[i].1)
            },
            None => None,
        }
    }

    pub fn contains_key(&self, key: &str) -> (r: bool)
        ensures
            r == (spec_assoc_get(self@, key@) is Some),
    {
        self.find(key).is_some()
    }

    /// Sets `key` to `value`, replacing in place or appending.
    pub fn insert(&mut self, key: String, value: CtxValue)
        requires
            old(self).well_formed(),
        ensures
            final(self)@ == spec_assoc_insert(old(self)@, key@, value@),
            final(self).well_formed(),
    {
        proof {
            lemma_assoc_insert_unique(self@, key@, value@);
            lemma_assoc_find_props(self@, key@);
        }
        match self.find(key.as_str()) {
            Some(i) => {
                self.cells.set(i, (key, value));
                proof {
                    assert(self@ =~= spec_assoc_insert(old(self)@, key@, value@));
                }
            },
            None => {
                self.cells.push((key, value));
                proof {
                    assert(self@ =~= spec_assoc_insert(old(self)@, key@, value@));
                }
            },
        }
    }
}

/// An ordered mapping from row key (the first-column text of each row) to
/// its row; insertion order is the source order templates iterate in.
#[derive(Debug)]
pub struct RowTable {
    rows: Vec<(String, Row)>,
}

impl View for RowTable {
    type V = Seq<(Seq<char>, Seq<(Seq<char>, CellModel)>)>;

    closed spec fn view(&self) -> Seq<(Seq<char>, Seq<(Seq<char>, CellModel)>)> {
        self.rows@.map_values(|p: (String, Row)| (p.0@, p.1@))
    }
}

impl RowTable {
    /// Row keys never repeat, and every row is itself well formed.
    pub open spec fn well_formed(&self) -> bool {
        spec_unique_keys(self@) && forall|i: int|
            0 <= i < self@.len() ==> spec_unique_keys(#[trigger] self@[i].1)
    }

    pub fn new() -> (r: RowTable)
        ensures
            r@ == Seq::<(Seq<char>, Seq<(Seq<char>, CellModel)>)>::empty(),
            r.well_formed(),
    {
        let r = RowTable { rows: Vec::new() };
        proof {
            assert(r@ =~= Seq::<(Seq<char>, Seq<(Seq<char>, CellModel)>)>::empty());
        }
        r
    }

    pub fn len(&self) -> (r: usize)
        ensures
            r == self@.len(),
    {
        self.rows.len()
    }

    pub fn key_at(&self, i: usize) -> (r: &String)
        requires
            i < self@.len(),
        ensures
            r@ == self@[i as int].0,
    {
        &self.rows[i].0
    }

    pub fn row_at(&self, i: usize) -> (r: &Row)
        requires
            i < self@.len(),
        ensures
            r@ == self@[i as int].1,
    {
        &self.rows[i].1
    }

    fn find(&self, key: &str) -> (r: Option<usize>)
        ensures
            match r {
                Some(i) => spec_assoc_find(self@, key@) == Some(i as int),
                None => spec_assoc_find(self@, key@) is None,
            },
    {
        let n = self.rows.len();
        let mut i: usize = 0;
        while i < n
            invariant
                i <= n,
                n == self@.len(),
                forall|j: int| 0 <= j < i ==> self@[j].0 != key@,
            decreases n - i,
        {
            if str_eq(self.rows[i].0.as_str(), key) {
                proof {
                    lemma_assoc_find_at(self@, key@, i as int);
                }
                return Some(i);
            }
            i = i + 1;
        }
        proof {
            lemma_assoc_find_none(self@, key@);
        }
        None
    }

    pub fn get(&self, key: &str) -> (r: Option<&Row>)
        ensures
            match r {
                Some(v) => spec_assoc_get(self@, key@) == Some(v@),
                None => spec_assoc_get(self@, key@) is None,
            },
    {
        match self.find(key) {
            Some(i) => {
                proof {
                    lemma_assoc_find_props(self@, key@);
                }
                Some(&self.rows[i].1)
            },
            None => None,
        }
    }

    pub fn contains_key(&self, key: &str) -> (r: bool)
        ensures
            r == (spec_assoc_get(self@, key@) is Some),
    {
        self.find(key).is_some()
    }

    /// Sets `key` to `row`: an existing key keeps its position and gets the
    /// new row (the documented override of later duplicates), a new key goes
    /// to the end.
    pub fn insert(&mut self, key: String, row: Row)
        requires
            old(self).well_formed(),
            row.well_formed(),
        ensures
            final(self)@ == spec_assoc_insert(old(self)@, key@, row@),
            final(self).well_formed(),
    {
        proof {
            lemma_assoc_insert_unique(self@, key@, row@);
            lemma_assoc_find_props(self@, key@);
        }
        match self.find(key.as_str()) {
            Some(i) => {
                self.rows.set(i, (key, row));
                proof {
                    assert(self@ =~= spec_assoc_insert(old(self)@, key@, row@));
                }
            },
            None => {
                self.rows.push((key, row));
                proof {
                    assert(self@ =~= spec_assoc_insert(old(self)@, key@, row@));
                }
            },
        }
    }

    /// Folds every row of `other` into `self` in order, with the usual
    /// override-in-place semantics.
    pub fn merge_from(&mut self, other: RowTable)
        requires
            old(self).well_formed(),
            other.well_formed(),
        ensures
            final(self)@ == spec_merge(old(self)@, other@),
            final(self).well_formed(),
    {
        let mut rest = other;
        while rest.rows.len() > 0
            invariant
                self.well_formed(),
                rest.well_formed(),
                spec_merge(old(self)@, other@) == spec_merge(self@, rest@),
            decreases rest.rows@.len(),
        {
            let ghost pre_rest = rest@;
            let (key, row) = rest.rows.remove(0);
            proof {
                assert(rest@ =~= pre_rest.drop_first());
                assert(key@ == pre_rest[0].0 && row@ == pre_rest[0].1);
                assert(spec_unique_keys(row@));
            }
            self.insert(key, row);
        }
        proof {
            assert(rest@.len() == 0);
        }
    }

    /// The rows whose keys pass the narrowing sets, in table order:
    /// the kept set (when given) keeps only its members, the dropped set
    /// (when given) takes its members out.
    #[verifier::loop_isolation(false)]
    pub fn apply_filters(self, inc: Option<&KeySet>, exc: Option<&KeySet>) -> (r: RowTable)
        requires
            self.well_formed(),
        ensures
            r@ == spec_filtered(self@, spec_opt_set_view(inc), spec_opt_set_view(exc)),
            r.well_formed(),
    {
        let ghost iv = spec_opt_set_view(inc);
        let ghost ev = spec_opt_set_view(exc);
        let mut rest = self;
        let mut out = RowTable::new();
        let ghost all = rest@;
        let ghost mut i: int = 0;
        while rest.rows.len() > 0
            invariant
                i + rest@.len() == all.len(),
                all.take(i) + rest@ =~= all,
                out@ == spec_filtered(all.take(i), iv, ev),
            decreases rest.rows@.len(),
        {
            let ghost pre_rest = rest@;
            let (key, row) = rest.rows.remove(0);
            proof {
                assert(rest@ =~= pre_rest.drop_first());
                assert(key@ == all[i].0 && row@ == all[i].1);
            }
            let keep_inc = match inc {
                Some(s) => s.contains(key.as_str()),
                None => true,
            };
            let keep_exc = match exc {
                Some(s) => !s.contains(key.as_str()),
                None => true,
            };
            if keep_inc && keep_exc {
                out.rows.push((key, row));
            }
            proof {
                i = i + 1;
                let cur = all.take(i);
                assert(cur.drop_last() =~= all.take(i - 1));
                assert(cur.last() == all[i - 1]);
                assert(all.take(i) + rest@ =~= all);
            }
        }
        proof {
            assert(all.take(i) =~= all);
            lemma_filtered_entries(all, iv, ev);
            assert forall|x: int|
                0 <= x < out@.len() implies spec_unique_keys(#[trigger] out@[x].1) by {
                let t = choose|t: int| 0 <= t < all.len() && #[trigger] out@[x] == all[t];
            }
        }
        out
    }

    /// The row keys, in table order.
    pub fn keys(&self) -> (r: Vec<String>)
        ensures
            r@.len() == self@.len(),
            forall|i: int| 0 <= i < r@.len() ==> (#[trigger] r@[i])@ == self@[i].0,
    {
        let n = self.rows.len();
        let mut out: Vec<String> = Vec::new();
        let mut i: usize = 0;
        while i < n
            invariant
                i <= n,
                n == self@.len(),
                out@.len() == i,
                forall|j: int| 0 <= j < i ==> (#[trigger] out@[j])@ == self@[j].0,
            decreases n - i,
        {
            out.push(self.rows[i].0.clone());
            i = i + 1;
        }
        out
    }
}

/// Whether a key passes the narrowing sets: it must be in the kept set
/// when one is given, and out of the dropped set when one is given.
pub open spec fn spec_keep(
    k: Seq<char>,
    inc: Option<Set<Seq<char>>>,
    exc: Option<Set<Seq<char>>>,
) -> bool {
    (match inc {
        Some(s) => s.contains(k),
        None => true,
    }) && (match exc {
        Some(s) => !s.contains(k),
        None => true,
    })
}

pub open spec fn spec_opt_set_view(s: Option<&KeySet>) -> Option<Set<Seq<char>>> {
    match s {
        Some(ks) => Some(ks@),
        None => None,
    }
}

/// The entries whose keys pass the narrowing sets, in their original
/// order.
pub open spec fn spec_filtered<V>(
    s: Seq<(Seq<char>, V)>,
    inc: Option<Set<Seq<char>>>,
    exc: Option<Set<Seq<char>>>,
) -> Seq<(Seq<char>, V)>
    decreases s.len(),
{
    if s.len() == 0 {
        s
    } else {
        let rest = spec_filtered(s.drop_last(), inc, exc);
        if spec_keep(s.last().0, inc, exc) {
            rest.push(s.last())
        } else {
            rest
        }
    }
}

/// Every filtered entry is an entry of the original, and unique keys stay
/// unique.
pub proof fn lemma_filtered_entries<V>(
    s: Seq<(Seq<char>, V)>,
    inc: Option<Set<Seq<char>>>,
    exc: Option<Set<Seq<char>>>,
)
    ensures
        forall|j: int|
            0 <= j < spec_filtered(s, inc, exc).len() ==> exists|t: int|
                0 <= t < s.len() && #[trigger] spec_filtered(s, inc, exc)[j] == s[t],
        spec_unique_keys(s) ==> spec_unique_keys(spec_filtered(s, inc, exc)),
    decreases s.len(),
{
    if s.len() > 0 {
        lemma_filtered_entries(s.drop_last(), inc, exc);
        let rest = spec_filtered(s.drop_last(), inc, exc);
        let out = spec_filtered(s, inc, exc);
        assert forall|j: int| 0 <= j < out.len() implies exists|t: int|
            0 <= t < s.len() && #[trigger] out[j] == s[t] by {
            if j < rest.len() {
                let t = choose|t: int|
                    0 <= t < s.drop_last().len() && #[trigger] rest[j] == s.drop_last()[t];
                assert(out[j] == s[t]);
            } else {
                assert(out[j] == s[s.len() - 1]);
            }
        }
        if spec_unique_keys(s) {
            assert(spec_unique_keys(s.drop_last()));
            assert forall|a: int, b: int|
                0 <= a < b < out.len() implies out[a].0 != out[b].0 by {
                let ta = choose|t: int| 0 <= t < s.len() && #[trigger] out[a] == s[t];
                if b < rest.len() {
                    let tb = choose|t: int|
                        0 <= t < s.drop_last().len() && #[trigger] rest[b] == s.drop_last()[t];
                    assert(spec_unique_keys(rest));
                } else {
                    // out[b] is the last element of s; out[a] comes from a
                    // strictly earlier entry
                    let tb2 = choose|t: int|
                        0 <= t < s.drop_last().len() && #[trigger] rest[a] == s.drop_last()[t];
                    assert(out[a] == s[tb2]);
                    assert(out[b] == s[s.len() - 1]);
                    assert(s[tb2].0 != s[s.len() - 1].0);
                }
            }
        }
    }
}

/// Every entry a filter keeps passes the narrowing sets.
proof fn lemma_filtered_all_kept<V>(
    s: Seq<(Seq<char>, V)>,
    inc: Option<Set<Seq<char>>>,
    exc: Option<Set<Seq<char>>>,
)
    ensures
        forall|j: int|
            0 <= j < spec_filtered(s, inc, exc).len() ==> spec_keep(
                #[trigger] spec_filtered(s, inc, exc)[j].0,
                inc,
                exc,
            ),
    decreases s.len(),
{
    if s.len() > 0 {
        lemma_filtered_all_kept(s.drop_last(), inc, exc);
        let rest = spec_filtered(s.drop_last(), inc, exc);
        let out = spec_filtered(s, inc, exc);
        assert forall|j: int| 0 <= j < out.len() implies spec_keep(
            #[trigger] out[j].0,
            inc,
            exc,
        ) by {
            if j < rest.len() {
                assert(out[j] == rest[j]);
            } else {
                assert(out[j] == s.last());
            }
        }
    }
}

/// A sequence whose every entry passes the narrowing sets filters to
/// itself.
proof fn lemma_filtered_of_kept<V>(
    s: Seq<(Seq<char>, V)>,
    inc: Option<Set<Seq<char>>>,
    exc: Option<Set<Seq<char>>>,
)
    requires
        forall|j: int| 0 <= j < s.len() ==> spec_keep(#[trigger] s[j].0, inc, exc),
    ensures
        spec_filtered(s, inc, exc) == s,
    decreases s.len(),
{
    if s.len() > 0 {
        lemma_filtered_of_kept(s.drop_last(), inc, exc);
        assert(spec_filtered(s, inc, exc) =~= s);
    }
}

/// Applying an identical pair of narrowing sets twice keeps exactly the
/// rows one application keeps: narrowing a table is idempotent.
pub proof fn lemma_apply_filters_idempotent<V>(
    s: Seq<(Seq<char>, V)>,
    inc: Option<Set<Seq<char>>>,
    exc: Option<Set<Seq<char>>>,
)
    ensures
        spec_filtered(spec_filtered(s, inc, exc), inc, exc) == spec_filtered(s, inc, exc),
{
    lemma_filtered_all_kept(s, inc, exc);
    lemma_filtered_of_kept(spec_filtered(s, inc, exc), inc, exc);
}

/// A set of row keys, kept as a duplicate-free vector.
#[derive(Debug)]
pub struct KeySet {
    items: Vec<String>,
}

impl View for KeySet {
    type V = Set<Seq<char>>;

    closed spec fn view(&self) -> Set<Seq<char>> {
        self.items@.map_values(|s: String| s@).to_set()
    }
}

impl KeySet {
    /// The members in insertion order; the set view is their range.
    pub closed spec fn seq_view(&self) -> Seq<Seq<char>> {
        self.items@.map_values(|s: String| s@)
    }

    /// The set view collects exactly the members of the order view.
    pub broadcast proof fn lemma_view_is_seq_range(&self)
        ensures
            #[trigger] self@ == self.seq_view().to_set(),
    {
        assert(self@ =~= self.seq_view().to_set());
    }

    pub open spec fn well_formed(&self) -> bool {
        self.seq_view().no_duplicates()
    }

    pub fn new() -> (r: KeySet)
        ensures
            r@ == Set::<Seq<char>>::empty(),
            r.well_formed(),
    {
        let r = KeySet { items: Vec::new() };
        proof {
            assert(r.seq_view() =~= Seq::<Seq<char>>::empty());
            assert(r@ =~= Set::<Seq<char>>::empty());
        }
        r
    }

    pub fn contains(&self, key: &str) -> (r: bool)
        ensures
            r == self@.contains(key@),
    {
        let n = self.items.len();
        let mut i: usize = 0;
        while i < n
            invariant
                i <= n,
                n == self.items@.len(),
                n == self.seq_view().len(),
                forall|j: int| 0 <= j < i ==> self.seq_view()[j] != key@,
            decreases n - i,
        {
            if str_eq(self.items[i].as_str(), key) {
                proof {
                    assert(self.seq_view()[i as int] == key@);
                    assert(self.seq_view().contains(key@));
                    assert(self@.contains(key@));
                }
                return true;
            }
            proof {
                assert(self.seq_view()[i as int] == self.items@[i as int]@);
            }
            i = i + 1;
        }
        proof {
            if self@.contains(key@) {
                assert(self.seq_view().contains(key@));
                let w = choose|w: int|
                    0 <= w < self.seq_view().len() && self.seq_view()[w] == key@;
                assert(self.seq_view()[w] != key@);
            }
        }
        false
    }

    /// Adds `key`; adding a member again changes nothing.
    pub fn insert(&mut self, key: String)
        requires
            old(self).well_formed(),
        ensures
            final(self)@ == old(self)@.insert(key@),
            final(self).well_formed(),
    {
        if !self.contains(key.as_str()) {
            let ghost old_seq = self.seq_view();
            self.items.push(key);
            proof {
                assert(self.seq_view() =~= old_seq.push(key@));
                let sv = self.seq_view();
                assert forall|a: Seq<char>|
                    self@.contains(a) == old(self)@.insert(key@).contains(a) by {
                    if sv.contains(a) {
                        let w = choose|w: int| 0 <= w < sv.len() && sv[w] == a;
                        if w < old_seq.len() {
                            assert(old_seq[w] == a);
                            assert(old_seq.contains(a));
                        } else {
                            assert(a == key@);
                        }
                    }
                    if old_seq.contains(a) {
                        let w = choose|w: int| 0 <= w < old_seq.len() && old_seq[w] == a;
                        assert(sv[w] == a);
                        assert(sv.contains(a));
                    }
                    if a == key@ {
                        assert(sv[old_seq.len() as int] == key@);
                        assert(sv.contains(a));
                    }
                    assert(self@.contains(a) == sv.contains(a));
                    assert(old(self)@.insert(key@).contains(a) == (old_seq.contains(a) || a
                        == key@));
                }
                assert(self@ =~= old(self)@.insert(key@));
                assert(!old_seq.contains(key@));
                assert forall|x: int, y: int|
                    0 <= x < sv.len() && 0 <= y < sv.len() && x != y implies sv[x] != sv[y] by {
                    if x < old_seq.len() && y < old_seq.len() {
                        assert(old_seq[x] != old_seq[y]);
                    } else if x < old_seq.len() && y == old_seq.len() {
                        assert(old_seq.contains(old_seq[x]));
                    } else if y < old_seq.len() && x == old_seq.len() {
                        assert(old_seq.contains(old_seq[y]));
                    }
                }
            }
        } else {
            proof {
                assert(self@.contains(key@));
                assert(self@ =~= old(self)@.insert(key@));
            }
        }
    }

    /// Number of members.
    pub fn len(&self) -> (r: usize)
        requires
            self.well_formed(),
        ensures
            r == self.seq_view().len(),
            self.seq_view().len() == self@.len(),
    {
        proof {
            self.seq_view().unique_seq_to_set();
        }
        self.items.len()
    }
}

} // verus!
