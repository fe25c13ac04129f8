//! Pure aggregation over an in-memory sequence of expenses: totals per
//! category, per `YYYY-MM` month, and per `YYYY` year.
//!
//! All three functions fold the sequence into a small map of totals; they
//! touch no store and keep no state between calls.

use vstd::prelude::*;
use vstd::pervasive::VecAdditionalExecFns;
use crate::dates::check_date;
use crate::dates::month_key;
use crate::dates::valid_date;
use crate::dates::year_key;
use crate::model::Expense;
use crate::model::ExpenseModel;
use crate::model::expense_models;

verus! {

// ---------------------------------------------------------------------------
// The mathematical shape of an aggregation result.
// ---------------------------------------------------------------------------
/// No two entries share a key.
pub open spec fn distinct_keys(s: Seq<(Seq<char>, int)>) -> bool {
    forall|a: int, b: int| 0 <= a < b < s.len() ==> s[a].0 != s[b].0
}

/// The finite map held by a sequence of key/value entries, later entries
/// winning (irrelevant once keys are distinct).
pub open spec fn pairs_map(s: Seq<(Seq<char>, int)>) -> Map<Seq<char>, int>
    decreases s.len(),
{
    if s.len() == 0 {
        Map::empty()
    } else {
        pairs_map(s.drop_last()).insert(s.last().0, s.last().1)
    }
}

/// The sum of all values of a sequence of key/value entries.
pub open spec fn pairs_total(s: Seq<(Seq<char>, int)>) -> int
    decreases s.len(),
{
    if s.len() == 0 {
        0
    } else {
        pairs_total(s.drop_last()) + s.last().1
    }
}

/// The sum of the amounts of the included expenses whose key is `k`.
pub open spec fn key_sum(
    s: Seq<ExpenseModel>,
    key: spec_fn(ExpenseModel) -> Seq<char>,
    incl: spec_fn(ExpenseModel) -> bool,
    k: Seq<char>,
) -> int
    decreases s.len(),
{
    if s.len() == 0 {
        0
    } else {
        key_sum(s.drop_last(), key, incl, k) + (if incl(s.last()) && key(s.last()) == k {
            s.last().amount_cents
        } else {
            0int
        })
    }
}

/// Some included expense has the key `k`.
pub open spec fn has_key(
    s: Seq<ExpenseModel>,
    key: spec_fn(ExpenseModel) -> Seq<char>,
    incl: spec_fn(ExpenseModel) -> bool,
    k: Seq<char>,
) -> bool {
    exists|a: int| 0 <= a < s.len() && incl(#[trigger] s[a]) && key(s[a]) == k
}

/// Grouping the included expenses by `key` and summing their amounts.
pub open spec fn totals_map(
    s: Seq<ExpenseModel>,
    key: spec_fn(ExpenseModel) -> Seq<char>,
    incl: spec_fn(ExpenseModel) -> bool,
) -> Map<Seq<char>, int> {
    Map::new(
        |k: Seq<char>| has_key(s, key, incl, k),
        |k: Seq<char>| key_sum(s, key, incl, k),
    )
}

/// The sum of the amounts of the included expenses.
pub open spec fn included_total(s: Seq<ExpenseModel>, incl: spec_fn(ExpenseModel) -> bool) -> int
    decreases s.len(),
{
    if s.len() == 0 {
        0
    } else {
        included_total(s.drop_last(), incl) + (if incl(s.last()) {
            s.last().amount_cents
        } else {
            0int
        })
    }
}

pub open spec fn by_category() -> spec_fn(ExpenseModel) -> Seq<char> {
    |e: ExpenseModel| e.category
}

pub open spec fn by_month() -> spec_fn(ExpenseModel) -> Seq<char> {
    |e: ExpenseModel| month_key(e.date)
}

pub open spec fn by_year() -> spec_fn(ExpenseModel) -> Seq<char> {
    |e: ExpenseModel| year_key(e.date)
}

pub open spec fn incl_all() -> spec_fn(ExpenseModel) -> bool {
    |e: ExpenseModel| true
}

/// Monthly aggregation skips dates too short to hold a `YYYY-MM` prefix.
pub open spec fn incl_dated() -> spec_fn(ExpenseModel) -> bool {
    |e: ExpenseModel| e.date.len() >= 7
}

pub open spec fn category_totals_map(s: Seq<ExpenseModel>) -> Map<Seq<char>, int> {
    totals_map(s, by_category(), incl_all())
}

pub open spec fn monthly_totals_map(s: Seq<ExpenseModel>) -> Map<Seq<char>, int> {
    totals_map(s, by_month(), incl_dated())
}

pub open spec fn yearly_totals_map(s: Seq<ExpenseModel>) -> Map<Seq<char>, int> {
    totals_map(s, by_year(), incl_all())
}

/// The sum of the amounts of all expenses in the sequence.
pub open spec fn total_amount(s: Seq<ExpenseModel>) -> int {
    included_total(s, incl_all())
}

// ---------------------------------------------------------------------------
// Lemmas about the entry list and its map.
// ---------------------------------------------------------------------------
/// With distinct keys, membership and value of the map read off the entries.
proof fn lemma_pairs_map_get(s: Seq<(Seq<char>, int)>, k: Seq<char>)
    requires
        distinct_keys(s),
    ensures
        pairs_map(s).contains_key(k) <==> (exists|a: int| 0 <= a < s.len() && (#[trigger] s[a]).0
            == k),
        forall|a: int| 0 <= a < s.len() && (#[trigger] s[a]).0 == k ==> pairs_map(s)[k] == s[a].1,
    decreases s.len(),
{
    if s.len() > 0 {
        let d = s.drop_last();
        assert(forall|a: int| 0 <= a < d.len() ==> #[trigger] d[a] == s[a]);
        assert(distinct_keys(d));
        lemma_pairs_map_get(d, k);
        if s.last().0 == k {
            assert((#[trigger] s[s.len() - 1]).0 == k);
            assert(pairs_map(s)[k] == s.last().1);
            assert forall|a: int| 0 <= a < s.len() && (#[trigger] s[a]).0 == k implies pairs_map(
                s,
            )[k] == s[a].1 by {
                if a < s.len() - 1 {
                    assert(s[a].0 != s[s.len() - 1].0);
                }
            }
        } else {
            assert forall|a: int|
                0 <= a < s.len() && (#[trigger] s[a]).0 == k implies 0 <= a < d.len() && d[a].0
                == k by {
                assert(a != s.len() - 1);
                assert(d[a] == s[a]);
            }
            assert forall|a: int|
                0 <= a < d.len() && (#[trigger] d[a]).0 == k implies exists|b: int|
                    0 <= b < s.len() && (#[trigger] s[b]).0 == k by {
                assert(s[a] == d[a]);
                assert((#[trigger] s[a]).0 == k);
            }
            assert(pairs_map(s).contains_key(k) == pairs_map(d).contains_key(k));
            assert forall|a: int| 0 <= a < s.len() && (#[trigger] s[a]).0 == k implies pairs_map(
                s,
            )[k] == s[a].1 by {
                assert(a != s.len() - 1);
                assert(d[a] == s[a]);
                assert(pairs_map(d)[k] == d[a].1);
            }
        }
    }
}

/// Overwriting the value at one entry updates the map at that entry's key.
proof fn lemma_pairs_map_update(s: Seq<(Seq<char>, int)>, j: int, v: int)
    requires
        distinct_keys(s),
        0 <= j < s.len(),
    ensures
        pairs_map(s.update(j, (s[j].0, v))) == pairs_map(s).insert(s[j].0, v),
        distinct_keys(s.update(j, (s[j].0, v))),
        pairs_total(s.update(j, (s[j].0, v))) == pairs_total(s) - s[j].1 + v,
    decreases s.len(),
{
    let t = s.update(j, (s[j].0, v));
    assert(t.len() == s.len());
    assert(distinct_keys(t)) by {
        assert(forall|a: int| 0 <= a < t.len() ==> (#[trigger] t[a]).0 == s[a].0);
    }
    if j == s.len() - 1 {
        assert(t.drop_last() =~= s.drop_last());
        assert(t.last() == (s[j].0, v));
        assert(pairs_map(t) == pairs_map(s.drop_last()).insert(s[j].0, v));
        assert(pairs_map(s) == pairs_map(s.drop_last()).insert(s[j].0, s[j].1));
        assert(pairs_map(s).insert(s[j].0, v) =~= pairs_map(s.drop_last()).insert(s[j].0, v));
    } else {
        let d = s.drop_last();
        assert(distinct_keys(d)) by {
            assert(forall|a: int, b: int|
                0 <= a < b < d.len() ==> d[a] == s[a] && d[b] == s[b]);
        }
        lemma_pairs_map_update(d, j, v);
        assert(t.drop_last() =~= d.update(j, (d[j].0, v)));
        assert(t.last() == s.last());
        assert(d[j] == s[j]);
        assert(pairs_map(t) == pairs_map(d).insert(d[j].0, v).insert(s.last().0, s.last().1));
        assert(s.last().0 != s[j].0);
        assert(pairs_map(d).insert(s[j].0, v).insert(s.last().0, s.last().1) =~= pairs_map(
            d,
        ).insert(s.last().0, s.last().1).insert(s[j].0, v));
    }
}

/// Every value is at most the total, once all values are non-negative.
proof fn lemma_pairs_value_le_total(s: Seq<(Seq<char>, int)>, j: int)
    requires
        0 <= j < s.len(),
        forall|a: int| 0 <= a < s.len() ==> (#[trigger] s[a]).1 >= 0,
    ensures
        s[j].1 <= pairs_total(s),
    decreases s.len(),
{
    let d = s.drop_last();
    assert(forall|a: int| 0 <= a < d.len() ==> (#[trigger] d[a]).1 == s[a].1);
    if j == s.len() - 1 {
        lemma_pairs_total_nonneg(d);
    } else {
        lemma_pairs_value_le_total(d, j);
    }
}

proof fn lemma_pairs_total_nonneg(s: Seq<(Seq<char>, int)>)
    requires
        forall|a: int| 0 <= a < s.len() ==> (#[trigger] s[a]).1 >= 0,
    ensures
        pairs_total(s) >= 0,
    decreases s.len(),
{
    if s.len() > 0 {
        let d = s.drop_last();
        assert(forall|a: int| 0 <= a < d.len() ==> (#[trigger] d[a]).1 == s[a].1);
        lemma_pairs_total_nonneg(d);
    }
}

/// With distinct keys the map has exactly one key per entry.
proof fn lemma_pairs_map_dom_len(s: Seq<(Seq<char>, int)>)
    requires
        distinct_keys(s),
    ensures
        pairs_map(s).dom().finite(),
        pairs_map(s).dom().len() == s.len(),
    decreases s.len(),
{
    if s.len() > 0 {
        let d = s.drop_last();
        assert(distinct_keys(d)) by {
            assert(forall|a: int, b: int|
                0 <= a < b < d.len() ==> d[a] == s[a] && d[b] == s[b]);
        }
        lemma_pairs_map_dom_len(d);
        lemma_pairs_map_get(d, s.last().0);
        assert(!pairs_map(d).contains_key(s.last().0)) by {
            assert forall|a: int| 0 <= a < d.len() implies (#[trigger] d[a]).0 != s.last().0 by {
                assert(d[a] == s[a]);
            }
        }
        assert(pairs_map(s).dom() =~= pairs_map(d).dom().insert(s.last().0));
    } else {
        assert(pairs_map(s).dom() =~= Set::<Seq<char>>::empty());
    }
}

/// A key no included expense carries sums to nothing.
proof fn lemma_key_sum_absent(
    s: Seq<ExpenseModel>,
    key: spec_fn(ExpenseModel) -> Seq<char>,
    incl: spec_fn(ExpenseModel) -> bool,
    k: Seq<char>,
)
    requires
        !has_key(s, key, incl, k),
    ensures
        key_sum(s, key, incl, k) == 0,
    decreases s.len(),
{
    if s.len() > 0 {
        let d = s.drop_last();
        assert(!has_key(d, key, incl, k)) by {
            if has_key(d, key, incl, k) {
                let a = choose|a: int| 0 <= a < d.len() && incl(#[trigger] d[a]) && key(d[a]) == k;
                assert(s[a] == d[a]);
            }
        }
        lemma_key_sum_absent(d, key, incl, k);
        assert(s[s.len() - 1] == s.last());
    }
}

/// Appending one expense updates the totals at exactly its key.
proof fn lemma_totals_map_push(
    s: Seq<ExpenseModel>,
    key: spec_fn(ExpenseModel) -> Seq<char>,
    incl: spec_fn(ExpenseModel) -> bool,
    e: ExpenseModel,
)
    ensures
        incl(e) ==> totals_map(s.push(e), key, incl) == totals_map(s, key, incl).insert(
            key(e),
            key_sum(s, key, incl, key(e)) + e.amount_cents,
        ),
        !incl(e) ==> totals_map(s.push(e), key, incl) == totals_map(s, key, incl),
        included_total(s.push(e), incl) == included_total(s, incl) + (if incl(e) {
            e.amount_cents
        } else {
            0int
        }),
{
    let p = s.push(e);
    assert(p.drop_last() =~= s);
    assert(p.last() == e);
    assert forall|k: Seq<char>|
        has_key(p, key, incl, k) <==> (has_key(s, key, incl, k) || (incl(e) && key(e)
            == k)) by {
        if has_key(p, key, incl, k) {
            let a = choose|a: int| 0 <= a < p.len() && incl(#[trigger] p[a]) && key(p[a]) == k;
            if a < s.len() {
                assert(p[a] == s[a]);
                assert(incl(s[a]) && key(s[a]) == k);
            } else {
                assert(p[a] == e);
            }
        }
        if has_key(s, key, incl, k) {
            let a = choose|a: int| 0 <= a < s.len() && incl(#[trigger] s[a]) && key(s[a]) == k;
            assert(p[a] == s[a]);
            assert(incl(p[a]) && key(p[a]) == k);
        }
        if incl(e) && key(e) == k {
            assert(p[s.len() as int] == e);
            assert(incl(p[s.len() as int]) && key(p[s.len() as int]) == k);
        }
    }
    assert(forall|k: Seq<char>|
        key_sum(p, key, incl, k) == key_sum(s, key, incl, k) + (if incl(e) && key(e) == k {
            e.amount_cents
        } else {
            0int
        }));
    if incl(e) {
        assert(totals_map(p, key, incl) =~= totals_map(s, key, incl).insert(
            key(e),
            key_sum(s, key, incl, key(e)) + e.amount_cents,
        ));
    } else {
        assert(totals_map(p, key, incl) =~= totals_map(s, key, incl));
    }
}

// ---------------------------------------------------------------------------
// The result type of an aggregation.
// ---------------------------------------------------------------------------
/// A small map from group label to total cents, stored as a list of
/// distinct-keyed entries.
#[derive(Debug)]
pub struct Totals {
    entries: Vec<(String, u128)>,
}

impl Totals {
    /// The entries as mathematical key/value pairs.
    pub closed spec fn entries_seq(&self) -> Seq<(Seq<char>, int)> {
        self.entries@.map_values(|p: (String, u128)| (p.0@, p.1 as int))
    }

    /// The keys are distinct, so the entry list stands for its map.
    pub closed spec fn inv(&self) -> bool {
        distinct_keys(self.entries_seq())
    }

    /// The sum of all stored totals.
    pub closed spec fn sum(&self) -> int {
        pairs_total(self.entries_seq())
    }

    pub fn new() -> (t: Totals)
        ensures
            t.inv(),
            t@ == Map::<Seq<char>, int>::empty(),
            t.sum() == 0,
    {
        let t = Totals { entries: Vec::new() };
        proof {
            assert(t.entries_seq() =~= Seq::<(Seq<char>, int)>::empty());
        }
        t
    }

    /// The number of group labels held.
    pub fn len(&self) -> (n: usize)
        requires
            self.inv(),
        ensures
            n == self@.dom().len(),
            self@.dom().finite(),
    {
        proof {
            lemma_pairs_map_dom_len(self.entries_seq());
        }
        self.entries.len()
    }

    /// The total stored for a label, if the label occurs.
    pub fn get(&self, key: &str) -> (r: Option<u128>)
        requires
            self.inv(),
        ensures
            r matches Some(v) ==> self@.contains_key(key@) && v as int == self@[key@],
            r is None ==> !self@.contains_key(key@),
    {
        let kk: String = key.to_owned();
        let n = self.entries.len();
        let mut j: usize = 0;
        while j < n
            invariant
                j <= n,
                n == self.entries@.len(),
                kk@ == key@,
                self.inv(),
                forall|a: int| 0 <= a < j ==> (#[trigger] self.entries_seq()[a]).0 != key@,
            decreases n - j,
        {
            proof {
                assert(self.entries_seq()[j as int] == (self.entries@[j as int].0@, self.entries@[j as int].1 as int));
            }
            if self.entries[j].0 == kk {
                proof {
                    lemma_pairs_map_get(self.entries_seq(), key@);
                }
                return Some(self.entries[j].1);
            }
            j = j + 1;
        }
        proof {
            lemma_pairs_map_get(self.entries_seq(), key@);
        }
        None
    }

    /// The entry at one position: its label and its total.
    pub fn pair_at(&self, j: usize) -> (p: (String, u128))
        requires
            self.inv(),
            j < self.entries_seq().len(),
        ensures
            self@.contains_key(p.0@),
            self@[p.0@] == p.1 as int,
    {
        proof {
            assert(self.entries_seq()[j as int] == (self.entries@[j as int].0@, self.entries@[j as int].1 as int));
            lemma_pairs_map_get(self.entries_seq(), self.entries@[j as int].0@);
        }
        let p = &self.entries[j];
        (p.0.clone(), p.1)
    }

    /// The number of entries, for walking them with `pair_at`.
    pub fn entry_count(&self) -> (n: usize)
        ensures
            n == self.entries_seq().len(),
    {
        self.entries.len()
    }

    /// The sum of all stored totals, as a number.
    pub fn total_cents(&self) -> (t: u128)
        requires
            self.inv(),
            self.sum() <= u128::MAX,
    ensures
            t as int == self.sum(),
    {
        let n = self.entries.len();
        let mut j: usize = 0;
        let mut acc: u128 = 0;
        proof {
            assert(self.entries_seq().subrange(0, 0) =~= Seq::<(Seq<char>, int)>::empty());
        }
        while j < n
            invariant
                j <= n,
                n == self.entries@.len(),
                self.inv(),
                self.sum() <= u128::MAX,
                acc as int == pairs_total(self.entries_seq().subrange(0, j as int)),
            decreases n - j,
        {
            proof {
                let es = self.entries_seq();
                assert(forall|a: int| 0 <= a < es.len() ==> (#[trigger] es[a]).1 >= 0);
                assert(es[j as int] == (self.entries@[j as int].0@, self.entries@[j as int].1
                    as int));
                lemma_pairs_total_prefix(es, j as int + 1);
                lemma_pairs_total_prefix_le(es, j as int + 1);
            }
            acc = acc + self.entries[j].1;
            j = j + 1;
        }
        proof {
            assert(self.entries_seq().subrange(0, n as int) =~= self.entries_seq());
        }
        acc
    }

    /// Adds `amount` to the total of `key`, starting the label at zero if it
    /// is new.
    fn accumulate(&mut self, key: String, amount: u64)
        requires
            old(self).inv(),
            old(self).sum() + amount <= u128::MAX,
        ensures
            final(self).inv(),
            final(self)@ == old(self)@.insert(
                key@,
                (if old(self)@.contains_key(key@) {
                    old(self)@[key@]
                } else {
                    0int
                }) + amount,
            ),
            final(self).sum() == old(self).sum() + amount,
    {
        proof {
            assert(forall|a: int|
                0 <= a < old(self).entries_seq().len() ==> (#[trigger] old(self).entries_seq()[a]).1 >= 0);
        }
        let n = self.entries.len();
        let mut j: usize = 0;
        while j < n
            invariant
                j <= n,
                n == self.entries@.len(),
                *self == *old(self),
                old(self).inv(),
                old(self).sum() + amount <= u128::MAX,
                forall|a: int| 0 <= a < j ==> (#[trigger] self.entries_seq()[a]).0 != key@,
            decreases n - j,
        {
            proof {
                assert(self.entries_seq()[j as int] == (self.entries@[j as int].0@, self.entries@[j as int].1 as int));
            }
            if self.entries[j].0 == key {
                let v = self.entries[j].1;
                proof {
                    lemma_pairs_map_get(self.entries_seq(), key@);
                    assert(forall|a: int|
                        0 <= a < self.entries_seq().len() ==> (#[trigger] self.entries_seq()[a]).1 >= 0);
                    lemma_pairs_value_le_total(self.entries_seq(), j as int);
                }
                let nv = v + amount as u128;
                self.entries.set(j, (key, nv));
                proof {
                    let os = old(self).entries_seq();
                    assert(self.entries_seq() =~= os.update(j as int, (os[j as int].0, nv as int)));
                    lemma_pairs_map_update(os, j as int, nv as int);
                    assert(os[j as int].0 == key@);
                    assert(self@ =~= old(self)@.insert(key@, old(self)@[key@] + amount));
                }
                return ;
            }
            j = j + 1;
        }
        proof {
            lemma_pairs_map_get(self.entries_seq(), key@);
        }
        self.entries.push((key, amount as u128));
        proof {
            let os = old(self).entries_seq();
            let ns = self.entries_seq();
            assert(ns =~= os.push((key@, amount as int)));
            assert(ns.drop_last() =~= os);
            assert(distinct_keys(ns)) by {
                assert(forall|a: int| 0 <= a < os.len() ==> ns[a] == os[a]);
                assert(ns[os.len() as int].0 == key@);
            }
        }
    }
}

impl View for Totals {
    type V = Map<Seq<char>, int>;

    closed spec fn view(&self) -> Map<Seq<char>, int> {
        pairs_map(self.entries_seq())
    }
}

/// The running total of a prefix grows by the entry that joins it.
proof fn lemma_pairs_total_prefix(s: Seq<(Seq<char>, int)>, j: int)
    requires
        0 < j <= s.len(),
    ensures
        pairs_total(s.subrange(0, j)) == pairs_total(s.subrange(0, j - 1)) + s[j - 1].1,
{
    assert(s.subrange(0, j).drop_last() =~= s.subrange(0, j - 1));
    assert(s.subrange(0, j).last() == s[j - 1]);
}

/// The prefix of the total over non-negative entries never exceeds the whole.
proof fn lemma_pairs_total_prefix_le(s: Seq<(Seq<char>, int)>, j: int)
    requires
        0 <= j <= s.len(),
        forall|a: int| 0 <= a < s.len() ==> (#[trigger] s[a]).1 >= 0,
    ensures
        pairs_total(s.subrange(0, j)) <= pairs_total(s),
    decreases s.len() - j,
{
    if j < s.len() {
        lemma_pairs_total_prefix(s, j + 1);
        lemma_pairs_total_prefix_le(s, j + 1);
    } else {
        assert(s.subrange(0, j) =~= s);
    }
}

// ---------------------------------------------------------------------------
// The three aggregations.
// ---------------------------------------------------------------------------
/// A record whose date could not be read as a calendar date, reported by
/// yearly aggregation: the position of the record and the offending text.
#[derive(Debug)]
pub struct BadDate {
    pub index: usize,
    pub date: String,
}

/// Sums amounts grouped by the exact category string. Categories that do
/// not occur contribute no entry.
pub fn calculate_category_totals(expenses: &Vec<Expense>) -> (r: Totals)
    ensures
        r.inv(),
        r@ == category_totals_map(expense_models(expenses@)),
        r.sum() == total_amount(expense_models(expenses@)),
{
    let ghost models = expense_models(expenses@);
    let mut t = Totals::new();
    let mut i: usize = 0;
    proof {
        assert(models.subrange(0, 0) =~= Seq::<ExpenseModel>::empty());
    }
    while i < expenses.len()
        invariant
            i <= expenses@.len(),
            models == expense_models(expenses@),
            models.len() == expenses@.len(),
            t.inv(),
            t@ == category_totals_map(models.subrange(0, i as int)),
            t.sum() == total_amount(models.subrange(0, i as int)),
            t.sum() <= (i as int) * (u64::MAX as int),
        decreases expenses@.len() - i,
    {
        let amount = expenses[i].amount_cents;
        let key = expenses[i].category.clone();
        proof {
            let pre = models.subrange(0, i as int);
            let e = models[i as int];
            assert(e == expenses@[i as int]@);
            assert(models.subrange(0, i as int + 1) =~= pre.push(e));
            lemma_totals_map_push(pre, by_category(), incl_all(), e);
            if !has_key(pre, by_category(), incl_all(), e.category) {
                lemma_key_sum_absent(pre, by_category(), incl_all(), e.category);
            }
            lemma_sum_bound_step(t.sum(), amount as int, i as int);
        }
        t.accumulate(key, amount);
        i = i + 1;
    }
    proof {
        assert(models.subrange(0, models.len() as int) =~= models);
    }
    t
}

/// Sums amounts grouped by the `YYYY-MM` prefix of the date. Records whose
/// date is shorter than seven characters are skipped.
pub fn calculate_monthly_trends(expenses: &Vec<Expense>) -> (r: Totals)
    ensures
        r.inv(),
        r@ == monthly_totals_map(expense_models(expenses@)),
        r.sum() == included_total(expense_models(expenses@), incl_dated()),
{
    let ghost models = expense_models(expenses@);
    let mut t = Totals::new();
    let mut i: usize = 0;
    proof {
        assert(models.subrange(0, 0) =~= Seq::<ExpenseModel>::empty());
    }
    while i < expenses.len()
        invariant
            i <= expenses@.len(),
            models == expense_models(expenses@),
            models.len() == expenses@.len(),
            t.inv(),
            t@ == monthly_totals_map(models.subrange(0, i as int)),
            t.sum() == included_total(models.subrange(0, i as int), incl_dated()),
            t.sum() <= (i as int) * (u64::MAX as int),
        decreases expenses@.len() - i,
    {
        proof {
            let pre = models.subrange(0, i as int);
            let e = models[i as int];
            assert(e == expenses@[i as int]@);
            assert(models.subrange(0, i as int + 1) =~= pre.push(e));
            lemma_totals_map_push(pre, by_month(), incl_dated(), e);
            if !has_key(pre, by_month(), incl_dated(), month_key(e.date)) {
                lemma_key_sum_absent(pre, by_month(), incl_dated(), month_key(e.date));
            }
        }
        let dlen = expenses[i].date.as_str().unicode_len();
        if dlen >= 7 {
            let amount = expenses[i].amount_cents;
            let key = expenses[i].date.as_str().substring_char(0, 7).to_owned();
            proof {
                assert(key@ == month_key(models[i as int].date));
                lemma_sum_bound_step(t.sum(), amount as int, i as int);
            }
            t.accumulate(key, amount);
        }
        i = i + 1;
    }
    proof {
        assert(models.subrange(0, models.len() as int) =~= models);
    }
    t
}

/// Sums amounts grouped by calendar year. Fails on the first record whose
/// date is not a well-formed `YYYY-MM-DD` calendar date, naming that
/// record; on success every date was well-formed.
pub fn calculate_yearly_comparison(expenses: &Vec<Expense>) -> (r: Result<Totals, BadDate>)
    ensures
        r matches Ok(t) ==> {
            &&& t.inv()
            &&& forall|a: int|
                0 <= a < expenses@.len() ==> valid_date(
                    (#[trigger] expense_models(expenses@)[a]).date,
                )
            &&& t@ == yearly_totals_map(expense_models(expenses@))
            &&& t.sum() == total_amount(expense_models(expenses@))
        },
        r matches Err(b) ==> {
            &&& (b.index as int) < expenses@.len()
            &&& !valid_date(expense_models(expenses@)[b.index as int].date)
            &&& forall|a: int|
                0 <= a < b.index as int ==> valid_date(
                    (#[trigger] expense_models(expenses@)[a]).date,
                )
            &&& b.date@ == expense_models(expenses@)[b.index as int].date
        },
{
    let ghost models = expense_models(expenses@);
    let mut t = Totals::new();
    let mut i: usize = 0;
    proof {
        assert(models.subrange(0, 0) =~= Seq::<ExpenseModel>::empty());
    }
    while i < expenses.len()
        invariant
            i <= expenses@.len(),
            models == expense_models(expenses@),
            models.len() == expenses@.len(),
            t.inv(),
            t@ == yearly_totals_map(models.subrange(0, i as int)),
            t.sum() == total_amount(models.subrange(0, i as int)),
            t.sum() <= (i as int) * (u64::MAX as int),
            forall|a: int| 0 <= a < i ==> valid_date((#[trigger] models[a]).date),
        decreases expenses@.len() - i,
    {
        proof {
            assert(models[i as int] == expenses@[i as int]@);
        }
        if !check_date(expenses[i].date.as_str()) {
            return Err(BadDate { index: i, date: expenses[i].date.clone() });
        }
        let amount = expenses[i].amount_cents;
        let key = expenses[i].date.as_str().substring_char(0, 4).to_owned();
        proof {
            let pre = models.subrange(0, i as int);
            let e = models[i as int];
            assert(models.subrange(0, i as int + 1) =~= pre.push(e));
            lemma_totals_map_push(pre, by_year(), incl_all(), e);
            if !has_key(pre, by_year(), incl_all(), year_key(e.date)) {
                lemma_key_sum_absent(pre, by_year(), incl_all(), year_key(e.date));
            }
            assert(key@ == year_key(e.date));
            lemma_sum_bound_step(t.sum(), amount as int, i as int);
        }
        t.accumulate(key, amount);
        i = i + 1;
    }
    proof {
        assert(models.subrange(0, models.len() as int) =~= models);
    }
    Ok(t)
}

/// A running sum bounded by `i` terms of at most `u64::MAX` stays within
/// `u128` after one more term.
proof fn lemma_sum_bound_step(sum: int, amount: int, i: int)
    requires
        0 <= i,
        i <= u64::MAX as int,
        0 <= amount <= u64::MAX as int,
        sum <= i * (u64::MAX as int),
    ensures
        sum + amount <= (i + 1) * (u64::MAX as int),
        sum + amount <= u128::MAX as int,
{
    assert((i + 1) * (u64::MAX as int) == i * (u64::MAX as int) + u64::MAX as int)
        by (nonlinear_arith);
    assert((i + 1) * (u64::MAX as int) <= (u64::MAX as int + 1) * (u64::MAX as int))
        by (nonlinear_arith)
        requires
            0 <= i,
            i <= u64::MAX as int,
    ;
}


} // verus!
