//! The store's and aggregation engine's laws: how the contracts of the
//! operations compose across calls. Each proof function's requires are
//! exactly what the operations' own `ensures` hand a caller; its
//! conclusion is what a later call is then owed.

use vstd::prelude::*;
use vstd::seq_lib::lemma_fold_right_permutation;
use vstd::seq_lib::commutative_foldr;
use crate::model::Expense;
use crate::model::ExpenseModel;
use crate::model::UserModel;
use crate::model::expense_models;
use crate::aggregate::total_amount;
use crate::aggregate::included_total;
use crate::aggregate::has_key;
use crate::aggregate::incl_all;
use crate::aggregate::key_sum;
use crate::aggregate::totals_map;
use crate::store::bcrypt_verifies;
use crate::store::bcrypt_well_formed;
use crate::store::expense_appended;
use crate::store::user_added;

verus! {

/// The condition under which `authenticate_user` is owed a `Some`: the
/// name is stored and the stored hash verifies against the password.
pub open spec fn login_grants(
    users: Map<Seq<char>, UserModel>,
    username: Seq<char>,
    password: Seq<char>,
) -> bool {
    &&& users.contains_key(username)
    &&& bcrypt_well_formed(users[username].password_hash)
    &&& bcrypt_verifies(password, users[username].password_hash)
}

/// After a successful `add_expense` (`expense_appended`) and a successful
/// `get_expenses` (a permutation of the store's rows), the list holds
/// exactly one record more, and the new record carries the input's fields
/// under an id no earlier row had.
pub proof fn lemma_add_then_list(
    pre: Seq<ExpenseModel>,
    post: Seq<ExpenseModel>,
    e: ExpenseModel,
    listed: Seq<Expense>,
)
    requires
        expense_appended(pre, post, e),
        expense_models(listed).to_multiset() == post.to_multiset(),
    ensures
        listed.len() == pre.len() + 1,
        exists|id: int|
            {
                &&& (forall|a: int| 0 <= a < pre.len() ==> (#[trigger] pre[a]).id != id)
                &&& expense_models(listed).contains(
                    ExpenseModel {
                        id: id,
                        date: e.date,
                        amount_cents: e.amount_cents,
                        category: e.category,
                        description: e.description,
                        payment_method: e.payment_method,
                    },
                )
            },
{
    broadcast use vstd::seq_lib::group_to_multiset_ensures;

    let id = choose|id: int|
        {
            &&& id > 0
            &&& (forall|a: int| 0 <= a < pre.len() ==> (#[trigger] pre[a]).id < id)
            &&& post == pre.push(
                ExpenseModel {
                    id: id,
                    date: e.date,
                    amount_cents: e.amount_cents,
                    category: e.category,
                    description: e.description,
                    payment_method: e.payment_method,
                },
            )
        };
    let row = ExpenseModel {
        id: id,
        date: e.date,
        amount_cents: e.amount_cents,
        category: e.category,
        description: e.description,
        payment_method: e.payment_method,
    };
    assert(expense_models(listed).len() == listed.len());
    assert(expense_models(listed).to_multiset().len() == expense_models(listed).len());
    assert(post.to_multiset().len() == post.len());
    assert(post.contains(row)) by {
        assert(post[post.len() - 1] == row);
    }
    assert(expense_models(listed).to_multiset().count(row) > 0);
    assert(expense_models(listed).contains(row));
    assert(forall|a: int| 0 <= a < pre.len() ==> (#[trigger] pre[a]).id != id);
}

/// After a successful `delete_expense` of an id and a successful
/// `get_expenses`, no listed record carries that id; and a second delete
/// of the same id removes nothing more.
pub proof fn lemma_delete_then_list(
    pre: Seq<ExpenseModel>,
    post: Seq<ExpenseModel>,
    id: int,
    listed: Seq<Expense>,
)
    requires
        post == pre.filter(|e: ExpenseModel| e.id != id),
        expense_models(listed).to_multiset() == post.to_multiset(),
    ensures
        forall|a: int| 0 <= a < listed.len() ==> (#[trigger] listed[a])@.id != id,
        post.filter(|e: ExpenseModel| e.id != id) == post,
{
    broadcast use vstd::seq_lib::group_to_multiset_ensures;

    let pred = |e: ExpenseModel| e.id != id;
    assert forall|a: int| 0 <= a < post.len() implies pred(#[trigger] post[a]) by {
        pre.lemma_filter_pred(pred, a);
    }
    lemma_filter_of_clean(post, pred);
    assert forall|a: int| 0 <= a < listed.len() implies (#[trigger] listed[a])@.id != id by {
        let m = expense_models(listed);
        assert(m[a] == listed[a]@);
        assert(m.contains(m[a]));
        assert(m.to_multiset().count(m[a]) > 0);
        assert(post.contains(m[a]));
        let b = choose|b: int| 0 <= b < post.len() && post[b] == m[a];
        assert(pred(post[b]));
    }
}

/// Filtering a sequence whose members all pass the predicate returns it
/// unchanged.
proof fn lemma_filter_of_clean(s: Seq<ExpenseModel>, pred: spec_fn(ExpenseModel) -> bool)
    requires
        forall|a: int| 0 <= a < s.len() ==> pred(#[trigger] s[a]),
    ensures
        s.filter(pred) == s,
    decreases s.len(),
{
    reveal(Seq::filter);
    if s.len() > 0 {
        let d = s.drop_last();
        assert(forall|a: int| 0 <= a < d.len() ==> #[trigger] d[a] == s[a]);
        lemma_filter_of_clean(d, pred);
        assert(pred(s.last()));
        assert(s.filter(pred) =~= s);
    } else {
        assert(s.filter(pred) =~= s);
    }
}

/// After a successful `add_user` (`user_added`), the store owes the same
/// credentials a login: the name is present under a hash that verifies
/// against the password, and the stored identity carries the name. A
/// username the store does not hold is owed nothing, whatever the
/// password.
pub proof fn lemma_register_then_login(
    pre: Map<Seq<char>, UserModel>,
    post: Map<Seq<char>, UserModel>,
    username: Seq<char>,
    password: Seq<char>,
)
    requires
        user_added(pre, post, username, password),
    ensures
        login_grants(post, username, password),
        post[username].username == username,
        forall|other: Seq<char>| !post.contains_key(other) ==> !login_grants(
            post,
            other,
            password,
        ),
{
    let (id, hash) = choose|id: int, hash: Seq<char>|
        {
            &&& id > 0
            &&& bcrypt_well_formed(hash)
            &&& bcrypt_verifies(password, hash)
            &&& post == pre.insert(
                username,
                UserModel { id: id, username: username, password_hash: hash },
            )
        };
    assert(post[username] == UserModel { id: id, username: username, password_hash: hash });
}

/// `is_username_unique` answers `true` before a user is added under a
/// name and `false` after: adding flips exactly that name's presence.
pub proof fn lemma_uniqueness_flips(
    pre: Map<Seq<char>, UserModel>,
    post: Map<Seq<char>, UserModel>,
    username: Seq<char>,
    password: Seq<char>,
)
    requires
        user_added(pre, post, username, password),
    ensures
        !pre.contains_key(username),
        post.contains_key(username),
        forall|other: Seq<char>| other != username ==> post.contains_key(other)
            == pre.contains_key(other),
{
    let (id, hash) = choose|id: int, hash: Seq<char>|
        {
            &&& id > 0
            &&& bcrypt_well_formed(hash)
            &&& bcrypt_verifies(password, hash)
            &&& post == pre.insert(
                username,
                UserModel { id: id, username: username, password_hash: hash },
            )
        };
}

/// The sum of all amounts reads the sequence as a right fold.
proof fn lemma_total_amount_fold(s: Seq<ExpenseModel>, b: int)
    ensures
        s.fold_right(|e: ExpenseModel, acc: int| acc + e.amount_cents, b) == total_amount(s) + b,
    decreases s.len(),
{
    if s.len() > 0 {
        lemma_total_amount_fold(s.drop_last(), b + s.last().amount_cents);
    }
}

/// The sum of all amounts does not depend on the order of the records.
pub proof fn lemma_total_amount_permutation(s1: Seq<ExpenseModel>, s2: Seq<ExpenseModel>)
    requires
        s1.to_multiset() == s2.to_multiset(),
    ensures
        total_amount(s1) == total_amount(s2),
{
    let f = |e: ExpenseModel, acc: int| acc + e.amount_cents;
    assert(commutative_foldr(f));
    lemma_fold_right_permutation(s1, s2, f, 0);
    lemma_total_amount_fold(s1, 0);
    lemma_total_amount_fold(s2, 0);
}

/// The round trip: add one record, reload the whole list, and the sum of
/// the reloaded list's amounts — which `calculate_category_totals`
/// returns as the sum of its per-category totals — is the direct sum over
/// the records stored before plus the new record's amount, exactly.
pub proof fn lemma_totals_round_trip(
    pre: Seq<ExpenseModel>,
    post: Seq<ExpenseModel>,
    e: ExpenseModel,
    listed: Seq<Expense>,
)
    requires
        expense_appended(pre, post, e),
        expense_models(listed).to_multiset() == post.to_multiset(),
    ensures
        total_amount(expense_models(listed)) == total_amount(pre) + e.amount_cents,
{
    let id = choose|id: int|
        {
            &&& id > 0
            &&& (forall|a: int| 0 <= a < pre.len() ==> (#[trigger] pre[a]).id < id)
            &&& post == pre.push(
                ExpenseModel {
                    id: id,
                    date: e.date,
                    amount_cents: e.amount_cents,
                    category: e.category,
                    description: e.description,
                    payment_method: e.payment_method,
                },
            )
        };
    let row = ExpenseModel {
        id: id,
        date: e.date,
        amount_cents: e.amount_cents,
        category: e.category,
        description: e.description,
        payment_method: e.payment_method,
    };
    lemma_total_amount_permutation(expense_models(listed), post);
    assert(post.drop_last() =~= pre);
    assert(post.last() == row);
    assert(included_total(post, incl_all()) == included_total(pre, incl_all())
        + row.amount_cents);
}

/// A contribution of one expense to the total of one key.
spec fn key_contribution(
    key: spec_fn(ExpenseModel) -> Seq<char>,
    incl: spec_fn(ExpenseModel) -> bool,
    k: Seq<char>,
) -> spec_fn(ExpenseModel, int) -> int {
    |e: ExpenseModel, acc: int|
        acc + (if incl(e) && key(e) == k {
            e.amount_cents
        } else {
            0int
        })
}

/// A key's sum reads the sequence as a right fold.
proof fn lemma_key_sum_fold(
    s: Seq<ExpenseModel>,
    key: spec_fn(ExpenseModel) -> Seq<char>,
    incl: spec_fn(ExpenseModel) -> bool,
    k: Seq<char>,
    b: int,
)
    ensures
        s.fold_right(key_contribution(key, incl, k), b) == key_sum(s, key, incl, k) + b,
    decreases s.len(),
{
    if s.len() > 0 {
        let f = key_contribution(key, incl, k);
        lemma_key_sum_fold(s.drop_last(), key, incl, k, f(s.last(), b));
    }
}

/// Aggregation is order-independent: over two loads that hold the same
/// records, in whatever order, the grouped totals are one and the same
/// map. This covers the category, monthly and yearly groupings, which
/// differ only in `key` and `incl`.
pub proof fn lemma_totals_map_permutation(
    s1: Seq<ExpenseModel>,
    s2: Seq<ExpenseModel>,
    key: spec_fn(ExpenseModel) -> Seq<char>,
    incl: spec_fn(ExpenseModel) -> bool,
)
    requires
        s1.to_multiset() == s2.to_multiset(),
    ensures
        totals_map(s1, key, incl) == totals_map(s2, key, incl),
{
    broadcast use vstd::seq_lib::group_to_multiset_ensures;

    assert forall|k: Seq<char>| has_key(s1, key, incl, k) implies has_key(s2, key, incl, k) by {
        let a = choose|a: int| 0 <= a < s1.len() && incl(#[trigger] s1[a]) && key(s1[a]) == k;
        assert(s1.contains(s1[a]));
        assert(s2.to_multiset().count(s1[a]) > 0);
        assert(s2.contains(s1[a]));
        let b = choose|b: int| 0 <= b < s2.len() && s2[b] == s1[a];
        assert(incl(s2[b]) && key(s2[b]) == k);
    }
    assert forall|k: Seq<char>| has_key(s2, key, incl, k) implies has_key(s1, key, incl, k) by {
        let a = choose|a: int| 0 <= a < s2.len() && incl(#[trigger] s2[a]) && key(s2[a]) == k;
        assert(s2.contains(s2[a]));
        assert(s1.to_multiset().count(s2[a]) > 0);
        assert(s1.contains(s2[a]));
        let b = choose|b: int| 0 <= b < s1.len() && s1[b] == s2[a];
        assert(incl(s1[b]) && key(s1[b]) == k);
    }
    assert forall|k: Seq<char>|
        #[trigger] key_sum(s1, key, incl, k) == key_sum(s2, key, incl, k) by {
        let f = key_contribution(key, incl, k);
        assert(commutative_foldr(f));
        lemma_fold_right_permutation(s1, s2, f, 0);
        lemma_key_sum_fold(s1, key, incl, k, 0);
        lemma_key_sum_fold(s2, key, incl, k, 0);
    }
    assert(totals_map(s1, key, incl) =~= totals_map(s2, key, incl));
}

} // verus!
