//! The token ledger with its approval relations and enumeration indices.
//!
//! [`PSP34Data`] holds the global enumeration list (each live token with its
//! owner), the per-account balances, and the approval relations.  Its
//! well-formedness predicate ties the three together: token identifiers are
//! unique, each account's balance equals the number of tokens it owns, and
//! the balances sum to the supply.

use vstd::prelude::*;

use crate::errors::Error;
use crate::events::{PSP34Event, is_approval_event, is_transfer_event};
use crate::ids::{AccountId, Id, IdV, dup_opt_id, opt_id_view, opt_ref_id_eq};

verus! {

/// An approval relation entry: `(owner, operator, scope)`, where a `None`
/// scope grants authority over the owner's whole collection and a `Some`
/// scope over that one token.
pub type AllowanceEntry = (AccountId, AccountId, Option<Id>);

/// The ledger state: live tokens in global enumeration order with their
/// owners, per-account balances, and the approval relations.
pub struct PSP34Data {
    pub tokens: Vec<(Id, AccountId)>,
    pub balances: Vec<(AccountId, u32)>,
    pub allowances: Vec<AllowanceEntry>,
}

/// No token identifier occurs twice in the ledger.
pub open spec fn distinct_ids(s: Seq<(Id, AccountId)>) -> bool {
    forall|i: int, j: int|
        0 <= i < j < s.len() ==> (#[trigger] s[i]).0@ != (#[trigger] s[j]).0@
}

/// No account occurs twice in the balance table.
pub open spec fn distinct_accounts(s: Seq<(AccountId, u32)>) -> bool {
    forall|i: int, j: int|
        0 <= i < j < s.len() ==> (#[trigger] s[i]).0 != (#[trigger] s[j]).0
}

/// The owner of token `id` in the list `s`, if the token is live.
pub open spec fn spec_owner_of(s: Seq<(Id, AccountId)>, id: IdV) -> Option<AccountId>
    decreases s.len(),
{
    if s.len() == 0 {
        None
    } else if s.last().0@ == id {
        Some(s.last().1)
    } else {
        spec_owner_of(s.drop_last(), id)
    }
}

/// How many tokens of `s` are owned by `a`.
pub open spec fn count_owned(s: Seq<(Id, AccountId)>, a: AccountId) -> int
    decreases s.len(),
{
    if s.len() == 0 {
        0
    } else {
        count_owned(s.drop_last(), a) + if s.last().1 == a {
            1int
        } else {
            0int
        }
    }
}

/// The identifiers of the tokens owned by `a`, in global enumeration order.
pub open spec fn owned_ids(s: Seq<(Id, AccountId)>, a: AccountId) -> Seq<IdV>
    decreases s.len(),
{
    if s.len() == 0 {
        Seq::empty()
    } else if s.last().1 == a {
        owned_ids(s.drop_last(), a).push(s.last().0@)
    } else {
        owned_ids(s.drop_last(), a)
    }
}

/// The balance recorded for `a`, or zero when `a` has no entry.
pub open spec fn spec_balance(s: Seq<(AccountId, u32)>, a: AccountId) -> int
    decreases s.len(),
{
    if s.len() == 0 {
        0
    } else if s.last().0 == a {
        s.last().1 as int
    } else {
        spec_balance(s.drop_last(), a)
    }
}

/// The sum of all recorded balances.
pub open spec fn sum_balances(s: Seq<(AccountId, u32)>) -> int
    decreases s.len(),
{
    if s.len() == 0 {
        0
    } else {
        sum_balances(s.drop_last()) + s.last().1
    }
}

/// Whether `e` is the approval entry `(owner, operator, id)`.
pub open spec fn entry_matches(
    e: AllowanceEntry,
    owner: AccountId,
    operator: AccountId,
    id: Option<IdV>,
) -> bool {
    e.0 == owner && e.1 == operator && opt_id_view(&e.2) == id
}

/// Whether the relation `s` holds the approval entry `(owner, operator, id)`.
pub open spec fn has_entry(
    s: Seq<AllowanceEntry>,
    owner: AccountId,
    operator: AccountId,
    id: Option<IdV>,
) -> bool {
    exists|i: int| 0 <= i < s.len() && #[trigger] entry_matches(s[i], owner, operator, id)
}

/// The authorization rule: for a concrete token, the per-token approval or
/// the collection-wide approval suffices; for the whole collection, only the
/// collection-wide approval counts.
pub open spec fn spec_allowance(
    s: Seq<AllowanceEntry>,
    owner: AccountId,
    operator: AccountId,
    id: Option<IdV>,
) -> bool {
    has_entry(s, owner, operator, None) || (id is Some && has_entry(s, owner, operator, id))
}

/// Whether `caller` may move token `id` owned by `owner`.
pub open spec fn spec_authorized(
    s: Seq<AllowanceEntry>,
    caller: AccountId,
    owner: AccountId,
    id: IdV,
) -> bool {
    caller == owner || spec_allowance(s, owner, caller, Some(id))
}

/// A token found at an index is the one the lookup returns.
pub proof fn lemma_owner_of_found(s: Seq<(Id, AccountId)>, i: int)
    requires
        distinct_ids(s),
        0 <= i < s.len(),
    ensures
        spec_owner_of(s, s[i].0@) == Some(s[i].1),
    decreases s.len(),
{
    if i == s.len() - 1 {
    } else {
        assert(s.last().0@ != s[i].0@);
        assert(distinct_ids(s.drop_last())) by {
            assert(forall|p: int, q: int|
                0 <= p < q < s.drop_last().len() ==> s.drop_last()[p] == s[p] && s.drop_last()[q]
                    == s[q]);
        }
        assert(s.drop_last()[i] == s[i]);
        lemma_owner_of_found(s.drop_last(), i);
    }
}

/// The lookup misses exactly when no index holds the identifier.
pub proof fn lemma_owner_of_none(s: Seq<(Id, AccountId)>, id: IdV)
    ensures
        (spec_owner_of(s, id) is None) <==> (forall|i: int|
            0 <= i < s.len() ==> (#[trigger] s[i]).0@ != id),
    decreases s.len(),
{
    if s.len() == 0 {
    } else {
        lemma_owner_of_none(s.drop_last(), id);
        assert(forall|i: int| 0 <= i < s.len() - 1 ==> s.drop_last()[i] == s[i]);
        if s.last().0@ == id {
            assert(s[s.len() - 1].0@ == id);
        }
    }
}

/// Each owned token makes the owner's count positive.
pub proof fn lemma_count_positive(s: Seq<(Id, AccountId)>, i: int)
    requires
        0 <= i < s.len(),
    ensures
        count_owned(s, s[i].1) >= 1,
    decreases s.len(),
{
    if i == s.len() - 1 {
        assert(count_owned(s.drop_last(), s[i].1) >= 0) by {
            lemma_count_nonneg(s.drop_last(), s[i].1);
        }
    } else {
        assert(s.drop_last()[i] == s[i]);
        lemma_count_positive(s.drop_last(), i);
    }
}

/// A count of tokens is never negative.
pub proof fn lemma_count_nonneg(s: Seq<(Id, AccountId)>, a: AccountId)
    ensures
        count_owned(s, a) >= 0,
    decreases s.len(),
{
    if s.len() == 0 {
    } else {
        lemma_count_nonneg(s.drop_last(), a);
    }
}

/// The owner sequence is as long as the owner's count.
pub proof fn lemma_owned_ids_len(s: Seq<(Id, AccountId)>, a: AccountId)
    ensures
        owned_ids(s, a).len() == count_owned(s, a),
    decreases s.len(),
{
    if s.len() == 0 {
    } else {
        lemma_owned_ids_len(s.drop_last(), a);
        lemma_count_nonneg(s.drop_last(), a);
    }
}

/// How every owner's count changes when one slot of the list is overwritten.
pub proof fn lemma_count_update(s: Seq<(Id, AccountId)>, i: int, e: (Id, AccountId))
    requires
        0 <= i < s.len(),
    ensures
        forall|a: AccountId| #[trigger] count_owned(s.update(i, e), a) == count_owned(s, a) - (
        if s[i].1 == a {
            1int
        } else {
            0int
        }) + (
        if e.1 == a {
            1int
        } else {
            0int
        }),
{
    assert forall|a: AccountId| #[trigger] count_owned(s.update(i, e), a) == count_owned(s, a) - (
    if s[i].1 == a {
        1int
    } else {
        0int
    }) + (
    if e.1 == a {
        1int
    } else {
        0int
    }) by {
        lemma_count_update_one(s, i, e, a);
    }
}

proof fn lemma_count_update_one(s: Seq<(Id, AccountId)>, i: int, e: (Id, AccountId), a: AccountId)
    requires
        0 <= i < s.len(),
    ensures
        count_owned(s.update(i, e), a) == count_owned(s, a) - (
        if s[i].1 == a {
            1int
        } else {
            0int
        }) + (
        if e.1 == a {
            1int
        } else {
            0int
        }),
    decreases s.len(),
{
    let t = s.update(i, e);
    if i == s.len() - 1 {
        assert(t.drop_last() =~= s.drop_last());
        assert(t.last() == e);
    } else {
        assert(t.drop_last() =~= s.drop_last().update(i, e));
        assert(t.last() == s.last());
        assert(s.drop_last()[i] == s[i]);
        lemma_count_update_one(s.drop_last(), i, e, a);
    }
}

/// How every owner's count changes when the last slot is dropped.
pub proof fn lemma_count_drop_last(s: Seq<(Id, AccountId)>)
    requires
        s.len() > 0,
    ensures
        forall|a: AccountId| #[trigger] count_owned(s.drop_last(), a) == count_owned(s, a) - (
        if s.last().1 == a {
            1int
        } else {
            0int
        }),
{
}

/// The balance table keeps its keys unique when a slot's value is replaced.
pub proof fn lemma_distinct_accounts_update(s: Seq<(AccountId, u32)>, i: int, v: u32)
    requires
        distinct_accounts(s),
        0 <= i < s.len(),
    ensures
        distinct_accounts(s.update(i, (s[i].0, v))),
{
    let t = s.update(i, (s[i].0, v));
    assert(forall|p: int, q: int| 0 <= p < q < t.len() ==> t[p].0 == s[p].0 && t[q].0 == s[q].0);
}

/// The balance an index holds is the balance the lookup returns.
pub proof fn lemma_balance_found(s: Seq<(AccountId, u32)>, i: int)
    requires
        distinct_accounts(s),
        0 <= i < s.len(),
    ensures
        spec_balance(s, s[i].0) == s[i].1 as int,
    decreases s.len(),
{
    if i == s.len() - 1 {
    } else {
        assert(s.last().0 != s[i].0);
        assert(distinct_accounts(s.drop_last())) by {
            assert(forall|p: int, q: int|
                0 <= p < q < s.drop_last().len() ==> s.drop_last()[p] == s[p] && s.drop_last()[q]
                    == s[q]);
        }
        assert(s.drop_last()[i] == s[i]);
        lemma_balance_found(s.drop_last(), i);
    }
}

/// The lookup returns zero exactly when no index holds the account.
pub proof fn lemma_balance_none(s: Seq<(AccountId, u32)>, a: AccountId)
    requires
        forall|i: int| 0 <= i < s.len() ==> (#[trigger] s[i]).0 != a,
    ensures
        spec_balance(s, a) == 0,
    decreases s.len(),
{
    if s.len() == 0 {
    } else {
        assert(forall|i: int| 0 <= i < s.len() - 1 ==> s.drop_last()[i] == s[i]);
        lemma_balance_none(s.drop_last(), a);
    }
}

/// A recorded balance never exceeds the balance type's range.
pub proof fn lemma_balance_le_max(s: Seq<(AccountId, u32)>, a: AccountId)
    ensures
        spec_balance(s, a) <= u32::MAX,
    decreases s.len(),
{
    if s.len() == 0 {
    } else {
        lemma_balance_le_max(s.drop_last(), a);
    }
}

/// How every account's balance reads after one slot's value is replaced.
pub proof fn lemma_balance_update(s: Seq<(AccountId, u32)>, i: int, v: u32)
    requires
        distinct_accounts(s),
        0 <= i < s.len(),
    ensures
        forall|b: AccountId| #[trigger] spec_balance(s.update(i, (s[i].0, v)), b) == if b == s[i].0 {
            v as int
        } else {
            spec_balance(s, b)
        },
{
    assert forall|b: AccountId| #[trigger] spec_balance(s.update(i, (s[i].0, v)), b) == if b
        == s[i].0 {
        v as int
    } else {
        spec_balance(s, b)
    } by {
        lemma_balance_update_one(s, i, v, b);
    }
}

proof fn lemma_balance_update_one(s: Seq<(AccountId, u32)>, i: int, v: u32, b: AccountId)
    requires
        distinct_accounts(s),
        0 <= i < s.len(),
    ensures
        spec_balance(s.update(i, (s[i].0, v)), b) == if b == s[i].0 {
            v as int
        } else {
            spec_balance(s, b)
        },
    decreases s.len(),
{
    let t = s.update(i, (s[i].0, v));
    if i == s.len() - 1 {
        assert(t.drop_last() =~= s.drop_last());
    } else {
        assert(t.drop_last() =~= s.drop_last().update(i, (s[i].0, v)));
        assert(t.last() == s.last());
        assert(s.drop_last()[i] == s[i]);
        assert(distinct_accounts(s.drop_last())) by {
            assert(forall|p: int, q: int|
                0 <= p < q < s.drop_last().len() ==> s.drop_last()[p] == s[p] && s.drop_last()[q]
                    == s[q]);
        }
        lemma_balance_update_one(s.drop_last(), i, v, b);
        assert(s.last().0 != s[i].0);
    }
}

/// How every account's balance reads after a fresh account is appended.
pub proof fn lemma_balance_push(s: Seq<(AccountId, u32)>, e: (AccountId, u32))
    requires
        forall|i: int| 0 <= i < s.len() ==> (#[trigger] s[i]).0 != e.0,
    ensures
        forall|b: AccountId| #[trigger] spec_balance(s.push(e), b) == if b == e.0 {
            e.1 as int
        } else {
            spec_balance(s, b)
        },
        distinct_accounts(s) ==> distinct_accounts(s.push(e)),
{
    let t = s.push(e);
    assert(t.drop_last() =~= s);
    assert(t.last() == e);
    if distinct_accounts(s) {
        assert(forall|p: int| 0 <= p < s.len() ==> t[p] == s[p]);
    }
}

/// How the balance sum changes when one slot's value is replaced.
pub proof fn lemma_sum_update(s: Seq<(AccountId, u32)>, i: int, v: u32)
    requires
        0 <= i < s.len(),
    ensures
        sum_balances(s.update(i, (s[i].0, v))) == sum_balances(s) - s[i].1 + v,
    decreases s.len(),
{
    let t = s.update(i, (s[i].0, v));
    if i == s.len() - 1 {
        assert(t.drop_last() =~= s.drop_last());
    } else {
        assert(t.drop_last() =~= s.drop_last().update(i, (s[i].0, v)));
        assert(t.last() == s.last());
        assert(s.drop_last()[i] == s[i]);
        lemma_sum_update(s.drop_last(), i, v);
    }
}

/// The balance sum grows by the appended entry's value.
pub proof fn lemma_sum_push(s: Seq<(AccountId, u32)>, e: (AccountId, u32))
    ensures
        sum_balances(s.push(e)) == sum_balances(s) + e.1,
{
    assert(s.push(e).drop_last() =~= s);
}

/// Membership in a relation, split at the last entry.
pub proof fn lemma_has_entry_drop_last(s: Seq<AllowanceEntry>)
    requires
        s.len() > 0,
    ensures
        forall|o: AccountId, p: AccountId, x: Option<IdV>| #[trigger] has_entry(s, o, p, x) == (
        has_entry(s.drop_last(), o, p, x) || entry_matches(s.last(), o, p, x)),
{
    assert forall|o: AccountId, p: AccountId, x: Option<IdV>| #[trigger] has_entry(s, o, p, x) == (
    has_entry(s.drop_last(), o, p, x) || entry_matches(s.last(), o, p, x)) by {
        if has_entry(s, o, p, x) {
            let i = choose|i: int| 0 <= i < s.len() && #[trigger] entry_matches(s[i], o, p, x);
            if i < s.len() - 1 {
                assert(s.drop_last()[i] == s[i]);
                assert(entry_matches(s.drop_last()[i], o, p, x));
            }
        }
        if has_entry(s.drop_last(), o, p, x) {
            let i = choose|i: int|
                0 <= i < s.drop_last().len() && #[trigger] entry_matches(
                    s.drop_last()[i],
                    o,
                    p,
                    x,
                );
            assert(s[i] == s.drop_last()[i]);
            assert(entry_matches(s[i], o, p, x));
        }
        if entry_matches(s.last(), o, p, x) {
            assert(entry_matches(s[s.len() - 1], o, p, x));
        }
    }
}

/// Membership in a relation, split at an appended entry.
pub proof fn lemma_has_entry_push(s: Seq<AllowanceEntry>, e: AllowanceEntry)
    ensures
        forall|o: AccountId, p: AccountId, x: Option<IdV>| #[trigger] has_entry(s.push(e), o, p, x)
            == (has_entry(s, o, p, x) || entry_matches(e, o, p, x)),
{
    assert(s.push(e).drop_last() =~= s);
    assert(s.push(e).last() == e);
    lemma_has_entry_drop_last(s.push(e));
}

} // verus!

verus! {

/// The mathematical value of an optional borrowed identifier.
pub open spec fn opt_ref_view(o: Option<&Id>) -> Option<IdV> {
    match o {
        Some(id) => Some(id@),
        None => None,
    }
}

/// How the per-token lookup changes when the token at index `i` is removed
/// by swapping the last entry into its place.
pub proof fn lemma_owner_of_swap_remove(s: Seq<(Id, AccountId)>, i: int)
    requires
        distinct_ids(s),
        0 <= i < s.len(),
    ensures
        distinct_ids(s.update(i, s.last()).drop_last()),
        forall|x: IdV| #[trigger] spec_owner_of(s.update(i, s.last()).drop_last(), x) == (
        if x == s[i].0@ {
            None::<AccountId>
        } else {
            spec_owner_of(s, x)
        }),
{
    let t = s.update(i, s.last()).drop_last();
    let n = s.len() as int;
    assert forall|p: int, q: int| 0 <= p < q < t.len() implies (#[trigger] t[p]).0@ != (
    #[trigger] t[q]).0@ by {
        assert(t[p] == if p == i {
            s[n - 1]
        } else {
            s[p]
        });
        assert(t[q] == if q == i {
            s[n - 1]
        } else {
            s[q]
        });
    }
    assert forall|x: IdV| #[trigger] spec_owner_of(t, x) == (
    if x == s[i].0@ {
        None::<AccountId>
    } else {
        spec_owner_of(s, x)
    }) by {
        lemma_owner_of_none(t, x);
        lemma_owner_of_none(s, x);
        if x == s[i].0@ {
            assert forall|k: int| 0 <= k < t.len() implies (#[trigger] t[k]).0@ != x by {
                assert(t[k] == if k == i {
                    s[n - 1]
                } else {
                    s[k]
                });
                if k == i {
                    assert(i < n - 1);
                }
            }
        } else {
            if spec_owner_of(s, x) is Some {
                assert(!(forall|k: int| 0 <= k < s.len() ==> (#[trigger] s[k]).0@ != x));
                let j = choose|j: int| 0 <= j < s.len() && (#[trigger] s[j]).0@ == x;
                lemma_owner_of_found(s, j);
                if j == n - 1 {
                    assert(i < n - 1);
                    assert(t[i] == s[n - 1]);
                    lemma_owner_of_found(t, i);
                } else {
                    assert(j != i);
                    assert(t[j] == s[j]);
                    lemma_owner_of_found(t, j);
                }
            } else {
                assert forall|k: int| 0 <= k < t.len() implies (#[trigger] t[k]).0@ != x by {
                    assert(t[k] == if k == i {
                        s[n - 1]
                    } else {
                        s[k]
                    });
                }
            }
        }
    }
}

/// Finds the index of an account in the balance table.
fn find_account(bal: &Vec<(AccountId, u32)>, a: AccountId) -> (r: Option<usize>)
    ensures
        match r {
            Some(i) => i < bal@.len() && bal@[i as int].0 == a,
            None => forall|j: int| 0 <= j < bal@.len() ==> (#[trigger] bal@[j]).0 != a,
        },
{
    let mut i: usize = 0;
    while i < bal.len()
        invariant
            i <= bal@.len(),
            forall|j: int| 0 <= j < i ==> (#[trigger] bal@[j]).0 != a,
        decreases bal@.len() - i,
    {
        if bal[i].0 == a {
            return Some(i);
        }
        i += 1;
    }
    None
}

/// Raises an account's balance by one.
fn balance_inc(bal: &mut Vec<(AccountId, u32)>, a: AccountId)
    requires
        distinct_accounts(old(bal)@),
        spec_balance(old(bal)@, a) < u32::MAX,
    ensures
        distinct_accounts(final(bal)@),
        forall|b: AccountId| #[trigger] spec_balance(final(bal)@, b) == spec_balance(old(bal)@, b)
            + (if b == a {
            1int
        } else {
            0int
        }),
        sum_balances(final(bal)@) == sum_balances(old(bal)@) + 1,
{
    let ghost s = bal@;
    match find_account(bal, a) {
        Some(i) => {
            let v = bal[i].1;
            proof {
                lemma_balance_found(s, i as int);
            }
            bal[i] = (a, v + 1);
            proof {
                assert(bal@ == s.update(i as int, (s[i as int].0, (v + 1) as u32)));
                lemma_balance_update(s, i as int, (v + 1) as u32);
                lemma_sum_update(s, i as int, (v + 1) as u32);
                lemma_distinct_accounts_update(s, i as int, (v + 1) as u32);
            }
        },
        None => {
            proof {
                lemma_balance_none(s, a);
            }
            bal.push((a, 1));
            proof {
                lemma_balance_push(s, (a, 1u32));
                lemma_sum_push(s, (a, 1u32));
            }
        },
    }
}

/// Lowers an account's balance by one.
fn balance_dec(bal: &mut Vec<(AccountId, u32)>, a: AccountId)
    requires
        distinct_accounts(old(bal)@),
        spec_balance(old(bal)@, a) >= 1,
    ensures
        distinct_accounts(final(bal)@),
        forall|b: AccountId| #[trigger] spec_balance(final(bal)@, b) == spec_balance(old(bal)@, b)
            - (if b == a {
            1int
        } else {
            0int
        }),
        sum_balances(final(bal)@) == sum_balances(old(bal)@) - 1,
{
    let ghost s = bal@;
    match find_account(bal, a) {
        Some(i) => {
            let v = bal[i].1;
            proof {
                lemma_balance_found(s, i as int);
            }
            bal[i] = (a, v - 1);
            proof {
                assert(bal@ == s.update(i as int, (s[i as int].0, (v - 1) as u32)));
                lemma_balance_update(s, i as int, (v - 1) as u32);
                lemma_sum_update(s, i as int, (v - 1) as u32);
                lemma_distinct_accounts_update(s, i as int, (v - 1) as u32);
            }
        },
        None => {
            proof {
                lemma_balance_none(s, a);
            }
            assert(false);
        },
    }
}

/// Tests whether the relation holds the entry `(owner, operator, id)`.
fn has_entry_exec(
    al: &Vec<AllowanceEntry>,
    owner: AccountId,
    operator: AccountId,
    id: Option<&Id>,
) -> (r: bool)
    ensures
        r == has_entry(al@, owner, operator, opt_ref_view(id)),
{
    let ghost x = opt_ref_view(id);
    let mut i: usize = 0;
    while i < al.len()
        invariant
            i <= al@.len(),
            x == opt_ref_view(id),
            forall|j: int| 0 <= j < i ==> !entry_matches(#[trigger] al@[j], owner, operator, x),
        decreases al@.len() - i,
    {
        let e = &al[i];
        if e.0 == owner && e.1 == operator && opt_ref_id_eq(&e.2, id) {
            proof {
                assert(entry_matches(al@[i as int], owner, operator, x));
            }
            return true;
        }
        i += 1;
    }
    proof {
        assert(!has_entry(al@, owner, operator, x)) by {
            if has_entry(al@, owner, operator, x) {
                let j = choose|j: int|
                    0 <= j < al@.len() && #[trigger] entry_matches(al@[j], owner, operator, x);
            }
        }
    }
    false
}

/// Removes every approval entry scoped to token `id`, whoever granted it.
fn clear_token_allowances(al: &mut Vec<AllowanceEntry>, id: &Id)
    ensures
        forall|o: AccountId, p: AccountId| !has_entry(final(al)@, o, p, Some(id@)),
        forall|o: AccountId, p: AccountId, x: Option<IdV>|
            x != Some(id@) ==> #[trigger] has_entry(final(al)@, o, p, x) == has_entry(
                old(al)@,
                o,
                p,
                x,
            ),
{
    let ghost s = al@;
    let mut out: Vec<AllowanceEntry> = Vec::new();
    let mut i: usize = 0;
    while i < al.len()
        invariant
            al@ == s,
            i <= s.len(),
            forall|o: AccountId, p: AccountId| !has_entry(out@, o, p, Some(id@)),
            forall|o: AccountId, p: AccountId, x: Option<IdV>|
                x != Some(id@) ==> #[trigger] has_entry(out@, o, p, x) == has_entry(
                    s.take(i as int),
                    o,
                    p,
                    x,
                ),
        decreases s.len() - i,
    {
        let e = &al[i];
        let keep = match &e.2 {
            Some(t) => !t.eq_id(id),
            None => true,
        };
        let ghost outpre = out@;
        if keep {
            out.push((e.0, e.1, dup_opt_id(&e.2)));
            proof {
                lemma_has_entry_push(outpre, out@.last());
            }
        }
        proof {
            assert(s.take(i as int + 1).drop_last() =~= s.take(i as int));
            assert(s.take(i as int + 1).last() == s[i as int]);
            lemma_has_entry_drop_last(s.take(i as int + 1));
        }
        i += 1;
    }
    proof {
        assert(s.take(s.len() as int) =~= s);
    }
    *al = out;
}

/// Removes every approval entry `(owner, operator, id)`.
fn remove_allowance(al: &mut Vec<AllowanceEntry>, owner: AccountId, operator: AccountId, id: Option<
    &Id,
>)
    ensures
        !has_entry(final(al)@, owner, operator, opt_ref_view(id)),
        forall|o: AccountId, p: AccountId, x: Option<IdV>|
            !(o == owner && p == operator && x == opt_ref_view(id)) ==> #[trigger] has_entry(
                final(al)@,
                o,
                p,
                x,
            ) == has_entry(old(al)@, o, p, x),
{
    let ghost s = al@;
    let ghost xx = opt_ref_view(id);
    let mut out: Vec<AllowanceEntry> = Vec::new();
    let mut i: usize = 0;
    while i < al.len()
        invariant
            al@ == s,
            i <= s.len(),
            xx == opt_ref_view(id),
            !has_entry(out@, owner, operator, xx),
            forall|o: AccountId, p: AccountId, x: Option<IdV>|
                !(o == owner && p == operator && x == xx) ==> #[trigger] has_entry(out@, o, p, x)
                    == has_entry(s.take(i as int), o, p, x),
        decreases s.len() - i,
    {
        let e = &al[i];
        let keep = !(e.0 == owner && e.1 == operator && opt_ref_id_eq(&e.2, id));
        let ghost outpre = out@;
        if keep {
            out.push((e.0, e.1, dup_opt_id(&e.2)));
            proof {
                lemma_has_entry_push(outpre, out@.last());
            }
        }
        proof {
            assert(s.take(i as int + 1).drop_last() =~= s.take(i as int));
            assert(s.take(i as int + 1).last() == s[i as int]);
            lemma_has_entry_drop_last(s.take(i as int + 1));
        }
        i += 1;
    }
    proof {
        assert(s.take(s.len() as int) =~= s);
    }
    *al = out;
}

/// Grants the approval entry `(owner, operator, id)`.
fn add_allowance(al: &mut Vec<AllowanceEntry>, owner: AccountId, operator: AccountId, id: Option<
    Id,
>)
    ensures
        has_entry(final(al)@, owner, operator, opt_id_view(&id)),
        forall|o: AccountId, p: AccountId, x: Option<IdV>|
            !(o == owner && p == operator && x == opt_id_view(&id)) ==> #[trigger] has_entry(
                final(al)@,
                o,
                p,
                x,
            ) == has_entry(old(al)@, o, p, x),
{
    let ghost s = al@;
    let ghost xx = opt_id_view(&id);
    al.push((owner, operator, id));
    proof {
        lemma_has_entry_push(s, al@.last());
        assert(entry_matches(al@.last(), owner, operator, xx));
    }
}

} // verus!

verus! {

impl PSP34Data {
    /// Well-formedness: unique token identifiers, unique balance keys, each
    /// balance equal to its owner's token count, and balances summing to the
    /// supply.  Every operation preserves it.
    pub open spec fn wf(&self) -> bool {
        &&& distinct_ids(self.tokens@)
        &&& distinct_accounts(self.balances@)
        &&& forall|a: AccountId| #[trigger] spec_balance(self.balances@, a) == count_owned(
            self.tokens@,
            a,
        )
        &&& sum_balances(self.balances@) == self.tokens@.len()
    }

    /// An empty ledger: no tokens, no balances, no approvals.
    pub fn new() -> (r: PSP34Data)
        ensures
            r.wf(),
            r.tokens@.len() == 0,
            r.balances@.len() == 0,
            r.allowances@.len() == 0,
    {
        PSP34Data { tokens: Vec::new(), balances: Vec::new(), allowances: Vec::new() }
    }

    /// Finds the index of a token in the global enumeration list.
    fn find_token(&self, id: &Id) -> (r: Option<usize>)
        requires
            distinct_ids(self.tokens@),
        ensures
            match r {
                Some(i) => i < self.tokens@.len() && self.tokens@[i as int].0@ == id@
                    && spec_owner_of(self.tokens@, id@) == Some(self.tokens@[i as int].1),
                None => spec_owner_of(self.tokens@, id@) is None,
            },
    {
        let mut i: usize = 0;
        while i < self.tokens.len()
            invariant
                distinct_ids(self.tokens@),
                i <= self.tokens@.len(),
                forall|j: int| 0 <= j < i ==> (#[trigger] self.tokens@[j]).0@ != id@,
            decreases self.tokens@.len() - i,
        {
            if self.tokens[i].0.eq_id(id) {
                proof {
                    lemma_owner_of_found(self.tokens@, i as int);
                }
                return Some(i);
            }
            i += 1;
        }
        proof {
            lemma_owner_of_none(self.tokens@, id@);
        }
        None
    }

    /// The owner of token `id`, if the token is live.
    pub fn owner_of(&self, id: &Id) -> (r: Option<AccountId>)
        requires
            distinct_ids(self.tokens@),
        ensures
            r == spec_owner_of(self.tokens@, id@),
    {
        match self.find_token(id) {
            Some(i) => Some(self.tokens[i].1),
            None => None,
        }
    }

    /// How many tokens `owner` currently holds.
    pub fn balance_of(&self, owner: AccountId) -> (r: u32)
        requires
            distinct_accounts(self.balances@),
        ensures
            r as int == spec_balance(self.balances@, owner),
    {
        match find_account(&self.balances, owner) {
            Some(i) => {
                proof {
                    lemma_balance_found(self.balances@, i as int);
                }
                self.balances[i].1
            },
            None => {
                proof {
                    lemma_balance_none(self.balances@, owner);
                }
                0
            },
        }
    }

    /// The number of live tokens.
    pub fn total_supply(&self) -> (r: u128)
        ensures
            r == self.tokens@.len() as u128,
    {
        self.tokens.len() as u128
    }

    /// The registry's own identity as an identifier, independent of any
    /// single token.
    pub fn collection_id(&self, account: AccountId) -> (r: Id)
        ensures
            r@ == IdV::U128(account.raw),
    {
        Id::U128(account.raw)
    }

    /// Whether `operator` is authorized by `owner`: for a concrete token,
    /// through the per-token or the collection-wide approval; for `None`,
    /// through the collection-wide approval alone.
    pub fn allowance(&self, owner: AccountId, operator: AccountId, id: Option<&Id>) -> (r: bool)
        ensures
            r == spec_allowance(self.allowances@, owner, operator, opt_ref_view(id)),
    {
        if has_entry_exec(&self.allowances, owner, operator, None) {
            return true;
        }
        match id {
            Some(t) => has_entry_exec(&self.allowances, owner, operator, Some(t)),
            None => false,
        }
    }

    /// Creates token `id` owned by `to`.
    ///
    /// Fails with `TokenExists` when the identifier is already live, and with
    /// `SupplyOverflow` when the recipient's balance cannot be raised; a
    /// failing call leaves the ledger unchanged.
    pub fn mint(&mut self, to: AccountId, id: Id) -> (r: Result<Vec<PSP34Event>, Error>)
        requires
            old(self).wf(),
        ensures
            final(self).wf(),
            spec_owner_of(old(self).tokens@, id@) is Some ==> (r matches Err(Error::TokenExists)
                && *final(self) == *old(self)),
            spec_owner_of(old(self).tokens@, id@) is None && spec_balance(old(self).balances@, to)
                == u32::MAX ==> (r matches Err(Error::SupplyOverflow) && *final(self) == *old(
                self,
            )),
            spec_owner_of(old(self).tokens@, id@) is None && spec_balance(old(self).balances@, to)
                < u32::MAX ==> {
                &&& r matches Ok(ev) && ev@.len() == 1 && is_transfer_event(
                    ev@[0],
                    None,
                    Some(to),
                    id@,
                )
                &&& final(self).tokens@.len() == old(self).tokens@.len() + 1
                &&& forall|j: int|
                    0 <= j < old(self).tokens@.len() ==> final(self).tokens@[j] == old(self).tokens@[j]
                &&& final(self).tokens@.last().0@ == id@ && final(self).tokens@.last().1 == to
                &&& spec_owner_of(final(self).tokens@, id@) == Some(to)
                &&& forall|x: IdV|
                    x != id@ ==> #[trigger] spec_owner_of(final(self).tokens@, x) == spec_owner_of(
                        old(self).tokens@,
                        x,
                    )
                &&& forall|b: AccountId| #[trigger] spec_balance(final(self).balances@, b)
                    == spec_balance(old(self).balances@, b) + (if b == to {
                    1int
                } else {
                    0int
                })
                &&& final(self).allowances@ == old(self).allowances@
            },
    {
        if self.find_token(&id).is_some() {
            return Err(Error::TokenExists);
        }
        let b = self.balance_of(to);
        if b == u32::MAX {
            return Err(Error::SupplyOverflow);
        }
        let ghost ts = self.tokens@;
        let id2 = id.dup();
        self.tokens.push((id2, to));
        proof {
            assert(self.tokens@.drop_last() =~= ts);
            assert forall|p: int, q: int|
                0 <= p < q < self.tokens@.len() implies (#[trigger] self.tokens@[p]).0@ != (
            #[trigger] self.tokens@[q]).0@ by {
                lemma_owner_of_none(ts, ts[p].0@);
                if q < self.tokens@.len() - 1 {
                    assert(self.tokens@[p] == ts[p] && self.tokens@[q] == ts[q]);
                } else {
                    assert(self.tokens@[q].0@ == id@);
                    lemma_owner_of_none(ts, id@);
                }
            }
            assert forall|x: IdV|
                x != id@ implies #[trigger] spec_owner_of(self.tokens@, x) == spec_owner_of(
                ts,
                x,
            ) by {
                assert(self.tokens@.last().0@ == id@);
            }
            assert forall|a: AccountId| #[trigger] count_owned(self.tokens@, a) == count_owned(
                ts,
                a,
            ) + (if a == to {
                1int
            } else {
                0int
            }) by {
                assert(self.tokens@.drop_last() =~= ts);
            }
        }
        balance_inc(&mut self.balances, to);
        let mut events: Vec<PSP34Event> = Vec::new();
        events.push(PSP34Event::Transfer { from: None, to: Some(to), id });
        Ok(events)
    }

    /// Moves token `id` to account `to`, on the authority of `caller`.
    ///
    /// Fails with `TokenNotExists` when the token is not live, `NotApproved`
    /// when the caller is neither owner nor authorized operator, and
    /// `SupplyOverflow` when the recipient's balance cannot be raised; a
    /// failing call leaves the ledger unchanged.  On success every per-token
    /// approval for `id` is cleared before anything else can observe the
    /// state, so authority over the token cannot outlive the previous owner.
    pub fn transfer(&mut self, caller: AccountId, to: AccountId, id: Id, _data: Vec<u8>) -> (r:
        Result<Vec<PSP34Event>, Error>)
        requires
            old(self).wf(),
        ensures
            final(self).wf(),
            spec_owner_of(old(self).tokens@, id@) is None ==> (r matches Err(
                Error::TokenNotExists,
            ) && *final(self) == *old(self)),
            spec_owner_of(old(self).tokens@, id@) matches Some(ow) ==> {
                &&& !spec_authorized(old(self).allowances@, caller, ow, id@) ==> (r matches Err(
                    Error::NotApproved,
                ) && *final(self) == *old(self))
                &&& (spec_authorized(old(self).allowances@, caller, ow, id@) && to != ow
                    && spec_balance(old(self).balances@, to) == u32::MAX) ==> (r matches Err(
                    Error::SupplyOverflow,
                ) && *final(self) == *old(self))
                &&& (spec_authorized(old(self).allowances@, caller, ow, id@) && (to == ow
                    || spec_balance(old(self).balances@, to) < u32::MAX)) ==> {
                &&& r matches Ok(ev) && ev@.len() == 1 && is_transfer_event(
                    ev@[0],
                    Some(ow),
                    Some(to),
                    id@,
                )
                &&& final(self).tokens@.len() == old(self).tokens@.len()
                &&& forall|j: int|
                    0 <= j < old(self).tokens@.len() && old(self).tokens@[j].0@ != id@ ==> final(self).tokens@[j] == old(self).tokens@[j]
                &&& spec_owner_of(final(self).tokens@, id@) == Some(to)
                &&& forall|j: int|
                    0 <= j < old(self).tokens@.len() && old(self).tokens@[j].0@ == id@ ==> final(self).tokens@[j].0@ == id@ && final(self).tokens@[j].1 == to
                &&& forall|x: IdV|
                    x != id@ ==> #[trigger] spec_owner_of(final(self).tokens@, x) == spec_owner_of(
                        old(self).tokens@,
                        x,
                    )
                &&& forall|b: AccountId| #[trigger] spec_balance(final(self).balances@, b)
                    == spec_balance(old(self).balances@, b) - (if b == ow {
                    1int
                } else {
                    0int
                }) + (if b == to {
                    1int
                } else {
                    0int
                })
                &&& forall|o: AccountId, p: AccountId|
                    !has_entry(final(self).allowances@, o, p, Some(id@))
                &&& forall|o: AccountId, p: AccountId, x: Option<IdV>|
                    x != Some(id@) ==> #[trigger] has_entry(final(self).allowances@, o, p, x)
                        == has_entry(old(self).allowances@, o, p, x)
                    &&& forall|p: AccountId|
                        #[trigger] spec_allowance(final(self).allowances@, ow, p, Some(id@))
                            == has_entry(final(self).allowances@, ow, p, None)
                }
            },
    {
        let ti = match self.find_token(&id) {
            Some(t) => t,
            None => {
                return Err(Error::TokenNotExists);
            },
        };
        let owner = self.tokens[ti].1;
        if caller != owner && !self.allowance(owner, caller, Some(&id)) {
            return Err(Error::NotApproved);
        }
        if to != owner {
            let b = self.balance_of(to);
            if b == u32::MAX {
                return Err(Error::SupplyOverflow);
            }
        }
        let ghost ts = self.tokens@;
        let id2 = id.dup();
        self.tokens[ti] = (id2, to);
        proof {
            assert(self.tokens@ == ts.update(ti as int, (self.tokens@[ti as int].0, to)));
            assert forall|p: int, q: int|
                0 <= p < q < self.tokens@.len() implies (#[trigger] self.tokens@[p]).0@ != (
            #[trigger] self.tokens@[q]).0@ by {
                assert(self.tokens@[p].0@ == ts[p].0@ && self.tokens@[q].0@ == ts[q].0@);
            }
            lemma_count_update(ts, ti as int, self.tokens@[ti as int]);
            lemma_owner_of_found(self.tokens@, ti as int);
            assert forall|x: IdV|
                x != id@ implies #[trigger] spec_owner_of(self.tokens@, x) == spec_owner_of(
                ts,
                x,
            ) by {
                lemma_owner_of_none(self.tokens@, x);
                lemma_owner_of_none(ts, x);
                assert(forall|k: int|
                    0 <= k < ts.len() ==> (#[trigger] self.tokens@[k]).0@ == ts[k].0@);
                if spec_owner_of(ts, x) is Some {
                    let j = choose|j: int| 0 <= j < ts.len() && (#[trigger] ts[j]).0@ == x;
                    lemma_owner_of_found(ts, j);
                    assert(j != ti);
                    assert(self.tokens@[j] == ts[j]);
                    lemma_owner_of_found(self.tokens@, j);
                } else if spec_owner_of(self.tokens@, x) is Some {
                    let j = choose|j: int|
                        0 <= j < self.tokens@.len() && (#[trigger] self.tokens@[j]).0@ == x;
                    lemma_owner_of_found(self.tokens@, j);
                    assert(ts[j].0@ == x);
                }
            }
        }
        if to != owner {
            proof {
                lemma_count_positive(ts, ti as int);
            }
            balance_inc(&mut self.balances, to);
            balance_dec(&mut self.balances, owner);
        }
        clear_token_allowances(&mut self.allowances, &id);
        let mut events: Vec<PSP34Event> = Vec::new();
        events.push(PSP34Event::Transfer { from: Some(owner), to: Some(to), id });
        Ok(events)
    }

    /// Destroys token `id`, on the authority of `caller`, after checking that
    /// `owner` really owns it.
    ///
    /// Fails with `TokenNotExists` when the token is not live, `NotOwner`
    /// when `owner` does not own it, and `NotApproved` when the caller is
    /// neither owner nor authorized operator; a failing call leaves the
    /// ledger unchanged.  On success the token leaves both enumeration
    /// indices and every approval scoped to it is cleared.
    pub fn burn(&mut self, caller: AccountId, owner: AccountId, id: Id) -> (r: Result<
        Vec<PSP34Event>,
        Error,
    >)
        requires
            old(self).wf(),
        ensures
            final(self).wf(),
            spec_owner_of(old(self).tokens@, id@) is None ==> (r matches Err(
                Error::TokenNotExists,
            ) && *final(self) == *old(self)),
            spec_owner_of(old(self).tokens@, id@) matches Some(ow) ==> ow != owner ==> (r matches
                Err(Error::NotOwner) && *final(self) == *old(self)),
            (spec_owner_of(old(self).tokens@, id@) == Some(owner) && !spec_authorized(
                old(self).allowances@,
                caller,
                owner,
                id@,
            )) ==> (r matches Err(Error::NotApproved) && *final(self) == *old(self)),
            (spec_owner_of(old(self).tokens@, id@) == Some(owner) && spec_authorized(
                old(self).allowances@,
                caller,
                owner,
                id@,
            )) ==> {
                &&& r matches Ok(ev) && ev@.len() == 1 && is_transfer_event(
                    ev@[0],
                    Some(owner),
                    None,
                    id@,
                )
                &&& final(self).tokens@.len() == old(self).tokens@.len() - 1
                &&& spec_owner_of(final(self).tokens@, id@) is None
                &&& forall|x: IdV|
                    x != id@ ==> #[trigger] spec_owner_of(final(self).tokens@, x) == spec_owner_of(
                        old(self).tokens@,
                        x,
                    )
                &&& forall|b: AccountId| #[trigger] spec_balance(final(self).balances@, b)
                    == spec_balance(old(self).balances@, b) - (if b == owner {
                    1int
                } else {
                    0int
                })
                &&& forall|o: AccountId, p: AccountId|
                    !has_entry(final(self).allowances@, o, p, Some(id@))
                &&& forall|o: AccountId, p: AccountId, x: Option<IdV>|
                    x != Some(id@) ==> #[trigger] has_entry(final(self).allowances@, o, p, x)
                        == has_entry(old(self).allowances@, o, p, x)
            },
    {
        let ti = match self.find_token(&id) {
            Some(t) => t,
            None => {
                return Err(Error::TokenNotExists);
            },
        };
        let actual = self.tokens[ti].1;
        if actual != owner {
            return Err(Error::NotOwner);
        }
        if caller != owner && !self.allowance(owner, caller, Some(&id)) {
            return Err(Error::NotApproved);
        }
        let ghost ts = self.tokens@;
        proof {
            lemma_count_positive(ts, ti as int);
            lemma_owner_of_swap_remove(ts, ti as int);
            lemma_count_update(ts, ti as int, ts.last());
            lemma_count_drop_last(ts.update(ti as int, ts.last()));
        }
        let _removed = self.tokens.swap_remove(ti);
        balance_dec(&mut self.balances, owner);
        clear_token_allowances(&mut self.allowances, &id);
        let mut events: Vec<PSP34Event> = Vec::new();
        events.push(PSP34Event::Transfer { from: Some(owner), to: None, id });
        Ok(events)
    }

    /// Grants or revokes an approval, on the authority of `caller`.
    ///
    /// Fails with `SelfApprove` when caller and operator coincide,
    /// `TokenNotExists` when a named token is not live, and `NotApproved`
    /// when the caller neither owns nor is authorized over a named token; a
    /// failing call leaves the ledger unchanged.  A collection-wide approval
    /// is recorded under the caller; a per-token approval under the token's
    /// owner.
    pub fn approve(
        &mut self,
        caller: AccountId,
        operator: AccountId,
        id: Option<Id>,
        approved: bool,
    ) -> (r: Result<Vec<PSP34Event>, Error>)
        requires
            old(self).wf(),
        ensures
            final(self).wf(),
            final(self).tokens@ == old(self).tokens@,
            final(self).balances@ == old(self).balances@,
            operator == caller ==> (r matches Err(Error::SelfApprove) && *final(self) == *old(
                self,
            )),
            operator != caller ==> (opt_id_view(&id) matches Some(t) ==> (spec_owner_of(
                old(self).tokens@,
                t,
            ) is None ==> (r matches Err(Error::TokenNotExists) && *final(self) == *old(self)))),
            operator != caller ==> (opt_id_view(&id) matches Some(t) ==> (spec_owner_of(
                old(self).tokens@,
                t,
            ) matches Some(ow) ==> (!spec_authorized(old(self).allowances@, caller, ow, t) ==> (r
                matches Err(Error::NotApproved) && *final(self) == *old(self))))),
            (operator != caller && id is None) ==> {
                &&& r matches Ok(ev) && ev@.len() == 1 && is_approval_event(
                    ev@[0],
                    caller,
                    operator,
                    None,
                    approved,
                )
                &&& has_entry(final(self).allowances@, caller, operator, None) == approved
                &&& forall|o: AccountId, p: AccountId, x: Option<IdV>|
                    !(o == caller && p == operator && x == None::<IdV>) ==> #[trigger] has_entry(
                        final(self).allowances@,
                        o,
                        p,
                        x,
                    ) == has_entry(old(self).allowances@, o, p, x)
            },
            operator != caller ==> (opt_id_view(&id) matches Some(t) ==> (spec_owner_of(
                old(self).tokens@,
                t,
            ) matches Some(ow) ==> (spec_authorized(old(self).allowances@, caller, ow, t) ==> {
                &&& r matches Ok(ev) && ev@.len() == 1 && is_approval_event(
                    ev@[0],
                    caller,
                    operator,
                    Some(t),
                    approved,
                )
                &&& has_entry(final(self).allowances@, ow, operator, Some(t)) == approved
                &&& forall|o: AccountId, p: AccountId, x: Option<IdV>|
                    !(o == ow && p == operator && x == Some(t)) ==> #[trigger] has_entry(
                        final(self).allowances@,
                        o,
                        p,
                        x,
                    ) == has_entry(old(self).allowances@, o, p, x)
            }))),
    {
        if operator == caller {
            return Err(Error::SelfApprove);
        }
        let entry_owner: AccountId;
        match &id {
            None => {
                entry_owner = caller;
            },
            Some(t) => {
                match self.owner_of(t) {
                    None => {
                        return Err(Error::TokenNotExists);
                    },
                    Some(ow) => {
                        if caller != ow && !self.allowance(ow, caller, Some(t)) {
                            return Err(Error::NotApproved);
                        }
                        entry_owner = ow;
                    },
                }
            },
        }
        let id2 = dup_opt_id(&id);
        if approved {
            if !has_entry_exec(&self.allowances, entry_owner, operator, id.as_ref()) {
                add_allowance(&mut self.allowances, entry_owner, operator, id2);
            }
        } else {
            remove_allowance(&mut self.allowances, entry_owner, operator, id.as_ref());
        }
        let mut events: Vec<PSP34Event> = Vec::new();
        events.push(PSP34Event::Approval { owner: caller, operator, id, approved });
        Ok(events)
    }

    /// The token at position `index` of the global enumeration.
    ///
    /// Succeeds exactly on `index < total_supply()`.
    pub fn token_by_index(&self, index: u128) -> (r: Result<Id, Error>)
        ensures
            (index < self.tokens@.len()) <==> r is Ok,
            r matches Ok(t) ==> t@ == self.tokens@[index as int].0@,
            r matches Err(e) ==> e matches Error::TokenNotExists,
    {
        if index < self.tokens.len() as u128 {
            Ok(self.tokens[index as usize].0.dup())
        } else {
            Err(Error::TokenNotExists)
        }
    }

    /// The token at position `index` of `owner`'s enumeration, which lists
    /// the owner's tokens in global order.
    ///
    /// Succeeds exactly on `index < balance_of(owner)`.
    pub fn owners_token_by_index(&self, owner: AccountId, index: u128) -> (r: Result<Id, Error>)
        ensures
            (index < count_owned(self.tokens@, owner)) <==> r is Ok,
            r matches Ok(t) ==> t@ == owned_ids(self.tokens@, owner)[index as int],
            r matches Err(e) ==> e matches Error::TokenNotExists,
    {
        let ghost s = self.tokens@;
        let ghost whole = owned_ids(s, owner);
        proof {
            lemma_owned_ids_len(s, owner);
        }
        let mut i: usize = 0;
        let mut k: u128 = 0;
        while i < self.tokens.len()
            invariant
                s == self.tokens@,
                whole == owned_ids(s, owner),
                i <= s.len(),
                k as int <= index as int,
                k as int == owned_ids(s.take(i as int), owner).len(),
                owned_ids(s.take(i as int), owner) =~= whole.take(k as int),
                owned_ids(s, owner).len() == count_owned(s, owner),
            decreases s.len() - i,
        {
            proof {
                assert(s.take(i as int + 1).drop_last() =~= s.take(i as int));
                assert(s.take(i as int + 1).last() == s[i as int]);
                lemma_owned_take_prefix(s, owner, i as int + 1);
                lemma_owned_ids_len(s.take(i as int), owner);
                lemma_owned_ids_len(s.take(i as int + 1), owner);
            }
            if self.tokens[i].1 == owner {
                if k == index {
                    proof {
                        assert(owned_ids(s.take(i as int + 1), owner) == owned_ids(
                            s.take(i as int),
                            owner,
                        ).push(s[i as int].0@));
                        assert(owned_ids(s.take(i as int + 1), owner).len() == k as int + 1);
                        assert(owned_ids(s.take(i as int + 1), owner).is_prefix_of(whole));
                        assert(k as int + 1 <= whole.len());
                        assert(owned_ids(s.take(i as int + 1), owner) =~= whole.take(k as int + 1));
                        assert(whole.take(k as int + 1)[k as int] == whole[k as int]);
                        assert(owned_ids(s.take(i as int + 1), owner)[k as int] == s[i as int].0@);
                        assert(whole[k as int] == s[i as int].0@);
                        lemma_count_nonneg(s, owner);
                    }
                    return Ok(self.tokens[i].0.dup());
                }
                k += 1;
            }
            i += 1;
        }
        proof {
            assert(s.take(s.len() as int) =~= s);
        }
        Err(Error::TokenNotExists)
    }
}

/// A prefix of the ledger enumerates a prefix of each owner's tokens.
pub proof fn lemma_owned_take_prefix(s: Seq<(Id, AccountId)>, a: AccountId, i: int)
    requires
        0 <= i <= s.len(),
    ensures
        owned_ids(s.take(i), a).is_prefix_of(owned_ids(s, a)),
    decreases s.len() - i,
{
    if i == s.len() {
        assert(s.take(i) =~= s);
    } else {
        lemma_owned_take_prefix(s, a, i + 1);
        assert(s.take(i + 1).drop_last() =~= s.take(i));
        assert(s.take(i + 1).last() == s[i]);
    }
}

} // verus!

verus! {

/// Every element of an owner's enumeration names a token at some index of
/// the ledger, owned by that owner.
pub proof fn lemma_owned_ids_member(s: Seq<(Id, AccountId)>, a: AccountId, k: int)
    requires
        0 <= k < owned_ids(s, a).len(),
    ensures
        exists|i: int|
            0 <= i < s.len() && (#[trigger] s[i]).0@ == owned_ids(s, a)[k] && s[i].1 == a,
    decreases s.len(),
{
    let o = owned_ids(s, a);
    let od = owned_ids(s.drop_last(), a);
    if s.last().1 == a && k == od.len() {
        assert(s[s.len() - 1] == s.last());
        assert(s[s.len() - 1].0@ == o[k] && s[s.len() - 1].1 == a);
    } else {
        assert(o[k] == od[k]);
        lemma_owned_ids_member(s.drop_last(), a, k);
        let i = choose|i: int|
            0 <= i < s.drop_last().len() && (#[trigger] s.drop_last()[i]).0@ == od[k]
                && s.drop_last()[i].1 == a;
        assert(s[i] == s.drop_last()[i]);
        assert(s[i].0@ == o[k] && s[i].1 == a);
    }
}

/// Every token of the ledger appears in its owner's enumeration.
pub proof fn lemma_owned_ids_complete(s: Seq<(Id, AccountId)>, a: AccountId, i: int)
    requires
        0 <= i < s.len(),
        s[i].1 == a,
    ensures
        owned_ids(s, a).contains(s[i].0@),
    decreases s.len(),
{
    let o = owned_ids(s, a);
    let od = owned_ids(s.drop_last(), a);
    if i == s.len() - 1 {
        assert(s.last() == s[i]);
        assert(o[od.len() as int] == s[i].0@);
    } else {
        assert(s.drop_last()[i] == s[i]);
        lemma_owned_ids_complete(s.drop_last(), a, i);
        let j = choose|j: int| 0 <= j < od.len() && od[j] == s[i].0@;
        assert(o[j] == s[i].0@);
    }
}

/// When token identifiers are unique, so is each owner's enumeration.
pub proof fn lemma_owned_ids_distinct(s: Seq<(Id, AccountId)>, a: AccountId)
    requires
        distinct_ids(s),
    ensures
        forall|p: int, q: int|
            0 <= p < q < owned_ids(s, a).len() ==> owned_ids(s, a)[p] != owned_ids(s, a)[q],
    decreases s.len(),
{
    if s.len() == 0 {
    } else {
        assert(distinct_ids(s.drop_last())) by {
            assert(forall|p: int, q: int|
                0 <= p < q < s.drop_last().len() ==> s.drop_last()[p] == s[p] && s.drop_last()[q]
                    == s[q]);
        }
        lemma_owned_ids_distinct(s.drop_last(), a);
        let o = owned_ids(s, a);
        let od = owned_ids(s.drop_last(), a);
        if s.last().1 == a {
            assert forall|p: int, q: int| 0 <= p < q < o.len() implies o[p] != o[q] by {
                if q < od.len() {
                    assert(o[p] == od[p] && o[q] == od[q]);
                } else {
                    assert(o[q] == s.last().0@);
                    assert(o[p] == od[p]);
                    lemma_owned_ids_member(s.drop_last(), a, p);
                    let i = choose|i: int|
                        0 <= i < s.drop_last().len() && (#[trigger] s.drop_last()[i]).0@ == od[p]
                            && s.drop_last()[i].1 == a;
                    assert(s[i] == s.drop_last()[i]);
                    assert(s[i].0@ != s[s.len() - 1].0@);
                }
            }
        }
    }
}

/// Supply/balance consistency: in every well-formed ledger the supply, the
/// sum of all recorded balances, and the count of owned tokens agree, and
/// each account's balance counts exactly the tokens it owns.
pub proof fn lemma_supply_balance_consistency(d: &PSP34Data)
    requires
        d.wf(),
    ensures
        sum_balances(d.balances@) == d.tokens@.len(),
        forall|a: AccountId| #[trigger] spec_balance(d.balances@, a) == count_owned(d.tokens@, a),
{
}

/// Enumeration bijection: in every well-formed ledger each live token has
/// exactly one global index and exactly one index in its owner's
/// enumeration, and every entry of an owner's enumeration is a live token
/// of that owner.
pub proof fn lemma_enumeration_bijection(d: &PSP34Data)
    requires
        d.wf(),
    ensures
        forall|i: int, j: int|
            0 <= i < j < d.tokens@.len() ==> (#[trigger] d.tokens@[i]).0@ != (
            #[trigger] d.tokens@[j]).0@,
        forall|a: AccountId, p: int, q: int|
            0 <= p < q < owned_ids(d.tokens@, a).len() ==> #[trigger] owned_ids(d.tokens@, a)[p]
                != #[trigger] owned_ids(d.tokens@, a)[q],
        forall|i: int|
            0 <= i < d.tokens@.len() ==> owned_ids(d.tokens@, (#[trigger] d.tokens@[i]).1).contains(
                d.tokens@[i].0@,
            ),
        forall|a: AccountId, k: int|
            0 <= k < owned_ids(d.tokens@, a).len() ==> spec_owner_of(
                d.tokens@,
                #[trigger] owned_ids(d.tokens@, a)[k],
            ) == Some(a),
{
    assert forall|a: AccountId, p: int, q: int|
        0 <= p < q < owned_ids(d.tokens@, a).len() implies #[trigger] owned_ids(d.tokens@, a)[p]
        != #[trigger] owned_ids(d.tokens@, a)[q] by {
        lemma_owned_ids_distinct(d.tokens@, a);
    }
    assert forall|i: int|
        0 <= i < d.tokens@.len() implies owned_ids(
        d.tokens@,
        (#[trigger] d.tokens@[i]).1,
    ).contains(d.tokens@[i].0@) by {
        lemma_owned_ids_complete(d.tokens@, d.tokens@[i].1, i);
    }
    assert forall|a: AccountId, k: int|
        0 <= k < owned_ids(d.tokens@, a).len() implies spec_owner_of(
        d.tokens@,
        #[trigger] owned_ids(d.tokens@, a)[k],
    ) == Some(a) by {
        lemma_owned_ids_member(d.tokens@, a, k);
        let i = choose|i: int|
            0 <= i < d.tokens@.len() && (#[trigger] d.tokens@[i]).0@ == owned_ids(d.tokens@, a)[k]
                && d.tokens@[i].1 == a;
        lemma_owner_of_found(d.tokens@, i);
    }
}

/// Approval clearing: once no per-token approval for a token remains, only a
/// collection-wide approval still authorizes an operator for it.  A
/// successful transfer establishes the premise for every operator of the
/// previous owner.
pub proof fn lemma_approval_clearing(
    al: Seq<AllowanceEntry>,
    owner: AccountId,
    operator: AccountId,
    id: IdV,
)
    requires
        !has_entry(al, owner, operator, Some(id)),
    ensures
        spec_allowance(al, owner, operator, Some(id)) == has_entry(al, owner, operator, None),
{
}

} // verus!
