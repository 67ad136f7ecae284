//! Token accounts and the balance bookkeeping the escrow operations rely on.
//!
//! An account is identified by its (owner address, mint) pair; the store is a
//! vector with unique keys. `spec_balance` and `spec_has_account` are the
//! mathematical reading of the store; every helper here states its effect on
//! them for the touched key and for every other key.

use vstd::prelude::*;

use crate::address::Address;

verus! {

/// One token-holding account: `amount` units of the asset `mint`, owned by
/// `owner`. A vault is such an account whose owner is a derived address.
#[derive(Clone, Copy, PartialEq, Eq, Structural, Debug)]
pub struct TokenAccount {
    pub owner: Address,
    pub mint: u64,
    pub amount: u64,
}

/// The key that identifies an account in the store.
pub open spec fn account_key(a: TokenAccount) -> (Address, u64) {
    (a.owner, a.mint)
}

/// Whether the store holds an account keyed by (owner, mint).
pub open spec fn spec_has_account(s: Seq<TokenAccount>, owner: Address, mint: u64) -> bool
    decreases s.len(),
{
    if s.len() == 0 {
        false
    } else if account_key(s[0]) == (owner, mint) {
        true
    } else {
        spec_has_account(s.drop_first(), owner, mint)
    }
}

/// The balance held under (owner, mint); zero where no account exists.
pub open spec fn spec_balance(s: Seq<TokenAccount>, owner: Address, mint: u64) -> u64
    decreases s.len(),
{
    if s.len() == 0 {
        0
    } else if account_key(s[0]) == (owner, mint) {
        s[0].amount
    } else {
        spec_balance(s.drop_first(), owner, mint)
    }
}

/// No two accounts share an (owner, mint) key.
pub open spec fn accounts_unique(s: Seq<TokenAccount>) -> bool {
    forall|i: int, j: int|
        0 <= i < j < s.len() ==> account_key(#[trigger] s[i]) != account_key(#[trigger] s[j])
}

/// The recursive readings agree with a first matching index: if the accounts
/// before `i` miss the key and `s[i]` hits it, the key's balance is
/// `s[i].amount`.
proof fn lemma_match_at(s: Seq<TokenAccount>, owner: Address, mint: u64, i: int)
    requires
        0 <= i < s.len(),
        account_key(s[i]) == (owner, mint),
        forall|j: int| 0 <= j < i ==> account_key(#[trigger] s[j]) != (owner, mint),
    ensures
        spec_has_account(s, owner, mint),
        spec_balance(s, owner, mint) == s[i].amount,
    decreases i,
{
    if i > 0 {
        assert(s.drop_first()[i - 1] == s[i]);
        assert(forall|j: int| 0 <= j < i - 1 ==> #[trigger] s.drop_first()[j] == s[j + 1]);
        lemma_match_at(s.drop_first(), owner, mint, i - 1);
    }
}

/// Where no index matches the key, the key has no account and balance zero.
proof fn lemma_no_match(s: Seq<TokenAccount>, owner: Address, mint: u64)
    requires
        forall|j: int| 0 <= j < s.len() ==> account_key(#[trigger] s[j]) != (owner, mint),
    ensures
        !spec_has_account(s, owner, mint),
        spec_balance(s, owner, mint) == 0,
    decreases s.len(),
{
    if s.len() > 0 {
        assert(forall|j: int| 0 <= j < s.len() - 1 ==> #[trigger] s.drop_first()[j] == s[j + 1]);
        lemma_no_match(s.drop_first(), owner, mint);
    }
}

/// A key without an account holds nothing: the balance read under it is
/// zero. In particular a closed vault's balance is zero.
pub proof fn lemma_no_account_no_balance(s: Seq<TokenAccount>, owner: Address, mint: u64)
    requires
        !spec_has_account(s, owner, mint),
    ensures
        spec_balance(s, owner, mint) == 0,
    decreases s.len(),
{
    if s.len() > 0 {
        lemma_no_account_no_balance(s.drop_first(), owner, mint);
    }
}

/// Overwriting the first account of a key with one of the same key moves that
/// key's balance to the new amount and leaves every other key untouched.
proof fn lemma_balance_update(
    s: Seq<TokenAccount>,
    i: int,
    a: TokenAccount,
    owner: Address,
    mint: u64,
)
    requires
        0 <= i < s.len(),
        account_key(a) == account_key(s[i]),
        forall|j: int| 0 <= j < i ==> account_key(#[trigger] s[j]) != account_key(s[i]),
    ensures
        spec_has_account(s.update(i, a), owner, mint) == spec_has_account(s, owner, mint),
        spec_balance(s.update(i, a), owner, mint) == if account_key(a) == (owner, mint) {
            a.amount
        } else {
            spec_balance(s, owner, mint)
        },
    decreases i,
{
    if i == 0 {
        assert(s.update(0, a).drop_first() =~= s.drop_first());
    } else {
        assert(s.update(i, a)[0] == s[0]);
        assert(s.update(i, a).drop_first() =~= s.drop_first().update(i - 1, a));
        assert(forall|j: int| 0 <= j < s.len() - 1 ==> #[trigger] s.drop_first()[j] == s[j + 1]);
        lemma_balance_update(s.drop_first(), i - 1, a, owner, mint);
    }
}

/// Appending an account with a fresh key gives that key its amount as
/// balance and leaves every existing key untouched.
proof fn lemma_balance_push(s: Seq<TokenAccount>, a: TokenAccount, owner: Address, mint: u64)
    ensures
        spec_has_account(s.push(a), owner, mint) == (spec_has_account(s, owner, mint)
            || account_key(a) == (owner, mint)),
        spec_balance(s.push(a), owner, mint) == if spec_has_account(s, owner, mint) {
            spec_balance(s, owner, mint)
        } else if account_key(a) == (owner, mint) {
            a.amount
        } else {
            0u64
        },
    decreases s.len(),
{
    if s.len() == 0 {
        reveal_with_fuel(spec_balance, 2);
        assert(s.push(a)[0] == a);
        assert(s.push(a).drop_first() =~= s);
    } else {
        assert(s.push(a)[0] == s[0]);
        assert(s.push(a).drop_first() =~= s.drop_first().push(a));
        lemma_balance_push(s.drop_first(), a, owner, mint);
        if account_key(s[0]) == (owner, mint) {
            assert(spec_balance(s.push(a), owner, mint) == s[0].amount);
            assert(spec_balance(s, owner, mint) == s[0].amount);
        } else {
            assert(spec_balance(s.push(a), owner, mint) == spec_balance(
                s.drop_first().push(a),
                owner,
                mint,
            ));
            assert(spec_balance(s, owner, mint) == spec_balance(s.drop_first(), owner, mint));
        }
    }
}

/// Removing the sole account of a key empties that key and leaves every
/// other key untouched.
proof fn lemma_balance_remove(s: Seq<TokenAccount>, i: int, owner: Address, mint: u64)
    requires
        0 <= i < s.len(),
        forall|j: int|
            0 <= j < s.len() && j != i ==> account_key(#[trigger] s[j]) != account_key(s[i]),
    ensures
        spec_has_account(s.remove(i), owner, mint) == (spec_has_account(s, owner, mint)
            && account_key(s[i]) != (owner, mint)),
        spec_balance(s.remove(i), owner, mint) == if account_key(s[i]) == (owner, mint) {
            0u64
        } else {
            spec_balance(s, owner, mint)
        },
    decreases i,
{
    assert(forall|j: int| 0 <= j < s.len() - 1 ==> #[trigger] s.drop_first()[j] == s[j + 1]);
    if i == 0 {
        assert(s.remove(0) =~= s.drop_first());
        if account_key(s[0]) == (owner, mint) {
            lemma_no_match(s.drop_first(), owner, mint);
        }
    } else {
        assert(s.remove(i)[0] == s[0]);
        assert(s.remove(i).drop_first() =~= s.drop_first().remove(i - 1));
        lemma_balance_remove(s.drop_first(), i - 1, owner, mint);
    }
}

/// The index of the key's account, if one exists.
fn find_account(accounts: &Vec<TokenAccount>, owner: Address, mint: u64) -> (r: Option<usize>)
    ensures
        match r {
            Some(i) => i < accounts@.len() && account_key(accounts@[i as int]) == (owner, mint)
                && forall|j: int|
                0 <= j < i as int ==> account_key(#[trigger] accounts@[j]) != (owner, mint),
            None => forall|j: int|
                0 <= j < accounts@.len() ==> account_key(#[trigger] accounts@[j]) != (owner, mint),
        },
{
    let n = accounts.len();
    let mut i: usize = 0;
    while i < n
        invariant
            i <= n,
            n == accounts@.len(),
            forall|j: int|
                0 <= j < i as int ==> account_key(#[trigger] accounts@[j]) != (owner, mint),
        decreases n - i,
    {
        if accounts[i].owner == owner && accounts[i].mint == mint {
            return Some(i);
        }
        i = i + 1;
    }
    None
}

/// The balance the store holds under (owner, mint); zero where no account
/// exists.
pub fn balance_of(accounts: &Vec<TokenAccount>, owner: Address, mint: u64) -> (b: u64)
    ensures
        b == spec_balance(accounts@, owner, mint),
{
    match find_account(accounts, owner, mint) {
        Some(i) => {
            proof {
                lemma_match_at(accounts@, owner, mint, i as int);
            }
            accounts[i].amount
        },
        None => {
            proof {
                lemma_no_match(accounts@, owner, mint);
            }
            0
        },
    }
}

/// Whether an account keyed by (owner, mint) exists in the store.
pub fn account_exists(accounts: &Vec<TokenAccount>, owner: Address, mint: u64) -> (r: bool)
    ensures
        r == spec_has_account(accounts@, owner, mint),
{
    match find_account(accounts, owner, mint) {
        Some(i) => {
            proof {
                lemma_match_at(accounts@, owner, mint, i as int);
            }
            true
        },
        None => {
            proof {
                lemma_no_match(accounts@, owner, mint);
            }
            false
        },
    }
}

/// Add `amount` to the key's balance, creating the account where none
/// exists. Every other key keeps its account and its balance.
pub(crate) fn credit(accounts: &mut Vec<TokenAccount>, owner: Address, mint: u64, amount: u64)
    requires
        accounts_unique(old(accounts)@),
        spec_balance(old(accounts)@, owner, mint) + amount <= u64::MAX,
    ensures
        accounts_unique(final(accounts)@),
        spec_has_account(final(accounts)@, owner, mint),
        spec_balance(final(accounts)@, owner, mint) == spec_balance(old(accounts)@, owner, mint)
            + amount,
        forall|o: Address, m: u64|
            !(o == owner && m == mint) ==> #[trigger] spec_has_account(final(accounts)@, o, m)
                == spec_has_account(old(accounts)@, o, m),
        forall|o: Address, m: u64|
            !(o == owner && m == mint) ==> #[trigger] spec_balance(final(accounts)@, o, m)
                == spec_balance(old(accounts)@, o, m),
{
    let ghost s0 = accounts@;
    match find_account(accounts, owner, mint) {
        Some(i) => {
            proof {
                lemma_match_at(s0, owner, mint, i as int);
            }
            let mut a = accounts[i];
            a.amount = a.amount + amount;
            accounts.set(i, a);
            proof {
                assert forall|o: Address, m: u64| #[trigger] spec_has_account(accounts@, o, m)
                    == spec_has_account(s0, o, m) by {
                    lemma_balance_update(s0, i as int, a, o, m);
                }
                assert forall|o: Address, m: u64| #[trigger] spec_balance(accounts@, o, m) == (
                if o == owner && m == mint {
                    a.amount
                } else {
                    spec_balance(s0, o, m)
                }) by {
                    lemma_balance_update(s0, i as int, a, o, m);
                }
                assert(accounts_unique(accounts@)) by {
                    assert(forall|j: int|
                        0 <= j < s0.len() && j != i as int ==> #[trigger] accounts@[j] == s0[j]);
                    assert(account_key(accounts@[i as int]) == account_key(s0[i as int]));
                }
            }
        },
        None => {
            proof {
                lemma_no_match(s0, owner, mint);
            }
            let a = TokenAccount { owner, mint, amount };
            accounts.push(a);
            proof {
                assert forall|o: Address, m: u64| #[trigger] spec_has_account(accounts@, o, m)
                    == (spec_has_account(s0, o, m) || (o == owner && m == mint)) by {
                    lemma_balance_push(s0, a, o, m);
                }
                assert forall|o: Address, m: u64| #[trigger] spec_balance(accounts@, o, m) == (
                if o == owner && m == mint {
                    amount
                } else {
                    spec_balance(s0, o, m)
                }) by {
                    lemma_balance_push(s0, a, o, m);
                    if !spec_has_account(s0, o, m) {
                        lemma_no_account_no_balance(s0, o, m);
                    }
                }
                assert(accounts_unique(accounts@)) by {
                    assert(forall|j: int| 0 <= j < s0.len() ==> #[trigger] accounts@[j] == s0[j]);
                    assert(accounts@[s0.len() as int] == a);
                }
            }
        },
    }
}

/// Subtract `amount` from the key's balance. The account stays, possibly at
/// zero; every other key keeps its account and its balance.
pub(crate) fn debit(accounts: &mut Vec<TokenAccount>, owner: Address, mint: u64, amount: u64)
    requires
        accounts_unique(old(accounts)@),
        spec_balance(old(accounts)@, owner, mint) >= amount,
    ensures
        accounts_unique(final(accounts)@),
        spec_balance(final(accounts)@, owner, mint) == spec_balance(old(accounts)@, owner, mint)
            - amount,
        forall|o: Address, m: u64| #[trigger] spec_has_account(final(accounts)@, o, m)
            == spec_has_account(old(accounts)@, o, m),
        forall|o: Address, m: u64|
            !(o == owner && m == mint) ==> #[trigger] spec_balance(final(accounts)@, o, m)
                == spec_balance(old(accounts)@, o, m),
{
    let ghost s0 = accounts@;
    match find_account(accounts, owner, mint) {
        Some(i) => {
            proof {
                lemma_match_at(s0, owner, mint, i as int);
            }
            let mut a = accounts[i];
            a.amount = a.amount - amount;
            accounts.set(i, a);
            proof {
                assert forall|o: Address, m: u64| #[trigger] spec_has_account(accounts@, o, m)
                    == spec_has_account(s0, o, m) by {
                    lemma_balance_update(s0, i as int, a, o, m);
                }
                assert forall|o: Address, m: u64| #[trigger] spec_balance(accounts@, o, m) == (
                if o == owner && m == mint {
                    a.amount
                } else {
                    spec_balance(s0, o, m)
                }) by {
                    lemma_balance_update(s0, i as int, a, o, m);
                }
                assert(accounts_unique(accounts@)) by {
                    assert(forall|j: int|
                        0 <= j < s0.len() && j != i as int ==> #[trigger] accounts@[j] == s0[j]);
                    assert(account_key(accounts@[i as int]) == account_key(s0[i as int]));
                }
            }
        },
        None => {
            proof {
                lemma_no_match(s0, owner, mint);
            }
        },
    }
}

/// Remove the key's account from the store, where one exists. Every other
/// key keeps its account and its balance.
pub(crate) fn close_account(accounts: &mut Vec<TokenAccount>, owner: Address, mint: u64)
    requires
        accounts_unique(old(accounts)@),
    ensures
        accounts_unique(final(accounts)@),
        !spec_has_account(final(accounts)@, owner, mint),
        spec_balance(final(accounts)@, owner, mint) == 0,
        forall|o: Address, m: u64|
            !(o == owner && m == mint) ==> #[trigger] spec_has_account(final(accounts)@, o, m)
                == spec_has_account(old(accounts)@, o, m),
        forall|o: Address, m: u64|
            !(o == owner && m == mint) ==> #[trigger] spec_balance(final(accounts)@, o, m)
                == spec_balance(old(accounts)@, o, m),
{
    let ghost s0 = accounts@;
    match find_account(accounts, owner, mint) {
        Some(i) => {
            accounts.remove(i);
            proof {
                assert forall|o: Address, m: u64| #[trigger] spec_has_account(accounts@, o, m)
                    == (spec_has_account(s0, o, m) && !(o == owner && m == mint)) by {
                    lemma_balance_remove(s0, i as int, o, m);
                }
                assert forall|o: Address, m: u64| #[trigger] spec_balance(accounts@, o, m) == (
                if o == owner && m == mint {
                    0u64
                } else {
                    spec_balance(s0, o, m)
                }) by {
                    lemma_balance_remove(s0, i as int, o, m);
                }
                assert(accounts_unique(accounts@)) by {
                    assert(forall|j: int|
                        0 <= j < accounts@.len() ==> #[trigger] accounts@[j] == (if j < i as int {
                            s0[j]
                        } else {
                            s0[j + 1]
                        }));
                }
            }
        },
        None => {
            proof {
                lemma_no_match(s0, owner, mint);
            }
        },
    }
}

} // verus!
