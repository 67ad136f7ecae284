//! The escrow record store, the ledger, and the Make, Take and Refund
//! operations.
//!
//! The ledger holds the open escrow records, keyed by (maker, seed), and all
//! token accounts, vaults included. Its well-formedness invariant ties the
//! two together: every open record has a funded vault under the record's
//! derived address, and every vault-owned account belongs to an open record.
//! Each operation takes the current time as an argument, validates before it
//! mutates, and states in its contract exactly which balances change and on
//! which inputs each error is returned.

use vstd::prelude::*;

use crate::address::Address;
use crate::address::CANONICAL_BUMP;
use crate::address::spec_vault_address_of;
use crate::error::EscrowError;
use crate::token::TokenAccount;
use crate::token::accounts_unique;
use crate::token::lemma_no_account_no_balance;
use crate::token::spec_balance;
use crate::token::spec_has_account;

verus! {

/// One open offer: the terms the maker fixed at creation. Immutable once
/// created; destroyed by Take or Refund. The deposited amount is not a
/// field: the vault's balance is the deposit.
#[derive(Clone, Copy, PartialEq, Eq, Structural, Debug)]
pub struct EscrowRecord {
    /// Caller-chosen nonce; with `maker` it keys the offer.
    pub seed: u64,
    /// The offer's creator, the only identity allowed to refund.
    pub maker: u64,
    /// The deposited asset.
    pub mint_a: u64,
    /// The requested asset.
    pub mint_b: u64,
    /// How many units of `mint_b` the maker demands.
    pub receive: u64,
    /// The earliest time a take is allowed.
    pub unlock_time: i64,
    /// The derivation's discriminating suffix, recorded at creation.
    pub bump: u8,
}

/// The key that identifies a record in the store.
pub open spec fn record_key(r: EscrowRecord) -> (u64, u64) {
    (r.maker, r.seed)
}

/// The derived address of a record's vault.
pub open spec fn spec_vault_of(r: EscrowRecord) -> Address {
    spec_vault_address_of(r.maker, r.seed, r.mint_a)
}

/// The open record stored under (maker, seed), if any.
pub open spec fn spec_find_record(s: Seq<EscrowRecord>, maker: u64, seed: u64) -> Option<
    EscrowRecord,
>
    decreases s.len(),
{
    if s.len() == 0 {
        None
    } else if record_key(s[0]) == (maker, seed) {
        Some(s[0])
    } else {
        spec_find_record(s.drop_first(), maker, seed)
    }
}

/// No two records share a (maker, seed) key.
pub open spec fn records_unique(s: Seq<EscrowRecord>) -> bool {
    forall|i: int, j: int|
        0 <= i < j < s.len() ==> record_key(#[trigger] s[i]) != record_key(#[trigger] s[j])
}

/// The recursive lookup agrees with a first matching index.
proof fn lemma_record_match_at(s: Seq<EscrowRecord>, maker: u64, seed: u64, i: int)
    requires
        0 <= i < s.len(),
        record_key(s[i]) == (maker, seed),
        forall|j: int| 0 <= j < i ==> record_key(#[trigger] s[j]) != (maker, seed),
    ensures
        spec_find_record(s, maker, seed) == Some(s[i]),
    decreases i,
{
    if i > 0 {
        assert(s.drop_first()[i - 1] == s[i]);
        assert(forall|j: int| 0 <= j < i - 1 ==> #[trigger] s.drop_first()[j] == s[j + 1]);
        lemma_record_match_at(s.drop_first(), maker, seed, i - 1);
    }
}

/// Where no index matches the key, the lookup comes back empty.
proof fn lemma_record_no_match(s: Seq<EscrowRecord>, maker: u64, seed: u64)
    requires
        forall|j: int| 0 <= j < s.len() ==> record_key(#[trigger] s[j]) != (maker, seed),
    ensures
        spec_find_record(s, maker, seed) is None,
    decreases s.len(),
{
    if s.len() > 0 {
        assert(forall|j: int| 0 <= j < s.len() - 1 ==> #[trigger] s.drop_first()[j] == s[j + 1]);
        lemma_record_no_match(s.drop_first(), maker, seed);
    }
}

/// Appending a record with a fresh key stores it under that key and leaves
/// every other key's lookup unchanged.
proof fn lemma_record_push(s: Seq<EscrowRecord>, r: EscrowRecord, maker: u64, seed: u64)
    ensures
        spec_find_record(s.push(r), maker, seed) == if spec_find_record(s, maker, seed) is Some {
            spec_find_record(s, maker, seed)
        } else if record_key(r) == (maker, seed) {
            Some(r)
        } else {
            None::<EscrowRecord>
        },
    decreases s.len(),
{
    if s.len() == 0 {
        reveal_with_fuel(spec_find_record, 2);
        assert(s.push(r)[0] == r);
        assert(s.push(r).drop_first() =~= s);
    } else {
        assert(s.push(r)[0] == s[0]);
        assert(s.push(r).drop_first() =~= s.drop_first().push(r));
        lemma_record_push(s.drop_first(), r, maker, seed);
    }
}

/// Removing the sole record of a key empties that key's lookup and leaves
/// every other key's lookup unchanged.
proof fn lemma_record_remove(s: Seq<EscrowRecord>, i: int, maker: u64, seed: u64)
    requires
        0 <= i < s.len(),
        forall|j: int|
            0 <= j < s.len() && j != i ==> record_key(#[trigger] s[j]) != record_key(s[i]),
    ensures
        spec_find_record(s.remove(i), maker, seed) == if record_key(s[i]) == (maker, seed) {
            None::<EscrowRecord>
        } else {
            spec_find_record(s, maker, seed)
        },
    decreases i,
{
    assert(forall|j: int| 0 <= j < s.len() - 1 ==> #[trigger] s.drop_first()[j] == s[j + 1]);
    if i == 0 {
        assert(s.remove(0) =~= s.drop_first());
        if record_key(s[0]) == (maker, seed) {
            lemma_record_no_match(s.drop_first(), maker, seed);
        }
    } else {
        assert(s.remove(i)[0] == s[0]);
        assert(s.remove(i).drop_first() =~= s.drop_first().remove(i - 1));
        lemma_record_remove(s.drop_first(), i - 1, maker, seed);
    }
}

/// A record the lookup returns stands in the store.
proof fn lemma_record_found_in_store(s: Seq<EscrowRecord>, maker: u64, seed: u64)
    requires
        spec_find_record(s, maker, seed) is Some,
    ensures
        exists|i: int|
            0 <= i < s.len() && #[trigger] s[i] == spec_find_record(s, maker, seed)->Some_0
                && record_key(s[i]) == (maker, seed),
    decreases s.len(),
{
    if s.len() > 0 && record_key(s[0]) != (maker, seed) {
        lemma_record_found_in_store(s.drop_first(), maker, seed);
        let i = choose|i: int|
            0 <= i < s.drop_first().len() && #[trigger] s.drop_first()[i] == spec_find_record(
                s.drop_first(),
                maker,
                seed,
            )->Some_0 && record_key(s.drop_first()[i]) == (maker, seed);
        assert(s[i + 1] == s.drop_first()[i]);
    }
}

/// The index of the key's record, if one is open.
fn find_record(records: &Vec<EscrowRecord>, maker: u64, seed: u64) -> (r: Option<usize>)
    ensures
        match r {
            Some(i) => i < records@.len() && record_key(records@[i as int]) == (maker, seed)
                && forall|j: int|
                0 <= j < i as int ==> record_key(#[trigger] records@[j]) != (maker, seed),
            None => forall|j: int|
                0 <= j < records@.len() ==> record_key(#[trigger] records@[j]) != (maker, seed),
        },
{
    let n = records.len();
    let mut i: usize = 0;
    while i < n
        invariant
            i <= n,
            n == records@.len(),
            forall|j: int|
                0 <= j < i as int ==> record_key(#[trigger] records@[j]) != (maker, seed),
        decreases n - i,
    {
        if records[i].maker == maker && records[i].seed == seed {
            return Some(i);
        }
        i = i + 1;
    }
    None
}

/// The whole ledger: the open offers and every token account, vaults
/// included.
pub struct Ledger {
    pub escrows: Vec<EscrowRecord>,
    pub accounts: Vec<TokenAccount>,
}

impl Ledger {
    /// The balance held under (owner, mint); zero where no account exists.
    pub open spec fn spec_balance_of(self, owner: Address, mint: u64) -> u64 {
        spec_balance(self.accounts@, owner, mint)
    }

    /// The open record under (maker, seed), if any.
    pub open spec fn spec_escrow_of(self, maker: u64, seed: u64) -> Option<EscrowRecord> {
        spec_find_record(self.escrows@, maker, seed)
    }

    /// Whether an offer keyed by (maker, seed) is open.
    pub open spec fn spec_has_escrow(self, maker: u64, seed: u64) -> bool {
        self.spec_escrow_of(maker, seed) is Some
    }

    /// The terms of one open record are valid and its vault is funded.
    pub open spec fn record_wf(self, r: EscrowRecord) -> bool {
        &&& r.receive > 0
        &&& r.mint_a != r.mint_b
        &&& r.bump == CANONICAL_BUMP
        &&& spec_has_account(self.accounts@, spec_vault_of(r), r.mint_a)
        &&& spec_balance(self.accounts@, spec_vault_of(r), r.mint_a) > 0
    }

    /// No account is owned by a bare escrow address, and every vault-owned
    /// account holds the vault's own mint and belongs to an open record that
    /// deposits that mint. Existence of the account is existence of the
    /// offer.
    pub open spec fn account_owner_ok(self, o: Address, m: u64) -> bool {
        match o {
            Address::Key(_) => true,
            Address::Escrow { .. } => false,
            Address::Vault { maker, seed, mint } => {
                &&& mint == m
                &&& match spec_find_record(self.escrows@, maker, seed) {
                    Some(r) => r.mint_a == m,
                    None => false,
                }
            },
        }
    }

    /// The ledger's invariant: unique keys in both stores, every open record
    /// well formed with a funded vault, and every account's owner accounted
    /// for.
    pub open spec fn wf(self) -> bool {
        &&& records_unique(self.escrows@)
        &&& accounts_unique(self.accounts@)
        &&& forall|i: int|
            0 <= i < self.escrows@.len() ==> self.record_wf(#[trigger] self.escrows@[i])
        &&& forall|o: Address, m: u64|
            #[trigger] spec_has_account(self.accounts@, o, m) ==> self.account_owner_ok(o, m)
    }

    /// An empty ledger: no offers, no accounts, every balance zero.
    pub fn new() -> (l: Ledger)
        ensures
            l.wf(),
            l.escrows@.len() == 0,
            l.accounts@.len() == 0,
            forall|maker: u64, seed: u64| !(#[trigger] l.spec_has_escrow(maker, seed)),
            forall|o: Address, m: u64| #[trigger] l.spec_balance_of(o, m) == 0,
    {
        Ledger { escrows: Vec::new(), accounts: Vec::new() }
    }

    /// The balance held under (owner, mint).
    pub fn balance_of(&self, owner: Address, mint: u64) -> (b: u64)
        ensures
            b == self.spec_balance_of(owner, mint),
    {
        crate::token::balance_of(&self.accounts, owner, mint)
    }

    /// The open record under (maker, seed), if any.
    pub fn escrow_of(&self, maker: u64, seed: u64) -> (r: Option<EscrowRecord>)
        ensures
            r == self.spec_escrow_of(maker, seed),
    {
        match find_record(&self.escrows, maker, seed) {
            Some(i) => {
                proof {
                    lemma_record_match_at(self.escrows@, maker, seed, i as int);
                }
                Some(self.escrows[i])
            },
            None => {
                proof {
                    lemma_record_no_match(self.escrows@, maker, seed);
                }
                None
            },
        }
    }

    /// Issue `amount` fresh units of `mint` to a key-held account. This is
    /// the custody primitive the surrounding environment uses to fund
    /// identities; it can never touch a derived-address account.
    pub fn mint_to(&mut self, owner: u64, mint: u64, amount: u64) -> (r: Result<(), EscrowError>)
        requires
            old(self).wf(),
        ensures
            final(self).wf(),
            final(self).escrows@ == old(self).escrows@,
            forall|o: Address, m: u64|
                !(o is Key) ==> #[trigger] final(self).spec_balance_of(o, m) == old(
                    self,
                ).spec_balance_of(o, m),
            match r {
                Ok(()) => ({
                    &&& old(self).spec_balance_of(Address::Key(owner), mint) + amount <= u64::MAX
                    &&& final(self).spec_balance_of(Address::Key(owner), mint) == old(self).spec_balance_of(Address::Key(owner), mint) + amount
                    &&& forall|o: Address, m: u64|
                        !(o == Address::Key(owner) && m == mint) ==> #[trigger] final(self).spec_balance_of(o, m) == old(self).spec_balance_of(o, m)
                    &&& forall|o: Address, m: u64|
                        !(o == Address::Key(owner) && m == mint) ==> #[trigger] spec_has_account(
                            final(self).accounts@,
                            o,
                            m,
                        ) == spec_has_account(old(self).accounts@, o, m)
                }),
                Err(e) => ({
                    &&& e == EscrowError::BalanceOverflow
                    &&& old(self).spec_balance_of(Address::Key(owner), mint) + amount > u64::MAX
                    &&& final(self).accounts@ == old(self).accounts@
                }),
            },
    {
        let dest = Address::Key(owner);
        let b = crate::token::balance_of(&self.accounts, dest, mint);
        if amount > u64::MAX - b {
            return Err(EscrowError::BalanceOverflow);
        }
        let ghost pre = *self;
        crate::token::credit(&mut self.accounts, dest, mint, amount);
        proof {
            self.lemma_wf_after_key_accounts_change(pre);
        }
        Ok(())
    }

    /// Create an offer: validate the terms, record them under (maker, seed),
    /// create the vault at the derived address, and move the deposit from
    /// the maker's account into it. Succeeds exactly when the amounts are
    /// positive, the assets differ, no offer is open under the key, and the
    /// maker holds the deposit; nothing changes on any error.
    pub fn make(
        &mut self,
        maker: u64,
        seed: u64,
        mint_a: u64,
        mint_b: u64,
        deposit: u64,
        receive: u64,
        waiting_time: i64,
        now: i64,
    ) -> (r: Result<(), EscrowError>)
        requires
            old(self).wf(),
            i64::MIN <= now + waiting_time <= i64::MAX,
        ensures
            final(self).wf(),
            match r {
                Ok(()) => ({
                    let vault = spec_vault_address_of(maker, seed, mint_a);
                    let rec = EscrowRecord {
                        seed,
                        maker,
                        mint_a,
                        mint_b,
                        receive,
                        unlock_time: (now + waiting_time) as i64,
                        bump: CANONICAL_BUMP,
                    };
                    &&& deposit > 0 && receive > 0
                    &&& mint_a != mint_b
                    &&& !old(self).spec_has_escrow(maker, seed)
                    &&& old(self).spec_balance_of(Address::Key(maker), mint_a) >= deposit
                    &&& final(self).spec_escrow_of(maker, seed) == Some(rec)
                    &&& forall|m2: u64, s2: u64|
                        !(m2 == maker && s2 == seed) ==> #[trigger] final(self).spec_escrow_of(
                            m2,
                            s2,
                        ) == old(self).spec_escrow_of(m2, s2)
                    &&& final(self).spec_balance_of(vault, mint_a) == deposit
                    &&& final(self).spec_balance_of(Address::Key(maker), mint_a) == old(self).spec_balance_of(Address::Key(maker), mint_a) - deposit
                    &&& forall|o: Address, m: u64|
                        !(o == Address::Key(maker) && m == mint_a) && !(o == vault && m == mint_a)
                            ==> #[trigger] final(self).spec_balance_of(o, m) == old(self).spec_balance_of(o, m)
                    &&& forall|o: Address, m: u64|
                        !(o == Address::Key(maker) && m == mint_a) && !(o == vault && m == mint_a)
                            ==> #[trigger] spec_has_account(final(self).accounts@, o, m)
                            == spec_has_account(old(self).accounts@, o, m)
                }),
                Err(e) => ({
                    &&& final(self).escrows@ == old(self).escrows@
                    &&& final(self).accounts@ == old(self).accounts@
                    &&& (e == EscrowError::ZeroAmount || e == EscrowError::SameAsset || e
                        == EscrowError::DuplicateEscrow || e == EscrowError::InsufficientFunds)
                    &&& (e == EscrowError::ZeroAmount <==> (deposit == 0 || receive == 0))
                    &&& (e == EscrowError::SameAsset <==> (deposit > 0 && receive > 0 && mint_a
                        == mint_b))
                    &&& (e == EscrowError::DuplicateEscrow <==> (deposit > 0 && receive > 0
                        && mint_a != mint_b && old(self).spec_has_escrow(maker, seed)))
                    &&& (e == EscrowError::InsufficientFunds <==> (deposit > 0 && receive > 0
                        && mint_a != mint_b && !old(self).spec_has_escrow(maker, seed) && old(self).spec_balance_of(Address::Key(maker), mint_a) < deposit))
                }),
            },
    {
        if deposit == 0 || receive == 0 {
            return Err(EscrowError::ZeroAmount);
        }
        if mint_a == mint_b {
            return Err(EscrowError::SameAsset);
        }
        match find_record(&self.escrows, maker, seed) {
            Some(i) => {
                proof {
                    lemma_record_match_at(self.escrows@, maker, seed, i as int);
                }
                return Err(EscrowError::DuplicateEscrow);
            },
            None => {
                proof {
                    lemma_record_no_match(self.escrows@, maker, seed);
                }
            },
        }
        let maker_addr = Address::Key(maker);
        let escrow_addr = crate::address::derive_escrow_address(maker, seed);
        let vault_addr = crate::address::derive_vault_address(escrow_addr, mint_a);
        let b = crate::token::balance_of(&self.accounts, maker_addr, mint_a);
        if b < deposit {
            return Err(EscrowError::InsufficientFunds);
        }
        let unlock_time = now + waiting_time;
        let record = EscrowRecord {
            seed,
            maker,
            mint_a,
            mint_b,
            receive,
            unlock_time,
            bump: CANONICAL_BUMP,
        };
        let ghost pre = *self;
        proof {
            if spec_has_account(self.accounts@, vault_addr, mint_a) {
                assert(pre.account_owner_ok(vault_addr, mint_a));
            }
            lemma_no_account_no_balance(self.accounts@, vault_addr, mint_a);
        }
        self.escrows.push(record);
        let ghost a0 = self.accounts@;
        crate::token::debit(&mut self.accounts, maker_addr, mint_a, deposit);
        let ghost a1 = self.accounts@;
        crate::token::credit(&mut self.accounts, vault_addr, mint_a, deposit);
        proof {
            assert(forall|j: int|
                0 <= j < pre.escrows@.len() ==> #[trigger] self.escrows@[j] == pre.escrows@[j]);
            assert(self.escrows@[pre.escrows@.len() as int] == record);
            assert(records_unique(self.escrows@));
            assert forall|m2: u64, s2: u64|
                #[trigger] spec_find_record(self.escrows@, m2, s2) == (if m2 == maker && s2
                    == seed {
                    Some(record)
                } else {
                    spec_find_record(pre.escrows@, m2, s2)
                }) by {
                lemma_record_push(pre.escrows@, record, m2, s2);
                if !(m2 == maker && s2 == seed) && spec_find_record(pre.escrows@, m2, s2)
                    is Some {
                    lemma_record_found_in_store(pre.escrows@, m2, s2);
                }
            }
            assert forall|i: int|
                0 <= i < self.escrows@.len() implies self.record_wf(
                #[trigger] self.escrows@[i],
            ) by {
                let r = self.escrows@[i];
                if i < pre.escrows@.len() {
                    assert(pre.record_wf(r));
                    assert(record_key(r) != (maker, seed));
                    assert(spec_vault_of(r) != vault_addr);
                    assert(spec_vault_of(r) != maker_addr);
                } else {
                    assert(r == record);
                    assert(spec_balance(a1, vault_addr, mint_a) == 0);
                }
            }
            assert forall|o: Address, m: u64|
                #[trigger] spec_has_account(self.accounts@, o, m) implies self.account_owner_ok(
                o,
                m,
            ) by {
                if o == vault_addr && m == mint_a {
                    assert(self.account_owner_ok(o, m));
                } else if !(o == maker_addr && m == mint_a) {
                    assert(spec_has_account(pre.accounts@, o, m));
                    assert(pre.account_owner_ok(o, m));
                }
            }
        }
        Ok(())
    }

    /// Fulfil an offer: once the time lock has elapsed, the taker pays the
    /// maker the requested amount of `mint_b`, receives the vault's whole
    /// `mint_a` balance, and the vault and the record are closed. The taker
    /// pays first: if the taker cannot pay, the vault is never touched. The
    /// vault is looked up under the address re-derived from the record's own
    /// maker and seed, so an unrelated vault cannot be substituted. Nothing
    /// changes on any error, and a take on a closed offer fails as not
    /// found.
    pub fn take(&mut self, taker: u64, maker: u64, seed: u64, now: i64) -> (r: Result<
        (),
        EscrowError,
    >)
        requires
            old(self).wf(),
        ensures
            final(self).wf(),
            match r {
                Ok(()) => ({
                    let rec = old(self).spec_escrow_of(maker, seed)->Some_0;
                    let vault = spec_vault_of(rec);
                    let vamt = old(self).spec_balance_of(vault, rec.mint_a);
                    &&& old(self).spec_has_escrow(maker, seed)
                    &&& now >= rec.unlock_time
                    &&& old(self).spec_balance_of(Address::Key(taker), rec.mint_b) >= rec.receive
                    &&& final(self).spec_escrow_of(maker, seed) is None
                    &&& forall|m2: u64, s2: u64|
                        !(m2 == maker && s2 == seed) ==> #[trigger] final(self).spec_escrow_of(
                            m2,
                            s2,
                        ) == old(self).spec_escrow_of(m2, s2)
                    &&& !spec_has_account(final(self).accounts@, vault, rec.mint_a)
                    &&& final(self).spec_balance_of(vault, rec.mint_a) == 0
                    &&& final(self).spec_balance_of(Address::Key(taker), rec.mint_a) == old(self).spec_balance_of(Address::Key(taker), rec.mint_a) + vamt
                    &&& taker != maker ==> final(self).spec_balance_of(
                        Address::Key(maker),
                        rec.mint_b,
                    ) == old(self).spec_balance_of(Address::Key(maker), rec.mint_b) + rec.receive
                    &&& taker != maker ==> final(self).spec_balance_of(
                        Address::Key(taker),
                        rec.mint_b,
                    ) == old(self).spec_balance_of(Address::Key(taker), rec.mint_b) - rec.receive
                    &&& taker == maker ==> final(self).spec_balance_of(
                        Address::Key(taker),
                        rec.mint_b,
                    ) == old(self).spec_balance_of(Address::Key(taker), rec.mint_b)
                    &&& forall|o: Address, m: u64|
                        !(o == Address::Key(taker) && m == rec.mint_b) && !(o == Address::Key(
                            maker,
                        ) && m == rec.mint_b) && !(o == Address::Key(taker) && m == rec.mint_a)
                            && !(o == vault && m == rec.mint_a) ==> #[trigger] final(self).spec_balance_of(o, m) == old(self).spec_balance_of(o, m)
                    &&& forall|o: Address, m: u64|
                        !(o == Address::Key(taker) && m == rec.mint_b) && !(o == Address::Key(
                            maker,
                        ) && m == rec.mint_b) && !(o == Address::Key(taker) && m == rec.mint_a)
                            && !(o == vault && m == rec.mint_a) ==> #[trigger] spec_has_account(
                            final(self).accounts@,
                            o,
                            m,
                        ) == spec_has_account(old(self).accounts@, o, m)
                }),
                Err(e) => ({
                    let rec = old(self).spec_escrow_of(maker, seed)->Some_0;
                    let vault = spec_vault_of(rec);
                    let vamt = old(self).spec_balance_of(vault, rec.mint_a);
                    let taker_b = old(self).spec_balance_of(Address::Key(taker), rec.mint_b);
                    let maker_b = old(self).spec_balance_of(Address::Key(maker), rec.mint_b);
                    let taker_a = old(self).spec_balance_of(Address::Key(taker), rec.mint_a);
                    &&& final(self).escrows@ == old(self).escrows@
                    &&& final(self).accounts@ == old(self).accounts@
                    &&& (e == EscrowError::EscrowNotFound || e == EscrowError::TooEarly || e
                        == EscrowError::InsufficientFunds || e == EscrowError::BalanceOverflow)
                    &&& (e == EscrowError::EscrowNotFound <==> !old(self).spec_has_escrow(
                        maker,
                        seed,
                    ))
                    &&& (e == EscrowError::TooEarly <==> (old(self).spec_has_escrow(maker, seed)
                        && now < rec.unlock_time))
                    &&& (e == EscrowError::InsufficientFunds <==> (old(self).spec_has_escrow(
                        maker,
                        seed,
                    ) && now >= rec.unlock_time && taker_b < rec.receive))
                    &&& (e == EscrowError::BalanceOverflow <==> (old(self).spec_has_escrow(
                        maker,
                        seed,
                    ) && now >= rec.unlock_time && taker_b >= rec.receive && ((taker != maker
                        && maker_b + rec.receive > u64::MAX) || taker_a + vamt > u64::MAX)))
                }),
            },
    {
        let i = match find_record(&self.escrows, maker, seed) {
            Some(i) => {
                proof {
                    lemma_record_match_at(self.escrows@, maker, seed, i as int);
                }
                i
            },
            None => {
                proof {
                    lemma_record_no_match(self.escrows@, maker, seed);
                }
                return Err(EscrowError::EscrowNotFound);
            },
        };
        let rec = self.escrows[i];
        if now < rec.unlock_time {
            return Err(EscrowError::TooEarly);
        }
        let taker_addr = Address::Key(taker);
        let maker_addr = Address::Key(rec.maker);
        let escrow_addr = crate::address::derive_escrow_address(rec.maker, rec.seed);
        let vault_addr = crate::address::derive_vault_address(escrow_addr, rec.mint_a);
        let vamt = crate::token::balance_of(&self.accounts, vault_addr, rec.mint_a);
        let taker_b = crate::token::balance_of(&self.accounts, taker_addr, rec.mint_b);
        if taker_b < rec.receive {
            return Err(EscrowError::InsufficientFunds);
        }
        let maker_b = crate::token::balance_of(&self.accounts, maker_addr, rec.mint_b);
        let taker_a = crate::token::balance_of(&self.accounts, taker_addr, rec.mint_a);
        if (taker != rec.maker && rec.receive > u64::MAX - maker_b) || vamt > u64::MAX - taker_a {
            return Err(EscrowError::BalanceOverflow);
        }
        let ghost pre = *self;
        proof {
            assert(pre.record_wf(pre.escrows@[i as int]));
        }
        crate::token::debit(&mut self.accounts, taker_addr, rec.mint_b, rec.receive);
        crate::token::credit(&mut self.accounts, maker_addr, rec.mint_b, rec.receive);
        crate::token::credit(&mut self.accounts, taker_addr, rec.mint_a, vamt);
        crate::token::close_account(&mut self.accounts, vault_addr, rec.mint_a);
        self.escrows.remove(i);
        proof {
            assert(records_unique(self.escrows@)) by {
                assert(forall|j: int|
                    0 <= j < self.escrows@.len() ==> #[trigger] self.escrows@[j] == (if j < i as int {
                        pre.escrows@[j]
                    } else {
                        pre.escrows@[j + 1]
                    }));
            }
            assert forall|m2: u64, s2: u64|
                #[trigger] spec_find_record(self.escrows@, m2, s2) == (if m2 == maker && s2
                    == seed {
                    None::<EscrowRecord>
                } else {
                    spec_find_record(pre.escrows@, m2, s2)
                }) by {
                lemma_record_remove(pre.escrows@, i as int, m2, s2);
            }
            assert forall|k: int|
                0 <= k < self.escrows@.len() implies self.record_wf(
                #[trigger] self.escrows@[k],
            ) by {
                let r = self.escrows@[k];
                let kk = if k < i as int {
                    k
                } else {
                    k + 1
                };
                assert(r == pre.escrows@[kk]);
                assert(pre.record_wf(r));
                assert(record_key(r) != record_key(rec));
                assert(spec_vault_of(r) != vault_addr);
            }
            assert forall|o: Address, m: u64|
                #[trigger] spec_has_account(self.accounts@, o, m) implies self.account_owner_ok(
                o,
                m,
            ) by {
                if !(o == vault_addr && m == rec.mint_a) && !(o == taker_addr && m == rec.mint_b)
                    && !(o == maker_addr && m == rec.mint_b) && !(o == taker_addr && m
                    == rec.mint_a) {
                    assert(spec_has_account(pre.accounts@, o, m));
                    assert(pre.account_owner_ok(o, m));
                }
            }
        }
        Ok(())
    }

    /// Cancel an offer: the stored maker, and nobody else, reclaims the
    /// vault's whole balance; the vault and the record are closed. No time
    /// lock applies: the maker can always cancel an unfilled offer. After
    /// success the record is gone, so a second refund fails as not found
    /// rather than paying twice. Nothing changes on any error.
    pub fn refund(&mut self, caller: u64, maker: u64, seed: u64) -> (r: Result<(), EscrowError>)
        requires
            old(self).wf(),
        ensures
            final(self).wf(),
            match r {
                Ok(()) => ({
                    let rec = old(self).spec_escrow_of(maker, seed)->Some_0;
                    let vault = spec_vault_of(rec);
                    let vamt = old(self).spec_balance_of(vault, rec.mint_a);
                    &&& old(self).spec_has_escrow(maker, seed)
                    &&& caller == maker
                    &&& rec.bump == CANONICAL_BUMP
                    &&& final(self).spec_escrow_of(maker, seed) is None
                    &&& forall|m2: u64, s2: u64|
                        !(m2 == maker && s2 == seed) ==> #[trigger] final(self).spec_escrow_of(
                            m2,
                            s2,
                        ) == old(self).spec_escrow_of(m2, s2)
                    &&& !spec_has_account(final(self).accounts@, vault, rec.mint_a)
                    &&& final(self).spec_balance_of(vault, rec.mint_a) == 0
                    &&& final(self).spec_balance_of(Address::Key(maker), rec.mint_a) == old(
                        self,
                    ).spec_balance_of(Address::Key(maker), rec.mint_a) + vamt
                    &&& forall|o: Address, m: u64|
                        !(o == Address::Key(maker) && m == rec.mint_a) && !(o == vault && m
                            == rec.mint_a) ==> #[trigger] final(self).spec_balance_of(o, m) == old(
                            self,
                        ).spec_balance_of(o, m)
                    &&& forall|o: Address, m: u64|
                        !(o == Address::Key(maker) && m == rec.mint_a) && !(o == vault && m
                            == rec.mint_a) ==> #[trigger] spec_has_account(
                            final(self).accounts@,
                            o,
                            m,
                        ) == spec_has_account(old(self).accounts@, o, m)
                }),
                Err(e) => ({
                    let rec = old(self).spec_escrow_of(maker, seed)->Some_0;
                    let vault = spec_vault_of(rec);
                    let vamt = old(self).spec_balance_of(vault, rec.mint_a);
                    let maker_a = old(self).spec_balance_of(Address::Key(maker), rec.mint_a);
                    &&& final(self).escrows@ == old(self).escrows@
                    &&& final(self).accounts@ == old(self).accounts@
                    &&& (e == EscrowError::EscrowNotFound || e == EscrowError::WrongMaker || e
                        == EscrowError::BalanceOverflow)
                    &&& (e == EscrowError::EscrowNotFound <==> !old(self).spec_has_escrow(
                        maker,
                        seed,
                    ))
                    &&& (e == EscrowError::WrongMaker <==> (old(self).spec_has_escrow(maker, seed)
                        && caller != maker))
                    &&& (e == EscrowError::BalanceOverflow <==> (old(self).spec_has_escrow(
                        maker,
                        seed,
                    ) && caller == maker && maker_a + vamt > u64::MAX))
                }),
            },
    {
        let i = match find_record(&self.escrows, maker, seed) {
            Some(i) => {
                proof {
                    lemma_record_match_at(self.escrows@, maker, seed, i as int);
                }
                i
            },
            None => {
                proof {
                    lemma_record_no_match(self.escrows@, maker, seed);
                }
                return Err(EscrowError::EscrowNotFound);
            },
        };
        let rec = self.escrows[i];
        if caller != rec.maker {
            return Err(EscrowError::WrongMaker);
        }
        proof {
            assert(old(self).record_wf(old(self).escrows@[i as int]));
        }
        let maker_addr = Address::Key(rec.maker);
        let escrow_addr = crate::address::derive_escrow_address(rec.maker, rec.seed);
        let vault_addr = crate::address::derive_vault_address(escrow_addr, rec.mint_a);
        let vamt = crate::token::balance_of(&self.accounts, vault_addr, rec.mint_a);
        let maker_a = crate::token::balance_of(&self.accounts, maker_addr, rec.mint_a);
        if vamt > u64::MAX - maker_a {
            return Err(EscrowError::BalanceOverflow);
        }
        let ghost pre = *self;
        crate::token::credit(&mut self.accounts, maker_addr, rec.mint_a, vamt);
        crate::token::close_account(&mut self.accounts, vault_addr, rec.mint_a);
        self.escrows.remove(i);
        proof {
            assert(records_unique(self.escrows@)) by {
                assert(forall|j: int|
                    0 <= j < self.escrows@.len() ==> #[trigger] self.escrows@[j] == (if j < i as int {
                        pre.escrows@[j]
                    } else {
                        pre.escrows@[j + 1]
                    }));
            }
            assert forall|m2: u64, s2: u64|
                #[trigger] spec_find_record(self.escrows@, m2, s2) == (if m2 == maker && s2
                    == seed {
                    None::<EscrowRecord>
                } else {
                    spec_find_record(pre.escrows@, m2, s2)
                }) by {
                lemma_record_remove(pre.escrows@, i as int, m2, s2);
            }
            assert forall|k: int|
                0 <= k < self.escrows@.len() implies self.record_wf(
                #[trigger] self.escrows@[k],
            ) by {
                let r = self.escrows@[k];
                let kk = if k < i as int {
                    k
                } else {
                    k + 1
                };
                assert(r == pre.escrows@[kk]);
                assert(pre.record_wf(r));
                assert(record_key(r) != record_key(rec));
                assert(spec_vault_of(r) != vault_addr);
            }
            assert forall|o: Address, m: u64|
                #[trigger] spec_has_account(self.accounts@, o, m) implies self.account_owner_ok(
                o,
                m,
            ) by {
                if !(o == vault_addr && m == rec.mint_a) && !(o == maker_addr && m == rec.mint_a) {
                    assert(spec_has_account(pre.accounts@, o, m));
                    assert(pre.account_owner_ok(o, m));
                }
            }
        }
        Ok(())
    }

    /// Move `amount` of `mint` between key-held accounts; `from` is the
    /// authorizing signer, so the source is always the signer's own account.
    /// Neither end of an ordinary transfer can be a derived address: every
    /// non-key balance is stated unchanged, vaults included. Only Take and
    /// Refund, acting for the derived authority, move funds out of a vault.
    pub fn transfer(&mut self, from: u64, to: u64, mint: u64, amount: u64) -> (r: Result<
        (),
        EscrowError,
    >)
        requires
            old(self).wf(),
        ensures
            final(self).wf(),
            final(self).escrows@ == old(self).escrows@,
            forall|o: Address, m: u64|
                !(o is Key) ==> #[trigger] final(self).spec_balance_of(o, m) == old(
                    self,
                ).spec_balance_of(o, m),
            match r {
                Ok(()) => ({
                    &&& old(self).spec_balance_of(Address::Key(from), mint) >= amount
                    &&& from != to ==> ({
                        &&& old(self).spec_balance_of(Address::Key(to), mint) + amount <= u64::MAX
                        &&& final(self).spec_balance_of(Address::Key(from), mint) == old(
                            self,
                        ).spec_balance_of(Address::Key(from), mint) - amount
                        &&& final(self).spec_balance_of(Address::Key(to), mint) == old(
                            self,
                        ).spec_balance_of(Address::Key(to), mint) + amount
                    })
                    &&& from == to ==> final(self).spec_balance_of(Address::Key(from), mint) == old(
                        self,
                    ).spec_balance_of(Address::Key(from), mint)
                    &&& forall|o: Address, m: u64|
                        !(o == Address::Key(from) && m == mint) && !(o == Address::Key(to) && m
                            == mint) ==> #[trigger] final(self).spec_balance_of(o, m) == old(
                            self,
                        ).spec_balance_of(o, m)
                    &&& forall|o: Address, m: u64|
                        !(o == Address::Key(from) && m == mint) && !(o == Address::Key(to) && m
                            == mint) ==> #[trigger] spec_has_account(final(self).accounts@, o, m)
                            == spec_has_account(old(self).accounts@, o, m)
                }),
                Err(e) => ({
                    &&& final(self).accounts@ == old(self).accounts@
                    &&& (e == EscrowError::InsufficientFunds || e == EscrowError::BalanceOverflow)
                    &&& (e == EscrowError::InsufficientFunds <==> old(self).spec_balance_of(
                        Address::Key(from),
                        mint,
                    ) < amount)
                    &&& (e == EscrowError::BalanceOverflow <==> (old(self).spec_balance_of(
                        Address::Key(from),
                        mint,
                    ) >= amount && from != to && old(self).spec_balance_of(Address::Key(to), mint)
                        + amount > u64::MAX))
                }),
            },
    {
        let src = Address::Key(from);
        let dst = Address::Key(to);
        let b_from = crate::token::balance_of(&self.accounts, src, mint);
        if b_from < amount {
            return Err(EscrowError::InsufficientFunds);
        }
        if from != to {
            let b_to = crate::token::balance_of(&self.accounts, dst, mint);
            if amount > u64::MAX - b_to {
                return Err(EscrowError::BalanceOverflow);
            }
        }
        let ghost pre = *self;
        crate::token::debit(&mut self.accounts, src, mint, amount);
        crate::token::credit(&mut self.accounts, dst, mint, amount);
        proof {
            self.lemma_wf_after_key_accounts_change(pre);
        }
        Ok(())
    }

    /// At most one offer is open per (maker, seed): two open records that
    /// share the key stand at the same position in the store.
    pub proof fn lemma_one_offer_per_key(self, i: int, j: int)
        requires
            self.wf(),
            0 <= i < self.escrows@.len(),
            0 <= j < self.escrows@.len(),
            record_key(self.escrows@[i]) == record_key(self.escrows@[j]),
        ensures
            i == j,
    {
    }

    /// A closed offer holds nothing: under a (maker, seed) key with no open
    /// record, the vault does not exist and its balance reads zero — before
    /// a make and after a take or refund alike.
    pub proof fn lemma_closed_offer_vault_empty(self, maker: u64, seed: u64, mint: u64)
        requires
            self.wf(),
            !self.spec_has_escrow(maker, seed),
        ensures
            !spec_has_account(self.accounts@, spec_vault_address_of(maker, seed, mint), mint),
            self.spec_balance_of(spec_vault_address_of(maker, seed, mint), mint) == 0,
    {
        let vault = spec_vault_address_of(maker, seed, mint);
        if spec_has_account(self.accounts@, vault, mint) {
            assert(self.account_owner_ok(vault, mint));
        }
        lemma_no_account_no_balance(self.accounts@, vault, mint);
    }

    /// An open offer's vault is funded and its terms are valid: the stored
    /// record carries the key it is filed under, demands a positive amount
    /// of a different asset, holds the canonical derivation suffix, and its
    /// vault exists with a positive balance of the deposited asset.
    pub proof fn lemma_open_offer_vault_funded(self, maker: u64, seed: u64)
        requires
            self.wf(),
            self.spec_has_escrow(maker, seed),
        ensures
            ({
                let rec = self.spec_escrow_of(maker, seed)->Some_0;
                &&& rec.maker == maker && rec.seed == seed
                &&& rec.receive > 0
                &&& rec.mint_a != rec.mint_b
                &&& rec.bump == CANONICAL_BUMP
                &&& spec_has_account(self.accounts@, spec_vault_of(rec), rec.mint_a)
                &&& self.spec_balance_of(spec_vault_of(rec), rec.mint_a) > 0
            }),
    {
        lemma_record_found_in_store(self.escrows@, maker, seed);
        let i = choose|i: int|
            0 <= i < self.escrows@.len() && #[trigger] self.escrows@[i] == spec_find_record(
                self.escrows@,
                maker,
                seed,
            )->Some_0 && record_key(self.escrows@[i]) == (maker, seed);
        assert(self.record_wf(self.escrows@[i]));
    }

    /// Re-establish the invariant after an account change that touched only
    /// `Key`-owned accounts and left every vault's existence and balance as
    /// it was.
    proof fn lemma_wf_after_key_accounts_change(self, pre: Ledger)
        requires
            pre.wf(),
            self.escrows@ == pre.escrows@,
            accounts_unique(self.accounts@),
            forall|o: Address, m: u64|
                !(o is Key) ==> #[trigger] spec_has_account(self.accounts@, o, m)
                    == spec_has_account(pre.accounts@, o, m),
            forall|o: Address, m: u64|
                !(o is Key) ==> #[trigger] spec_balance(self.accounts@, o, m) == spec_balance(
                    pre.accounts@,
                    o,
                    m,
                ),
        ensures
            self.wf(),
    {
        assert forall|i: int|
            0 <= i < self.escrows@.len() implies self.record_wf(#[trigger] self.escrows@[i]) by {
            let r = self.escrows@[i];
            assert(pre.record_wf(r));
            assert(spec_has_account(self.accounts@, spec_vault_of(r), r.mint_a));
        }
        assert forall|o: Address, m: u64|
            #[trigger] spec_has_account(self.accounts@, o, m) implies self.account_owner_ok(
            o,
            m,
        ) by {
            if !(o is Key) {
                assert(spec_has_account(pre.accounts@, o, m));
                assert(pre.account_owner_ok(o, m));
            }
        }
    }
}

} // verus!
