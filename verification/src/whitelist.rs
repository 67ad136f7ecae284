//! The allow-list collaborator: a marker record per authorized user.
//!
//! This gate is separate from the escrow itself; a transfer-authorization
//! hook consults it. Its whole contract is "a record exists exactly when the
//! user is authorized": adding a user creates the marker record at the
//! address derived from the user's identity, removing a user closes it.

use vstd::prelude::*;

use crate::address::CANONICAL_BUMP;

verus! {

/// The marker record. Its existence itself means the user is on the list;
/// it carries only the derivation's discriminating suffix.
#[derive(Clone, Copy, PartialEq, Eq, Structural, Debug)]
pub struct Whitelist {
    pub bump: u8,
}

/// One stored entry: the user's identity and the marker filed under it.
#[derive(Clone, Copy, PartialEq, Eq, Structural, Debug)]
pub struct WhitelistEntry {
    pub user: u64,
    pub marker: Whitelist,
}

/// Why an allow-list operation was rejected.
#[derive(Clone, Copy, PartialEq, Eq, Structural, Debug)]
pub enum WhitelistError {
    /// Adding a user whose marker record already exists.
    AlreadyListed,
    /// Removing a user who has no marker record.
    NotListed,
}

/// Whether the store holds a marker for `user`.
pub open spec fn spec_listed(s: Seq<WhitelistEntry>, user: u64) -> bool {
    exists|i: int| 0 <= i < s.len() && (#[trigger] s[i]).user == user
}

/// No two entries share a user.
pub open spec fn entries_unique(s: Seq<WhitelistEntry>) -> bool {
    forall|i: int, j: int| 0 <= i < j < s.len() ==> (#[trigger] s[i]).user != (#[trigger] s[j]).user
}

/// The registry of marker records, keyed by user identity.
pub struct WhitelistRegistry {
    pub entries: Vec<WhitelistEntry>,
}

/// The index of the user's entry, if one exists.
fn find_entry(entries: &Vec<WhitelistEntry>, user: u64) -> (r: Option<usize>)
    ensures
        match r {
            Some(i) => i < entries@.len() && entries@[i as int].user == user,
            None => !spec_listed(entries@, user),
        },
{
    let n = entries.len();
    let mut i: usize = 0;
    while i < n
        invariant
            i <= n,
            n == entries@.len(),
            forall|j: int| 0 <= j < i as int ==> (#[trigger] entries@[j]).user != user,
        decreases n - i,
    {
        if entries[i].user == user {
            return Some(i);
        }
        i = i + 1;
    }
    None
}

impl WhitelistRegistry {
    /// The registry's invariant: one entry per user.
    pub open spec fn wf(self) -> bool {
        entries_unique(self.entries@)
    }

    /// Whether `user` is authorized: exactly when a marker record exists.
    pub open spec fn spec_is_whitelisted(self, user: u64) -> bool {
        spec_listed(self.entries@, user)
    }

    /// An empty registry: nobody is authorized.
    pub fn new() -> (w: WhitelistRegistry)
        ensures
            w.wf(),
            forall|user: u64| !(#[trigger] w.spec_is_whitelisted(user)),
    {
        WhitelistRegistry { entries: Vec::new() }
    }

    /// Whether `user` is authorized.
    pub fn is_whitelisted(&self, user: u64) -> (r: bool)
        ensures
            r == self.spec_is_whitelisted(user),
    {
        match find_entry(&self.entries, user) {
            Some(_) => true,
            None => false,
        }
    }
}

/// The inputs of one add operation: the authorizing admin and the user to
/// list.
pub struct AddToWhitelist {
    pub admin: u64,
    pub user: u64,
}

impl AddToWhitelist {
    /// Create the user's marker record, with the canonical derivation
    /// suffix. Fails, changing nothing, exactly when the user is already
    /// listed.
    pub fn add_to_whitelist(&self, registry: &mut WhitelistRegistry) -> (r: Result<
        (),
        WhitelistError,
    >)
        requires
            old(registry).wf(),
        ensures
            final(registry).wf(),
            match r {
                Ok(()) => ({
                    &&& !old(registry).spec_is_whitelisted(self.user)
                    &&& final(registry).spec_is_whitelisted(self.user)
                    &&& forall|u: u64|
                        u != self.user ==> #[trigger] final(registry).spec_is_whitelisted(u) == old(
                            registry,
                        ).spec_is_whitelisted(u)
                }),
                Err(e) => ({
                    &&& e == WhitelistError::AlreadyListed
                    &&& old(registry).spec_is_whitelisted(self.user)
                    &&& final(registry).entries@ == old(registry).entries@
                }),
            },
    {
        match find_entry(&registry.entries, self.user) {
            Some(_) => Err(WhitelistError::AlreadyListed),
            None => {
                let ghost s0 = registry.entries@;
                let entry = WhitelistEntry {
                    user: self.user,
                    marker: Whitelist { bump: CANONICAL_BUMP },
                };
                registry.entries.push(entry);
                proof {
                    assert(forall|j: int|
                        0 <= j < s0.len() ==> #[trigger] registry.entries@[j] == s0[j]);
                    assert(registry.entries@[s0.len() as int] == entry);
                    assert(entries_unique(registry.entries@));
                    assert forall|u: u64|
                        u != self.user implies #[trigger] spec_listed(registry.entries@, u)
                        == spec_listed(s0, u) by {
                        if spec_listed(registry.entries@, u) {
                            let i = choose|i: int|
                                0 <= i < registry.entries@.len() && (#[trigger] registry.entries@[
                                i]).user == u;
                            assert(i < s0.len() && s0[i].user == u);
                        }
                        if spec_listed(s0, u) {
                            let i = choose|i: int| 0 <= i < s0.len() && (#[trigger] s0[i]).user == u;
                            assert(registry.entries@[i].user == u);
                        }
                    }
                }
                Ok(())
            },
        }
    }
}

/// The inputs of one remove operation: the authorizing admin and the user to
/// unlist.
pub struct RemoveFromWhitelist {
    pub admin: u64,
    pub user: u64,
}

impl RemoveFromWhitelist {
    /// Close the user's marker record. Fails, changing nothing, exactly when
    /// the user is not listed.
    pub fn remove_from_whitelist(&self, registry: &mut WhitelistRegistry) -> (r: Result<
        (),
        WhitelistError,
    >)
        requires
            old(registry).wf(),
        ensures
            final(registry).wf(),
            match r {
                Ok(()) => ({
                    &&& old(registry).spec_is_whitelisted(self.user)
                    &&& !final(registry).spec_is_whitelisted(self.user)
                    &&& forall|u: u64|
                        u != self.user ==> #[trigger] final(registry).spec_is_whitelisted(u) == old(
                            registry,
                        ).spec_is_whitelisted(u)
                }),
                Err(e) => ({
                    &&& e == WhitelistError::NotListed
                    &&& !old(registry).spec_is_whitelisted(self.user)
                    &&& final(registry).entries@ == old(registry).entries@
                }),
            },
    {
        match find_entry(&registry.entries, self.user) {
            Some(i) => {
                let ghost s0 = registry.entries@;
                registry.entries.remove(i);
                proof {
                    assert(forall|j: int|
                        0 <= j < registry.entries@.len() ==> #[trigger] registry.entries@[j] == (
                        if j < i as int {
                            s0[j]
                        } else {
                            s0[j + 1]
                        }));
                    assert(entries_unique(registry.entries@));
                    assert forall|u: u64| #[trigger]
                        spec_listed(registry.entries@, u) == (spec_listed(s0, u) && u
                            != self.user) by {
                        if spec_listed(registry.entries@, u) {
                            let k = choose|k: int|
                                0 <= k < registry.entries@.len() && (#[trigger] registry.entries@[
                                k]).user == u;
                            if k < i as int {
                                assert(s0[k].user == u);
                            } else {
                                assert(s0[k + 1].user == u);
                            }
                        }
                        if spec_listed(s0, u) && u != self.user {
                            let k = choose|k: int|
                                0 <= k < s0.len() && (#[trigger] s0[k]).user == u;
                            if k < i as int {
                                assert(registry.entries@[k].user == u);
                            } else {
                                assert(k > i as int);
                                assert(registry.entries@[k - 1].user == u);
                            }
                        }
                    }
                }
                Ok(())
            },
            None => Err(WhitelistError::NotListed),
        }
    }
}

} // verus!
