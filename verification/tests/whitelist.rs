use escrow_core::whitelist::AddToWhitelist;
use escrow_core::whitelist::RemoveFromWhitelist;
use escrow_core::whitelist::WhitelistError;
use escrow_core::whitelist::WhitelistRegistry;

const ADMIN: u64 = 9;
const USER: u64 = 42;
const OTHER: u64 = 43;

#[test]
fn add_then_listed() {
    let mut registry = WhitelistRegistry::new();
    assert!(!registry.is_whitelisted(USER));

    let op = AddToWhitelist { admin: ADMIN, user: USER };
    op.add_to_whitelist(&mut registry).unwrap();

    assert!(registry.is_whitelisted(USER));
    assert!(!registry.is_whitelisted(OTHER));
}

#[test]
fn add_twice_fails() {
    let mut registry = WhitelistRegistry::new();
    let op = AddToWhitelist { admin: ADMIN, user: USER };
    op.add_to_whitelist(&mut registry).unwrap();
    assert_eq!(
        op.add_to_whitelist(&mut registry),
        Err(WhitelistError::AlreadyListed)
    );
    assert!(registry.is_whitelisted(USER));
}

#[test]
fn remove_then_unlisted() {
    let mut registry = WhitelistRegistry::new();
    AddToWhitelist { admin: ADMIN, user: USER }
        .add_to_whitelist(&mut registry)
        .unwrap();
    AddToWhitelist { admin: ADMIN, user: OTHER }
        .add_to_whitelist(&mut registry)
        .unwrap();

    RemoveFromWhitelist { admin: ADMIN, user: USER }
        .remove_from_whitelist(&mut registry)
        .unwrap();

    assert!(!registry.is_whitelisted(USER));
    assert!(registry.is_whitelisted(OTHER), "removal leaves other users listed");
}

#[test]
fn remove_missing_fails() {
    let mut registry = WhitelistRegistry::new();
    assert_eq!(
        RemoveFromWhitelist { admin: ADMIN, user: USER }.remove_from_whitelist(&mut registry),
        Err(WhitelistError::NotListed)
    );
}
