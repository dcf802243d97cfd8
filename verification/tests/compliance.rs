use rwa_contracts::allowlist::ALLOWLIST_PAGE_SIZE;
use rwa_contracts::compliance::{
    ComplianceError, ComplianceRecord, ComplianceRegistry, ComplianceStatus, RegistryParts,
    COMPLIANCE_VERSION,
};
use rwa_contracts::jurisdiction::{parse_jurisdiction, Jurisdiction};
use rwa_contracts::AccountId;

/// The registry's own contract address.
const REGISTRY_ID: AccountId = 1;

/// Hands out fresh account identifiers.
struct Accounts {
    next: AccountId,
}

impl Accounts {
    fn new() -> Self {
        Accounts { next: 100 }
    }

    fn generate(&mut self) -> AccountId {
        self.next += 1;
        self.next
    }
}

fn setup() -> (Accounts, ComplianceRegistry, AccountId) {
    let mut accounts = Accounts::new();
    let mut client = ComplianceRegistry::new(REGISTRY_ID);
    let admin = accounts.generate();
    client.initialize(admin).unwrap();
    (accounts, client, admin)
}

#[test]
fn test_initialize_sets_admin() {
    let (_accounts, client, admin) = setup();
    assert_eq!(client.get_admin(), Ok(admin));
    assert_eq!(client.get_allowlist().len(), 0);
}

#[test]
fn test_version() {
    let (_accounts, client, _admin) = setup();
    assert_eq!(client.version(), COMPLIANCE_VERSION);
}

#[test]
fn test_double_initialize_fails() {
    let (mut accounts, mut client, admin) = setup();
    let other = accounts.generate();
    let r = client.initialize(other);
    assert_eq!(r, Err(ComplianceError::AlreadyInitialized));
    assert_eq!(r.unwrap_err().code(), 1);
    assert_eq!(client.get_admin(), Ok(admin));
}

#[test]
fn test_add_to_allowlist_is_allowed() {
    let (mut accounts, mut client, admin) = setup();
    let user = accounts.generate();
    client.add_to_allowlist(admin, user, "US", 0, 0).unwrap();
    assert!(client.is_allowed(user, 0));
    assert_eq!(client.get_allowlist().len(), 1);
}

#[test]
fn test_unknown_address_not_allowed() {
    let (mut accounts, client, _admin) = setup();
    let stranger = accounts.generate();
    assert!(!client.is_allowed(stranger, 0));
    assert!(client.get_record(stranger).is_none());
}

#[test]
fn test_get_record_fields() {
    let (mut accounts, mut client, admin) = setup();
    let user = accounts.generate();
    client.add_to_allowlist(admin, user, "KE", 1000, 0).unwrap();
    let rec = client.get_record(user).unwrap();
    assert_eq!(rec.address, user);
    assert_eq!(rec.status, ComplianceStatus::Approved);
    assert_eq!(rec.jurisdiction.letters(), *b"KE");
    assert_eq!(rec.expires_at, 1000);
}

#[test]
fn test_suspend_blocks_transfer() {
    let (mut accounts, mut client, admin) = setup();
    let user = accounts.generate();
    client.add_to_allowlist(admin, user, "US", 0, 0).unwrap();
    assert!(client.is_allowed(user, 0));
    client.suspend(admin, user).unwrap();
    assert!(!client.is_allowed(user, 0));
    assert_eq!(client.get_record(user).unwrap().status, ComplianceStatus::Suspended);
}

#[test]
fn test_remove_clears_record() {
    let (mut accounts, mut client, admin) = setup();
    let user = accounts.generate();
    client.add_to_allowlist(admin, user, "US", 0, 0).unwrap();
    client.remove(admin, user).unwrap();
    assert!(!client.is_allowed(user, 0));
    assert!(client.get_record(user).is_none());
    assert_eq!(client.get_allowlist().len(), 0);
}

#[test]
fn test_expired_kyc_not_allowed() {
    let (mut accounts, mut client, admin) = setup();
    let user = accounts.generate();
    client.add_to_allowlist(admin, user, "US", 100, 10).unwrap();
    assert!(client.is_allowed(user, 10));
    assert!(!client.is_allowed(user, 101));
}

#[test]
fn test_block_jurisdiction_denies_approved() {
    let (mut accounts, mut client, admin) = setup();
    let user = accounts.generate();
    client.add_to_allowlist(admin, user, "IR", 0, 0).unwrap();
    assert!(client.is_allowed(user, 0));
    client.block_jurisdiction(admin, "IR").unwrap();
    assert!(client.is_jurisdiction_blocked("IR"));
    assert!(!client.is_allowed(user, 0));
}

#[test]
fn test_unblock_jurisdiction_restores() {
    let (mut accounts, mut client, admin) = setup();
    let user = accounts.generate();
    client.add_to_allowlist(admin, user, "IR", 0, 0).unwrap();
    client.block_jurisdiction(admin, "IR").unwrap();
    assert!(!client.is_allowed(user, 0));
    client.unblock_jurisdiction(admin, "IR").unwrap();
    assert!(!client.is_jurisdiction_blocked("IR"));
    assert!(client.is_allowed(user, 0));
}

#[test]
fn test_non_admin_rejected() {
    let (mut accounts, mut client, _admin) = setup();
    let impostor = accounts.generate();
    let user = accounts.generate();
    let r = client.add_to_allowlist(impostor, user, "US", 0, 0);
    assert_eq!(r, Err(ComplianceError::Unauthorized));
    assert_eq!(r.unwrap_err().code(), 5);
}

#[test]
fn test_expiry_in_past_rejected() {
    let (mut accounts, mut client, admin) = setup();
    let user = accounts.generate();
    let r = client.add_to_allowlist(admin, user, "US", 100, 500);
    assert_eq!(r, Err(ComplianceError::InvalidExpiry));
    assert_eq!(r.unwrap_err().code(), 4);
}

#[test]
fn test_non_admin_add_to_allowlist_is_unauthorized() {
    let mut accounts = Accounts::new();
    let mut client = ComplianceRegistry::new(REGISTRY_ID);
    let admin = accounts.generate();
    client.initialize(admin).unwrap();

    let non_admin = accounts.generate();
    let user = accounts.generate();
    let r = client.add_to_allowlist(non_admin, user, "US", 0, 0);
    assert_eq!(r, Err(ComplianceError::Unauthorized));
    assert_eq!(r.unwrap_err().code(), 5);
    assert!(client.get_record(user).is_none());
}

#[test]
fn test_suspend_missing_record_rejected() {
    let (mut accounts, mut client, admin) = setup();
    let ghost = accounts.generate();
    let r = client.suspend(admin, ghost);
    assert_eq!(r, Err(ComplianceError::RecordNotFound));
    assert_eq!(r.unwrap_err().code(), 3);
}

#[test]
fn test_get_admin_before_init_panics_not_initialized() {
    let client = ComplianceRegistry::new(REGISTRY_ID);
    let r = client.get_admin();
    assert_eq!(r, Err(ComplianceError::NotInitialized));
    assert_eq!(r.unwrap_err().code(), 2);
}

#[test]
fn test_get_admin_returns_correct_address_after_initialize() {
    let (mut accounts, client, admin) = setup();
    assert_eq!(client.get_admin(), Ok(admin));
    let other = accounts.generate();
    assert_ne!(client.get_admin(), Ok(other));
}

#[test]
fn test_invalid_jurisdiction_rejected() {
    let (mut accounts, mut client, admin) = setup();
    let user = accounts.generate();
    let r = client.add_to_allowlist(admin, user, "United States", 0, 0);
    assert_eq!(r, Err(ComplianceError::InvalidJurisdiction));
    assert_eq!(r.unwrap_err().code(), 6);
}

#[test]
fn test_empty_jurisdiction_rejected() {
    let (mut accounts, mut client, admin) = setup();
    let user = accounts.generate();
    let r = client.add_to_allowlist(admin, user, "", 0, 0);
    assert_eq!(r, Err(ComplianceError::InvalidJurisdiction));
    assert_eq!(r.unwrap_err().code(), 6);
}

#[test]
fn test_single_char_jurisdiction_rejected() {
    let (mut accounts, mut client, admin) = setup();
    let user = accounts.generate();
    let r = client.add_to_allowlist(admin, user, "U", 0, 0);
    assert_eq!(r, Err(ComplianceError::InvalidJurisdiction));
    assert_eq!(r.unwrap_err().code(), 6);
}

#[test]
fn test_lowercase_jurisdiction_normalized() {
    let (mut accounts, mut client, admin) = setup();
    let user = accounts.generate();
    client.add_to_allowlist(admin, user, "us", 0, 0).unwrap();
    assert!(client.is_allowed(user, 0));
    assert_eq!(client.get_record(user).unwrap().jurisdiction.letters(), *b"US");
}

#[test]
fn test_status_of_distinguishes_unseen_from_approved_and_suspended() {
    let (mut accounts, mut client, admin) = setup();
    let stranger = accounts.generate();
    let user = accounts.generate();

    assert_eq!(client.status_of(stranger), None);

    client.add_to_allowlist(admin, user, "US", 0, 0).unwrap();
    assert_eq!(client.status_of(user), Some(ComplianceStatus::Approved));

    client.suspend(admin, user).unwrap();
    assert_eq!(client.status_of(user), Some(ComplianceStatus::Suspended));
}

#[test]
fn test_get_allowlist_basic_membership() {
    let (mut accounts, mut client, admin) = setup();
    let user1 = accounts.generate();
    let user2 = accounts.generate();

    assert_eq!(client.get_allowlist().len(), 0);

    client.add_to_allowlist(admin, user1, "US", 0, 0).unwrap();
    let list = client.get_allowlist();
    assert_eq!(list.len(), 1);
    assert_eq!(list[0], user1);

    client.add_to_allowlist(admin, user2, "DE", 0, 0).unwrap();
    let list = client.get_allowlist();
    assert_eq!(list.len(), 2);
    assert_eq!(list[0], user1);
    assert_eq!(list[1], user2);
}

#[test]
fn test_get_allowlist_after_removal() {
    let (mut accounts, mut client, admin) = setup();
    let user1 = accounts.generate();
    let user2 = accounts.generate();

    client.add_to_allowlist(admin, user1, "US", 0, 0).unwrap();
    client.add_to_allowlist(admin, user2, "US", 0, 0).unwrap();
    assert_eq!(client.get_allowlist().len(), 2);

    client.remove(admin, user1).unwrap();
    let list = client.get_allowlist();
    assert_eq!(list.len(), 1);
    assert_eq!(list[0], user2);
}

#[test]
fn test_get_allowlist_page_rollover() {
    let (mut accounts, mut client, admin) = setup();

    let mut users = Vec::new();
    for _i in 0..250 {
        let user = accounts.generate();
        users.push(user);
        client.add_to_allowlist(admin, user, "US", 0, 0).unwrap();
    }

    let allowlist = client.get_allowlist();
    assert_eq!(allowlist.len(), 250);

    assert_eq!(allowlist[0], users[0]);
    assert_eq!(allowlist[125], users[125]);
    assert_eq!(allowlist[249], users[249]);
    assert_eq!(client.allowlist_page_count(), 2);
}

#[test]
fn test_re_approve_removed_address_single_page_slot() {
    let (mut accounts, mut client, admin) = setup();
    let user = accounts.generate();

    client.add_to_allowlist(admin, user, "US", 0, 0).unwrap();
    let initial_list = client.get_allowlist();
    assert_eq!(initial_list.len(), 1);
    assert_eq!(initial_list[0], user);

    client.remove(admin, user).unwrap();
    let after_remove = client.get_allowlist();
    assert_eq!(after_remove.len(), 0);

    client.add_to_allowlist(admin, user, "US", 0, 0).unwrap();
    let after_readd = client.get_allowlist();
    assert_eq!(after_readd.len(), 1);
    assert_eq!(after_readd[0], user);
}

#[test]
fn test_prune_expired_removes_from_allowlist() {
    let (mut accounts, mut client, admin) = setup();
    let user_expire = accounts.generate();
    let user_persist = accounts.generate();

    client.add_to_allowlist(admin, user_expire, "US", 100, 10).unwrap();
    client.add_to_allowlist(admin, user_persist, "US", 0, 10).unwrap();
    assert_eq!(client.get_allowlist().len(), 2);

    assert!(!client.is_allowed(user_expire, 101));
    assert!(client.is_allowed(user_persist, 101));

    client.prune_expired(admin, 101).unwrap();

    let list = client.get_allowlist();
    assert_eq!(list.len(), 1);
    assert_eq!(list[0], user_persist);

    assert!(client.get_record(user_expire).is_none());
    assert!(client.get_record(user_persist).is_some());
}

#[test]
fn test_admin_state_survives_ttl_boundary() {
    let mut accounts = Accounts::new();
    let admin = accounts.generate();
    let mut client = ComplianceRegistry::new(REGISTRY_ID);
    client.initialize(admin).unwrap();
    assert_eq!(client.get_admin(), Ok(admin));
    // Half a million ledgers later the admin is still the admin.
    let later: u32 = 500_000;
    assert!(client.add_to_allowlist(admin, accounts.generate(), "US", 0, later).is_ok());
    assert_eq!(client.get_admin(), Ok(admin), "Admin state must survive TTL boundary");
}

#[test]
fn test_allowlist_entries_survive_ttl_boundary() {
    let mut accounts = Accounts::new();
    let admin = accounts.generate();
    let user1 = accounts.generate();
    let user2 = accounts.generate();
    let mut client = ComplianceRegistry::new(REGISTRY_ID);
    client.initialize(admin).unwrap();
    client.add_to_allowlist(admin, user1, "US", 0, 0).unwrap();
    client.add_to_allowlist(admin, user2, "US", 0, 0).unwrap();
    assert_eq!(client.get_allowlist().len(), 2);

    let later: u32 = 500_000;
    assert_eq!(
        client.get_allowlist().len(),
        2,
        "Allowlist entries must survive TTL boundary"
    );
    assert!(client.is_allowed(user1, later));
    assert!(client.is_allowed(user2, later));
}

// ---- further cases ----

#[test]
fn test_registry_operations_before_initialize_are_refused() {
    let mut client = ComplianceRegistry::new(REGISTRY_ID);
    assert_eq!(client.add_to_allowlist(1, 2, "US", 0, 0), Err(ComplianceError::NotInitialized));
    assert_eq!(client.suspend(1, 2), Err(ComplianceError::NotInitialized));
    assert_eq!(client.remove(1, 2), Err(ComplianceError::NotInitialized));
    assert_eq!(client.block_jurisdiction(1, "US"), Err(ComplianceError::NotInitialized));
    assert_eq!(client.prune_expired(1, 0), Err(ComplianceError::NotInitialized));
    assert!(client.get_allowlist().is_empty());
}

#[test]
fn test_remove_missing_record_rejected() {
    let (mut accounts, mut client, admin) = setup();
    let ghost = accounts.generate();
    assert_eq!(client.remove(admin, ghost), Err(ComplianceError::RecordNotFound));
}

#[test]
fn test_non_letter_jurisdiction_rejected() {
    let (mut accounts, mut client, admin) = setup();
    let user = accounts.generate();
    assert_eq!(client.add_to_allowlist(admin, user, "U1", 0, 0), Err(ComplianceError::InvalidJurisdiction));
    assert_eq!(client.block_jurisdiction(admin, "??"), Err(ComplianceError::InvalidJurisdiction));
    assert!(!client.is_jurisdiction_blocked("I"));
}

#[test]
fn test_jurisdiction_parsing() {
    assert_eq!(parse_jurisdiction("de").unwrap().letters(), *b"DE");
    assert_eq!(parse_jurisdiction("Ke").unwrap().letters(), *b"KE");
    assert_eq!(parse_jurisdiction("de"), parse_jurisdiction("DE"));
    assert!(parse_jurisdiction("DEU").is_none());
    assert!(parse_jurisdiction("é1").is_none());
}

#[test]
fn test_expiry_boundary() {
    let (mut accounts, mut client, admin) = setup();
    let user = accounts.generate();
    // An expiry equal to the current sequence is accepted and holds through it.
    client.add_to_allowlist(admin, user, "US", 50, 50).unwrap();
    assert!(client.is_allowed(user, 50));
    assert!(!client.is_allowed(user, 51));
}

#[test]
fn test_reapproval_keeps_slot_and_lifts_suspension() {
    let (mut accounts, mut client, admin) = setup();
    let user1 = accounts.generate();
    let user2 = accounts.generate();
    client.add_to_allowlist(admin, user1, "US", 0, 0).unwrap();
    client.add_to_allowlist(admin, user2, "US", 0, 0).unwrap();
    client.suspend(admin, user1).unwrap();
    client.add_to_allowlist(admin, user1, "fr", 0, 0).unwrap();
    assert!(client.is_allowed(user1, 0));
    assert_eq!(client.get_allowlist(), vec![user1, user2]);
    assert_eq!(client.get_record(user1).unwrap().jurisdiction.letters(), *b"FR");
}

#[test]
fn test_pages_fill_before_rollover() {
    let (mut accounts, mut client, admin) = setup();
    let mut first = 0;
    for i in 0..ALLOWLIST_PAGE_SIZE {
        let user = accounts.generate();
        if i == 0 {
            first = user;
        }
        client.add_to_allowlist(admin, user, "US", 0, 0).unwrap();
    }
    assert_eq!(client.allowlist_page_count(), 1);
    // A freed slot on the last page is reused before a new page is opened.
    client.remove(admin, first).unwrap();
    client.add_to_allowlist(admin, accounts.generate(), "US", 0, 0).unwrap();
    assert_eq!(client.allowlist_page_count(), 1);
    client.add_to_allowlist(admin, accounts.generate(), "US", 0, 0).unwrap();
    assert_eq!(client.allowlist_page_count(), 2);
    assert_eq!(client.get_allowlist().len(), ALLOWLIST_PAGE_SIZE + 1);
}

#[test]
fn test_prune_keeps_order_and_live_suspended_records() {
    let (mut accounts, mut client, admin) = setup();
    let a = accounts.generate();
    let b = accounts.generate();
    let c = accounts.generate();
    client.add_to_allowlist(admin, a, "US", 0, 0).unwrap();
    client.add_to_allowlist(admin, b, "US", 5, 0).unwrap();
    client.add_to_allowlist(admin, c, "US", 20, 0).unwrap();
    client.suspend(admin, c).unwrap();
    client.prune_expired(admin, 10).unwrap();
    assert_eq!(client.get_allowlist(), vec![a, c]);
    assert_eq!(client.status_of(c), Some(ComplianceStatus::Suspended));
    assert_eq!(client.status_of(b), None);
}

#[test]
fn test_registry_parts_round_trip() {
    let (mut accounts, mut client, admin) = setup();
    let a = accounts.generate();
    let b = accounts.generate();
    client.add_to_allowlist(admin, a, "us", 0, 0).unwrap();
    client.add_to_allowlist(admin, b, "KE", 70, 0).unwrap();
    client.suspend(admin, a).unwrap();
    client.block_jurisdiction(admin, "IR").unwrap();

    let parts = client.to_parts();
    assert_eq!(parts.id, REGISTRY_ID);
    assert_eq!(parts.records.len(), 2);
    assert_eq!(parts.records[0].address, a);
    let back = ComplianceRegistry::from_parts(parts).unwrap();
    assert_eq!(back.get_admin(), Ok(admin));
    assert_eq!(back.get_allowlist(), vec![a, b]);
    assert_eq!(back.status_of(a), Some(ComplianceStatus::Suspended));
    assert_eq!(back.get_record(b), client.get_record(b));
    assert!(back.is_jurisdiction_blocked("ir"));
    assert!(back.is_allowed(b, 70));
    assert!(!back.is_allowed(b, 71));
}

#[test]
fn test_registry_parts_rejected_when_inconsistent() {
    let us = Jurisdiction { first: b'U', second: b'S' };
    let rec = |address| ComplianceRecord {
        address,
        status: ComplianceStatus::Approved,
        jurisdiction: us,
        expires_at: 0,
    };
    let twice = RegistryParts { id: REGISTRY_ID, admin: Some(5), records: vec![rec(7), rec(8), rec(7)], blocked: vec![] };
    assert!(ComplianceRegistry::from_parts(twice).is_none());
    let mut bad = rec(9);
    bad.jurisdiction = Jurisdiction { first: b'u', second: b'S' };
    let invalid = RegistryParts { id: REGISTRY_ID, admin: Some(5), records: vec![rec(7), bad], blocked: vec![] };
    assert!(ComplianceRegistry::from_parts(invalid).is_none());
    let fine = RegistryParts { id: REGISTRY_ID, admin: None, records: vec![rec(7), rec(8)], blocked: vec![us] };
    let r = ComplianceRegistry::from_parts(fine).unwrap();
    assert_eq!(r.get_allowlist(), vec![7, 8]);
    assert!(!r.is_allowed(7, 0));
    assert_eq!(r.get_admin(), Err(ComplianceError::NotInitialized));
}
