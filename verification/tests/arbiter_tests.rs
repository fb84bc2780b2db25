use permission_gateway::arbiter::{arbitrate, canonical_request, respond};
use permission_gateway::{
    ArbitrationOutcome, PendingRegistry, PermissionRequest, PermissionStorage, RuleVerdict,
};

fn request(id: &str, tool: &str, path: &str) -> PermissionRequest {
    PermissionRequest {
        id: id.to_string(),
        session_id: "session-1".to_string(),
        tool: tool.to_string(),
        path: path.to_string(),
        command: None,
    }
}

#[test]
fn test_canonical_request() {
    assert_eq!(canonical_request("Bash", "git push"), "Bash(git push)");
    assert_eq!(canonical_request("Read", "~/.zshrc"), "Read(~/.zshrc)");
}

#[test]
fn test_decide_approves_on_allow_match() {
    let mut storage = PermissionStorage::new();
    storage.add_allow_rule("Bash(git *)".to_string()).unwrap();

    assert_eq!(storage.decide("Bash(git push)"), RuleVerdict::Approved);
    assert_eq!(storage.decide("Bash(npm install)"), RuleVerdict::Undecided);
}

#[test]
fn test_decide_denies_on_deny_match() {
    let mut storage = PermissionStorage::new();
    storage.add_deny_rule("Write(/etc/**)".to_string()).unwrap();

    assert_eq!(storage.decide("Write(/etc/passwd)"), RuleVerdict::Denied);
    assert_eq!(storage.decide("Write(/home/x)"), RuleVerdict::Undecided);
}

#[test]
fn test_decide_deny_wins_over_allow() {
    let mut storage = PermissionStorage::new();
    storage.add_allow_rule("Write(src/**)".to_string()).unwrap();
    storage.add_deny_rule("Write(src/**)".to_string()).unwrap();

    assert_eq!(storage.decide("Write(src/main.rs)"), RuleVerdict::Denied);
}

#[test]
fn test_arbitrate_decided_outcomes() {
    let mut storage = PermissionStorage::new();
    storage.add_allow_rule("Bash(git *)".to_string()).unwrap();
    storage.add_deny_rule("Write(/etc/**)".to_string()).unwrap();
    let mut pending: PendingRegistry<u64> = PendingRegistry::new();

    match arbitrate(&storage, &mut pending, &request("r1", "Bash", "git push"), 1) {
        ArbitrationOutcome::Decided(d) => assert_eq!(d.decision, "approve"),
        _ => panic!("expected a decided outcome"),
    }
    match arbitrate(&storage, &mut pending, &request("r2", "Write", "/etc/passwd"), 2) {
        ArbitrationOutcome::Decided(d) => assert_eq!(d.decision, "deny"),
        _ => panic!("expected a decided outcome"),
    }
    assert_eq!(pending.len(), 0);
}

#[test]
fn test_arbitrate_suspends_undecided_requests() {
    let storage = PermissionStorage::new();
    let mut pending: PendingRegistry<u64> = PendingRegistry::new();

    assert!(matches!(
        arbitrate(&storage, &mut pending, &request("r1", "Bash", "rm -rf /"), 1),
        ArbitrationOutcome::Suspended
    ));
    assert_eq!(pending.len(), 1);

    assert!(matches!(
        arbitrate(&storage, &mut pending, &request("r1", "Bash", "rm -rf /"), 2),
        ArbitrationOutcome::DuplicateRequest
    ));
    assert_eq!(pending.len(), 1);
}

#[test]
fn test_registry_register_and_resolve() {
    let mut pending: PendingRegistry<u64> = PendingRegistry::new();
    assert!(pending.register("a".to_string(), 10));
    assert!(!pending.register("a".to_string(), 11));
    assert_eq!(pending.resolve(&"a".to_string()), Some(10));
    assert_eq!(pending.resolve(&"a".to_string()), None);
}

#[test]
fn test_registry_resolves_in_reverse_order_without_crosstalk() {
    let mut pending: PendingRegistry<u64> = PendingRegistry::new();
    assert!(pending.register("first".to_string(), 1));
    assert!(pending.register("second".to_string(), 2));

    assert_eq!(pending.resolve(&"second".to_string()), Some(2));
    assert_eq!(pending.resolve(&"first".to_string()), Some(1));
    assert_eq!(pending.len(), 0);
}

#[test]
fn test_registry_resolve_unknown_id_is_noop() {
    let mut pending: PendingRegistry<u64> = PendingRegistry::new();
    assert!(pending.register("known".to_string(), 5));

    assert_eq!(pending.resolve(&"unknown".to_string()), None);
    assert_eq!(pending.len(), 1);
    assert_eq!(pending.resolve(&"known".to_string()), Some(5));
}

#[test]
fn test_respond_releases_the_right_waiter() {
    let mut storage = PermissionStorage::new();
    let mut pending: PendingRegistry<u64> = PendingRegistry::new();
    assert!(pending.register("r1".to_string(), 1));
    assert!(pending.register("r2".to_string(), 2));

    let released = respond(
        &mut storage,
        &mut pending,
        &"r2".to_string(),
        true,
        false,
        false,
        "Bash",
        "git push",
        None,
    );
    let (slot, decision) = released.expect("the second waiter should be released");
    assert_eq!(slot, 2);
    assert_eq!(decision.decision, "approve");

    let released = respond(
        &mut storage,
        &mut pending,
        &"r1".to_string(),
        false,
        false,
        false,
        "Bash",
        "git push",
        None,
    );
    let (slot, decision) = released.expect("the first waiter should be released");
    assert_eq!(slot, 1);
    assert_eq!(decision.decision, "deny");
}

#[test]
fn test_respond_persists_rule_before_release() {
    let mut storage = PermissionStorage::new();
    let mut pending: PendingRegistry<u64> = PendingRegistry::new();
    assert!(pending.register("r1".to_string(), 1));

    let released = respond(
        &mut storage,
        &mut pending,
        &"r1".to_string(),
        true,
        true,
        false,
        "Bash",
        "git push origin main",
        Some("git push origin main"),
    );
    assert!(released.is_some());

    let rules = storage.load_permissions().unwrap();
    assert!(rules.allow.contains(&"Bash(git *)".to_string()));
}

#[test]
fn test_respond_remember_deny() {
    let mut storage = PermissionStorage::new();
    let mut pending: PendingRegistry<u64> = PendingRegistry::new();

    let released = respond(
        &mut storage,
        &mut pending,
        &"never-registered".to_string(),
        false,
        false,
        true,
        "Write",
        "src/components/new-file.tsx",
        None,
    );
    assert!(released.is_none());

    let rules = storage.load_permissions().unwrap();
    assert!(rules.deny.contains(&"Write(src/components/**)".to_string()));
}
