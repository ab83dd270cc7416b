use aptos_container::error::ContainerError;
use aptos_container::AptosContainer;
use aptos_container::TestContainer;

fn managed_fixture() -> AptosContainer {
    AptosContainer::new(true, None, None, None, None, "localhost", 8080)
}

#[test]
fn roster_query_command_is_env_echo() {
    assert_eq!(AptosContainer::roster_query_command(), "echo $ACCOUNTS");
}

#[test]
fn init_populates_roster_and_queue() {
    let mut c = managed_fixture();
    assert!(c.needs_roster_query());
    let r = c.lazy_init_accounts("acct-A,acct-B,acct-C\n");
    assert!(r.is_ok());
    assert!(!c.needs_roster_query());
    let roster = c.get_all_accounts();
    assert_eq!(roster, vec!["acct-A", "acct-B", "acct-C"]);
    assert_eq!(c.available_count(), 3);
}

#[test]
fn init_fails_on_empty_output() {
    let mut c = managed_fixture();
    let r = c.lazy_init_accounts("");
    assert!(matches!(r, Err(ContainerError::InitializationFailed)));
    assert!(c.needs_roster_query());
}

#[test]
fn init_runs_only_once() {
    let mut c = managed_fixture();
    c.lazy_init_accounts("x,y").unwrap();
    // A second initializer observes the completed state and changes nothing,
    // whatever output it carries.
    c.lazy_init_accounts("z").unwrap();
    assert_eq!(c.get_all_accounts(), vec!["x", "y"]);
    assert_eq!(c.available_count(), 2);
    assert!(!c.needs_roster_query());
}

#[test]
fn duplicate_roster_entries_seed_queue_once() {
    let mut c = managed_fixture();
    c.lazy_init_accounts("a,a,b").unwrap();
    // The roster keeps the output as parsed, but the queue is seeded with
    // each distinct account exactly once, so no two leases can share one.
    assert_eq!(c.get_all_accounts(), vec!["a", "a", "b"]);
    assert_eq!(c.available_count(), 2);
    let l = c.lease(2).unwrap();
    assert_eq!(l, vec!["a", "b"]);
    assert_ne!(l[0], l[1]);
}

#[test]
fn lease_yields_distinct_ids_and_blocks_when_exhausted() {
    let mut c = managed_fixture();
    c.lazy_init_accounts("acct-A,acct-B,acct-C").unwrap();
    let first = c.lease(2).expect("two accounts are available");
    assert_eq!(first, vec!["acct-A", "acct-B"]);
    assert_ne!(first[0], first[1]);
    // A second simultaneous lease of 2 finds only one account and must wait.
    assert!(c.lease(2).is_none());
    assert_eq!(c.available_count(), 1);
    c.release(first);
    // After the release the waiter succeeds.
    let second = c.lease(2).expect("release refilled the queue");
    assert_eq!(second, vec!["acct-C", "acct-A"]);
}

#[test]
fn overlapping_leases_share_no_account() {
    let mut c = managed_fixture();
    c.lazy_init_accounts("a,b,c,d,e").unwrap();
    let l1 = c.lease(2).unwrap();
    let l2 = c.lease(3).unwrap();
    for x in &l1 {
        assert!(!l2.contains(x));
    }
}

#[test]
fn release_restores_pool_size_even_after_failures() {
    let mut c = managed_fixture();
    c.lazy_init_accounts("a,b,c").unwrap();
    for round in 0..4 {
        let leased = c.lease(2).unwrap();
        let work: Result<(), ContainerError> = if round % 2 == 0 {
            Ok(())
        } else {
            Err(ContainerError::PublishFailed)
        };
        let failed = work.is_err();
        let out = c.finish_run(leased, work);
        assert_eq!(out.is_err(), failed);
        assert_eq!(c.available_count(), 3);
    }
}

#[test]
fn override_mode_bypasses_queue() {
    let urls = vec!["http://node.example:8080".to_string()];
    let accounts = vec!["fixed-1".to_string(), "fixed-2".to_string()];
    let mut c = AptosContainer::new(
        false,
        Some(urls),
        Some(9),
        Some(false),
        Some(accounts),
        "",
        0,
    );
    assert_eq!(c.get_node_url(), "http://node.example:8080");
    assert_eq!(c.get_chain_id(), 9);
    assert!(!c.needs_roster_query());
    // The fixed list comes back whatever n is, and nothing is consumed.
    let l1 = c.lease(1).unwrap();
    assert_eq!(l1, vec!["fixed-1", "fixed-2"]);
    let l2 = c.lease(5).unwrap();
    assert_eq!(l2, vec!["fixed-1", "fixed-2"]);
    c.release(l1);
    let l3 = c.lease(2).unwrap();
    assert_eq!(l3, vec!["fixed-1", "fixed-2"]);
}

#[test]
fn managed_fixture_builds_node_url() {
    let c = AptosContainer::new(true, None, None, None, None, "127.0.0.1", 49154);
    assert_eq!(c.get_node_url(), "http://127.0.0.1:49154");
    assert_eq!(c.get_chain_id(), 4);
}

#[test]
fn run_command_outcome_checks_exit_code() {
    let r = aptos_container::run_command_outcome(0, "out".to_string(), "err".to_string());
    let (stdout, stderr) = r.unwrap();
    assert_eq!(stdout, "out");
    assert_eq!(stderr, "err");
    let r = aptos_container::run_command_outcome(
        127,
        "ignored".to_string(),
        "ignored".to_string(),
    );
    assert!(matches!(
        r,
        Err(ContainerError::CommandExecutionFailed { code: 127 })
    ));
}
