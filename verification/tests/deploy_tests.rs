use aptos_container::deploy::{contract_key, named_addresses_param, publish_command, publish_outcome};
use aptos_container::error::ContainerError;
use aptos_container::{transfer_step_outcome, AptosContainer};

#[test]
fn publish_output_needs_success_marker() {
    assert!(publish_outcome("{\"vm_status\": \"Executed successfully\"}").is_ok());
    let r = publish_outcome("{\"vm_status\": \"Aborted\"}");
    assert!(matches!(r, Err(ContainerError::PublishFailed)));
    let r = publish_outcome("");
    assert!(matches!(r, Err(ContainerError::PublishFailed)));
}

#[test]
fn contract_key_joins_key_and_path() {
    assert_eq!(contract_key("0xSECRET-REDACTED", "/work/contracts"), "0xSECRET-REDACTED:/work/contracts");
}

#[test]
fn named_addresses_render_as_flag() {
    let pairs = vec![
        ("alice".to_string(), "0x1".to_string()),
        ("bob".to_string(), "0x2".to_string()),
    ];
    assert_eq!(named_addresses_param(&pairs), "--named-addresses alice=0x1,bob=0x2");
    let one = vec![("alice".to_string(), "0x1".to_string())];
    assert_eq!(named_addresses_param(&one), "--named-addresses alice=0x1");
    let none: Vec<(String, String)> = Vec::new();
    assert_eq!(named_addresses_param(&none), "");
}

#[test]
fn publish_command_has_exact_shape() {
    let cmd = publish_command("/contract/x", "0xkey", "--named-addresses a=0x1", "http://localhost:8080");
    assert_eq!(
        cmd,
        "cd /contract/x && aptos move publish --skip-fetch-latest-git-deps --private-key 0xkey --assume-yes --named-addresses a=0x1 --url http://localhost:8080 --included-artifacts none"
    );
}

#[test]
fn publish_plan_runs_once_per_sub_package_in_order() {
    let c = AptosContainer::new(true, None, None, None, None, "localhost", 8080);
    let named: Vec<(String, String)> = Vec::new();
    let subs = Some(vec!["core".to_string(), "ext".to_string()]);
    let cmds = c.publish_plan("/contract/x", "0xkey", &named, &subs);
    assert_eq!(cmds.len(), 2);
    assert!(cmds[0].starts_with("cd /contract/x/core && aptos move publish"));
    assert!(cmds[1].starts_with("cd /contract/x/ext && aptos move publish"));
    let whole = c.publish_plan("/contract/x", "0xkey", &named, &None);
    assert_eq!(whole.len(), 1);
    assert!(whole[0].starts_with("cd /contract/x && aptos move publish"));
    assert!(whole[0].ends_with("--url http://localhost:8080 --included-artifacts none"));
}

#[test]
fn second_upload_with_same_key_skips_publish() {
    let mut c = AptosContainer::new(true, None, None, None, None, "localhost", 8080);
    let key = contract_key("0xkey", "/abs/contracts");
    assert!(c.should_publish(&key, false));
    c.record_published(key.clone(), Ok(())).unwrap();
    // The publish tool would now be triggered exactly once: a second call
    // with the same key and no override short-circuits.
    assert!(!c.should_publish(&key, false));
    let other = contract_key("0xkey", "/abs/other");
    assert!(c.should_publish(&other, false));
}

#[test]
fn override_republishes_and_recaches_only_on_success() {
    let mut c = AptosContainer::new(true, None, None, None, None, "localhost", 8080);
    let key = contract_key("0xkey", "/abs/contracts");
    c.record_published(key.clone(), Ok(())).unwrap();
    // Even a cached key is re-staged and re-published under override.
    assert!(c.should_publish(&key, true));
    // A failed publish never marks the key as cached.
    let fresh = contract_key("0xkey", "/abs/fresh");
    assert!(c.should_publish(&fresh, false));
    let r = c.record_published(fresh.clone(), Err(ContainerError::PublishFailed));
    assert!(matches!(r, Err(ContainerError::PublishFailed)));
    assert!(c.should_publish(&fresh, false));
}

#[test]
fn disabled_deployment_skips_everything() {
    let urls = vec!["http://node:8080".to_string()];
    let accounts = vec!["a".to_string()];
    let c = AptosContainer::new(false, Some(urls), Some(4), Some(false), Some(accounts), "", 0);
    let key = contract_key("0xkey", "/abs/contracts");
    assert!(!c.should_publish(&key, false));
    assert!(!c.should_publish(&key, true));
}

#[test]
fn upload_plan_stages_manifest_and_publishes_once() {
    let mut c = AptosContainer::new(true, None, None, None, None, "localhost", 8080);
    let files = vec![("sources/m.move".to_string(), b"module m {}".to_vec())];
    let named = vec![("m".to_string(), "0x7".to_string())];
    let plan = c
        .upload_plan("0xkey", "/abs/pkg", "rnd1", &files, &named, &None, false)
        .expect("nothing cached yet");
    assert_eq!(plan.staging, "/contract/rnd1");
    assert_eq!(plan.transfer_commands.len(), 3);
    assert_eq!(plan.transfer_commands[0], "rm -rf /contract/rnd1");
    assert!(plan.transfer_commands[1].contains("sources/m.move"));
    // Without sub-packages a placeholder manifest is written last,
    assert!(plan.transfer_commands[2].contains("Move.toml"));
    // and the tool runs once against the staging root.
    assert_eq!(plan.publish_commands.len(), 1);
    assert_eq!(
        plan.publish_commands[0],
        "cd /contract/rnd1 && aptos move publish --skip-fetch-latest-git-deps --private-key 0xkey --assume-yes --named-addresses m=0x7 --url http://localhost:8080 --included-artifacts none"
    );
    // Once the publish is recorded, the same key plans nothing more, but a
    // fresh staging name is used when the caller overrides.
    let key = contract_key("0xkey", "/abs/pkg");
    c.record_published(key, Ok(())).unwrap();
    assert!(c
        .upload_plan("0xkey", "/abs/pkg", "rnd2", &files, &named, &None, false)
        .is_none());
    let again = c
        .upload_plan("0xkey", "/abs/pkg", "rnd3", &files, &named, &None, true)
        .expect("override forces a re-publish");
    assert_eq!(again.staging, "/contract/rnd3");
}

#[test]
fn upload_plan_with_sub_packages_skips_manifest() {
    let c = AptosContainer::new(true, None, None, None, None, "localhost", 8080);
    let files = vec![("core/Move.toml".to_string(), b"[package]".to_vec())];
    let named: Vec<(String, String)> = Vec::new();
    let subs = Some(vec!["core".to_string()]);
    let plan = c
        .upload_plan("0xkey", "/abs/pkg", "rnd9", &files, &named, &subs, false)
        .unwrap();
    // One removal and one chunk; no placeholder manifest is injected.
    assert_eq!(plan.transfer_commands.len(), 2);
    assert!(!plan.transfer_commands[1].contains("'/contract/rnd9/Move.toml'"));
    assert_eq!(plan.publish_commands.len(), 1);
    assert!(plan.publish_commands[0].starts_with("cd /contract/rnd9/core && "));
}

#[test]
fn transfer_step_fails_on_any_stderr() {
    assert!(transfer_step_outcome("cmd".to_string(), String::new()).is_ok());
    let r = transfer_step_outcome("cmd x".to_string(), "boom".to_string());
    match r {
        Err(ContainerError::CommandOutputFailed { command, stderr }) => {
            assert_eq!(command, "cmd x");
            assert_eq!(stderr, "boom");
        }
        _ => panic!("expected CommandOutputFailed"),
    }
}
