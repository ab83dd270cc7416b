use aptos_container::strutil::{split_commas, str_contains, trim_ws};
use aptos_container::utils::{filter_pattern, generate_random_string, should_transfer};

#[test]
fn filter_keeps_sources_and_drops_metadata() {
    // A tree holding .git/config, target/debug/a.out and sources/m.move (2 KB)
    // transfers only the source file.
    let root = "/work/tree";
    let cases = [
        ("/work/tree/.git/config", ".git/config", 120u64, false),
        ("/work/tree/target/debug/a.out", "target/debug/a.out", 4096u64, false),
        ("/work/tree/sources/m.move", "sources/m.move", 2048u64, true),
    ];
    for (path, rel, size, expected) in cases {
        assert!(path.starts_with(root));
        let r = should_transfer(filter_pattern(), path, rel, size)
            .expect("the filter pattern is valid");
        assert_eq!(r, expected, "path {}", path);
    }
}

#[test]
fn filter_drops_build_dirs_lockfiles_and_huge_files() {
    let f = filter_pattern();
    assert_eq!(should_transfer(f, "/t/build/out.mv", "build/out.mv", 10), Some(false));
    assert_eq!(should_transfer(f, "/t/Cargo.lock", "Cargo.lock", 10), Some(false));
    assert_eq!(should_transfer(f, "/t/.aptos/state", ".aptos/state", 10), Some(false));
    assert_eq!(should_transfer(f, "/t/.idea/ws.xml", ".idea/ws.xml", 10), Some(false));
    // Exactly at the ceiling passes; one byte over does not.
    assert_eq!(should_transfer(f, "/t/big.bin", "big.bin", 1048576), Some(true));
    assert_eq!(should_transfer(f, "/t/big.bin", "big.bin", 1048577), Some(false));
}

#[test]
fn random_names_have_requested_length() {
    let a = generate_random_string(6);
    assert_eq!(a.chars().count(), 6);
    assert!(a.chars().all(|c| c.is_ascii_alphanumeric()));
    let b = generate_random_string(0);
    assert!(b.is_empty());
}

#[test]
fn trim_strips_surrounding_whitespace() {
    assert_eq!(trim_ws(" \n\tacct-A,acct-B\r\n "), "acct-A,acct-B");
    assert_eq!(trim_ws("plain"), "plain");
    assert_eq!(trim_ws(" \n\t"), "");
}

#[test]
fn split_keeps_every_field() {
    assert_eq!(split_commas("a,b,c"), vec!["a", "b", "c"]);
    assert_eq!(split_commas("solo"), vec!["solo"]);
    assert_eq!(split_commas("x,,y"), vec!["x", "", "y"]);
    assert_eq!(split_commas(""), vec![""]);
}

#[test]
fn substring_search_is_exact() {
    assert!(str_contains("prefix /build/ suffix", "/build/"));
    assert!(!str_contains("prefix /built/ suffix", "/build/"));
    assert!(str_contains("anything", ""));
    assert!(!str_contains("short", "much longer needle"));
}
