use base64::Engine;

use aptos_container::transfer::{
    base64_encode, chunk_append_command, manifest_command, remove_dir_command, split_chunks,
    CONTENT_MAX_CHARS,
};
use aptos_container::AptosContainer;

#[test]
fn chunking_covers_payload_exactly() {
    let payload = "abcdefghij";
    let chunks = split_chunks(payload, 4);
    assert_eq!(chunks, vec!["abcd", "efgh", "ij"]);
    let chunks = split_chunks(payload, 5);
    assert_eq!(chunks, vec!["abcde", "fghij"]);
    let chunks = split_chunks("", 4);
    assert!(chunks.is_empty());
    let chunks = split_chunks("xy", 120000);
    assert_eq!(chunks, vec!["xy"]);
}

#[test]
fn multi_chunk_file_reassembles_byte_for_byte() {
    // Binary, non-UTF8 content long enough to span many chunks.
    let mut content: Vec<u8> = Vec::new();
    for i in 0..1024u32 {
        content.push((i % 256) as u8);
    }
    let encoded = base64_encode(&content);
    let chunks = split_chunks(encoded.as_str(), 100);
    assert!(chunks.len() > 1);
    // Applying the chunks strictly in order rebuilds the encoded payload,
    let mut rebuilt = String::new();
    for c in &chunks {
        rebuilt.push_str(c);
    }
    assert_eq!(rebuilt, encoded);
    // and decoding it yields the original bytes exactly.
    let decoded = base64::prelude::BASE64_STANDARD.decode(rebuilt).unwrap();
    assert_eq!(decoded, content);
}

#[test]
fn reordered_chunks_corrupt_the_file() {
    let mut content: Vec<u8> = Vec::new();
    for i in 0..300u32 {
        content.push((i % 251) as u8);
    }
    let encoded = base64_encode(&content);
    let chunks = split_chunks(encoded.as_str(), 64);
    assert!(chunks.len() >= 2);
    assert_ne!(chunks[0], chunks[1]);
    let mut swapped = String::new();
    swapped.push_str(&chunks[1]);
    swapped.push_str(&chunks[0]);
    for c in chunks.iter().skip(2) {
        swapped.push_str(c);
    }
    assert_ne!(swapped, encoded);
    match base64::prelude::BASE64_STANDARD.decode(swapped) {
        Ok(bytes) => assert_ne!(bytes, content),
        Err(_) => {}
    }
}

#[test]
fn chunk_command_appends_in_place() {
    let cmd = chunk_append_command("/contract/x/sources/m.move", "aGk=");
    assert_eq!(
        cmd,
        "mkdir -p \"$(dirname '/contract/x/sources/m.move')\" && (echo 'aGk=' | base64 --decode >> '/contract/x/sources/m.move')"
    );
}

#[test]
fn remove_command_clears_staging() {
    assert_eq!(remove_dir_command("/contract/abc123"), "rm -rf /contract/abc123");
}

#[test]
fn manifest_command_writes_placeholder() {
    let cmd = manifest_command("/contract/abc123");
    assert_eq!(
        cmd,
        "mkdir -p \"$(dirname '/contract/abc123/Move.toml')\" && (echo 'AA==' | base64 --decode > '/contract/abc123/Move.toml')"
    );
}

#[test]
fn copy_contracts_plans_removal_then_ordered_chunks() {
    let c = AptosContainer::new(true, None, None, None, None, "localhost", 8080);
    let files = vec![
        ("sources/m.move".to_string(), b"module m {}".to_vec()),
        ("Move.toml".to_string(), b"[package]".to_vec()),
    ];
    let (staging, cmds) = c.copy_contracts("rnd42", &files);
    assert_eq!(staging, "/contract/rnd42");
    assert_eq!(cmds.len(), 3);
    assert_eq!(cmds[0], "rm -rf /contract/rnd42");
    let enc0 = base64::prelude::BASE64_STANDARD.encode(b"module m {}");
    assert_eq!(
        cmds[1],
        format!(
            "mkdir -p \"$(dirname '/contract/rnd42/sources/m.move')\" && (echo '{}' | base64 --decode >> '/contract/rnd42/sources/m.move')",
            enc0
        )
    );
    let enc1 = base64::prelude::BASE64_STANDARD.encode(b"[package]");
    assert_eq!(
        cmds[2],
        format!(
            "mkdir -p \"$(dirname '/contract/rnd42/Move.toml')\" && (echo '{}' | base64 --decode >> '/contract/rnd42/Move.toml')",
            enc1
        )
    );
}

#[test]
fn chunk_ceiling_matches_command_length_budget() {
    assert_eq!(CONTENT_MAX_CHARS, 120000);
}
