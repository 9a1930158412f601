use liara_core::download::{Transfer, TransferAction, TransferEvent,
    checksum_error, hex_digest, is_current, keep_partial, model_outdated, progress_due,
    range_header, restart_needed,
};

#[test]
fn installed_model_currency() {
    assert!(is_current("", "anything"));
    assert!(is_current("abc", "abc\n"));
    assert!(!is_current("abc", "abd"));
    assert!(model_outdated("abc", true, "old"));
    assert!(!model_outdated("abc", false, "old"));
    assert!(!model_outdated("", true, "old"));
    assert!(!model_outdated("abc", true, " abc "));
}

#[test]
fn partial_download_of_another_version_is_dropped() {
    assert!(keep_partial("abc", "abc"));
    assert!(!keep_partial("abc", ""));
    assert!(keep_partial("", "x"));
}

#[test]
fn resume_range_and_restart() {
    assert_eq!(range_header(0), None);
    assert_eq!(range_header(1048576).as_deref(), Some("bytes=1048576-"));
    assert!(restart_needed(10, 200));
    assert!(!restart_needed(10, 206));
    assert!(!restart_needed(0, 200));
}

#[test]
fn progress_every_four_megabytes() {
    assert!(!progress_due(3_999_999, 0));
    assert!(progress_due(4_000_000, 0));
    assert!(progress_due(9_000_000, 4_500_000));
}

#[test]
fn digest_hex_and_refusal() {
    assert_eq!(hex_digest(&[0x00, 0x0f, 0xab, 0xff]), "000fabff");
    assert_eq!(hex_digest(&[]), "");
    assert_eq!(checksum_error("", "beef"), None);
    assert_eq!(checksum_error("beef", "beef"), None);
    assert_eq!(
        checksum_error("beef", "dead").as_deref(),
        Some("checksum non valido: atteso beef, ottenuto dead")
    );
}

const HELLO_SHA: &str = "2cf24dba5fb0a30e26e83b2ac5b9e29e1b161e5c1fa7425e73043362938b9824";

fn finish(t: &mut Transfer) -> TransferAction {
    t.step(TransferEvent::End)
}

#[test]
fn transfer_fresh_download_is_verified_and_installed() {
    let mut t = Transfer::new(HELLO_SHA);
    assert!(matches!(t.step(TransferEvent::PartEnd), TransferAction::Request { range: None }));
    assert!(matches!(t.step(TransferEvent::Response(Ok(200))), TransferAction::Receive { restart: false }));
    assert!(matches!(t.step(TransferEvent::Chunk(b"hello".to_vec())), TransferAction::Continue { progress: None }));
    assert_eq!(t.downloaded(), 5);
    assert!(matches!(finish(&mut t), TransferAction::Install));
}

#[test]
fn transfer_resume_hashes_the_partial_file_too() {
    let mut t = Transfer::new(HELLO_SHA);
    assert!(matches!(t.step(TransferEvent::PartChunk(b"hel".to_vec())), TransferAction::ReadPart));
    match t.step(TransferEvent::PartEnd) {
        TransferAction::Request { range: Some(r) } => assert_eq!(r, "bytes=3-"),
        _ => panic!("range request"),
    }
    assert!(matches!(t.step(TransferEvent::Response(Ok(206))), TransferAction::Receive { restart: false }));
    t.step(TransferEvent::Chunk(b"lo".to_vec()));
    assert!(matches!(finish(&mut t), TransferAction::Install));
}

#[test]
fn transfer_restarts_when_the_range_is_ignored() {
    let mut t = Transfer::new(HELLO_SHA);
    t.step(TransferEvent::PartChunk(b"xx".to_vec()));
    t.step(TransferEvent::PartEnd);
    assert!(matches!(t.step(TransferEvent::Response(Ok(200))), TransferAction::Receive { restart: true }));
    assert_eq!(t.downloaded(), 0);
    t.step(TransferEvent::Chunk(b"hello".to_vec()));
    assert!(matches!(finish(&mut t), TransferAction::Install));
}

#[test]
fn transfer_refuses_a_wrong_digest() {
    let mut t = Transfer::new("abc");
    t.step(TransferEvent::PartEnd);
    t.step(TransferEvent::Response(Ok(200)));
    t.step(TransferEvent::Chunk(b"hello".to_vec()));
    match finish(&mut t) {
        TransferAction::Fail { message, remove_part } => {
            assert_eq!(message, format!("checksum non valido: atteso abc, ottenuto {HELLO_SHA}"));
            assert!(remove_part);
        }
        _ => panic!("checksum refusal"),
    }
}

#[test]
fn transfer_errors_and_cancel() {
    let mut t = Transfer::new("");
    t.step(TransferEvent::PartChunk(b"abc".to_vec()));
    t.step(TransferEvent::PartEnd);
    match t.step(TransferEvent::Response(Err("timeout".to_string()))) {
        TransferAction::Fail { message, remove_part } => {
            assert_eq!(message, "download non riuscito: timeout — riprova");
            assert!(remove_part);
        }
        _ => panic!("request failure"),
    }
    let mut c = Transfer::new("");
    c.step(TransferEvent::PartEnd);
    c.step(TransferEvent::Response(Ok(200)));
    match c.step(TransferEvent::Cancelled) {
        TransferAction::Fail { message, remove_part } => {
            assert_eq!(message, "annullato");
            assert!(!remove_part);
        }
        _ => panic!("cancel"),
    }
    // out of step: a body piece before the request
    let mut u = Transfer::new("");
    assert!(matches!(u.step(TransferEvent::Chunk(vec![1])), TransferAction::Unexpected));
}

#[test]
fn transfer_progress_every_four_megabytes() {
    let mut t = Transfer::new("");
    t.step(TransferEvent::PartEnd);
    t.step(TransferEvent::Response(Ok(200)));
    assert!(matches!(
        t.step(TransferEvent::Chunk(vec![0u8; 4_000_000])),
        TransferAction::Continue { progress: Some(4_000_000) }
    ));
    assert!(matches!(t.step(TransferEvent::Chunk(vec![0u8; 10])), TransferAction::Continue { progress: None }));
    assert!(t.has_room(1024));
    assert!(matches!(finish(&mut t), TransferAction::Install));
}
