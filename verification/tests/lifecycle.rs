//! The command lifecycle end to end: keys, enqueue, dispatch, reports,
//! uploads, and the administrative operations.
use base64::Engine;

use stargazer::catalog::{Catalog, Key};
use stargazer::commands::{CommandSql, DispatchResult, EnqueueError, ReportError};
use stargazer::images::ImageDirectory;
use stargazer::password::{is_valid_char, verify_password};
use stargazer::upload::{UploadError, UploadImage};

fn setup() -> (Catalog, String) {
    let mut cat = Catalog::new();
    let token = String::from("token-alpha");
    cat.keys.push(Key {
        id: 1,
        api_token: token.clone(),
        name: String::from("Observatory"),
    });
    cat.next_key_id = 2;
    (cat, token)
}

fn jpeg_bytes() -> Vec<u8> {
    // A minimal JPEG signature followed by padding.
    let mut b = vec![0xffu8, 0xd8, 0xff, 0xe0, 0x00, 0x10, 0x4a, 0x46, 0x49, 0x46, 0x00];
    b.extend_from_slice(&[0u8; 32]);
    b
}

#[test]
fn test_password_hash_invalid() {
    let password = "password123";
    let hash = "invalid_hash";
    assert!(verify_password(password, hash).is_err());
}

#[test]
fn password_matches_stored_value() {
    assert!(verify_password("password123", "password123").is_ok());
}

#[test]
fn valid_chars_accept_letters_digits_punctuation() {
    assert!(is_valid_char('a'));
    assert!(is_valid_char('Z'));
    assert!(is_valid_char('7'));
    assert!(is_valid_char('!'));
    assert!(is_valid_char('~'));
    assert!(!is_valid_char(' '));
    assert!(!is_valid_char('\n'));
}

#[test]
fn enqueue_rejects_unknown_target_position_device() {
    let (mut cat, _token) = setup();
    assert_eq!(cat.enqueue(0, 2, 1), Err(EnqueueError::UnknownTarget));
    assert_eq!(cat.enqueue(10, 2, 1), Err(EnqueueError::UnknownTarget));
    assert_eq!(cat.enqueue(5, 0, 1), Err(EnqueueError::UnknownPosition));
    assert_eq!(cat.enqueue(5, 5, 1), Err(EnqueueError::UnknownPosition));
    assert_eq!(cat.enqueue(5, 2, 99), Err(EnqueueError::UnknownDevice));
    assert_eq!(cat.commands.len(), 0);
}

#[test]
fn full_lifecycle_scenario() {
    let (mut cat, token) = setup();
    let id = cat.enqueue(5, 2, 1).expect("enqueue");
    assert_eq!(cat.commands[0].status, 0);

    let r = cat.dispatch(token.as_str());
    assert_eq!(
        r,
        DispatchResult::Dispatched(CommandSql {
            id,
            target: 5,
            position: 2
        })
    );
    assert_eq!(cat.commands[0].status, 1);

    assert!(cat.report(token.as_str(), id, 2, Some(1700000500)).is_ok());
    assert_eq!(cat.commands[0].status, 2);
    assert_eq!(cat.commands[0].time, Some(1700000500));

    let bytes = jpeg_bytes();
    let data = base64::engine::general_purpose::STANDARD.encode(&bytes);
    let req = UploadImage {
        token: token.clone(),
        data,
        id,
    };
    let dir = ImageDirectory::default();
    let plan = cat.process_upload(&dir, &req, 1700000000).expect("plan");
    assert_eq!(plan.filename, "1700000000-1-Mars_Zenith.jpg");
    assert_eq!(plan.path, "./assets/images/1700000000-1-Mars_Zenith.jpg");
    assert_eq!(plan.web_path, "/assets/images/1700000000-1-Mars_Zenith.jpg");
    assert_eq!(plan.name, "Mars_Zenith");
    assert_eq!(plan.bytes, bytes);

    assert!(cat.commit_upload(&plan, true).is_ok());
    assert_eq!(cat.images.len(), 1);
    assert_eq!(cat.images[0].command_id, id);
    assert_eq!(cat.commands[0].status, 3);

    assert_eq!(cat.dispatch(token.as_str()), DispatchResult::NoneAvailable);
    assert_eq!(cat.commands[0].status, 3);
}

#[test]
fn report_out_of_range_is_rejected_without_change() {
    let (mut cat, token) = setup();
    let id = cat.enqueue(5, 2, 1).expect("enqueue");
    cat.dispatch(token.as_str());
    let before = cat.commands[0];
    assert_eq!(
        cat.report(token.as_str(), id, 7, None),
        Err(ReportError::StatusOutOfRange)
    );
    assert_eq!(cat.commands[0], before);
}

#[test]
fn report_illegal_transition_is_rejected_without_change() {
    let (mut cat, token) = setup();
    let id = cat.enqueue(5, 2, 1).expect("enqueue");
    // The command is still pending: no report is legal yet.
    assert_eq!(
        cat.report(token.as_str(), id, 2, None),
        Err(ReportError::IllegalTransition)
    );
    assert_eq!(cat.commands[0].status, 0);
    // Claim it, finish it, and check a late report is rejected too.
    cat.dispatch(token.as_str());
    assert!(cat.report(token.as_str(), id, -1, None).is_ok());
    assert_eq!(cat.commands[0].status, -1);
    assert_eq!(
        cat.report(token.as_str(), id, 2, None),
        Err(ReportError::IllegalTransition)
    );
}

#[test]
fn report_unknown_command_or_wrong_owner_is_not_found() {
    let (mut cat, token) = setup();
    cat.keys.push(Key {
        id: 2,
        api_token: String::from("token-beta"),
        name: String::from("Other"),
    });
    cat.next_key_id = 3;
    let id = cat.enqueue(5, 2, 1).expect("enqueue");
    cat.dispatch(token.as_str());
    assert_eq!(
        cat.report(token.as_str(), id + 7, 2, None),
        Err(ReportError::NotFound)
    );
    assert_eq!(
        cat.report("token-beta", id, 2, None),
        Err(ReportError::NotFound)
    );
    assert_eq!(cat.commands[0].status, 1);
}

#[test]
fn dispatch_claims_each_command_exactly_once() {
    let (mut cat, token) = setup();
    cat.enqueue(5, 2, 1).expect("enqueue");
    let first = cat.dispatch(token.as_str());
    let second = cat.dispatch(token.as_str());
    assert!(matches!(first, DispatchResult::Dispatched(_)));
    assert_eq!(second, DispatchResult::NoneAvailable);
}

#[test]
fn dispatch_hands_out_oldest_pending_first() {
    let (mut cat, token) = setup();
    let a = cat.enqueue(5, 2, 1).expect("enqueue");
    let b = cat.enqueue(3, 1, 1).expect("enqueue");
    match cat.dispatch(token.as_str()) {
        DispatchResult::Dispatched(c) => assert_eq!(c.id, a),
        other => panic!("unexpected: {:?}", other),
    }
    match cat.dispatch(token.as_str()) {
        DispatchResult::Dispatched(c) => assert_eq!(c.id, b),
        other => panic!("unexpected: {:?}", other),
    }
}

#[test]
fn dispatch_with_unknown_token_finds_nothing() {
    let (mut cat, _token) = setup();
    cat.enqueue(5, 2, 1).expect("enqueue");
    assert_eq!(cat.dispatch("no-such-token"), DispatchResult::NoneAvailable);
    assert_eq!(cat.commands[0].status, 0);
}

#[test]
fn dispatch_consumes_command_with_unknown_target_as_invalid() {
    let (mut cat, token) = setup();
    let id = cat.enqueue(5, 2, 1).expect("enqueue");
    // The lookup table loses the target before the device polls.
    cat.targets.remove(4);
    assert_eq!(cat.dispatch(token.as_str()), DispatchResult::NoneAvailable);
    assert_eq!(cat.commands[0].id, id);
    assert_eq!(cat.commands[0].status, -9);
}

#[test]
fn upload_rejections_by_stage() {
    let (mut cat, token) = setup();
    let id = cat.enqueue(5, 2, 1).expect("enqueue");
    cat.dispatch(token.as_str());
    cat.report(token.as_str(), id, 2, None).expect("report");
    let dir = ImageDirectory::default();

    let bad_token = UploadImage {
        token: String::from("no-such-token"),
        data: String::from("AAAA"),
        id,
    };
    assert_eq!(
        cat.process_upload(&dir, &bad_token, 1).unwrap_err(),
        UploadError::Unauthorized
    );

    let bad_data = UploadImage {
        token: token.clone(),
        data: String::from("!!not base64!!"),
        id,
    };
    assert_eq!(
        cat.process_upload(&dir, &bad_data, 1).unwrap_err(),
        UploadError::DecodeFailed
    );

    let not_image = UploadImage {
        token: token.clone(),
        data: base64::engine::general_purpose::STANDARD.encode(b"hello world"),
        id,
    };
    assert_eq!(
        cat.process_upload(&dir, &not_image, 1).unwrap_err(),
        UploadError::NotAnImage
    );
    assert_eq!(cat.commands[0].status, 2);
    assert_eq!(cat.images.len(), 0);
}

#[test]
fn failed_write_commits_nothing() {
    let (mut cat, token) = setup();
    let id = cat.enqueue(5, 2, 1).expect("enqueue");
    cat.dispatch(token.as_str());
    cat.report(token.as_str(), id, 2, None).expect("report");
    let bytes = jpeg_bytes();
    let req = UploadImage {
        token: token.clone(),
        data: base64::engine::general_purpose::STANDARD.encode(&bytes),
        id,
    };
    let dir = ImageDirectory::default();
    let plan = cat.process_upload(&dir, &req, 42).expect("plan");
    assert_eq!(cat.commit_upload(&plan, false), Err(UploadError::Internal));
    assert_eq!(cat.images.len(), 0);
    assert_eq!(cat.commands[0].status, 2);
    // A path collision is rejected the same way, before any status change.
    assert!(cat.commit_upload(&plan, true).is_ok());
    assert_eq!(cat.commands[0].status, 3);
    cat.commands[0].status = 2;
    assert_eq!(cat.commit_upload(&plan, true), Err(UploadError::Internal));
    assert_eq!(cat.images.len(), 1);
    assert_eq!(cat.commands[0].status, 2);
}

#[test]
fn upload_falls_back_to_placeholder_name() {
    let (mut cat, token) = setup();
    let bytes = jpeg_bytes();
    let req = UploadImage {
        token: token.clone(),
        data: base64::engine::general_purpose::STANDARD.encode(&bytes),
        id: 555,
    };
    let dir = ImageDirectory::default();
    let plan = cat.process_upload(&dir, &req, 9).expect("plan");
    assert_eq!(plan.filename, "9-555-unknown_unknown.jpg");
}

#[test]
fn soft_delete_is_idempotent_and_total() {
    let (mut cat, token) = setup();
    let id = cat.enqueue(5, 2, 1).expect("enqueue");
    cat.dispatch(token.as_str());
    cat.soft_delete(id);
    assert_eq!(cat.commands[0].status, -6);
    cat.soft_delete(id);
    assert_eq!(cat.commands[0].status, -6);
    // Unknown identifiers change nothing.
    cat.soft_delete(999);
    assert_eq!(cat.commands.len(), 1);
}

#[test]
fn remove_key_cascades_to_commands() {
    let (mut cat, token) = setup();
    cat.keys.push(Key {
        id: 2,
        api_token: String::from("token-beta"),
        name: String::from("Other"),
    });
    cat.next_key_id = 3;
    cat.enqueue(5, 2, 1).expect("enqueue");
    cat.enqueue(3, 1, 2).expect("enqueue");
    cat.enqueue(2, 4, 1).expect("enqueue");
    cat.remove_key(1);
    assert_eq!(cat.keys.len(), 1);
    assert_eq!(cat.keys[0].id, 2);
    assert_eq!(cat.commands.len(), 1);
    assert_eq!(cat.commands[0].associated_key, 2);
    assert_eq!(cat.dispatch(token.as_str()), DispatchResult::NoneAvailable);
}

#[test]
fn created_keys_verify_and_have_fresh_tokens() {
    let mut cat = Catalog::new();
    let t1 = cat.create_key(String::from("A")).expect("token");
    let t2 = cat.create_key(String::from("B")).expect("token");
    assert_eq!(t1.len(), 36);
    assert_eq!(t2.len(), 36);
    assert_ne!(t1, t2);
    assert!(cat.verify_key(t1.as_str()));
    assert!(cat.verify_key(t2.as_str()));
    assert!(!cat.verify_key("no-such-token"));
    assert_eq!(cat.keys.len(), 2);
    assert_eq!(cat.keys[0].id, 1);
    assert_eq!(cat.keys[1].id, 2);
    assert_eq!(cat.get_keys().len(), 2);
}

#[test]
fn check_command_status_requires_ownership() {
    let (mut cat, token) = setup();
    let id = cat.enqueue(5, 2, 1).expect("enqueue");
    assert_eq!(cat.check_command_status(token.as_str(), id), Some(0));
    assert_eq!(cat.check_command_status("token-beta", id), None);
    assert_eq!(cat.check_command_status(token.as_str(), 999), None);
}

#[test]
fn upload_with_wall_clock_derives_plan() {
    let (mut cat, token) = setup();
    let id = cat.enqueue(5, 2, 1).expect("enqueue");
    cat.dispatch(token.as_str());
    cat.report(token.as_str(), id, 2, None).expect("report");
    let bytes = jpeg_bytes();
    let req = UploadImage {
        token: token.clone(),
        data: base64::engine::general_purpose::STANDARD.encode(&bytes),
        id,
    };
    let dir = ImageDirectory::default();
    let plan = cat.upload_image(&dir, &req).expect("plan");
    assert!(plan.filename.ends_with("-1-Mars_Zenith.jpg"));
    assert_eq!(plan.name, "Mars_Zenith");
    assert_eq!(plan.bytes, bytes);
}
