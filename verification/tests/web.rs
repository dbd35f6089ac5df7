use appmanager::connections::{ConnectionGate, MAX_CONNECTIONS};
use appmanager::web::{
    constant_time_eq, hex_value, percent_decode, read_head, safe_upload_name, MAX_HEADER_BYTES,
};
use std::sync::Arc;

#[test]
fn parses_headers_case_insensitively() {
    let input = b"POST /api/upload HTTP/1.1\r\ncontent-length: 12\r\nX-FILENAME: game.zip\r\nx-appmanager-token: abc\r\nX-AppManager-Replace: 1\r\n\r\n";
    let head = read_head(&input[..]).unwrap();
    assert_eq!(head.path, "/api/upload");
    assert_eq!(head.content_length, Some(12));
    assert_eq!(head.filename, "game.zip");
    assert_eq!(head.token, "abc");
    assert!(head.replace_existing);
}

#[test]
fn rejects_chunked_requests_and_unsafe_upload_types() {
    let input = b"POST /api/upload HTTP/1.1\r\nTransfer-Encoding: chunked\r\n\r\n";
    assert!(read_head(&input[..]).is_err());
    assert!(safe_upload_name("../../game.zip").is_ok());
    assert!(safe_upload_name("game.tar").is_err());
    assert_eq!(safe_upload_name("%E6%B8%B8%E6%88%8F.zip").unwrap(), "E6B8B8E6888F.zip");
}

#[test]
fn percent_decodes_browser_filename_header() {
    assert_eq!(percent_decode("My%20Game.zip"), "My Game.zip");
    assert_eq!(safe_upload_name(&percent_decode("My%20Game.zip")).unwrap(), "MyGame.zip");
}

#[test]
fn constant_time_comparison_requires_equal_contents_and_length() {
    assert!(constant_time_eq(b"123456", b"123456"));
    assert!(!constant_time_eq(b"123456", b"123457"));
    assert!(!constant_time_eq(b"123456", b"12345"));
}

#[test]
fn rejects_an_unterminated_header_before_allocating_past_the_limit() {
    let input = vec![b'a'; MAX_HEADER_BYTES + 1];
    let error = read_head(&input[..]).unwrap_err();
    assert!(error.contains("too large"));
}

#[test]
fn connection_gate_never_exceeds_the_configured_limit() {
    let gate = Arc::new(ConnectionGate::default());
    let leases = (0..MAX_CONNECTIONS)
        .map(|_| ConnectionGate::try_acquire(&gate).unwrap())
        .collect::<Vec<_>>();
    assert!(ConnectionGate::try_acquire(&gate).is_none());
    drop(leases);
    assert!(ConnectionGate::try_acquire(&gate).is_some());
}

#[test]
fn a_released_place_can_be_claimed_again() {
    let gate = Arc::new(ConnectionGate::default());
    let mut leases = Vec::new();
    for _ in 0..MAX_CONNECTIONS {
        leases.push(ConnectionGate::try_acquire(&gate).unwrap());
    }
    leases.pop();
    assert!(ConnectionGate::try_acquire(&gate).is_some());
}

#[test]
fn percent_decoding_keeps_malformed_escapes_and_replaces_invalid_utf8() {
    assert_eq!(percent_decode("100%"), "100%");
    assert_eq!(percent_decode("%zz%4"), "%zz%4");
    assert_eq!(percent_decode("%E6%B8%B8"), "游");
    assert_eq!(percent_decode("%FF"), "\u{FFFD}");
    assert_eq!(percent_decode("%41%62"), "Ab");
}

#[test]
fn hex_digits_have_their_values() {
    assert_eq!(hex_value(b'0'), Some(0));
    assert_eq!(hex_value(b'9'), Some(9));
    assert_eq!(hex_value(b'a'), Some(10));
    assert_eq!(hex_value(b'F'), Some(15));
    assert_eq!(hex_value(b'g'), None);
}

#[test]
fn upload_names_are_bounded_and_never_empty() {
    assert_eq!(safe_upload_name(".zip").unwrap(), "bundle.zip");
    assert_eq!(safe_upload_name("游戏.ZIP").unwrap(), ".ZIP");
    assert_eq!(safe_upload_name("游戏.zip").unwrap(), "bundle.zip");
    assert_eq!(safe_upload_name("C:\\games\\Doom.Zip").unwrap(), "Doom.Zip");
    let long = format!("{}.zip", "a".repeat(200));
    assert_eq!(safe_upload_name(&long).unwrap().len(), 96);
    assert_eq!(safe_upload_name("game.tar").unwrap_err(), "只支持 .zip 安装包");
}

#[test]
fn request_heads_report_each_malformed_part() {
    assert_eq!(read_head(b"").unwrap_err(), "empty request");
    let head = read_head(b"GET /api/status HTTP/1.1\r\n\r\n").unwrap();
    assert_eq!(head.method, "GET");
    assert_eq!(head.content_length, None);
    assert!(!head.replace_existing);
    assert!(read_head(b"POST /x HTTP/1.1\r\nContent-Length: many\r\n\r\n").is_err());
    assert!(read_head(b"POST /x HTTP/1.1\r\nX-AppManager-Replace: yes\r\n\r\n").is_err());
}

use appmanager::pairing::{PairingLimiter, PairingResult};
use appmanager::web::{admit_upload, manage_failure_status, pairing_code, pairing_refusal, route, Route};

#[test]
fn pairing_failures_are_limited_per_peer() {
    let mut limiter = PairingLimiter::new();
    let now = 1_000_000_000;
    assert_eq!(limiter.verify("10.0.0.2", "000000", "123456", now), PairingResult::Rejected);
    assert_eq!(limiter.verify("10.0.0.2", "123456", "123456", now), PairingResult::RateLimited);
    assert_eq!(limiter.verify("10.0.0.3", "123456", "123456", now), PairingResult::Accepted);
}

#[test]
fn pairing_waits_double_and_success_clears_them() {
    let mut limiter = PairingLimiter::new();
    let mut now = 0;
    assert_eq!(limiter.verify("peer", "bad", "code", now), PairingResult::Rejected);
    now += 250_000_000;
    assert_eq!(limiter.verify("peer", "bad", "code", now), PairingResult::Rejected);
    now += 499_999_999;
    assert_eq!(limiter.verify("peer", "code", "code", now), PairingResult::RateLimited);
    now += 1;
    assert_eq!(limiter.verify("peer", "code", "code", now), PairingResult::Accepted);
    assert_eq!(limiter.verify("peer", "bad", "code", now), PairingResult::Rejected);
}

#[test]
fn a_full_pairing_table_refuses_new_peers_until_records_expire() {
    let mut limiter = PairingLimiter::new();
    for index in 0..64 {
        let peer = format!("10.0.1.{index}");
        assert_eq!(limiter.verify(&peer, "bad", "code", 0), PairingResult::Rejected);
    }
    assert_eq!(limiter.verify("10.0.2.1", "code", "code", 0), PairingResult::RateLimited);
    let later = 250_000_000 + 300_000_000_000;
    assert_eq!(limiter.verify("10.0.2.1", "code", "code", later), PairingResult::Accepted);
}

#[test]
fn requests_are_routed_only_with_the_session_token() {
    assert_eq!(route("GET", "/", "", "secret"), Route::Index);
    assert_eq!(route("GET", "/api/status", "", "secret"), Route::Status);
    assert_eq!(route("POST", "/api/session", "", "secret"), Route::Pairing);
    assert_eq!(route("GET", "/api/snapshot", "wrong", "secret"), Route::Unauthorized);
    assert_eq!(route("GET", "/api/snapshot", "secret", "secret"), Route::Snapshot);
    assert_eq!(route("GET", "/api/list", "secret", "secret"), Route::Snapshot);
    assert_eq!(route("POST", "/api/cancel", "secret", "secret"), Route::Cancel);
    assert_eq!(route("POST", "/api/manage", "secret", "secret"), Route::Manage);
    assert_eq!(route("POST", "/api/upload", "secret", "secret"), Route::Upload);
    assert_eq!(route("DELETE", "/api/upload", "secret", "secret"), Route::NotFound);
    assert_eq!(route("GET", "/missing", "", "secret"), Route::Unauthorized);
}

#[test]
fn uploads_need_a_bounded_length_and_a_name() {
    assert_eq!(admit_upload(None, "game.zip"), Err((400, "missing Content-Length".to_owned())));
    assert_eq!(admit_upload(Some(0), "game.zip"), Err((413, "zip 文件必须小于 4 GiB".to_owned())));
    assert_eq!(
        admit_upload(Some(4 * 1024 * 1024 * 1024 + 1), "game.zip"),
        Err((413, "zip 文件必须小于 4 GiB".to_owned()))
    );
    assert_eq!(admit_upload(Some(12), ""), Err((400, "missing X-Filename".to_owned())));
    assert_eq!(admit_upload(Some(4 * 1024 * 1024 * 1024), "game.zip"), Ok(4 * 1024 * 1024 * 1024));
}

#[test]
fn pairing_answers_and_management_failures_have_statuses() {
    assert_eq!(pairing_refusal(PairingResult::Accepted), None);
    assert_eq!(pairing_refusal(PairingResult::Rejected), Some((401, "配对码不正确")));
    assert_eq!(pairing_refusal(PairingResult::RateLimited), Some((429, "尝试过于频繁，请稍后重试")));
    assert_eq!(manage_failure_status("inventory changed since the scan"), 409);
    assert_eq!(manage_failure_status("bad request"), 400);
    assert_eq!(pairing_code(b"  123456\r\n"), "123456");
    assert_eq!(pairing_code(b"12\xff34"), "12\u{FFFD}34");
}

use appmanager::web::{
    check_body_complete, check_upload_complete, check_upload_space, control_body_length,
    management_actions, upload_file_name,
};

fn refusal(result: Result<Vec<appmanager::launcher::EmbeddedAction>, String>) -> String {
    match result {
        Err(message) => message,
        Ok(_) => panic!("the request was accepted"),
    }
}

const REVISION: &str = "0123456789abcdef0123456789abcdef0123456789abcdef0123456789abcdef";

#[test]
fn control_bodies_are_small_and_complete() {
    assert_eq!(control_body_length(None).unwrap_err(), "missing Content-Length");
    assert_eq!(control_body_length(Some(65537)).unwrap_err(), "request body is too large");
    assert_eq!(control_body_length(Some(65536)), Ok(65536));
    assert_eq!(check_body_complete(3, 4).unwrap_err(), "request body ended early");
    assert!(check_body_complete(4, 4).is_ok());
}

#[test]
fn uploads_need_room_and_arrive_whole() {
    assert!(check_upload_space(None, 1 << 40).is_ok());
    assert!(check_upload_space(Some(64 * 1024 * 1024 + 10), 10).is_ok());
    assert_eq!(
        check_upload_space(Some(64 * 1024 * 1024 + 9), 10).unwrap_err(),
        "存储空间不足，无法接收这个 zip 文件"
    );
    assert_eq!(upload_file_name(1700000000000, 42, 0, "game.zip"), "1700000000000-42-0-game.zip");
    assert_eq!(check_upload_complete(9, 10).unwrap_err(), "上传中断，请重新选择文件");
}

#[test]
fn management_requests_become_actions() {
    let paths = vec!["/roms/ports/A.sh".to_owned(), "/roms/ports/B.sh".to_owned()];
    let actions = management_actions("uninstall", REVISION, &paths).unwrap();
    assert_eq!(actions.len(), 2);
    assert_eq!(actions[0].kind, "TRASH");
    assert_eq!(actions[1].arg, "/roms/ports/B.sh");
    let empty = management_actions("empty_trash", REVISION, &Vec::new()).unwrap();
    assert_eq!(empty.len(), 1);
    assert_eq!(empty[0].kind, "EMPTY_TRASH");
    assert_eq!(empty[0].arg, "-");
    assert_eq!(
        refusal(management_actions("empty_trash", REVISION, &paths)),
        "invalid management action"
    );
    assert_eq!(refusal(management_actions("restore", REVISION, &Vec::new())), "invalid management action");
    assert_eq!(refusal(management_actions("format", REVISION, &paths)), "invalid management action");
    assert_eq!(
        refusal(management_actions("uninstall", &REVISION.to_uppercase(), &paths)),
        "invalid inventory revision"
    );
    let many: Vec<String> = (0..257).map(|index| format!("/roms/ports/{index}.sh")).collect();
    assert_eq!(refusal(management_actions("delete", REVISION, &many)), "too many selected paths");
}
