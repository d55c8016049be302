//! Arguments of curl, and what its runs come to.

use pv::net::{
    download, download_reply, get_reply, get_string, post_failure, write_bearer_config, Curl,
};

fn home() -> Option<String> {
    Some("/home/u".to_string())
}

#[test]
fn bearer_config_rejects_unsafe_keys() {
    assert!(write_bearer_config("bad\"key", &None, &home(), 1, 0).is_err());
    assert!(write_bearer_config("bad\nkey", &None, &home(), 1, 0).is_err());
    assert!(write_bearer_config("bad\rkey", &None, &home(), 1, 0).is_err());
}

#[test]
fn bearer_config_paths_are_unique() {
    let (a, _) = write_bearer_config("k1", &None, &home(), 9, 0).expect("a");
    let (b, _) = write_bearer_config("k2", &None, &home(), 9, 1).expect("b");
    assert_ne!(a.path(), b.path());
}

#[test]
fn get_string_reports_failure() {
    // loopback port 9 (discard): connection refused
    let args = get_string("http://127.0.0.1:9/", &vec![]);
    assert_eq!(args, vec!["-fsSL", "--max-time", "30", "http://127.0.0.1:9/"]);
    let r = get_reply(Curl::Failed(b"curl: (7) Failed to connect\n".to_vec()));
    assert!(r.is_err());
}

#[test]
fn bearer_config_carries_header() {
    let (cfg, body) =
        write_bearer_config("gsk_test123", &Some("/data".to_string()), &home(), 5, 2)
            .expect("config");
    assert_eq!(cfg.path(), "/data/pv/curl-5-2.conf");
    assert_eq!(body, "header = \"Authorization: Bearer gsk_test123\"\n");
    let e = write_bearer_config("a\"b", &None, &home(), 5, 2).err();
    assert_eq!(
        e.as_deref(),
        Some("API key contains characters unsafe for a curl config file")
    );
}

#[test]
fn headers_are_passed_one_by_one() {
    let h = vec!["A: 1".to_string(), "B: 2".to_string()];
    assert_eq!(
        get_string("u", &h),
        vec!["-fsSL", "--max-time", "30", "-H", "A: 1", "-H", "B: 2", "u"]
    );
    assert_eq!(
        download("u", "/tmp/x", &h),
        vec!["-fsSL", "--max-time", "300", "-H", "A: 1", "-H", "B: 2", "-o", "/tmp/x", "u"]
    );
}

#[test]
fn replies_say_what_went_wrong() {
    assert_eq!(get_reply(Curl::Body(b"h\xc3\xa9".to_vec())), Ok("hé".to_string()));
    assert_eq!(
        get_reply(Curl::Missing("No such file".to_string())),
        Err("curl: No such file".to_string())
    );
    assert_eq!(
        get_reply(Curl::Failed(b" curl: (22) 404 \n".to_vec())),
        Err("request failed (curl: (22) 404)".to_string())
    );
    // standard error that is not text is shown with marks
    assert_eq!(
        get_reply(Curl::Failed(vec![0x41, 0xff])),
        Err("request failed (A\u{fffd})".to_string())
    );
    let bad = get_reply(Curl::Body(vec![0x41, 0xff])).unwrap_err();
    assert_eq!(bad, "invalid utf-8 sequence of 1 bytes from index 1");
}

#[test]
fn downloads_report_their_status() {
    assert_eq!(download_reply(&Ok((true, "exit status: 0".to_string()))), Ok(()));
    assert_eq!(
        download_reply(&Ok((false, "exit status: 22".to_string()))),
        Err("download failed (exit status: 22)".to_string())
    );
    assert_eq!(download_reply(&Err("gone".to_string())), Err("curl: gone".to_string()));
    assert_eq!(post_failure("gone"), "curl spawn: gone");
}
