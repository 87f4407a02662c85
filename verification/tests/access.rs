use cys_app::access::{
    host_in_allowlist, list_dir, open_path, open_url, pasted_image_name, read_text_head,
    reveal_path, save_pasted_image, stream_chunk, switched_on, text_file, text_of_bytes, url_host_allowed,
    user_allow_hosts, Platform,
};
use cys_app::json::Json;

#[test]
fn open_url_whitelist_blocks_spoofed_and_nonhttps() {
    assert!(url_host_allowed("https://notebooklm.google.com/notebook/abc", &[]).is_ok());
    assert!(url_host_allowed("https://github.com/cys/repo", &[]).is_ok());
    assert!(url_host_allowed("https://www.cysinsight.com/", &[]).is_ok(), "홈페이지(본체 다운로드) 허용");
    assert!(url_host_allowed("https://cysinsight.com/download", &[]).is_ok(), "홈페이지 apex 허용");
    assert!(url_host_allowed("http://notebooklm.google.com/", &[]).is_err(), "http 차단");
    assert!(url_host_allowed("https://evil.com/notebooklm.google.com", &[]).is_err(), "경로 사칭 차단");
    assert!(url_host_allowed("https://notebooklm.google.com.evil.com/", &[]).is_err(), "서브도메인 사칭 차단");
    assert!(url_host_allowed("https://notebooklm.google.com@evil.example.com/", &[]).is_err(), "userinfo 사칭 차단");
    assert!(url_host_allowed("https://evil.com#.github.com/", &[]).is_err(), "fragment 사칭 차단");
    assert!(url_host_allowed("https://evil.com?.github.com", &[]).is_err(), "query 사칭 차단");
    assert!(url_host_allowed("https://evil.com?x=.github.com", &[]).is_err(), "query 파라미터 사칭 차단");
}

#[test]
fn host_allowlist_user_extension() {
    let extras = vec!["example-inst.org".to_string()];
    assert!(host_in_allowlist("example-inst.org", &extras));
    assert!(host_in_allowlist("docs.example-inst.org", &extras), "확장 도메인 서브도메인 허용");
    assert!(!host_in_allowlist("example-inst.org.evil.com", &extras), "사칭 차단");
    assert!(!host_in_allowlist("evil.com", &extras));
    assert!(!host_in_allowlist("anything.com", &vec!["".to_string()]), "빈 확장 항목 무시");
}

#[test]
fn open_path_gates_executable_and_missing() {
    let gone = Err("No such file or directory".to_string());
    let r = open_path("/definitely/not/a/real/path-xyz", None, &gone, Platform::Other);
    assert!(r.is_err() && !r.unwrap_err().contains("executable_confirm"));
    let r = open_path("/tmp/cys-openpath-test/run.sh", None, &Ok((true, true)), Platform::Other);
    assert_eq!(r, Err("executable_confirm".to_string()));
}

#[test]
fn running_files_need_the_users_word() {
    assert_eq!(
        open_path("/t/run.sh", Some(true), &Ok((true, true)), Platform::Other),
        Ok("xdg-open")
    );
    assert_eq!(open_path("/t/dir", None, &Ok((false, true)), Platform::Other), Ok("xdg-open"));
    assert_eq!(open_path("/t/a.txt", None, &Ok((true, false)), Platform::MacOs), Ok("open"));
    assert!(open_path("/t/a.PKG", None, &Ok((true, false)), Platform::MacOs).is_err());
    assert!(open_path("C:\\t\\a.EXE", None, &Ok((true, false)), Platform::Windows).is_err());
    assert_eq!(
        open_path("C:\\t\\a.txt", None, &Ok((true, true)), Platform::Windows),
        Ok("explorer")
    );
    assert_eq!(text_file(&Ok(true)), Ok(()));
    assert_eq!(text_file(&Ok(false)), Err("not a file".to_string()));
    assert_eq!(text_file(&Err("x".to_string())), Err("not a local path: x".to_string()));
}

#[test]
fn paths_and_urls_are_shown_by_the_platforms_program() {
    assert_eq!(
        reveal_path("/a/b", &None, Platform::MacOs),
        Ok(("open", vec!["-R".to_string(), "/a/b".to_string()]))
    );
    assert_eq!(
        reveal_path("C:\\b", &None, Platform::Windows),
        Ok(("explorer", vec!["/select,C:\\b".to_string()]))
    );
    assert_eq!(
        reveal_path("/a/b", &None, Platform::Other),
        Ok(("xdg-open", vec!["/a".to_string()]))
    );
    assert_eq!(
        reveal_path("/a/b", &Some("gone".to_string()), Platform::Other),
        Err("not a local path: gone".to_string())
    );
    assert_eq!(open_url("https://github.com/x", &[], Platform::Other), Ok("xdg-open"));
    assert_eq!(open_url("ftp://github.com/x", &[], Platform::Other), Err("https only".to_string()));
    assert_eq!(
        open_url("https://u@evil.com:8/x", &[], Platform::MacOs),
        Err("domain not allowed: evil.com".to_string())
    );
}

#[test]
fn pasted_image_is_decoded() {
    let (name, bytes) = save_pasted_image("aGVsbG8=", "jpg", 12).unwrap();
    assert_eq!(name, "paste-12.jpg");
    assert_eq!(bytes, b"hello");
    assert_eq!(pasted_image_name(5, "../x"), "paste-5.png");
    assert_eq!(pasted_image_name(5, ""), "paste-5.png");
    assert!(save_pasted_image("%%%", "jpg", 12).is_err());
}

#[test]
fn output_chunk_is_base64() {
    assert_eq!(stream_chunk(b"hello"), "aGVsbG8=");
    assert_eq!(stream_chunk(b""), "");
}

#[test]
fn broken_bytes_become_replacement_characters() {
    assert_eq!(text_of_bytes(b"ok \xff"), "ok \u{fffd}");
    assert_eq!(text_of_bytes("가".as_bytes()), "가");
}

#[test]
fn directories_come_first_and_case_does_not_matter() {
    let listed = list_dir(&vec![
        ("b.txt".to_string(), false),
        ("Zeta".to_string(), true),
        ("A.txt".to_string(), false),
        ("ÉCOLE".to_string(), true),
        ("alpha".to_string(), true),
    ]);
    let names: Vec<&str> = match &listed {
        Json::Array(v) => v.iter().map(|e| e.get("name").unwrap().as_str().unwrap()).collect(),
        other => panic!("{other:?}"),
    };
    assert_eq!(names, vec!["alpha", "Zeta", "ÉCOLE", "A.txt", "b.txt"]);
}

#[test]
fn head_of_a_file_is_bounded() {
    assert_eq!(read_text_head(&b"abcdef".to_vec(), Some(3)), "abc");
    assert_eq!(read_text_head(&b"abc".to_vec(), None), "abc");
    let long = vec![b'x'; 70_000];
    assert_eq!(read_text_head(&long, None).len(), 65_536);
}

#[test]
fn users_domains_come_from_file_and_environment() {
    assert_eq!(
        user_allow_hosts(Some("# note\n a.org \n\nb.org\n"), Some("c.org, d.org,,")),
        vec!["a.org", "b.org", "c.org", "d.org"]
    );
    assert!(user_allow_hosts(None, None).is_empty());
}

#[test]
fn switch_is_on_by_environment_or_file() {
    assert!(switched_on(Some("1"), false));
    assert!(switched_on(None, true));
    assert!(!switched_on(Some("0"), false));
    assert!(!switched_on(None, false));
}
