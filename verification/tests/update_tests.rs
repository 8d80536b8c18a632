use nitrate::update::{
    archive_name, asset_name, download_file_name, download_outcome, github_repo, host_arch, host_os, http_reply,
    installed_report, latest_version_from, parse_tag, parse_u64, parse_ver, plan_cli_update,
    release_api_url, release_download_url, release_tag, version_newer, CliUpdate,
};

#[test]
fn version_compare() {
    assert!(version_newer("1.2.0", "1.0.0"));
    assert!(version_newer("v1.0.1", "1.0.0"));
    assert!(!version_newer("1.0.0", "1.0.0"));
    assert!(!version_newer("1.0.0", "2.0.0"));
    assert!(version_newer("2.0.0", "1.9.9"));
}

#[test]
fn version_parsing_rules() {
    assert_eq!(parse_ver(" v2 "), Some((2, 0, 0)));
    assert_eq!(parse_ver("vv1.5"), Some((1, 5, 0)));
    assert_eq!(parse_ver("1.2.3.4"), Some((1, 2, 3)));
    assert_eq!(parse_ver("1..3"), None);
    assert_eq!(parse_ver("1.x"), None);
    assert_eq!(parse_ver(""), None);
    assert_eq!(parse_ver("+1.+2"), Some((1, 2, 0)));
    assert!(!version_newer("garbage", "1.0.0"));
    assert!(!version_newer("1.0.0", "garbage"));
}

#[test]
fn version_order_is_strict() {
    let vs = ["0.9.9", "1.0.0", "1.0.1", "1.2.0", "2.0.0"];
    for a in vs {
        assert!(!version_newer(a, a));
        for b in vs {
            assert!(!(version_newer(a, b) && version_newer(b, a)));
            for c in vs {
                if version_newer(a, b) && version_newer(b, c) {
                    assert!(version_newer(a, c));
                }
            }
        }
    }
}

#[test]
fn unsigned_numbers() {
    assert_eq!(parse_u64(&['4', '2']), Some(42));
    assert_eq!(parse_u64(&['+', '7']), Some(7));
    assert_eq!(parse_u64(&['+']), None);
    assert_eq!(parse_u64(&[]), None);
    assert_eq!(parse_u64(&['-', '1']), None);
    let max: Vec<char> = "18446744073709551615".chars().collect();
    assert_eq!(parse_u64(&max), Some(u64::MAX));
    let over: Vec<char> = "18446744073709551616".chars().collect();
    assert_eq!(parse_u64(&over), None);
}

#[test]
fn parse_github_tag() {
    let json = r#"{"tag_name":"v1.4.2","name":"1.4.2"}"#;
    assert_eq!(parse_tag(json).as_deref(), Some("1.4.2"));
    assert_eq!(parse_tag("{}"), None);
}

#[test]
fn tags_and_release_bodies() {
    assert_eq!(parse_tag(r#"{"tag_name":"  vv "}"#), None);
    assert_eq!(parse_tag(r#"{"tag_name":7}"#), None);
    assert_eq!(parse_tag("not json"), None);
    assert_eq!(release_tag(Some(" v3.1 ".into())), Some("3.1".to_string()));
    assert_eq!(release_tag(None), None);
    assert_eq!(latest_version_from(r#"{"tag_name":"v0.4.0"}"#), Ok("0.4.0".to_string()));
    assert_eq!(latest_version_from("{}"), Err("NO RELEASE TAG".to_string()));
}

#[test]
fn asset_name_matches_host() {
    let name = asset_name(host_os("linux"), host_arch("x86_64")).expect("supported host");
    assert!(name.starts_with("nitrate-"));
    assert!(!name.ends_with(".exe"));
    let win = asset_name(host_os("windows"), host_arch("aarch64")).expect("supported host");
    assert!(win.starts_with("nitrate-"));
    assert!(win.ends_with(".exe"));
}

#[test]
fn asset_names_exact() {
    assert_eq!(asset_name(host_os("macos"), host_arch("aarch64")), Some("nitrate-macos-arm64".to_string()));
    assert_eq!(asset_name(host_os("windows"), host_arch("x86_64")), Some("nitrate-windows-x64.exe".to_string()));
    assert_eq!(asset_name(host_os("freebsd"), host_arch("x86_64")), None);
    assert_eq!(asset_name(host_os("linux"), host_arch("riscv64")), None);
    assert_eq!(host_os("macos"), Some("macos"));
    assert_eq!(host_arch("x86_64"), Some("x64"));
}

#[test]
fn github_repo_is_set() {
    assert_eq!(github_repo(None), "imjulianeral/nitrate");
    assert_eq!(github_repo(Some("me/fork")), "me/fork");
}

#[test]
fn release_addresses() {
    assert_eq!(
        release_api_url("imjulianeral/nitrate"),
        "https://api.github.com/repos/imjulianeral/nitrate/releases/latest"
    );
    assert_eq!(
        release_download_url("a/b", "nitrate-linux-x64"),
        "https://github.com/a/b/releases/latest/download/nitrate-linux-x64"
    );
    assert_eq!(download_file_name(42, "nitrate-linux-x64"), "nitrate-update-42-nitrate-linux-x64");
}

#[test]
fn http_and_download_outcomes() {
    assert_eq!(http_reply(true, "body".into(), "x"), Ok("body".to_string()));
    assert_eq!(http_reply(false, "body".into(), " 404 \n"), Err("HTTP  404".to_string()));
    assert_eq!(download_outcome(true, true), Ok(()));
    assert_eq!(download_outcome(false, true), Err("DOWNLOAD FAILED".to_string()));
    assert_eq!(download_outcome(true, false), Err("DOWNLOAD EMPTY".to_string()));
}

#[test]
fn cli_update_plans() {
    match plan_cli_update("1.0.0", "1.0.0") {
        CliUpdate::Current(msg) => assert_eq!(msg, "NITRATE  1.0.0  already current"),
        CliUpdate::Install => panic!("current version must not install"),
    }
    assert!(matches!(plan_cli_update("1.1.0", "1.0.0"), CliUpdate::Install));
    assert_eq!(
        installed_report("1.0.0", "1.1.0", "/usr/bin/nitrate"),
        "NITRATE  1.0.0 -> 1.1.0\nWRITE  /usr/bin/nitrate"
    );
}

#[test]
fn archive_names_exact() {
    assert_eq!(archive_name(host_os("linux"), host_arch("x86_64")), Some("nitrate-linux-x64.tar.gz".to_string()));
    assert_eq!(archive_name(host_os("windows"), host_arch("x86_64")), Some("nitrate-windows-x64.zip".to_string()));
    assert_eq!(archive_name(host_os("freebsd"), host_arch("x86_64")), None);
}
