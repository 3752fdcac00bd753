use flate2::write::GzEncoder;
use flate2::Compression;
use mini_apt::config::InstallConfig;
use mini_apt::error::AptError;
use mini_apt::http::HttpOutcome;
use mini_apt::install::{install_start, install_step, InstallAction, InstallEvent, InstallState, Stage};
use mini_apt::utils::url::{MirrorStep, UrlBuilder};
use std::io::Write;

const FOO: &str = "Package: foo\nVersion: 1.0\nArchitecture: arm64\nFilename: pool/f/foo.deb\nSize: 10\nMD5sum: d41d8cd98f00b204e9800998ecf8427e\nSHA256: e3b0c4\n";

fn gzip(text: &str) -> Vec<u8> {
    let mut encoder = GzEncoder::new(Vec::new(), Compression::default());
    encoder.write_all(text.as_bytes()).unwrap();
    encoder.finish().unwrap()
}

fn ok(text: &str) -> HttpOutcome {
    HttpOutcome::Complete { status: 200, reason: "OK".to_string(), body: gzip(text) }
}

fn not_found() -> HttpOutcome {
    HttpOutcome::Complete { status: 404, reason: "Not Found".to_string(), body: Vec::new() }
}

fn unreachable_host() -> HttpOutcome {
    HttpOutcome::SendFailed { detail: "connection refused".to_string() }
}

fn request(name: &str, mirrors: &[&str]) -> InstallConfig {
    InstallConfig::new(
        name.to_string(),
        mirrors.iter().map(|m| m.to_string()).collect(),
        "arm64".to_string(),
        "sysroot".to_string(),
    )
    .unwrap()
}

fn is_trying(state: &InstallState, at: usize, fetching: bool) -> bool {
    match state {
        InstallState::Trying { mirror, stage } => {
            *mirror == at && matches!((stage, fetching), (Stage::FetchingIndex, true) | (Stage::Downloading, false))
        }
        _ => false,
    }
}

fn index_fetched(outcomes: Vec<HttpOutcome>) -> InstallEvent {
    InstallEvent::IndexFetched { outcomes }
}

fn download_finished(success: bool) -> InstallEvent {
    InstallEvent::DownloadFinished { success }
}

#[test]
fn artifact_address_is_mirror_slash_path() {
    assert_eq!(UrlBuilder::artifact_url("http://m", "pool/f/foo.deb"), "http://m/pool/f/foo.deb");
    assert_eq!(UrlBuilder::artifact_url("http://m/", "/pool"), "http://m///pool");
    assert_eq!(UrlBuilder::artifact_url("", ""), "/");
}

#[test]
fn fixed_family_is_told_by_its_prefix() {
    assert!(UrlBuilder::is_fixed_package("android-ndk"));
    assert!(UrlBuilder::is_fixed_package("android-ndk-r26b"));
    assert!(!UrlBuilder::is_fixed_package("android-sdk"));
    assert!(!UrlBuilder::is_fixed_package("Android-ndk"));
    assert!(!UrlBuilder::is_fixed_package("ndk"));
    assert!(!UrlBuilder::is_fixed_package(""));
}

#[test]
fn fixed_family_has_two_fixed_downloads() {
    let tasks = UrlBuilder::fixed_downloads("out");
    assert_eq!(tasks.len(), 2);
    assert_eq!(tasks[0].url, "https://dl.google.com/android/repository/android-ndk-r26b-darwin.dmg");
    assert_eq!(tasks[1].url, "https://dl.google.com/android/repository/android-ndk-r26b-darwin.zip");
    for task in &tasks {
        assert_eq!(task.root_dir, "out");
        assert_eq!(task.expected_md5, "dummy");
    }
}

#[test]
fn first_step_at_a_mirror() {
    match UrlBuilder::first_step(&request("foo", &["http://m"]), "http://m") {
        MirrorStep::FetchIndex { urls } => assert_eq!(
            urls,
            vec![
                "http://m/dists/focal/main/binary-arm64/Packages.gz".to_string(),
                "http://m/dists/focal/universe/binary-arm64/Packages.gz".to_string(),
            ]
        ),
        other => panic!("unexpected {:?}", other),
    }
    match UrlBuilder::first_step(&request("android-ndk-r26b", &["http://m"]), "http://m") {
        MirrorStep::Batch { tasks } => {
            assert_eq!(tasks.len(), 2);
            assert_eq!(tasks[0].root_dir, "sysroot");
        }
        other => panic!("unexpected {:?}", other),
    }
}

#[test]
fn download_is_resolved_from_the_index_text() {
    let config = request("foo", &["http://m"]);
    let task = UrlBuilder::resolve_download(&config, "http://m", FOO).unwrap();
    assert_eq!(task.url, "http://m/pool/f/foo.deb");
    assert_eq!(task.root_dir, "sysroot");
    assert_eq!(task.expected_md5, "d41d8cd98f00b204e9800998ecf8427e");
    let other_arch = FOO.replace("arm64", "amd64");
    assert!(matches!(UrlBuilder::resolve_download(&config, "http://m", &other_arch), Err(AptError::PackageNotFound)));
    assert!(matches!(UrlBuilder::resolve_download(&config, "http://m", ""), Err(AptError::PackageNotFound)));
    assert!(matches!(
        UrlBuilder::resolve_download(&request("bar", &[]), "http://m", FOO),
        Err(AptError::PackageNotFound)
    ));
}

#[test]
fn download_is_planned_from_the_answers_of_the_mirror() {
    let config = request("foo", &["http://m"]);
    let task = UrlBuilder::plan_download(&config, "http://m", &vec![not_found(), ok(FOO)]).unwrap();
    assert_eq!(task.url, "http://m/pool/f/foo.deb");
    let task = UrlBuilder::plan_download(&config, "http://n", &vec![ok("Package: bar\n"), ok(FOO)]).unwrap();
    assert_eq!(task.url, "http://n/pool/f/foo.deb");
    assert!(matches!(
        UrlBuilder::plan_download(&config, "http://m", &vec![not_found(), unreachable_host()]),
        Err(AptError::IndexUnavailable)
    ));
    assert!(matches!(
        UrlBuilder::plan_download(&config, "http://m", &vec![ok("Package: bar\n"), not_found()]),
        Err(AptError::PackageNotFound)
    ));
}

#[test]
fn stanza_split_over_two_components_is_not_joined() {
    let config = request("foo", &["http://m"]);
    let head = "Package: foo\nVersion: 1.0\nArchitecture: arm64";
    let tail = "Filename: pool/f/foo.deb\nSize: 10\nMD5sum: aa\nSHA256: bb\n";
    let task = UrlBuilder::plan_download(&config, "http://m", &vec![ok(head), ok(tail)]).unwrap();
    assert_eq!(task.expected_md5, "aa");
    let head = "Package: foo\nVersion: 1.0\nArchitecture: arm64\n";
    assert!(matches!(
        UrlBuilder::plan_download(&config, "http://m", &vec![ok(head), ok(tail)]),
        Err(AptError::PackageNotFound)
    ));
}

#[test]
fn second_mirror_takes_over_when_the_first_has_no_index() {
    let config = request("foo", &["http://one", "http://two", "http://three"]);
    let (state, action) = install_start(&config);
    assert!(is_trying(&state, 0, true));
    match action {
        InstallAction::FetchIndex { mirror, urls } => {
            assert_eq!(mirror, "http://one");
            assert_eq!(urls[0], "http://one/dists/focal/main/binary-arm64/Packages.gz");
            assert_eq!(urls[1], "http://one/dists/focal/universe/binary-arm64/Packages.gz");
        }
        other => panic!("unexpected {:?}", other),
    }
    let (state, action) = install_step(&config, state, index_fetched(vec![not_found(), unreachable_host()]));
    assert!(is_trying(&state, 1, true));
    match action {
        InstallAction::FetchIndex { mirror, urls } => {
            assert_eq!(mirror, "http://two");
            assert_eq!(urls.len(), 2);
            assert_eq!(urls[0], "http://two/dists/focal/main/binary-arm64/Packages.gz");
        }
        other => panic!("unexpected {:?}", other),
    }
    let (state, action) = install_step(&config, state, index_fetched(vec![ok(FOO), not_found()]));
    assert!(is_trying(&state, 1, false));
    match action {
        InstallAction::Download { task } => {
            assert_eq!(task.url, "http://two/pool/f/foo.deb");
            assert_eq!(task.root_dir, "sysroot");
            assert_eq!(task.expected_md5, "d41d8cd98f00b204e9800998ecf8427e");
        }
        other => panic!("unexpected {:?}", other),
    }
    let (state, action) = install_step(&config, state, download_finished(true));
    assert!(matches!(state, InstallState::Succeeded { mirror: 1 }));
    assert!(matches!(action, InstallAction::Finished { success: true }));
    for event in [download_finished(false), download_finished(true), index_fetched(vec![ok(FOO)])] {
        let (state, action) = install_step(&config, state, event);
        assert!(matches!(state, InstallState::Succeeded { mirror: 1 }));
        assert!(matches!(action, InstallAction::Finished { success: true }));
    }
}

#[test]
fn mirror_without_the_package_is_passed_over() {
    let config = request("foo", &["http://one", "http://two"]);
    let (state, _) = install_start(&config);
    let (state, action) = install_step(&config, state, index_fetched(vec![ok("Package: bar\n"), ok(&FOO.replace("arm64", "amd64"))]));
    assert!(is_trying(&state, 1, true));
    assert!(matches!(action, InstallAction::FetchIndex { .. }));
}

#[test]
fn failed_download_gives_the_next_mirror_its_turn() {
    let config = request("foo", &["http://one", "http://two"]);
    let (state, _) = install_start(&config);
    let (state, _) = install_step(&config, state, index_fetched(vec![ok(FOO), ok("")]));
    assert!(is_trying(&state, 0, false));
    let (state, action) = install_step(&config, state, download_finished(false));
    assert!(is_trying(&state, 1, true));
    match action {
        InstallAction::FetchIndex { mirror, .. } => assert_eq!(mirror, "http://two"),
        other => panic!("unexpected {:?}", other),
    }
}

#[test]
fn installation_fails_when_the_mirrors_are_exhausted() {
    let config = request("foo", &["http://one", "http://two"]);
    let (state, _) = install_start(&config);
    let (state, _) = install_step(&config, state, index_fetched(vec![]));
    let (state, _) = install_step(&config, state, index_fetched(vec![ok(FOO)]));
    assert!(is_trying(&state, 1, false));
    let (state, action) = install_step(&config, state, download_finished(false));
    assert!(matches!(state, InstallState::ExhaustedMirrors));
    assert!(matches!(action, InstallAction::Finished { success: false }));
    let (state, action) = install_step(&config, state, download_finished(true));
    assert!(matches!(state, InstallState::ExhaustedMirrors));
    assert!(matches!(action, InstallAction::Finished { success: false }));
}

#[test]
fn no_mirror_means_no_attempt() {
    for name in ["foo", "android-ndk"] {
        let config = request(name, &[]);
        let (state, action) = install_start(&config);
        assert!(matches!(state, InstallState::ExhaustedMirrors));
        assert!(matches!(action, InstallAction::Finished { success: false }));
    }
}

#[test]
fn fixed_family_is_downloaded_as_a_batch_at_each_mirror() {
    let config = request("android-ndk-r26b", &["http://one", "http://two"]);
    let (state, action) = install_start(&config);
    assert!(is_trying(&state, 0, false));
    match action {
        InstallAction::DownloadBatch { tasks } => {
            assert_eq!(tasks.len(), 2);
            assert_eq!(tasks[1].url, "https://dl.google.com/android/repository/android-ndk-r26b-darwin.zip");
        }
        other => panic!("unexpected {:?}", other),
    }
    let (state, action) = install_step(&config, state, download_finished(false));
    assert!(is_trying(&state, 1, false));
    assert!(matches!(action, InstallAction::DownloadBatch { .. }));
    let (state, action) = install_step(&config, state, download_finished(true));
    assert!(matches!(state, InstallState::Succeeded { mirror: 1 }));
    assert!(matches!(action, InstallAction::Finished { success: true }));
}

#[test]
fn report_that_was_not_awaited_fails_the_attempt() {
    let config = request("foo", &["http://one", "http://two"]);
    let (state, _) = install_start(&config);
    let (state, _) = install_step(&config, state, download_finished(true));
    assert!(is_trying(&state, 1, true));
    let (state, _) = install_step(&config, state, index_fetched(vec![ok(FOO)]));
    let (state, action) = install_step(&config, state, index_fetched(vec![ok(FOO)]));
    assert!(matches!(state, InstallState::ExhaustedMirrors));
    assert!(matches!(action, InstallAction::Finished { success: false }));
}

#[test]
fn state_outside_the_list_is_the_end() {
    let config = request("foo", &["http://one"]);
    let state = InstallState::Trying { mirror: 5, stage: Stage::Downloading };
    let (state, action) = install_step(&config, state, download_finished(true));
    assert!(matches!(state, InstallState::ExhaustedMirrors));
    assert!(matches!(action, InstallAction::Finished { success: false }));
}
