use flate2::write::GzEncoder;
use flate2::Compression;
use mini_apt::error::AptError;
use mini_apt::http::{status_is_success, user_agent, HttpOutcome};
use mini_apt::package::package_info::{
    assemble_index, component_names, decompress_index, index_url, index_urls, join_components,
    read_component,
};
use std::io::Write;

fn gzip(text: &str) -> Vec<u8> {
    let mut encoder = GzEncoder::new(Vec::new(), Compression::default());
    encoder.write_all(text.as_bytes()).unwrap();
    encoder.finish().unwrap()
}

fn ok(text: &str) -> HttpOutcome {
    HttpOutcome::Complete { status: 200, reason: "OK".to_string(), body: gzip(text) }
}

fn not_found() -> HttpOutcome {
    HttpOutcome::Complete { status: 404, reason: "Not Found".to_string(), body: gzip("ignored") }
}

fn unreachable_host() -> HttpOutcome {
    HttpOutcome::SendFailed { detail: "connection refused".to_string() }
}

#[test]
fn index_address_has_the_fixed_shape() {
    assert_eq!(
        index_url("https://mirrors.tuna.tsinghua.edu.cn/ubuntu-ports", "main", "arm64"),
        "https://mirrors.tuna.tsinghua.edu.cn/ubuntu-ports/dists/focal/main/binary-arm64/Packages.gz"
    );
    assert_eq!(index_url("", "", ""), "/dists/focal//binary-/Packages.gz");
    assert_eq!(index_url("m/", "universe", "amd64"), "m//dists/focal/universe/binary-amd64/Packages.gz");
}

#[test]
fn index_addresses_are_main_then_universe() {
    let urls = index_urls("http://mirror", "amd64");
    assert_eq!(
        urls,
        vec![
            "http://mirror/dists/focal/main/binary-amd64/Packages.gz".to_string(),
            "http://mirror/dists/focal/universe/binary-amd64/Packages.gz".to_string(),
        ]
    );
}

#[test]
fn components_are_main_and_universe() {
    assert_eq!(component_names(), vec!["main", "universe"]);
}

#[test]
fn client_names_itself_as_apt() {
    assert_eq!(user_agent(), "Debian APT-HTTP/1.3 (2.0.9)");
}

#[test]
fn success_is_the_2xx_range() {
    for status in [200u16, 201, 204, 206, 299] {
        assert!(status_is_success(status));
    }
    for status in [0u16, 100, 199, 300, 301, 304, 400, 404, 500, 503, 999, u16::MAX] {
        assert!(!status_is_success(status));
    }
}

#[test]
fn compressed_index_is_decompressed() {
    let text = "Package: foo\nVersion: 1.0\n\nPackage: bär\n";
    let body = gzip(text);
    assert_ne!(body, text.as_bytes());
    assert_eq!(decompress_index(&body).unwrap(), text);
    assert_eq!(decompress_index(&gzip("")).unwrap(), "");
}

#[test]
fn corrupt_index_is_a_decompression_error() {
    assert!(matches!(decompress_index(b""), Err(AptError::Decompression)));
    assert!(matches!(decompress_index(b"Package: foo\n"), Err(AptError::Decompression)));
    let mut body = gzip("Package: foo\nVersion: 1.0\n");
    body.truncate(body.len() - 6);
    assert!(matches!(decompress_index(&body), Err(AptError::Decompression)));
    let mut body = gzip("Package: foo\nVersion: 1.0\n");
    let last = body.len() - 5;
    body[last] ^= 0xff;
    assert!(matches!(decompress_index(&body), Err(AptError::Decompression)));
}

#[test]
fn compressed_bytes_that_are_no_text_are_refused() {
    let mut encoder = GzEncoder::new(Vec::new(), Compression::default());
    encoder.write_all(&[0xff, 0xfe, 0x00, 0xc3]).unwrap();
    let body = encoder.finish().unwrap();
    assert!(matches!(decompress_index(&body), Err(AptError::Decompression)));
}

#[test]
fn component_is_read_from_a_good_response() {
    assert_eq!(read_component(&ok("abc")).unwrap(), "abc");
    let accepted = HttpOutcome::Complete { status: 204, reason: String::new(), body: gzip("x") };
    assert_eq!(read_component(&accepted).unwrap(), "x");
}

#[test]
fn component_failures_are_told_apart() {
    match read_component(&not_found()) {
        Err(AptError::HttpStatus { code, reason }) => {
            assert_eq!(code, 404);
            assert_eq!(reason, "Not Found");
        }
        other => panic!("unexpected {:?}", other),
    }
    match read_component(&unreachable_host()) {
        Err(AptError::Transport { detail }) => assert_eq!(detail, "connection refused"),
        other => panic!("unexpected {:?}", other),
    }
    let broken = HttpOutcome::BodyFailed { status: 200, reason: "OK".to_string(), detail: "reset".to_string() };
    match read_component(&broken) {
        Err(AptError::Transport { detail }) => assert_eq!(detail, "reset"),
        other => panic!("unexpected {:?}", other),
    }
    let refused = HttpOutcome::BodyFailed { status: 503, reason: "Service Unavailable".to_string(), detail: "reset".to_string() };
    assert!(matches!(read_component(&refused), Err(AptError::HttpStatus { code: 503, .. })));
    let garbage = HttpOutcome::Complete { status: 200, reason: "OK".to_string(), body: b"not gzip".to_vec() };
    assert!(matches!(read_component(&garbage), Err(AptError::Decompression)));
}

#[test]
fn components_are_joined_with_a_line_feed_after_each() {
    let texts = vec![Some("a\n".to_string()), Some("b".to_string())];
    assert_eq!(join_components(&texts).unwrap(), "a\n\nb\n");
    let texts = vec![None, Some("b".to_string())];
    assert_eq!(join_components(&texts).unwrap(), "b\n");
    let texts = vec![Some("a".to_string()), None];
    assert_eq!(join_components(&texts).unwrap(), "a\n");
    let texts = vec![Some(String::new())];
    assert_eq!(join_components(&texts).unwrap(), "\n");
}

#[test]
fn no_component_means_no_index() {
    assert!(matches!(join_components(&vec![]), Err(AptError::IndexUnavailable)));
    assert!(matches!(join_components(&vec![None, None]), Err(AptError::IndexUnavailable)));
    assert!(matches!(assemble_index(&vec![]), Err(AptError::IndexUnavailable)));
    assert!(matches!(
        assemble_index(&vec![not_found(), unreachable_host()]),
        Err(AptError::IndexUnavailable)
    ));
}

#[test]
fn index_is_assembled_from_the_components_that_were_had() {
    let main = "Package: a\n";
    let universe = "Package: b\n";
    assert_eq!(assemble_index(&vec![ok(main), ok(universe)]).unwrap(), "Package: a\n\nPackage: b\n\n");
    assert_eq!(assemble_index(&vec![not_found(), ok(universe)]).unwrap(), "Package: b\n\n");
    assert_eq!(assemble_index(&vec![ok(main), unreachable_host()]).unwrap(), "Package: a\n\n");
    let garbage = HttpOutcome::Complete { status: 200, reason: "OK".to_string(), body: vec![1, 2, 3] };
    assert_eq!(assemble_index(&vec![garbage, ok(universe)]).unwrap(), "Package: b\n\n");
}
