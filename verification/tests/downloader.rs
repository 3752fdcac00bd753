use mini_apt::error::AptError;
use mini_apt::http::HttpOutcome;
use mini_apt::package::downloader::{
    batch_result, check_digest, file_name_of, to_hex, verify_body, verify_download,
};

const EMPTY_MD5: &str = "d41d8cd98f00b204e9800998ecf8427e";
const ALPHABET_MD5: &str = "c3fcd3d76192e4007dfb496cca67e13b";
const HELLO_MD5: &str = "5eb63bbbe01eeed093cb22bb8f5acdc3";

fn complete(status: u16, body: &[u8]) -> HttpOutcome {
    HttpOutcome::Complete { status, reason: "OK".to_string(), body: body.to_vec() }
}

#[test]
fn bytes_in_hexadecimal() {
    assert_eq!(to_hex(&[]), "");
    assert_eq!(to_hex(&[0x00]), "00");
    assert_eq!(to_hex(&[0x0a, 0xf0, 0xff, 0x09, 0x10]), "0af0ff0910");
    assert_eq!(to_hex(&[0xde, 0xad, 0xbe, 0xef]), "deadbeef");
    let all: Vec<u8> = (0..=255).collect();
    let expected: String = all.iter().map(|b| format!("{:02x}", b)).collect();
    assert_eq!(to_hex(&all), expected);
}

#[test]
fn file_name_is_the_last_segment() {
    assert_eq!(file_name_of("https://example.com/pool/f/foo_1.0_arm64.deb"), "foo_1.0_arm64.deb");
    assert_eq!(file_name_of("foo.deb"), "foo.deb");
    assert_eq!(file_name_of("/foo.deb"), "foo.deb");
    assert_eq!(file_name_of("https://example.com/dir/"), "");
    assert_eq!(file_name_of(""), "");
    assert_eq!(file_name_of("/"), "");
    assert_eq!(file_name_of("a//b"), "b");
    assert_eq!(file_name_of("https://example.com/päck/☃.deb"), "☃.deb");
    for url in ["", "/", "a", "a/", "/a", "a/b/c", "a//", "http://h/p?q=1/2"] {
        assert_eq!(file_name_of(url), url.split('/').last().unwrap());
    }
}

#[test]
fn digest_is_held_against_the_expected_one() {
    let digest: [u8; 16] = md5::compute(b"hello world").0;
    assert!(check_digest(HELLO_MD5, &digest).is_ok());
    assert!(check_digest(&HELLO_MD5.to_uppercase(), &digest).is_ok());
    assert!(check_digest("5EB63bbbE01eeED093cb22bb8f5acdc3", &digest).is_ok());
    for wrong in ["", "dummy", EMPTY_MD5, "5eb63bbbe01eeed093cb22bb8f5acdc", "5eb63bbbe01eeed093cb22bb8f5acdc30", " 5eb63bbbe01eeed093cb22bb8f5acdc3"] {
        match check_digest(wrong, &digest) {
            Err(AptError::ChecksumMismatch { expected, actual }) => {
                assert_eq!(expected, wrong);
                assert_eq!(actual, HELLO_MD5);
            }
            other => panic!("unexpected {:?}", other),
        }
    }
}

#[test]
fn verified_body_becomes_the_artifact() {
    let artifact = verify_body("https://m/pool/hello.deb", b"hello world".to_vec(), HELLO_MD5).unwrap();
    assert_eq!(artifact.file_name, "hello.deb");
    assert_eq!(artifact.content, b"hello world");
    assert_eq!(format!("{:x}", md5::compute(&artifact.content)), HELLO_MD5);
    let artifact = verify_body("empty", Vec::new(), EMPTY_MD5).unwrap();
    assert_eq!(artifact.file_name, "empty");
    assert!(artifact.content.is_empty());
    let artifact = verify_body("x/abc", b"abcdefghijklmnopqrstuvwxyz".to_vec(), &ALPHABET_MD5.to_uppercase()).unwrap();
    assert_eq!(artifact.file_name, "abc");
}

#[test]
fn body_with_another_digest_is_refused() {
    match verify_body("https://m/pool/hello.deb", b"hello world!".to_vec(), HELLO_MD5) {
        Err(error @ AptError::ChecksumMismatch { .. }) => {
            assert_eq!(
                error.message(),
                format!("MD5 checksum mismatch. Expected: {}, got: {}", HELLO_MD5, format!("{:x}", md5::compute(b"hello world!")))
            );
        }
        other => panic!("unexpected {:?}", other),
    }
    assert!(matches!(
        verify_body("u", b"hello world".to_vec(), "dummy"),
        Err(AptError::ChecksumMismatch { .. })
    ));
    assert!(matches!(
        verify_body("u", Vec::new(), HELLO_MD5),
        Err(AptError::ChecksumMismatch { .. })
    ));
}

#[test]
fn download_is_judged_by_how_the_request_ended() {
    let artifact = verify_download("https://m/a/b.deb", complete(200, b"hello world"), HELLO_MD5).unwrap();
    assert_eq!(artifact.file_name, "b.deb");
    assert_eq!(artifact.content, b"hello world");
    assert!(verify_download("b.deb", complete(299, b""), EMPTY_MD5).is_ok());

    match verify_download("u", complete(404, b"hello world"), HELLO_MD5) {
        Err(AptError::HttpStatus { code, reason }) => {
            assert_eq!(code, 404);
            assert_eq!(reason, "OK");
        }
        other => panic!("unexpected {:?}", other),
    }
    assert!(matches!(verify_download("u", complete(199, b"hello world"), HELLO_MD5), Err(AptError::HttpStatus { code: 199, .. })));
    assert!(matches!(verify_download("u", complete(300, b"hello world"), HELLO_MD5), Err(AptError::HttpStatus { code: 300, .. })));

    let unsent = HttpOutcome::SendFailed { detail: "dns error".to_string() };
    match verify_download("u", unsent, HELLO_MD5) {
        Err(AptError::Transport { detail }) => assert_eq!(detail, "Failed to send request: dns error"),
        other => panic!("unexpected {:?}", other),
    }
    let cut = HttpOutcome::BodyFailed { status: 200, reason: "OK".to_string(), detail: "connection reset".to_string() };
    match verify_download("u", cut, HELLO_MD5) {
        Err(AptError::Transport { detail }) => assert_eq!(detail, "Failed to get response content: connection reset"),
        other => panic!("unexpected {:?}", other),
    }
    let cut = HttpOutcome::BodyFailed { status: 500, reason: "Internal Server Error".to_string(), detail: "connection reset".to_string() };
    assert!(matches!(verify_download("u", cut, HELLO_MD5), Err(AptError::HttpStatus { code: 500, .. })));
    assert!(matches!(verify_download("u", complete(200, b"tampered"), HELLO_MD5), Err(AptError::ChecksumMismatch { .. })));
}

#[test]
fn batch_with_one_wrong_digest_fails_and_keeps_the_others() {
    let bodies: Vec<&[u8]> = vec![b"hello world", b"", b"abcdefghijklmnopqrstuvwxyz"];
    let digests = [HELLO_MD5, HELLO_MD5, ALPHABET_MD5];
    let mut written = Vec::new();
    let mut results = Vec::new();
    for (i, body) in bodies.iter().enumerate() {
        match verify_download(&format!("https://m/file{}", i), complete(200, body), digests[i]) {
            Ok(artifact) => {
                written.push(artifact.file_name);
                results.push(Ok(()));
            }
            Err(error) => results.push(Err(error)),
        }
    }
    assert_eq!(written, vec!["file0".to_string(), "file2".to_string()]);
    let message = batch_result(&results).unwrap_err();
    assert_eq!(
        message,
        format!("Failed to download packages: MD5 checksum mismatch. Expected: {}, got: {}", HELLO_MD5, EMPTY_MD5)
    );
}

#[test]
fn batch_succeeds_where_every_download_did() {
    assert!(batch_result(&vec![]).is_ok());
    assert!(batch_result(&vec![Ok(()), Ok(()), Ok(())]).is_ok());
}

#[test]
fn batch_fails_with_its_first_failure() {
    let results = vec![
        Ok(()),
        Err(AptError::HttpStatus { code: 404, reason: "Not Found".to_string() }),
        Err(AptError::PackageNotFound),
        Ok(()),
    ];
    assert_eq!(batch_result(&results).unwrap_err(), "Failed to download packages: Status: 404 Not Found");
    let results = vec![Err(AptError::Filesystem { detail: "Failed to write file: disk full".to_string() })];
    assert_eq!(batch_result(&results).unwrap_err(), "Failed to download packages: Failed to write file: disk full");
}

#[test]
fn failures_describe_themselves() {
    assert_eq!(AptError::Transport { detail: "Failed to send request: x".to_string() }.message(), "Failed to send request: x");
    assert_eq!(AptError::HttpStatus { code: 0, reason: String::new() }.message(), "Status: 0 ");
    assert_eq!(AptError::HttpStatus { code: 65535, reason: "?".to_string() }.message(), "Status: 65535 ?");
    assert_eq!(AptError::HttpStatus { code: 503, reason: "Service Unavailable".to_string() }.message(), "Status: 503 Service Unavailable");
    assert_eq!(AptError::Decompression.message(), "Failed to decompress repository information");
    assert_eq!(AptError::IndexUnavailable.message(), "Failed to download Packages.gz from any component");
    assert_eq!(AptError::PackageNotFound.message(), "Package not found in repository");
    assert_eq!(
        AptError::ChecksumMismatch { expected: "aa".to_string(), actual: "bb".to_string() }.message(),
        "MD5 checksum mismatch. Expected: aa, got: bb"
    );
    assert_eq!(AptError::Filesystem { detail: "Failed to create directory: denied".to_string() }.message(), "Failed to create directory: denied");
}
