//! Checking what was downloaded: the status of the response, the name of the
//! file and the MD5 digest of its bytes.

use crate::error::AptError;
use crate::http::{is_success, status_is_success, HttpOutcome};
use crate::text::{lemma_split_on_last, split_on, str_chars, string_of};
use vstd::prelude::*;
use vstd::string::StringExecFns;

verus! {

/// One artifact to download: where it is, the directory it goes to and the
/// MD5 digest its bytes must have, in hexadecimal.
#[derive(Debug, Clone)]
pub struct DownloadTask {
    pub url: String,
    pub root_dir: String,
    pub expected_md5: String,
}

/// What a download task says, as plain values.
pub struct TaskView {
    pub url: Seq<char>,
    pub root_dir: Seq<char>,
    pub expected_md5: Seq<char>,
}

impl View for DownloadTask {
    type V = TaskView;

    open spec fn view(&self) -> TaskView {
        TaskView { url: self.url@, root_dir: self.root_dir@, expected_md5: self.expected_md5@ }
    }
}

/// A downloaded artifact whose digest was found as expected: the name of its
/// file and the bytes to write into it.
#[derive(Debug, Clone)]
pub struct Artifact {
    pub file_name: String,
    pub content: Vec<u8>,
}

/// The MD5 digest of a sequence of bytes.
pub uninterp spec fn md5_digest(data: Seq<u8>) -> Seq<u8>;

/// Computes the MD5 digest of `data` with `md5::compute`: sixteen bytes that
/// depend on the data alone; `md5_digest` is the name of them.
#[verifier::external_body]
fn md5_of(data: &[u8]) -> (digest: [u8; 16])
    ensures
        digest@ == md5_digest(data@),
{
    md5::compute(data).0
}

/// The lower-case hexadecimal digit of a number below sixteen.
pub open spec fn hex_digit(n: nat) -> char
    recommends
        n < 16,
{
    if n < 10 {
        ((n + 48) as u8) as char
    } else {
        ((n + 87) as u8) as char
    }
}

/// Bytes in lower-case hexadecimal, two digits for each byte.
pub open spec fn hex_text(bytes: Seq<u8>) -> Seq<char>
    decreases bytes.len(),
{
    if bytes.len() == 0 {
        Seq::empty()
    } else {
        hex_text(bytes.drop_last()).push(hex_digit((bytes.last() / 16) as nat)).push(
            hex_digit((bytes.last() % 16) as nat),
        )
    }
}

/// A character with an upper-case letter of ASCII made lower-case.
pub open spec fn ascii_lower(c: char) -> char {
    if 'A' <= c && c <= 'Z' {
        ((c as u8 + 32) as u8) as char
    } else {
        c
    }
}

/// A text with its upper-case letters of ASCII made lower-case.
pub open spec fn lower_text(s: Seq<char>) -> Seq<char> {
    s.map_values(|c: char| ascii_lower(c))
}

/// Whether `expected` names the digest: it is the digest in hexadecimal,
/// whatever the case of its letters.
pub open spec fn digest_matches(expected: Seq<char>, digest: Seq<u8>) -> bool {
    lower_text(expected) == hex_text(digest)
}

/// The last segment of an address: what follows its last slash, or all of it
/// where it holds none.
pub open spec fn last_segment(url: Seq<char>) -> Seq<char> {
    split_on(url, |c: char| c == '/').last()
}

fn hex_char(n: u8) -> (c: char)
    requires
        n < 16,
    ensures
        c == hex_digit(n as nat),
{
    if n < 10 {
        (n + 48) as char
    } else {
        (n + 87) as char
    }
}

/// Writes bytes in lower-case hexadecimal.
pub fn to_hex(bytes: &[u8]) -> (text: String)
    ensures
        text@ == hex_text(bytes@),
{
    let mut text = String::new();
    let mut i: usize = 0;
    while i < bytes.len()
        invariant
            i <= bytes.len(),
            text@ == hex_text(bytes@.take(i as int)),
        decreases bytes.len() - i,
    {
        let b = bytes[i];
        proof {
            assert(bytes@.take(i + 1).drop_last() =~= bytes@.take(i as int));
            assert(bytes@.take(i + 1).last() == b);
        }
        text.push(hex_char(b / 16));
        text.push(hex_char(b % 16));
        i += 1;
    }
    assert(bytes@.take(bytes.len() as int) =~= bytes@);
    text
}

/// Whether two texts are equal but for the case of their ASCII letters in the
/// first one: `expected` made lower-case is `actual`.
fn lower_equals(expected: &str, actual: &str) -> (same: bool)
    ensures
        same == (lower_text(expected@) == actual@),
{
    let want = str_chars(expected);
    let have = str_chars(actual);
    if want.len() != have.len() {
        return false;
    }
    let mut i: usize = 0;
    while i < want.len()
        invariant
            i <= want.len(),
            want.len() == have.len(),
            want@ == expected@,
            have@ == actual@,
            forall|k: int| 0 <= k < i ==> ascii_lower(want@[k]) == have@[k],
        decreases want.len() - i,
    {
        let c = want[i];
        let lower = if 'A' <= c && c <= 'Z' {
            ((c as u8) + 32) as char
        } else {
            c
        };
        if lower != have[i] {
            assert(lower_text(expected@)[i as int] != actual@[i as int]);
            return false;
        }
        i += 1;
    }
    assert(lower_text(expected@) =~= actual@);
    true
}

/// The name of the file that an address names: its last segment.
pub fn file_name_of(url: &str) -> (name: String)
    ensures
        name@ == last_segment(url@),
{
    let chars = str_chars(url);
    let mut start: usize = chars.len();
    while start > 0 && chars[start - 1] != '/'
        invariant
            start <= chars.len(),
            forall|i: int| start <= i < chars.len() ==> chars@[i] != '/',
        decreases start,
    {
        start -= 1;
    }
    proof {
        let sep = |c: char| c == '/';
        assert forall|i: int| start <= i < chars@.len() implies !sep(#[trigger] chars@[i]) by {}
        lemma_split_on_last(chars@, start as int, sep);
        assert(chars@.skip(start as int) =~= chars@.subrange(start as int, chars.len() as int));
    }
    string_of(&chars, start, chars.len())
}

/// Holds a digest against the one that was expected.
///
/// The digest is as expected where `expected` is the digest in hexadecimal,
/// in letters of either case. Otherwise the error names both.
pub fn check_digest(expected: &str, digest: &[u8; 16]) -> (verdict: Result<(), AptError>)
    ensures
        match verdict {
            Ok(_) => digest_matches(expected@, digest@),
            Err(error) => !digest_matches(expected@, digest@) && (error matches AptError::ChecksumMismatch {
                expected: e,
                actual: a,
            } && e@ == expected@ && a@ == hex_text(digest@)),
        },
{
    let actual = to_hex(digest.as_slice());
    if lower_equals(expected, actual.as_str()) {
        Ok(())
    } else {
        Err(AptError::ChecksumMismatch { expected: expected.to_owned(), actual })
    }
}

/// Checks the bytes of a download against the digest expected of them.
///
/// Bytes with the expected MD5 digest become the artifact to write, under the
/// name that the address gives. Other bytes are refused, and nothing of them
/// is handed on.
pub fn verify_body(url: &str, body: Vec<u8>, expected_md5: &str) -> (verdict: Result<
    Artifact,
    AptError,
>)
    ensures
        match verdict {
            Ok(artifact) => digest_matches(expected_md5@, md5_digest(body@))
                && artifact.file_name@ == last_segment(url@) && artifact.content@ == body@
                && digest_matches(expected_md5@, md5_digest(artifact.content@)),
            Err(error) => !digest_matches(expected_md5@, md5_digest(body@))
                && (error matches AptError::ChecksumMismatch { expected: e, actual: a } && e@
                == expected_md5@ && a@ == hex_text(md5_digest(body@))),
        },
{
    let digest = md5_of(body.as_slice());
    match check_digest(expected_md5, &digest) {
        Ok(_) => Ok(Artifact { file_name: file_name_of(url), content: body }),
        Err(error) => Err(error),
    }
}

/// Decides what a download gave, from the way its request ended.
///
/// A request that could not be sent, a status outside the 2xx range and a
/// body that could not be received are errors of their own. The body of a 2xx
/// response is held against the expected digest as in `verify_body`.
pub fn verify_download(url: &str, outcome: HttpOutcome, expected_md5: &str) -> (verdict: Result<
    Artifact,
    AptError,
>)
    ensures
        match outcome {
            HttpOutcome::SendFailed { detail } => verdict matches Err(
                AptError::Transport { detail: d },
            ) && d@ == "Failed to send request: "@ + detail@,
            HttpOutcome::BodyFailed { status, reason, detail } => if is_success(status) {
                verdict matches Err(AptError::Transport { detail: d }) && d@
                    == "Failed to get response content: "@ + detail@
            } else {
                verdict matches Err(AptError::HttpStatus { code, reason: r }) && code == status
                    && r@ == reason@
            },
            HttpOutcome::Complete { status, reason, body } => if !is_success(status) {
                verdict matches Err(AptError::HttpStatus { code, reason: r }) && code == status
                    && r@ == reason@
            } else if digest_matches(expected_md5@, md5_digest(body@)) {
                verdict matches Ok(artifact) && artifact.file_name@ == last_segment(url@)
                    && artifact.content@ == body@
            } else {
                verdict matches Err(AptError::ChecksumMismatch { expected: e, actual: a }) && e@
                    == expected_md5@ && a@ == hex_text(md5_digest(body@))
            },
        },
        verdict matches Ok(artifact) ==> digest_matches(
            expected_md5@,
            md5_digest(artifact.content@),
        ),
{
    match outcome {
        HttpOutcome::SendFailed { detail } => {
            let mut text = "Failed to send request: ".to_owned();
            text.append(detail.as_str());
            Err(AptError::Transport { detail: text })
        },
        HttpOutcome::BodyFailed { status, reason, detail } => {
            if status_is_success(status) {
                let mut text = "Failed to get response content: ".to_owned();
                text.append(detail.as_str());
                Err(AptError::Transport { detail: text })
            } else {
                Err(AptError::HttpStatus { code: status, reason })
            }
        },
        HttpOutcome::Complete { status, reason, body } => {
            if status_is_success(status) {
                verify_body(url, body, expected_md5)
            } else {
                Err(AptError::HttpStatus { code: status, reason })
            }
        },
    }
}

/// Whether `i` is the place of the first download of a batch that failed.
pub open spec fn is_first_failure(results: Seq<Result<(), AptError>>, i: int) -> bool {
    0 <= i < results.len() && results[i] is Err && forall|j: int|
        0 <= j < i ==> (#[trigger] results[j]) is Ok
}

/// The outcome of a batch of downloads, from the outcome of each.
///
/// The batch succeeds where every download succeeded. Otherwise it fails with
/// the description of the first download that failed, in the order of the
/// batch. Every download has run to its end by then: none is cut short
/// because another failed.
pub fn batch_result(results: &Vec<Result<(), AptError>>) -> (outcome: Result<(), String>)
    ensures
        match outcome {
            Ok(_) => forall|i: int| 0 <= i < results@.len() ==> (#[trigger] results@[i]) is Ok,
            Err(message) => exists|i: int|
                is_first_failure(results@, i) && message@ == "Failed to download packages: "@
                    + results@[i]->Err_0.message_text(),
        },
{
    let mut i: usize = 0;
    while i < results.len()
        invariant
            i <= results.len(),
            forall|j: int| 0 <= j < i ==> (#[trigger] results@[j]) is Ok,
        decreases results.len() - i,
    {
        match &results[i] {
            Ok(_) => {},
            Err(error) => {
                let mut message = "Failed to download packages: ".to_owned();
                let detail = error.message();
                message.append(detail.as_str());
                assert(is_first_failure(results@, i as int));
                return Err(message);
            },
        }
        i += 1;
    }
    Ok(())
}

/// Bytes in hexadecimal take two digits each.
pub proof fn lemma_hex_text_len(bytes: Seq<u8>)
    ensures
        hex_text(bytes).len() == 2 * bytes.len(),
    decreases bytes.len(),
{
    if bytes.len() > 0 {
        lemma_hex_text_len(bytes.drop_last());
    }
}

/// Different bytes never have the same hexadecimal text.
pub proof fn law_hex_text_is_one_to_one(a: Seq<u8>, b: Seq<u8>)
    requires
        hex_text(a) == hex_text(b),
    ensures
        a == b,
    decreases a.len(),
{
    lemma_hex_text_len(a);
    lemma_hex_text_len(b);
    if a.len() > 0 {
        let x = a.last();
        let y = b.last();
        let ha = hex_text(a.drop_last());
        let hb = hex_text(b.drop_last());
        lemma_hex_text_len(a.drop_last());
        lemma_hex_text_len(b.drop_last());
        let ta = hex_text(a);
        assert(ta == ha.push(hex_digit((x / 16) as nat)).push(hex_digit((x % 16) as nat)));
        assert(ta == hb.push(hex_digit((y / 16) as nat)).push(hex_digit((y % 16) as nat)));
        assert(ta[ta.len() - 1] == hex_digit((x % 16) as nat));
        assert(ta[ta.len() - 1] == hex_digit((y % 16) as nat));
        assert(ta[ta.len() - 2] == hex_digit((x / 16) as nat));
        assert(ta[ta.len() - 2] == hex_digit((y / 16) as nat));
        assert(x % 16 == y % 16);
        assert(x / 16 == y / 16);
        assert(x == y);
        assert(ha =~= ta.take(ta.len() - 2));
        assert(hb =~= ta.take(ta.len() - 2));
        law_hex_text_is_one_to_one(a.drop_last(), b.drop_last());
        assert(a =~= a.drop_last().push(x));
        assert(b =~= b.drop_last().push(y));
    } else {
        assert(a =~= b);
    }
}

/// An expected digest names one digest at most: bytes that pass the check
/// against it have that digest and no other.
pub proof fn law_expected_digest_names_one_digest(
    expected: Seq<char>,
    first: Seq<u8>,
    second: Seq<u8>,
)
    requires
        digest_matches(expected, first),
        digest_matches(expected, second),
    ensures
        first == second,
{
    law_hex_text_is_one_to_one(first, second);
}

/// The hexadecimal text of a digest names that digest, in lower case as it
/// is written and in upper case as well.
pub proof fn law_digest_matches_its_own_text(digest: Seq<u8>)
    ensures
        digest_matches(hex_text(digest), digest),
    decreases digest.len(),
{
    let text = hex_text(digest);
    if digest.len() > 0 {
        let front = digest.drop_last();
        law_digest_matches_its_own_text(front);
        let hi = hex_digit((digest.last() / 16) as nat);
        let lo = hex_digit((digest.last() % 16) as nat);
        assert(ascii_lower(hi) == hi);
        assert(ascii_lower(lo) == lo);
        assert(lower_text(text) =~= lower_text(hex_text(front)).push(hi).push(lo));
    } else {
        assert(lower_text(text) =~= text);
    }
}

/// Where exactly one download of a batch failed, it is the first failure,
/// wherever it stands in the batch: the batch fails with its description.
pub proof fn law_one_failure_fails_the_batch(results: Seq<Result<(), AptError>>, failed: int)
    requires
        0 <= failed < results.len(),
        results[failed] is Err,
        forall|i: int| 0 <= i < results.len() && i != failed ==> (#[trigger] results[i]) is Ok,
    ensures
        is_first_failure(results, failed),
        forall|i: int| is_first_failure(results, i) ==> i == failed,
{
}

/// At most one download of a batch is its first failure.
pub proof fn law_first_failure_is_unique(results: Seq<Result<(), AptError>>, i: int, j: int)
    requires
        is_first_failure(results, i),
        is_first_failure(results, j),
    ensures
        i == j,
{
    if i < j {
        assert(results[i] is Ok);
    }
    if j < i {
        assert(results[j] is Ok);
    }
}

} // verus!
