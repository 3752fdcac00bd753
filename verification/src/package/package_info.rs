//! Reading a package index: its stanzas, their fields and the records they
//! give.
//!
//! An index is a text of stanzas that blank lines separate. A stanza is a
//! list of `Key: Value` lines. A stanza that names its package, with a name
//! that is not empty, and holds the other required fields gives one record.
//! Where two stanzas name the same package, the later one stands in the
//! index: the index is keyed by name alone, so the last stanza of a name
//! wins.

use super::{PackageIndex, PackageInfo, PackageRecord};
use crate::error::AptError;
use crate::http::{is_success, status_is_success, HttpOutcome};
use crate::text::{
    at_line_start, find_line_feed, lemma_split_lines_closed, lemma_split_lines_open,
    lemma_split_on_push, parse_decimal, parse_u64, split_lines, split_on, str_chars, str_eq,
    string_of, strings_view, strip_cr, strs_view,
};
use vstd::hash_map::StringHashMap;
use vstd::prelude::*;
use vstd::string::StringExecFns;

verus! {

/// The address of the index of one component of a mirror for an architecture.
pub open spec fn index_url_text(mirror: Seq<char>, component: Seq<char>, arch: Seq<char>) -> Seq<
    char,
> {
    mirror + "/dists/focal/"@ + component + "/binary-"@ + arch + "/Packages.gz"@
}

/// The address of the index of one component of a mirror for an architecture:
/// `{mirror}/dists/focal/{component}/binary-{arch}/Packages.gz`.
pub fn index_url(mirror: &str, component: &str, arch: &str) -> (url: String)
    ensures
        url@ == index_url_text(mirror@, component@, arch@),
{
    let mut url = mirror.to_owned();
    url.append("/dists/focal/");
    url.append(component);
    url.append("/binary-");
    url.append(arch);
    url.append("/Packages.gz");
    url
}

/// The components of a mirror whose indexes are read, in the order in which
/// they are read.
pub open spec fn components() -> Seq<Seq<char>> {
    seq!["main"@, "universe"@]
}

/// The addresses of the indexes of a mirror for an architecture, one for each
/// component, in the order of the components.
pub open spec fn index_url_texts(mirror: Seq<char>, arch: Seq<char>) -> Seq<Seq<char>> {
    components().map_values(|component: Seq<char>| index_url_text(mirror, component, arch))
}

/// The names of the components of a mirror whose indexes are read.
pub fn component_names() -> (names: Vec<&'static str>)
    ensures
        strs_view(names@) == components(),
{
    let names = vec!["main", "universe"];
    assert(strs_view(names@) =~= components());
    names
}

/// The addresses of the indexes of a mirror for an architecture, one for each
/// component, in the order of the components.
pub fn index_urls(mirror: &str, arch: &str) -> (urls: Vec<String>)
    ensures
        strings_view(urls@) == index_url_texts(mirror@, arch@),
{
    let names = component_names();
    let mut urls: Vec<String> = Vec::new();
    let mut i: usize = 0;
    while i < names.len()
        invariant
            i <= names.len(),
            strs_view(names@) == components(),
            strings_view(urls@) == index_url_texts(mirror@, arch@).take(i as int),
        decreases names.len() - i,
    {
        assert(strs_view(names@)[i as int] == names@[i as int]@);
        let ghost before = urls@;
        urls.push(index_url(mirror, names[i], arch));
        assert(strings_view(urls@) =~= index_url_texts(mirror@, arch@).take(i + 1)) by {
            assert(strings_view(before) =~= strings_view(urls@).take(i as int));
        }
        i += 1;
    }
    assert(strs_view(names@).len() == names@.len());
    assert(index_url_texts(mirror@, arch@).take(names.len() as int) =~= index_url_texts(
        mirror@,
        arch@,
    ));
    urls
}

/// The text that a gzip stream holds, or nothing where the bytes are no gzip
/// stream or what they hold is no text.
pub uninterp spec fn gunzip_text(data: Seq<u8>) -> Option<Seq<char>>;

/// Decompresses a gzip stream with `flate2::read::GzDecoder` and reads all of
/// it as text with `read_to_string`. Gives the text where the decoder reports
/// success and nothing where it reports an error. What comes back depends on
/// the bytes alone; `gunzip_text` is the name of it.
#[verifier::external_body]
fn gunzip(data: &[u8]) -> (text: Option<String>)
    ensures
        match text {
            Some(content) => gunzip_text(data@) == Some(content@),
            None => gunzip_text(data@) is None,
        },
{
    let mut decoder = flate2::read::GzDecoder::new(data);
    let mut content = String::new();
    match std::io::Read::read_to_string(&mut decoder, &mut content) {
        Ok(_) => Some(content),
        Err(_) => None,
    }
}

/// Decompresses the body of an index response into its text.
pub fn decompress_index(body: &[u8]) -> (text: Result<String, AptError>)
    ensures
        match text {
            Ok(content) => gunzip_text(body@) == Some(content@),
            Err(error) => error is Decompression && gunzip_text(body@) is None,
        },
{
    match gunzip(body) {
        Some(content) => Ok(content),
        None => Err(AptError::Decompression),
    }
}

/// The text of one component of the index, given how its request ended: the
/// decompressed body of a response with a 2xx status, and nothing otherwise.
pub open spec fn component_text(outcome: HttpOutcome) -> Option<Seq<char>> {
    match outcome {
        HttpOutcome::Complete { status, reason, body } => if is_success(status) {
            gunzip_text(body@)
        } else {
            None
        },
        _ => None,
    }
}

/// Reads the text of one component of the index from the way its request
/// ended, or says why there is none.
pub fn read_component(outcome: &HttpOutcome) -> (text: Result<String, AptError>)
    ensures
        match text {
            Ok(content) => component_text(*outcome) == Some(content@),
            Err(error) => component_text(*outcome) is None && match *outcome {
                HttpOutcome::SendFailed { detail } => error matches AptError::Transport {
                    detail: d,
                } && d@ == detail@,
                HttpOutcome::BodyFailed { status, reason, detail } => if is_success(status) {
                    error matches AptError::Transport { detail: d } && d@ == detail@
                } else {
                    error matches AptError::HttpStatus { code, reason: r } && code == status && r@
                        == reason@
                },
                HttpOutcome::Complete { status, reason, body } => if is_success(status) {
                    error is Decompression
                } else {
                    error matches AptError::HttpStatus { code, reason: r } && code == status && r@
                        == reason@
                },
            },
        },
{
    match outcome {
        HttpOutcome::SendFailed { detail } => Err(AptError::Transport { detail: detail.clone() }),
        HttpOutcome::BodyFailed { status, reason, detail } => {
            if status_is_success(*status) {
                Err(AptError::Transport { detail: detail.clone() })
            } else {
                Err(AptError::HttpStatus { code: *status, reason: reason.clone() })
            }
        },
        HttpOutcome::Complete { status, reason, body } => {
            if status_is_success(*status) {
                decompress_index(body.as_slice())
            } else {
                Err(AptError::HttpStatus { code: *status, reason: reason.clone() })
            }
        },
    }
}

/// The texts of the components that were had, one after the other, each
/// followed by a line feed.
pub open spec fn joined_text(texts: Seq<Option<Seq<char>>>) -> Seq<char>
    decreases texts.len(),
{
    if texts.len() == 0 {
        Seq::empty()
    } else {
        let before = joined_text(texts.drop_last());
        match texts.last() {
            Some(content) => before + content + seq!['\n'],
            None => before,
        }
    }
}

/// Whether at least one component was had.
pub open spec fn any_present(texts: Seq<Option<Seq<char>>>) -> bool {
    exists|i: int| 0 <= i < texts.len() && (#[trigger] texts[i]) is Some
}

/// The view of a component text that may be missing.
pub open spec fn text_view(text: Option<String>) -> Option<Seq<char>> {
    match text {
        Some(content) => Some(content@),
        None => None,
    }
}

/// Joins the texts of the components of an index. Components that could not
/// be had are left out; with none at all the index is unavailable.
pub fn join_components(texts: &Vec<Option<String>>) -> (index: Result<String, AptError>)
    ensures
        match index {
            Ok(content) => any_present(texts@.map_values(|t: Option<String>| text_view(t)))
                && content@ == joined_text(texts@.map_values(|t: Option<String>| text_view(t))),
            Err(error) => error is IndexUnavailable && !any_present(
                texts@.map_values(|t: Option<String>| text_view(t)),
            ),
        },
{
    let ghost views = texts@.map_values(|t: Option<String>| text_view(t));
    let mut all = String::new();
    let mut any = false;
    let mut i: usize = 0;
    while i < texts.len()
        invariant
            i <= texts.len(),
            views == texts@.map_values(|t: Option<String>| text_view(t)),
            all@ == joined_text(views.take(i as int)),
            any == any_present(views.take(i as int)),
        decreases texts.len() - i,
    {
        proof {
            assert(views.take(i + 1).drop_last() =~= views.take(i as int));
            assert(views.take(i + 1).last() == text_view(texts@[i as int]));
        }
        match &texts[i] {
            Some(content) => {
                all.append(content.as_str());
                all.push('\n');
                any = true;
                assert(views.take(i + 1)[i as int] is Some);
            },
            None => {
                proof {
                    if any_present(views.take(i + 1)) {
                        let k = choose|k: int|
                            0 <= k < views.take(i + 1).len() && (#[trigger] views.take(
                                i + 1,
                            )[k]) is Some;
                        assert(views.take(i as int)[k] is Some);
                    }
                    if any_present(views.take(i as int)) {
                        let k = choose|k: int|
                            0 <= k < views.take(i as int).len() && (#[trigger] views.take(
                                i as int,
                            )[k]) is Some;
                        assert(views.take(i + 1)[k] is Some);
                    }
                }
            },
        }
        i += 1;
    }
    assert(views.take(texts.len() as int) =~= views);
    if any {
        Ok(all)
    } else {
        Err(AptError::IndexUnavailable)
    }
}

/// The text of the index of a mirror, given how the requests for its
/// components ended, in the order of the components. A component that failed
/// is left out; the index is unavailable only where every component failed.
pub fn assemble_index(outcomes: &Vec<HttpOutcome>) -> (index: Result<String, AptError>)
    ensures
        match index {
            Ok(content) => any_present(outcomes@.map_values(|o: HttpOutcome| component_text(o)))
                && content@ == joined_text(
                outcomes@.map_values(|o: HttpOutcome| component_text(o)),
            ),
            Err(error) => error is IndexUnavailable && !any_present(
                outcomes@.map_values(|o: HttpOutcome| component_text(o)),
            ),
        },
{
    let mut texts: Vec<Option<String>> = Vec::new();
    let mut i: usize = 0;
    while i < outcomes.len()
        invariant
            i <= outcomes.len(),
            texts@.len() == i,
            forall|k: int|
                0 <= k < i ==> text_view(#[trigger] texts@[k]) == component_text(outcomes@[k]),
        decreases outcomes.len() - i,
    {
        let text = match read_component(&outcomes[i]) {
            Ok(content) => Some(content),
            Err(_) => None,
        };
        texts.push(text);
        i += 1;
    }
    assert(texts@.map_values(|t: Option<String>| text_view(t)) =~= outcomes@.map_values(
        |o: HttpOutcome| component_text(o),
    ));
    join_components(&texts)
}

/// Whether `i` is a place where `line` holds a colon and then a space.
pub open spec fn is_field_break(line: Seq<char>, i: int) -> bool {
    0 <= i && i + 1 < line.len() && line[i] == ':' && line[i + 1] == ' '
}

/// Whether `i` is the first place where `line` holds a colon and then a space.
pub open spec fn is_first_field_break(line: Seq<char>, i: int) -> bool {
    is_field_break(line, i) && forall|j: int| 0 <= j < i ==> !is_field_break(line, j)
}

/// The key and the value of a line: what stands before and after its first
/// colon followed by a space. A line without that pair has neither.
pub open spec fn split_field(line: Seq<char>) -> Option<(Seq<char>, Seq<char>)> {
    if exists|i: int| is_first_field_break(line, i) {
        let i = choose|i: int| is_first_field_break(line, i);
        Some((line.take(i), line.skip(i + 2)))
    } else {
        None
    }
}

/// The field that a line of a stanza sets. A line that starts with a space
/// continues the value of the line before it and sets nothing.
pub open spec fn line_field(line: Seq<char>) -> Option<(Seq<char>, Seq<char>)> {
    if line.len() > 0 && line[0] == ' ' {
        None
    } else {
        split_field(line)
    }
}

/// The fields of a stanza: for each key the value of the last line that sets it.
pub open spec fn stanza_fields(stanza: Seq<Seq<char>>) -> Map<Seq<char>, Seq<char>>
    decreases stanza.len(),
{
    if stanza.len() == 0 {
        Map::empty()
    } else {
        let before = stanza_fields(stanza.drop_last());
        match line_field(stanza.last()) {
            Some((key, value)) => before.insert(key, value),
            None => before,
        }
    }
}

/// The record that the fields of a stanza give for the package `name`, or
/// what it lacks. A package has a name: an empty one counts as missing. Then
/// comes the first of the required fields that is missing, in the order
/// version, architecture, file name, size, MD5 digest, SHA-256 digest; a size
/// that is no number counts at the place of the size.
pub open spec fn record_of(name: Seq<char>, fields: Map<Seq<char>, Seq<char>>) -> Result<
    PackageRecord,
    Seq<char>,
> {
    if name.len() == 0 {
        Err("Missing Package"@)
    } else if !fields.contains_key("Version"@) {
        Err("Missing Version"@)
    } else if !fields.contains_key("Architecture"@) {
        Err("Missing Architecture"@)
    } else if !fields.contains_key("Filename"@) {
        Err("Missing Filename"@)
    } else if !fields.contains_key("Size"@) {
        Err("Missing Size"@)
    } else if parse_decimal(fields["Size"@]) is None {
        Err("Invalid Size"@)
    } else if !fields.contains_key("MD5sum"@) {
        Err("Missing MD5sum"@)
    } else if !fields.contains_key("SHA256"@) {
        Err("Missing SHA256"@)
    } else {
        Ok(
            PackageRecord {
                package: name,
                version: fields["Version"@],
                architecture: fields["Architecture"@],
                filename: fields["Filename"@],
                size: parse_decimal(fields["Size"@])->0,
                md5sum: fields["MD5sum"@],
                sha256: fields["SHA256"@],
            },
        )
    }
}

/// The record that a set of fields gives, if it gives one: the fields must
/// name the package, with a name that is not empty, and hold every required
/// field.
pub open spec fn fields_record(fields: Map<Seq<char>, Seq<char>>) -> Option<PackageRecord> {
    if fields.contains_key("Package"@) && fields["Package"@].len() > 0 {
        match record_of(fields["Package"@], fields) {
            Ok(record) => Some(record),
            Err(_) => None,
        }
    } else {
        None
    }
}

/// The record of a stanza, if it gives one.
pub open spec fn stanza_record(stanza: Seq<Seq<char>>) -> Option<PackageRecord> {
    fields_record(stanza_fields(stanza))
}

/// An index with the record of `stanza` put in, if the stanza gives one.
pub open spec fn with_stanza(
    index: Map<Seq<char>, PackageRecord>,
    stanza: Seq<Seq<char>>,
) -> Map<Seq<char>, PackageRecord> {
    match stanza_record(stanza) {
        Some(record) => index.insert(record.package, record),
        None => index,
    }
}

/// The index that a list of stanzas gives: each stanza with a record puts it
/// under its name, in order, so that a later stanza replaces an earlier one
/// of the same name.
pub open spec fn parse_stanzas(stanzas: Seq<Seq<Seq<char>>>) -> Map<Seq<char>, PackageRecord>
    decreases stanzas.len(),
{
    if stanzas.len() == 0 {
        Map::empty()
    } else {
        with_stanza(parse_stanzas(stanzas.drop_last()), stanzas.last())
    }
}

/// The stanzas of a list of lines: the runs of lines between blank lines.
pub open spec fn split_stanzas(lines: Seq<Seq<char>>) -> Seq<Seq<Seq<char>>> {
    split_on(lines, |line: Seq<char>| line.len() == 0)
}

/// The index that the text of a package list gives.
pub open spec fn parse_text(text: Seq<char>) -> Map<Seq<char>, PackageRecord> {
    parse_stanzas(split_stanzas(split_lines(text)))
}

/// The fields of a stanza as a map from key to value.
pub open spec fn fields_view(info: Map<Seq<char>, String>) -> Map<Seq<char>, Seq<char>> {
    Map::new(|key: Seq<char>| info.contains_key(key), |key: Seq<char>| info[key]@)
}

/// Builds the record of the package `package_name` from the fields of its
/// stanza, or says which required field is missing or malformed. An empty
/// name is no name: it counts as missing.
pub fn create_package_info(package_name: &str, info: &StringHashMap<String>) -> (made: Result<
    PackageInfo,
    String,
>)
    ensures
        match made {
            Ok(record) => record_of(package_name@, fields_view(info@)) == Ok::<
                PackageRecord,
                Seq<char>,
            >(record@),
            Err(message) => record_of(package_name@, fields_view(info@)) == Err::<
                PackageRecord,
                Seq<char>,
            >(message@),
        },
{
    if package_name.is_empty() {
        return Err("Missing Package".to_owned());
    }
    let version = match info.get("Version") {
        Some(value) => value.clone(),
        None => {
            return Err("Missing Version".to_owned());
        },
    };
    let architecture = match info.get("Architecture") {
        Some(value) => value.clone(),
        None => {
            return Err("Missing Architecture".to_owned());
        },
    };
    let filename = match info.get("Filename") {
        Some(value) => value.clone(),
        None => {
            return Err("Missing Filename".to_owned());
        },
    };
    let size = match info.get("Size") {
        Some(value) => match parse_u64(value.as_str()) {
            Some(size) => size,
            None => {
                return Err("Invalid Size".to_owned());
            },
        },
        None => {
            return Err("Missing Size".to_owned());
        },
    };
    let md5sum = match info.get("MD5sum") {
        Some(value) => value.clone(),
        None => {
            return Err("Missing MD5sum".to_owned());
        },
    };
    let sha256 = match info.get("SHA256") {
        Some(value) => value.clone(),
        None => {
            return Err("Missing SHA256".to_owned());
        },
    };
    Ok(
        PackageInfo::new(
            package_name.to_owned(),
            version,
            architecture,
            filename,
            size,
            md5sum,
            sha256,
        ),
    )
}

/// Reads the field that the line `chars[start..end]` sets, if it sets one.
fn read_field(chars: &Vec<char>, start: usize, end: usize) -> (field: Option<(String, String)>)
    requires
        start <= end <= chars.len(),
    ensures
        match field {
            Some((key, value)) => line_field(chars@.subrange(start as int, end as int)) == Some(
                (key@, value@),
            ),
            None => line_field(chars@.subrange(start as int, end as int)) is None,
        },
{
    let ghost line = chars@.subrange(start as int, end as int);
    if start < end && chars[start] == ' ' {
        return None;
    }
    let mut i: usize = start;
    while i < end
        invariant
            start <= i <= end <= chars.len(),
            line == chars@.subrange(start as int, end as int),
            !(line.len() > 0 && line[0] == ' '),
            forall|j: int| 0 <= j < i - start ==> !is_field_break(line, j),
        decreases end - i,
    {
        if chars[i] == ':' && i + 1 < end && chars[i + 1] == ' ' {
            let key = string_of(chars, start, i);
            let value = string_of(chars, i + 2, end);
            proof {
                let at = i - start;
                assert(is_first_field_break(line, at));
                let chosen = choose|k: int| is_first_field_break(line, k);
                assert(chosen == at) by {
                    if chosen < at {
                        assert(!is_field_break(line, chosen));
                    }
                    if at < chosen {
                        assert(!is_field_break(line, at));
                    }
                }
                assert(line.take(at) =~= key@);
                assert(line.skip(at + 2) =~= value@);
            }
            return Some((key, value));
        }
        i += 1;
    }
    assert(forall|k: int| !is_first_field_break(line, k));
    None
}

/// Puts the record of a finished stanza into the index, if its fields give
/// one. A stanza without a name, or with an empty one, is passed over.
fn finish_stanza(packages: &mut PackageIndex, info: &StringHashMap<String>)
    ensures
        final(packages)@ == match fields_record(fields_view(info@)) {
            Some(record) => old(packages)@.insert(record.package, record),
            None => old(packages)@,
        },
{
    match info.get("Package") {
        Some(name) => {
            if !name.as_str().is_empty() {
                match create_package_info(name.as_str(), info) {
                    Ok(record) => {
                        packages.insert(record);
                    },
                    Err(_) => {},
                }
            }
        },
        None => {},
    }
}

/// Reads the text of a package list into an index of its records.
///
/// A stanza that lacks a required field, whose name is empty or whose size is
/// no number, gives no record and does not stop the reading. Of two stanzas with one name the
/// later one stands in the index.
pub fn parse_packages_file(content: &str) -> (packages: PackageIndex)
    ensures
        packages@ == parse_text(content@),
{
    let chars = str_chars(content);
    let n = chars.len();
    let mut packages = PackageIndex::new();
    let mut info: StringHashMap<String> = StringHashMap::new();
    let mut pos: usize = 0;
    let ghost blank = |line: Seq<char>| line.len() == 0;
    let ghost mut lines: Seq<Seq<char>> = Seq::empty();
    proof {
        assert(chars@.take(0) =~= Seq::<char>::empty());
        assert(split_lines(chars@.take(0)) =~= lines);
        assert(split_stanzas(lines).drop_last() =~= Seq::<Seq<Seq<char>>>::empty());
        assert(split_stanzas(lines).last() =~= Seq::<Seq<char>>::empty());
        assert(fields_view(info@) =~= Map::<Seq<char>, Seq<char>>::empty());
    }
    while pos < n
        invariant
            chars@ == content@,
            n == chars.len(),
            pos <= n,
            pos < n ==> at_line_start(chars@, pos as int),
            blank == |line: Seq<char>| line.len() == 0,
            lines == split_lines(chars@.take(pos as int)),
            split_stanzas(lines).len() >= 1,
            packages@ == parse_stanzas(split_stanzas(lines).drop_last()),
            fields_view(info@) == stanza_fields(split_stanzas(lines).last()),
        decreases n - pos,
    {
        let feed = find_line_feed(&chars, pos);
        let closed = feed < n;
        let end = if closed && feed > pos && chars[feed - 1] == '\r' {
            feed - 1
        } else {
            feed
        };
        let ghost line = chars@.subrange(pos as int, end as int);
        let ghost stanzas = split_stanzas(lines);
        proof {
            if closed {
                lemma_split_lines_closed(chars@, pos as int, feed as int);
                assert(line =~= strip_cr(chars@.subrange(pos as int, feed as int)));
            } else {
                lemma_split_lines_open(chars@, pos as int);
                assert(line =~= chars@.skip(pos as int));
                assert(chars@.take(n as int) =~= chars@);
            }
            lemma_split_on_push(lines, line, blank);
        }
        if end == pos {
            finish_stanza(&mut packages, &info);
            info.clear();
            proof {
                let next = split_stanzas(lines.push(line));
                assert(next.drop_last() =~= stanzas);
                assert(fields_view(info@) =~= Map::<Seq<char>, Seq<char>>::empty());
                assert(next.last() =~= Seq::<Seq<char>>::empty());
            }
        } else {
            let field = read_field(&chars, pos, end);
            let ghost before = info@;
            match field {
                Some((key, value)) => {
                    info.insert(key, value);
                    assert(fields_view(info@) =~= fields_view(before).insert(key@, value@));
                },
                None => {},
            }
            proof {
                let next = split_stanzas(lines.push(line));
                assert(next.drop_last() =~= stanzas.drop_last());
                assert(next.last() == stanzas.last().push(line));
                assert(stanzas.last().push(line).drop_last() =~= stanzas.last());
            }
        }
        proof {
            lines = lines.push(line);
        }
        pos = if closed {
            feed + 1
        } else {
            n
        };
    }
    finish_stanza(&mut packages, &info);
    proof {
        assert(chars@.take(n as int) =~= chars@);
    }
    packages
}

/// The record of the package `name` for the architecture `arch`, if the index
/// holds that name and its record is for that architecture. A record that is
/// found bears the name that was asked for.
pub fn find_package<'a>(packages: &'a PackageIndex, name: &str, arch: &str) -> (found: Option<
    &'a PackageInfo,
>)
    ensures
        match found {
            Some(info) => packages@.contains_key(name@) && info@ == packages@[name@]
                && info@.architecture == arch@ && info@.package == name@ && name@.len() > 0,
            None => !packages@.contains_key(name@) || packages@[name@].architecture != arch@,
        },
{
    match packages.get(name) {
        Some(info) => {
            if str_eq(info.architecture.as_str(), arch) {
                Some(info)
            } else {
                None
            }
        },
        None => None,
    }
}

} // verus!
