//! What holds of every index that is read from stanzas.

use super::package_info::{
    is_field_break, is_first_field_break, line_field, parse_stanzas, parse_text, split_stanzas,
    stanza_fields, stanza_record,
};
use super::PackageRecord;
use crate::text::{
    all_digits, at_line_start, decimal_text, is_digit, join_all, law_joined_pieces_are_split_back,
    law_written_number_is_read_back, lemma_decimal_text_value, lemma_joined_elements,
    lemma_split_lines_closed, lemma_split_on_run, parse_decimal, split_lines, split_on, strip_cr,
};
use vstd::prelude::*;

verus! {

/// Whether `key` is one of the seven fields that a stanza must hold to give a
/// record.
pub open spec fn is_required_field(key: Seq<char>) -> bool {
    key == "Package"@ || key == "Version"@ || key == "Architecture"@ || key == "Filename"@ || key
        == "Size"@ || key == "MD5sum"@ || key == "SHA256"@
}

/// Whether a stanza holds every required field, with a name that is not
/// empty and a size that is a number.
pub open spec fn is_well_formed(stanza: Seq<Seq<char>>) -> bool {
    let fields = stanza_fields(stanza);
    &&& forall|key: Seq<char>| is_required_field(key) ==> fields.contains_key(key)
    &&& fields["Package"@].len() > 0
    &&& parse_decimal(fields["Size"@]) is Some
}

/// A stanza that holds the seven required fields, with a name that is not
/// empty and a size that is a number, gives a record, and each field of the record is the value that the
/// stanza holds for it.
pub proof fn law_well_formed_stanza_gives_its_values(stanza: Seq<Seq<char>>)
    requires
        is_well_formed(stanza),
    ensures
        stanza_record(stanza) == Some(
            PackageRecord {
                package: stanza_fields(stanza)["Package"@],
                version: stanza_fields(stanza)["Version"@],
                architecture: stanza_fields(stanza)["Architecture"@],
                filename: stanza_fields(stanza)["Filename"@],
                size: parse_decimal(stanza_fields(stanza)["Size"@])->0,
                md5sum: stanza_fields(stanza)["MD5sum"@],
                sha256: stanza_fields(stanza)["SHA256"@],
            },
        ),
{
    assert(is_required_field("Package"@));
    assert(is_required_field("Version"@));
    assert(is_required_field("Architecture"@));
    assert(is_required_field("Filename"@));
    assert(is_required_field("Size"@));
    assert(is_required_field("MD5sum"@));
    assert(is_required_field("SHA256"@));
}

/// A stanza that lacks a required field, whose name is empty or whose size is
/// no number, gives no record.
pub proof fn law_malformed_stanza_gives_nothing(stanza: Seq<Seq<char>>)
    requires
        !is_well_formed(stanza),
    ensures
        stanza_record(stanza) is None,
{
}

/// A stanza that gives no record leaves the index as it would be without the
/// stanza, wherever it stands: what precedes it and what follows it is read
/// as if it were not there.
pub proof fn law_stanza_without_record_is_skipped(
    before: Seq<Seq<Seq<char>>>,
    stanza: Seq<Seq<char>>,
    after: Seq<Seq<Seq<char>>>,
)
    requires
        stanza_record(stanza) is None,
    ensures
        parse_stanzas(before + seq![stanza] + after) == parse_stanzas(before + after),
    decreases after.len(),
{
    if after.len() == 0 {
        assert(before + seq![stanza] + after =~= before.push(stanza));
        assert(before.push(stanza).drop_last() =~= before);
        assert(before + after =~= before);
    } else {
        law_stanza_without_record_is_skipped(before, stanza, after.drop_last());
        assert((before + seq![stanza] + after).drop_last() =~= before + seq![stanza]
            + after.drop_last());
        assert((before + after).drop_last() =~= before + after.drop_last());
        assert((before + seq![stanza] + after).last() == after.last());
        assert((before + after).last() == after.last());
    }
}

/// Whether a line sets the field `key`.
pub open spec fn sets_field(line: Seq<char>, key: Seq<char>) -> bool {
    match line_field(line) {
        Some((name, value)) => name == key,
        None => false,
    }
}

/// The field that a line sets; empty where it sets none.
pub open spec fn key_of(line: Seq<char>) -> Seq<char> {
    match line_field(line) {
        Some((name, value)) => name,
        None => Seq::empty(),
    }
}

/// The value that a line sets its field to; empty where it sets none.
pub open spec fn value_of(line: Seq<char>) -> Seq<char> {
    match line_field(line) {
        Some((name, value)) => value,
        None => Seq::empty(),
    }
}

/// Whether the line at place `i` is the last line of a stanza that sets the
/// field `key`.
pub open spec fn is_last_of_field(stanza: Seq<Seq<char>>, key: Seq<char>, i: int) -> bool {
    &&& 0 <= i < stanza.len()
    &&& sets_field(stanza[i], key)
    &&& forall|j: int| i < j < stanza.len() ==> !sets_field(#[trigger] stanza[j], key)
}

/// A stanza holds a field exactly where one of its lines sets it, and the
/// value it holds is that of the last such line.
pub proof fn law_last_line_of_a_field_wins(stanza: Seq<Seq<char>>, key: Seq<char>)
    ensures
        stanza_fields(stanza).contains_key(key) <==> exists|i: int|
            0 <= i < stanza.len() && sets_field(#[trigger] stanza[i], key),
        forall|i: int|
            is_last_of_field(stanza, key, i) ==> stanza_fields(stanza)[key] == value_of(
                #[trigger] stanza[i],
            ),
    decreases stanza.len(),
{
    if stanza.len() > 0 {
        let front = stanza.drop_last();
        law_last_line_of_a_field_wins(front, key);
        if sets_field(stanza.last(), key) {
            assert(sets_field(stanza[stanza.len() - 1], key));
        } else {
            if stanza_fields(stanza).contains_key(key) {
                let i = choose|i: int| 0 <= i < front.len() && sets_field(#[trigger] front[i], key);
                assert(sets_field(stanza[i], key));
            }
            if exists|i: int| 0 <= i < stanza.len() && sets_field(#[trigger] stanza[i], key) {
                let i = choose|i: int| 0 <= i < stanza.len() && sets_field(#[trigger] stanza[i], key);
                assert(sets_field(front[i], key));
            }
        }
        assert forall|i: int| is_last_of_field(stanza, key, i) implies stanza_fields(stanza)[key]
            == value_of(#[trigger] stanza[i]) by {
            if i < stanza.len() - 1 {
                assert(!sets_field(stanza[stanza.len() - 1], key));
                assert(is_last_of_field(front, key, i)) by {
                    assert forall|j: int| i < j < front.len() implies !sets_field(
                        #[trigger] front[j],
                        key,
                    ) by {
                        assert(front[j] == stanza[j]);
                    }
                }
                assert(front[i] == stanza[i]);
            }
        }
    }
}

/// Whether a stanza gives a record of the package `name`.
pub open spec fn gives_package(stanza: Seq<Seq<char>>, name: Seq<char>) -> bool {
    stanza_record(stanza) is Some && stanza_record(stanza)->0.package == name
}

/// Whether the stanza at place `i` is the last one that gives a record of the
/// package `name`.
pub open spec fn is_last_of_package(stanzas: Seq<Seq<Seq<char>>>, name: Seq<char>, i: int) -> bool {
    &&& 0 <= i < stanzas.len()
    &&& gives_package(stanzas[i], name)
    &&& forall|j: int| i < j < stanzas.len() ==> !gives_package(#[trigger] stanzas[j], name)
}

/// The index holds a name exactly where some stanza gives a record of it, and
/// the record it holds is that of the last such stanza: the last stanza of a
/// name wins.
pub proof fn law_last_stanza_wins(stanzas: Seq<Seq<Seq<char>>>, name: Seq<char>)
    ensures
        parse_stanzas(stanzas).contains_key(name) <==> exists|i: int|
            0 <= i < stanzas.len() && gives_package(#[trigger] stanzas[i], name),
        forall|i: int|
            is_last_of_package(stanzas, name, i) ==> parse_stanzas(stanzas)[name] == stanza_record(
                #[trigger] stanzas[i],
            )->0,
    decreases stanzas.len(),
{
    if stanzas.len() > 0 {
        let front = stanzas.drop_last();
        law_last_stanza_wins(front, name);
        if gives_package(stanzas.last(), name) {
            assert(gives_package(stanzas[stanzas.len() - 1], name));
        } else {
            if parse_stanzas(stanzas).contains_key(name) {
                let i = choose|i: int| 0 <= i < front.len() && gives_package(#[trigger] front[i], name);
                assert(gives_package(stanzas[i], name));
            }
            if exists|i: int| 0 <= i < stanzas.len() && gives_package(#[trigger] stanzas[i], name) {
                let i = choose|i: int|
                    0 <= i < stanzas.len() && gives_package(#[trigger] stanzas[i], name);
                assert(gives_package(front[i], name));
            }
        }
        assert forall|i: int| is_last_of_package(stanzas, name, i) implies parse_stanzas(
            stanzas,
        )[name] == stanza_record(#[trigger] stanzas[i])->0 by {
            if i < stanzas.len() - 1 {
                assert(!gives_package(stanzas[stanzas.len() - 1], name));
                assert(is_last_of_package(front, name, i)) by {
                    assert forall|j: int| i < j < front.len() implies !gives_package(
                        #[trigger] front[j],
                        name,
                    ) by {
                        assert(front[j] == stanzas[j]);
                    }
                }
                assert(front[i] == stanzas[i]);
            }
        }
    }
}

/// Every record of an index stands under its own name, and no name of an
/// index is empty.
pub proof fn law_records_stand_under_their_names(stanzas: Seq<Seq<Seq<char>>>, name: Seq<char>)
    requires
        parse_stanzas(stanzas).contains_key(name),
    ensures
        parse_stanzas(stanzas)[name].package == name,
        name.len() > 0,
    decreases stanzas.len(),
{
    if stanzas.len() > 0 {
        if !gives_package(stanzas.last(), name) {
            law_records_stand_under_their_names(stanzas.drop_last(), name);
        }
    }
}

/// No index that is read from a text holds an empty name, and every record
/// of it bears the name it stands under.
pub proof fn law_names_are_not_empty(text: Seq<char>)
    ensures
        forall|name: Seq<char>| #[trigger]
            parse_text(text).contains_key(name) ==> name.len() > 0 && parse_text(
                text,
            )[name].package == name,
{
    assert forall|name: Seq<char>| #[trigger] parse_text(text).contains_key(name) implies name.len()
        > 0 && parse_text(text)[name].package == name by {
        law_records_stand_under_their_names(split_stanzas(split_lines(text)), name);
    }
}

/// A text without a blank line is one stanza. Where that stanza is well
/// formed, the index holds exactly one record: the one of the stanza, under
/// its name.
pub proof fn law_one_stanza_gives_one_record(text: Seq<char>)
    requires
        forall|i: int| 0 <= i < split_lines(text).len() ==> (#[trigger] split_lines(text)[i]).len() > 0,
        is_well_formed(split_lines(text)),
    ensures
        split_stanzas(split_lines(text)) == seq![split_lines(text)],
        stanza_record(split_lines(text)) is Some,
        parse_text(text) == Map::<Seq<char>, PackageRecord>::empty().insert(
            stanza_record(split_lines(text))->0.package,
            stanza_record(split_lines(text))->0,
        ),
        parse_text(text).len() == 1,
{
    let lines = split_lines(text);
    let blank = |line: Seq<char>| line.len() == 0;
    assert forall|i: int| 0 <= i < lines.len() implies !blank(#[trigger] lines[i]) by {}
    lemma_split_on_run(lines, 0, lines.len() as int, blank);
    assert(lines.take(0) =~= Seq::<Seq<char>>::empty());
    assert(lines.take(lines.len() as int) =~= lines);
    assert(Seq::<Seq<char>>::empty() + lines.subrange(0, lines.len() as int) =~= lines);
    let stanzas = split_stanzas(lines);
    assert(stanzas =~= seq![lines]);
    law_well_formed_stanza_gives_its_values(lines);
    assert(stanzas.drop_last() =~= Seq::<Seq<Seq<char>>>::empty());
    assert(stanzas.last() == lines);
    assert(parse_stanzas(stanzas.drop_last()) == Map::<Seq<char>, PackageRecord>::empty());
    let record = stanza_record(lines)->0;
    assert(parse_stanzas(stanzas) == Map::<Seq<char>, PackageRecord>::empty().insert(
        record.package,
        record,
    ));
    assert(Map::<Seq<char>, PackageRecord>::empty().insert(record.package, record).dom()
        =~= set![record.package]);
}

/// The line that sets the field `key` to `value`.
pub open spec fn field_line(key: Seq<char>, value: Seq<char>) -> Seq<char> {
    key + ": "@ + value
}

/// A line made of a key, a colon, a space and a value sets that key to that
/// value, whatever the value holds. The key must hold no colon and must not
/// begin with a space.
pub proof fn law_field_line_is_read_back(key: Seq<char>, value: Seq<char>)
    requires
        forall|i: int| 0 <= i < key.len() ==> key[i] != ':',
        key.len() == 0 || key[0] != ' ',
    ensures
        line_field(field_line(key, value)) == Some((key, value)),
{
    reveal_strlit(": ");
    let line = field_line(key, value);
    let at = key.len() as int;
    assert(line[at] == ':' && line[at + 1] == ' ');
    assert(is_first_field_break(line, at)) by {
        assert forall|j: int| 0 <= j < at implies !is_field_break(line, j) by {
            assert(line[j] == key[j]);
        }
    }
    let chosen = choose|k: int| is_first_field_break(line, k);
    assert(chosen == at) by {
        if chosen < at {
            assert(!is_field_break(line, chosen));
        }
        if at < chosen {
            assert(!is_field_break(line, at));
        }
    }
    assert(line.take(at) =~= key);
    assert(line.skip(at + 2) =~= value);
}

/// The stanza that states a record: one line for each required field, with
/// the size in decimal digits.
pub open spec fn record_stanza(record: PackageRecord) -> Seq<Seq<char>> {
    seq![
        field_line("Package"@, record.package),
        field_line("Version"@, record.version),
        field_line("Architecture"@, record.architecture),
        field_line("Filename"@, record.filename),
        field_line("Size"@, decimal_text(record.size as nat)),
        field_line("MD5sum"@, record.md5sum),
        field_line("SHA256"@, record.sha256),
    ]
}

proof fn lemma_fields_push(stanza: Seq<Seq<char>>, key: Seq<char>, value: Seq<char>)
    requires
        forall|i: int| 0 <= i < key.len() ==> key[i] != ':',
        key.len() == 0 || key[0] != ' ',
    ensures
        stanza_fields(stanza.push(field_line(key, value))) == stanza_fields(stanza).insert(
            key,
            value,
        ),
{
    law_field_line_is_read_back(key, value);
    assert(stanza.push(field_line(key, value)).drop_last() =~= stanza);
}

/// The stanza that states a record with a name is well formed and gives that
/// record back.
pub proof fn law_stated_record_is_read_back(record: PackageRecord)
    requires
        record.package.len() > 0,
    ensures
        is_well_formed(record_stanza(record)),
        stanza_record(record_stanza(record)) == Some(record),
{
    reveal_strlit("Package");
    reveal_strlit("Version");
    reveal_strlit("Architecture");
    reveal_strlit("Filename");
    reveal_strlit("Size");
    reveal_strlit("MD5sum");
    reveal_strlit("SHA256");
    let size_text = decimal_text(record.size as nat);
    let s0 = Seq::<Seq<char>>::empty();
    let s1 = s0.push(field_line("Package"@, record.package));
    let s2 = s1.push(field_line("Version"@, record.version));
    let s3 = s2.push(field_line("Architecture"@, record.architecture));
    let s4 = s3.push(field_line("Filename"@, record.filename));
    let s5 = s4.push(field_line("Size"@, size_text));
    let s6 = s5.push(field_line("MD5sum"@, record.md5sum));
    let s7 = s6.push(field_line("SHA256"@, record.sha256));
    lemma_fields_push(s0, "Package"@, record.package);
    lemma_fields_push(s1, "Version"@, record.version);
    lemma_fields_push(s2, "Architecture"@, record.architecture);
    lemma_fields_push(s3, "Filename"@, record.filename);
    lemma_fields_push(s4, "Size"@, size_text);
    lemma_fields_push(s5, "MD5sum"@, record.md5sum);
    lemma_fields_push(s6, "SHA256"@, record.sha256);
    assert(record_stanza(record) =~= s7);
    law_written_number_is_read_back(record.size);
    let fields = stanza_fields(s7);
    assert(stanza_fields(s0) =~= Map::<Seq<char>, Seq<char>>::empty());
    assert("Package"@ != "Version"@ && "Package"@ != "Architecture"@ && "Package"@ != "Filename"@
        && "Package"@ != "Size"@ && "Package"@ != "MD5sum"@ && "Package"@ != "SHA256"@) by {
        assert("Package"@[0] == 'P');
    }
    assert("Version"@ != "Architecture"@ && "Version"@ != "Filename"@ && "Version"@ != "Size"@
        && "Version"@ != "MD5sum"@ && "Version"@ != "SHA256"@) by {
        assert("Version"@[0] == 'V');
    }
    assert("Architecture"@ != "Filename"@ && "Architecture"@ != "Size"@ && "Architecture"@
        != "MD5sum"@ && "Architecture"@ != "SHA256"@) by {
        assert("Architecture"@[0] == 'A');
    }
    assert("Filename"@ != "Size"@ && "Filename"@ != "MD5sum"@ && "Filename"@ != "SHA256"@) by {
        assert("Filename"@[0] == 'F');
    }
    assert("Size"@ != "MD5sum"@ && "Size"@ != "SHA256"@) by {
        assert("Size"@[1] == 'i');
    }
    assert("MD5sum"@ != "SHA256"@) by {
        assert("MD5sum"@[0] == 'M');
    }
    assert(fields["Package"@] == record.package);
    assert(fields["Version"@] == record.version);
    assert(fields["Architecture"@] == record.architecture);
    assert(fields["Filename"@] == record.filename);
    assert(fields["Size"@] == size_text);
    assert(fields["MD5sum"@] == record.md5sum);
    assert(fields["SHA256"@] == record.sha256);
}

/// The text of a list of lines: each line followed by a line feed.
pub open spec fn unlines(lines: Seq<Seq<char>>) -> Seq<char>
    decreases lines.len(),
{
    if lines.len() == 0 {
        Seq::empty()
    } else {
        unlines(lines.drop_last()) + lines.last() + seq!['\n']
    }
}

/// Whether a text can stand as a line: it holds no line feed and does not end
/// in a carriage return, which would be taken for a part of the line ending.
pub open spec fn is_line(text: Seq<char>) -> bool {
    &&& forall|i: int| 0 <= i < text.len() ==> text[i] != '\n'
    &&& text.len() == 0 || text.last() != '\r'
}

/// Lines that are written out, each with its line feed, are read back as
/// they were.
pub proof fn law_lines_are_read_back(lines: Seq<Seq<char>>)
    requires
        forall|i: int| 0 <= i < lines.len() ==> is_line(#[trigger] lines[i]),
    ensures
        split_lines(unlines(lines)) == lines,
        at_line_start(unlines(lines), unlines(lines).len() as int),
    decreases lines.len(),
{
    let text = unlines(lines);
    if lines.len() == 0 {
        assert(text.take(0) =~= text);
        assert(split_lines(text) =~= lines);
    } else {
        let front = lines.drop_last();
        let head = unlines(front);
        let line = lines.last();
        assert forall|i: int| 0 <= i < front.len() implies is_line(#[trigger] front[i]) by {
            assert(front[i] == lines[i]);
        }
        law_lines_are_read_back(front);
        let pos = head.len() as int;
        let end = pos + line.len();
        assert(is_line(lines[lines.len() - 1]));
        assert(text.take(pos) =~= head);
        assert(text.subrange(pos, end) =~= line);
        assert(text.take(end + 1) =~= text);
        assert(at_line_start(text, pos)) by {
            if pos > 0 {
                assert(text[pos - 1] == head[pos - 1]);
            }
        }
        assert forall|i: int| pos <= i < end implies text[i] != '\n' by {
            assert(text[i] == line[i - pos]);
        }
        lemma_split_lines_closed(text, pos, end);
        assert(strip_cr(line) == line);
        assert(front.push(line) =~= lines);
    }
}

/// The text that states a record: the lines of its stanza, each with its
/// line feed.
pub open spec fn record_text(record: PackageRecord) -> Seq<char> {
    unlines(record_stanza(record))
}

/// Whether the values of a record can be written into lines.
pub open spec fn is_writable(record: PackageRecord) -> bool {
    &&& is_line(record.package)
    &&& is_line(record.version)
    &&& is_line(record.architecture)
    &&& is_line(record.filename)
    &&& is_line(record.md5sum)
    &&& is_line(record.sha256)
}

proof fn lemma_field_line_is_line(key: Seq<char>, value: Seq<char>)
    requires
        is_line(key),
        is_line(value),
    ensures
        is_line(field_line(key, value)),
        field_line(key, value).len() > 0,
{
    reveal_strlit(": ");
    let line = field_line(key, value);
    assert forall|i: int| 0 <= i < line.len() implies line[i] != '\n' by {
        if i < key.len() {
            assert(line[i] == key[i]);
        } else if i >= key.len() + 2 {
            assert(line[i] == value[i - key.len() - 2]);
        }
    }
    if value.len() > 0 {
        assert(line.last() == value.last());
    } else {
        assert(line.last() == ' ');
    }
}

/// A record with a name that is written out as the text of one stanza is
/// read back as the only record of the index, with every field as it was.
pub proof fn law_written_record_is_read_back(record: PackageRecord)
    requires
        record.package.len() > 0,
        is_writable(record),
    ensures
        parse_text(record_text(record)) == Map::<Seq<char>, PackageRecord>::empty().insert(
            record.package,
            record,
        ),
{
    reveal_strlit("Package");
    reveal_strlit("Version");
    reveal_strlit("Architecture");
    reveal_strlit("Filename");
    reveal_strlit("Size");
    reveal_strlit("MD5sum");
    reveal_strlit("SHA256");
    let stanza = record_stanza(record);
    let size_text = decimal_text(record.size as nat);
    lemma_decimal_text_value(record.size as nat);
    assert(is_line(size_text)) by {
        assert forall|i: int| 0 <= i < size_text.len() implies size_text[i] != '\n' by {
            assert(is_digit(size_text[i]));
        }
        assert(is_digit(size_text[size_text.len() - 1]));
    }
    lemma_field_line_is_line("Package"@, record.package);
    lemma_field_line_is_line("Version"@, record.version);
    lemma_field_line_is_line("Architecture"@, record.architecture);
    lemma_field_line_is_line("Filename"@, record.filename);
    lemma_field_line_is_line("Size"@, size_text);
    lemma_field_line_is_line("MD5sum"@, record.md5sum);
    lemma_field_line_is_line("SHA256"@, record.sha256);
    law_lines_are_read_back(stanza);
    law_stated_record_is_read_back(record);
    law_one_stanza_gives_one_record(record_text(record));
}

/// Lines that are written out with a line feed between each two of them, and
/// none after the last, are read back as they were. The last line must not be
/// empty: an empty end of a text is no line.
pub proof fn law_joined_lines_are_read_back(lines: Seq<Seq<char>>)
    requires
        lines.len() >= 1,
        forall|i: int| 0 <= i < lines.len() ==> is_line(#[trigger] lines[i]),
        lines.last().len() > 0,
    ensures
        split_lines(join_all(lines, seq!['\n'])) == lines,
{
    let feed = |c: char| c == '\n';
    let strip = |piece: Seq<char>| strip_cr(piece);
    assert forall|i: int, j: int| 0 <= i < lines.len() && 0 <= j < lines[i].len() implies !feed(
        #[trigger] lines[i][j],
    ) by {
        assert(is_line(lines[i]));
    }
    law_joined_pieces_are_split_back(lines, '\n', feed);
    let pieces = split_on(join_all(lines, seq!['\n']), feed);
    assert(pieces == lines);
    assert(pieces.drop_last().map_values(strip) =~= lines.drop_last()) by {
        assert forall|i: int| 0 <= i < lines.len() - 1 implies strip_cr(
            #[trigger] lines.drop_last()[i],
        ) == lines.drop_last()[i] by {
            assert(is_line(lines[i]));
        }
    }
    assert(lines.drop_last().push(lines.last()) =~= lines);
}

/// Stanzas that are written out with a blank line between each two of them
/// are read back as they were, where no stanza holds a blank line itself.
pub proof fn law_stanzas_are_split_back(stanzas: Seq<Seq<Seq<char>>>)
    requires
        stanzas.len() >= 1,
        forall|i: int, j: int|
            0 <= i < stanzas.len() && 0 <= j < stanzas[i].len() ==> (#[trigger] stanzas[i][j]).len()
                > 0,
    ensures
        split_stanzas(join_all(stanzas, seq![Seq::<char>::empty()])) == stanzas,
{
    let blank = |line: Seq<char>| line.len() == 0;
    assert forall|i: int, j: int|
        0 <= i < stanzas.len() && 0 <= j < stanzas[i].len() implies !blank(
        #[trigger] stanzas[i][j],
    ) by {}
    law_joined_pieces_are_split_back(stanzas, Seq::<char>::empty(), blank);
}

/// The text that a stanza holds for a required field of a record. For the
/// size it is `size_text`, which may be written in any way that reads as the
/// size.
pub open spec fn field_text(record: PackageRecord, size_text: Seq<char>, key: Seq<char>) -> Seq<
    char,
> {
    if key == "Package"@ {
        record.package
    } else if key == "Version"@ {
        record.version
    } else if key == "Architecture"@ {
        record.architecture
    } else if key == "Filename"@ {
        record.filename
    } else if key == "Size"@ {
        size_text
    } else if key == "MD5sum"@ {
        record.md5sum
    } else {
        record.sha256
    }
}

/// Whether a line sets one of the required fields to what a record holds for
/// it.
pub open spec fn is_line_of_record(line: Seq<char>, record: PackageRecord, size_text: Seq<char>) -> bool {
    ||| line == field_line("Package"@, record.package)
    ||| line == field_line("Version"@, record.version)
    ||| line == field_line("Architecture"@, record.architecture)
    ||| line == field_line("Filename"@, record.filename)
    ||| line == field_line("Size"@, size_text)
    ||| line == field_line("MD5sum"@, record.md5sum)
    ||| line == field_line("SHA256"@, record.sha256)
}

/// Whether a stanza states a record, with its fields in any order: every
/// line of it sets a required field to what the record holds for it, and
/// every required field has its line.
pub open spec fn states_record(
    stanza: Seq<Seq<char>>,
    record: PackageRecord,
    size_text: Seq<char>,
) -> bool {
    &&& forall|i: int|
        0 <= i < stanza.len() ==> is_line_of_record(#[trigger] stanza[i], record, size_text)
    &&& stanza.contains(field_line("Package"@, record.package))
    &&& stanza.contains(field_line("Version"@, record.version))
    &&& stanza.contains(field_line("Architecture"@, record.architecture))
    &&& stanza.contains(field_line("Filename"@, record.filename))
    &&& stanza.contains(field_line("Size"@, size_text))
    &&& stanza.contains(field_line("MD5sum"@, record.md5sum))
    &&& stanza.contains(field_line("SHA256"@, record.sha256))
}

proof fn lemma_required_keys_are_plain(key: Seq<char>)
    requires
        is_required_field(key),
    ensures
        forall|i: int| 0 <= i < key.len() ==> key[i] != ':',
        key.len() > 0 && key[0] != ' ',
        is_line(key),
{
    reveal_strlit("Package");
    reveal_strlit("Version");
    reveal_strlit("Architecture");
    reveal_strlit("Filename");
    reveal_strlit("Size");
    reveal_strlit("MD5sum");
    reveal_strlit("SHA256");
}

proof fn lemma_line_of_record(line: Seq<char>, record: PackageRecord, size_text: Seq<char>)
    requires
        is_line_of_record(line, record, size_text),
    ensures
        line.len() > 0,
        line_field(line) is Some,
        is_required_field(key_of(line)),
        value_of(line) == field_text(record, size_text, key_of(line)),
        line == field_line(key_of(line), value_of(line)),
{
    reveal_strlit(": ");
    reveal_strlit("Package");
    reveal_strlit("Version");
    reveal_strlit("Architecture");
    reveal_strlit("Filename");
    reveal_strlit("Size");
    reveal_strlit("MD5sum");
    reveal_strlit("SHA256");
    let key = if line == field_line("Package"@, record.package) {
        "Package"@
    } else if line == field_line("Version"@, record.version) {
        "Version"@
    } else if line == field_line("Architecture"@, record.architecture) {
        "Architecture"@
    } else if line == field_line("Filename"@, record.filename) {
        "Filename"@
    } else if line == field_line("Size"@, size_text) {
        "Size"@
    } else if line == field_line("MD5sum"@, record.md5sum) {
        "MD5sum"@
    } else {
        "SHA256"@
    };
    lemma_required_keys_are_plain(key);
    assert("Package"@[0] == 'P' && "Version"@[0] == 'V' && "Architecture"@[0] == 'A'
        && "Filename"@[0] == 'F' && "Size"@[1] == 'i' && "MD5sum"@[0] == 'M' && "SHA256"@[1]
        == 'H');
    law_field_line_is_read_back(key, field_text(record, size_text, key));
    assert(line == field_line(key, field_text(record, size_text, key)));
}

proof fn lemma_stated_field(
    stanza: Seq<Seq<char>>,
    record: PackageRecord,
    size_text: Seq<char>,
    key: Seq<char>,
)
    requires
        is_required_field(key),
        forall|i: int|
            0 <= i < stanza.len() ==> is_line_of_record(#[trigger] stanza[i], record, size_text),
        stanza.contains(field_line(key, field_text(record, size_text, key))),
    ensures
        stanza_fields(stanza).contains_key(key),
        stanza_fields(stanza)[key] == field_text(record, size_text, key),
    decreases stanza.len(),
{
    let wanted = field_line(key, field_text(record, size_text, key));
    let at = choose|i: int| 0 <= i < stanza.len() && stanza[i] == wanted;
    assert(stanza.len() > 0);
    let front = stanza.drop_last();
    let last = stanza.last();
    assert(is_line_of_record(stanza[stanza.len() - 1], record, size_text));
    lemma_line_of_record(last, record, size_text);
    if key_of(last) != key {
        lemma_required_keys_are_plain(key);
        law_field_line_is_read_back(key, field_text(record, size_text, key));
        assert(last != wanted);
        assert(at < stanza.len() - 1);
        assert(front[at] == wanted);
        assert forall|i: int| 0 <= i < front.len() implies is_line_of_record(
            #[trigger] front[i],
            record,
            size_text,
        ) by {
            assert(front[i] == stanza[i]);
        }
        lemma_stated_field(front, record, size_text, key);
    }
}

/// A stanza that states a record with a name, with its fields in any order,
/// gives that record. The size may be written in any way that reads as it.
pub proof fn law_arranged_stanza_is_read_back(
    stanza: Seq<Seq<char>>,
    record: PackageRecord,
    size_text: Seq<char>,
)
    requires
        record.package.len() > 0,
        parse_decimal(size_text) == Some(record.size),
        states_record(stanza, record, size_text),
    ensures
        is_well_formed(stanza),
        stanza_record(stanza) == Some(record),
{
    reveal_strlit("Package");
    reveal_strlit("Version");
    reveal_strlit("Architecture");
    reveal_strlit("Filename");
    reveal_strlit("Size");
    reveal_strlit("MD5sum");
    reveal_strlit("SHA256");
    assert("Package"@[0] == 'P' && "Version"@[0] == 'V' && "Architecture"@[0] == 'A'
        && "Filename"@[0] == 'F' && "Size"@[1] == 'i' && "MD5sum"@[0] == 'M' && "SHA256"@[1]
        == 'H');
    lemma_stated_field(stanza, record, size_text, "Package"@);
    lemma_stated_field(stanza, record, size_text, "Version"@);
    lemma_stated_field(stanza, record, size_text, "Architecture"@);
    lemma_stated_field(stanza, record, size_text, "Filename"@);
    lemma_stated_field(stanza, record, size_text, "Size"@);
    lemma_stated_field(stanza, record, size_text, "MD5sum"@);
    lemma_stated_field(stanza, record, size_text, "SHA256"@);
}

/// Stanzas that give records of different names give an index that holds
/// each of those records under its name, and nothing else.
pub proof fn law_distinct_records_are_all_held(
    stanzas: Seq<Seq<Seq<char>>>,
    records: Seq<PackageRecord>,
)
    requires
        records.len() == stanzas.len(),
        forall|i: int|
            0 <= i < stanzas.len() ==> stanza_record(#[trigger] stanzas[i]) == Some(records[i]),
        forall|i: int, j: int|
            0 <= i < j < records.len() ==> (#[trigger] records[i]).package != (
            #[trigger] records[j]).package,
    ensures
        parse_stanzas(stanzas).dom().finite(),
        parse_stanzas(stanzas).len() == stanzas.len(),
        forall|i: int|
            0 <= i < records.len() ==> parse_stanzas(stanzas).contains_key(
                (#[trigger] records[i]).package,
            ) && parse_stanzas(stanzas)[records[i].package] == records[i],
    decreases stanzas.len(),
{
    if stanzas.len() > 0 {
        let front = stanzas.drop_last();
        let before = records.drop_last();
        let last = records.last();
        assert forall|i: int| 0 <= i < front.len() implies stanza_record(#[trigger] front[i])
            == Some(before[i]) by {
            assert(front[i] == stanzas[i]);
        }
        assert forall|i: int, j: int| 0 <= i < j < before.len() implies (#[trigger] before[i]).package
            != (#[trigger] before[j]).package by {
            assert(before[i] == records[i] && before[j] == records[j]);
        }
        law_distinct_records_are_all_held(front, before);
        assert(stanza_record(stanzas[stanzas.len() - 1]) == Some(last));
        assert(parse_stanzas(stanzas) == parse_stanzas(front).insert(last.package, last));
        law_last_stanza_wins(front, last.package);
        if parse_stanzas(front).contains_key(last.package) {
            let i = choose|i: int|
                0 <= i < front.len() && gives_package(#[trigger] front[i], last.package);
            assert(stanza_record(stanzas[i]) == Some(records[i]));
            assert(records[i].package != records[records.len() - 1].package);
        }
        assert forall|i: int| 0 <= i < records.len() implies parse_stanzas(stanzas).contains_key(
            (#[trigger] records[i]).package,
        ) && parse_stanzas(stanzas)[records[i].package] == records[i] by {
            if i < records.len() - 1 {
                assert(before[i] == records[i]);
                assert(records[i].package != records[records.len() - 1].package);
            }
        }
    }
}

proof fn lemma_number_is_line(text: Seq<char>)
    requires
        parse_decimal(text) is Some,
    ensures
        is_line(text),
        text.len() > 0,
{
    let digits = if text.len() > 0 && text[0] == '+' {
        text.skip(1)
    } else {
        text
    };
    assert(all_digits(digits));
    assert forall|i: int| 0 <= i < text.len() implies text[i] != '\n' by {
        if text[0] == '+' {
            if i > 0 {
                assert(is_digit(digits[i - 1]));
            }
        } else {
            assert(is_digit(digits[i]));
        }
    }
    assert(is_digit(digits[digits.len() - 1]));
    assert(text.last() == digits[digits.len() - 1]);
}

proof fn lemma_record_line_is_line(line: Seq<char>, record: PackageRecord, size_text: Seq<char>)
    requires
        is_line_of_record(line, record, size_text),
        is_writable(record),
        parse_decimal(size_text) is Some,
    ensures
        is_line(line),
        line.len() > 0,
{
    lemma_line_of_record(line, record, size_text);
    lemma_number_is_line(size_text);
    lemma_required_keys_are_plain(key_of(line));
    reveal_strlit("Package");
    reveal_strlit("Version");
    reveal_strlit("Architecture");
    reveal_strlit("Filename");
    reveal_strlit("Size");
    reveal_strlit("MD5sum");
    reveal_strlit("SHA256");
    lemma_field_line_is_line(key_of(line), value_of(line));
}

/// The text of a list of stanzas: the lines of each stanza, a blank line
/// between each two stanzas, and a line feed between each two lines.
pub open spec fn stanzas_text(stanzas: Seq<Seq<Seq<char>>>) -> Seq<char> {
    join_all(join_all(stanzas, seq![Seq::<char>::empty()]), seq!['\n'])
}

/// An index that is written out is read back. Where each stanza states one
/// record, with its seven fields in any order and its size written in any
/// way that reads as it, where the names are not empty and differ from each
/// other, and where the values can be written into lines, the index that is
/// read from the text of the stanzas holds as many records as there are
/// stanzas, and under each name the record of that name with every field as
/// it was stated.
pub proof fn law_written_index_is_read_back(
    stanzas: Seq<Seq<Seq<char>>>,
    records: Seq<PackageRecord>,
    size_texts: Seq<Seq<char>>,
)
    requires
        stanzas.len() >= 1,
        records.len() == stanzas.len(),
        size_texts.len() == stanzas.len(),
        forall|i: int|
            0 <= i < stanzas.len() ==> states_record(#[trigger] stanzas[i], records[i], size_texts[i]),
        forall|i: int| 0 <= i < records.len() ==> (#[trigger] records[i]).package.len() > 0,
        forall|i: int| 0 <= i < records.len() ==> is_writable(#[trigger] records[i]),
        forall|i: int|
            0 <= i < records.len() ==> parse_decimal(#[trigger] size_texts[i]) == Some(
                records[i].size,
            ),
        forall|i: int, j: int|
            0 <= i < j < records.len() ==> (#[trigger] records[i]).package != (
            #[trigger] records[j]).package,
    ensures
        parse_text(stanzas_text(stanzas)) == parse_stanzas(stanzas),
        parse_text(stanzas_text(stanzas)).len() == stanzas.len(),
        forall|i: int|
            0 <= i < records.len() ==> parse_text(stanzas_text(stanzas)).contains_key(
                (#[trigger] records[i]).package,
            ) && parse_text(stanzas_text(stanzas))[records[i].package] == records[i],
{
    let blank = Seq::<char>::empty();
    let lines = join_all(stanzas, seq![blank]);
    let holds = |line: Seq<char>| is_line(line);
    assert forall|i: int, j: int|
        0 <= i < stanzas.len() && 0 <= j < stanzas[i].len() implies holds(
        #[trigger] stanzas[i][j],
    ) && stanzas[i][j].len() > 0 by {
        assert(states_record(stanzas[i], records[i], size_texts[i]));
        assert(is_line_of_record(stanzas[i][j], records[i], size_texts[i]));
        assert(is_writable(records[i]));
        assert(parse_decimal(size_texts[i]) is Some);
        lemma_record_line_is_line(stanzas[i][j], records[i], size_texts[i]);
    }
    assert(holds(blank));
    lemma_joined_elements(stanzas, blank, holds);
    let end = stanzas.len() - 1;
    assert(states_record(stanzas[end], records[end], size_texts[end]));
    assert(stanzas[end].len() > 0);
    assert(stanzas[end][stanzas[end].len() - 1].len() > 0);
    assert forall|k: int| 0 <= k < lines.len() implies is_line(#[trigger] lines[k]) by {
        assert(holds(lines[k]));
    }
    law_joined_lines_are_read_back(lines);
    law_stanzas_are_split_back(stanzas);
    assert forall|i: int| 0 <= i < stanzas.len() implies stanza_record(#[trigger] stanzas[i])
        == Some(records[i]) by {
        assert(states_record(stanzas[i], records[i], size_texts[i]));
        assert(records[i].package.len() > 0);
        assert(parse_decimal(size_texts[i]) == Some(records[i].size));
        law_arranged_stanza_is_read_back(stanzas[i], records[i], size_texts[i]);
    }
    law_distinct_records_are_all_held(stanzas, records);
}

} // verus!
