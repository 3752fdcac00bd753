//! Character-level helpers on strings.

use vstd::prelude::*;
use vstd::std_specs::iter::IteratorSpec;
use vstd::string::StringSliceAdditionalSpecFns;

verus! {

/// `String::push` of the standard library appends one character to the end
/// of the string and leaves the characters before it as they were.
pub assume_specification[ String::push ](s: &mut String, ch: char)
    ensures
        final(s)@ == old(s)@.push(ch),
;

/// The texts of a list of string slices.
pub open spec fn strs_view(parts: Seq<&'static str>) -> Seq<Seq<char>> {
    parts.map_values(|part: &'static str| part@)
}

/// The texts of a list of strings.
pub open spec fn strings_view(parts: Seq<String>) -> Seq<Seq<char>> {
    parts.map_values(|part: String| part@)
}

/// The characters of `s`, in order.
pub fn str_chars(s: &str) -> (chars: Vec<char>)
    ensures
        chars@ == s@,
{
    let mut chars: Vec<char> = Vec::new();
    let it = s.chars();
    for c in iter: it
        invariant
            chars@ == iter.seq().take(iter.index() as int),
    {
        chars.push(c);
    }
    chars
}

/// A string made of the characters `chars[start..end]`.
pub fn string_of(chars: &Vec<char>, start: usize, end: usize) -> (s: String)
    requires
        start <= end <= chars.len(),
    ensures
        s@ == chars@.subrange(start as int, end as int),
{
    let mut s = String::new();
    let mut i: usize = start;
    while i < end
        invariant
            start <= i <= end <= chars.len(),
            s@ == chars@.subrange(start as int, i as int),
        decreases end - i,
    {
        s.push(chars[i]);
        i += 1;
    }
    s
}

/// Whether two strings hold the same characters.
pub fn str_eq(a: &str, b: &str) -> (same: bool)
    ensures
        same == (a@ == b@),
{
    let x = a.as_bytes();
    let y = b.as_bytes();
    proof {
        vstd::utf8::encode_utf8_decode_utf8(a@);
        vstd::utf8::encode_utf8_decode_utf8(b@);
    }
    if x.len() != y.len() {
        return false;
    }
    let mut i: usize = 0;
    while i < x.len()
        invariant
            x.len() == y.len(),
            i <= x.len(),
            x@ == a.spec_bytes(),
            y@ == b.spec_bytes(),
            vstd::utf8::decode_utf8(a.spec_bytes()) == a@,
            vstd::utf8::decode_utf8(b.spec_bytes()) == b@,
            forall|j: int| 0 <= j < i ==> x@[j] == y@[j],
        decreases x.len() - i,
    {
        if x[i] != y[i] {
            return false;
        }
        i += 1;
    }
    assert(x@ =~= y@);
    true
}

/// Whether `s` begins with `prefix`.
pub fn starts_with(s: &str, prefix: &str) -> (begins: bool)
    ensures
        begins == prefix@.is_prefix_of(s@),
{
    let text = str_chars(s);
    let head = str_chars(prefix);
    if head.len() > text.len() {
        return false;
    }
    let mut i: usize = 0;
    while i < head.len()
        invariant
            i <= head.len() <= text.len(),
            text@ == s@,
            head@ == prefix@,
            forall|k: int| 0 <= k < i ==> text@[k] == head@[k],
        decreases head.len() - i,
    {
        if text[i] != head[i] {
            assert(s@.subrange(0, prefix@.len() as int)[i as int] != prefix@[i as int]);
            return false;
        }
        i += 1;
    }
    assert(prefix@ =~= s@.subrange(0, prefix@.len() as int));
    true
}

/// The pieces of `s` that lie between the elements for which `sep` holds, in
/// order. There is always at least one piece; a piece may be empty.
pub open spec fn split_on<T>(s: Seq<T>, sep: spec_fn(T) -> bool) -> Seq<Seq<T>>
    decreases s.len(),
{
    if s.len() == 0 {
        seq![Seq::<T>::empty()]
    } else {
        let before = split_on(s.drop_last(), sep);
        if sep(s.last()) {
            before.push(Seq::<T>::empty())
        } else {
            before.update(before.len() - 1, before.last().push(s.last()))
        }
    }
}

/// `split_on` never yields an empty list of pieces.
pub proof fn lemma_split_on_len<T>(s: Seq<T>, sep: spec_fn(T) -> bool)
    ensures
        split_on(s, sep).len() >= 1,
    decreases s.len(),
{
    if s.len() > 0 {
        lemma_split_on_len(s.drop_last(), sep);
    }
}

/// How one more element changes the pieces: a separator opens a new, empty
/// piece, any other element joins the last piece.
pub proof fn lemma_split_on_push<T>(s: Seq<T>, x: T, sep: spec_fn(T) -> bool)
    ensures
        split_on(s, sep).len() >= 1,
        sep(x) ==> split_on(s.push(x), sep) == split_on(s, sep).push(Seq::<T>::empty()),
        !sep(x) ==> split_on(s.push(x), sep) == split_on(s, sep).update(
            split_on(s, sep).len() - 1,
            split_on(s, sep).last().push(x),
        ),
{
    lemma_split_on_len(s, sep);
    assert(s.push(x).drop_last() =~= s);
}

/// A run `s[a..b]` without separators joins the last piece of what precedes it.
pub proof fn lemma_split_on_run<T>(s: Seq<T>, a: int, b: int, sep: spec_fn(T) -> bool)
    requires
        0 <= a <= b <= s.len(),
        forall|i: int| a <= i < b ==> !sep(#[trigger] s[i]),
    ensures
        split_on(s.take(a), sep).len() >= 1,
        split_on(s.take(b), sep) == split_on(s.take(a), sep).update(
            split_on(s.take(a), sep).len() - 1,
            split_on(s.take(a), sep).last() + s.subrange(a, b),
        ),
    decreases b - a,
{
    let head = split_on(s.take(a), sep);
    lemma_split_on_len(s.take(a), sep);
    if a == b {
        assert(head.last() + s.subrange(a, b) =~= head.last());
        assert(head.update(head.len() - 1, head.last()) =~= head);
    } else {
        lemma_split_on_run(s, a, b - 1, sep);
        let mid = split_on(s.take(b - 1), sep);
        assert(s.take(b) =~= s.take(b - 1).push(s[b - 1]));
        lemma_split_on_push(s.take(b - 1), s[b - 1], sep);
        assert((head.last() + s.subrange(a, b - 1)).push(s[b - 1]) =~= head.last() + s.subrange(
            a,
            b,
        ));
        assert(mid.update(mid.len() - 1, mid.last().push(s[b - 1])) =~= head.update(
            head.len() - 1,
            head.last() + s.subrange(a, b),
        ));
    }
}

/// Where nothing from `start` on is a separator and `start` follows one (or
/// is the beginning), the last piece is what stands from `start` on.
pub proof fn lemma_split_on_last<T>(s: Seq<T>, start: int, sep: spec_fn(T) -> bool)
    requires
        0 <= start <= s.len(),
        start == 0 || sep(s[start - 1]),
        forall|i: int| start <= i < s.len() ==> !sep(#[trigger] s[i]),
    ensures
        split_on(s, sep).len() >= 1,
        split_on(s, sep).last() == s.skip(start),
{
    let head = split_on(s.take(start), sep);
    lemma_split_on_len(s.take(start), sep);
    if start > 0 {
        assert(s.take(start) =~= s.take(start - 1).push(s[start - 1]));
        lemma_split_on_push(s.take(start - 1), s[start - 1], sep);
    }
    assert(head.last().len() == 0);
    lemma_split_on_run(s, start, s.len() as int, sep);
    assert(s.take(s.len() as int) =~= s);
    assert(head.last() + s.subrange(start, s.len() as int) =~= s.skip(start));
}

/// The sequences of `parts` one after the other, with `sep` between each two
/// of them.
pub open spec fn join_all<T>(parts: Seq<Seq<T>>, sep: Seq<T>) -> Seq<T>
    decreases parts.len(),
{
    if parts.len() == 0 {
        Seq::empty()
    } else if parts.len() == 1 {
        parts[0]
    } else {
        join_all(parts.drop_last(), sep) + sep + parts.last()
    }
}

/// Pieces that are joined with a separator between them are split back into
/// the same pieces, where no piece holds a separator itself.
pub proof fn law_joined_pieces_are_split_back<T>(
    parts: Seq<Seq<T>>,
    between: T,
    sep: spec_fn(T) -> bool,
)
    requires
        parts.len() >= 1,
        sep(between),
        forall|i: int, j: int|
            0 <= i < parts.len() && 0 <= j < parts[i].len() ==> !sep(#[trigger] parts[i][j]),
    ensures
        split_on(join_all(parts, seq![between]), sep) == parts,
    decreases parts.len(),
{
    let joined = join_all(parts, seq![between]);
    if parts.len() == 1 {
        assert(joined == parts[0]);
        assert forall|k: int| 0 <= k < joined.len() implies !sep(#[trigger] joined[k]) by {
            assert(joined[k] == parts[0][k]);
        }
        lemma_split_on_run(joined, 0, joined.len() as int, sep);
        assert(joined.take(0) =~= Seq::<T>::empty());
        assert(joined.take(joined.len() as int) =~= joined);
        assert(Seq::<T>::empty() + joined.subrange(0, joined.len() as int) =~= joined);
        assert(split_on(joined, sep) =~= parts);
    } else {
        let front = parts.drop_last();
        let head = join_all(front, seq![between]);
        let last = parts.last();
        assert forall|i: int, j: int|
            0 <= i < front.len() && 0 <= j < front[i].len() implies !sep(
            #[trigger] front[i][j],
        ) by {
            assert(front[i][j] == parts[i][j]);
        }
        law_joined_pieces_are_split_back(front, between, sep);
        assert(joined =~= head.push(between) + last);
        let cut: int = (head.len() + 1) as int;
        assert(joined.take(cut) =~= head.push(between));
        lemma_split_on_push(head, between, sep);
        assert forall|k: int| cut <= k < joined.len() implies !sep(#[trigger] joined[k]) by {
            assert(joined[k] == parts[parts.len() - 1][k - cut]);
        }
        lemma_split_on_run(joined, cut, joined.len() as int, sep);
        assert(joined.take(joined.len() as int) =~= joined);
        assert(joined.subrange(cut, joined.len() as int) =~= last);
        assert(Seq::<T>::empty() + last =~= last);
        assert(split_on(joined, sep) =~= parts);
    }
}

/// What holds of the separator and of every element of every piece holds of
/// every element of the pieces joined. Where the last piece is not empty, the
/// joined sequence ends as the last piece does.
pub proof fn lemma_joined_elements<T>(parts: Seq<Seq<T>>, between: T, holds: spec_fn(T) -> bool)
    requires
        holds(between),
        forall|i: int, j: int|
            0 <= i < parts.len() && 0 <= j < parts[i].len() ==> holds(#[trigger] parts[i][j]),
    ensures
        forall|k: int|
            0 <= k < join_all(parts, seq![between]).len() ==> holds(
                #[trigger] join_all(parts, seq![between])[k],
            ),
        parts.len() >= 1 && parts.last().len() > 0 ==> join_all(parts, seq![between]).len() > 0
            && join_all(parts, seq![between]).last() == parts.last().last(),
    decreases parts.len(),
{
    let joined = join_all(parts, seq![between]);
    if parts.len() == 1 {
        assert forall|k: int| 0 <= k < joined.len() implies holds(#[trigger] joined[k]) by {
            assert(joined[k] == parts[0][k]);
        }
    } else if parts.len() > 1 {
        let front = parts.drop_last();
        let head = join_all(front, seq![between]);
        assert forall|i: int, j: int|
            0 <= i < front.len() && 0 <= j < front[i].len() implies holds(
            #[trigger] front[i][j],
        ) by {
            assert(front[i][j] == parts[i][j]);
        }
        lemma_joined_elements(front, between, holds);
        assert(joined =~= head.push(between) + parts.last());
        assert forall|k: int| 0 <= k < joined.len() implies holds(#[trigger] joined[k]) by {
            if k < head.len() {
                assert(joined[k] == head[k]);
            } else if k > head.len() {
                assert(joined[k] == parts[parts.len() - 1][k - head.len() - 1]);
            }
        }
    }
}

/// A line without the carriage return that may end it.
pub open spec fn strip_cr(line: Seq<char>) -> Seq<char> {
    if line.len() > 0 && line.last() == '\r' {
        line.drop_last()
    } else {
        line
    }
}

/// The lines of a text. A line ends at a line feed; a carriage return just
/// before that line feed belongs to the line ending. What follows the last
/// line feed is a line of its own unless it is empty.
pub open spec fn split_lines(text: Seq<char>) -> Seq<Seq<char>> {
    let pieces = split_on(text, |c: char| c == '\n');
    let ended = pieces.drop_last().map_values(|piece: Seq<char>| strip_cr(piece));
    if pieces.last().len() == 0 {
        ended
    } else {
        ended.push(pieces.last())
    }
}

/// Whether a line can start at `pos`: at the start of the text or just after
/// a line feed.
pub open spec fn at_line_start(text: Seq<char>, pos: int) -> bool {
    0 <= pos <= text.len() && (pos == 0 || text[pos - 1] == '\n')
}

/// What precedes a line start ends in an empty piece.
pub proof fn lemma_line_start_piece(text: Seq<char>, pos: int)
    requires
        at_line_start(text, pos),
    ensures
        split_on(text.take(pos), |c: char| c == '\n').len() >= 1,
        split_on(text.take(pos), |c: char| c == '\n').last().len() == 0,
{
    let sep = |c: char| c == '\n';
    lemma_split_on_len(text.take(pos), sep);
    if pos > 0 {
        assert(text.take(pos) =~= text.take(pos - 1).push(text[pos - 1]));
        lemma_split_on_push(text.take(pos - 1), text[pos - 1], sep);
    }
}

/// A line `text[pos..end]` that a line feed at `end` closes is the next line
/// after those of `text[..pos]`.
pub proof fn lemma_split_lines_closed(text: Seq<char>, pos: int, end: int)
    requires
        at_line_start(text, pos),
        pos <= end < text.len(),
        forall|i: int| pos <= i < end ==> text[i] != '\n',
        text[end] == '\n',
    ensures
        at_line_start(text, end + 1),
        split_lines(text.take(end + 1)) == split_lines(text.take(pos)).push(
            strip_cr(text.subrange(pos, end)),
        ),
{
    let sep = |c: char| c == '\n';
    let strip = |piece: Seq<char>| strip_cr(piece);
    let head = split_on(text.take(pos), sep);
    lemma_line_start_piece(text, pos);
    assert forall|i: int| pos <= i < end implies !sep(#[trigger] text[i]) by {}
    lemma_split_on_run(text, pos, end, sep);
    let mid = split_on(text.take(end), sep);
    assert(head.last() + text.subrange(pos, end) =~= text.subrange(pos, end));
    assert(text.take(end + 1) =~= text.take(end).push(text[end]));
    lemma_split_on_push(text.take(end), text[end], sep);
    let full = split_on(text.take(end + 1), sep);
    assert(full == mid.push(Seq::<char>::empty()));
    assert(full.drop_last() =~= mid);
    assert(mid.drop_last() =~= head.drop_last());
    assert(mid.map_values(strip) =~= head.drop_last().map_values(strip).push(
        strip_cr(text.subrange(pos, end)),
    ));
}

/// A last line `text[pos..]` that no line feed closes is kept as it stands.
pub proof fn lemma_split_lines_open(text: Seq<char>, pos: int)
    requires
        at_line_start(text, pos),
        pos < text.len(),
        forall|i: int| pos <= i < text.len() ==> text[i] != '\n',
    ensures
        split_lines(text) == split_lines(text.take(pos)).push(text.skip(pos)),
{
    let sep = |c: char| c == '\n';
    let head = split_on(text.take(pos), sep);
    lemma_line_start_piece(text, pos);
    assert forall|i: int| pos <= i < text.len() implies !sep(#[trigger] text[i]) by {}
    lemma_split_on_run(text, pos, text.len() as int, sep);
    assert(text.take(text.len() as int) =~= text);
    assert(text.subrange(pos, text.len() as int) =~= text.skip(pos));
    assert(head.last() + text.skip(pos) =~= text.skip(pos));
    let full = split_on(text, sep);
    assert(full.drop_last() =~= head.drop_last());
}

/// The index of the first line feed at or after `start`, or the length of
/// `chars` where there is none.
pub fn find_line_feed(chars: &Vec<char>, start: usize) -> (end: usize)
    requires
        start <= chars.len(),
    ensures
        start <= end <= chars.len(),
        forall|i: int| start <= i < end ==> chars@[i] != '\n',
        end < chars.len() ==> chars@[end as int] == '\n',
{
    let mut end: usize = start;
    while end < chars.len() && chars[end] != '\n'
        invariant
            start <= end <= chars.len(),
            forall|i: int| start <= i < end ==> chars@[i] != '\n',
        decreases chars.len() - end,
    {
        end += 1;
    }
    end
}

/// Whether `c` is one of the ten decimal digits.
pub open spec fn is_digit(c: char) -> bool {
    '0' <= c && c <= '9'
}

/// The number a decimal digit stands for; zero for any other character.
pub open spec fn digit_value(c: char) -> nat {
    if is_digit(c) {
        (c as u32 - '0' as u32) as nat
    } else {
        0
    }
}

/// The number that a sequence of decimal digits stands for.
pub open spec fn digits_value(digits: Seq<char>) -> nat
    decreases digits.len(),
{
    if digits.len() == 0 {
        0
    } else {
        digits_value(digits.drop_last()) * 10 + digit_value(digits.last())
    }
}

/// Whether every character of `s` is a decimal digit.
pub open spec fn all_digits(s: Seq<char>) -> bool {
    forall|i: int| 0 <= i < s.len() ==> is_digit(#[trigger] s[i])
}

/// The reading of `s` as an unsigned decimal number of 64 bits: an optional
/// plus sign, then one digit or more, and a value that fits. Anything else
/// is no number.
pub open spec fn parse_decimal(s: Seq<char>) -> Option<u64> {
    let digits = if s.len() > 0 && s[0] == '+' {
        s.skip(1)
    } else {
        s
    };
    if digits.len() > 0 && all_digits(digits) && digits_value(digits) <= u64::MAX {
        Some(digits_value(digits) as u64)
    } else {
        None
    }
}

/// A longer sequence of digits stands for no smaller number than its start.
pub proof fn lemma_digits_value_prefix(digits: Seq<char>, k: int)
    requires
        0 <= k <= digits.len(),
    ensures
        digits_value(digits.take(k)) <= digits_value(digits),
    decreases digits.len(),
{
    if k == digits.len() {
        assert(digits.take(k) =~= digits);
    } else {
        lemma_digits_value_prefix(digits.drop_last(), k);
        assert(digits.drop_last().take(k) =~= digits.take(k));
    }
}

/// Reads an unsigned decimal number of 64 bits from `s`.
pub fn parse_u64(s: &str) -> (value: Option<u64>)
    ensures
        value == parse_decimal(s@),
{
    let chars = str_chars(s);
    let n = chars.len();
    let start: usize = if n > 0 && chars[0] == '+' {
        1
    } else {
        0
    };
    if start == n {
        return None;
    }
    let ghost digits = chars@.skip(start as int);
    assert(s@.skip(0) =~= s@);
    let mut value: u64 = 0;
    let mut i: usize = start;
    while i < n
        invariant
            start <= i <= n,
            n == chars.len(),
            start < n,
            chars@ == s@,
            digits == chars@.skip(start as int),
            digits == (if s@.len() > 0 && s@[0] == '+' {
                s@.skip(1)
            } else {
                s@
            }),
            all_digits(digits.take(i - start)),
            value == digits_value(digits.take(i - start)),
        decreases n - i,
    {
        let c = chars[i];
        if !('0' <= c && c <= '9') {
            assert(!is_digit(digits[i - start]));
            return None;
        }
        let d: u64 = (c as u32 - '0' as u32) as u64;
        proof {
            assert(digits.take(i + 1 - start).drop_last() =~= digits.take(i - start));
            assert(digits.take(i + 1 - start).last() == c);
            assert(digits_value(digits.take(i + 1 - start)) == value * 10 + d);
            lemma_digits_value_prefix(digits, i + 1 - start);
            assert(all_digits(digits.take(i + 1 - start))) by {
                assert forall|j: int| 0 <= j < i + 1 - start implies is_digit(
                    #[trigger] digits.take(i + 1 - start)[j],
                ) by {
                    if j < i - start {
                        assert(digits.take(i - start)[j] == digits.take(i + 1 - start)[j]);
                    }
                }
            }
        }
        let tenfold = match value.checked_mul(10) {
            Some(t) => t,
            None => {
                return None;
            },
        };
        value = match tenfold.checked_add(d) {
            Some(v) => v,
            None => {
                return None;
            },
        };
        i += 1;
    }
    assert(digits.take(n - start) =~= digits);
    Some(value)
}

/// The character of a decimal digit.
pub open spec fn digit_char(d: nat) -> char
    recommends
        d < 10,
{
    ((d + 48) as u8) as char
}

/// A number in decimal digits, without leading zeros.
pub open spec fn decimal_text(n: nat) -> Seq<char>
    decreases n,
{
    if n < 10 {
        seq![digit_char(n)]
    } else {
        decimal_text(n / 10).push(digit_char(n % 10))
    }
}

/// The decimal digits of a number stand for that number.
pub proof fn lemma_decimal_text_value(n: nat)
    ensures
        decimal_text(n).len() >= 1,
        all_digits(decimal_text(n)),
        digits_value(decimal_text(n)) == n,
        decimal_text(n)[0] != '+',
    decreases n,
{
    if n < 10 {
        assert(decimal_text(n).drop_last() =~= Seq::<char>::empty());
        assert(digits_value(decimal_text(n).drop_last()) == 0);
    } else {
        lemma_decimal_text_value(n / 10);
        assert(decimal_text(n).drop_last() =~= decimal_text(n / 10));
    }
}

/// Reading the decimal digits of a number of 64 bits gives the number back.
pub proof fn law_written_number_is_read_back(n: u64)
    ensures
        parse_decimal(decimal_text(n as nat)) == Some(n),
{
    lemma_decimal_text_value(n as nat);
}

/// Writes a number in decimal digits.
pub fn u64_to_string(n: u64) -> (s: String)
    ensures
        s@ == decimal_text(n as nat),
{
    let mut reversed: Vec<char> = Vec::new();
    let mut rest: u64 = n;
    while rest >= 10
        invariant
            decimal_text(n as nat) == decimal_text(rest as nat) + reversed@.reverse(),
        decreases rest,
    {
        let d: u8 = (rest % 10) as u8;
        let ghost before = reversed@;
        reversed.push((d + 48) as char);
        proof {
            assert(reversed@.reverse() =~= seq![digit_char((rest % 10) as nat)]
                + before.reverse());
            assert(decimal_text(rest as nat) + before.reverse() =~= decimal_text(
                (rest / 10) as nat,
            ) + reversed@.reverse());
        }
        rest = rest / 10;
    }
    let mut s = String::new();
    s.push(((rest as u8) + 48) as char);
    let mut i: usize = reversed.len();
    while i > 0
        invariant
            i <= reversed.len(),
            s@ == decimal_text(rest as nat) + reversed@.reverse().take(reversed.len() - i),
        decreases i,
    {
        i -= 1;
        s.push(reversed[i]);
        assert(reversed@.reverse().take(reversed.len() - i) =~= reversed@.reverse().take(
            reversed.len() - i - 1,
        ).push(reversed@[i as int]));
    }
    assert(reversed@.reverse().take(reversed.len() as int) =~= reversed@.reverse());
    s
}

} // verus!
