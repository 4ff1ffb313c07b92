//! Small operations on text: trimming, leaving a character out, and
//! writing a port in decimal.

use vstd::prelude::*;
use vstd::slice::slice_subrange;
use vstd::string::{StrSliceExecFns, StringExecFns};

verus! {

/// What `str::to_lowercase` makes of a text.
pub uninterp spec fn lowercase(text: Seq<char>) -> Seq<char>;

/// `str::to_lowercase`: the text with each character mapped to its lower
/// case, as Unicode defines it. The mapping depends on the text alone.
#[verifier::external_body]
pub(crate) fn to_lowercase(text: &str) -> (lowered: String)
    ensures
        lowered@ == lowercase(text@),
{
    text.to_lowercase()
}

/// Whether `pattern` occurs in `text` as a run of characters.
pub open spec fn has_substring(text: Seq<char>, pattern: Seq<char>) -> bool {
    exists|i: int|
        0 <= i <= text.len() - pattern.len() && #[trigger] text.subrange(i, i + pattern.len())
            == pattern
}

/// `str::contains` with a string as the pattern: whether the pattern occurs
/// in the text.
#[verifier::external_body]
pub(crate) fn contains(text: &str, pattern: &str) -> (found: bool)
    ensures
        found == has_substring(text@, pattern@),
{
    text.contains(pattern)
}

/// `str::chars`, collected: the characters of a text in their order.
#[verifier::external_body]
pub(crate) fn chars_of(text: &str) -> (chars: Vec<char>)
    ensures
        chars@ == text@,
{
    text.chars().collect()
}

/// `String::from_iter` over characters: the text that the characters
/// spell in their order.
#[verifier::external_body]
pub(crate) fn text_of(chars: &[char]) -> (text: String)
    ensures
        text@ == chars@,
{
    chars.iter().collect()
}

/// Whether a character is white space, as Unicode defines it.
pub open spec fn is_whitespace(c: char) -> bool {
    let n = c as u32;
    ||| 0x09 <= n <= 0x0d
    ||| n == 0x20
    ||| n == 0x85
    ||| n == 0xa0
    ||| n == 0x1680
    ||| 0x2000 <= n <= 0x200a
    ||| n == 0x2028
    ||| n == 0x2029
    ||| n == 0x202f
    ||| n == 0x205f
    ||| n == 0x3000
}

/// Whether a character is white space.
pub fn is_space(c: char) -> (space: bool)
    ensures
        space == is_whitespace(c),
{
    let n: u32 = c as u32;
    (0x09 <= n && n <= 0x0d) || n == 0x20 || n == 0x85 || n == 0xa0 || n == 0x1680 || (0x2000 <= n
        && n <= 0x200a) || n == 0x2028 || n == 0x2029 || n == 0x202f || n == 0x205f || n == 0x3000
}

/// A text without the white space that it begins with.
pub open spec fn trim_start(text: Seq<char>) -> Seq<char>
    decreases text.len(),
{
    if text.len() > 0 && is_whitespace(text[0]) {
        trim_start(text.drop_first())
    } else {
        text
    }
}

/// A text without the white space that it ends with.
pub open spec fn trim_end(text: Seq<char>) -> Seq<char>
    decreases text.len(),
{
    if text.len() > 0 && is_whitespace(text.last()) {
        trim_end(text.drop_last())
    } else {
        text
    }
}

/// A text without the white space at its two ends.
pub open spec fn trimmed(text: Seq<char>) -> Seq<char> {
    trim_end(trim_start(text))
}

/// The part of a text between the white space at its two ends.
pub fn trim<'a>(text: &'a str) -> (inner: &'a str)
    ensures
        inner@ == trimmed(text@),
{
    let chars = chars_of(text);
    let n: usize = chars.len();
    let mut from: usize = 0;
    assert(text@.skip(0) =~= text@);
    while from < n && is_space(chars[from])
        invariant
            0 <= from <= n,
            n == text@.len(),
            chars@ == text@,
            trim_start(text@) == trim_start(text@.skip(from as int)),
        decreases n - from,
    {
        assert(text@.skip(from as int).drop_first() =~= text@.skip(from + 1));
        from += 1;
    }
    let ghost rest = text@.skip(from as int);
    assert(trim_start(text@) == rest);
    let mut to: usize = n;
    assert(rest.take(n - from) =~= rest);
    while to > from && is_space(chars[to - 1])
        invariant
            from <= to <= n,
            n == text@.len(),
            chars@ == text@,
            rest == text@.skip(from as int),
            trim_end(rest) == trim_end(rest.take(to - from)),
        decreases to,
    {
        assert(rest.take(to - from).last() == text@[to - 1]);
        assert(rest.take(to - from).drop_last() =~= rest.take(to - from - 1));
        to -= 1;
    }
    proof {
        let kept = rest.take(to - from);
        if kept.len() > 0 {
            assert(kept.last() == text@[to - 1]);
        }
        assert(trim_end(kept) == kept);
        assert(text@.subrange(from as int, to as int) =~= kept);
    }
    text.substring_char(from, to)
}

/// A text without each occurrence of `left_out`.
pub open spec fn without(text: Seq<char>, left_out: char) -> Seq<char> {
    text.filter(|c: char| c != left_out)
}

/// The text without each occurrence of `left_out`.
pub fn without_char(text: &str, left_out: char) -> (kept: String)
    ensures
        kept@ == without(text@, left_out),
{
    let chars = chars_of(text);
    let n: usize = chars.len();
    let mut kept: Vec<char> = Vec::new();
    let mut i: usize = 0;
    proof {
        reveal(Seq::filter);
        assert(without(text@.take(0), left_out) =~= Seq::<char>::empty());
    }
    while i < n
        invariant
            0 <= i <= n,
            n == text@.len(),
            chars@ == text@,
            kept@ == without(text@.take(i as int), left_out),
        decreases n - i,
    {
        proof {
            reveal(Seq::filter);
            assert(text@.take(i + 1).drop_last() =~= text@.take(i as int));
            assert(text@.take(i + 1).last() == text@[i as int]);
        }
        if chars[i] != left_out {
            kept.push(chars[i]);
        }
        i += 1;
    }
    assert(text@.take(n as int) =~= text@);
    text_of(kept.as_slice())
}

/// The character of a decimal digit.
pub open spec fn digit_char(digit: nat) -> char {
    if digit == 0 {
        '0'
    } else if digit == 1 {
        '1'
    } else if digit == 2 {
        '2'
    } else if digit == 3 {
        '3'
    } else if digit == 4 {
        '4'
    } else if digit == 5 {
        '5'
    } else if digit == 6 {
        '6'
    } else if digit == 7 {
        '7'
    } else if digit == 8 {
        '8'
    } else {
        '9'
    }
}

/// A number written in decimal, without leading zeros.
pub open spec fn decimal_text(n: nat) -> Seq<char>
    decreases n,
{
    if n < 10 {
        seq![digit_char(n)]
    } else {
        decimal_text(n / 10) + seq![digit_char(n % 10)]
    }
}

/// The text of one decimal digit.
pub fn digit_text(digit: u16) -> (text: &'static str)
    requires
        digit < 10,
    ensures
        text@ == seq![digit_char(digit as nat)],
{
    proof {
        reveal_strlit("0");
        reveal_strlit("1");
        reveal_strlit("2");
        reveal_strlit("3");
        reveal_strlit("4");
        reveal_strlit("5");
        reveal_strlit("6");
        reveal_strlit("7");
        reveal_strlit("8");
        reveal_strlit("9");
    }
    let text = if digit == 0 {
        "0"
    } else if digit == 1 {
        "1"
    } else if digit == 2 {
        "2"
    } else if digit == 3 {
        "3"
    } else if digit == 4 {
        "4"
    } else if digit == 5 {
        "5"
    } else if digit == 6 {
        "6"
    } else if digit == 7 {
        "7"
    } else if digit == 8 {
        "8"
    } else {
        "9"
    };
    assert(text@ =~= seq![digit_char(digit as nat)]);
    text
}

/// A port written in decimal.
pub fn port_text(port: u16) -> (text: String)
    ensures
        text@ == decimal_text(port as nat),
    decreases port,
{
    if port < 10 {
        String::from_str(digit_text(port))
    } else {
        let mut text = port_text(port / 10);
        text.append(digit_text(port % 10));
        text
    }
}

/// The ports written in decimal, with `separator` between each two.
pub open spec fn ports_text(ports: Seq<u16>, separator: Seq<char>) -> Seq<char>
    decreases ports.len(),
{
    if ports.len() == 0 {
        Seq::empty()
    } else if ports.len() == 1 {
        decimal_text(ports[0] as nat)
    } else {
        ports_text(ports.drop_last(), separator) + separator + decimal_text(ports.last() as nat)
    }
}

/// The ports written in decimal, with `separator` between each two.
pub fn join_ports(ports: &Vec<u16>, separator: &str) -> (text: String)
    ensures
        text@ == ports_text(ports@, separator@),
{
    let mut text = String::from_str("");
    proof {
        reveal_strlit("");
    }
    let mut i: usize = 0;
    assert(ports@.take(0) =~= Seq::<u16>::empty());
    while i < ports.len()
        invariant
            0 <= i <= ports@.len(),
            text@ == ports_text(ports@.take(i as int), separator@),
        decreases ports@.len() - i,
    {
        proof {
            assert(ports@.take(i + 1).drop_last() =~= ports@.take(i as int));
            assert(ports@.take(i + 1).last() == ports@[i as int]);
        }
        if i > 0 {
            text.append(separator);
        }
        let written = port_text(ports[i]);
        text.append(written.as_str());
        proof {
            if i == 0 {
                assert(ports@.take(1)[0] == ports@[0]);
                assert(text@ =~= decimal_text(ports@[0] as nat));
            }
        }
        i += 1;
    }
    assert(ports@.take(ports@.len() as int) =~= ports@);
    text
}

/// The texts one after the other, with `separator` between each two.
pub open spec fn joined(texts: Seq<String>, separator: Seq<char>) -> Seq<char>
    decreases texts.len(),
{
    if texts.len() == 0 {
        Seq::empty()
    } else if texts.len() == 1 {
        texts[0]@
    } else {
        joined(texts.drop_last(), separator) + separator + texts.last()@
    }
}

/// The texts one after the other, with `separator` between each two.
pub fn join(texts: &Vec<String>, separator: &str) -> (text: String)
    ensures
        text@ == joined(texts@, separator@),
{
    let mut text = String::from_str("");
    proof {
        reveal_strlit("");
    }
    let mut i: usize = 0;
    assert(texts@.take(0) =~= Seq::<String>::empty());
    while i < texts.len()
        invariant
            0 <= i <= texts@.len(),
            text@ == joined(texts@.take(i as int), separator@),
        decreases texts@.len() - i,
    {
        proof {
            assert(texts@.take(i + 1).drop_last() =~= texts@.take(i as int));
            assert(texts@.take(i + 1).last() == texts@[i as int]);
        }
        if i > 0 {
            text.append(separator);
        }
        text.append(texts[i].as_str());
        proof {
            if i == 0 {
                assert(texts@.take(1)[0] == texts@[0]);
                assert(text@ =~= texts@[0]@);
            }
        }
        i += 1;
    }
    assert(texts@.take(texts@.len() as int) =~= texts@);
    text
}

/// The texts of a list as values.
pub open spec fn text_views(texts: Seq<String>) -> Seq<Seq<char>> {
    texts.map_values(|text: String| text@)
}

/// The place of the first occurrence of `mark` in a text, or the length of
/// the text where it does not occur.
pub open spec fn first_of(text: Seq<char>, mark: char) -> int
    decreases text.len(),
{
    if text.len() == 0 {
        0
    } else if text[0] == mark {
        0
    } else {
        1 + first_of(text.drop_first(), mark)
    }
}

/// The first occurrence is the one place that holds the mark and has none
/// before it.
pub proof fn lemma_first_of_is(text: Seq<char>, mark: char, at: int)
    requires
        0 <= at <= text.len(),
        at < text.len() ==> text[at] == mark,
        forall|i: int| 0 <= i < at ==> #[trigger] text[i] != mark,
    ensures
        first_of(text, mark) == at,
    decreases text.len(),
{
    if text.len() > 0 && at > 0 {
        let rest = text.drop_first();
        assert(text[0] != mark);
        assert forall|i: int| 0 <= i < at - 1 implies #[trigger] rest[i] != mark by {
            assert(rest[i] == text[i + 1]);
        }
        lemma_first_of_is(rest, mark, at - 1);
    }
}

/// The pieces of a text between the occurrences of `mark`: one more than
/// there are occurrences, some of them empty.
pub open spec fn pieces(text: Seq<char>, mark: char) -> Seq<Seq<char>>
    decreases text.len(),
{
    let at = first_of(text, mark);
    if 0 <= at < text.len() {
        seq![text.take(at)] + pieces(text.skip(at + 1), mark)
    } else {
        seq![text]
    }
}

/// Splits a text at each occurrence of `mark`.
pub fn split(text: &str, mark: char) -> (parts: Vec<String>)
    ensures
        text_views(parts@) == pieces(text@, mark),
{
    let chars = chars_of(text);
    let n: usize = chars.len();
    let mut parts: Vec<String> = Vec::new();
    let mut from: usize = 0;
    let mut i: usize = 0;
    proof {
        assert(text@.skip(0) =~= text@);
        assert(text_views(parts@) + pieces(text@.skip(0), mark) =~= pieces(text@, mark));
    }
    while i < n
        invariant
            0 <= from <= i <= n,
            n == text@.len(),
            chars@ == text@,
            text_views(parts@) + pieces(text@.skip(from as int), mark) == pieces(text@, mark),
            forall|j: int| from <= j < i ==> text@[j] != mark,
        decreases n - i,
    {
        if chars[i] == mark {
            let owned = text_of(slice_subrange(chars.as_slice(), from, i));
            proof {
                let rest = text@.skip(from as int);
                assert forall|j: int| 0 <= j < i - from implies #[trigger] rest[j] != mark by {
                    assert(rest[j] == text@[from + j]);
                }
                lemma_first_of_is(rest, mark, i - from);
                assert(rest.take(i - from) =~= owned@);
                assert(rest.skip(i - from + 1) =~= text@.skip(i + 1));
                assert((text_views(parts@) + seq![owned@]) + pieces(text@.skip(i + 1), mark)
                    =~= text_views(parts@) + (seq![owned@] + pieces(text@.skip(i + 1), mark)));
                assert(text_views(parts@.push(owned)) =~= text_views(parts@) + seq![owned@]);
            }
            parts.push(owned);
            from = i + 1;
        }
        i += 1;
    }
    let owned = text_of(slice_subrange(chars.as_slice(), from, n));
    proof {
        let rest = text@.skip(from as int);
        assert forall|j: int| 0 <= j < n - from implies #[trigger] rest[j] != mark by {
            assert(rest[j] == text@[from + j]);
        }
        lemma_first_of_is(rest, mark, n - from);
        assert(rest =~= owned@);
        assert(text_views(parts@.push(owned)) =~= text_views(parts@) + seq![owned@]);
    }
    parts.push(owned);
    parts
}

/// A line without the carriage return that it may end with.
pub open spec fn without_return(line: Seq<char>) -> Seq<char> {
    if line.len() > 0 && line.last() == '\r' {
        line.drop_last()
    } else {
        line
    }
}

/// The lines of a text. A line ends with a line feed, or with a carriage
/// return and a line feed; neither belongs to the line. What follows the
/// last line feed is a line too, unless it is empty.
pub open spec fn lines_of(text: Seq<char>) -> Seq<Seq<char>> {
    let parts = pieces(text, '\n');
    let ended = parts.drop_last().map_values(|line: Seq<char>| without_return(line));
    if parts.last().len() == 0 {
        ended
    } else {
        ended.push(parts.last())
    }
}

/// `pieces` gives at least one piece.
pub proof fn lemma_pieces_len(text: Seq<char>, mark: char)
    ensures
        pieces(text, mark).len() >= 1,
    decreases text.len(),
{
    let at = first_of(text, mark);
    if 0 <= at < text.len() {
        lemma_pieces_len(text.skip(at + 1), mark);
    }
}

/// Splits a text into its lines.
pub fn lines(text: &str) -> (found: Vec<String>)
    ensures
        text_views(found@) == lines_of(text@),
{
    let parts = split(text, '\n');
    proof {
        lemma_pieces_len(text@, '\n');
        assert(text_views(parts@).len() == parts@.len());
    }
    let ghost strip = |line: Seq<char>| without_return(line);
    let mut found: Vec<String> = Vec::new();
    let mut i: usize = 0;
    let last: usize = parts.len() - 1;
    assert(text_views(found@) =~= text_views(parts@).take(0).map_values(strip));
    while i < last
        invariant
            0 <= i <= last,
            last == parts@.len() - 1,
            strip == |line: Seq<char>| without_return(line),
            text_views(found@) == text_views(parts@).take(i as int).map_values(strip),
        decreases last - i,
    {
        let line = parts[i].as_str();
        let n: usize = line.unicode_len();
        let kept: &str = if n > 0 && line.get_char(n - 1) == '\r' {
            line.substring_char(0, n - 1)
        } else {
            line
        };
        let owned = String::from_str(kept);
        proof {
            assert(line@.subrange(0, n - 1) =~= line@.drop_last());
            assert(kept@ == without_return(line@));
            assert(text_views(parts@)[i as int] == line@);
            let before = text_views(parts@).take(i as int);
            assert(text_views(found@.push(owned)) =~= text_views(found@).push(owned@));
            assert(text_views(parts@).take(i + 1) =~= before.push(line@));
            assert(before.push(line@).map_values(strip) =~= before.map_values(strip).push(
                without_return(line@),
            ));
        }
        found.push(owned);
        i += 1;
    }
    proof {
        assert(text_views(parts@).take(last as int) =~= text_views(parts@).drop_last());
        assert(text_views(parts@).last() == parts@[last as int]@);
    }
    if parts[last].as_str().unicode_len() > 0 {
        let owned = parts[last].clone();
        proof {
            assert(text_views(found@.push(owned)) =~= text_views(found@).push(owned@));
        }
        found.push(owned);
    }
    found
}

/// Each of the texts without the white space at its two ends.
pub fn trim_each(texts: &Vec<String>) -> (inner: Vec<String>)
    ensures
        text_views(inner@) == text_views(texts@).map_values(|text: Seq<char>| trimmed(text)),
{
    let ghost bare = |text: Seq<char>| trimmed(text);
    let mut inner: Vec<String> = Vec::new();
    let mut i: usize = 0;
    assert(text_views(inner@) =~= text_views(texts@).take(0).map_values(bare));
    while i < texts.len()
        invariant
            0 <= i <= texts@.len(),
            bare == |text: Seq<char>| trimmed(text),
            text_views(inner@) == text_views(texts@).take(i as int).map_values(bare),
        decreases texts@.len() - i,
    {
        let owned = String::from_str(trim(texts[i].as_str()));
        proof {
            assert(text_views(texts@)[i as int] == texts@[i as int]@);
            let before = text_views(texts@).take(i as int);
            let text = texts@[i as int]@;
            assert(text_views(inner@.push(owned)) =~= text_views(inner@).push(owned@));
            assert(text_views(texts@).take(i + 1) =~= before.push(text));
            assert(before.push(text).map_values(bare) =~= before.map_values(bare).push(
                trimmed(text),
            ));
        }
        inner.push(owned);
        i += 1;
    }
    assert(text_views(texts@).take(texts@.len() as int) =~= text_views(texts@));
    inner
}

} // verus!
