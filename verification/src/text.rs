use vstd::prelude::*;
use vstd::string::StringSliceAdditionalSpecFns;
use vstd::utf8::*;

verus! {

/// The line feed, which ends a line and a comment.
pub const NEW_LINE: u8 = 0x0a;

/// The index of the first `byte` in `s` at or after `from`; the length of `s`
/// where there is none.
pub open spec fn find_byte(s: Seq<u8>, from: int, byte: u8) -> int
    decreases s.len() - from,
{
    if from < 0 || from >= s.len() {
        s.len() as int
    } else if s[from] == byte {
        from
    } else {
        find_byte(s, from + 1, byte)
    }
}

/// `find_byte` gives the least index at or after `from` that holds `byte`.
pub proof fn lemma_find_byte(s: Seq<u8>, from: int, byte: u8)
    requires
        0 <= from,
    ensures
        from <= find_byte(s, from, byte) || find_byte(s, from, byte) == s.len(),
        find_byte(s, from, byte) <= s.len(),
        find_byte(s, from, byte) < s.len() ==> s[find_byte(s, from, byte)] == byte,
        forall|k: int| from <= k < find_byte(s, from, byte) ==> s[k] != byte,
    decreases s.len() - from,
{
    if from < s.len() && s[from] != byte {
        lemma_find_byte(s, from + 1, byte);
    }
}

/// Finds the first `byte` in `bytes` at or after `from`.
pub fn index_of_byte(bytes: &[u8], from: usize, byte: u8) -> (index: usize)
    ensures
        index == find_byte(bytes@, from as int, byte),
{
    let mut i = from;
    while i < bytes.len() && bytes[i] != byte
        invariant
            from <= i,
            find_byte(bytes@, i as int, byte) == find_byte(bytes@, from as int, byte),
        decreases bytes.len() - i,
    {
        i += 1;
    }
    if i < bytes.len() {
        i
    } else {
        bytes.len()
    }
}

/// The offset of a byte of `s` that is nearest to `position`: `position` itself, or
/// the offset of the last byte where `position` lies behind it.
pub open spec fn clamp(s: Seq<u8>, position: int) -> int {
    if position < s.len() {
        position
    } else if s.len() > 0 {
        s.len() - 1
    } else {
        0
    }
}

/// The index at which the line of `position` ends: that of the first line feed at
/// or after `position`, or of the last byte of `s` where no line feed follows.
pub open spec fn line_end(s: Seq<u8>, position: int) -> int {
    let end = find_byte(s, position, NEW_LINE);
    if end < s.len() {
        end
    } else if s.len() > 0 {
        s.len() - 1
    } else {
        0
    }
}

/// The index at which the line of `position` begins: one past the last line feed
/// before `position`, or 0 where none comes before it.
pub open spec fn line_start(s: Seq<u8>, position: int) -> int
    decreases position,
{
    if position <= 0 {
        0
    } else if position <= s.len() && s[position - 1] == NEW_LINE {
        position
    } else {
        line_start(s, position - 1)
    }
}

/// The number of line feeds among the first `position` bytes of `s`.
pub open spec fn count_lines(s: Seq<u8>, position: int) -> nat
    decreases position,
{
    if position <= 0 {
        0
    } else if position <= s.len() && s[position - 1] == NEW_LINE {
        count_lines(s, position - 1) + 1
    } else {
        count_lines(s, position - 1)
    }
}

/// Where the line begins that lies `lines` lines before the line that begins at
/// `start`; the first line of `s` where there are not that many.
pub open spec fn lines_back(s: Seq<u8>, start: int, lines: nat) -> int
    decreases lines,
{
    if lines == 0 || start <= 0 {
        start
    } else {
        lines_back(s, line_start(s, start - 1), (lines - 1) as nat)
    }
}

/// Where the line ends that lies `lines` lines behind the line that ends at `end`;
/// the end of `s` where there are not that many.
pub open spec fn lines_forth(s: Seq<u8>, end: int, lines: nat) -> int
    decreases lines,
{
    if lines == 0 || end >= s.len() {
        end
    } else {
        lines_forth(s, find_byte(s, end + 1, NEW_LINE), (lines - 1) as nat)
    }
}

/// A line begins at the beginning of `s` or behind a line feed, at or before the
/// position whose line it is.
pub proof fn lemma_line_start(s: Seq<u8>, position: int)
    requires
        0 <= position <= s.len(),
    ensures
        0 <= line_start(s, position) <= position,
        line_start(s, position) == 0 || s[line_start(s, position) - 1] == NEW_LINE,
    decreases position,
{
    if position > 0 && s[position - 1] != NEW_LINE {
        lemma_line_start(s, position - 1);
    }
}

/// Going back by lines from where a line begins leads to where a line begins.
pub proof fn lemma_lines_back(s: Seq<u8>, start: int, lines: nat)
    requires
        0 <= start <= s.len(),
        start == 0 || s[start - 1] == NEW_LINE,
    ensures
        0 <= lines_back(s, start, lines) <= start,
        lines_back(s, start, lines) == 0 || s[lines_back(s, start, lines) - 1] == NEW_LINE,
    decreases lines,
{
    if lines > 0 && start > 0 {
        lemma_line_start(s, start - 1);
        lemma_lines_back(s, line_start(s, start - 1), (lines - 1) as nat);
    }
}

/// Going forth by lines from where a line ends leads to where a line ends.
pub proof fn lemma_lines_forth(s: Seq<u8>, end: int, lines: nat)
    requires
        0 <= end <= s.len(),
        end == s.len() || s[end] == NEW_LINE,
    ensures
        end <= lines_forth(s, end, lines) <= s.len(),
        lines_forth(s, end, lines) == s.len() || s[lines_forth(s, end, lines)] == NEW_LINE,
    decreases lines,
{
    if lines > 0 && end < s.len() {
        lemma_find_byte(s, end + 1, NEW_LINE);
        lemma_lines_forth(s, find_byte(s, end + 1, NEW_LINE), (lines - 1) as nat);
    }
}

/// Finds where the line of `position` begins.
pub fn start_of_line(bytes: &[u8], position: usize) -> (start: usize)
    requires
        position <= bytes.len(),
    ensures
        start == line_start(bytes@, position as int),
        start <= position,
{
    let mut start = position;
    while start > 0 && bytes[start - 1] != NEW_LINE
        invariant
            start <= position <= bytes.len(),
            line_start(bytes@, start as int) == line_start(bytes@, position as int),
        decreases start,
    {
        start -= 1;
    }
    start
}

/// Counts the line feeds among the first `position` bytes.
pub fn lines_before(bytes: &[u8], position: usize) -> (lines: usize)
    requires
        position <= bytes.len(),
    ensures
        lines == count_lines(bytes@, position as int),
        lines <= position,
{
    let mut lines: usize = 0;
    let mut index: usize = 0;
    while index < position
        invariant
            index <= position <= bytes.len(),
            lines == count_lines(bytes@, index as int),
            lines <= index,
        decreases position - index,
    {
        if bytes[index] == NEW_LINE {
            lines += 1;
        }
        index += 1;
    }
    lines
}

/// Whether `index` has a byte of one-byte encoding directly before or behind it, or
/// lies at an end of `s`. In a text in UTF-8 no character straddles such an index.
pub open spec fn at_plain_byte(s: Seq<u8>, index: int) -> bool {
    ||| index == 0
    ||| index == s.len()
    ||| 0 < index <= s.len() && s[index - 1] < 0x80
    ||| 0 <= index < s.len() && s[index] < 0x80
}

/// Bytes below 0x80 are characters of their own, so the indices around them are
/// boundaries of characters.
pub proof fn lemma_plain_byte_boundary(s: Seq<u8>, index: int)
    requires
        valid_utf8(s),
        at_plain_byte(s, index),
    ensures
        is_char_boundary(s, index),
{
    is_char_boundary_start_end_of_seq(s);
    if index == 0 || index == s.len() {
    } else if s[index] < 0x80 {
        is_char_boundary_iff_not_is_continuation_byte(s, index);
    } else {
        is_char_boundary_iff_not_is_continuation_byte(s, index - 1);
        valid_utf8_split(s, index - 1);
        let rest = s.subrange(index - 1, s.len() as int);
        assert(rest[0] == s[index - 1]);
        assert(is_char_boundary(rest, 1)) by {
            reveal_with_fuel(is_char_boundary, 2);
        }
        is_char_boundary_iff_not_is_continuation_byte(rest, 1);
        assert(rest[1] == s[index]);
        is_char_boundary_iff_not_is_continuation_byte(s, index);
    }
}

/// A boundary of characters in a text is one in each prefix that reaches it.
pub proof fn lemma_boundary_in_prefix(s: Seq<u8>, index: int, end: int)
    requires
        valid_utf8(s),
        is_char_boundary(s, index),
        is_char_boundary(s, end),
        0 <= index <= end <= s.len(),
    ensures
        valid_utf8(s.subrange(0, end)),
        is_char_boundary(s.subrange(0, end), index),
{
    let head = s.subrange(0, end);
    valid_utf8_split(s, end);
    is_char_boundary_start_end_of_seq(head);
    if index < end {
        assert(head[index] == s[index]);
        is_char_boundary_iff_not_is_continuation_byte(s, index);
        is_char_boundary_iff_not_is_continuation_byte(head, index);
    }
}

/// Whether two texts are the same, byte for byte.
pub fn same_text(left: &str, right: &str) -> (same: bool)
    ensures
        same == (left.spec_bytes() == right.spec_bytes()),
{
    let first = left.as_bytes();
    let second = right.as_bytes();
    if first.len() != second.len() {
        return false;
    }
    let mut index: usize = 0;
    while index < first.len()
        invariant
            first@ == left.spec_bytes(),
            second@ == right.spec_bytes(),
            first.len() == second.len(),
            index <= first.len(),
            forall|i: int| 0 <= i < index ==> first@[i] == second@[i],
        decreases first.len() - index,
    {
        if first[index] != second[index] {
            assert(first@[index as int] != second@[index as int]);
            return false;
        }
        index += 1;
    }
    assert(first@ =~= second@);
    true
}

/// The bytes of each of the texts.
pub open spec fn bytes_of(texts: Seq<&str>) -> Seq<Seq<u8>> {
    Seq::new(texts.len(), |i: int| texts[i].spec_bytes())
}

/// The index of the first of `texts` from `from` on that is `text`; their number
/// where none is.
pub open spec fn find_text(texts: Seq<Seq<u8>>, from: int, text: Seq<u8>) -> int
    decreases texts.len() - from,
{
    if from < 0 || from >= texts.len() {
        texts.len() as int
    } else if texts[from] == text {
        from
    } else {
        find_text(texts, from + 1, text)
    }
}

/// Finds the first of `texts` that has the bytes of `text`.
pub fn index_of_text(texts: &[&str], text: &str) -> (index: usize)
    ensures
        index == find_text(bytes_of(texts@), 0, text.spec_bytes()),
        index <= texts.len(),
{
    let mut index: usize = 0;
    while index < texts.len()
        invariant
            index <= texts.len(),
            find_text(bytes_of(texts@), index as int, text.spec_bytes()) == find_text(
                bytes_of(texts@),
                0,
                text.spec_bytes(),
            ),
        decreases texts.len() - index,
    {
        assert(bytes_of(texts@)[index as int] == texts@[index as int].spec_bytes());
        if same_text(texts[index], text) {
            return index;
        }
        index += 1;
    }
    index
}

/// Whether `texts` holds a text with the bytes of `text`.
pub fn holds_text(texts: &[&str], text: &str) -> (holds: bool)
    ensures
        holds == bytes_of(texts@).contains(text.spec_bytes()),
{
    let mut index: usize = 0;
    while index < texts.len()
        invariant
            index <= texts.len(),
            forall|i: int| 0 <= i < index ==> bytes_of(texts@)[i] != text.spec_bytes(),
        decreases texts.len() - index,
    {
        if same_text(texts[index], text) {
            assert(bytes_of(texts@)[index as int] == text.spec_bytes());
            return true;
        }
        index += 1;
    }
    false
}

/// The part of `text` between two byte offsets that are boundaries of characters.
pub fn slice_of<'a>(text: &'a str, start: usize, end: usize) -> (part: &'a str)
    requires
        start <= end <= text.spec_bytes().len(),
        is_char_boundary(text.spec_bytes(), start as int),
        is_char_boundary(text.spec_bytes(), end as int),
    ensures
        part.spec_bytes() == text.spec_bytes().subrange(start as int, end as int),
{
    broadcast use encode_utf8_valid_utf8;

    proof {
        lemma_boundary_in_prefix(text.spec_bytes(), start as int, end as int);
    }
    let (head, _) = text.split_at(end);
    let (_, part) = head.split_at(start);
    assert(part.spec_bytes() =~= text.spec_bytes().subrange(start as int, end as int));
    part
}

} // verus!
