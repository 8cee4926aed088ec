//! Fields of a line: the line is cut at every match of a delimiter pattern,
//! and a field range selects some of the pieces.

use regex::Regex;
use vstd::prelude::*;
use vstd::string::*;
use vstd::utf8::*;

verus! {

/// A compiled regular expression of the `regex` crate.
#[verifier::external_type_specification]
#[verifier::external_body]
pub struct ExRegex(regex::Regex);

/// A selection of fields. Fields are counted from 1; a negative number counts
/// from the last field backwards, so that -1 is the last one.
#[derive(Clone, Copy, Debug, PartialEq, Eq, Structural)]
pub enum FieldRange {
    /// One field.
    Single(i32),
    /// Every field up to and including this one.
    LeftInf(i32),
    /// This field and every one behind it.
    RightInf(i32),
    /// The fields from the first number to the second, both included.
    Both(i32, i32),
}

/// The number that `idx` stands for among `count` fields: itself where it is
/// not negative, else counted from the end, and 0 where that falls before the
/// first field.
pub open spec fn field_position(idx: int, count: int) -> int {
    if idx >= 0 {
        idx
    } else if idx + count + 1 > 0 {
        idx + count + 1
    } else {
        0
    }
}

pub open spec fn int_min(a: int, b: int) -> int {
    if a <= b {
        a
    } else {
        b
    }
}

pub open spec fn int_max(a: int, b: int) -> int {
    if a >= b {
        a
    } else {
        b
    }
}

impl FieldRange {
    /// The fields that the range selects among `count` fields, as a half-open
    /// interval of field indices that start at 0; `None` where it selects none.
    pub open spec fn index_pair(self, count: int) -> Option<(int, int)> {
        match self {
            FieldRange::Single(n) => {
                let n = field_position(n as int, count);
                if n == 0 || n > count {
                    None
                } else {
                    Some((n - 1, n))
                }
            },
            FieldRange::LeftInf(right) => {
                let right = field_position(right as int, count);
                if count == 0 || right == 0 {
                    None
                } else {
                    Some((0, int_min(right, count)))
                }
            },
            FieldRange::RightInf(left) => {
                let left = field_position(left as int, count);
                if count == 0 || left > count {
                    None
                } else {
                    Some((int_max(left, 1) - 1, count))
                }
            },
            FieldRange::Both(left, right) => {
                let left = field_position(left as int, count);
                let right = field_position(right as int, count);
                if count == 0 || right == 0 || left > right || left > count {
                    None
                } else {
                    Some((int_max(left, 1) - 1, int_min(right, count)))
                }
            },
        }
    }

    /// A range that selects anything selects a non-empty run of existing
    /// fields.
    pub proof fn lemma_index_pair_in_bounds(self, count: int)
        requires
            0 <= count,
        ensures
            match self.index_pair(count) {
                Some((start, stop)) => 0 <= start < stop <= count,
                None => true,
            },
    {
    }

    pub fn to_index_pair(&self, count: usize) -> (pair: Option<(usize, usize)>)
        ensures
            match pair {
                Some((start, stop)) => self.index_pair(count as int) == Some(
                    (start as int, stop as int),
                ),
                None => self.index_pair(count as int) is None,
            },
    {
        match *self {
            FieldRange::Single(n) => {
                let n = position(n, count);
                if n == 0 || n > count {
                    None
                } else {
                    Some((n - 1, n))
                }
            },
            FieldRange::LeftInf(right) => {
                let right = position(right, count);
                if count == 0 || right == 0 {
                    None
                } else {
                    Some((0, if right <= count { right } else { count }))
                }
            },
            FieldRange::RightInf(left) => {
                let left = position(left, count);
                if count == 0 || left > count {
                    None
                } else {
                    Some((if left >= 1 { left - 1 } else { 0 }, count))
                }
            },
            FieldRange::Both(left, right) => {
                let left = position(left, count);
                let right = position(right, count);
                if count == 0 || right == 0 || left > right || left > count {
                    None
                } else {
                    Some(
                        (
                            if left >= 1 { left - 1 } else { 0 },
                            if right <= count { right } else { count },
                        ),
                    )
                }
            },
        }
    }
}

fn position(idx: i32, count: usize) -> (pos: usize)
    ensures
        pos as int == field_position(idx as int, count as int),
{
    if idx >= 0 {
        idx as usize
    } else {
        let back: usize = (-(idx as i64)) as usize;
        if back > count {
            0
        } else {
            count - back + 1
        }
    }
}

/// The matches of a delimiter in a text, in the order of the text: for each
/// match the byte offset where it starts and the one where it ends.
pub uninterp spec fn delimiter_spans(delimiter: Regex, text: Seq<char>) -> Seq<(usize, usize)>;

/// What holds of the delimiter matches in a text of the given bytes: each lies
/// in the text, between character boundaries, and none starts before the one
/// before it has ended.
pub open spec fn spans_well_formed(spans: Seq<(usize, usize)>, bytes: Seq<u8>) -> bool {
    &&& forall|i: int|
        0 <= i < spans.len() ==> {
            &&& (#[trigger] spans[i]).0 <= spans[i].1 <= bytes.len()
            &&& is_char_boundary(bytes, spans[i].0 as int)
            &&& is_char_boundary(bytes, spans[i].1 as int)
        }
    &&& forall|i: int, j: int|
        0 <= i < j < spans.len() ==> (#[trigger] spans[i]).1 <= (#[trigger] spans[j]).0
}

/// `Regex::find_iter`, with `Match::start` and `Match::end` of each match: the
/// successive non-overlapping matches of the delimiter in `text`, as byte
/// offsets. The crate documents that `start <= end`, that both fall on
/// character boundaries of the text searched, and that the matches come in
/// order and do not overlap.
#[verifier::external_body]
fn find_spans(delimiter: &Regex, text: &str) -> (spans: Vec<(usize, usize)>)
    ensures
        spans@ == delimiter_spans(*delimiter, text@),
        spans_well_formed(spans@, text.spec_bytes()),
{
    delimiter.find_iter(text).map(|m| (m.start(), m.end())).collect()
}

/// A character boundary of a text is one of every part of the text that
/// starts at the start of the text, ends at a boundary and reaches it.
proof fn lemma_boundary_in_prefix(bytes: Seq<u8>, from: int, to: int)
    requires
        valid_utf8(bytes),
        0 <= from <= to <= bytes.len(),
        is_char_boundary(bytes, from),
        is_char_boundary(bytes, to),
    ensures
        valid_utf8(bytes.subrange(0, to)),
        is_char_boundary(bytes.subrange(0, to), from),
{
    let head = bytes.subrange(0, to);
    valid_utf8_split(bytes, to);
    if from == to {
        is_char_boundary_start_end_of_seq(head);
    } else {
        is_char_boundary_iff_not_is_continuation_byte(bytes, from);
        is_char_boundary_iff_not_is_continuation_byte(head, from);
    }
}

/// The part of `text` between two byte offsets, and `None` exactly where the
/// offsets are out of order, beyond the text or inside a character.
fn byte_slice<'a>(text: &'a str, from: usize, to: usize) -> (piece: Option<&'a str>)
    ensures
        piece is Some <==> {
            &&& from <= to <= text.spec_bytes().len()
            &&& is_char_boundary(text.spec_bytes(), from as int)
            &&& is_char_boundary(text.spec_bytes(), to as int)
        },
        piece is Some ==> piece->0.spec_bytes() == text.spec_bytes().subrange(
            from as int,
            to as int,
        ),
{
    let ghost bytes = text.spec_bytes();
    let len = byte_len(text);
    if from <= to && to <= len && text.is_char_boundary(from) && text.is_char_boundary(to) {
        proof {
            encode_utf8_valid_utf8(text@);
            lemma_boundary_in_prefix(bytes, from as int, to as int);
        }
        let (head, _) = text.split_at(to);
        let (_, piece) = head.split_at(from);
        proof {
            assert(piece.spec_bytes() =~= bytes.subrange(from as int, to as int));
        }
        Some(piece)
    } else {
        None
    }
}

/// The number of fields that the delimiter matches cut a text into: one more
/// than there are matches, as far as a `usize` can count.
pub open spec fn field_count(spans: Seq<(usize, usize)>) -> int {
    if spans.len() < usize::MAX {
        spans.len() as int + 1
    } else {
        usize::MAX as int
    }
}

fn count_fields(spans: &Vec<(usize, usize)>) -> (count: usize)
    ensures
        count as int == field_count(spans@),
{
    if spans.len() < usize::MAX {
        spans.len() + 1
    } else {
        usize::MAX
    }
}

/// The length of `text` in bytes.
pub fn byte_len(text: &str) -> (len: usize)
    ensures
        len == text.spec_bytes().len(),
{
    broadcast use vstd::slice::axiom_spec_len;

    text.as_bytes().len()
}

/// The byte offset at which field `i` starts: the start of the text, or the
/// end of the delimiter before the field.
pub open spec fn field_start(spans: Seq<(usize, usize)>, i: int) -> int {
    if i <= 0 {
        0
    } else {
        spans[i - 1].1 as int
    }
}

/// The byte offset at which field `i` ends, its delimiter left out: the start
/// of the delimiter behind it, or the end of the text.
pub open spec fn field_end(spans: Seq<(usize, usize)>, text_len: int, i: int) -> int {
    if i < spans.len() {
        spans[i].0 as int
    } else {
        text_len
    }
}

/// The byte offset up to which the fields before field `stop` reach, the
/// delimiter behind the last of them included.
pub open spec fn fields_stop(spans: Seq<(usize, usize)>, text_len: int, stop: int) -> int {
    if stop < field_count(spans) {
        field_start(spans, stop)
    } else {
        text_len
    }
}

/// The text that one field range selects: the selected fields with the
/// delimiters between and behind them.
pub open spec fn transform_piece(
    spans: Seq<(usize, usize)>,
    bytes: Seq<u8>,
    field: FieldRange,
) -> Seq<char> {
    match field.index_pair(field_count(spans)) {
        Some((start, stop)) => decode_utf8(
            bytes.subrange(field_start(spans, start), fields_stop(spans, bytes.len() as int, stop)),
        ),
        None => Seq::<char>::empty(),
    }
}

/// The text that the field ranges select, one after the other.
pub open spec fn transform_text(
    spans: Seq<(usize, usize)>,
    bytes: Seq<u8>,
    fields: Seq<FieldRange>,
) -> Seq<char>
    decreases fields.len(),
{
    if fields.len() == 0 {
        Seq::<char>::empty()
    } else {
        transform_text(spans, bytes, fields.drop_last()) + transform_piece(
            spans,
            bytes,
            fields.last(),
        )
    }
}

/// The byte range that one field range admits for matching: from the start of
/// its first field to the end of its last, the delimiter behind it left out.
pub open spec fn matching_range(
    spans: Seq<(usize, usize)>,
    text_len: int,
    field: FieldRange,
) -> Option<(usize, usize)> {
    match field.index_pair(field_count(spans)) {
        Some((start, stop)) => Some(
            (field_start(spans, start) as usize, field_end(spans, text_len, stop - 1) as usize),
        ),
        None => None,
    }
}

/// The byte ranges that the field ranges admit, in the order of the field
/// ranges; one that selects nothing adds none.
pub open spec fn matching_ranges(
    spans: Seq<(usize, usize)>,
    text_len: int,
    fields: Seq<FieldRange>,
) -> Seq<(usize, usize)>
    decreases fields.len(),
{
    if fields.len() == 0 {
        Seq::<(usize, usize)>::empty()
    } else {
        let before = matching_ranges(spans, text_len, fields.drop_last());
        match matching_range(spans, text_len, fields.last()) {
            Some(range) => before.push(range),
            None => before,
        }
    }
}

/// Whether a range lies in a text of the given bytes, between character
/// boundaries.
pub open spec fn range_in_text(range: (usize, usize), bytes: Seq<u8>) -> bool {
    &&& range.0 <= range.1 <= bytes.len()
    &&& is_char_boundary(bytes, range.0 as int)
    &&& is_char_boundary(bytes, range.1 as int)
}

/// Whether every range lies in a text of the given bytes, between character
/// boundaries.
pub open spec fn ranges_in_text(ranges: Seq<(usize, usize)>, bytes: Seq<u8>) -> bool {
    forall|i: int| 0 <= i < ranges.len() ==> range_in_text(#[trigger] ranges[i], bytes)
}

/// A range admitted for matching lies in the text.
pub proof fn lemma_matching_range_in_text(
    spans: Seq<(usize, usize)>,
    bytes: Seq<u8>,
    field: FieldRange,
)
    requires
        spans_well_formed(spans, bytes),
        valid_utf8(bytes),
        bytes.len() <= usize::MAX,
    ensures
        match matching_range(spans, bytes.len() as int, field) {
            Some(range) => range_in_text(range, bytes),
            None => true,
        },
{
    field.lemma_index_pair_in_bounds(field_count(spans));
    is_char_boundary_start_end_of_seq(bytes);
    if let Some((start, stop)) = field.index_pair(field_count(spans)) {
        if start > 0 {
            assert(spans[start - 1].1 <= bytes.len());
            assert(is_char_boundary(bytes, spans[start - 1].1 as int));
            if stop - 1 < spans.len() {
                assert(spans[start - 1].1 <= spans[stop - 1].0);
            }
        }
        if stop - 1 < spans.len() {
            assert(spans[stop - 1].0 <= bytes.len());
            assert(is_char_boundary(bytes, spans[stop - 1].0 as int));
        }
    }
}

/// The ranges admitted for matching all lie in the text.
pub proof fn lemma_matching_ranges_in_text(
    spans: Seq<(usize, usize)>,
    bytes: Seq<u8>,
    fields: Seq<FieldRange>,
)
    requires
        spans_well_formed(spans, bytes),
        valid_utf8(bytes),
        bytes.len() <= usize::MAX,
    ensures
        ranges_in_text(matching_ranges(spans, bytes.len() as int, fields), bytes),
        matching_ranges(spans, bytes.len() as int, fields).len() <= fields.len(),
    decreases fields.len(),
{
    if fields.len() > 0 {
        lemma_matching_ranges_in_text(spans, bytes, fields.drop_last());
        lemma_matching_range_in_text(spans, bytes, fields.last());
    }
}

/// Whether `spans` can be the matches of a delimiter in `text`.
pub fn spans_valid(text: &str, spans: &Vec<(usize, usize)>) -> (ok: bool)
    ensures
        ok == spans_well_formed(spans@, text.spec_bytes()),
{
    let ghost bytes = text.spec_bytes();
    let len = byte_len(text);
    let mut i: usize = 0;
    while i < spans.len()
        invariant
            i <= spans@.len(),
            bytes == text.spec_bytes(),
            len == bytes.len(),
            spans_well_formed(spans@.take(i as int), bytes),
        decreases spans@.len() - i,
    {
        let (start, end) = spans[i];
        let ordered = i == 0 || spans[i - 1].1 <= start;
        let inside = start <= end && end <= len && text.is_char_boundary(start)
            && text.is_char_boundary(end);
        if !(inside && ordered) {
            proof {
                if spans_well_formed(spans@, bytes) {
                    assert(spans@[i as int].0 <= spans@[i as int].1);
                    if i > 0 {
                        assert(spans@[i - 1].1 <= spans@[i as int].0);
                    }
                }
            }
            return false;
        }
        proof {
            let cur = spans@.take(i as int);
            let next = spans@.take(i + 1);
            assert forall|a: int| 0 <= a < next.len() implies {
                &&& (#[trigger] next[a]).0 <= next[a].1 <= bytes.len()
                &&& is_char_boundary(bytes, next[a].0 as int)
                &&& is_char_boundary(bytes, next[a].1 as int)
            } by {
                if a < i {
                    assert(next[a] == cur[a]);
                }
            }
            assert forall|a: int, b: int| 0 <= a < b < next.len() implies (#[trigger] next[a]).1 <= (
            #[trigger] next[b]).0 by {
                if b == i {
                    if a < i - 1 {
                        assert(cur[a].1 <= cur[i - 1].0);
                    }
                    assert(cur[i - 1].0 <= cur[i - 1].1);
                } else {
                    assert(cur[a].1 <= cur[b].0);
                }
            }
        }
        i = i + 1;
    }
    proof {
        assert(spans@.take(i as int) =~= spans@);
    }
    true
}

/// The text that `fields` select from `text`, given where the delimiter
/// matches in it.
pub fn select_transform(text: &str, spans: &Vec<(usize, usize)>, fields: &[FieldRange]) -> (out:
    String)
    requires
        spans_well_formed(spans@, text.spec_bytes()),
    ensures
        out@ == transform_text(spans@, text.spec_bytes(), fields@),
{
    let ghost bytes = text.spec_bytes();
    let len = byte_len(text);
    let count = count_fields(spans);
    proof {
        encode_utf8_valid_utf8(text@);
        is_char_boundary_start_end_of_seq(bytes);
    }
    let mut out = String::new();
    let mut k: usize = 0;
    while k < fields.len()
        invariant
            k <= fields@.len(),
            bytes == text.spec_bytes(),
            len == bytes.len(),
            is_char_boundary(bytes, 0),
            is_char_boundary(bytes, bytes.len() as int),
            spans_well_formed(spans@, bytes),
            count as int == field_count(spans@),
            out@ == transform_text(spans@, bytes, fields@.take(k as int)),
        decreases fields@.len() - k,
    {
        let field = fields[k];
        proof {
            assert(fields@.take(k + 1).drop_last() =~= fields@.take(k as int));
            assert(fields@.take(k + 1).last() == field);
            field.lemma_index_pair_in_bounds(field_count(spans@));
        }
        if let Some((start, stop)) = field.to_index_pair(count) {
            let begin = if start == 0 {
                0
            } else {
                spans[start - 1].1
            };
            let end = if stop < count {
                spans[stop - 1].1
            } else {
                len
            };
            proof {
                if start > 0 && stop < count {
                    assert(spans@[start - 1].1 <= spans@[stop - 1].0);
                }
            }
            match byte_slice(text, begin, end) {
                Some(piece) => {
                    proof {
                        encode_utf8_decode_utf8(piece@);
                    }
                    out.append(piece);
                },
                None => {
                    proof {
                        assert(false);
                    }
                },
            }
        }
        k = k + 1;
    }
    proof {
        assert(fields@.take(k as int) =~= fields@);
    }
    out
}

/// The byte ranges of `text` that `fields` admit for matching, given where
/// the delimiter matches in it.
pub fn select_matching(text: &str, spans: &Vec<(usize, usize)>, fields: &[FieldRange]) -> (out:
    Vec<(usize, usize)>)
    requires
        spans_well_formed(spans@, text.spec_bytes()),
    ensures
        out@ == matching_ranges(spans@, text.spec_bytes().len() as int, fields@),
        ranges_in_text(out@, text.spec_bytes()),
{
    let ghost bytes = text.spec_bytes();
    let len = byte_len(text);
    let count = count_fields(spans);
    proof {
        encode_utf8_valid_utf8(text@);
    }
    let mut out: Vec<(usize, usize)> = Vec::new();
    let mut k: usize = 0;
    while k < fields.len()
        invariant
            k <= fields@.len(),
            bytes == text.spec_bytes(),
            len == bytes.len(),
            spans_well_formed(spans@, bytes),
            count as int == field_count(spans@),
            valid_utf8(bytes),
            out@ == matching_ranges(spans@, len as int, fields@.take(k as int)),
        decreases fields@.len() - k,
    {
        let field = fields[k];
        proof {
            assert(fields@.take(k + 1).drop_last() =~= fields@.take(k as int));
            assert(fields@.take(k + 1).last() == field);
            field.lemma_index_pair_in_bounds(field_count(spans@));
            lemma_matching_range_in_text(spans@, bytes, field);
        }
        if let Some((start, stop)) = field.to_index_pair(count) {
            let begin = if start == 0 {
                0
            } else {
                spans[start - 1].1
            };
            let end = if stop - 1 < spans.len() {
                spans[stop - 1].0
            } else {
                len
            };
            out.push((begin, end));
        }
        k = k + 1;
    }
    proof {
        assert(fields@.take(k as int) =~= fields@);
        lemma_matching_ranges_in_text(spans@, bytes, fields@);
    }
    out
}

/// The text that `fields` select from `text`, cut into fields at the matches
/// of `delimiter`.
pub fn parse_transform_fields(delimiter: &Regex, text: &str, fields: &[FieldRange]) -> (out: String)
    ensures
        out@ == transform_text(delimiter_spans(*delimiter, text@), text.spec_bytes(), fields@),
{
    let spans = find_spans(delimiter, text);
    select_transform(text, &spans, fields)
}

/// The byte ranges of `text` that `fields` admit for matching, with `text` cut
/// into fields at the matches of `delimiter`.
pub fn parse_matching_fields(delimiter: &Regex, text: &str, fields: &[FieldRange]) -> (out: Vec<
    (usize, usize),
>)
    ensures
        out@ == matching_ranges(
            delimiter_spans(*delimiter, text@),
            text.spec_bytes().len() as int,
            fields@,
        ),
        ranges_in_text(out@, text.spec_bytes()),
{
    let spans = find_spans(delimiter, text);
    select_matching(text, &spans, fields)
}

} // verus!
