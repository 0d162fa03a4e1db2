//! From byte offsets to line and character positions, and back.
//!
//! A text is modelled as its sequence of UTF-8 bytes. Lines are separated by the
//! byte `NEWLINE`; both coordinates of a position are counted from zero, and the
//! character coordinate is a distance in bytes from the start of the line.

use vstd::prelude::*;
use vstd::string::StringSliceAdditionalSpecFns;

verus! {

/// The byte that ends a line.
pub const NEWLINE: u8 = 10;

/// A place in a text, as an editor names it.
#[derive(Clone, Copy, Debug, PartialEq, Eq, Structural)]
pub struct LinePosition {
    pub line: usize,
    pub character: usize,
}

/// Mathematical value of a `LinePosition`.
pub struct PositionView {
    pub line: nat,
    pub character: nat,
}

impl View for LinePosition {
    type V = PositionView;

    open spec fn view(&self) -> PositionView {
        PositionView { line: self.line as nat, character: self.character as nat }
    }
}

/// The extent of a failure in a text: the bytes from `start` up to `end`.
#[derive(Clone, Copy, Debug, PartialEq, Eq, Structural)]
pub struct ByteSpan {
    pub start: usize,
    pub end: usize,
}

impl ByteSpan {
    /// A span is usable with a text of `len` bytes when its ends are in order and
    /// neither lies beyond the end of the text.
    pub open spec fn within(self, len: nat) -> bool {
        self.start <= self.end <= len
    }

    /// The empty span at the start of a text, which stands in for a missing location.
    pub fn origin() -> (span: ByteSpan)
        ensures
            span == (ByteSpan { start: 0, end: 0 }),
            forall|len: nat| span.within(len),
    {
        ByteSpan { start: 0, end: 0 }
    }

    /// Tells whether the span is usable with a text of `len` bytes.
    pub fn is_within(&self, len: usize) -> (ok: bool)
        ensures
            ok == self.within(len as nat),
    {
        self.start <= self.end && self.end <= len
    }
}

/// A pair of positions: where something starts and where it ends.
#[derive(Clone, Copy, Debug, PartialEq, Eq, Structural)]
pub struct PositionRange {
    pub start: LinePosition,
    pub end: LinePosition,
}

/// Mathematical value of a `PositionRange`.
pub struct RangeView {
    pub start: PositionView,
    pub end: PositionView,
}

impl View for PositionRange {
    type V = RangeView;

    open spec fn view(&self) -> RangeView {
        RangeView { start: self.start@, end: self.end@ }
    }
}

pub open spec fn is_newline(byte: u8) -> bool {
    byte == NEWLINE
}

/// `is_newline` as a predicate value, for use with `Seq::filter`.
pub open spec fn newline_pred() -> spec_fn(u8) -> bool {
    |byte: u8| is_newline(byte)
}

/// Number of line breaks among the first `offset` bytes of `text`.
pub open spec fn newlines_before(text: Seq<u8>, offset: int) -> nat {
    text.take(offset).filter(newline_pred()).len()
}

/// Offset at which the line that holds `offset` begins: the place just after the
/// last line break among the first `offset` bytes, or 0 where there is none.
pub open spec fn line_start(text: Seq<u8>, offset: int) -> int
    decreases offset,
{
    if offset <= 0 {
        0
    } else if is_newline(text[offset - 1]) {
        offset
    } else {
        line_start(text, offset - 1)
    }
}

/// No line break lies in `text` from `from` up to `to`.
pub open spec fn unbroken(text: Seq<u8>, from: int, to: int) -> bool {
    forall|i: int| from <= i < to ==> !is_newline(#[trigger] text[i])
}

/// The position of byte offset `offset` in `text`.
pub open spec fn position_of(text: Seq<u8>, offset: int) -> PositionView {
    PositionView {
        line: newlines_before(text, offset),
        character: (offset - line_start(text, offset)) as nat,
    }
}

/// The positions of the two ends of `span` in `text`.
pub open spec fn range_of(text: Seq<u8>, span: ByteSpan) -> RangeView {
    RangeView {
        start: position_of(text, span.start as int),
        end: position_of(text, span.end as int),
    }
}

/// `offset` is a place in `text` and lies at `pos`.
pub open spec fn lies_at(text: Seq<u8>, offset: int, pos: PositionView) -> bool {
    0 <= offset <= text.len() && position_of(text, offset) == pos
}

/// The offset in `text` that lies at `pos`, where there is one.
pub open spec fn offset_of(text: Seq<u8>, pos: PositionView) -> Option<int> {
    if exists|offset: int| lies_at(text, offset, pos) {
        Some(choose|offset: int| lies_at(text, offset, pos))
    } else {
        None
    }
}

/// Nothing precedes offset 0, so no line break does: the start of every text, and
/// so the only offset of an empty one, lies at line 0, character 0.
pub proof fn lemma_newlines_empty(text: Seq<u8>)
    ensures
        newlines_before(text, 0) == 0,
        position_of(text, 0) == (PositionView { line: 0, character: 0 }),
{
    reveal(Seq::filter);
    assert(text.take(0) =~= Seq::<u8>::empty());
}

/// Extending a prefix by one byte adds one to the count exactly when that byte is
/// a line break.
pub proof fn lemma_newlines_step(text: Seq<u8>, offset: int)
    requires
        0 <= offset < text.len(),
    ensures
        is_newline(text[offset]) ==> newlines_before(text, offset + 1) == newlines_before(
            text,
            offset,
        ) + 1,
        !is_newline(text[offset]) ==> newlines_before(text, offset + 1) == newlines_before(
            text,
            offset,
        ),
{
    reveal(Seq::filter);
    assert(text.take(offset + 1).drop_last() =~= text.take(offset));
}

/// The count of line breaks never falls as the offset grows, and it stays the same
/// from `a` to `b` exactly when no line break lies between them.
pub proof fn lemma_newlines_monotone(text: Seq<u8>, a: int, b: int)
    requires
        0 <= a <= b <= text.len(),
    ensures
        newlines_before(text, a) <= newlines_before(text, b),
        newlines_before(text, b) - newlines_before(text, a) <= b - a,
        newlines_before(text, a) == newlines_before(text, b) <==> unbroken(text, a, b),
    decreases b - a,
{
    if a < b {
        lemma_newlines_monotone(text, a, b - 1);
        lemma_newlines_step(text, b - 1);
        if unbroken(text, a, b) {
            assert(!is_newline(text[b - 1]));
            assert(unbroken(text, a, b - 1));
        }
    }
}

/// What `line_start` names is the beginning of a line: it is not behind `offset`,
/// the byte before it (if any) is a line break, and no line break lies between it
/// and `offset`. It is the only offset of which all that holds.
pub proof fn lemma_line_start_characterization(text: Seq<u8>, offset: int, start: int)
    requires
        0 <= offset <= text.len(),
    ensures
        start == line_start(text, offset) <==> {
            &&& 0 <= start <= offset
            &&& start == 0 || is_newline(text[start - 1])
            &&& unbroken(text, start, offset)
        },
    decreases offset,
{
    if offset > 0 {
        lemma_line_start_characterization(text, offset - 1, start);
        if is_newline(text[offset - 1]) {
            if 0 <= start < offset && unbroken(text, start, offset) {
                assert(!is_newline(text[offset - 1]));
            }
        } else {
            if unbroken(text, start, offset - 1) && start <= offset - 1 {
                assert(unbroken(text, start, offset));
            }
            if unbroken(text, start, offset) {
                assert(unbroken(text, start, offset - 1));
            }
        }
    }
}

/// Two offsets with no line break between them are on the same line.
pub proof fn lemma_unbroken_same_line(text: Seq<u8>, a: int, b: int)
    requires
        0 <= a <= b <= text.len(),
        unbroken(text, a, b),
    ensures
        line_start(text, b) == line_start(text, a),
        newlines_before(text, b) == newlines_before(text, a),
    decreases b - a,
{
    lemma_newlines_monotone(text, a, b);
    if a < b {
        assert(!is_newline(text[b - 1]));
        assert(unbroken(text, a, b - 1));
        lemma_unbroken_same_line(text, a, b - 1);
    }
}

/// No two offsets of one text lie at the same position.
pub proof fn lemma_position_injective(text: Seq<u8>, a: int, b: int)
    requires
        0 <= a <= text.len(),
        0 <= b <= text.len(),
        position_of(text, a) == position_of(text, b),
    ensures
        a == b,
{
    let (low, high) = if a <= b {
        (a, b)
    } else {
        (b, a)
    };
    lemma_newlines_monotone(text, low, high);
    lemma_unbroken_same_line(text, low, high);
    lemma_line_start_characterization(text, low, line_start(text, low));
    lemma_line_start_characterization(text, high, line_start(text, high));
}

/// Taking the position of an offset and looking that position up again gives the
/// offset back.
pub proof fn lemma_position_round_trip(text: Seq<u8>, offset: int)
    requires
        0 <= offset <= text.len(),
    ensures
        offset_of(text, position_of(text, offset)) == Some(offset),
{
    let pos = position_of(text, offset);
    assert(lies_at(text, offset, pos));
    let found = choose|o: int| lies_at(text, o, pos);
    lemma_position_injective(text, found, offset);
}

/// A position names at most one offset, so an offset that lies there is the one
/// that `offset_of` gives.
pub proof fn lemma_offset_of_unique(text: Seq<u8>, offset: int, pos: PositionView)
    requires
        lies_at(text, offset, pos),
    ensures
        offset_of(text, pos) == Some(offset),
{
    lemma_position_round_trip(text, offset);
}

/// Gives the line and character at which an editor shows a byte offset.
///
/// The line is the number of line breaks before the offset, and the character is
/// the distance in bytes from the start of that line. The end of the text is a
/// valid offset; an offset beyond it is not, and is left to the caller to rule
/// out.
pub fn position_at(text: &str, offset: usize) -> (pos: LinePosition)
    requires
        offset <= text.spec_bytes().len(),
    ensures
        pos@ == position_of(text.spec_bytes(), offset as int),
        pos.line == newlines_before(text.spec_bytes(), offset as int),
        pos.character == offset - line_start(text.spec_bytes(), offset as int),
{
    let bytes = text.as_bytes();
    let mut line: usize = 0;
    let mut start: usize = 0;
    let mut i: usize = 0;
    proof {
        lemma_newlines_empty(bytes@);
    }
    while i < offset
        invariant
            i <= offset <= bytes@.len(),
            line == newlines_before(bytes@, i as int),
            start == line_start(bytes@, i as int),
            start <= i,
            line <= i,
        decreases offset - i,
    {
        proof {
            lemma_newlines_step(bytes@, i as int);
        }
        if bytes[i] == NEWLINE {
            line = line + 1;
            start = i + 1;
        }
        i = i + 1;
    }
    LinePosition { line, character: offset - start }
}

/// Gives the positions of both ends of a span, each worked out on its own
/// against the same text.
pub fn range_at(text: &str, span: ByteSpan) -> (range: PositionRange)
    requires
        span.within(text.spec_bytes().len()),
    ensures
        range@ == range_of(text.spec_bytes(), span),
{
    PositionRange { start: position_at(text, span.start), end: position_at(text, span.end) }
}

/// Looks up the byte offset that lies at a position.
///
/// Gives `None` where the text has no such place: the line does not exist, or it
/// is shorter than the character asks for.
pub fn offset_at(text: &str, pos: LinePosition) -> (found: Option<usize>)
    ensures
        match found {
            Some(offset) => lies_at(text.spec_bytes(), offset as int, pos@),
            None => forall|offset: int| !lies_at(text.spec_bytes(), offset, pos@),
        },
        match found {
            Some(offset) => offset_of(text.spec_bytes(), pos@) == Some(offset as int),
            None => offset_of(text.spec_bytes(), pos@) is None,
        },
{
    let bytes = text.as_bytes();
    let len = bytes.len();
    let mut line: usize = 0;
    let mut i: usize = 0;
    proof {
        lemma_newlines_empty(bytes@);
    }
    while line < pos.line
        invariant
            bytes@ == text.spec_bytes(),
            i <= len == bytes@.len(),
            line <= pos.line,
            line == newlines_before(bytes@, i as int),
            line == pos.line ==> i == 0 || is_newline(bytes@[i - 1]),
        decreases len - i,
    {
        if i >= len {
            proof {
                assert forall|o: int| !lies_at(bytes@, o, pos@) by {
                    if 0 <= o <= bytes@.len() {
                        lemma_newlines_monotone(bytes@, o, len as int);
                    }
                }
            }
            return None;
        }
        proof {
            lemma_newlines_step(bytes@, i as int);
        }
        if bytes[i] == NEWLINE {
            line = line + 1;
        }
        i = i + 1;
    }
    let start = i;
    proof {
        lemma_line_start_characterization(bytes@, start as int, start as int);
    }
    if pos.character > len - start {
        proof {
            assert forall|o: int| !lies_at(bytes@, o, pos@) by {
                if lies_at(bytes@, o, pos@) {
                    lemma_same_line_start(bytes@, start as int, o);
                }
            }
        }
        return None;
    }
    let target = start + pos.character;
    let mut j: usize = start;
    while j < target
        invariant
            bytes@ == text.spec_bytes(),
            start <= j <= target <= len == bytes@.len(),
            target == start + pos.character,
            unbroken(bytes@, start as int, j as int),
            start == line_start(bytes@, start as int),
            pos.line == newlines_before(bytes@, start as int),
        decreases target - j,
    {
        if bytes[j] == NEWLINE {
            proof {
                assert forall|o: int| !lies_at(bytes@, o, pos@) by {
                    if lies_at(bytes@, o, pos@) {
                        lemma_same_line_start(bytes@, start as int, o);
                        assert(o == target);
                        lemma_newlines_monotone(bytes@, start as int, o);
                        assert(is_newline(bytes@[j as int]));
                    }
                }
            }
            return None;
        }
        j = j + 1;
    }
    proof {
        lemma_unbroken_same_line(bytes@, start as int, target as int);
        lemma_offset_of_unique(bytes@, target as int, pos@);
    }
    Some(target)
}

/// An offset that has as many line breaks before it as the beginning of a line
/// has lies on that line.
proof fn lemma_same_line_start(text: Seq<u8>, start: int, offset: int)
    requires
        0 <= start <= text.len(),
        0 <= offset <= text.len(),
        start == line_start(text, start),
        newlines_before(text, offset) == newlines_before(text, start),
    ensures
        start <= offset,
        line_start(text, offset) == start,
        unbroken(text, start, offset),
{
    lemma_line_start_characterization(text, start, start);
    if offset < start {
        lemma_newlines_monotone(text, offset, start);
        assert(is_newline(text[start - 1]));
    } else {
        lemma_newlines_monotone(text, start, offset);
        lemma_unbroken_same_line(text, start, offset);
    }
}

} // verus!
