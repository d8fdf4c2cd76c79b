//! The layout of a paragraph: its text, the width it is wrapped to, and
//! where each line starts.
//!
//! Shaping itself is the backend's work. The layout says when a new width
//! calls for shaping, takes the line starts that the shaper reports, and
//! from then on answers every question about lines without the shaper.

use vstd::prelude::*;
use vstd::string::StringSliceAdditionalSpecFns;
use vstd::utf8::{
    encode_utf8, encode_utf8_valid_utf8, is_char_boundary,
    is_char_boundary_iff_not_is_continuation_byte, is_char_boundary_start_end_of_seq, valid_utf8,
    valid_utf8_split,
};
use crate::error::Error;
use crate::hit_test::{band_of, is_nearest_edge, line_at_height, nearest_edge};
use crate::offsets::{
    boundaries_between, is_utf8_offset_of, lemma_boundaries_between, lemma_utf8_offset_ordered,
    list_boundaries, lists_boundaries, map_utf16_offsets, mappable, utf16_offset_of, Boundary,
};
use crate::whitespace::{count_trailing_whitespace, trailing_whitespace};
use crate::width::{width_of_bits, WrapWidth};

verus! {

/// The byte-level measures of one line.
#[derive(Clone, Copy, Debug, PartialEq, Eq, Structural)]
pub struct LineMetric {
    /// Byte offset of the line's first byte.
    pub start_offset: usize,
    /// Byte offset just past the line's last byte, trailing whitespace included.
    pub end_offset: usize,
    /// Number of whitespace bytes at the end of the line.
    pub trailing_whitespace: usize,
}

/// What a request for a width asks of the backend.
#[derive(Clone, Copy, Debug, PartialEq, Eq, Structural)]
pub enum WidthUpdate {
    /// The layout is already wrapped to this width: nothing to do.
    Unchanged,
    /// Shape the paragraph at this width and install the frame.
    Reshape(WrapWidth),
}

/// Where a byte offset lies in the layout.
#[derive(Clone, Copy, Debug, PartialEq, Eq, Structural)]
pub struct TextPosition {
    /// Index of the line that holds the offset.
    pub line: usize,
    /// The offset, clamped to the length of the text.
    pub offset: usize,
}

/// Where a point lies in the layout.
#[derive(Clone, Copy, Debug, PartialEq, Eq, Structural)]
pub struct HitTestPoint {
    /// Index of the line whose band holds the point.
    pub line: usize,
    /// Index, among the character boundaries of that line, of the one
    /// nearest to the point.
    pub edge: usize,
    /// Byte offset of that boundary.
    pub text_position: usize,
    /// Whether the point lies within the frame and within the line.
    pub is_inside: bool,
}

/// The mathematical content of a layout.
pub struct LayoutView {
    /// The text.
    pub text: Seq<char>,
    /// The width that the lines were broken for.
    pub width: WrapWidth,
    /// Byte offset of the start of each line.
    pub line_offsets: Seq<usize>,
}

impl LayoutView {
    /// The text as UTF-8.
    pub open spec fn bytes(self) -> Seq<u8> {
        encode_utf8(self.text)
    }

    /// The first line starts the text, line starts ascend, and each lies on
    /// a character boundary.
    pub open spec fn wf(self) -> bool {
        &&& self.width.wf()
        &&& self.line_offsets.len() >= 1
        &&& self.line_offsets[0] == 0
        &&& forall|i: int, j: int|
            0 <= i < j < self.line_offsets.len() ==> self.line_offsets[i] < self.line_offsets[j]
        &&& forall|i: int|
            0 <= i < self.line_offsets.len() ==> {
                &&& #[trigger] self.line_offsets[i] <= self.bytes().len()
                &&& is_char_boundary(self.bytes(), self.line_offsets[i] as int)
            }
    }

    /// Byte offset just past line `line`: the start of the next line, or the
    /// end of the text for the last line.
    pub open spec fn line_end(self, line: int) -> int
        recommends
            0 <= line < self.line_offsets.len(),
    {
        if line + 1 < self.line_offsets.len() {
            self.line_offsets[line + 1] as int
        } else {
            self.bytes().len() as int
        }
    }

    /// The byte range of line `line`, if there is such a line.
    pub open spec fn line_range(self, line: int) -> Option<(int, int)> {
        if 0 <= line < self.line_offsets.len() {
            Some((self.line_offsets[line] as int, self.line_end(line)))
        } else {
            None
        }
    }

    /// The bytes of line `line`.
    pub open spec fn line_bytes(self, line: int) -> Seq<u8>
        recommends
            0 <= line < self.line_offsets.len(),
    {
        self.bytes().subrange(self.line_offsets[line] as int, self.line_end(line))
    }

    /// The character boundaries of line `line`, from its start to its end.
    pub open spec fn line_boundaries(self, line: int) -> Seq<int>
        recommends
            0 <= line < self.line_offsets.len(),
    {
        boundaries_between(self.bytes(), self.line_offsets[line] as int, self.line_end(line))
    }

    /// The first `n` lines, one after the other.
    pub open spec fn joined_lines(self, n: int) -> Seq<u8>
        recommends
            0 <= n <= self.line_offsets.len(),
        decreases n,
    {
        if n <= 0 {
            Seq::<u8>::empty()
        } else {
            self.joined_lines(n - 1) + self.line_bytes(n - 1)
        }
    }
}

/// A frame whose line starts the text can take: they ascend from zero and
/// lie on character boundaries. A frame without lines is taken too.
pub open spec fn frame_fits(bytes: Seq<u8>, line_starts: Seq<usize>) -> bool {
    &&& mappable(bytes, line_starts)
    &&& line_starts.len() > 0 ==> line_starts[0] == 0
}

/// `line_offsets` are the byte offsets of the UTF-16 `line_starts`. A frame
/// without lines gives the single line that starts the text.
pub open spec fn lines_match(bytes: Seq<u8>, line_starts: Seq<usize>, line_offsets: Seq<usize>) -> bool {
    if line_starts.len() == 0 {
        line_offsets =~= seq![0usize]
    } else {
        &&& line_offsets.len() == line_starts.len()
        &&& forall|i: int|
            0 <= i < line_offsets.len() ==> is_utf8_offset_of(
                bytes,
                line_starts[i] as nat,
                #[trigger] line_offsets[i] as int,
            )
    }
}

/// What a request for a width comes to, for a layout wrapped to `current`.
pub open spec fn width_decision(current: WrapWidth, request: Option<u64>) -> Result<
    WidthUpdate,
    Error,
> {
    match width_of_bits(request) {
        Err(e) => Err(e),
        Ok(w) => if w == current {
            Ok(WidthUpdate::Unchanged)
        } else {
            Ok(WidthUpdate::Reshape(w))
        },
    }
}

/// How installing a frame ends: a bad width is refused first, then line
/// starts that do not fit the text.
pub open spec fn install_outcome(bytes: Seq<u8>, request: Option<u64>, line_starts: Seq<usize>) -> Result<
    (),
    Error,
> {
    match width_of_bits(request) {
        Err(e) => Err(e),
        Ok(_) => if frame_fits(bytes, line_starts) {
            Ok(())
        } else {
            Err(Error::InternalOffsetMismatch)
        },
    }
}

/// `layout` is `text` laid out with a frame: it holds the text, the
/// requested width, and the byte offsets of the frame's lines.
pub open spec fn laid_out(
    text: Seq<char>,
    request: Option<u64>,
    line_starts: Seq<usize>,
    layout: LayoutView,
) -> bool {
    &&& layout.text == text
    &&& width_of_bits(request) == Ok::<WrapWidth, Error>(layout.width)
    &&& lines_match(encode_utf8(text), line_starts, layout.line_offsets)
}

/// A laid-out paragraph.
#[derive(Debug)]
pub struct CoreGraphicsTextLayout {
    string: String,
    line_offsets: Vec<usize>,
    width_constraint: WrapWidth,
}

impl View for CoreGraphicsTextLayout {
    type V = LayoutView;

    closed spec fn view(&self) -> LayoutView {
        LayoutView {
            text: self.string@,
            width: self.width_constraint,
            line_offsets: self.line_offsets@,
        }
    }
}

impl Clone for CoreGraphicsTextLayout {
    /// A copy with the same text, width and lines.
    fn clone(&self) -> (copy: Self)
        ensures
            copy@ == self@,
    {
        proof {
            use_type_invariant(self);
        }
        CoreGraphicsTextLayout {
            string: self.string.clone(),
            line_offsets: self.line_offsets.clone(),
            width_constraint: self.width_constraint,
        }
    }
}

/// A character boundary of the text is one of each prefix that reaches it.
proof fn lemma_boundary_in_prefix(bytes: Seq<u8>, start: int, end: int)
    requires
        valid_utf8(bytes),
        is_char_boundary(bytes, start),
        is_char_boundary(bytes, end),
        0 <= start <= end <= bytes.len(),
    ensures
        valid_utf8(bytes.subrange(0, end)),
        is_char_boundary(bytes.subrange(0, end), start),
{
    let prefix = bytes.subrange(0, end);
    valid_utf8_split(bytes, end);
    if start == end {
        is_char_boundary_start_end_of_seq(prefix);
    } else {
        is_char_boundary_iff_not_is_continuation_byte(bytes, start);
        assert(prefix[start] == bytes[start]);
        is_char_boundary_iff_not_is_continuation_byte(prefix, start);
    }
}

/// The lines of a layout partition its text: one after the other, with no
/// gap and no overlap, they give the text back.
pub proof fn lemma_lines_partition(layout: LayoutView)
    requires
        layout.wf(),
    ensures
        layout.joined_lines(layout.line_offsets.len() as int) == layout.bytes(),
        forall|i: int|
            0 <= i < layout.line_offsets.len() - 1 ==> layout.line_end(i)
                == #[trigger] layout.line_offsets[i + 1],
{
    let count = layout.line_offsets.len() as int;
    lemma_joined_lines_prefix(layout, count);
    assert(layout.bytes().subrange(0, layout.bytes().len() as int) =~= layout.bytes());
}

/// The first `n` lines together are the text up to the end of the last of
/// them.
proof fn lemma_joined_lines_prefix(layout: LayoutView, n: int)
    requires
        layout.wf(),
        1 <= n <= layout.line_offsets.len(),
    ensures
        layout.joined_lines(n) == layout.bytes().subrange(0, layout.line_end(n - 1)),
    decreases n,
{
    let bytes = layout.bytes();
    let start = layout.line_offsets[n - 1] as int;
    let end = layout.line_end(n - 1);
    if n < layout.line_offsets.len() {
        assert(layout.line_offsets[n - 1] < layout.line_offsets[n]);
        assert(layout.line_offsets[n] <= bytes.len());
    }
    assert(start <= end <= bytes.len());
    if n == 1 {
        assert(layout.joined_lines(0) =~= Seq::<u8>::empty());
        assert(layout.joined_lines(1) =~= bytes.subrange(0, end));
    } else {
        lemma_joined_lines_prefix(layout, n - 1);
        assert(layout.line_end(n - 2) == start);
        assert(bytes.subrange(0, start) + bytes.subrange(start, end) =~= bytes.subrange(0, end));
    }
}

/// Laying out is a function of the text and the frame: two sets of line
/// offsets that match the same frame are the same.
pub proof fn lemma_relayout_deterministic(
    bytes: Seq<u8>,
    line_starts: Seq<usize>,
    first: Seq<usize>,
    second: Seq<usize>,
)
    requires
        valid_utf8(bytes),
        lines_match(bytes, line_starts, first),
        lines_match(bytes, line_starts, second),
    ensures
        first == second,
{
    if line_starts.len() > 0 {
        assert forall|i: int| 0 <= i < first.len() implies first[i] == second[i] by {
            lemma_utf8_offset_ordered(
                bytes,
                line_starts[i] as nat,
                first[i] as int,
                line_starts[i] as nat,
                second[i] as int,
            );
        }
    }
    assert(first =~= second);
}

/// Wrapping again to the width just installed changes nothing: the request
/// asks for no shaping, and installing the same frame once more would leave
/// the same layout.
pub proof fn lemma_rewrap_idempotent(
    text: Seq<char>,
    request: Option<u64>,
    line_starts: Seq<usize>,
    once: LayoutView,
    twice: LayoutView,
)
    requires
        laid_out(text, request, line_starts, once),
        laid_out(once.text, request, line_starts, twice),
    ensures
        width_decision(once.width, request) == Ok::<WidthUpdate, Error>(WidthUpdate::Unchanged),
        twice == once,
{
    encode_utf8_valid_utf8(text);
    lemma_relayout_deterministic(
        encode_utf8(text),
        line_starts,
        once.line_offsets,
        twice.line_offsets,
    );
}

/// An offset lies on one line only: the line whose start is at or before
/// it and whose successor, if there is one, starts after it.
pub proof fn lemma_line_of_offset_unique(layout: LayoutView, offset: int, a: int, b: int)
    requires
        layout.wf(),
        0 <= a < layout.line_offsets.len(),
        0 <= b < layout.line_offsets.len(),
        layout.line_offsets[a] <= offset,
        a + 1 < layout.line_offsets.len() ==> offset < layout.line_offsets[a + 1],
        layout.line_offsets[b] <= offset,
        b + 1 < layout.line_offsets.len() ==> offset < layout.line_offsets[b + 1],
    ensures
        a == b,
{
    if a < b {
        assert(a + 1 == b || layout.line_offsets[a + 1] < layout.line_offsets[b]);
    }
    if b < a {
        assert(b + 1 == a || layout.line_offsets[b + 1] < layout.line_offsets[a]);
    }
}

/// Every line starts on a character boundary of the text, never inside a
/// multi-byte sequence, and so does every line end.
pub proof fn lemma_lines_on_char_boundaries(layout: LayoutView, line: int)
    requires
        layout.wf(),
        0 <= line < layout.line_offsets.len(),
    ensures
        is_char_boundary(layout.bytes(), layout.line_offsets[line] as int),
        is_char_boundary(layout.bytes(), layout.line_end(line)),
        valid_utf8(layout.line_bytes(line)),
{
    let bytes = layout.bytes();
    let start = layout.line_offsets[line] as int;
    let end = layout.line_end(line);
    encode_utf8_valid_utf8(layout.text);
    is_char_boundary_start_end_of_seq(bytes);
    if line + 1 < layout.line_offsets.len() {
        assert(layout.line_offsets[line] < layout.line_offsets[line + 1]);
        assert(is_char_boundary(bytes, layout.line_offsets[line + 1] as int));
    }
    lemma_boundary_in_prefix(bytes, start, end);
    let prefix = bytes.subrange(0, end);
    valid_utf8_split(prefix, start);
    assert(prefix.subrange(start, prefix.len() as int) =~= bytes.subrange(start, end));
}

impl CoreGraphicsTextLayout {
    /// The layout's invariant: it holds of every layout there is.
    #[verifier::type_invariant]
    pub open spec fn wf(&self) -> bool {
        self@.wf()
    }

    /// Lays out `text` from the first frame that the shaper made for it at
    /// the requested width.
    pub fn new(text: &str, width: Option<u64>, line_starts: &Vec<usize>) -> (r: Result<Self, Error>)
        ensures
            r matches Ok(layout) ==> layout.wf() && laid_out(text@, width, line_starts@, layout@),
            r is Ok <==> install_outcome(encode_utf8(text@), width, line_starts@) is Ok,
            r matches Err(e) ==> install_outcome(encode_utf8(text@), width, line_starts@) == Err::<
                (),
                Error,
            >(e),
    {
        let string = text.to_owned();
        proof {
            encode_utf8_valid_utf8(text@);
            is_char_boundary_start_end_of_seq(encode_utf8(text@));
        }
        let mut layout = CoreGraphicsTextLayout {
            string,
            line_offsets: vec![0usize],
            width_constraint: WrapWidth::Unconstrained,
        };
        match layout.install_frame(width, line_starts) {
            Ok(()) => Ok(layout),
            Err(e) => Err(e),
        }
    }

    /// Decides what a request for a width asks for. The same width again
    /// asks for nothing; a negative width or a NaN is refused.
    pub fn update_width(&self, new_width: Option<u64>) -> (r: Result<WidthUpdate, Error>)
        ensures
            r == width_decision(self@.width, new_width),
    {
        match WrapWidth::from_bits(new_width) {
            Err(e) => Err(e),
            Ok(w) => {
                if w == self.width_constraint {
                    Ok(WidthUpdate::Unchanged)
                } else {
                    Ok(WidthUpdate::Reshape(w))
                }
            },
        }
    }

    /// Takes the frame that the shaper made at `width`: the width and the
    /// line offsets change together, or nothing changes.
    pub fn install_frame(&mut self, width: Option<u64>, line_starts: &Vec<usize>) -> (r: Result<
        (),
        Error,
    >)
        ensures
            final(self).wf(),
            r == install_outcome(old(self)@.bytes(), width, line_starts@),
            r is Ok ==> laid_out(old(self)@.text, width, line_starts@, final(self)@),
            r is Ok ==> width_decision(final(self)@.width, width) == Ok::<WidthUpdate, Error>(
                WidthUpdate::Unchanged,
            ),
            r is Err ==> final(self)@ == old(self)@,
    {
        proof {
            use_type_invariant(&*self);
        }
        let w = match WrapWidth::from_bits(width) {
            Ok(w) => w,
            Err(e) => {
                return Err(e);
            },
        };
        match self.rebuild_line_offsets(line_starts) {
            Ok(()) => {
                self.width_constraint = w;
                Ok(())
            },
            Err(e) => Err(e),
        }
    }

    /// Works out the byte offset of each line from the UTF-16 offsets at
    /// which the shaper's lines start. On failure the layout is unchanged.
    pub fn rebuild_line_offsets(&mut self, line_starts: &Vec<usize>) -> (r: Result<(), Error>)
        ensures
            final(self).wf(),
            final(self)@.text == old(self)@.text,
            final(self)@.width == old(self)@.width,
            r is Ok <==> frame_fits(old(self)@.bytes(), line_starts@),
            r is Ok ==> lines_match(old(self)@.bytes(), line_starts@, final(self)@.line_offsets),
            r matches Err(e) ==> e == Error::InternalOffsetMismatch && final(self)@ == old(self)@,
    {
        proof {
            use_type_invariant(&*self);
        }
        if line_starts.len() == 0 {
            self.line_offsets = vec![0usize];
            proof {
                encode_utf8_valid_utf8(self.string@);
                is_char_boundary_start_end_of_seq(self@.bytes());
            }
            return Ok(());
        }
        if line_starts[0] != 0 {
            return Err(Error::InternalOffsetMismatch);
        }
        match map_utf16_offsets(self.string.as_str(), line_starts) {
            Ok(offsets) => {
                proof {
                    let bytes = self@.bytes();
                    encode_utf8_valid_utf8(self.string@);
                    is_char_boundary_start_end_of_seq(bytes);
                    assert(bytes.subrange(0, 0) =~= Seq::<u8>::empty());
                    assert(is_utf8_offset_of(bytes, 0, 0));
                    assert(is_utf8_offset_of(bytes, line_starts@[0] as nat, offsets@[0] as int));
                    lemma_utf8_offset_ordered(bytes, 0, 0, 0, offsets@[0] as int);
                }
                self.line_offsets = offsets;
                Ok(())
            },
            Err(e) => Err(e),
        }
    }

    /// The text.
    pub fn text(&self) -> (s: &str)
        ensures
            s@ == self@.text,
    {
        self.string.as_str()
    }

    /// The length of the text in bytes.
    pub fn byte_len(&self) -> (n: usize)
        ensures
            n == self@.bytes().len(),
    {
        self.string.as_str().as_bytes().len()
    }

    /// The width that the lines were broken for.
    pub fn width_constraint(&self) -> (w: WrapWidth)
        ensures
            w == self@.width,
    {
        self.width_constraint
    }

    /// The number of lines: at least one.
    pub fn line_count(&self) -> (n: usize)
        ensures
            n == self@.line_offsets.len(),
            n >= 1,
    {
        proof {
            use_type_invariant(self);
        }
        self.line_offsets.len()
    }

    /// The byte range of `line`, or `None` if there is no such line.
    pub fn line_range(&self, line: usize) -> (r: Option<(usize, usize)>)
        ensures
            r is Some <==> line < self@.line_offsets.len(),
            r matches Some((start, end)) ==> self@.line_range(line as int) == Some(
                (start as int, end as int),
            ),
            r matches Some((start, end)) ==> start <= end <= self@.bytes().len(),
            line == 0 ==> r is Some && r.unwrap().0 == 0,
    {
        proof {
            use_type_invariant(self);
        }
        let count = self.line_offsets.len();
        if line < count {
            let start = self.line_offsets[line];
            let end = if line == count - 1 {
                self.byte_len()
            } else {
                self.line_offsets[line + 1]
            };
            Some((start, end))
        } else {
            None
        }
    }

    /// The text of `line`, or `None` if there is no such line.
    pub fn line_text(&self, line: usize) -> (r: Option<&str>)
        ensures
            r is Some <==> line < self@.line_offsets.len(),
            r matches Some(s) ==> s.spec_bytes() == self@.line_bytes(line as int),
    {
        proof {
            use_type_invariant(self);
        }
        match self.line_range(line) {
            None => None,
            Some((start, end)) => {
                let whole = self.string.as_str();
                proof {
                    let bytes = self@.bytes();
                    assert(bytes == whole.spec_bytes());
                    encode_utf8_valid_utf8(self.string@);
                    is_char_boundary_start_end_of_seq(bytes);
                    assert(is_char_boundary(bytes, self@.line_offsets[line as int] as int));
                    if line + 1 < self@.line_offsets.len() {
                        assert(is_char_boundary(bytes, self@.line_offsets[line + 1] as int));
                    }
                    lemma_boundary_in_prefix(bytes, start as int, end as int);
                }
                let (head, _) = whole.split_at(end);
                let (_, tail) = head.split_at(start);
                proof {
                    let bytes = self@.bytes();
                    assert(tail.spec_bytes() =~= bytes.subrange(start as int, end as int));
                }
                Some(tail)
            },
        }
    }

    /// The byte-level measures of `line`, or `None` if there is no such
    /// line. The first line always exists and starts at offset zero.
    pub fn line_metric(&self, line: usize) -> (r: Option<LineMetric>)
        ensures
            r is Some <==> line < self@.line_offsets.len(),
            r matches Some(m) ==> {
                &&& self@.line_range(line as int) == Some(
                    (m.start_offset as int, m.end_offset as int),
                )
                &&& m.start_offset <= m.end_offset <= self@.bytes().len()
                &&& m.trailing_whitespace == trailing_whitespace(self@.line_bytes(line as int))
                &&& m.trailing_whitespace <= m.end_offset - m.start_offset
            },
            line == 0 ==> r is Some && r.unwrap().start_offset == 0,
    {
        proof {
            use_type_invariant(self);
        }
        let (start_offset, end_offset) = match self.line_range(line) {
            None => {
                return None;
            },
            Some(range) => range,
        };
        let text = match self.line_text(line) {
            None => {
                return None;
            },
            Some(text) => text,
        };
        let trailing_whitespace = count_trailing_whitespace(text.as_bytes());
        proof {
            assert(text.spec_bytes() == self@.line_bytes(line as int));
            assert(self@.line_bytes(line as int).len() == end_offset - start_offset);
        }
        Some(LineMetric { start_offset, end_offset, trailing_whitespace })
    }

    /// Lists the character boundaries of `line` from its start to its end,
    /// each by its offset in bytes and in UTF-16 code units, or gives `None`
    /// if there is no such line.
    pub fn line_boundaries(&self, line: usize) -> (r: Option<Vec<Boundary>>)
        ensures
            r is Some <==> line < self@.line_offsets.len(),
            r matches Some(listed) ==> {
                &&& listed@.len() >= 1
                &&& lists_boundaries(
                    self@.bytes(),
                    self@.line_offsets[line as int] as int,
                    self@.line_end(line as int),
                    listed@,
                )
            },
    {
        match self.line_range(line) {
            None => None,
            Some((start, end)) => {
                let text = self.string.as_str();
                proof {
                    use_type_invariant(self);
                    encode_utf8_valid_utf8(self.string@);
                    lemma_lines_on_char_boundaries(self@, line as int);
                    lemma_boundaries_between(self@.bytes(), start as int, end as int);
                }
                let start16 = utf16_offset_of(text, start);
                Some(list_boundaries(text, start, start16, end))
            },
        }
    }

    /// Finds the character boundary nearest to the point `(x, y)`.
    ///
    /// `bottoms` holds the bottom of each line, from the first to the last;
    /// `edges` holds the position along the line of each character boundary
    /// of the line whose band holds `y`, as `line_boundaries` lists them.
    /// The answer is `None` if either does not fit the layout.
    pub fn hit_test_point(&self, bottoms: &Vec<i64>, edges: &Vec<i64>, x: i64, y: i64) -> (r: Option<
        HitTestPoint,
    >)
        ensures
            r is Some <==> bottoms@.len() == self@.line_offsets.len() && edges@.len()
                == self@.line_boundaries(band_of(bottoms@, y as int)).len(),
            r matches Some(hit) ==> {
                &&& hit.line == band_of(bottoms@, y as int)
                &&& hit.line < self@.line_offsets.len()
                &&& is_nearest_edge(edges@, x as int, hit.edge as int)
                &&& hit.text_position == self@.line_boundaries(hit.line as int)[hit.edge as int]
                &&& hit.is_inside == (0 <= y < bottoms@.last() && edges@.first() <= x
                    < edges@.last())
            },
    {
        proof {
            use_type_invariant(self);
        }
        if bottoms.len() != self.line_offsets.len() {
            return None;
        }
        let line = line_at_height(bottoms, y);
        let listed = match self.line_boundaries(line) {
            Some(listed) => listed,
            None => {
                return None;
            },
        };
        if edges.len() != listed.len() {
            return None;
        }
        let edge = nearest_edge(edges, x);
        let is_inside = 0 <= y && y < bottoms[bottoms.len() - 1] && edges[0] <= x && x < edges[edges.len()
            - 1];
        Some(HitTestPoint { line, edge, text_position: listed[edge].utf8, is_inside })
    }

    /// Finds the line that holds the byte offset `offset`. An offset beyond
    /// the text counts as the end of the text, which lies on the last line.
    pub fn hit_test_text_position(&self, offset: usize) -> (p: TextPosition)
        ensures
            p.offset == (if offset <= self@.bytes().len() {
                offset as int
            } else {
                self@.bytes().len() as int
            }),
            p.line < self@.line_offsets.len(),
            self@.line_offsets[p.line as int] <= p.offset <= self@.line_end(p.line as int),
            p.line + 1 < self@.line_offsets.len() ==> p.offset < self@.line_end(p.line as int),
    {
        proof {
            use_type_invariant(self);
        }
        let len = self.byte_len();
        let clamped = if offset <= len {
            offset
        } else {
            len
        };
        let mut low: usize = 0;
        let mut high: usize = self.line_offsets.len();
        while high - low > 1
            invariant
                self.wf(),
                clamped <= self@.bytes().len(),
                low < high <= self@.line_offsets.len(),
                self@.line_offsets[low as int] <= clamped,
                high < self@.line_offsets.len() ==> clamped < self@.line_offsets[high as int],
            decreases high - low,
        {
            let mid = low + (high - low) / 2;
            if self.line_offsets[mid] <= clamped {
                low = mid;
            } else {
                high = mid;
            }
        }
        TextPosition { line: low, offset: clamped }
    }
}

/// A layout in the making: the text and the width asked for, waiting for
/// the shaper's first frame.
pub struct CoreGraphicsTextLayoutBuilder {
    text: String,
    width: Option<u64>,
}

impl CoreGraphicsTextLayoutBuilder {
    /// The text to lay out.
    pub closed spec fn text(&self) -> Seq<char> {
        self.text@
    }

    /// The width asked for, as given.
    pub closed spec fn requested_width(&self) -> Option<u64> {
        self.width
    }

    /// The text to shape.
    pub fn text_to_shape(&self) -> (s: &str)
        ensures
            s@ == self.text(),
    {
        self.text.as_str()
    }

    /// The width to shape the first frame at, or the reason the request is
    /// refused.
    pub fn width_to_shape(&self) -> (r: Result<WrapWidth, Error>)
        ensures
            r == width_of_bits(self.requested_width()),
            r matches Ok(w) ==> w.wf(),
    {
        WrapWidth::from_bits(self.width)
    }

    /// Finishes the layout with the frame that the shaper made.
    pub fn build(self, line_starts: &Vec<usize>) -> (r: Result<CoreGraphicsTextLayout, Error>)
        ensures
            r matches Ok(layout) ==> layout.wf() && laid_out(
                self.text(),
                self.requested_width(),
                line_starts@,
                layout@,
            ),
            r is Ok <==> install_outcome(
                encode_utf8(self.text()),
                self.requested_width(),
                line_starts@,
            ) is Ok,
            r matches Err(e) ==> install_outcome(
                encode_utf8(self.text()),
                self.requested_width(),
                line_starts@,
            ) == Err::<(), Error>(e),
    {
        CoreGraphicsTextLayout::new(self.text.as_str(), self.width, line_starts)
    }
}

/// The entry point: makes layout builders.
pub struct CoreGraphicsText;

impl CoreGraphicsText {
    /// Starts a layout of `text` at `width`, the bits of a double, or
    /// unconstrained where no width is given.
    pub fn new_text_layout(&mut self, text: &str, width: Option<u64>) -> (b:
        CoreGraphicsTextLayoutBuilder)
        ensures
            b.text() == text@,
            b.requested_width() == width,
    {
        CoreGraphicsTextLayoutBuilder { text: text.to_owned(), width }
    }
}

} // verus!
