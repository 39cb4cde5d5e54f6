//! The race screen renderer: translates layout, cursor and per-keystroke
//! correctness into terminal escape-sequence byte buffers, with full and
//! minimal incremental redraws.
use vstd::prelude::*;

use crate::char_iter_from_to_type;
use crate::cursor::CursorModel;
use crate::cursor::lemma_locate_round_trip;
use crate::cursor::locate;
use crate::cursor::reconstruct;
use crate::cursor::reconstruct_spec;
use crate::flat_chars;
use crate::layout::TextLayout;
use crate::layout::layout_spec;
use crate::layout::lemma_flat_line;
use crate::layout::lemma_flat_line_all;
use crate::layout::lemma_layout_lines_ok;
use crate::layout::lemma_total_line_chars;
use crate::layout::line_start;
use crate::layout::lines_ok;
use crate::render::GlyphState;
use crate::render::cursor_down_bytes;
use crate::render::clear_screen_bytes;
use crate::render::dec_bytes;
use crate::render::disable_blink_bytes;
use crate::render::move_cursor_to;
use crate::render::move_cursor_to_col;
use crate::render::move_to_bytes;
use crate::render::move_to_col_bytes;
use crate::render::push_char;
use crate::render::push_cursor_down;
use crate::render::push_clear_screen;
use crate::render::push_dec;
use crate::render::push_disable_blink;
use crate::render::push_all;
use crate::render::push_reset_color;
use crate::render::push_show_cursor;
use crate::render::push_spaces;
use crate::render::push_style;
use crate::render::push_thin_cursor;
use crate::render::lemma_move_to_bytes_len;
use crate::render::lemma_style_bytes_len;
use crate::render::reset_color_bytes;
use crate::render::show_cursor_bytes;
use crate::render::space_bytes;
use crate::render::style_bytes;
use crate::render::thin_cursor_bytes;

verus! {

/// How the character at position `pos` of the expected stream is judged
/// against what has been typed there so far.
pub open spec fn glyph_state(expected: char, typed: Seq<char>, pos: int) -> GlyphState {
    if pos < typed.len() {
        if typed[pos] == expected {
            GlyphState::Correct
        } else {
            GlyphState::Mistake
        }
    } else {
        GlyphState::Pending
    }
}

/// The bytes rendering the expected character at position `pos`: its style,
/// its UTF-8 encoding, and a color reset.
pub open spec fn glyph_bytes(flat: Seq<char>, typed: Seq<char>, pos: int, subtle: bool) -> Seq<
    u8,
> {
    style_bytes(glyph_state(flat[pos], typed, pos), subtle) + vstd::utf8::encode_scalar(
        flat[pos] as u32,
    ) + reset_color_bytes()
}

/// The bytes rendering the expected characters at positions
/// `[start, end)`.
pub open spec fn span_bytes(
    flat: Seq<char>,
    typed: Seq<char>,
    subtle: bool,
    start: int,
    end: int,
) -> Seq<u8>
    decreases end - start,
{
    if start >= end {
        Seq::<u8>::empty()
    } else {
        glyph_bytes(flat, typed, start, subtle) + span_bytes(flat, typed, subtle, start + 1, end)
    }
}

/// Trailing padding that erases stale content up to the field width.
pub open spec fn pad_len(field_w: int, line_len: int) -> nat {
    if line_len < field_w {
        (field_w - line_len) as nat
    } else {
        0
    }
}

/// The smaller of two values.
pub open spec fn min_int(a: int, b: int) -> int {
    if a <= b {
        a
    } else {
        b
    }
}

/// One rendered line: its characters and trailing separator (as far as the
/// stream reaches), padded with spaces to the field width.
pub open spec fn line_chunk_bytes(
    flat: Seq<char>,
    typed: Seq<char>,
    pairs: Seq<(int, int)>,
    li: int,
    subtle: bool,
    field_w: int,
) -> Seq<u8> {
    span_bytes(
        flat,
        typed,
        subtle,
        line_start(pairs, li),
        min_int(line_start(pairs, li) + pairs[li].0 + 1, flat.len() as int),
    ) + space_bytes(pad_len(field_w, pairs[li].0))
}

/// The rendered lines `[from, to)`, each followed by a move to the field's
/// left column and one cursor-down.
pub open spec fn lines_bytes(
    flat: Seq<char>,
    typed: Seq<char>,
    pairs: Seq<(int, int)>,
    from: int,
    to: int,
    subtle: bool,
    field_w: int,
    left: int,
) -> Seq<u8>
    decreases to - from,
{
    if from >= to {
        Seq::<u8>::empty()
    } else {
        line_chunk_bytes(flat, typed, pairs, from, subtle, field_w) + move_to_col_bytes(left)
            + cursor_down_bytes() + lines_bytes(
            flat,
            typed,
            pairs,
            from + 1,
            to,
            subtle,
            field_w,
            left,
        )
    }
}

/// The race screen renderer. It owns the race's word sequence, the derived
/// text layout, the cursor, and the viewport geometry.
pub struct Renderer {
    pub to_type: Vec<String>,
    pub cursor: CursorModel,
    pub layout: TextLayout,
    pub size: (usize, usize),
    pub text_field_top_left: (usize, usize),
    pub text_field_size: (usize, usize),
}

impl Renderer {
    /// The laid-out lines.
    pub open spec fn pairs(self) -> Seq<(int, int)> {
        self.layout.lines()
    }

    /// The expected character stream.
    pub open spec fn flat(self) -> Seq<char> {
        flat_chars(self.to_type.deep_view())
    }

    /// The typed-character count that the cursor stands for.
    pub open spec fn typed_count(self) -> int {
        reconstruct_spec(self.pairs(), self.cursor.abs_line(), self.cursor.col as int)
    }

    /// Internal consistency: the layout is the greedy layout of the words
    /// under the field width, the cursor sits on a line within it, and the
    /// text is addressable by `usize` counts.
    pub open spec fn wf(self) -> bool {
        &&& self.to_type.deep_view().len() > 0
        &&& self.layout.wf()
        &&& lines_ok(self.to_type.deep_view(), self.pairs())
        &&& self.pairs() == layout_spec(self.to_type.deep_view(), self.text_field_size.0 as int)
        &&& 0 <= self.cursor.abs_line() < self.pairs().len()
        &&& self.cursor.col <= self.pairs()[self.cursor.abs_line()].0
        &&& self.flat().len() + 0x10000 <= usize::MAX
        &&& self.pairs().len() <= self.flat().len() + 1
        &&& (forall|i: int|
            0 <= i < self.pairs().len() ==> 0 <= line_start(self.pairs(), i) && line_start(
                self.pairs(),
                i,
            ) + #[trigger] self.pairs()[i].0 <= self.flat().len())
        &&& self.size.0 <= 0xFFFF && self.size.1 <= 0xFFFF
        &&& self.text_field_top_left.0 <= self.size.0 && self.text_field_top_left.1 <= self.size.1
        &&& self.text_field_size.0 <= self.size.0 && self.text_field_size.1 <= self.size.1
    }

    /// The text-field width budget: four fifths of the terminal width.
    pub open spec fn spec_field_width(w: int) -> int {
        4 * w / 5
    }

    /// Computes four fifths of `w` without intermediate overflow.
    fn field_width(w: usize) -> (r: usize)
        ensures
            r as int == Self::spec_field_width(w as int),
            r <= w,
    {
        let r = w / 5 * 4 + w % 5 * 4 / 5;
        proof {
            assert(r as int == 4 * w as int / 5) by (nonlinear_arith)
                requires
                    r == (w as int / 5) * 4 + (w as int % 5) * 4 / 5,
            ;
            assert(4 * w as int / 5 <= w as int) by (nonlinear_arith);
        }
        r
    }

    /// Builds the renderer for a race over `to_type` on a `w` by `h`
    /// terminal: text field sized and centered from the terminal size, the
    /// greedy layout computed, the cursor at the first character.
    pub fn new(to_type: Vec<String>, w: usize, h: usize) -> (r: Renderer)
        requires
            to_type.len() > 0,
            flat_chars(to_type.deep_view()).len() + 0x10000 <= usize::MAX,
            w <= 0xFFFF,
            h <= 0xFFFF,
        ensures
            r.wf(),
            r.to_type == to_type,
            r.size == (w, h),
            r.text_field_size.0 as int == Self::spec_field_width(w as int),
            r.text_field_size.1 == h / 2,
            r.cursor.col == 0 && r.cursor.line == 0 && r.cursor.scroll == 0,
            r.typed_count() == 0,
    {
        let fw = Self::field_width(w);
        let fh = h / 2;
        let layout = TextLayout::compute(&to_type, fw);
        proof {
            lemma_layout_lines_ok(to_type.deep_view(), fw as int);
            lemma_flat_line_all(to_type.deep_view(), layout.lines());
            assert(layout.lines()[0].1 >= 1);
            assert(line_start(layout.lines(), 0) == 0);
        }
        Renderer {
            to_type,
            cursor: CursorModel { col: 0, line: 0, scroll: 0 },
            layout,
            size: (w, h),
            text_field_top_left: (w / 2 - fw / 2, h / 2 - fh / 2),
            text_field_size: (fw, fh),
        }
    }

    /// Recomputes geometry, layout and cursor for a new terminal size. The
    /// typed-character count is recovered from the old cursor and located
    /// afresh in the new layout, so an in-progress race is not disrupted by
    /// the rewrap; the scroll offset restarts at the top.
    #[verifier::rlimit(100)]
    #[verifier::spinoff_prover]
    pub fn resize(&mut self, w: usize, h: usize)
        requires
            old(self).wf(),
            w <= 0xFFFF,
            h <= 0xFFFF,
        ensures
            final(self).wf(),
            final(self).to_type == old(self).to_type,
            final(self).size == (w, h),
            final(self).text_field_size.0 as int == Self::spec_field_width(w as int),
            final(self).text_field_size.1 == h / 2,
            final(self).cursor.scroll == 0,
            final(self).typed_count() == old(self).typed_count(),
    {
        proof {
            lemma_flat_line(self.to_type.deep_view(), self.pairs(), self.cursor.abs_line());
            lemma_total_line_chars(self.to_type.deep_view(), self.pairs());
        }
        let n = self.layout.line_lens.len();
        proof {
            assert(self.cursor.abs_line() < n as int);
        }
        let abs = self.cursor.scroll + self.cursor.line;
        let typed_len = reconstruct(&self.layout, abs, self.cursor.col);
        let fw = Self::field_width(w);
        let fh = h / 2;
        self.size = (w, h);
        self.text_field_size = (fw, fh);
        self.text_field_top_left = (w / 2 - fw / 2, h / 2 - fh / 2);
        self.layout = TextLayout::compute(&self.to_type, fw);
        proof {
            lemma_layout_lines_ok(self.to_type.deep_view(), fw as int);
            lemma_flat_line_all(self.to_type.deep_view(), self.layout.lines());
            lemma_total_line_chars(self.to_type.deep_view(), self.layout.lines());
            assert(forall|i: int|
                0 <= i < self.layout.lines().len() ==> #[trigger] self.layout.lines()[i].0 >= 0);
            lemma_locate_round_trip(self.layout.lines(), typed_len as int);
        }
        let pos = locate(&self.layout, typed_len);
        self.cursor = CursorModel { col: pos.1, line: pos.0, scroll: 0 };
    }

    /// The elapsed-time readout text: whole seconds, a dot, and two
    /// hundredth digits.
    pub open spec fn time_text_bytes(millis: nat) -> Seq<u8> {
        dec_bytes(millis / 1000) + seq![46u8] + seq![
            (48 + (millis % 1000) / 100) as u8,
            (48 + (millis % 1000) / 10 % 10) as u8,
        ]
    }

    /// The column that centers a readout of length `l` on a width `w`.
    pub open spec fn center_col(w: int, l: int) -> int {
        if l <= w {
            (w - l) / 2
        } else {
            0
        }
    }

    /// The time readout positioned centered near the top of the screen.
    pub open spec fn spec_time_buf(self, millis: nat) -> Seq<u8> {
        move_to_bytes(
            Self::center_col(self.size.0 as int, Self::time_text_bytes(millis).len() as int),
            1,
        ) + Self::time_text_bytes(millis)
    }

    /// Builds the centered elapsed-time readout.
    fn time_buf(&self, millis: u64) -> (r: Vec<u8>)
        ensures
            r@ == self.spec_time_buf(millis as nat),
    {
        let mut text: Vec<u8> = Vec::new();
        push_dec(&mut text, (millis / 1000) as u128);
        text.push(46);
        text.push(48 + (millis % 1000 / 100) as u8);
        text.push(48 + (millis % 1000 / 10 % 10) as u8);
        proof {
            assert(text@ =~= Self::time_text_bytes(millis as nat));
        }
        let l = text.len();
        let col = if l <= self.size.0 {
            (self.size.0 - l) / 2
        } else {
            0
        };
        let mut r = move_cursor_to(col, 1);
        push_all(&mut r, &text);
        proof {
            assert(r@ =~= self.spec_time_buf(millis as nat));
        }
        r
    }

    /// The bytes `render_time` writes: the readout, then the cursor put
    /// back at its logical place in the text field.
    pub open spec fn spec_render_time(self, millis: nat) -> Seq<u8> {
        self.spec_time_buf(millis) + move_to_bytes(
            self.text_field_top_left.0 + self.cursor.col,
            self.text_field_top_left.1 + self.cursor.line,
        )
    }

    /// Rewrites only the elapsed-time readout, leaving the text field
    /// untouched; the cursor is repositioned to its logical place.
    pub fn render_time(&self, millis: u64) -> (r: Vec<u8>)
        requires
            self.wf(),
        ensures
            r@ == self.spec_render_time(millis as nat),
    {
        let mut r = self.time_buf(millis);
        let m = move_cursor_to(
            self.text_field_top_left.0 + self.cursor.col,
            self.text_field_top_left.1 + self.cursor.line,
        );
        push_all(&mut r, &m);
        r
    }
}

/// Rendering one more position extends a span at its right end.
proof fn lemma_span_snoc(flat: Seq<char>, typed: Seq<char>, subtle: bool, s: int, e: int)
    requires
        s <= e,
    ensures
        span_bytes(flat, typed, subtle, s, e + 1) == span_bytes(flat, typed, subtle, s, e)
            + glyph_bytes(flat, typed, e, subtle),
    decreases e - s,
{
    if s == e {
        assert(span_bytes(flat, typed, subtle, s + 1, s + 1) == Seq::<u8>::empty());
        assert(span_bytes(flat, typed, subtle, s, s + 1) =~= span_bytes(flat, typed, subtle, s, s)
            + glyph_bytes(flat, typed, s, subtle));
    } else {
        lemma_span_snoc(flat, typed, subtle, s + 1, e);
        assert(span_bytes(flat, typed, subtle, s, e + 1) =~= span_bytes(flat, typed, subtle, s, e)
            + glyph_bytes(flat, typed, e, subtle));
    }
}

/// Rendering one more line extends a line run at its bottom.
proof fn lemma_lines_snoc(
    flat: Seq<char>,
    typed: Seq<char>,
    pairs: Seq<(int, int)>,
    from: int,
    to: int,
    subtle: bool,
    field_w: int,
    left: int,
)
    requires
        from <= to,
    ensures
        lines_bytes(flat, typed, pairs, from, to + 1, subtle, field_w, left) == lines_bytes(
            flat,
            typed,
            pairs,
            from,
            to,
            subtle,
            field_w,
            left,
        ) + line_chunk_bytes(flat, typed, pairs, to, subtle, field_w) + move_to_col_bytes(left)
            + cursor_down_bytes(),
    decreases to - from,
{
    if from == to {
        assert(lines_bytes(flat, typed, pairs, to + 1, to + 1, subtle, field_w, left) == Seq::<
            u8,
        >::empty());
        assert(lines_bytes(flat, typed, pairs, from, to + 1, subtle, field_w, left)
            =~= lines_bytes(flat, typed, pairs, from, to, subtle, field_w, left)
            + line_chunk_bytes(flat, typed, pairs, to, subtle, field_w) + move_to_col_bytes(left)
            + cursor_down_bytes());
    } else {
        lemma_lines_snoc(flat, typed, pairs, from + 1, to, subtle, field_w, left);
        assert(lines_bytes(flat, typed, pairs, from, to + 1, subtle, field_w, left)
            =~= lines_bytes(flat, typed, pairs, from, to, subtle, field_w, left)
            + line_chunk_bytes(flat, typed, pairs, to, subtle, field_w) + move_to_col_bytes(left)
            + cursor_down_bytes());
    }
}

/// Appends one rendered line: the expected characters from `start` for the
/// line length plus its trailing separator (as far as the stream reaches),
/// each styled by comparison with what was typed there, padded with spaces
/// to the field width.
fn push_line_chunk(
    buf: &mut Vec<u8>,
    flat: &Vec<char>,
    typed: &Vec<char>,
    start: usize,
    line_len: usize,
    subtle: bool,
    field_w: usize,
)
    requires
        start <= flat@.len(),
    ensures
        final(buf)@ == old(buf)@ + span_bytes(
            flat@,
            typed@,
            subtle,
            start as int,
            min_int(start + line_len + 1, flat@.len() as int),
        ) + space_bytes(pad_len(field_w as int, line_len as int)),
{
    let end: usize = if line_len < flat.len() - start {
        start + line_len + 1
    } else {
        flat.len()
    };
    proof {
        assert(end as int == min_int(start + line_len + 1, flat@.len() as int));
    }
    let mut q: usize = start;
    while q < end
        invariant
            start <= q <= end <= flat@.len(),
            buf@ == old(buf)@ + span_bytes(flat@, typed@, subtle, start as int, q as int),
        decreases end - q,
    {
        let exp = flat[q];
        let g: GlyphState = if q < typed.len() {
            if typed[q] == exp {
                GlyphState::Correct
            } else {
                GlyphState::Mistake
            }
        } else {
            GlyphState::Pending
        };
        proof {
            assert(g == glyph_state(flat@[q as int], typed@, q as int));
        }
        push_style(buf, g, subtle);
        push_char(buf, exp);
        push_reset_color(buf);
        proof {
            lemma_span_snoc(flat@, typed@, subtle, start as int, q as int);
            assert(buf@ =~= old(buf)@ + span_bytes(flat@, typed@, subtle, start as int, q + 1));
        }
        q = q + 1;
    }
    let pad: usize = if line_len < field_w {
        field_w - line_len
    } else {
        0
    };
    push_spaces(buf, pad);
    proof {
        assert(final(buf)@ =~= old(buf)@ + span_bytes(
            flat@,
            typed@,
            subtle,
            start as int,
            end as int,
        ) + space_bytes(pad_len(field_w as int, line_len as int)));
    }
}

/// Appends the primary lines `[from, to)`, each followed by a move to the
/// field's left column and one cursor-down; returns the stream position of
/// line `to`.
#[verifier::rlimit(100)]
#[verifier::spinoff_prover]
fn push_main_lines(
    buf: &mut Vec<u8>,
    flat: &Vec<char>,
    typed: &Vec<char>,
    layout: &TextLayout,
    from: usize,
    to: usize,
    start_pos: usize,
    field_w: usize,
    left: usize,
) -> (r: usize)
    requires
        layout.wf(),
        from <= to <= layout.line_lens@.len(),
        from < layout.line_lens@.len() ==> start_pos as int == line_start(
            layout.lines(),
            from as int,
        ),
        forall|i: int|
            0 <= i < layout.lines().len() ==> 0 <= line_start(layout.lines(), i) && line_start(
                layout.lines(),
                i,
            ) + #[trigger] layout.lines()[i].0 <= flat@.len(),
        flat@.len() <= usize::MAX,
    ensures
        final(buf)@ == old(buf)@ + lines_bytes(
            flat@,
            typed@,
            layout.lines(),
            from as int,
            to as int,
            false,
            field_w as int,
            left as int,
        ),
        to < layout.line_lens@.len() ==> r as int == line_start(layout.lines(), to as int),
{
    let ghost pairs = layout.lines();
    let n = layout.line_lens.len();
    let mut li: usize = from;
    let mut p: usize = start_pos;
    proof {
        assert(lines_bytes(
            flat@,
            typed@,
            pairs,
            from as int,
            from as int,
            false,
            field_w as int,
            left as int,
        ) == Seq::<u8>::empty());
        assert(buf@ =~= old(buf)@ + Seq::<u8>::empty());
    }
    while li < to
        invariant
            layout.wf(),
            pairs == layout.lines(),
            from <= li <= to <= n,
            n == pairs.len(),
            flat@.len() <= usize::MAX,
            forall|i: int|
                0 <= i < pairs.len() ==> 0 <= line_start(pairs, i) && line_start(pairs, i)
                    + #[trigger] pairs[i].0 <= flat@.len(),
            li < n ==> p as int == line_start(pairs, li as int),
            buf@ == old(buf)@ + lines_bytes(
                flat@,
                typed@,
                pairs,
                from as int,
                li as int,
                false,
                field_w as int,
                left as int,
            ),
        decreases to - li,
    {
        proof {
            assert(line_start(pairs, li as int) + pairs[li as int].0 <= flat@.len());
        }
        push_line_chunk(buf, flat, typed, p, layout.line_lens[li], false, field_w);
        let m = move_cursor_to_col(left);
        push_all(buf, &m);
        push_cursor_down(buf);
        proof {
            lemma_lines_snoc(
                flat@,
                typed@,
                pairs,
                from as int,
                li as int,
                false,
                field_w as int,
                left as int,
            );
            assert(buf@ =~= old(buf)@ + lines_bytes(
                flat@,
                typed@,
                pairs,
                from as int,
                li + 1,
                false,
                field_w as int,
                left as int,
            ));
            assert(line_start(pairs, li + 1) == line_start(pairs, li as int) + pairs[li as int].0
                + 1);
        }
        if li + 1 < n {
            proof {
                assert(0 <= line_start(pairs, li + 1) && line_start(pairs, li + 1) + pairs[li
                    + 1].0 <= flat@.len());
            }
            p = p + layout.line_lens[li] + 1;
        }
        li = li + 1;
    }
    p
}

impl Renderer {
    /// The visible window of the text field: a subdued context line above
    /// when scrolled down, the primary lines, and a subdued context line
    /// below when more text follows, each padded to the field width.
    pub open spec fn spec_text_field(self, typed: Seq<char>) -> Seq<u8> {
        let pairs = self.pairs();
        let flat = self.flat();
        let n = pairs.len() as int;
        let fw = self.text_field_size.0 as int;
        let fh = self.text_field_size.1 as int;
        let left = self.text_field_top_left.0 as int;
        let scroll = self.cursor.scroll as int;
        let at_bottom = scroll + fh >= n;
        let ctx_top: int = if scroll > 0 {
            1
        } else {
            0
        };
        let ctx_bot: int = if at_bottom {
            0
        } else {
            1
        };
        let take = if fh - ctx_top - ctx_bot >= 0 {
            fh - ctx_top - ctx_bot
        } else {
            0
        };
        let main_from = scroll + ctx_top;
        let main_to = min_int(main_from + take, n);
        move_to_bytes(left, self.text_field_top_left.1 as int) + (
        if scroll > 0 {
            line_chunk_bytes(flat, typed, pairs, scroll, true, fw) + move_to_col_bytes(left)
                + cursor_down_bytes()
        } else {
            Seq::<u8>::empty()
        }) + lines_bytes(flat, typed, pairs, main_from, main_to, false, fw, left) + (
        if !at_bottom && main_to < n {
            line_chunk_bytes(flat, typed, pairs, main_to, true, fw)
        } else {
            Seq::<u8>::empty()
        })
    }

    /// Builds the text-field window bytes for the current scroll position.
    #[verifier::rlimit(100)]
    #[verifier::spinoff_prover]
    pub fn text_field_buf(&self, typed: &Vec<char>) -> (r: Vec<u8>)
        requires
            self.wf(),
        ensures
            r@ == self.spec_text_field(typed@),
    {
        let ghost pairs = self.pairs();
        let ghost flatspec = self.flat();
        let flat = char_iter_from_to_type(&self.to_type);
        let n = self.layout.line_lens.len();
        let fw = self.text_field_size.0;
        let fh = self.text_field_size.1;
        let left = self.text_field_top_left.0;
        let scroll = self.cursor.scroll;
        proof {
            assert(scroll < n);
            assert(line_start(pairs, scroll as int) + pairs[scroll as int].0 <= flatspec.len());
        }
        let at_bottom: bool = fh >= n - scroll;
        proof {
            assert(at_bottom == (scroll + fh >= n));
        }
        let mut buf = move_cursor_to(left, self.text_field_top_left.1);
        let mut li: usize = scroll;
        let mut p: usize = reconstruct(&self.layout, scroll, 0);
        let ghost top_ctx: Seq<u8> = if scroll > 0 {
            line_chunk_bytes(flatspec, typed@, pairs, scroll as int, true, fw as int)
                + move_to_col_bytes(left as int) + cursor_down_bytes()
        } else {
            Seq::<u8>::empty()
        };
        if scroll > 0 {
            push_line_chunk(&mut buf, &flat, typed, p, self.layout.line_lens[li], true, fw);
            let m = move_cursor_to_col(left);
            push_all(&mut buf, &m);
            push_cursor_down(&mut buf);
            proof {
                assert(line_start(pairs, li + 1) == line_start(pairs, li as int)
                    + pairs[li as int].0 + 1);
            }
            if li + 1 < n {
                p = p + self.layout.line_lens[li] + 1;
            }
            li = li + 1;
        }
        let ghost head = move_to_bytes(left as int, self.text_field_top_left.1 as int) + top_ctx;
        proof {
            assert(buf@ =~= head);
        }
        let mut take: usize = fh;
        if scroll > 0 && take > 0 {
            take = take - 1;
        }
        if !at_bottom && take > 0 {
            take = take - 1;
        }
        let main_from = li;
        let main_to: usize = if take >= n - main_from {
            n
        } else {
            main_from + take
        };
        proof {
            let ctx_top: int = if scroll > 0 { 1int } else { 0int };
            let ctx_bot: int = if at_bottom { 0int } else { 1int };
            let take_s = if fh as int - ctx_top - ctx_bot >= 0 { fh as int - ctx_top - ctx_bot } else { 0int };
            assert(take as int == take_s);
            assert(main_from as int == scroll + ctx_top);
            assert(main_to as int == min_int(main_from as int + take_s, n as int));
        }
        p = push_main_lines(&mut buf, &flat, typed, &self.layout, main_from, main_to, p, fw, left);
        let ghost mainseq = lines_bytes(
            flatspec,
            typed@,
            pairs,
            main_from as int,
            main_to as int,
            false,
            fw as int,
            left as int,
        );
        proof {
            assert(buf@ =~= head + mainseq);
        }
        let ghost bot: Seq<u8> = if !at_bottom && main_to < n {
            line_chunk_bytes(flatspec, typed@, pairs, main_to as int, true, fw as int)
        } else {
            Seq::<u8>::empty()
        };
        if !at_bottom && main_to < n {
            proof {
                assert(line_start(pairs, main_to as int) + pairs[main_to as int].0
                    <= flatspec.len());
            }
            push_line_chunk(&mut buf, &flat, typed, p, self.layout.line_lens[main_to], true, fw);
        }
        proof {
            assert(buf@ =~= head + mainseq + bot);
            assert(self.spec_text_field(typed@) =~= head + mainseq + bot);
        }
        buf
    }

    /// The bytes of a full redraw: clear the screen, show and restyle the
    /// cursor, emit the visible text-field window and the time readout,
    /// then put the cursor at its logical place.
    pub open spec fn spec_render_full(self, typed: Seq<char>, millis: nat) -> Seq<u8> {
        clear_screen_bytes() + show_cursor_bytes() + disable_blink_bytes() + thin_cursor_bytes()
            + self.spec_text_field(typed) + self.spec_time_buf(millis) + move_to_bytes(
            self.text_field_top_left.0 + self.cursor.col,
            self.text_field_top_left.1 + self.cursor.line,
        )
    }

    /// Builds a full redraw of the race screen.
    pub fn render_full(&self, typed: &Vec<char>, millis: u64) -> (r: Vec<u8>)
        requires
            self.wf(),
        ensures
            r@ == self.spec_render_full(typed@, millis as nat),
    {
        let mut r: Vec<u8> = Vec::new();
        push_clear_screen(&mut r);
        push_show_cursor(&mut r);
        push_disable_blink(&mut r);
        push_thin_cursor(&mut r);
        let tf = self.text_field_buf(typed);
        push_all(&mut r, &tf);
        let tb = self.time_buf(millis);
        push_all(&mut r, &tb);
        let m = move_cursor_to(
            self.text_field_top_left.0 + self.cursor.col,
            self.text_field_top_left.1 + self.cursor.line,
        );
        push_all(&mut r, &m);
        proof {
            assert(r@ =~= self.spec_render_full(typed@, millis as nat));
        }
        r
    }
}

impl Renderer {
    /// After typing past a line's end, the view scrolls when the cursor has
    /// passed the midpoint of the visible field and more lines remain below.
    pub open spec fn scrolls_on_wrap(self) -> bool {
        self.cursor.line >= self.text_field_size.1 / 2 && self.cursor.scroll
            + self.text_field_size.1 < self.pairs().len()
    }

    /// The bytes of the minimal incremental redraw for one keystroke, given
    /// the renderer before (`self`) and after (`post`) the keystroke.
    pub open spec fn spec_char_typed(self, c: char, typed: Seq<char>, post: Renderer) -> Seq<u8> {
        (if self.cursor.col < self.pairs()[self.cursor.abs_line()].0 {
            style_bytes(
                if c == self.flat()[self.typed_count()] {
                    GlyphState::Correct
                } else {
                    GlyphState::Mistake
                },
                false,
            ) + vstd::utf8::encode_scalar(self.flat()[self.typed_count()] as u32)
                + reset_color_bytes()
        } else {
            (if c != ' ' {
                style_bytes(GlyphState::Mistake, false) + seq![32u8] + reset_color_bytes()
            } else {
                Seq::<u8>::empty()
            }) + (if self.scrolls_on_wrap() {
                post.spec_text_field(typed)
            } else {
                Seq::<u8>::empty()
            })
        }) + move_to_bytes(
            post.text_field_top_left.0 + post.cursor.col,
            post.text_field_top_left.1 + post.cursor.line,
        )
    }

    /// The minimal incremental redraw for one keystroke. When the cursor is
    /// past the current line's length, the keystroke stands for the line's
    /// trailing separator: a mistake marker is emitted only when the typed
    /// character was not a space, the cursor wraps to the next line, and the
    /// view scrolls (redrawing the text field) per the scrolling policy.
    /// Otherwise exactly the one expected character under the cursor is
    /// recolored, correct or mistaken by comparison with the keystroke, and
    /// the column advances. Either way the cursor ends one typed character
    /// further, and a mistake is shown exactly when the keystroke mismatches
    /// the expected stream.
    #[verifier::rlimit(100)]
    #[verifier::spinoff_prover]
    pub fn render_char_typed(&mut self, c: char, typed: &Vec<char>) -> (r: Vec<u8>)
        requires
            old(self).wf(),
            old(self).typed_count() < old(self).flat().len(),
        ensures
            final(self).wf(),
            final(self).to_type == old(self).to_type,
            final(self).layout == old(self).layout,
            final(self).size == old(self).size,
            final(self).text_field_top_left == old(self).text_field_top_left,
            final(self).text_field_size == old(self).text_field_size,
            final(self).typed_count() == old(self).typed_count() + 1,
            r@ == old(self).spec_char_typed(c, typed@, *final(self)),
            (old(self).cursor.col < old(self).pairs()[old(self).cursor.abs_line()].0 || !old(
                self,
            ).scrolls_on_wrap()) ==> r@.len() <= 128,
            old(self).cursor.col < old(self).pairs()[old(self).cursor.abs_line()].0 ==> {
                &&& final(self).cursor.col == old(self).cursor.col + 1
                &&& final(self).cursor.line == old(self).cursor.line
                &&& final(self).cursor.scroll == old(self).cursor.scroll
                &&& r@ == style_bytes(
                    if c == old(self).flat()[old(self).typed_count()] {
                        GlyphState::Correct
                    } else {
                        GlyphState::Mistake
                    },
                    false,
                ) + vstd::utf8::encode_scalar(
                    old(self).flat()[old(self).typed_count()] as u32,
                ) + reset_color_bytes() + move_to_bytes(
                    final(self).text_field_top_left.0 + final(self).cursor.col,
                    final(self).text_field_top_left.1 + final(self).cursor.line,
                )
            },
            old(self).cursor.col >= old(self).pairs()[old(self).cursor.abs_line()].0 ==> {
                &&& old(self).flat()[old(self).typed_count()] == ' '
                &&& final(self).cursor.col == 0
                &&& (if old(self).scrolls_on_wrap() {
                    final(self).cursor.scroll == old(self).cursor.scroll + 1
                        && final(self).cursor.line == old(self).cursor.line
                } else {
                    final(self).cursor.scroll == old(self).cursor.scroll
                        && final(self).cursor.line == old(self).cursor.line + 1
                })
                &&& r@ == (if c != ' ' {
                    style_bytes(GlyphState::Mistake, false) + seq![32u8] + reset_color_bytes()
                } else {
                    Seq::<u8>::empty()
                }) + (if old(self).scrolls_on_wrap() {
                    final(self).spec_text_field(typed@)
                } else {
                    Seq::<u8>::empty()
                }) + move_to_bytes(
                    final(self).text_field_top_left.0 + final(self).cursor.col,
                    final(self).text_field_top_left.1 + final(self).cursor.line,
                )
            },
    {
        let ghost pairs = self.pairs();
        let ghost flatspec = self.flat();
        let ghost t = self.typed_count();
        let n = self.layout.line_lens.len();
        let abs = self.cursor.scroll + self.cursor.line;
        proof {
            lemma_flat_line(self.to_type.deep_view(), pairs, abs as int);
        }
        let l = self.layout.line_lens[abs];
        let mut buf: Vec<u8> = Vec::new();
        if self.cursor.col >= l {
            proof {
                assert(self.cursor.col == l);
                assert(t == line_start(pairs, abs as int) + l);
                // were this the last line, the count would already equal the
                // total, which the precondition rules out
                assert(abs + 1 < n);
                assert(flatspec[t] == ' ');
            }
            if c != ' ' {
                push_style(&mut buf, GlyphState::Mistake, false);
                buf.push(32);
                push_reset_color(&mut buf);
            }
            let ghost marker = buf@;
            proof {
                assert(marker =~= if c != ' ' {
                    style_bytes(GlyphState::Mistake, false) + seq![32u8] + reset_color_bytes()
                } else {
                    Seq::<u8>::empty()
                });
                assert(line_start(pairs, abs + 1) == line_start(pairs, abs as int) + l + 1);
            }
            let scrolls: bool = self.cursor.line >= self.text_field_size.1 / 2
                && self.text_field_size.1 < n - self.cursor.scroll;
            proof {
                assert(scrolls == old(self).scrolls_on_wrap());
            }
            if scrolls {
                self.cursor = CursorModel {
                    col: 0,
                    line: self.cursor.line,
                    scroll: self.cursor.scroll + 1,
                };
                let tf = self.text_field_buf(typed);
                push_all(&mut buf, &tf);
            } else {
                self.cursor = CursorModel {
                    col: 0,
                    line: self.cursor.line + 1,
                    scroll: self.cursor.scroll,
                };
            }
            let m = move_cursor_to(
                self.text_field_top_left.0 + self.cursor.col,
                self.text_field_top_left.1 + self.cursor.line,
            );
            push_all(&mut buf, &m);
            proof {
                assert(buf@ =~= marker + (if old(self).scrolls_on_wrap() {
                    final(self).spec_text_field(typed@)
                } else {
                    Seq::<u8>::empty()
                }) + move_to_bytes(
                    final(self).text_field_top_left.0 + final(self).cursor.col,
                    final(self).text_field_top_left.1 + final(self).cursor.line,
                ));
                if !old(self).scrolls_on_wrap() {
                    lemma_style_bytes_len(GlyphState::Mistake, false);
                    reveal(reset_color_bytes);
                    lemma_move_to_bytes_len(
                        final(self).text_field_top_left.0 + final(self).cursor.col,
                        final(self).text_field_top_left.1 + final(self).cursor.line,
                    );
                    assert(buf@.len() <= 128);
                }
            }
        } else {
            let ch: char = match crate::cursor::char_under(
                &self.layout,
                &self.to_type,
                abs,
                self.cursor.col,
            ) {
                Some(ch) => ch,
                None => vstd::pervasive::unreached(),
            };
            proof {
                assert(ch == flatspec[t]);
            }
            let g: GlyphState = if c == ch {
                GlyphState::Correct
            } else {
                GlyphState::Mistake
            };
            push_style(&mut buf, g, false);
            push_char(&mut buf, ch);
            push_reset_color(&mut buf);
            self.cursor = CursorModel {
                col: self.cursor.col + 1,
                line: self.cursor.line,
                scroll: self.cursor.scroll,
            };
            let m = move_cursor_to(
                self.text_field_top_left.0 + self.cursor.col,
                self.text_field_top_left.1 + self.cursor.line,
            );
            push_all(&mut buf, &m);
            proof {
                assert(buf@ =~= style_bytes(g, false) + vstd::utf8::encode_scalar(ch as u32)
                    + reset_color_bytes() + move_to_bytes(
                    final(self).text_field_top_left.0 + final(self).cursor.col,
                    final(self).text_field_top_left.1 + final(self).cursor.line,
                ));
                lemma_style_bytes_len(g, false);
                assert(vstd::utf8::encode_scalar(ch as u32).len() <= 4);
                reveal(reset_color_bytes);
                lemma_move_to_bytes_len(
                    final(self).text_field_top_left.0 + final(self).cursor.col,
                    final(self).text_field_top_left.1 + final(self).cursor.line,
                );
                assert(buf@.len() <= 128);
            }
        }
        buf
    }
}

} // verus!
