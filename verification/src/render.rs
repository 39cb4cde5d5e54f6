//! Terminal escape-sequence byte buffers shared by the race and menu
//! renderers: cursor movement, colors, and plain-number formatting.
use vstd::prelude::*;

pub mod menu;
pub mod race;

verus! {

/// The decimal digits of `n`, most significant first, as ASCII bytes.
pub open spec fn dec_bytes(n: nat) -> Seq<u8>
    decreases n,
{
    if n < 10 {
        seq![(48 + n) as u8]
    } else {
        dec_bytes(n / 10).push((48 + n % 10) as u8)
    }
}

/// Appends the decimal digits of `n` to the buffer.
pub fn push_dec(buf: &mut Vec<u8>, n: u128)
    ensures
        final(buf)@ == old(buf)@ + dec_bytes(n as nat),
    decreases n,
{
    if n < 10 {
        buf.push(48 + n as u8);
        proof {
            assert(final(buf)@ =~= old(buf)@ + dec_bytes(n as nat));
        }
    } else {
        push_dec(buf, n / 10);
        buf.push(48 + (n % 10) as u8);
        proof {
            assert(final(buf)@ =~= old(buf)@ + dec_bytes(n as nat));
        }
    }
}

/// `n` spaces.
pub open spec fn space_bytes(n: nat) -> Seq<u8> {
    Seq::new(n, |i: int| 32u8)
}

/// Appends `n` spaces to the buffer.
pub fn push_spaces(buf: &mut Vec<u8>, n: usize)
    ensures
        final(buf)@ == old(buf)@ + space_bytes(n as nat),
{
    let mut i: usize = 0;
    while i < n
        invariant
            i <= n,
            buf@ == old(buf)@ + space_bytes(i as nat),
        decreases n - i,
    {
        buf.push(32);
        proof {
            assert(old(buf)@ + space_bytes((i + 1) as nat) =~= (old(buf)@ + space_bytes(i as nat)).push(
                32u8,
            ));
        }
        i = i + 1;
    }
}

/// Absolute cursor positioning, 1-based: `ESC [ row+1 ; col+1 H`.
pub open spec fn move_to_bytes(col: int, row: int) -> Seq<u8> {
    seq![27u8, 91u8] + dec_bytes((row + 1) as nat) + seq![59u8] + dec_bytes((col + 1) as nat)
        + seq![72u8]
}

/// Relative column positioning: `ESC [ col+1 G`.
pub open spec fn move_to_col_bytes(col: int) -> Seq<u8> {
    seq![27u8, 91u8] + dec_bytes((col + 1) as nat) + seq![71u8]
}

/// The escape sequence that moves the cursor to the 1-based cell
/// `(row+1, col+1)`.
pub fn move_cursor_to(col: usize, row: usize) -> (r: Vec<u8>)
    ensures
        r@ == move_to_bytes(col as int, row as int),
{
    let mut r: Vec<u8> = Vec::new();
    r.push(27);
    r.push(91);
    push_dec(&mut r, row as u128 + 1);
    r.push(59);
    push_dec(&mut r, col as u128 + 1);
    r.push(72);
    proof {
        assert(r@ =~= move_to_bytes(col as int, row as int));
    }
    r
}

/// The escape sequence that moves the cursor to the 1-based column `col+1`
/// of the current row.
pub fn move_cursor_to_col(col: usize) -> (r: Vec<u8>)
    ensures
        r@ == move_to_col_bytes(col as int),
{
    let mut r: Vec<u8> = Vec::new();
    r.push(27);
    r.push(91);
    push_dec(&mut r, col as u128 + 1);
    r.push(71);
    proof {
        assert(r@ =~= move_to_col_bytes(col as int));
    }
    r
}

/// Clear the whole screen: `ESC [ 2 J`.
#[verifier::opaque]
pub open spec fn clear_screen_bytes() -> Seq<u8> {
    seq![27u8, 91u8, 50u8, 74u8]
}

/// Show the cursor: `ESC [ ? 2 5 h`.
#[verifier::opaque]
pub open spec fn show_cursor_bytes() -> Seq<u8> {
    seq![27u8, 91u8, 63u8, 50u8, 53u8, 104u8]
}

/// Hide the cursor: `ESC [ ? 2 5 l`.
#[verifier::opaque]
pub open spec fn hide_cursor_bytes() -> Seq<u8> {
    seq![27u8, 91u8, 63u8, 50u8, 53u8, 108u8]
}

/// Make the cursor steady (no blinking): `ESC [ ? 1 2 l`.
#[verifier::opaque]
pub open spec fn disable_blink_bytes() -> Seq<u8> {
    seq![27u8, 91u8, 63u8, 49u8, 50u8, 108u8]
}

/// A thin bar cursor shape: `ESC [ 5 SP q`.
#[verifier::opaque]
pub open spec fn thin_cursor_bytes() -> Seq<u8> {
    seq![27u8, 91u8, 53u8, 32u8, 113u8]
}

/// Move the cursor down one line: `ESC [ B`.
#[verifier::opaque]
pub open spec fn cursor_down_bytes() -> Seq<u8> {
    seq![27u8, 91u8, 66u8]
}

/// Reset all colors and styles: `ESC [ 0 m`.
#[verifier::opaque]
pub open spec fn reset_color_bytes() -> Seq<u8> {
    seq![27u8, 91u8, 48u8, 109u8]
}

/// How one expected character is judged against what was typed at its
/// position: still untyped, typed correctly, or mistyped.
pub enum GlyphState {
    Pending,
    Correct,
    Mistake,
}

/// The SGR style introducing one rendered character, in the primary or the
/// subdued (off-screen-context) palette.
#[verifier::opaque]
pub open spec fn style_bytes(g: GlyphState, subtle: bool) -> Seq<u8> {
    match g {
        // italic white / subdued gray italic
        GlyphState::Pending => if subtle {
            seq![27u8, 91u8, 51u8, 59u8, 51u8, 56u8, 59u8, 53u8, 59u8, 50u8, 52u8, 48u8, 109u8]
        } else {
            seq![27u8, 91u8, 51u8, 59u8, 51u8, 55u8, 109u8]
        },
        // bold bright white / subdued gray
        GlyphState::Correct => if subtle {
            seq![27u8, 91u8, 49u8, 59u8, 51u8, 56u8, 59u8, 53u8, 59u8, 50u8, 52u8, 50u8, 109u8]
        } else {
            seq![27u8, 91u8, 49u8, 59u8, 57u8, 55u8, 109u8]
        },
        // bold on a dark red background, full or subdued
        GlyphState::Mistake => if subtle {
            seq![
                27u8, 91u8, 49u8, 59u8, 51u8, 56u8, 59u8, 53u8, 59u8, 50u8, 52u8, 50u8, 59u8,
                52u8, 56u8, 59u8, 50u8, 59u8, 54u8, 52u8, 59u8, 48u8, 59u8, 48u8, 109u8,
            ]
        } else {
            seq![
                27u8, 91u8, 49u8, 59u8, 57u8, 55u8, 59u8, 52u8, 56u8, 59u8, 50u8, 59u8, 57u8,
                54u8, 59u8, 49u8, 54u8, 59u8, 49u8, 54u8, 109u8,
            ]
        },
    }
}


/// Powers of ten.
pub open spec fn pow10(k: nat) -> nat
    decreases k,
{
    if k == 0 {
        1
    } else {
        10 * pow10((k - 1) as nat)
    }
}

/// A value below `10^k` has at most `k` decimal digits.
pub proof fn lemma_dec_bytes_len(n: nat, k: nat)
    requires
        k >= 1,
        n < pow10(k),
    ensures
        dec_bytes(n).len() <= k,
    decreases k,
{
    if n < 10 {
    } else {
        assert(pow10(0) == 1);
        assert(pow10(1) == 10);
        if k == 1 {
            assert(false);
        }
        assert(pow10(k) == 10 * pow10((k - 1) as nat));
        assert(n / 10 < pow10((k - 1) as nat)) by (nonlinear_arith)
            requires
                n < pow10(k),
                pow10(k) == 10 * pow10((k - 1) as nat),
        ;
        lemma_dec_bytes_len(n / 10, (k - 1) as nat);
    }
}

/// Every machine-word count has at most twenty decimal digits.
pub proof fn lemma_dec_bytes_len_usize(n: nat)
    requires
        n <= usize::MAX as nat + 1,
    ensures
        dec_bytes(n).len() <= 20,
{
    reveal_with_fuel(pow10, 21);
    assert(pow10(20) == 100000000000000000000);
    lemma_dec_bytes_len(n, 20);
}

/// A cursor move sequence takes at most forty-six bytes.
pub proof fn lemma_move_to_bytes_len(col: int, row: int)
    requires
        0 <= col <= usize::MAX,
        0 <= row <= usize::MAX,
    ensures
        move_to_bytes(col, row).len() <= 46,
{
    lemma_dec_bytes_len_usize((row + 1) as nat);
    lemma_dec_bytes_len_usize((col + 1) as nat);
}

/// No SGR style above is longer than twenty-five bytes.
pub proof fn lemma_style_bytes_len(g: GlyphState, subtle: bool)
    ensures
        style_bytes(g, subtle).len() <= 25,
{
    reveal(style_bytes);
}

/// Appends the bytes of `other` to `buf`.
pub fn push_all(buf: &mut Vec<u8>, other: &Vec<u8>)
    ensures
        final(buf)@ == old(buf)@ + other@,
{
    let mut i: usize = 0;
    while i < other.len()
        invariant
            i <= other@.len(),
            buf@ == old(buf)@ + other@.take(i as int),
        decreases other@.len() - i,
    {
        buf.push(other[i]);
        proof {
            assert(old(buf)@ + other@.take(i + 1) =~= (old(buf)@ + other@.take(i as int)).push(
                other@[i as int],
            ));
        }
        i = i + 1;
    }
    proof {
        assert(other@.take(other@.len() as int) =~= other@);
    }
}

/// Appends the SGR style for one rendered character.
pub fn push_style(buf: &mut Vec<u8>, g: GlyphState, subtle: bool)
    ensures
        final(buf)@ == old(buf)@ + style_bytes(g, subtle),
{
    let s: Vec<u8> = match g {
        GlyphState::Pending => if subtle {
            vec![27u8, 91u8, 51u8, 59u8, 51u8, 56u8, 59u8, 53u8, 59u8, 50u8, 52u8, 48u8, 109u8]
        } else {
            vec![27u8, 91u8, 51u8, 59u8, 51u8, 55u8, 109u8]
        },
        GlyphState::Correct => if subtle {
            vec![27u8, 91u8, 49u8, 59u8, 51u8, 56u8, 59u8, 53u8, 59u8, 50u8, 52u8, 50u8, 109u8]
        } else {
            vec![27u8, 91u8, 49u8, 59u8, 57u8, 55u8, 109u8]
        },
        GlyphState::Mistake => if subtle {
            vec![
                27u8, 91u8, 49u8, 59u8, 51u8, 56u8, 59u8, 53u8, 59u8, 50u8, 52u8, 50u8, 59u8,
                52u8, 56u8, 59u8, 50u8, 59u8, 54u8, 52u8, 59u8, 48u8, 59u8, 48u8, 109u8,
            ]
        } else {
            vec![
                27u8, 91u8, 49u8, 59u8, 57u8, 55u8, 59u8, 52u8, 56u8, 59u8, 50u8, 59u8, 57u8,
                54u8, 59u8, 49u8, 54u8, 59u8, 49u8, 54u8, 109u8,
            ]
        },
    };
    proof {
        reveal(style_bytes);
        assert(s@ =~= style_bytes(g, subtle));
    }
    push_all(buf, &s);
}

/// Appends one of the fixed escape sequences above, identified by its spec.
pub fn push_clear_screen(buf: &mut Vec<u8>)
    ensures
        final(buf)@ == old(buf)@ + clear_screen_bytes(),
{
    let s: Vec<u8> = vec![27u8, 91u8, 50u8, 74u8];
    proof {
        reveal(clear_screen_bytes);
        assert(s@ =~= clear_screen_bytes());
    }
    push_all(buf, &s);
}

/// Appends the show-cursor sequence.
pub fn push_show_cursor(buf: &mut Vec<u8>)
    ensures
        final(buf)@ == old(buf)@ + show_cursor_bytes(),
{
    let s: Vec<u8> = vec![27u8, 91u8, 63u8, 50u8, 53u8, 104u8];
    proof {
        reveal(show_cursor_bytes);
        assert(s@ =~= show_cursor_bytes());
    }
    push_all(buf, &s);
}

/// Appends the hide-cursor sequence.
pub fn push_hide_cursor(buf: &mut Vec<u8>)
    ensures
        final(buf)@ == old(buf)@ + hide_cursor_bytes(),
{
    let s: Vec<u8> = vec![27u8, 91u8, 63u8, 50u8, 53u8, 108u8];
    proof {
        reveal(hide_cursor_bytes);
        assert(s@ =~= hide_cursor_bytes());
    }
    push_all(buf, &s);
}

/// Appends the steady-cursor (blink off) sequence.
pub fn push_disable_blink(buf: &mut Vec<u8>)
    ensures
        final(buf)@ == old(buf)@ + disable_blink_bytes(),
{
    let s: Vec<u8> = vec![27u8, 91u8, 63u8, 49u8, 50u8, 108u8];
    proof {
        reveal(disable_blink_bytes);
        assert(s@ =~= disable_blink_bytes());
    }
    push_all(buf, &s);
}

/// Appends the thin-cursor shape sequence.
pub fn push_thin_cursor(buf: &mut Vec<u8>)
    ensures
        final(buf)@ == old(buf)@ + thin_cursor_bytes(),
{
    let s: Vec<u8> = vec![27u8, 91u8, 53u8, 32u8, 113u8];
    proof {
        reveal(thin_cursor_bytes);
        assert(s@ =~= thin_cursor_bytes());
    }
    push_all(buf, &s);
}

/// Appends the cursor-down sequence.
pub fn push_cursor_down(buf: &mut Vec<u8>)
    ensures
        final(buf)@ == old(buf)@ + cursor_down_bytes(),
{
    let s: Vec<u8> = vec![27u8, 91u8, 66u8];
    proof {
        reveal(cursor_down_bytes);
        assert(s@ =~= cursor_down_bytes());
    }
    push_all(buf, &s);
}

/// Appends the color-reset sequence.
pub fn push_reset_color(buf: &mut Vec<u8>)
    ensures
        final(buf)@ == old(buf)@ + reset_color_bytes(),
{
    let s: Vec<u8> = vec![27u8, 91u8, 48u8, 109u8];
    proof {
        reveal(reset_color_bytes);
        assert(s@ =~= reset_color_bytes());
    }
    push_all(buf, &s);
}

/// Appends the UTF-8 encoding of one character.
pub fn push_char(buf: &mut Vec<u8>, c: char)
    ensures
        final(buf)@ == old(buf)@ + vstd::utf8::encode_scalar(c as u32),
{
    proof {
        vstd::utf8::char_is_scalar(c);
    }
    let v = c as u32;
    if v <= 0x7F {
        buf.push(v as u8);
        proof {
            assert(vstd::utf8::encode_scalar(v) == seq![vstd::utf8::leading_byte_width_1(v)]);
            assert(vstd::utf8::leading_byte_width_1(v) == (v & 0x7F) as u8);
            assert(v & 0x7F == v) by (bit_vector)
                requires
                    v <= 0x7F,
            ;
            assert(final(buf)@ =~= old(buf)@ + vstd::utf8::encode_scalar(v));
        }
    } else if v <= 0x7FF {
        buf.push(0xC0 | ((v >> 6) & 0x1F) as u8);
        buf.push(0x80 | (v & 0x3F) as u8);
        proof {
            assert(final(buf)@ =~= old(buf)@ + vstd::utf8::encode_scalar(v));
        }
    } else if v <= 0xFFFF {
        buf.push(0xE0 | ((v >> 12) & 0x0F) as u8);
        buf.push(0x80 | ((v >> 6) & 0x3F) as u8);
        buf.push(0x80 | (v & 0x3F) as u8);
        proof {
            assert(final(buf)@ =~= old(buf)@ + vstd::utf8::encode_scalar(v));
        }
    } else {
        buf.push(0xF0 | ((v >> 18) & 0x7) as u8);
        buf.push(0x80 | ((v >> 12) & 0x3F) as u8);
        buf.push(0x80 | ((v >> 6) & 0x3F) as u8);
        buf.push(0x80 | (v & 0x3F) as u8);
        proof {
            assert(final(buf)@ =~= old(buf)@ + vstd::utf8::encode_scalar(v));
        }
    }
}

} // verus!
