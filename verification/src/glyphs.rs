//! The bitmap font of street-sign text: each glyph is seven rows of pixels,
//! five wide (three for a space), the most significant of the low bits being
//! the leftmost pixel.

use vstd::prelude::*;

verus! {

/// The width of a glyph in pixels.
pub open spec fn glyph_width_of(ch: char) -> nat {
    if ch == ' ' {
        3
    } else {
        5
    }
}

/// The rows of a glyph, top first. Capital letters, digits, `-`, `/`, `&`
/// and the space have glyphs of their own; any other character is drawn as a
/// question mark.
pub open spec fn glyph_pattern(ch: char) -> Seq<u8> {
    match ch {
        'A' => seq![0b01110u8, 0b10001u8, 0b10001u8, 0b11111u8, 0b10001u8, 0b10001u8, 0b10001u8],
        'B' => seq![0b11110u8, 0b10001u8, 0b10001u8, 0b11110u8, 0b10001u8, 0b10001u8, 0b11110u8],
        'C' => seq![0b01111u8, 0b10000u8, 0b10000u8, 0b10000u8, 0b10000u8, 0b10000u8, 0b01111u8],
        'D' => seq![0b11110u8, 0b10001u8, 0b10001u8, 0b10001u8, 0b10001u8, 0b10001u8, 0b11110u8],
        'E' => seq![0b11111u8, 0b10000u8, 0b10000u8, 0b11110u8, 0b10000u8, 0b10000u8, 0b11111u8],
        'F' => seq![0b11111u8, 0b10000u8, 0b10000u8, 0b11110u8, 0b10000u8, 0b10000u8, 0b10000u8],
        'G' => seq![0b01111u8, 0b10000u8, 0b10000u8, 0b10111u8, 0b10001u8, 0b10001u8, 0b01111u8],
        'H' => seq![0b10001u8, 0b10001u8, 0b10001u8, 0b11111u8, 0b10001u8, 0b10001u8, 0b10001u8],
        'I' => seq![0b11111u8, 0b00100u8, 0b00100u8, 0b00100u8, 0b00100u8, 0b00100u8, 0b11111u8],
        'J' => seq![0b00111u8, 0b00010u8, 0b00010u8, 0b00010u8, 0b10010u8, 0b10010u8, 0b01100u8],
        'K' => seq![0b10001u8, 0b10010u8, 0b10100u8, 0b11000u8, 0b10100u8, 0b10010u8, 0b10001u8],
        'L' => seq![0b10000u8, 0b10000u8, 0b10000u8, 0b10000u8, 0b10000u8, 0b10000u8, 0b11111u8],
        'M' => seq![0b10001u8, 0b11011u8, 0b10101u8, 0b10101u8, 0b10001u8, 0b10001u8, 0b10001u8],
        'N' => seq![0b10001u8, 0b11001u8, 0b10101u8, 0b10011u8, 0b10001u8, 0b10001u8, 0b10001u8],
        'O' => seq![0b01110u8, 0b10001u8, 0b10001u8, 0b10001u8, 0b10001u8, 0b10001u8, 0b01110u8],
        'P' => seq![0b11110u8, 0b10001u8, 0b10001u8, 0b11110u8, 0b10000u8, 0b10000u8, 0b10000u8],
        'Q' => seq![0b01110u8, 0b10001u8, 0b10001u8, 0b10001u8, 0b10101u8, 0b10010u8, 0b01101u8],
        'R' => seq![0b11110u8, 0b10001u8, 0b10001u8, 0b11110u8, 0b10100u8, 0b10010u8, 0b10001u8],
        'S' => seq![0b01111u8, 0b10000u8, 0b10000u8, 0b01110u8, 0b00001u8, 0b00001u8, 0b11110u8],
        'T' => seq![0b11111u8, 0b00100u8, 0b00100u8, 0b00100u8, 0b00100u8, 0b00100u8, 0b00100u8],
        'U' => seq![0b10001u8, 0b10001u8, 0b10001u8, 0b10001u8, 0b10001u8, 0b10001u8, 0b01110u8],
        'V' => seq![0b10001u8, 0b10001u8, 0b10001u8, 0b10001u8, 0b10001u8, 0b01010u8, 0b00100u8],
        'W' => seq![0b10001u8, 0b10001u8, 0b10001u8, 0b10101u8, 0b10101u8, 0b10101u8, 0b01010u8],
        'X' => seq![0b10001u8, 0b10001u8, 0b01010u8, 0b00100u8, 0b01010u8, 0b10001u8, 0b10001u8],
        'Y' => seq![0b10001u8, 0b10001u8, 0b01010u8, 0b00100u8, 0b00100u8, 0b00100u8, 0b00100u8],
        'Z' => seq![0b11111u8, 0b00001u8, 0b00010u8, 0b00100u8, 0b01000u8, 0b10000u8, 0b11111u8],
        '0' => seq![0b01110u8, 0b10001u8, 0b10011u8, 0b10101u8, 0b11001u8, 0b10001u8, 0b01110u8],
        '1' => seq![0b00100u8, 0b01100u8, 0b00100u8, 0b00100u8, 0b00100u8, 0b00100u8, 0b01110u8],
        '2' => seq![0b01110u8, 0b10001u8, 0b00001u8, 0b00010u8, 0b00100u8, 0b01000u8, 0b11111u8],
        '3' => seq![0b11110u8, 0b00001u8, 0b00001u8, 0b01110u8, 0b00001u8, 0b00001u8, 0b11110u8],
        '4' => seq![0b00010u8, 0b00110u8, 0b01010u8, 0b10010u8, 0b11111u8, 0b00010u8, 0b00010u8],
        '5' => seq![0b11111u8, 0b10000u8, 0b10000u8, 0b11110u8, 0b00001u8, 0b00001u8, 0b11110u8],
        '6' => seq![0b01110u8, 0b10000u8, 0b10000u8, 0b11110u8, 0b10001u8, 0b10001u8, 0b01110u8],
        '7' => seq![0b11111u8, 0b00001u8, 0b00010u8, 0b00100u8, 0b01000u8, 0b01000u8, 0b01000u8],
        '8' => seq![0b01110u8, 0b10001u8, 0b10001u8, 0b01110u8, 0b10001u8, 0b10001u8, 0b01110u8],
        '9' => seq![0b01110u8, 0b10001u8, 0b10001u8, 0b01111u8, 0b00001u8, 0b00001u8, 0b01110u8],
        '-' => seq![0u8, 0u8, 0u8, 0b11111u8, 0u8, 0u8, 0u8],
        '/' => seq![0b00001u8, 0b00001u8, 0b00010u8, 0b00100u8, 0b01000u8, 0b10000u8, 0b10000u8],
        '&' => seq![0b01100u8, 0b10010u8, 0b10100u8, 0b01000u8, 0b10101u8, 0b10010u8, 0b01101u8],
        ' ' => seq![0u8, 0u8, 0u8, 0u8, 0u8, 0u8, 0u8],
        _ => seq![0b11111u8, 0b00001u8, 0b00010u8, 0b00100u8, 0b00100u8, 0u8, 0b00100u8],
    }
}

/// A character with a glyph of its own: a capital letter, a digit, `-`, `/`,
/// `&` or the space.
pub open spec fn has_own_glyph(ch: char) -> bool {
    ('A' <= ch && ch <= 'Z') || ('0' <= ch && ch <= '9') || ch == '-' || ch == '/' || ch == '&'
        || ch == ' '
}

/// The pixels of seven rows of five, as one number.
spec fn glyph_bits(rows: Seq<u8>) -> int {
    rows[0] + 32 * rows[1] + 1024 * rows[2] + 32768 * rows[3] + 1048576 * rows[4] + 33554432
        * rows[5] + 1073741824 * rows[6]
}

/// The character a glyph shows, read back from its pixels (a question mark
/// for the glyph of unsupported characters).
spec fn glyph_reading(rows: Seq<u8>) -> char {
    let k = glyph_bits(rows);
    if k == 18842895918 {
        'A'
    } else if k == 32801506878 {
        'B'
    } else if k == 16660316687 {
        'C'
    } else if k == 32801080894 {
        'D'
    } else if k == 33840644639 {
        'E'
    } else if k == 17734517279 {
        'F'
    } else if k == 16695149071 {
        'G'
    } else if k == 18842895921 {
        'H'
    } else if k == 33424543903 {
        'I'
    } else if k == 13507823687 {
        'J'
    } else if k == 18879369809 {
        'K'
    } else if k == 33840185872 {
        'L'
    } else if k == 18842572657 {
        'M'
    } else if k == 18842507057 {
        'N'
    } else if k == 15621211694 {
        'O'
    } else if k == 17734518334 {
        'P'
    } else if k == 14585218606 {
        'Q'
    } else if k == 18879563326 {
        'R'
    } else if k == 32247333391 {
        'S'
    } else if k == 4433514655 {
        'T'
    } else if k == 15621211697 {
        'U'
    } else if k == 4648912433 {
        'V'
    } else if k == 11464787505 {
        'W'
    } else if k == 18834663985 {
        'X'
    } else if k == 4433521201 {
        'Y'
    } else if k == 33831389247 {
        'Z'
    } else if k == 15629733422 {
        '0'
    } else if k == 15170933124 {
        '1'
    } else if k == 33558693422 {
        '2'
    } else if k == 32247317566 {
        '3'
    } else if k == 2247698626 {
        '4'
    } else if k == 32247857695 {
        '5'
    } else if k == 15621636622 {
        '6'
    } else if k == 8866891839 {
        '7'
    } else if k == 15621113390 {
        '8'
    } else if k == 15067498030 {
        '9'
    } else if k == 1015808 {
        '-'
    } else if k == 17725261857 {
        '/'
    } else if k == 14584926796 {
        '&'
    } else if k == 0 {
        ' '
    } else {
        '?'
    }
}

/// Every glyph reads back as its own character, and the question mark for
/// characters without a glyph of their own.
proof fn lemma_glyph_reads_back(ch: char)
    ensures
        has_own_glyph(ch) ==> glyph_reading(glyph_pattern(ch)) == ch,
        !has_own_glyph(ch) ==> glyph_reading(glyph_pattern(ch)) == '?',
{
}

/// Street-sign text can be read: different characters with glyphs of their
/// own are drawn differently, and none of them is drawn as the question mark
/// that stands for every other character.
pub proof fn lemma_glyphs_tell_characters_apart(a: char, b: char)
    requires
        has_own_glyph(a),
        a != b,
    ensures
        glyph_pattern(a) != glyph_pattern(b),
{
    lemma_glyph_reads_back(a);
    lemma_glyph_reads_back(b);
}

/// The width of the glyph of `ch`, in pixels.
pub fn glyph_width(ch: char) -> (r: usize)
    ensures
        r == glyph_width_of(ch),
{
    if ch == ' ' {
        3
    } else {
        5
    }
}

/// The seven pixel rows of the glyph of `ch`.
pub fn glyph_rows(ch: char) -> (r: [u8; 7])
    ensures
        r@ == glyph_pattern(ch),
{
    let r: [u8; 7] = match ch {
        'A' => [0b01110, 0b10001, 0b10001, 0b11111, 0b10001, 0b10001, 0b10001],
        'B' => [0b11110, 0b10001, 0b10001, 0b11110, 0b10001, 0b10001, 0b11110],
        'C' => [0b01111, 0b10000, 0b10000, 0b10000, 0b10000, 0b10000, 0b01111],
        'D' => [0b11110, 0b10001, 0b10001, 0b10001, 0b10001, 0b10001, 0b11110],
        'E' => [0b11111, 0b10000, 0b10000, 0b11110, 0b10000, 0b10000, 0b11111],
        'F' => [0b11111, 0b10000, 0b10000, 0b11110, 0b10000, 0b10000, 0b10000],
        'G' => [0b01111, 0b10000, 0b10000, 0b10111, 0b10001, 0b10001, 0b01111],
        'H' => [0b10001, 0b10001, 0b10001, 0b11111, 0b10001, 0b10001, 0b10001],
        'I' => [0b11111, 0b00100, 0b00100, 0b00100, 0b00100, 0b00100, 0b11111],
        'J' => [0b00111, 0b00010, 0b00010, 0b00010, 0b10010, 0b10010, 0b01100],
        'K' => [0b10001, 0b10010, 0b10100, 0b11000, 0b10100, 0b10010, 0b10001],
        'L' => [0b10000, 0b10000, 0b10000, 0b10000, 0b10000, 0b10000, 0b11111],
        'M' => [0b10001, 0b11011, 0b10101, 0b10101, 0b10001, 0b10001, 0b10001],
        'N' => [0b10001, 0b11001, 0b10101, 0b10011, 0b10001, 0b10001, 0b10001],
        'O' => [0b01110, 0b10001, 0b10001, 0b10001, 0b10001, 0b10001, 0b01110],
        'P' => [0b11110, 0b10001, 0b10001, 0b11110, 0b10000, 0b10000, 0b10000],
        'Q' => [0b01110, 0b10001, 0b10001, 0b10001, 0b10101, 0b10010, 0b01101],
        'R' => [0b11110, 0b10001, 0b10001, 0b11110, 0b10100, 0b10010, 0b10001],
        'S' => [0b01111, 0b10000, 0b10000, 0b01110, 0b00001, 0b00001, 0b11110],
        'T' => [0b11111, 0b00100, 0b00100, 0b00100, 0b00100, 0b00100, 0b00100],
        'U' => [0b10001, 0b10001, 0b10001, 0b10001, 0b10001, 0b10001, 0b01110],
        'V' => [0b10001, 0b10001, 0b10001, 0b10001, 0b10001, 0b01010, 0b00100],
        'W' => [0b10001, 0b10001, 0b10001, 0b10101, 0b10101, 0b10101, 0b01010],
        'X' => [0b10001, 0b10001, 0b01010, 0b00100, 0b01010, 0b10001, 0b10001],
        'Y' => [0b10001, 0b10001, 0b01010, 0b00100, 0b00100, 0b00100, 0b00100],
        'Z' => [0b11111, 0b00001, 0b00010, 0b00100, 0b01000, 0b10000, 0b11111],
        '0' => [0b01110, 0b10001, 0b10011, 0b10101, 0b11001, 0b10001, 0b01110],
        '1' => [0b00100, 0b01100, 0b00100, 0b00100, 0b00100, 0b00100, 0b01110],
        '2' => [0b01110, 0b10001, 0b00001, 0b00010, 0b00100, 0b01000, 0b11111],
        '3' => [0b11110, 0b00001, 0b00001, 0b01110, 0b00001, 0b00001, 0b11110],
        '4' => [0b00010, 0b00110, 0b01010, 0b10010, 0b11111, 0b00010, 0b00010],
        '5' => [0b11111, 0b10000, 0b10000, 0b11110, 0b00001, 0b00001, 0b11110],
        '6' => [0b01110, 0b10000, 0b10000, 0b11110, 0b10001, 0b10001, 0b01110],
        '7' => [0b11111, 0b00001, 0b00010, 0b00100, 0b01000, 0b01000, 0b01000],
        '8' => [0b01110, 0b10001, 0b10001, 0b01110, 0b10001, 0b10001, 0b01110],
        '9' => [0b01110, 0b10001, 0b10001, 0b01111, 0b00001, 0b00001, 0b01110],
        '-' => [0, 0, 0, 0b11111, 0, 0, 0],
        '/' => [0b00001, 0b00001, 0b00010, 0b00100, 0b01000, 0b10000, 0b10000],
        '&' => [0b01100, 0b10010, 0b10100, 0b01000, 0b10101, 0b10010, 0b01101],
        ' ' => [0, 0, 0, 0, 0, 0, 0],
        _ => [0b11111, 0b00001, 0b00010, 0b00100, 0b00100, 0, 0b00100],
    };
    assert(r@ =~= glyph_pattern(ch));
    r
}

/// No glyph lights a pixel outside its cell: every row of every glyph fits in
/// the glyph's width, and every glyph has seven rows.
pub proof fn lemma_glyphs_fit_their_width(ch: char)
    ensures
        glyph_pattern(ch).len() == 7,
        forall|i: int|
            0 <= i < 7 ==> (#[trigger] glyph_pattern(ch)[i]) < vstd::arithmetic::power2::pow2(
                glyph_width_of(ch),
            ),
{
    vstd::arithmetic::power2::lemma2_to64();
}

} // verus!
