use osm_world::glyphs::{glyph_rows, glyph_width};

#[test]
fn glyph_widths() {
    assert_eq!(glyph_width(' '), 3);
    assert_eq!(glyph_width('A'), 5);
    assert_eq!(glyph_width('?'), 5);
}

#[test]
fn glyph_rows_draw_the_font() {
    assert_eq!(
        glyph_rows('A'),
        [0b01110, 0b10001, 0b10001, 0b11111, 0b10001, 0b10001, 0b10001]
    );
    assert_eq!(glyph_rows('-'), [0, 0, 0, 0b11111, 0, 0, 0]);
    assert_eq!(glyph_rows(' '), [0; 7]);
    // Characters without a glyph show a question mark.
    assert_eq!(
        glyph_rows('a'),
        [0b11111, 0b00001, 0b00010, 0b00100, 0b00100, 0, 0b00100]
    );
}

#[test]
fn glyph_rows_fit_the_glyph_width() {
    for ch in "ABCDEFGHIJKLMNOPQRSTUVWXYZ0123456789-/& ?é".chars() {
        let width = glyph_width(ch);
        for row in glyph_rows(ch) {
            assert!((row as usize) < (1usize << width), "{ch:?}");
        }
    }
}
