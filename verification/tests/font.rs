use rustcraft::font::{parse_fnt, GlyphMetrics};

#[test]
fn glyph_lines_set_their_characters() {
    let text = "info face=\"x\" size=32\nchars count=1\nchar id=65   x=10  y=20  width=7 height=9 xoffset=-1 yoffset=3 xadvance=8 page=0 chnl=15\r\n";
    let g = parse_fnt(text).expect("well formed");
    assert_eq!(g.len(), 256);
    assert_eq!(g[65], GlyphMetrics { x: 10, y: 20, w: 7, h: 9, xo: -1, yo: 3, adv: 8 });
    assert_eq!(g[66], GlyphMetrics { x: 0, y: 0, w: 0, h: 0, xo: 0, yo: 0, adv: 0 });
}

#[test]
fn a_later_glyph_line_wins() {
    let text = "char id=1 x=1 y=1 width=1 height=1 xoffset=1 yoffset=1 xadvance=1\nchar id=1 x=2 y=2 width=2 height=2 xoffset=2 yoffset=2 xadvance=2";
    let g = parse_fnt(text).unwrap();
    assert_eq!(g[1].x, 2);
    assert_eq!(g[1].adv, 2);
}

#[test]
fn malformed_glyph_lines_are_refused() {
    assert!(parse_fnt("char id=65 x=1\n").is_none());
    assert!(parse_fnt("char id=256 x=1 y=1 width=1 height=1 xoffset=1 yoffset=1 xadvance=1\n").is_none());
    assert!(parse_fnt("common lineHeight=32\nkernings count=0\n").unwrap().iter().all(|g| g.w == 0));
}

#[test]
fn glyph_fields_are_found_anywhere_on_the_line() {
    let text = "char  note id=3\u{a0}x=1\ty=2 width=4  height=5 xoffset=-6 yoffset=7 xadvance=8 chnl=0";
    let g = parse_fnt(text).unwrap();
    assert_eq!(g[3], GlyphMetrics { x: 1, y: 2, w: 4, h: 5, xo: -6, yo: 7, adv: 8 });
}
