//! Bitmap font metrics: reading the glyph lines of a `.fnt` file.
use vstd::prelude::*;

verus! {

/// Where a glyph lies in the font atlas and how it is placed, in pixels:
/// its corner and size in the atlas, its offset when drawn and how far the
/// pen advances after it.
#[derive(Clone, Copy, Debug, PartialEq, Eq, Structural)]
pub struct GlyphMetrics {
    pub x: i64,
    pub y: i64,
    pub w: i64,
    pub h: i64,
    pub xo: i64,
    pub yo: i64,
    pub adv: i64,
}

/// The metrics of a character that the file does not describe: all zero.
pub open spec fn blank_glyph() -> GlyphMetrics {
    GlyphMetrics { x: 0, y: 0, w: 0, h: 0, xo: 0, yo: 0, adv: 0 }
}

/// The number of characters a font describes.
pub const GLYPH_COUNT: usize = 256;

/// A decimal digit.
pub open spec fn is_digit(c: char) -> bool {
    '0' <= c && c <= '9'
}

/// One or more decimal digits.
pub open spec fn all_digits(d: Seq<char>) -> bool {
    d.len() > 0 && forall|i: int| 0 <= i < d.len() ==> is_digit(#[trigger] d[i])
}

/// The value of a run of decimal digits.
pub open spec fn digits_value(d: Seq<char>) -> int
    decreases d.len(),
{
    if d.len() == 0 {
        0
    } else {
        digits_value(d.drop_last()) * 10 + (d.last() as int - '0' as int)
    }
}

/// The value of digits `d` when they are digits and it fits in an `i64`.
pub open spec fn digits_num(d: Seq<char>) -> Option<i64> {
    if all_digits(d) && digits_value(d) <= i64::MAX {
        Some(digits_value(d) as i64)
    } else {
        None
    }
}

/// The number that a field of a glyph line spells: decimal digits after an
/// optional `+` (or `-`, where `signed`), when its size fits in an `i64`.
pub open spec fn field_value(d: Seq<char>, signed: bool) -> Option<i64> {
    if d.len() > 0 && (d[0] == '+' || (signed && d[0] == '-')) {
        match digits_num(d.drop_first()) {
            Some(v) => Some(if d[0] == '-' { (-v) as i64 } else { v }),
            None => None,
        }
    } else {
        digits_num(d)
    }
}

/// The character id and metrics that the eight fields captured from a
/// glyph line give: the id (unsigned), then x, y, width, height, x offset,
/// y offset and advance.
pub open spec fn glyph_from(caps: Seq<Seq<char>>) -> Option<(int, GlyphMetrics)> {
    if caps.len() == 8 && forall|i: int| 0 <= i < 8 ==> field_value(#[trigger] caps[i], i != 0) is Some {
        Some(
            (
                field_value(caps[0], false).unwrap() as int,
                GlyphMetrics {
                    x: field_value(caps[1], true).unwrap(),
                    y: field_value(caps[2], true).unwrap(),
                    w: field_value(caps[3], true).unwrap(),
                    h: field_value(caps[4], true).unwrap(),
                    xo: field_value(caps[5], true).unwrap(),
                    yo: field_value(caps[6], true).unwrap(),
                    adv: field_value(caps[7], true).unwrap(),
                },
            ),
        )
    } else {
        None
    }
}

/// A line that describes a glyph: it starts with `char `.
pub open spec fn is_char_line(l: Seq<char>) -> bool {
    l.len() >= 5 && l[0] == 'c' && l[1] == 'h' && l[2] == 'a' && l[3] == 'r' && l[4] == ' '
}

/// A decimal digit or white space as glyph lines separate their fields
/// with: the Unicode white space characters.
pub open spec fn is_space(c: char) -> bool {
    ||| '\t' <= c <= '\r'
    ||| c == ' '
    ||| c == '\u{85}'
    ||| c == '\u{a0}'
    ||| c == '\u{1680}'
    ||| '\u{2000}' <= c <= '\u{200a}'
    ||| c == '\u{2028}'
    ||| c == '\u{2029}'
    ||| c == '\u{202f}'
    ||| c == '\u{205f}'
    ||| c == '\u{3000}'
}

/// The end of the run of digits of `l` that starts at `i`.
pub open spec fn digit_run_end(l: Seq<char>, i: int) -> int
    decreases l.len() - i,
{
    if 0 <= i < l.len() && is_digit(l[i]) {
        digit_run_end(l, i + 1)
    } else {
        i
    }
}

/// The end of the run of white space of `l` that starts at `i`.
pub open spec fn space_run_end(l: Seq<char>, i: int) -> int
    decreases l.len() - i,
{
    if 0 <= i < l.len() && is_space(l[i]) {
        space_run_end(l, i + 1)
    } else {
        i
    }
}

/// The label in front of field `k` of a glyph line: `id=`, `x=`, `y=`,
/// `width=`, `height=`, `xoffset=`, `yoffset=`, `xadvance=`.
pub open spec fn field_label(k: int) -> Seq<char> {
    if k == 0 {
        seq!['i', 'd', '=']
    } else if k == 1 {
        seq!['x', '=']
    } else if k == 2 {
        seq!['y', '=']
    } else if k == 3 {
        seq!['w', 'i', 'd', 't', 'h', '=']
    } else if k == 4 {
        seq!['h', 'e', 'i', 'g', 'h', 't', '=']
    } else if k == 5 {
        seq!['x', 'o', 'f', 'f', 's', 'e', 't', '=']
    } else if k == 6 {
        seq!['y', 'o', 'f', 'f', 's', 'e', 't', '=']
    } else {
        seq!['x', 'a', 'd', 'v', 'a', 'n', 'c', 'e', '=']
    }
}

/// `l` holds `lab` at position `p`.
pub open spec fn has_label(l: Seq<char>, p: int, lab: Seq<char>) -> bool {
    0 <= p && p + lab.len() <= l.len() && l.subrange(p, p + lab.len()) == lab
}

/// The fields from `k` on of a glyph line whose field `k` starts at `p`:
/// each is its label, then digits (after an optional `-` for the two
/// offsets), captured with that sign; fields are separated by white space.
/// Nothing when the line does not have that shape there.
pub open spec fn match_fields(l: Seq<char>, p: int, k: int) -> Option<Seq<Seq<char>>>
    decreases 8 - k,
{
    if k < 0 || k >= 8 || !has_label(l, p, field_label(k)) {
        None
    } else {
        let q = p + field_label(k).len();
        let d = if (k == 5 || k == 6) && q < l.len() && l[q] == '-' {
            q + 1
        } else {
            q
        };
        let e = digit_run_end(l, d);
        if e <= d {
            None
        } else if k == 7 {
            Some(seq![l.subrange(q, e)])
        } else {
            let s = space_run_end(l, e);
            if s <= e {
                None
            } else {
                match match_fields(l, s, k + 1) {
                    Some(rest) => Some(seq![l.subrange(q, e)] + rest),
                    None => None,
                }
            }
        }
    }
}

/// The eight fields of the first place, from `i` on, where a glyph line's
/// fields start: `id=<digits> x=<digits> y=<digits> width=<digits>
/// height=<digits> xoffset=<-digits> yoffset=<-digits> xadvance=<digits>`.
pub open spec fn glyph_fields_from(l: Seq<char>, i: int) -> Option<Seq<Seq<char>>>
    decreases l.len() + 1 - i,
{
    if i < 0 || i > l.len() {
        None
    } else {
        match match_fields(l, i, 0) {
            Some(c) => Some(c),
            None => glyph_fields_from(l, i + 1),
        }
    }
}

/// The eight fields of a glyph line, taken from the first place where they
/// start.
pub open spec fn glyph_fields(l: Seq<char>) -> Option<Seq<Seq<char>>> {
    glyph_fields_from(l, 0)
}

/// The table `t` after reading one line: a glyph line sets the metrics of
/// its character; any other line leaves the table. A glyph line that does
/// not have the eight fields, has a field that is not a number, or names a
/// character past the table gives nothing.
pub open spec fn read_line(line: Seq<char>, t: Seq<GlyphMetrics>) -> Option<Seq<GlyphMetrics>> {
    if !is_char_line(line) {
        Some(t)
    } else {
        match glyph_fields(line) {
            None => None,
            Some(caps) => match glyph_from(caps) {
                Some((id, g)) => if 0 <= id < t.len() {
                    Some(t.update(id, g))
                } else {
                    None
                },
                None => None,
            },
        }
    }
}

/// The position of the first line break at or after `i`, or the end.
pub open spec fn line_end(s: Seq<char>, i: int) -> int
    decreases s.len() - i,
{
    if i >= s.len() {
        s.len() as int
    } else if s[i] == '\n' {
        i
    } else {
        line_end(s, i + 1)
    }
}

/// A line ends at or after where it starts.
pub proof fn lemma_line_end(s: Seq<char>, i: int)
    requires
        0 <= i <= s.len(),
    ensures
        i <= line_end(s, i) <= s.len(),
    decreases s.len() - i,
{
    if i < s.len() && s[i] != '\n' {
        lemma_line_end(s, i + 1);
    }
}

/// The table `t` after reading, line by line, the text `s` from position
/// `i` on.
pub open spec fn read_from(s: Seq<char>, i: int, t: Seq<GlyphMetrics>) -> Option<Seq<GlyphMetrics>>
    decreases s.len() + 1 - i,
{
    if i < 0 || i > s.len() {
        Some(t)
    } else {
        let e = line_end(s, i);
        proof {
            lemma_line_end(s, i);
        }
        match read_line(s.subrange(i, e), t) {
            Some(t2) => read_from(s, e + 1, t2),
            None => None,
        }
    }
}

/// The metrics of the first 256 characters that a `.fnt` text gives:
/// blank, then set by its glyph lines in order.
pub open spec fn fnt_glyphs(s: Seq<char>) -> Option<Seq<GlyphMetrics>> {
    read_from(s, 0, Seq::new(GLYPH_COUNT as nat, |i: int| blank_glyph()))
}

/// A glyph line whose eight fields are numbers sets the metrics of the
/// character it names, for every character the table has; a line that
/// does not start with `char ` leaves the table as it is.
pub proof fn lemma_glyph_line_sets_entry(line: Seq<char>, t: Seq<GlyphMetrics>, id: int, g: GlyphMetrics)
    ensures
        is_char_line(line) && glyph_fields(line) is Some && glyph_from(glyph_fields(line).unwrap()) == Some((id, g))
            && 0 <= id < t.len() ==> read_line(line, t) == Some(t.update(id, g)),
        !is_char_line(line) ==> read_line(line, t) == Some(t),
{
}

/// A text made of one glyph line, with or without a line break after it,
/// whose fields are numbers and whose id is below 256, gives the blank
/// table with the metrics of that character set.
pub proof fn lemma_one_glyph_text(line: Seq<char>, s: Seq<char>, id: int, g: GlyphMetrics)
    requires
        is_char_line(line),
        !line.contains('\n'),
        glyph_fields(line) is Some,
        glyph_from(glyph_fields(line).unwrap()) == Some((id, g)),
        0 <= id < GLYPH_COUNT,
        s == line || s == line.push('\n'),
    ensures
        fnt_glyphs(s) == Some(Seq::new(GLYPH_COUNT as nat, |i: int| blank_glyph()).update(id, g)),
{
    let t = Seq::new(GLYPH_COUNT as nat, |i: int| blank_glyph());
    let n = line.len() as int;
    assert forall|j: int| 0 <= j < n implies s[j] != '\n' by {
        assert(s[j] == line[j]);
        if s[j] == '\n' {
            assert(line.contains('\n'));
        }
    }
    assert forall|j: int| 0 <= j <= n implies line_end(s, j) == n by {
        lemma_line_end_past(s, j, n);
    }
    assert(s.subrange(0, n) =~= line);
    lemma_glyph_line_sets_entry(line, t, id, g);
    let t2 = t.update(id, g);
    assert(read_line(s.subrange(0, n), t) == Some(t2));
    if s.len() == n {
        assert(read_from(s, n + 1, t2) == Some(t2));
    } else {
        assert(line_end(s, n + 1) == n + 1);
        assert(s.subrange(n + 1, n + 1) =~= Seq::<char>::empty());
        assert(read_line(s.subrange(n + 1, n + 1), t2) == Some(t2));
        assert(read_from(s, n + 2, t2) == Some(t2));
        assert(read_from(s, n + 1, t2) == Some(t2));
    }
    assert(read_from(s, 0, t) == Some(t2));
}

/// A text of two lines is read line by line, in order: the table after
/// both is the first line read into the table, then the second read into
/// the result; a line that gives nothing makes the text give nothing.
/// (With an empty second line this is one line ended by a line break.)
pub proof fn lemma_two_lines(l1: Seq<char>, l2: Seq<char>, s: Seq<char>, t: Seq<GlyphMetrics>)
    requires
        !l1.contains('\n'),
        !l2.contains('\n'),
        s == l1 + seq!['\n'] + l2,
    ensures
        read_from(s, 0, t) == match read_line(l1, t) {
            Some(t2) => read_line(l2, t2),
            None => None,
        },
{
    let n1 = l1.len() as int;
    let n = s.len() as int;
    assert(n == n1 + 1 + l2.len());
    assert(s[n1] == '\n');
    assert forall|j: int| 0 <= j < n1 implies s[j] != '\n' by {
        assert(s[j] == l1[j]);
        if s[j] == '\n' {
            assert(l1.contains('\n'));
        }
    }
    assert forall|j: int| n1 + 1 <= j < n implies s[j] != '\n' by {
        assert(s[j] == l2[j - n1 - 1]);
        if s[j] == '\n' {
            assert(l2.contains('\n'));
        }
    }
    lemma_line_end_past(s, 0, n1);
    lemma_line_end_past(s, n1 + 1, n);
    assert(s.subrange(0, n1) =~= l1);
    assert(s.subrange(n1 + 1, n) =~= l2);
    match read_line(l1, t) {
        Some(t2) => {
            match read_line(l2, t2) {
                Some(t3) => {
                    assert(read_from(s, n + 1, t3) == Some(t3));
                    assert(read_from(s, n1 + 1, t2) == Some(t3));
                },
                None => {
                    assert(read_from(s, n1 + 1, t2) is None);
                },
            }
        },
        None => {},
    }
}

/// With no line break from `j` up to `n`, and one at `n` or the end there,
/// the line that starts at `j` ends at `n`.
proof fn lemma_line_end_past(s: Seq<char>, j: int, n: int)
    requires
        0 <= j <= n <= s.len(),
        forall|i: int| j <= i < n ==> s[i] != '\n',
        n == s.len() || s[n] == '\n',
    ensures
        line_end(s, j) == n,
    decreases n - j,
{
    if j < n {
        lemma_line_end_past(s, j + 1, n);
    }
}

/// Whether `c` is white space; see `is_space`.
fn is_space_exec(c: char) -> (r: bool)
    ensures
        r == is_space(c),
{
    ('\t' <= c && c <= '\r') || c == ' ' || c == '\u{85}' || c == '\u{a0}' || c == '\u{1680}' || ('\u{2000}' <= c
        && c <= '\u{200a}') || c == '\u{2028}' || c == '\u{2029}' || c == '\u{202f}' || c == '\u{205f}' || c
        == '\u{3000}'
}

/// Whether `c` is white space (with `spaces`) or a digit.
fn in_run(c: char, spaces: bool) -> (r: bool)
    ensures
        r == if spaces {
            is_space(c)
        } else {
            is_digit(c)
        },
{
    if spaces {
        is_space_exec(c)
    } else {
        '0' <= c && c <= '9'
    }
}

/// The end of the run of digits (or, with `spaces`, of white space) of `l`
/// from `i`.
fn run_end(l: &Vec<char>, i: usize, spaces: bool) -> (r: usize)
    requires
        i <= l@.len(),
    ensures
        r == if spaces {
            space_run_end(l@, i as int)
        } else {
            digit_run_end(l@, i as int)
        },
        i <= r <= l@.len(),
{
    let mut j = i;
    while j < l.len() && in_run(l[j], spaces)
        invariant
            i <= j <= l@.len(),
            spaces ==> space_run_end(l@, i as int) == space_run_end(l@, j as int),
            !spaces ==> digit_run_end(l@, i as int) == digit_run_end(l@, j as int),
        decreases l@.len() - j,
    {
        j = j + 1;
    }
    j
}

/// The label of field `k`; see `field_label`.
fn label_chars(k: usize) -> (r: Vec<char>)
    ensures
        r@ == field_label(k as int),
{
    let r = if k == 0 {
        vec!['i', 'd', '=']
    } else if k == 1 {
        vec!['x', '=']
    } else if k == 2 {
        vec!['y', '=']
    } else if k == 3 {
        vec!['w', 'i', 'd', 't', 'h', '=']
    } else if k == 4 {
        vec!['h', 'e', 'i', 'g', 'h', 't', '=']
    } else if k == 5 {
        vec!['x', 'o', 'f', 'f', 's', 'e', 't', '=']
    } else if k == 6 {
        vec!['y', 'o', 'f', 'f', 's', 'e', 't', '=']
    } else {
        vec!['x', 'a', 'd', 'v', 'a', 'n', 'c', 'e', '=']
    };
    assert(r@ =~= field_label(k as int));
    r
}

/// Whether `l` holds `lab` at `p`.
fn has_label_exec(l: &Vec<char>, p: usize, lab: &Vec<char>) -> (r: bool)
    ensures
        r == has_label(l@, p as int, lab@),
{
    if p > l.len() || lab.len() > l.len() - p {
        return false;
    }
    let mut j: usize = 0;
    while j < lab.len()
        invariant
            p + lab@.len() <= l@.len() <= usize::MAX,
            j <= lab@.len(),
            forall|m: int| 0 <= m < j ==> l@[p + m] == lab@[m],
        decreases lab@.len() - j,
    {
        if l[p + j] != lab[j] {
            assert(l@.subrange(p as int, p + lab@.len())[j as int] != lab@[j as int]);
            return false;
        }
        j = j + 1;
    }
    assert(l@.subrange(p as int, p + lab@.len()) =~= lab@);
    true
}

/// The characters of `l` from `a` to `b`.
fn copy_range(l: &Vec<char>, a: usize, b: usize) -> (r: Vec<char>)
    requires
        a <= b <= l@.len(),
    ensures
        r@ == l@.subrange(a as int, b as int),
{
    let mut r: Vec<char> = Vec::new();
    let mut j = a;
    while j < b
        invariant
            a <= j <= b <= l@.len(),
            r@ == l@.subrange(a as int, j as int),
        decreases b - j,
    {
        r.push(l[j]);
        j = j + 1;
    }
    r
}

/// The fields from `k` on of a glyph line whose field `k` starts at `p`;
/// see `match_fields`.
fn match_fields_exec(l: &Vec<char>, p: usize, k: usize) -> (r: Option<Vec<Vec<char>>>)
    requires
        p <= l@.len(),
    ensures
        match r {
            Some(v) => match_fields(l@, p as int, k as int) == Some(v@.map_values(|c: Vec<char>| c@)),
            None => match_fields(l@, p as int, k as int) is None,
        },
    decreases 8 - k,
{
    if k >= 8 {
        return None;
    }
    let lab = label_chars(k);
    let n = l.len();
    if !has_label_exec(l, p, &lab) {
        return None;
    }
    assert(p + lab@.len() <= n);
    let q = p + lab.len();
    let d = if (k == 5 || k == 6) && q < l.len() && l[q] == '-' {
        q + 1
    } else {
        q
    };
    let e = run_end(l, d, false);
    if e <= d {
        return None;
    }
    let cap = copy_range(l, q, e);
    if k == 7 {
        let v = vec![cap];
        assert(v@.map_values(|c: Vec<char>| c@) =~= seq![l@.subrange(q as int, e as int)]);
        return Some(v);
    }
    let s = run_end(l, e, true);
    if s <= e {
        return None;
    }
    match match_fields_exec(l, s, k + 1) {
        Some(mut rest) => {
            let ghost rv = rest@.map_values(|c: Vec<char>| c@);
            let mut v = vec![cap];
            v.append(&mut rest);
            assert(v@.map_values(|c: Vec<char>| c@) =~= seq![l@.subrange(q as int, e as int)] + rv);
            Some(v)
        },
        None => None,
    }
}

/// The eight fields of a glyph line; see `glyph_fields`.
fn glyph_fields_exec(l: &Vec<char>) -> (r: Option<Vec<Vec<char>>>)
    ensures
        match r {
            Some(v) => glyph_fields(l@) == Some(v@.map_values(|c: Vec<char>| c@)),
            None => glyph_fields(l@) is None,
        },
{
    let mut i: usize = 0;
    while i <= l.len()
        invariant
            i <= l@.len() + 1,
            glyph_fields(l@) == glyph_fields_from(l@, i as int),
        decreases l@.len() + 1 - i,
    {
        match match_fields_exec(l, i, 0) {
            Some(v) => {
                return Some(v);
            },
            None => {},
        }
        if i == l.len() {
            assert(glyph_fields_from(l@, i + 1) is None);
            return None;
        }
        i = i + 1;
    }
    None
}

/// The characters of a text.
fn chars_of(text: &str) -> (r: Vec<char>)
    ensures
        r@ == text@,
{
    broadcast use vstd::string::axiom_spec_iter;

    let mut r: Vec<char> = Vec::new();
    for c in it: text.chars()
        invariant
            r@ == it.seq().take(it.index() as int),
    {
        r.push(c);
    }
    r
}

/// A longer run of digits is worth at least its prefix.
proof fn lemma_digits_prefix(d: Seq<char>, k: int)
    requires
        all_digits(d),
        0 < k <= d.len(),
    ensures
        digits_value(d) >= digits_value(d.take(k)) >= 0,
    decreases d.len(),
{
    if k < d.len() {
        let p = d.drop_last();
        assert(p.take(k) =~= d.take(k));
        assert(all_digits(p)) by {
            assert forall|i: int| 0 <= i < p.len() implies is_digit(#[trigger] p[i]) by {
                assert(p[i] == d[i]);
            }
        }
        lemma_digits_prefix(p, k);
        assert(is_digit(d[d.len() - 1]));
    } else {
        assert(d.take(k) =~= d);
        lemma_digits_nonneg(d);
    }
}

/// Digits are worth at least 0.
proof fn lemma_digits_nonneg(d: Seq<char>)
    requires
        forall|i: int| 0 <= i < d.len() ==> is_digit(#[trigger] d[i]),
    ensures
        digits_value(d) >= 0,
    decreases d.len(),
{
    if d.len() > 0 {
        let p = d.drop_last();
        assert forall|i: int| 0 <= i < p.len() implies is_digit(#[trigger] p[i]) by {
            assert(p[i] == d[i]);
        }
        lemma_digits_nonneg(p);
        assert(is_digit(d[d.len() - 1]));
    }
}

/// The value of the digits of `cs` from `start` on, when they are digits
/// and it fits in an `i64`.
fn parse_digits(cs: &Vec<char>, start: usize) -> (r: Option<i64>)
    requires
        start <= cs@.len(),
    ensures
        r == digits_num(cs@.subrange(start as int, cs@.len() as int)),
        r matches Some(v) ==> v >= 0,
{
    let ghost d = cs@.subrange(start as int, cs@.len() as int);
    if start == cs.len() {
        return None;
    }
    let mut v: i64 = 0;
    let mut i: usize = start;
    while i < cs.len()
        invariant
            start < cs@.len(),
            start <= i <= cs@.len(),
            d == cs@.subrange(start as int, cs@.len() as int),
            forall|j: int| start <= j < i ==> is_digit(#[trigger] cs@[j]),
            v == digits_value(cs@.subrange(start as int, i as int)),
            0 <= v,
        decreases cs@.len() - i,
    {
        let c = cs[i];
        if !('0' <= c && c <= '9') {
            proof {
                assert(!is_digit(d[i - start]));
            }
            return None;
        }
        let dv = (c as u32 - '0' as u32) as i64;
        assert(cs@.subrange(start as int, i + 1).drop_last() =~= cs@.subrange(start as int, i as int));
        if v > (i64::MAX - dv) / 10 {
            proof {
                let k = i + 1 - start;
                assert(d.take(k) =~= cs@.subrange(start as int, i + 1));
                assert(all_digits(d) ==> digits_value(d) > i64::MAX) by {
                    if all_digits(d) {
                        lemma_digits_prefix(d, k);
                    }
                }
            }
            return None;
        }
        v = v * 10 + dv;
        i = i + 1;
    }
    proof {
        assert(cs@.subrange(start as int, i as int) =~= d);
        assert forall|j: int| 0 <= j < d.len() implies is_digit(#[trigger] d[j]) by {
            assert(d[j] == cs@[start + j]);
        }
    }
    Some(v)
}

/// The number that a field spells; see `field_value`.
fn parse_field(cs: &Vec<char>, signed: bool) -> (r: Option<i64>)
    ensures
        r == field_value(cs@, signed),
{
    let ghost field = cs@;
    if cs.len() > 0 && (cs[0] == '+' || (signed && cs[0] == '-')) {
        assert(cs@.subrange(1, cs@.len() as int) =~= field.drop_first());
        match parse_digits(cs, 1) {
            Some(v) => if cs[0] == '-' {
                Some(-v)
            } else {
                Some(v)
            },
            None => None,
        }
    } else {
        assert(cs@.subrange(0, cs@.len() as int) =~= field);
        parse_digits(cs, 0)
    }
}

/// The id and metrics that the captured fields give; see `glyph_from`.
fn glyph_of(caps: &Vec<Vec<char>>) -> (r: Option<(i64, GlyphMetrics)>)
    ensures
        match (r, glyph_from(caps@.map_values(|f: Vec<char>| f@))) {
            (Some((id, g)), Some((sid, sg))) => id == sid && g == sg,
            (None, None) => true,
            _ => false,
        },
{
    let ghost cv = caps@.map_values(|f: Vec<char>| f@);
    if caps.len() != 8 {
        return None;
    }
    let mut vals: Vec<i64> = Vec::new();
    let mut k: usize = 0;
    while k < 8
        invariant
            caps@.len() == 8,
            cv == caps@.map_values(|f: Vec<char>| f@),
            k <= 8,
            vals@.len() == k,
            forall|j: int| 0 <= j < k ==> Some(#[trigger] vals@[j]) == field_value(cv[j], j != 0),
        decreases 8 - k,
    {
        match parse_field(&caps[k], k != 0) {
            Some(v) => vals.push(v),
            None => {
                assert(field_value(cv[k as int], k != 0) is None);
                return None;
            },
        }
        k = k + 1;
    }
    assert forall|i: int| 0 <= i < 8 implies field_value(#[trigger] cv[i], i != 0) is Some by {
        assert(Some(vals@[i]) == field_value(cv[i], i != 0));
    }
    assert(Some(vals@[0]) == field_value(cv[0], false));
    assert(Some(vals@[1]) == field_value(cv[1], true));
    assert(Some(vals@[2]) == field_value(cv[2], true));
    assert(Some(vals@[3]) == field_value(cv[3], true));
    assert(Some(vals@[4]) == field_value(cv[4], true));
    assert(Some(vals@[5]) == field_value(cv[5], true));
    assert(Some(vals@[6]) == field_value(cv[6], true));
    assert(Some(vals@[7]) == field_value(cv[7], true));
    Some(
        (
            vals[0],
            GlyphMetrics { x: vals[1], y: vals[2], w: vals[3], h: vals[4], xo: vals[5], yo: vals[6], adv: vals[7] },
        ),
    )
}

/// Reads the glyph lines of a `.fnt` text into the metrics of the first
/// 256 characters: every line that starts with `char ` must hold the
/// eight glyph fields (see `glyph_fields`), with numbers in them and an id below 256, and sets
/// that character; other lines are skipped; characters no line sets stay
/// blank. A malformed glyph line gives `None`.
pub fn parse_fnt(text: &str) -> (r: Option<Vec<GlyphMetrics>>)
    ensures
        match r {
            Some(v) => fnt_glyphs(text@) == Some(v@),
            None => fnt_glyphs(text@) is None,
        },
{
    let cs = chars_of(text);
    let n = cs.len();
    let mut table: Vec<GlyphMetrics> = Vec::new();
    let mut k: usize = 0;
    while k < GLYPH_COUNT
        invariant
            k <= GLYPH_COUNT,
            table@.len() == k,
            forall|j: int| 0 <= j < k ==> #[trigger] table@[j] == blank_glyph(),
        decreases GLYPH_COUNT - k,
    {
        table.push(GlyphMetrics { x: 0, y: 0, w: 0, h: 0, xo: 0, yo: 0, adv: 0 });
        k = k + 1;
    }
    assert(table@ =~= Seq::new(GLYPH_COUNT as nat, |i: int| blank_glyph()));
    let ghost s = text@;
    let mut i: usize = 0;
    let mut more = true;
    while more
        invariant
            cs@ == s,
            s == text@,
            n == s.len(),
            table@.len() == GLYPH_COUNT,
            more ==> i <= n && fnt_glyphs(s) == read_from(s, i as int, table@),
            !more ==> fnt_glyphs(s) == Some(table@),
        decreases (if more { n + 2 - i } else { 0 }),
    {
        let mut e = i;
        while e < n && cs[e] != '\n'
            invariant
                cs@ == s,
                n == s.len(),
                i <= e <= n,
                line_end(s, i as int) == line_end(s, e as int),
            decreases n - e,
        {
            e = e + 1;
        }
        proof {
            lemma_line_end(s, i as int);
        }
        let ghost line = s.subrange(i as int, e as int);
        let ghost t0 = table@;
        if e - i >= 5 && cs[i] == 'c' && cs[i + 1] == 'h' && cs[i + 2] == 'a' && cs[i + 3] == 'r' && cs[i + 4]
            == ' ' {
            assert(is_char_line(line));
            let l = copy_range(&cs, i, e);
            match glyph_fields_exec(&l) {
                None => {
                    return None;
                },
                Some(caps) => {
                    match glyph_of(&caps) {
                        None => {
                            return None;
                        },
                        Some((id, g)) => {
                            if id < 0 || id >= 256 {
                                return None;
                            }
                            table.set(id as usize, g);
                        },
                    }
                },
            }
        } else {
            assert(!is_char_line(line));
        }
        assert(read_line(line, t0) == Some(table@));
        if e == n {
            more = false;
            assert(read_from(s, e + 1, table@) == Some(table@));
        } else {
            i = e + 1;
        }
    }
    Some(table)
}

} // verus!
