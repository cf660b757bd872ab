//! Inventory screen layout: slot positions, and which slot a pixel hits.
use vstd::prelude::*;

verus! {

/// A position on the screen, in pixels; y grows upwards.
#[derive(Clone, Copy, Debug)]
pub struct PixelPos(pub (i32, i32));

/// Integer division rounding towards zero, as `/` on machine integers does.
pub open spec fn trunc_div(a: int, b: int) -> int {
    if a >= 0 {
        a / b
    } else {
        -((-a) / b)
    }
}

/// The remainder that goes with `trunc_div`: it has the sign of `a`.
pub open spec fn trunc_rem(a: int, b: int) -> int {
    a - b * trunc_div(a, b)
}

/// The slots of the hotbar: nine in a row, 20 pixels apart.
pub open spec fn hotbar_slot(i: int) -> PixelPos {
    PixelPos(((4 + 20 * i) as i32, 4i32))
}

/// The 27 slots of a 9 x 3 grid whose top row is at height `top`, rows 20
/// pixels apart going down.
pub open spec fn grid_slot(top: int, i: int) -> PixelPos {
    PixelPos(((4 + 20 * (i % 9)) as i32, (top - 20 * (i / 9)) as i32))
}

/// The slots of the player inventory: the hotbar, then the three rows of
/// the main inventory.
pub open spec fn player_inventory_slot(i: int) -> PixelPos {
    if i < 9 {
        hotbar_slot(i)
    } else {
        grid_slot(69, i - 9)
    }
}

/// The slot positions of the hotbar.
pub fn hotbar_slots() -> (r: Vec<PixelPos>)
    ensures
        r@.len() == 9,
        forall|i: int| 0 <= i < 9 ==> r@[i] == hotbar_slot(i),
{
    let mut slots: Vec<PixelPos> = Vec::new();
    let mut c: (i32, i32) = (4, 4);
    let mut i: usize = 0;
    while i < 9
        invariant
            0 <= i <= 9,
            slots@.len() == i,
            c == ((4 + 20 * i) as i32, 4i32),
            forall|j: int| 0 <= j < i ==> slots@[j] == hotbar_slot(j),
        decreases 9 - i,
    {
        slots.push(PixelPos(c));
        c.0 = c.0 + 20;
        i += 1;
    }
    slots
}

/// Appends the 27 slots of a 9 x 3 grid whose top row is at height `top`.
fn push_grid_slots(slots: &mut Vec<PixelPos>, top: i32)
    requires
        0 <= top <= 1000,
    ensures
        final(slots)@.len() == old(slots)@.len() + 27,
        forall|j: int| 0 <= j < old(slots)@.len() ==> final(slots)@[j] == old(slots)@[j],
        forall|i: int| 0 <= i < 27 ==> final(slots)@[old(slots)@.len() + i] == grid_slot(top as int, i),
{
    let mut c: (i32, i32) = (4, top);
    let mut i: usize = 0;
    while i < 27
        invariant
            0 <= i <= 27,
            0 <= top <= 1000,
            slots@.len() == old(slots)@.len() + i,
            forall|j: int| 0 <= j < old(slots)@.len() ==> slots@[j] == old(slots)@[j],
            forall|k: int| 0 <= k < i ==> slots@[old(slots)@.len() + k] == grid_slot(top as int, k),
            i % 9 == 0 && i > 0 ==> c == ((4 + 20 * 9) as i32, (top - 20 * (i / 9 - 1)) as i32),
            i % 9 != 0 || i == 0 ==> c == ((4 + 20 * (i % 9)) as i32, (top - 20 * (i / 9)) as i32),
        decreases 27 - i,
    {
        if i % 9 == 0 && i > 0 {
            c.0 = c.0 - 9 * 20;
            c.1 = c.1 - 20;
        }
        slots.push(PixelPos(c));
        c.0 = c.0 + 20;
        i += 1;
    }
}

/// The slot positions of the player inventory: the hotbar row, then three
/// rows of nine above it, the first at height 69 and each next one 20
/// pixels lower.
pub fn player_inventory_slots() -> (r: Vec<PixelPos>)
    ensures
        r@.len() == 36,
        forall|i: int| 0 <= i < 36 ==> r@[i] == player_inventory_slot(i),
{
    let mut slots = hotbar_slots();
    push_grid_slots(&mut slots, 4 + 25 + 2 * 20);
    slots
}

/// The slot positions of a chest: three rows of nine, the first at height
/// 44 and each next one 20 pixels lower.
pub fn chest_slots() -> (r: Vec<PixelPos>)
    ensures
        r@.len() == 27,
        forall|i: int| 0 <= i < 27 ==> r@[i] == grid_slot(44, i),
{
    let mut slots: Vec<PixelPos> = Vec::new();
    push_grid_slots(&mut slots, 4 + 2 * 20);
    slots
}

/// The slot positions of the crafting table: the 3 x 3 grid, bottom row
/// first, then the result slot.
pub fn crafting_slots() -> (r: Vec<PixelPos>)
    ensures
        r@ == seq![
            PixelPos((44i32, 59i32)), PixelPos((64i32, 59i32)), PixelPos((84i32, 59i32)),
            PixelPos((44i32, 39i32)), PixelPos((64i32, 39i32)), PixelPos((84i32, 39i32)),
            PixelPos((44i32, 19i32)), PixelPos((64i32, 19i32)), PixelPos((84i32, 19i32)),
            PixelPos((124i32, 38i32)),
        ],
{
    let r = vec![
        PixelPos((44, 59)), PixelPos((64, 59)), PixelPos((84, 59)),
        PixelPos((44, 39)), PixelPos((64, 39)), PixelPos((84, 39)),
        PixelPos((44, 19)), PixelPos((64, 19)), PixelPos((84, 19)),
        PixelPos((124, 38)),
    ];
    assert(r@ =~= seq![
        PixelPos((44i32, 59i32)), PixelPos((64i32, 59i32)), PixelPos((84i32, 59i32)),
        PixelPos((44i32, 39i32)), PixelPos((64i32, 39i32)), PixelPos((84i32, 39i32)),
        PixelPos((44i32, 19i32)), PixelPos((64i32, 19i32)), PixelPos((84i32, 19i32)),
        PixelPos((124i32, 38i32)),
    ]);
    r
}

/// Whether `p` lies on the 16 x 16 square of a slot at `s`.
pub open spec fn on_slot(s: PixelPos, p: PixelPos) -> bool {
    s.0.0 <= p.0.0 < s.0.0 + 16 && s.0.1 <= p.0.1 < s.0.1 + 16
}

/// The first slot whose 16 x 16 square holds `p`, if any.
pub fn slot_at(slots: &[PixelPos], p: PixelPos) -> (r: Option<usize>)
    ensures
        match r {
            Some(i) => i < slots@.len() && on_slot(slots@[i as int], p) && forall|j: int|
                0 <= j < i ==> !on_slot(#[trigger] slots@[j], p),
            None => forall|j: int| 0 <= j < slots@.len() ==> !on_slot(#[trigger] slots@[j], p),
        },
{
    let mut i: usize = 0;
    while i < slots.len()
        invariant
            0 <= i <= slots@.len(),
            forall|j: int| 0 <= j < i ==> !on_slot(#[trigger] slots@[j], p),
        decreases slots@.len() - i,
    {
        let s = slots[i];
        let (sx, sy): (i64, i64) = (s.0.0 as i64, s.0.1 as i64);
        let (px, py): (i64, i64) = (p.0.0 as i64, p.0.1 as i64);
        if sx <= px && px < sx + 16 && sy <= py && py < sy + 16 {
            return Some(i);
        }
        i += 1;
    }
    None
}

/// The selected hotbar slot after scrolling by `scroll`: it wraps around
/// the nine slots.
pub fn scroll_selection(selected: i32, scroll: i32) -> (r: i32)
    requires
        i32::MIN <= selected + scroll <= i32::MAX,
    ensures
        r == (selected + scroll) % 9,
        0 <= r < 9,
{
    let s = selected + scroll;
    let r = (s % 9 + 9) % 9;
    assert(r == (selected + scroll) % 9) by {
        assert(trunc_rem(s as int, 9) == s % 9 - 9 || trunc_rem(s as int, 9) == s % 9);
    }
    r
}

} // verus!

verus! {

/// The slot of the fixed 900 x 700 inventory screen under the mouse at
/// `m` (y measured downwards): first the hotbar at the bottom centre, then
/// the inventory grid in the middle, each drawn at three times scale with
/// slots 20 pixels apart and 16 wide.
pub open spec fn hovered_slot_spec(m: (int, int)) -> Option<u32> {
    let hx = trunc_div(m.0 - 186, 3);
    let hy = trunc_div((700 - m.1) - 6, 3);
    let ix = trunc_div(m.0 - 186, 3);
    let iy = trunc_div((700 - m.1) - 146, 3);
    if trunc_rem(hx, 20) < 16 && hy < 16 && 0 <= trunc_div(hx, 20) <= 8 {
        Some(trunc_div(hx, 20) as u32)
    } else if trunc_rem(ix, 20) >= 16 || trunc_rem(iy, 20) >= 16 {
        None
    } else if ix < 0 || iy < 0 {
        None
    } else if ix / 20 > 8 || iy / 20 > 2 {
        None
    } else {
        Some((ix / 20 + 9 * (3 - iy / 20)) as u32)
    }
}

/// The 48-pixel square (a 16-pixel slot at three times scale) that slot
/// `k` of the player inventory covers on the 900 x 700 inventory screen,
/// `m` measured with y downwards. Columns start 186 pixels from the left
/// edge, 60 pixels apart. The hotbar slots 0 to 8 lie 6 pixels above the
/// bottom edge; the main inventory lies in three rows, the lowest 146
/// pixels above the bottom edge and rows 60 pixels apart, slots 9 to 17
/// in the top row, 18 to 26 in the middle and 27 to 35 in the bottom row.
pub open spec fn slot_square(k: int, m: (int, int)) -> bool {
    let left = 186 + 60 * (k % 9);
    let bottom: int = if k < 9 {
        6
    } else if k < 18 {
        266
    } else if k < 27 {
        206
    } else {
        146
    };
    left <= m.0 < left + 48 && bottom <= 700 - m.1 < bottom + 48
}

/// Every pixel of the square that slot `k` covers on the inventory screen
/// is hovering over slot `k`.
pub proof fn lemma_hovered_slot_round_trip(k: int, m: (int, int))
    requires
        0 <= k < 36,
        slot_square(k, m),
    ensures
        hovered_slot_spec(m) == Some(k as u32),
{
    let c = k % 9;
    let a = m.0 - 186;
    let up = 700 - m.1;
    assert(0 <= c < 9);
    assert(60 * c <= a < 60 * c + 48);
    let hx = trunc_div(a, 3);
    assert(a >= 0);
    assert(hx == a / 3);
    assert(20 * c <= a / 3 < 20 * c + 16) by (nonlinear_arith)
        requires
            60 * c <= a < 60 * c + 48,
    ;
    assert(trunc_div(hx, 20) == c && trunc_rem(hx, 20) < 16) by (nonlinear_arith)
        requires
            20 * c <= hx < 20 * c + 16,
            hx >= 0,
            trunc_div(hx, 20) == hx / 20,
            trunc_rem(hx, 20) == hx - 20 * (hx / 20),
    ;
    if k < 9 {
        assert(c == k);
        assert(0 <= up - 6 < 48);
        assert(trunc_div(up - 6, 3) < 16) by (nonlinear_arith)
            requires
                0 <= up - 6 < 48,
                trunc_div(up - 6, 3) == (up - 6) / 3,
        ;
    } else {
        let r = 3 - k / 9;
        assert(0 <= r <= 2);
        assert(k == 9 * (3 - r) + c);
        assert(146 + 60 * r <= up < 146 + 60 * r + 48);
        assert(trunc_div(up - 6, 3) >= 16) by (nonlinear_arith)
            requires
                up - 6 >= 140,
                trunc_div(up - 6, 3) == (up - 6) / 3,
        ;
        let b = up - 146;
        let iy = trunc_div(b, 3);
        assert(iy == b / 3);
        assert(20 * r <= b / 3 < 20 * r + 16) by (nonlinear_arith)
            requires
                60 * r <= b < 60 * r + 48,
        ;
        assert(iy / 20 == r && trunc_rem(iy, 20) < 16) by (nonlinear_arith)
            requires
                20 * r <= iy < 20 * r + 16,
                iy >= 0,
                trunc_rem(iy, 20) == iy - 20 * (iy / 20),
        ;
        assert(hx / 20 == c);
    }
}

/// A hovered slot is one of the 36 slots of the player inventory, and one
/// of the main inventory (9 and up) is only hovered over on its square or
/// up to two pixels left of or below it, where the division by the scale
/// rounds towards zero.
pub proof fn lemma_hovered_slot_range(m: (int, int))
    ensures
        hovered_slot_spec(m) is Some ==> hovered_slot_spec(m).unwrap() < 36,
        hovered_slot_spec(m) is Some && hovered_slot_spec(m).unwrap() >= 9 ==> ({
            let k = hovered_slot_spec(m).unwrap() as int;
            slot_square(k, m) || slot_square(k, (m.0 + 2, m.1)) || slot_square(k, (m.0, m.1 - 2)) || slot_square(
                k,
                (m.0 + 2, m.1 - 2),
            )
        }),
{
    let hx = trunc_div(m.0 - 186, 3);
    let hy = trunc_div((700 - m.1) - 6, 3);
    let ix = trunc_div(m.0 - 186, 3);
    let iy = trunc_div((700 - m.1) - 146, 3);
    if !(trunc_rem(hx, 20) < 16 && hy < 16 && 0 <= trunc_div(hx, 20) <= 8) && !(trunc_rem(ix, 20) >= 16
        || trunc_rem(iy, 20) >= 16) && !(ix < 0 || iy < 0) && !(ix / 20 > 8 || iy / 20 > 2) {
        let c = ix / 20;
        let rr = iy / 20;
        let k = c + 9 * (3 - rr);
        assert(0 <= c <= 8 && 0 <= rr <= 2);
        assert(k % 9 == c && 9 <= k < 36);
        let a = m.0 - 186;
        let b = (700 - m.1) - 146;
        assert(ix % 20 < 16 && iy % 20 < 16);
        assert(60 * c - 2 <= a < 60 * c + 48) by (nonlinear_arith)
            requires
                c == ix / 20,
                ix % 20 < 16,
                ix >= 0,
                ix == trunc_div(a, 3),
                a >= 0 ==> trunc_div(a, 3) == a / 3,
                a < 0 ==> trunc_div(a, 3) == -((-a) / 3),
        ;
        assert(60 * rr - 2 <= b < 60 * rr + 48) by (nonlinear_arith)
            requires
                rr == iy / 20,
                iy % 20 < 16,
                iy >= 0,
                iy == trunc_div(b, 3),
                b >= 0 ==> trunc_div(b, 3) == b / 3,
                b < 0 ==> trunc_div(b, 3) == -((-b) / 3),
        ;
    }
}

/// The slot under the mouse at `m` on the fixed-size inventory screen.
pub fn determine_hovered_slot(mouse: (i32, i32)) -> (r: Option<u32>)
    requires
        mouse.0 >= i32::MIN + 186,
        mouse.1 >= 700 - i32::MAX,
    ensures
        r == hovered_slot_spec((mouse.0 as int, mouse.1 as int)),
{
    let (w, h): (i32, i32) = (900, 700);
    let (hw, hh): (i32, i32) = (450, 350);
    // hotbar
    let lr: (i32, i32) = (hw - 3 * 90 + 6, 6);
    let x = (mouse.0 - lr.0) / 3;
    let y = ((h - mouse.1) - lr.1) / 3;
    if x % 20 < 16 && y < 16 {
        let x = x / 20;
        if x >= 0 && x <= 8 {
            return Some(x as u32);
        }
    }
    // inventory
    let lr: (i32, i32) = (hw - 3 * 90 + 6, hh - 3 * 70 + 6);
    let x = (mouse.0 - lr.0) / 3;
    let y = ((h - mouse.1) - lr.1) / 3;
    if x % 20 >= 16 || y % 20 >= 16 {
        return None;
    }
    if x < 0 || y < 0 {
        return None;
    }
    let x = x / 20;
    let y = y / 20;
    if x < 0 || x > 8 || y < 0 || y > 2 {
        return None;
    }
    Some((x + 9 * (3 - y)) as u32)
}

/// Floor division of `a` by 20.
pub open spec fn floor20(a: int) -> int {
    a / 20
}

/// The grid cell of `(x, y)` on a grid of 16-pixel slots 20 pixels apart,
/// when the point lies on a slot.
pub open spec fn grid_cell(x: int, y: int) -> Option<(int, int)> {
    if x % 20 < 16 && y % 20 < 16 {
        Some((floor20(x), floor20(y)))
    } else {
        None
    }
}

/// The player inventory slot at `p` on the inventory texture: a hotbar
/// slot in the bottom row, else one of the three rows of the main
/// inventory, 25 pixels higher, whose top row comes first.
pub open spec fn inventory_slot_at_spec(p: (int, int)) -> Option<usize> {
    let (x, y) = (p.0 - 4, p.1 - 4);
    match grid_cell(x, y) {
        Some((cx, cy)) if 0 <= cx <= 8 && cy == 0 => Some(cx as usize),
        _ => match grid_cell(x, y - 25) {
            Some((cx, cy)) if 0 <= cx <= 8 && 0 <= cy <= 2 => Some((cx + 9 * (2 - cy) + 9) as usize),
            _ => None,
        },
    }
}

/// Every pixel of the square of a player inventory slot maps back to that
/// slot.
pub proof fn lemma_inventory_slot_round_trip(k: int, p: PixelPos)
    requires
        0 <= k < 36,
        on_slot(player_inventory_slot(k), p),
    ensures
        inventory_slot_at_spec((p.0.0 as int, p.0.1 as int)) == Some(k as usize),
{
    let x = p.0.0 - 4;
    let y = p.0.1 - 4;
    if k < 9 {
        assert(20 * k <= x < 20 * k + 16 && 0 <= y < 16);
        assert(x % 20 == x - 20 * k && x / 20 == k) by (nonlinear_arith)
            requires
                20 * k <= x < 20 * k + 16,
        ;
        assert(y % 20 == y && y / 20 == 0);
    } else {
        let i = k - 9;
        let c = i % 9;
        let r = i / 9;
        assert(0 <= c < 9 && 0 <= r < 3 && i == 9 * r + c);
        assert(player_inventory_slot(k) == grid_slot(69, i));
        assert(20 * c <= x < 20 * c + 16);
        assert(65 - 20 * r <= y < 81 - 20 * r);
        assert(x % 20 == x - 20 * c && x / 20 == c) by (nonlinear_arith)
            requires
                20 * c <= x < 20 * c + 16,
        ;
        let y2 = y - 25;
        assert(y2 % 20 == y2 - 20 * (2 - r) && y2 / 20 == 2 - r) by (nonlinear_arith)
            requires
                20 * (2 - r) <= y2 < 20 * (2 - r) + 16,
        ;
        assert(y / 20 != 0 || y % 20 >= 16) by (nonlinear_arith)
            requires
                25 <= y,
        ;
    }
}

/// The cell of the 20-pixel grid holding `(x, y)`, unless it falls in the
/// 4-pixel gap after a slot.
fn grid(x: i64, y: i64) -> (r: Option<(i64, i64)>)
    ensures
        match (r, grid_cell(x as int, y as int)) {
            (Some((a, b)), Some((sa, sb))) => a == sa && b == sb,
            (None, None) => true,
            _ => false,
        },
{
    let rx = x % 20;
    let ry = y % 20;
    let rx = if rx < 0 {
        rx + 20
    } else {
        rx
    };
    let ry = if ry < 0 {
        ry + 20
    } else {
        ry
    };
    if rx < 16 && ry < 16 {
        let fx = if x >= 0 || x % 20 == 0 {
            x / 20
        } else {
            x / 20 - 1
        };
        let fy = if y >= 0 || y % 20 == 0 {
            y / 20
        } else {
            y / 20 - 1
        };
        Some((fx, fy))
    } else {
        None
    }
}

/// The player inventory slot at `p` on the inventory texture, if any.
pub fn player_inventory_slot_at(p: PixelPos) -> (r: Option<usize>)
    ensures
        r == inventory_slot_at_spec((p.0.0 as int, p.0.1 as int)),
{
    let x = p.0.0 as i64 - 4;
    let y = p.0.1 as i64 - 4;
    if let Some((cx, cy)) = grid(x, y) {
        if 0 <= cx && cx <= 8 && cy == 0 {
            return Some(cx as usize);
        }
    }
    let y = y - 25;
    if let Some((cx, cy)) = grid(x, y) {
        if 0 <= cx && cx <= 8 && 0 <= cy && cy <= 2 {
            return Some((cx + 9 * (2 - cy) + 9) as usize);
        }
    }
    None
}

/// The top left corner of a texture of `w` x `h` pixels centred on the
/// fixed 900 x 700 screen at three times scale.
pub open spec fn centred_corner(w: int, h: int) -> (int, int) {
    (450 + 3 * trunc_div(-w, 2), 350 + 3 * trunc_div(-h, 2))
}

/// The slot under the mouse at `m` on an inventory texture of `w` x `h`
/// pixels centred on the fixed-size screen.
pub fn corner_slot(slots: &[PixelPos], w: i32, h: i32, m: PixelPos) -> (r: Option<usize>)
    requires
        w > i32::MIN,
        h > i32::MIN,
        i32::MIN <= 3 * trunc_div(-w, 2) <= i32::MAX,
        i32::MIN <= 3 * trunc_div(-h, 2) <= i32::MAX,
        i32::MIN <= centred_corner(w as int, h as int).0 <= i32::MAX,
        i32::MIN <= centred_corner(w as int, h as int).1 <= i32::MAX,
        i32::MIN <= m.0.0 - centred_corner(w as int, h as int).0 <= i32::MAX,
        i32::MIN <= m.0.1 - centred_corner(w as int, h as int).1 <= i32::MAX,
    ensures
        match (r, slot_at_spec(slots@, PixelPos((
            trunc_div(m.0.0 - centred_corner(w as int, h as int).0, 3) as i32,
            trunc_div(m.0.1 - centred_corner(w as int, h as int).1, 3) as i32,
        )))) {
            (Some(i), Some(j)) => i as int == j,
            (None, None) => true,
            _ => false,
        },
{
    let cx: i32 = 450 + 3 * (-w / 2);
    let cy: i32 = 350 + 3 * (-h / 2);
    let mp = PixelPos(((m.0.0 - cx) / 3, (m.0.1 - cy) / 3));
    slot_at(slots, mp)
}

/// The index of the first slot whose square holds `p`.
pub open spec fn slot_at_spec(slots: Seq<PixelPos>, p: PixelPos) -> Option<int> {
    if exists|i: int| 0 <= i < slots.len() && on_slot(#[trigger] slots[i], p) {
        Some(choose|i: int| 0 <= i < slots.len() && on_slot(#[trigger] slots[i], p) && forall|j: int| 0 <= j < i ==> !on_slot(#[trigger] slots[j], p))
    } else {
        None
    }
}

} // verus!
