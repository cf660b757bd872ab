//! The content that ships with the game: the base mod and how its recipe
//! files become grid patterns.
use vstd::prelude::*;
use crate::item::ItemLike;

verus! {

/// The mod holding the game's own blocks, items, entities and recipes.
#[derive(Clone, Copy, Debug)]
pub struct BaseMod;

impl BaseMod {
    /// The mod's name.
    pub fn name(&self) -> (r: &'static str)
        ensures
            r@ == "rustcraft"@,
    {
        "rustcraft"
    }
}

/// The slots of the crafting grid.
pub const GRID_SLOTS: usize = 9;

/// The id of a kind, as text.
pub open spec fn kind_id(k: ItemLike) -> Seq<char> {
    match k {
        ItemLike::Block(b) => b@.0.id@,
        ItemLike::Item(i) => i@.0.id@,
    }
}

/// Slot `i` of the grid pattern a recipe file's slots give: the kind named
/// there, empty for air, and empty past the slots the file lists.
pub open spec fn pattern_slot(slots: Seq<Option<ItemLike>>, i: int) -> Option<ItemLike> {
    if 0 <= i < slots.len() {
        match slots[i] {
            Some(k) => if kind_id(k) == "air"@ {
                None
            } else {
                Some(k)
            },
            None => None,
        }
    } else {
        None
    }
}

/// The grid pattern of a recipe whose slots name the kinds `slots` (a slot
/// is `None` where its id names no kind): air counts as an empty slot, and
/// the pattern is cut or padded with empty slots to the nine of the grid.
pub fn grid_pattern(slots: &[Option<ItemLike>]) -> (r: Vec<Option<ItemLike>>)
    ensures
        r@.len() == GRID_SLOTS,
        forall|i: int| 0 <= i < GRID_SLOTS ==> #[trigger] r@[i] == pattern_slot(slots@, i),
{
    let air = "air".to_owned();
    proof {
        reveal_strlit("air");
    }
    let mut r: Vec<Option<ItemLike>> = Vec::new();
    let mut i: usize = 0;
    while i < GRID_SLOTS
        invariant
            i <= GRID_SLOTS,
            r@.len() == i,
            air@ == "air"@,
            forall|j: int| 0 <= j < i ==> #[trigger] r@[j] == pattern_slot(slots@, j),
        decreases GRID_SLOTS - i,
    {
        let slot = if i < slots.len() {
            match &slots[i] {
                Some(k) => {
                    let id = k.id().to_owned();
                    if id == air {
                        None
                    } else {
                        Some(k.clone())
                    }
                },
                None => None,
            }
        } else {
            None
        };
        r.push(slot);
        i = i + 1;
    }
    r
}

} // verus!
