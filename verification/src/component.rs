//! Components of entities: dropped items, falling blocks and path finding.
use vstd::prelude::*;
use crate::coords::BlockPos;
use crate::item::{ItemStack, stack_count};
use crate::player::{PlayerInventory, empty_slots, merged, slot_grew, slots_fit, slots_total};

verus! {

/// How many seconds a dropped item lives.
pub const LIVE_SECS: usize = 10;

/// Game ticks per second.
pub const TICKS_PER_SEC: usize = 20;

/// Ticks an item must have lived before it can be picked up.
pub const PICKUP_DELAY: usize = 3;

/// Ticks to wait after a path search before the next one.
pub const SEARCH_DELAY: u32 = 40;

/// Whether a block that falls under gravity leaves its place when it is
/// updated: the block below is loaded (`below_solid` holds whether it is
/// solid) and is not solid.
pub fn falls(below_solid: Option<bool>) -> (r: bool)
    ensures
        r == (below_solid == Some(false)),
{
    match below_solid {
        Some(solid) => !solid,
        None => false,
    }
}

/// A dropped stack of items and the number of ticks it has lived.
#[derive(Debug)]
pub struct ItemCmp {
    pub item: ItemStack,
    pub age: usize,
}

impl From<ItemStack> for ItemCmp {
    fn from(item: ItemStack) -> (r: Self) {
        ItemCmp { item, age: 0 }
    }
}

impl vstd::std_specs::convert::FromSpecImpl<ItemStack> for ItemCmp {
    open spec fn obeys_from_spec() -> bool {
        true
    }

    open spec fn from_spec(v: ItemStack) -> Self {
        ItemCmp { item: v, age: 0 }
    }
}

impl ItemCmp {
    /// Whether the item has lived long enough to be picked up.
    pub fn pickable(&self) -> (r: bool)
        ensures
            r == (self.age > PICKUP_DELAY),
    {
        self.age > PICKUP_DELAY
    }

    /// The player picks the item up: the stack is merged into the
    /// inventory. Returns whether all of it went in, when the item is gone;
    /// otherwise the item keeps what did not fit.
    pub fn pick_up(&mut self, inv: &mut PlayerInventory) -> (gone: bool)
        requires
            slots_fit(old(inv).data@),
        ensures
            final(inv).data@.len() == old(inv).data@.len(),
            old(self).item.count <= 64 ==> slots_fit(final(inv).data@),
            final(self).age == old(self).age,
            final(self).item.item == old(self).item.item,
            gone ==> slots_total(final(inv).data@) == slots_total(old(inv).data@) + old(self).item.count,
            !gone ==> slots_total(final(inv).data@) + final(self).item.count == slots_total(old(inv).data@)
                + old(self).item.count,
            !gone ==> forall|k: int| 0 <= k < final(inv).data@.len() ==> final(inv).data@[k] is Some,
            empty_slots(old(inv).data@) > 0 ==> gone,
            forall|k: int|
                0 <= k < old(inv).data@.len() ==> slot_grew(
                    old(inv).data@[k],
                    #[trigger] final(inv).data@[k],
                    old(self).item.item,
                ),
            (final(inv).data@, if gone {
                None
            } else {
                Some(final(self).item)
            }) == merged(old(inv).data@, Some(old(self).item)),
    {
        let mut s = Some(self.item.clone());
        inv.merge(&mut s);
        match s {
            None => true,
            Some(rest) => {
                self.item = rest;
                false
            },
        }
    }

    /// One tick older. Returns whether the item has outlived its time and
    /// disappears.
    pub fn tick_age(&mut self) -> (expired: bool)
        requires
            old(self).age < usize::MAX,
        ensures
            final(self).age == old(self).age + 1,
            final(self).item == old(self).item,
            expired == (final(self).age > TICKS_PER_SEC * LIVE_SECS),
    {
        self.age = self.age + 1;
        self.age > TICKS_PER_SEC * LIVE_SECS
    }
}

/// An entity that searches a path to a target block.
#[derive(Debug)]
pub struct PathFinding {
    pub target: Option<BlockPos>,
    pub path: Option<Vec<BlockPos>>,
    pub search_delay: u32,
}

impl PathFinding {
    /// No target, no path, ready to search.
    pub fn new() -> (r: Self)
        ensures
            r.target is None,
            r.path is None,
            r.search_delay == 0,
    {
        PathFinding { target: None, path: None, search_delay: 0 }
    }

    /// Sets a new target; the old path is dropped.
    pub fn retarget(&mut self, target: BlockPos)
        ensures
            final(self).target == Some(target),
            final(self).path is None,
            final(self).search_delay == old(self).search_delay,
    {
        self.target = Some(target);
        self.path = None;
    }

    /// One tick of the search: with a target and no path, a search is due
    /// when the delay has run out, and the delay starts again; otherwise the
    /// delay counts down. Returns the target to search a path to, if a
    /// search is due.
    pub fn tick(&mut self) -> (search: Option<BlockPos>)
        ensures
            final(self).target == old(self).target,
            final(self).path == old(self).path,
            if old(self).path is None && old(self).target is Some {
                if old(self).search_delay == 0 {
                    search == old(self).target && final(self).search_delay == SEARCH_DELAY
                } else {
                    search is None && final(self).search_delay == old(self).search_delay - 1
                }
            } else {
                search is None && final(self).search_delay == old(self).search_delay
            },
    {
        if self.path.is_none() && self.target.is_some() {
            if self.search_delay == 0 {
                self.search_delay = SEARCH_DELAY;
                self.target
            } else {
                self.search_delay = self.search_delay - 1;
                None
            }
        } else {
            None
        }
    }

    /// Stores the result of a path search.
    pub fn set_path(&mut self, path: Option<Vec<BlockPos>>)
        ensures
            final(self).path == path,
            final(self).target == old(self).target,
            final(self).search_delay == old(self).search_delay,
    {
        self.path = path;
    }
}

} // verus!
