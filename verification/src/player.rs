//! The player's inventory and the data attached to the player entity.
use vstd::prelude::*;
use crate::item::{ItemLike, ItemStack, stack_count, stacks_with, slots_stack, transfer_outcome};

verus! {

/// The number of slots of the player's inventory: the hotbar first, then
/// three rows of nine.
pub const INVENTORY_SIZE: usize = 36;

/// The number of hotbar slots, at the start of the inventory.
pub const HOTBAR_SIZE: usize = 9;

/// The number of items held in a run of slots.
pub open spec fn slots_total(s: Seq<Option<ItemStack>>) -> int
    decreases s.len(),
{
    if s.len() == 0 {
        0
    } else {
        slots_total(s.drop_last()) + stack_count(s.last())
    }
}

/// No slot holds more than a full stack.
pub open spec fn slots_fit(s: Seq<Option<ItemStack>>) -> bool {
    forall|i: int| 0 <= i < s.len() ==> stack_count(#[trigger] s[i]) <= 64
}

/// A slot after items of kind `it` were merged into it: unchanged, or a
/// stack of at least as many items, of its own kind, which may stack with
/// `it`, when it held one, and of kind `it` when it was empty.
pub open spec fn slot_grew(before: Option<ItemStack>, after: Option<ItemStack>, it: ItemLike) -> bool {
    ||| after == before
    ||| {
        &&& after is Some
        &&& stack_count(after) >= stack_count(before)
        &&& match before {
            Some(b) => after.unwrap().item == b.item && stacks_with(it, b.item),
            None => after.unwrap().item == it,
        }
    }
}

/// Merging items of one kind twice into a slot is merging them into it.
pub proof fn lemma_slot_grew_trans(a: Option<ItemStack>, b: Option<ItemStack>, c: Option<ItemStack>, it: ItemLike)
    requires
        slot_grew(a, b, it),
        slot_grew(b, c, it),
    ensures
        slot_grew(a, c, it),
{
}

/// Replacing one slot changes the total by the difference of the two counts.
pub proof fn lemma_slots_total_update(s: Seq<Option<ItemStack>>, i: int, x: Option<ItemStack>)
    requires
        0 <= i < s.len(),
    ensures
        slots_total(s.update(i, x)) == slots_total(s) - stack_count(s[i]) + stack_count(x),
    decreases s.len(),
{
    if i == s.len() - 1 {
        assert(s.update(i, x).drop_last() =~= s.drop_last());
    } else {
        lemma_slots_total_update(s.drop_last(), i, x);
        assert(s.update(i, x).drop_last() =~= s.drop_last().update(i, x));
    }
}

/// Every slot of a run is non-negative in count, so the total is too.
pub proof fn lemma_slots_total_nonneg(s: Seq<Option<ItemStack>>)
    ensures
        slots_total(s) >= 0,
    decreases s.len(),
{
    if s.len() > 0 {
        lemma_slots_total_nonneg(s.drop_last());
    }
}

/// The number of empty slots in a run of slots.
pub open spec fn empty_slots(s: Seq<Option<ItemStack>>) -> nat
    decreases s.len(),
{
    if s.len() == 0 {
        0
    } else {
        empty_slots(s.drop_last()) + if s.last() is None {
            1nat
        } else {
            0nat
        }
    }
}

/// Replacing one slot changes the number of empty slots by whether the old
/// and the new slot are empty.
pub proof fn lemma_empty_slots_update(s: Seq<Option<ItemStack>>, i: int, x: Option<ItemStack>)
    requires
        0 <= i < s.len(),
    ensures
        empty_slots(s.update(i, x)) + (if s[i] is None { 1int } else { 0int }) == empty_slots(s) + (if x is None {
            1int
        } else {
            0int
        }),
    decreases s.len(),
{
    if i == s.len() - 1 {
        assert(s.update(i, x).drop_last() =~= s.drop_last());
    } else {
        lemma_empty_slots_update(s.drop_last(), i, x);
        assert(s.update(i, x).drop_last() =~= s.drop_last().update(i, x));
    }
}

/// Runs with the same empty slots have as many empty slots.
pub proof fn lemma_empty_slots_same(a: Seq<Option<ItemStack>>, b: Seq<Option<ItemStack>>)
    requires
        a.len() == b.len(),
        forall|k: int| 0 <= k < a.len() ==> (a[k] is None <==> b[k] is None),
    ensures
        empty_slots(a) == empty_slots(b),
    decreases a.len(),
{
    if a.len() > 0 {
        lemma_empty_slots_same(a.drop_last(), b.drop_last());
    }
}

/// A run with no empty slot counts none.
pub proof fn lemma_empty_slots_full(s: Seq<Option<ItemStack>>)
    requires
        forall|k: int| 0 <= k < s.len() ==> s[k] is Some,
    ensures
        empty_slots(s) == 0,
    decreases s.len(),
{
    if s.len() > 0 {
        lemma_empty_slots_full(s.drop_last());
    }
}

/// A run with an empty slot counts at least one empty slot.
pub proof fn lemma_empty_slots_some(s: Seq<Option<ItemStack>>, k: int)
    requires
        0 <= k < s.len(),
        s[k] is None,
    ensures
        empty_slots(s) >= 1,
    decreases s.len(),
{
    if k < s.len() - 1 {
        lemma_empty_slots_some(s.drop_last(), k);
    }
}

/// The slots from `i` on after the stack `st` was merged onto each
/// occupied one in turn, until nothing is left, and what is left.
pub open spec fn merge_pass(slots: Seq<Option<ItemStack>>, st: Option<ItemStack>, i: int) -> (
    Seq<Option<ItemStack>>,
    Option<ItemStack>,
)
    decreases slots.len() - i,
{
    if i < 0 || i >= slots.len() || st is None {
        (slots, st)
    } else if slots[i] is Some {
        let o = transfer_outcome(st, slots[i], slots_stack(st, slots[i]));
        merge_pass(slots.update(i, o.1), o.0, i + 1)
    } else {
        merge_pass(slots, st, i + 1)
    }
}

/// The first empty slot from `i` on, if any.
pub open spec fn first_none_from(slots: Seq<Option<ItemStack>>, i: int) -> Option<int>
    decreases slots.len() - i,
{
    if i < 0 || i >= slots.len() {
        None
    } else if slots[i] is None {
        Some(i)
    } else {
        first_none_from(slots, i + 1)
    }
}

/// The slots after the stack `st` was merged into them, and what did not
/// fit: onto the stacks it stacks with, slot by slot, up to 64 each, then
/// whatever is left into the first empty slot.
pub open spec fn merged(slots: Seq<Option<ItemStack>>, st: Option<ItemStack>) -> (
    Seq<Option<ItemStack>>,
    Option<ItemStack>,
) {
    let p = merge_pass(slots, st, 0);
    if p.1 is None {
        p
    } else {
        match first_none_from(p.0, 0) {
            Some(j) => (p.0.update(j, p.1), None),
            None => p,
        }
    }
}

/// The slots after `left` items of kind `it` were given in stacks of 64
/// (the last one smaller), each merged in turn, and how many items found
/// no room, `lost` of them already.
pub open spec fn given(slots: Seq<Option<ItemStack>>, it: ItemLike, left: nat, lost: int) -> (
    Seq<Option<ItemStack>>,
    int,
)
    decreases left,
{
    if left == 0 {
        (slots, lost)
    } else {
        let n: nat = if left < 64 { left } else { 64 };
        let m = merged(slots, Some(ItemStack { count: n as usize, item: it }));
        given(m.0, it, (left - n) as nat, lost + stack_count(m.1))
    }
}

/// The slots of the player's inventory.
#[derive(Debug)]
pub struct PlayerInventory {
    pub data: Vec<Option<ItemStack>>,
}

impl Default for PlayerInventory {
    fn default() -> (r: Self)
        ensures
            r.data@.len() == INVENTORY_SIZE,
            forall|i: int| 0 <= i < r.data@.len() ==> r.data@[i] is None,
    {
        let mut data: Vec<Option<ItemStack>> = Vec::new();
        let mut i: usize = 0;
        while i < INVENTORY_SIZE
            invariant
                i <= INVENTORY_SIZE,
                data@.len() == i,
                forall|k: int| 0 <= k < data@.len() ==> data@[k] is None,
            decreases INVENTORY_SIZE - i,
        {
            data.push(None);
            i = i + 1;
        }
        PlayerInventory { data }
    }
}

impl PlayerInventory {
    /// Whether no slot holds more than a full stack, as merging into the
    /// inventory needs.
    pub fn stacks_fit(&self) -> (r: bool)
        ensures
            r == slots_fit(self.data@),
    {
        let mut i: usize = 0;
        while i < self.data.len()
            invariant
                i <= self.data@.len(),
                forall|k: int| 0 <= k < i ==> stack_count(#[trigger] self.data@[k]) <= 64,
            decreases self.data@.len() - i,
        {
            match &self.data[i] {
                Some(s) => {
                    if s.count > 64 {
                        return false;
                    }
                },
                None => {},
            }
            i = i + 1;
        }
        true
    }

    /// The first empty slot, if any.
    pub fn first_empty(&self) -> (r: Option<usize>)
        ensures
            match r {
                Some(j) => j < self.data@.len() && self.data@[j as int] is None && forall|k: int|
                    0 <= k < j ==> self.data@[k] is Some,
                None => forall|k: int| 0 <= k < self.data@.len() ==> self.data@[k] is Some,
            },
            match r {
                Some(j) => first_none_from(self.data@, 0) == Some(j as int),
                None => first_none_from(self.data@, 0) is None,
            },
    {
        let mut j: usize = 0;
        while j < self.data.len()
            invariant
                j <= self.data@.len(),
                forall|k: int| 0 <= k < j ==> self.data@[k] is Some,
                first_none_from(self.data@, 0) == first_none_from(self.data@, j as int),
            decreases self.data@.len() - j,
        {
            if self.data[j].is_none() {
                return Some(j);
            }
            j = j + 1;
        }
        None
    }

    /// Puts a stack into the inventory: first onto the stacks of the same
    /// kind, slot by slot, up to 64 each, then whatever is left into the
    /// first empty slot. What does not fit stays in `stack`, which is only
    /// the case when no slot is empty.
    pub fn merge(&mut self, stack: &mut Option<ItemStack>)
        requires
            slots_fit(old(self).data@),
        ensures
            final(self).data@.len() == old(self).data@.len(),
            stack_count(*old(stack)) <= 64 ==> slots_fit(final(self).data@),
            slots_total(final(self).data@) + stack_count(*final(stack)) == slots_total(old(self).data@)
                + stack_count(*old(stack)),
            stack_count(*final(stack)) <= stack_count(*old(stack)),
            *old(stack) is None ==> final(self).data@ == old(self).data@ && *final(stack) is None,
            *final(stack) is Some ==> {
                &&& *old(stack) is Some
                &&& final(stack).unwrap().item == old(stack).unwrap().item
                &&& forall|k: int| 0 <= k < final(self).data@.len() ==> final(self).data@[k] is Some
            },
            forall|k: int|
                0 <= k < old(self).data@.len() ==> slot_grew(
                    old(self).data@[k],
                    #[trigger] final(self).data@[k],
                    old(stack).unwrap().item,
                ),
            forall|k: int|
                0 <= k < old(self).data@.len() && old(self).data@[k] is None && #[trigger] final(self).data@[k] is Some
                    ==> forall|j: int| 0 <= j < k ==> old(self).data@[j] is Some,
            empty_slots(final(self).data@) + 1 >= empty_slots(old(self).data@),
            *old(stack) is Some && empty_slots(old(self).data@) > 0 ==> *final(stack) is None,
            (final(self).data@, *final(stack)) == merged(old(self).data@, *old(stack)),
    {
        let ghost it = old(stack).unwrap().item;
        let mut i: usize = 0;
        while i < self.data.len() && stack.is_some()
            invariant
                merge_pass(old(self).data@, *old(stack), 0) == merge_pass(self.data@, *stack, i as int),
                i <= self.data@.len(),
                self.data@.len() == old(self).data@.len(),
                slots_fit(self.data@),
                slots_total(self.data@) + stack_count(*stack) == slots_total(old(self).data@)
                    + stack_count(*old(stack)),
                stack_count(*stack) <= stack_count(*old(stack)),
                *stack is Some ==> *old(stack) is Some && stack.unwrap().item == it,
                *old(stack) is None ==> *stack is None && self.data@ == old(self).data@,
                it == old(stack).unwrap().item,
                forall|k: int|
                    0 <= k < self.data@.len() ==> (#[trigger] self.data@[k] is None <==> old(
                        self,
                    ).data@[k] is None),
                forall|k: int|
                    0 <= k < self.data@.len() ==> slot_grew(old(self).data@[k], #[trigger] self.data@[k], it),
            decreases self.data@.len() - i,
        {
            if self.data[i].is_some() {
                let same = match (&*stack, &self.data[i]) {
                    (Some(a), Some(b)) => a.item.same_as(&b.item),
                    _ => false,
                };
                let ghost before = self.data@;
                let ghost st = *stack;
                assert(stack_count(before[i as int]) <= 64);
                assert(same ==> stacks_with(it, before[i as int].unwrap().item));
                ItemStack::merge_by(stack, &mut self.data[i], same);
                proof {
                    assert(same == slots_stack(st, before[i as int]));
                    lemma_slots_total_update(before, i as int, self.data@[i as int]);
                    assert(self.data@ == before.update(i as int, self.data@[i as int]));
                    assert forall|k: int| 0 <= k < self.data@.len() implies stack_count(
                        #[trigger] self.data@[k],
                    ) <= 64 by {
                        if k != i {
                            assert(self.data@[k] == before[k]);
                        }
                    }
                    assert forall|k: int| 0 <= k < self.data@.len() implies slot_grew(
                        old(self).data@[k],
                        #[trigger] self.data@[k],
                        it,
                    ) by {
                        if k != i {
                            assert(self.data@[k] == before[k]);
                        }
                    }
                }
            }
            i = i + 1;
        }
        proof {
            lemma_empty_slots_same(self.data@, old(self).data@);
            assert(merge_pass(self.data@, *stack, i as int) == (self.data@, *stack));
        }
        if stack.is_some() {
            match self.first_empty() {
                Some(j) => {
                    let ghost before = self.data@;
                    let ghost st = *stack;
                    std::mem::swap(stack, &mut self.data[j]);
                    proof {
                        lemma_slots_total_update(before, j as int, st);
                        lemma_empty_slots_update(before, j as int, st);
                        assert(self.data@ == before.update(j as int, st));
                        assert forall|k: int|
                            0 <= k < old(self).data@.len() && old(self).data@[k] is None
                                && #[trigger] self.data@[k] is Some implies forall|i: int|
                            0 <= i < k ==> old(self).data@[i] is Some by {
                            if k != j {
                                assert(self.data@[k] == before[k]);
                            }
                            assert forall|i: int| 0 <= i < k implies old(self).data@[i] is Some by {
                                assert(before[i] is Some);
                            }
                        }
                        if stack_count(*old(stack)) <= 64 {
                            assert forall|k: int| 0 <= k < self.data@.len() implies stack_count(
                                #[trigger] self.data@[k],
                            ) <= 64 by {
                                if k != j {
                                    assert(self.data@[k] == before[k]);
                                }
                            }
                        }
                    }
                },
                None => {
                    proof {
                        lemma_empty_slots_full(self.data@);
                    }
                },
            }
        }
    }

    /// Gives `count` items of kind `item`, in stacks of at most 64, merging
    /// each into the inventory. Returns how many items found no room.
    pub fn give(&mut self, item: &ItemLike, count: usize) -> (lost: usize)
        requires
            slots_fit(old(self).data@),
        ensures
            final(self).data@.len() == old(self).data@.len(),
            slots_fit(final(self).data@),
            slots_total(final(self).data@) + lost == slots_total(old(self).data@) + count,
            lost <= count,
            lost > 0 ==> forall|k: int| 0 <= k < final(self).data@.len() ==> final(self).data@[k] is Some,
            count <= 64 * empty_slots(old(self).data@) ==> lost == 0,
            forall|k: int|
                0 <= k < old(self).data@.len() ==> slot_grew(old(self).data@[k], #[trigger] final(self).data@[k], *item),
            (final(self).data@, lost as int) == given(old(self).data@, *item, count as nat, 0),
    {
        let mut left: usize = count;
        let mut lost: usize = 0;
        while left > 0
            invariant
                self.data@.len() == old(self).data@.len(),
                slots_fit(self.data@),
                slots_total(self.data@) + left + lost == slots_total(old(self).data@) + count,
                lost + left <= count,
                lost > 0 ==> forall|k: int| 0 <= k < self.data@.len() ==> self.data@[k] is Some,
                count <= 64 * empty_slots(old(self).data@) ==> lost == 0 && left <= 64 * empty_slots(self.data@),
                forall|k: int|
                    0 <= k < old(self).data@.len() ==> slot_grew(old(self).data@[k], #[trigger] self.data@[k], *item),
                given(old(self).data@, *item, count as nat, 0) == given(self.data@, *item, left as nat, lost as int),
            decreases left,
        {
            let rem = if left < 64 {
                left
            } else {
                64
            };
            left = left - rem;
            let mut s = Some(ItemStack::of(item.clone(), rem));
            assert(s == Some(ItemStack { count: rem, item: *item }));
            let ghost before = self.data@;
            self.merge(&mut s);
            proof {
                assert forall|k: int| 0 <= k < self.data@.len() && lost > 0 implies self.data@[k] is Some by {
                    assert(slot_grew(before[k], self.data@[k], *item));
                }
                assert forall|k: int| 0 <= k < old(self).data@.len() implies slot_grew(
                    old(self).data@[k],
                    #[trigger] self.data@[k],
                    *item,
                ) by {
                    lemma_slot_grew_trans(old(self).data@[k], before[k], self.data@[k], *item);
                }
            }
            match s {
                Some(rest) => {
                    lost = lost + rest.count;
                },
                None => {},
            }
        }
        lost
    }
}

/// The data attached to the player entity.
#[derive(Debug)]
pub struct PlayerData {
    pub inventory: PlayerInventory,
}

impl Default for PlayerData {
    fn default() -> (r: Self)
        ensures
            r.inventory.data@.len() == INVENTORY_SIZE,
            forall|i: int| 0 <= i < r.inventory.data@.len() ==> r.inventory.data@[i] is None,
    {
        PlayerData { inventory: PlayerInventory::default() }
    }
}

impl PlayerData {
    /// A player with an empty inventory.
    pub fn new() -> (r: Self)
        ensures
            r.inventory.data@.len() == INVENTORY_SIZE,
            forall|i: int| 0 <= i < r.inventory.data@.len() ==> r.inventory.data@[i] is None,
    {
        Self::default()
    }
}

} // verus!
