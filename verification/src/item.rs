//! Items, blocks as items, and stacks of them.
use vstd::prelude::*;
use std::sync::Arc;

verus! {

/// Clones an `Arc`.
///
/// Trusted: `Arc::clone` makes another pointer to the same allocation, so
/// the clone holds the same value.
#[verifier::external_body]
fn arc_clone<T>(a: &Arc<T>) -> (r: Arc<T>)
    ensures
        r == *a,
{
    Arc::clone(a)
}

/// The address of the value that an `Arc` points to. Two `Arc`s alive at
/// once point to the same allocation exactly when their addresses are
/// equal, which is how `Arc::ptr_eq` compares them.
///
/// Trusted: `Arc::as_ptr` gives that address; nothing is stated of which
/// address it is.
#[verifier::external_body]
fn arc_address<T>(a: &Arc<T>) -> (r: usize) {
    Arc::as_ptr(a) as usize
}

/// The data of an item kind.
#[derive(Debug)]
pub struct ItemData {
    pub id: String,
    pub name: String,
    pub texture: usize,
}

impl Clone for ItemData {
    fn clone(&self) -> (r: Self)
        ensures
            r == *self,
    {
        ItemData { id: self.id.clone(), name: self.name.clone(), texture: self.texture }
    }
}

/// Two item data with the same id, name and texture.
pub open spec fn same_item_data(a: ItemData, b: ItemData) -> bool {
    a.id@ == b.id@ && a.name@ == b.name@ && a.texture == b.texture
}

impl ItemData {
    /// Whether two item data are equal field by field.
    pub fn same_data(&self, other: &Self) -> (r: bool)
        ensures
            r == same_item_data(*self, *other),
    {
        self.id == other.id && self.name == other.name && self.texture == other.texture
    }
}

/// An item: shared data with a flag telling whether it is the registered,
/// shared instance of its kind, and the address of that data, which tells
/// instances apart (clones share it).
#[derive(Debug)]
pub struct Item(pub(crate) Arc<(ItemData, bool)>, pub(crate) usize);

/// Makes the `Arc` the only owner of its value, cloning the value first
/// when it is shared, and hands out the value mutably.
///
/// Trusted: `Arc::make_mut` hands out the value it holds when it is the only
/// owner, else a clone of it (the pair clones field by field, the flag by
/// copy); what is written through the returned reference is what the
/// `Arc` holds afterwards.
#[verifier::external_body]
fn arc_make_mut<D: Clone>(a: &mut Arc<(D, bool)>) -> (r: &mut (D, bool))
    ensures
        r.0 == old(a).0 || cloned::<D>(old(a).0, r.0),
        r.1 == old(a).1,
        *final(a) == *final(r),
{
    Arc::make_mut(a)
}

impl Item {
    /// Which instance this is: the address of its data.
    pub closed spec fn instance(&self) -> usize {
        self.1
    }
}

impl View for Item {
    type V = (ItemData, bool);

    /// The item's data and whether it is the registered, shared instance.
    closed spec fn view(&self) -> (ItemData, bool) {
        *self.0
    }
}

impl Clone for Item {
    fn clone(&self) -> (r: Self)
        ensures
            r == *self,
    {
        Item(arc_clone(&self.0), self.1)
    }
}

impl Item {
    /// The registered, shared instance of an item kind.
    pub fn new_registered_as_shared(data: ItemData) -> (r: Self)
        ensures
            r@.0 == data,
            r@.1,
    {
        let a = Arc::new((data, true));
        let n = arc_address(&a);
        Item(a, n)
    }

    /// An item instance of its own.
    pub fn new_not_shared(data: ItemData) -> (r: Self)
        ensures
            r@.0 == data,
            !r@.1,
    {
        let a = Arc::new((data, false));
        let n = arc_address(&a);
        Item(a, n)
    }

    /// Gives mutable access to the item's data; the item is no longer the
    /// shared instance.
    pub fn mutate(&mut self) -> (r: &mut ItemData)
        ensures
            *r == old(self)@.0,
            final(self)@.0 == *final(r),
            !final(self)@.1,
    {
        let _ = arc_make_mut(&mut self.0);
        self.1 = arc_address(&self.0);
        let mt = arc_make_mut(&mut self.0);
        mt.1 = false;
        &mut mt.0
    }

    /// Whether this is the registered, shared instance of its kind.
    pub fn is_shared(&self) -> (r: bool)
        ensures
            r == self@.1,
    {
        self.0.1
    }

    /// Whether both are the same instance, that is, share one allocation.
    pub fn ptr_eq(&self, rhs: &Self) -> (r: bool)
        ensures
            r == (self.instance() == rhs.instance()),
    {
        self.1 == rhs.1
    }

    /// The item's data.
    pub fn data(&self) -> (r: &ItemData)
        ensures
            *r == self@.0,
    {
        &self.0.0
    }
}

} // verus!

verus! {

/// The data of a block kind.
#[derive(Debug)]
pub struct BlockData {
    pub id: String,
    pub name: String,
    pub solid: bool,
    pub transparent: bool,
    pub semi_transparent: bool,
    pub group_transparent: bool,
    pub replacable: bool,
    pub flammable: bool,
    pub light: u8,
    pub no_render: bool,
    pub texture: (usize, usize, usize),
    pub has_gravity: bool,
    pub drops: Option<String>,
}

impl Clone for BlockData {
    fn clone(&self) -> (r: Self)
        ensures
            r == *self,
    {
        BlockData {
            id: self.id.clone(),
            name: self.name.clone(),
            solid: self.solid,
            transparent: self.transparent,
            semi_transparent: self.semi_transparent,
            group_transparent: self.group_transparent,
            replacable: self.replacable,
            flammable: self.flammable,
            light: self.light,
            no_render: self.no_render,
            texture: self.texture,
            has_gravity: self.has_gravity,
            drops: match &self.drops {
                Some(d) => Some(d.clone()),
                None => None,
            },
        }
    }
}

impl BlockData {
    /// Two blocks render alike when they have the same textures, the same
    /// transparency and are both rendered or both not.
    pub fn render_eq(&self, rhs: &Self) -> (r: bool)
        ensures
            r == (self.texture == rhs.texture && self.transparent == rhs.transparent && self.no_render
                == rhs.no_render),
    {
        self.texture.0 == rhs.texture.0 && self.texture.1 == rhs.texture.1 && self.texture.2
            == rhs.texture.2 && self.transparent == rhs.transparent && self.no_render == rhs.no_render
    }
}

/// A block: shared data with a flag telling whether it is the registered,
/// shared instance of its kind, and the address of that data, which tells
/// instances apart (clones share it). Two blocks are the same kind when
/// they are the same instance.
#[derive(Debug)]
pub struct Block(pub(crate) Arc<(BlockData, bool)>, pub(crate) usize);

impl Block {
    /// Which instance this is: the address of its data.
    pub closed spec fn instance(&self) -> usize {
        self.1
    }
}

impl View for Block {
    type V = (BlockData, bool);

    /// The block's data and whether it is the registered, shared instance.
    closed spec fn view(&self) -> (BlockData, bool) {
        *self.0
    }
}

impl Clone for Block {
    fn clone(&self) -> (r: Self)
        ensures
            r == *self,
    {
        Block(arc_clone(&self.0), self.1)
    }
}

impl Block {
    /// The registered, shared instance of a block kind.
    pub fn new_registered_as_shared(data: BlockData) -> (r: Self)
        ensures
            r@.0 == data,
            r@.1,
    {
        let a = Arc::new((data, true));
        let n = arc_address(&a);
        Block(a, n)
    }

    /// A block instance of its own.
    pub fn new_not_shared(data: BlockData) -> (r: Self)
        ensures
            r@.0 == data,
            !r@.1,
    {
        let a = Arc::new((data, false));
        let n = arc_address(&a);
        Block(a, n)
    }

    /// Gives mutable access to the block's data; the block is no longer the
    /// shared instance.
    pub fn mutate(&mut self) -> (r: &mut BlockData)
        ensures
            *r == old(self)@.0,
            final(self)@.0 == *final(r),
            !final(self)@.1,
    {
        let _ = arc_make_mut(&mut self.0);
        self.1 = arc_address(&self.0);
        let mt = arc_make_mut(&mut self.0);
        mt.1 = false;
        &mut mt.0
    }

    /// Whether this is the registered, shared instance of its kind.
    pub fn is_shared(&self) -> (r: bool)
        ensures
            r == self@.1,
    {
        self.0.1
    }

    /// Whether both are the same instance, that is, share one allocation.
    pub fn ptr_eq(&self, rhs: &Self) -> (r: bool)
        ensures
            r == (self.instance() == rhs.instance()),
    {
        self.1 == rhs.1
    }

    /// The shared allocation behind the block.
    pub fn allocation(&self) -> (r: &Arc<(BlockData, bool)>)
        ensures
            **r == self@,
    {
        &self.0
    }

    /// Whether the two blocks render alike.
    pub fn render_eq(&self, rhs: &Self) -> (r: bool)
        ensures
            r == (self@.0.texture == rhs@.0.texture && self@.0.transparent == rhs@.0.transparent
                && self@.0.no_render == rhs@.0.no_render),
    {
        self.0.0.render_eq(&rhs.0.0)
    }

    /// The block's data.
    pub fn data(&self) -> (r: &BlockData)
        ensures
            *r == self@.0,
    {
        &self.0.0
    }
}

/// Something that can be held in an inventory: a block or an item.
#[derive(Debug)]
pub enum ItemLike {
    Block(Block),
    Item(Item),
}

/// Two kinds that stack: items with the same data and the same shared
/// flag, or the same block instance.
pub open spec fn stacks_with(a: ItemLike, b: ItemLike) -> bool {
    match (a, b) {
        (ItemLike::Item(x), ItemLike::Item(y)) => same_item_data(x@.0, y@.0) && x@.1 == y@.1,
        (ItemLike::Block(x), ItemLike::Block(y)) => x.instance() == y.instance(),
        _ => false,
    }
}

/// Both slots hold stacks, of kinds that stack.
pub open spec fn slots_stack(from: Option<ItemStack>, into: Option<ItemStack>) -> bool {
    from is Some && into is Some && stacks_with(from.unwrap().item, into.unwrap().item)
}

impl Clone for ItemLike {
    fn clone(&self) -> (r: Self)
        ensures
            r == *self,
    {
        match self {
            ItemLike::Block(b) => ItemLike::Block(b.clone()),
            ItemLike::Item(i) => ItemLike::Item(i.clone()),
        }
    }
}

impl ItemLike {
    /// The id of the kind.
    pub fn id(&self) -> (r: &str)
        ensures
            r@ == match self {
                ItemLike::Block(b) => b@.0.id@,
                ItemLike::Item(i) => i@.0.id@,
            },
    {
        match self {
            ItemLike::Block(inner) => inner.0.0.id.as_str(),
            ItemLike::Item(inner) => inner.0.0.id.as_str(),
        }
    }

    /// The display name of the kind.
    pub fn name(&self) -> (r: &str)
        ensures
            r@ == match self {
                ItemLike::Block(b) => b@.0.name@,
                ItemLike::Item(i) => i@.0.name@,
            },
    {
        match self {
            ItemLike::Block(inner) => inner.0.0.name.as_str(),
            ItemLike::Item(inner) => inner.0.0.name.as_str(),
        }
    }

    /// Whether this is a block.
    pub fn is_block(&self) -> (r: bool)
        ensures
            r == (*self is Block),
    {
        match self {
            ItemLike::Block(_) => true,
            _ => false,
        }
    }

    /// Whether this is an item.
    pub fn is_item(&self) -> (r: bool)
        ensures
            r == (*self is Item),
    {
        match self {
            ItemLike::Item(_) => true,
            _ => false,
        }
    }

    /// The block, when this is one.
    pub fn as_block(&self) -> (r: Option<&Block>)
        ensures
            match self {
                ItemLike::Block(b) => r == Some(b),
                ItemLike::Item(_) => r is None,
            },
    {
        match self {
            ItemLike::Block(inner) => Some(inner),
            ItemLike::Item(_) => None,
        }
    }

    /// The item, when this is one.
    pub fn as_item(&self) -> (r: Option<&Item>)
        ensures
            match self {
                ItemLike::Item(i) => r == Some(i),
                ItemLike::Block(_) => r is None,
            },
    {
        match self {
            ItemLike::Item(inner) => Some(inner),
            ItemLike::Block(_) => None,
        }
    }

    /// Mutable access to the block, when this is one.
    pub fn as_block_mut(&mut self) -> (r: Option<&mut Block>)
        ensures
            match *old(self) {
                ItemLike::Block(b) => r is Some && *r.unwrap() == b && *final(self) == ItemLike::Block(
                    *final(r.unwrap()),
                ),
                ItemLike::Item(_) => r is None && *final(self) == *old(self),
            },
    {
        match self {
            ItemLike::Block(b) => Some(b),
            ItemLike::Item(_) => None,
        }
    }

    /// Mutable access to the item, when this is one.
    pub fn as_item_mut(&mut self) -> (r: Option<&mut Item>)
        ensures
            match *old(self) {
                ItemLike::Item(i) => r is Some && *r.unwrap() == i && *final(self) == ItemLike::Item(
                    *final(r.unwrap()),
                ),
                ItemLike::Block(_) => r is None && *final(self) == *old(self),
            },
    {
        match self {
            ItemLike::Item(i) => Some(i),
            ItemLike::Block(_) => None,
        }
    }

    /// A copy of the block, when this is one.
    pub fn to_block(&self) -> (r: Option<Block>)
        ensures
            match self {
                ItemLike::Block(b) => r == Some(*b),
                ItemLike::Item(_) => r is None,
            },
    {
        match self {
            ItemLike::Block(inner) => Some(inner.clone()),
            ItemLike::Item(_) => None,
        }
    }

    /// A copy of the item, when this is one.
    pub fn to_item(&self) -> (r: Option<Item>)
        ensures
            match self {
                ItemLike::Item(i) => r == Some(*i),
                ItemLike::Block(_) => r is None,
            },
    {
        match self {
            ItemLike::Item(inner) => Some(inner.clone()),
            ItemLike::Block(_) => None,
        }
    }

    /// Whether two are the same kind for stacking: two items with the same
    /// data and the same shared flag, or the same block instance.
    pub fn same_as(&self, other: &Self) -> (r: bool)
        ensures
            r == stacks_with(*self, *other),
    {
        match (self, other) {
            (ItemLike::Item(a), ItemLike::Item(b)) => a.0.0.same_data(&b.0.0) && a.0.1 == b.0.1,
            (ItemLike::Block(a), ItemLike::Block(b)) => a.ptr_eq(b),
            _ => false,
        }
    }
}

} // verus!

verus! {

/// The default of a block's `solid` flag: blocks are solid unless their
/// data says otherwise.
pub fn yes() -> (r: bool)
    ensures
        r,
{
    true
}

/// The default count of a recipe's output: one item unless the recipe
/// says otherwise.
pub fn one() -> (r: usize)
    ensures
        r == 1,
{
    1
}

/// The most items a stack holds after a transfer into it.
pub const STACK_MAX: usize = 64;

/// A number of items of one kind.
#[derive(Debug)]
pub struct ItemStack {
    pub count: usize,
    pub item: ItemLike,
}

impl Clone for ItemStack {
    fn clone(&self) -> (r: Self)
        ensures
            r == *self,
    {
        ItemStack { count: self.count, item: self.item.clone() }
    }
}

/// The number of items in a slot; 0 for an empty slot.
pub open spec fn stack_count(s: Option<ItemStack>) -> int {
    match s {
        Some(s) => s.count as int,
        None => 0,
    }
}

/// How many items move from a stack of `from` items onto a stack of `into`
/// items of the same kind: as many as fit below 64.
pub open spec fn to_move(from: int, into: int) -> int {
    if from < 64 - into {
        from
    } else {
        64 - into
    }
}

/// The slots after `from` moved onto a compatible stack `into`.
pub open spec fn moved(from: ItemStack, into: ItemStack) -> (Option<ItemStack>, Option<ItemStack>) {
    let m = to_move(from.count as int, into.count as int);
    (
        if from.count - m == 0 {
            None
        } else {
            Some(ItemStack { count: (from.count - m) as usize, item: from.item })
        },
        Some(ItemStack { count: (into.count + m) as usize, item: into.item }),
    )
}

/// Splitting a stack of 2 to 64 items and merging the half taken back onto
/// the half left restores the stack.
pub proof fn lemma_split_then_merge_back(s: ItemStack)
    requires
        2 <= s.count <= 64,
    ensures
        moved(
            ItemStack { count: (s.count - s.count / 2) as usize, item: s.item },
            ItemStack { count: s.count / 2, item: s.item },
        ) == (None::<ItemStack>, Some(s)),
{
}

/// The two slots after the items of `from` are moved onto `into`, given
/// whether the kinds stack: nothing happens when `from` is empty; an empty
/// `into` takes the whole of `from`; stacking kinds merge up to 64; others
/// stay as they are.
pub open spec fn transfer_outcome(
    from: Option<ItemStack>,
    into: Option<ItemStack>,
    same: bool,
) -> (Option<ItemStack>, Option<ItemStack>) {
    match (from, into) {
        (None, _) => (from, into),
        (Some(f), None) => (None, Some(f)),
        (Some(f), Some(i)) => if same {
            moved(f, i)
        } else {
            (from, into)
        },
    }
}

/// The two slots after `transfer_or_swap`: stacking kinds merge up to 64;
/// anything else swaps.
pub open spec fn swap_outcome(from: Option<ItemStack>, into: Option<ItemStack>) -> (Option<ItemStack>, Option<ItemStack>) {
    if slots_stack(from, into) {
        moved(from.unwrap(), into.unwrap())
    } else {
        (into, from)
    }
}

/// Moving items a second time between the same two stacks changes
/// nothing: after one move either nothing is left to move, or the stack
/// moved onto is full.
pub proof fn lemma_move_twice(from: ItemStack, into: ItemStack)
    requires
        into.count <= 64,
        moved(from, into).0 is Some,
    ensures
        moved(moved(from, into).0.unwrap(), moved(from, into).1.unwrap()) == moved(from, into),
{
}

/// A second `transfer` (or `merge`) between the same two slots changes
/// nothing: after the first, `from` is empty, `into` is full, or the kinds
/// do not stack.
pub proof fn lemma_transfer_idempotent(from: Option<ItemStack>, into: Option<ItemStack>)
    requires
        slots_stack(from, into) ==> into.unwrap().count <= 64,
    ensures
        ({
            let once = transfer_outcome(from, into, slots_stack(from, into));
            transfer_outcome(once.0, once.1, slots_stack(once.0, once.1)) == once
        }),
{
    if slots_stack(from, into) {
        let m = moved(from.unwrap(), into.unwrap());
        if m.0 is Some {
            lemma_move_twice(from.unwrap(), into.unwrap());
            assert(slots_stack(m.0, m.1));
        }
    }
}

/// Moves as many items as fit from `a` onto `b`; `a` is left empty when
/// all moved.
fn move_items(from: &mut Option<ItemStack>, into: &mut Option<ItemStack>)
    requires
        *old(from) is Some,
        *old(into) is Some,
        old(into).unwrap().count <= 64,
    ensures
        (*final(from), *final(into)) == moved(old(from).unwrap(), old(into).unwrap()),
{
    let mut a = from.take().unwrap();
    let mut b = into.take().unwrap();
    let to_move = if a.count < 64 - b.count {
        a.count
    } else {
        64 - b.count
    };
    b.count = b.count + to_move;
    a.count = a.count - to_move;
    *into = Some(b);
    if a.count == 0 {
        *from = None;
    } else {
        *from = Some(a);
    }
}

impl ItemStack {
    /// A stack of `count` items of kind `item`.
    pub fn of(item: ItemLike, count: usize) -> (r: Self)
        ensures
            r.item == item,
            r.count == count,
    {
        ItemStack { item, count }
    }

    /// A full stack of 64.
    pub fn stack_of(item: ItemLike) -> (r: Self)
        ensures
            r.item == item,
            r.count == 64,
    {
        ItemStack { item, count: 64 }
    }

    /// Takes `num` items from the stack (all of them when it holds fewer);
    /// an emptied slot becomes empty.
    pub fn deduct(item: &mut Option<ItemStack>, num: usize)
        ensures
            match *old(item) {
                None => *final(item) is None,
                Some(s) => if s.count <= num {
                    *final(item) is None
                } else {
                    *final(item) == Some(ItemStack { count: (s.count - num) as usize, item: s.item })
                },
            },
            stack_count(*final(item)) == if stack_count(*old(item)) <= num {
                0
            } else {
                stack_count(*old(item)) - num
            },
    {
        match item.take() {
            Some(mut inner) => {
                inner.count = inner.count - if inner.count < num {
                    inner.count
                } else {
                    num
                };
                if inner.count != 0 {
                    *item = Some(inner);
                }
            },
            None => {},
        }
    }

    /// Splits the stack in half: the slot keeps the smaller half and the
    /// other half is returned. A stack of at most one item is taken whole.
    pub fn split(item: &mut Option<ItemStack>) -> (r: Option<ItemStack>)
        ensures
            match *old(item) {
                None => r is None && *final(item) is None,
                Some(s) => if s.count <= 1 {
                    r == Some(s) && *final(item) is None
                } else {
                    &&& *final(item) == Some(ItemStack { count: s.count / 2, item: s.item })
                    &&& r == Some(ItemStack { count: (s.count - s.count / 2) as usize, item: s.item })
                },
            },
            stack_count(r) + stack_count(*final(item)) == stack_count(*old(item)),
            stack_count(*final(item)) <= stack_count(r),
    {
        match item.take() {
            Some(mut inner) => {
                if inner.count <= 1 {
                    Some(inner)
                } else {
                    let count = inner.count;
                    let half = count >> 1;
                    assert(half == count / 2) by (bit_vector)
                        requires
                            half == count >> 1,
                    ;
                    inner.count = half;
                    let other = ItemStack { count: count - half, item: inner.item.clone() };
                    *item = Some(inner);
                    Some(other)
                }
            },
            None => None,
        }
    }

    /// Moves items from `from` onto `into`, given whether the two stacks are
    /// of the same kind: compatible stacks merge up to 64, others swap; when
    /// either slot is empty the two slots swap.
    pub fn transfer_or_swap_by(from: &mut Option<ItemStack>, into: &mut Option<ItemStack>, same: bool)
        requires
            *old(from) is Some && *old(into) is Some && same ==> old(into).unwrap().count <= 64,
        ensures
            if *old(from) is Some && *old(into) is Some && same {
                (*final(from), *final(into)) == moved(old(from).unwrap(), old(into).unwrap())
            } else {
                *final(from) == *old(into) && *final(into) == *old(from)
            },
            stack_count(*final(from)) + stack_count(*final(into)) == stack_count(*old(from))
                + stack_count(*old(into)),
    {
        if from.is_some() && into.is_some() && same {
            move_items(from, into);
        } else {
            std::mem::swap(from, into);
        }
    }

    /// Moves items from `from` onto `into`, swapping the stacks when they
    /// are not of the same kind; when either slot is empty the two slots
    /// swap.
    pub fn transfer_or_swap(from: &mut Option<ItemStack>, into: &mut Option<ItemStack>)
        requires
            slots_stack(*old(from), *old(into)) ==> old(into).unwrap().count <= 64,
        ensures
            (*final(from), *final(into)) == swap_outcome(*old(from), *old(into)),
            stack_count(*final(from)) + stack_count(*final(into)) == stack_count(*old(from))
                + stack_count(*old(into)),
            stack_count(*old(from)) <= 64 && stack_count(*old(into)) <= 64 ==> stack_count(*final(from))
                <= 64 && stack_count(*final(into)) <= 64,
    {
        let same = match (&*from, &*into) {
            (Some(a), Some(b)) => a.item.same_as(&b.item),
            _ => false,
        };
        ItemStack::transfer_or_swap_by(from, into, same);
    }

    /// Moves items from `from` onto `into`, given whether the two stacks are
    /// of the same kind: compatible stacks merge up to 64, others stay; an
    /// empty `into` takes the whole of `from`.
    pub fn transfer_by(from: &mut Option<ItemStack>, into: &mut Option<ItemStack>, same: bool)
        requires
            *old(from) is Some && *old(into) is Some && same ==> old(into).unwrap().count <= 64,
        ensures
            (*final(from), *final(into)) == transfer_outcome(*old(from), *old(into), same),
            if *old(from) is Some && *old(into) is Some {
                if same {
                    (*final(from), *final(into)) == moved(old(from).unwrap(), old(into).unwrap())
                } else {
                    *final(from) == *old(from) && *final(into) == *old(into)
                }
            } else if *old(into) is None {
                *final(from) is None && *final(into) == *old(from)
            } else {
                *final(from) == *old(from) && *final(into) == *old(into)
            },
            stack_count(*final(from)) + stack_count(*final(into)) == stack_count(*old(from))
                + stack_count(*old(into)),
    {
        if from.is_some() && into.is_some() {
            if same {
                move_items(from, into);
            }
        } else if into.is_none() {
            std::mem::swap(from, into);
        }
    }

    /// Moves items from `from` onto `into` when they are of the same kind,
    /// up to 64; an empty `into` takes the whole of `from`.
    pub fn transfer(from: &mut Option<ItemStack>, into: &mut Option<ItemStack>)
        requires
            slots_stack(*old(from), *old(into)) ==> old(into).unwrap().count <= 64,
        ensures
            (*final(from), *final(into)) == transfer_outcome(*old(from), *old(into), slots_stack(*old(from), *old(into))),
            *old(into) is None ==> *final(from) is None && *final(into) == *old(from),
            *old(from) is None ==> *final(from) == *old(from) && *final(into) == *old(into),
            stack_count(*final(from)) + stack_count(*final(into)) == stack_count(*old(from))
                + stack_count(*old(into)),
            stack_count(*old(from)) <= 64 && stack_count(*old(into)) <= 64 ==> stack_count(*final(from))
                <= 64 && stack_count(*final(into)) <= 64,
    {
        let same = match (&*from, &*into) {
            (Some(a), Some(b)) => a.item.same_as(&b.item),
            _ => false,
        };
        ItemStack::transfer_by(from, into, same);
    }

    /// Moves items from `from` onto `into` when they are of the same kind,
    /// up to 64; an empty `into` takes the whole of `from`. The same as
    /// `transfer`.
    pub fn transfer_no_swap(from: &mut Option<ItemStack>, into: &mut Option<ItemStack>)
        requires
            slots_stack(*old(from), *old(into)) ==> old(into).unwrap().count <= 64,
        ensures
            (*final(from), *final(into)) == transfer_outcome(*old(from), *old(into), slots_stack(*old(from), *old(into))),
            *old(into) is None ==> *final(from) is None && *final(into) == *old(from),
            *old(from) is None ==> *final(from) == *old(from) && *final(into) == *old(into),
            stack_count(*final(from)) + stack_count(*final(into)) == stack_count(*old(from))
                + stack_count(*old(into)),
            stack_count(*old(from)) <= 64 && stack_count(*old(into)) <= 64 ==> stack_count(*final(from))
                <= 64 && stack_count(*final(into)) <= 64,
    {
        ItemStack::transfer(from, into);
    }

    /// Merges `from` into `into`, given whether the two stacks are of the
    /// same kind: nothing happens when `from` is empty or the kinds differ;
    /// compatible stacks merge up to 64; an empty `into` takes the whole of
    /// `from`.
    pub fn merge_by(from: &mut Option<ItemStack>, into: &mut Option<ItemStack>, same: bool)
        requires
            *old(from) is Some && *old(into) is Some && same ==> old(into).unwrap().count <= 64,
        ensures
            (*final(from), *final(into)) == transfer_outcome(*old(from), *old(into), same),
            if *old(from) is None {
                *final(from) == *old(from) && *final(into) == *old(into)
            } else if *old(into) is None {
                *final(from) is None && *final(into) == *old(from)
            } else if same {
                (*final(from), *final(into)) == moved(old(from).unwrap(), old(into).unwrap())
            } else {
                *final(from) == *old(from) && *final(into) == *old(into)
            },
            stack_count(*final(from)) + stack_count(*final(into)) == stack_count(*old(from))
                + stack_count(*old(into)),
    {
        if from.is_none() {
            return;
        }
        if into.is_some() {
            if !same {
                return;
            }
            move_items(from, into);
        } else {
            std::mem::swap(from, into);
        }
    }

    /// Merges `from` into `into` when they are of the same kind, up to 64;
    /// an empty `into` takes the whole of `from`.
    pub fn merge(from: &mut Option<ItemStack>, into: &mut Option<ItemStack>)
        requires
            slots_stack(*old(from), *old(into)) ==> old(into).unwrap().count <= 64,
        ensures
            (*final(from), *final(into)) == transfer_outcome(*old(from), *old(into), slots_stack(*old(from), *old(into))),
            *old(from) is None ==> *final(from) == *old(from) && *final(into) == *old(into),
            *old(from) is Some && *old(into) is None ==> *final(from) is None && *final(into) == *old(from),
            stack_count(*final(from)) + stack_count(*final(into)) == stack_count(*old(from))
                + stack_count(*old(into)),
            stack_count(*old(from)) <= 64 && stack_count(*old(into)) <= 64 ==> stack_count(*final(from))
                <= 64 && stack_count(*final(into)) <= 64,
    {
        let same = match (&*from, &*into) {
            (Some(a), Some(b)) => a.item.same_as(&b.item),
            _ => false,
        };
        ItemStack::merge_by(from, into, same);
    }
}

} // verus!

