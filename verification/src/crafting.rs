//! Shaped crafting recipes, stored as a trie over the grid's slots.
use vstd::prelude::*;
use crate::item::{ItemLike, ItemStack, stacks_with};

verus! {

/// A node of the recipe trie. A branch maps the kind in the next slot to
/// the node for the remaining slots, and has a node for an empty next slot;
/// a leaf holds the output of the recipe whose slots led to it.
#[derive(Debug)]
pub enum Node {
    Branch(Vec<(ItemLike, Node)>, Option<Box<Node>>),
    Leaf(ItemStack),
}

/// A trie key fits a kind: items with the same data and sharing flag, or
/// the same block instance.
pub open spec fn key_fits(k: ItemLike, i: ItemLike) -> bool {
    stacks_with(k, i)
}

/// Whether a trie key fits a kind.
fn key_fits_exec(k: &ItemLike, i: &ItemLike) -> (r: bool)
    ensures
        r == key_fits(*k, *i),
{
    k.same_as(i)
}

/// A slot of a recipe fits a slot of the grid: both empty, or a key that
/// fits the kind of the stack.
pub open spec fn slot_fits(k: Option<ItemLike>, s: Option<ItemStack>) -> bool {
    match (k, s) {
        (None, None) => true,
        (Some(k), Some(s)) => key_fits(k, s.item),
        _ => false,
    }
}

/// A recipe's slots fit the grid slot by slot.
pub open spec fn fits_grid(p: Seq<Option<ItemLike>>, g: Seq<Option<ItemStack>>) -> bool {
    p.len() == g.len() && forall|i: int| 0 <= i < p.len() ==> slot_fits(#[trigger] p[i], g[i])
}

/// Two recipe slots fit each other: both empty, or fitting keys.
pub open spec fn key_slot_fits(k: Option<ItemLike>, i: Option<ItemLike>) -> bool {
    match (k, i) {
        (None, None) => true,
        (Some(k), Some(i)) => key_fits(k, i),
        _ => false,
    }
}

/// Recipe slots `p` fit recipe slots `q` slot by slot.
pub open spec fn fits_pattern(p: Seq<Option<ItemLike>>, q: Seq<Option<ItemLike>>) -> bool {
    p.len() == q.len() && forall|i: int| 0 <= i < p.len() ==> key_slot_fits(#[trigger] p[i], q[i])
}

/// The trie holds the recipe with slots `p` and output `out`: following
/// `p` key by key (the empty-slot node for an empty slot) leads to a leaf
/// holding `out`.
pub open spec fn has_recipe(n: Node, p: Seq<Option<ItemLike>>, out: ItemStack) -> bool
    decreases n,
{
    match n {
        Node::Leaf(o) => p.len() == 0 && o == out,
        Node::Branch(children, alt) => p.len() > 0 && match p[0] {
            Some(k) => exists|i: int|
                #![trigger children@[i]]
                0 <= i < children@.len() && children@[i].0 == k && has_recipe(children@[i].1, p.drop_first(), out),
            None => match alt {
                Some(a) => has_recipe(*a, p.drop_first(), out),
                None => false,
            },
        },
    }
}

/// Walking `d` slots down the trie never ends on a branch: every branch
/// lies above depth `d`.
pub open spec fn branches_above(n: Node, d: nat) -> bool
    decreases n,
{
    match n {
        Node::Leaf(_) => true,
        Node::Branch(children, alt) => {
            &&& d > 0
            &&& forall|i: int|
                #![trigger children@[i]]
                0 <= i < children@.len() ==> branches_above(children@[i].1, (d - 1) as nat)
            &&& match alt {
                Some(a) => branches_above(*a, (d - 1) as nat),
                None => true,
            }
        },
    }
}

/// A recipe of `n` fits the grid slots `g`.
pub open spec fn finds(n: Node, g: Seq<Option<ItemStack>>, out: ItemStack) -> bool {
    exists|p: Seq<Option<ItemLike>>| #[trigger] has_recipe(n, p, out) && fits_grid(p, g)
}

/// A recipe led by key `k` into child `c` extends a recipe of `c`.
proof fn lemma_extend_key(n: Node, i: int, g: Seq<Option<ItemStack>>, out: ItemStack, q: Seq<Option<ItemLike>>)
    requires
        n is Branch,
        0 <= i < n->Branch_0@.len(),
        g.len() > 0,
        g[0] is Some,
        key_fits(n->Branch_0@[i].0, g[0].unwrap().item),
        has_recipe(n->Branch_0@[i].1, q, out),
        fits_grid(q, g.drop_first()),
    ensures
        has_recipe(n, seq![Some(n->Branch_0@[i].0)] + q, out),
        fits_grid(seq![Some(n->Branch_0@[i].0)] + q, g),
{
    let p = seq![Some(n->Branch_0@[i].0)] + q;
    assert(p.drop_first() =~= q);
    assert(p[0] == Some(n->Branch_0@[i].0));
    assert(has_recipe(n->Branch_0@[i].1, p.drop_first(), out));

    assert forall|j: int| 0 <= j < p.len() implies slot_fits(#[trigger] p[j], g[j]) by {
        if j > 0 {
            assert(p[j] == q[j - 1]);
            assert(g[j] == g.drop_first()[j - 1]);
        }
    }
}

/// A recipe led by an empty slot into the empty-slot node `a` extends a
/// recipe of `a`.
proof fn lemma_extend_empty(n: Node, g: Seq<Option<ItemStack>>, out: ItemStack, q: Seq<Option<ItemLike>>)
    requires
        n is Branch,
        n->Branch_1 is Some,
        g.len() > 0,
        g[0] is None,
        has_recipe(*n->Branch_1.unwrap(), q, out),
        fits_grid(q, g.drop_first()),
    ensures
        has_recipe(n, seq![None] + q, out),
        fits_grid(seq![None] + q, g),
{
    let p = seq![None] + q;
    assert(p.drop_first() =~= q);
    assert forall|j: int| 0 <= j < p.len() implies slot_fits(#[trigger] p[j], g[j]) by {
        if j > 0 {
            assert(p[j] == q[j - 1]);
            assert(g[j] == g.drop_first()[j - 1]);
        }
    }
}

/// Among the children of every branch, no two keys fit each other.
pub open spec fn keys_distinct(n: Node) -> bool
    decreases n,
{
    match n {
        Node::Leaf(_) => true,
        Node::Branch(children, alt) => {
            &&& forall|i: int, j: int|
                #![trigger children@[i], children@[j]]
                0 <= i < j < children@.len() ==> !(key_fits(
                    children@[i].0,
                    children@[j].0,
                ))
            &&& forall|i: int| #![trigger children@[i]] 0 <= i < children@.len() ==> keys_distinct(children@[i].1)
            &&& match alt {
                Some(a) => keys_distinct(*a),
                None => true,
            }
        },
    }
}

/// Slots that fit a grid fit its first slot, and the rest fits the rest.
proof fn lemma_grid_tail(p: Seq<Option<ItemLike>>, g: Seq<Option<ItemStack>>)
    requires
        p.len() > 0,
        fits_grid(p, g),
    ensures
        slot_fits(p[0], g[0]),
        fits_grid(p.drop_first(), g.drop_first()),
{
    assert(slot_fits(p[0], g[0]));
    assert forall|j: int| 0 <= j < p.drop_first().len() implies slot_fits(
        #[trigger] p.drop_first()[j],
        g.drop_first()[j],
    ) by {
        assert(slot_fits(p[j + 1], g[j + 1]));
    }
}

impl Node {
    /// The output of the recipe that the grid slots from `from` on match.
    fn search_from<'a>(&'a self, input: &[Option<ItemStack>], from: usize) -> (r: Option<&'a ItemStack>)
        requires
            from <= input@.len(),
            branches_above(*self, (input@.len() - from) as nat),
        ensures
            r is Some ==> finds(*self, input@.subrange(from as int, input@.len() as int), *r.unwrap()),
            keys_distinct(*self) ==> forall|
                p: Seq<Option<ItemLike>>,
                o: ItemStack,
            |
                #[trigger] has_recipe(*self, p, o) && fits_grid(p, input@.subrange(from as int, input@.len() as int))
                    ==> r is Some && *r.unwrap() == o,
        decreases self,
    {
        let ghost g = input@.subrange(from as int, input@.len() as int);
        match self {
            Node::Branch(children, alt) => {
                assert(g.drop_first() =~= input@.subrange(from + 1, input@.len() as int));
                assert(g[0] == input@[from as int]);
                match &input[from] {
                    Some(inp) => {
                        match find_key(children, &inp.item) {
                            Some(i) => {
                                let ghost d: nat = (input@.len() - from) as nat;
                                assert(branches_above(children@[i as int].1, (d - 1) as nat));
                                let r = children[i].1.search_from(input, from + 1);
                                proof {
                                    if r is Some {
                                        let q = choose|q: Seq<Option<ItemLike>>|
                                            #[trigger] has_recipe(children@[i as int].1, q, *r.unwrap())
                                                && fits_grid(q, g.drop_first());
                                        lemma_extend_key(*self, i as int, g, *r.unwrap(), q);
                                    }
                                    if keys_distinct(*self) {
                                        assert(keys_distinct(children@[i as int].1));
                                        assert forall|p: Seq<Option<ItemLike>>, o: ItemStack|
                                            #[trigger] has_recipe(*self, p, o) && fits_grid(p, g) implies r is Some
                                            && *r.unwrap() == o by {
                                            lemma_recipe_head(*self, p, o);
                                            lemma_grid_tail(p, g);
                                            let j = choose|j: int|
                                                #![trigger children@[j]]
                                                0 <= j < children@.len() && children@[j].0 == p[0].unwrap()
                                                    && has_recipe(children@[j].1, p.drop_first(), o);
                                            if j != i {
                                                if j < i {
                                                    assert(!(key_fits(
                                                        children@[j].0,
                                                        inp.item,
                                                    )));
                                                } else {
                                                    assert(!(key_fits(children@[i as int].0, children@[j].0)));
                                                }
                                            }
                                        }
                                    }
                                }
                                r
                            },
                            None => {
                                proof {
                                    if keys_distinct(*self) {
                                        assert forall|p: Seq<Option<ItemLike>>, o: ItemStack|
                                            #[trigger] has_recipe(*self, p, o) && fits_grid(p, g) implies false by {
                                            lemma_recipe_head(*self, p, o);
                                            lemma_grid_tail(p, g);
                                            let j = choose|j: int|
                                                #![trigger children@[j]]
                                                0 <= j < children@.len() && children@[j].0 == p[0].unwrap()
                                                    && has_recipe(children@[j].1, p.drop_first(), o);
                                        }
                                    }
                                }
                                None
                            },
                        }
                    },
                    None => match alt {
                        Some(a) => {
                            let r = a.search_from(input, from + 1);
                            proof {
                                if r is Some {
                                    let q = choose|q: Seq<Option<ItemLike>>|
                                        #[trigger] has_recipe(**a, q, *r.unwrap()) && fits_grid(q, g.drop_first());
                                    lemma_extend_empty(*self, g, *r.unwrap(), q);
                                }
                                if keys_distinct(*self) {
                                    assert forall|p: Seq<Option<ItemLike>>, o: ItemStack|
                                        #[trigger] has_recipe(*self, p, o) && fits_grid(p, g) implies r is Some
                                        && *r.unwrap() == o by {
                                        lemma_recipe_head(*self, p, o);
                                        lemma_grid_tail(p, g);
                                    }
                                }
                            }
                            r
                        },
                        None => {
                            proof {
                                assert forall|p: Seq<Option<ItemLike>>, o: ItemStack|
                                    #[trigger] has_recipe(*self, p, o) && fits_grid(p, g) implies false by {
                                    lemma_recipe_head(*self, p, o);
                                    lemma_grid_tail(p, g);
                                }
                            }
                            None
                        },
                    },
                }
            },
            Node::Leaf(out) => {
                if from == input.len() {
                    proof {
                        assert(has_recipe(*self, Seq::empty(), *out));
                        assert(fits_grid(Seq::empty(), g));
                    }
                    Some(out)
                } else {
                    None
                }
            },
        }
    }

    /// The output of the recipe that the grid slots match, if any; a grid
    /// longer than the recipes matches none.
    pub fn search(&self, input: &[Option<ItemStack>]) -> (r: Option<&ItemStack>)
        requires
            branches_above(*self, input@.len() as nat),
        ensures
            r is Some ==> finds(*self, input@, *r.unwrap()),
            keys_distinct(*self) ==> forall|p: Seq<Option<ItemLike>>, o: ItemStack|
                #[trigger] has_recipe(*self, p, o) && fits_grid(p, input@) ==> r is Some && *r.unwrap() == o,
    {
        assert(input@.subrange(0, input@.len() as int) =~= input@);
        self.search_from(input, 0)
    }
}

/// Every leaf of the trie lies at depth `d`.
pub open spec fn leaves_at(n: Node, d: nat) -> bool
    decreases n,
{
    match n {
        Node::Leaf(_) => d == 0,
        Node::Branch(children, alt) => {
            &&& d > 0
            &&& forall|i: int|
                #![trigger children@[i]]
                0 <= i < children@.len() ==> leaves_at(children@[i].1, (d - 1) as nat)
            &&& match alt {
                Some(a) => leaves_at(*a, (d - 1) as nat),
                None => true,
            }
        },
    }
}

/// A branch with no child and no empty-slot node.
pub open spec fn empty_branch(n: Node) -> bool {
    n matches Node::Branch(children, alt) && children@.len() == 0 && alt is None
}

/// Child `i` is where a slot holding `k` leads: its key fits `k`, and no
/// earlier item key fits an item `k`.
pub open spec fn leads_to(children: Seq<(ItemLike, Node)>, k: ItemLike, i: int) -> bool {
    &&& 0 <= i < children.len()
    &&& key_fits(children[i].0, k)
    &&& forall|j: int|
        #![trigger children[j]]
        0 <= j < i ==> !(key_fits(children[j].0, k))
}

/// A recipe with slots `q` can be added: following `q` down the trie
/// (the child that each held slot leads to, the empty-slot node for an
/// empty slot) never meets a leaf, and, where the slots run out, ends on a
/// branch with no child and no empty-slot node, or has left the trie.
pub open spec fn registrable(n: Node, q: Seq<Option<ItemLike>>) -> bool
    decreases n,
{
    match n {
        Node::Leaf(_) => false,
        Node::Branch(children, alt) => if q.len() == 0 {
            children@.len() == 0 && alt is None
        } else {
            match q[0] {
                Some(k) => forall|i: int|
                    0 <= i < children@.len() && #[trigger] leads_to(children@, k, i) ==> registrable(
                        children@[i].1,
                        q.drop_first(),
                    ),
                None => match alt {
                    Some(a) => registrable(*a, q.drop_first()),
                    None => true,
                },
            }
        },
    }
}

/// Any recipe can be added to a branch with no child and no empty-slot
/// node.
proof fn lemma_empty_registrable(n: Node, q: Seq<Option<ItemLike>>)
    requires
        empty_branch(n),
    ensures
        registrable(n, q),
{
}

/// An empty branch holds no recipe.
proof fn lemma_empty_branch(n: Node)
    requires
        empty_branch(n),
    ensures
        forall|p: Seq<Option<ItemLike>>, o: ItemStack| !#[trigger] has_recipe(n, p, o),
{
}

/// A key fits itself.
proof fn lemma_key_fits_self(k: ItemLike)
    ensures
        key_fits(k, k),
{
}

/// Putting a slot `x` in front of slots `p` that fit the rest of `q` fits
/// `q` when `x` fits its first slot.
proof fn lemma_fits_cons(x: Option<ItemLike>, p: Seq<Option<ItemLike>>, q: Seq<Option<ItemLike>>)
    requires
        q.len() > 0,
        key_slot_fits(x, q[0]),
        fits_pattern(p, q.drop_first()),
    ensures
        fits_pattern(seq![x] + p, q),
{
    let s = seq![x] + p;
    assert forall|j: int| 0 <= j < s.len() implies key_slot_fits(#[trigger] s[j], q[j]) by {
        if j > 0 {
            assert(s[j] == p[j - 1]);
            assert(q[j] == q.drop_first()[j - 1]);
        }
    }
}

/// The recipes of a branch through child `i` are the recipes of the child
/// with the child's key in front.
proof fn lemma_child_recipe(n: Node, i: int, p: Seq<Option<ItemLike>>, o: ItemStack)
    requires
        n is Branch,
        0 <= i < n->Branch_0@.len(),
        has_recipe(n->Branch_0@[i].1, p, o),
    ensures
        has_recipe(n, seq![Some(n->Branch_0@[i].0)] + p, o),
{
    let s = seq![Some(n->Branch_0@[i].0)] + p;
    assert(s.drop_first() =~= p);
    assert(s[0] == Some(n->Branch_0@[i].0));
}

/// The recipes of a branch through its empty-slot node are that node's
/// recipes with an empty slot in front.
proof fn lemma_alt_recipe(n: Node, p: Seq<Option<ItemLike>>, o: ItemStack)
    requires
        n is Branch,
        n->Branch_1 is Some,
        has_recipe(*n->Branch_1.unwrap(), p, o),
    ensures
        has_recipe(n, seq![None] + p, o),
{
    let s = seq![None] + p;
    assert(s.drop_first() =~= p);
}

/// A recipe of a branch starts with an empty slot or the key of a child.
proof fn lemma_recipe_head(n: Node, p: Seq<Option<ItemLike>>, o: ItemStack)
    requires
        n is Branch,
        has_recipe(n, p, o),
    ensures
        p.len() > 0,
        p[0] is None ==> n->Branch_1 is Some && has_recipe(*n->Branch_1.unwrap(), p.drop_first(), o),
        p[0] is Some ==> exists|j: int|
            #![trigger n->Branch_0@[j]]
            0 <= j < n->Branch_0@.len() && n->Branch_0@[j].0 == p[0].unwrap() && has_recipe(
                n->Branch_0@[j].1,
                p.drop_first(),
                o,
            ),
{
}

/// `after` holds the recipes of `before` and one more, with output
/// `output` and slots that fit `q`, and nothing else.
pub open spec fn adds_recipe(before: Node, after: Node, q: Seq<Option<ItemLike>>, output: ItemStack) -> bool {
    &&& forall|p: Seq<Option<ItemLike>>, o: ItemStack| #[trigger] has_recipe(before, p, o) ==> has_recipe(after, p, o)
    &&& forall|p: Seq<Option<ItemLike>>, o: ItemStack|
        #[trigger] has_recipe(after, p, o) ==> has_recipe(before, p, o) || (o == output && fits_pattern(p, q))
    &&& exists|p: Seq<Option<ItemLike>>| #[trigger] has_recipe(after, p, output) && fits_pattern(p, q)
}

/// The first child whose key is the kind `k`: a key that fits `k`, with no
/// earlier item key fitting an item `k`. With no such child, no item key
/// fits an item `k`.
fn find_key(children: &Vec<(ItemLike, Node)>, k: &ItemLike) -> (r: Option<usize>)
    ensures
        match r {
            Some(i) => leads_to(children@, *k, i as int),
            None => true,
        },
        forall|j: int|
            #![trigger children@[j]]
            0 <= j < (match r {
                Some(i) => i as int,
                None => children@.len() as int,
            }) ==> !(key_fits(children@[j].0, *k)),
{
    let mut i: usize = 0;
    while i < children.len()
        invariant
            i <= children@.len(),
            forall|j: int|
                #![trigger children@[j]]
                0 <= j < i ==> !(key_fits(children@[j].0, *k)),
        decreases children@.len() - i,
    {
        if children[i].0.same_as(k) {
            return Some(i);
        }
        i += 1;
    }
    None
}

impl Node {
    /// The trie with the recipe whose slots are `input` from `from` on and
    /// whose output is `output` added. Where the kind in a slot is the key
    /// of a child already, the recipe goes under that child.
    fn registered(self, input: &[Option<ItemLike>], from: usize, output: ItemStack) -> (r: Node)
        requires
            from <= input@.len(),
            registrable(self, input@.subrange(from as int, input@.len() as int)),
        ensures
            leaves_at(self, (input@.len() - from) as nat) || empty_branch(self) ==> leaves_at(
                r,
                (input@.len() - from) as nat,
            ),
            forall|e: nat|
                (input@.len() - from) as nat <= e && (branches_above(self, e) || empty_branch(self))
                    ==> #[trigger] branches_above(r, e),
            adds_recipe(self, r, input@.subrange(from as int, input@.len() as int), output),
            keys_distinct(self) ==> keys_distinct(r),
        decreases input@.len() - from, 1int,
    {
        let ghost q = input@.subrange(from as int, input@.len() as int);
        let ghost me = self;
        match self {
            Node::Leaf(o) => {
                // A leaf is never registrable.
                Node::Leaf(o)
            },
            Node::Branch(children, alt) => {
                if from == input.len() {
                    let r = Node::Leaf(output);
                    proof {
                        assert(q =~= Seq::<Option<ItemLike>>::empty());
                        lemma_empty_branch(me);
                        assert(has_recipe(r, Seq::empty(), output));
                        assert(fits_pattern(Seq::empty(), q));
                    }
                    return r;
                }
                match &input[from] {
                    Some(k) => Node::registered_under_key(children, alt, input, from, k, output),
                    None => Node::registered_under_empty(children, alt, input, from, output),
                }
            },
        }
    }

    /// `Branch(children, alt)` with the recipe added whose slots are
    /// `input` from `from` on, the first holding `k`.
    fn registered_under_key(
        children: Vec<(ItemLike, Node)>,
        alt: Option<Box<Node>>,
        input: &[Option<ItemLike>],
        from: usize,
        k: &ItemLike,
        output: ItemStack,
    ) -> (r: Node)
        requires
            from < input@.len(),
            input@[from as int] == Some(*k),
            registrable(Node::Branch(children, alt), input@.subrange(from as int, input@.len() as int)),
        ensures
            leaves_at(Node::Branch(children, alt), (input@.len() - from) as nat) || empty_branch(
                Node::Branch(children, alt),
            ) ==> leaves_at(r, (input@.len() - from) as nat),
            forall|e: nat|
                (input@.len() - from) as nat <= e && (branches_above(Node::Branch(children, alt), e) || empty_branch(
                    Node::Branch(children, alt),
                )) ==> #[trigger] branches_above(r, e),
            adds_recipe(Node::Branch(children, alt), r, input@.subrange(from as int, input@.len() as int), output),
            keys_distinct(Node::Branch(children, alt)) ==> keys_distinct(r),
        decreases input@.len() - from, 0int,
    {
        let ghost q = input@.subrange(from as int, input@.len() as int);
        let ghost d: nat = (input@.len() - from) as nat;
        let ghost before = Node::Branch(children, alt);
        let ghost c0 = children@;
        assert(q.drop_first() =~= input@.subrange(from + 1, input@.len() as int));
        assert(q[0] == Some(*k));
        let mut children = children;
        match find_key(&children, k) {
            Some(i) => {
                let (key, child) = children.remove(i);
                let _len = input.len();
                proof {
                    assert(key == c0[i as int].0 && child == c0[i as int].1);
                    assert(!empty_branch(before));
                    assert(before->Branch_0@ == c0);
                    assert(leads_to(c0, *k, i as int));
                    assert(registrable(child, q.drop_first()));
                }
                let child2 = child.registered(input, from + 1, output);
                children.insert(i, (key, child2));
                let r = Node::Branch(children, alt);
                proof {
                    assert(children@ =~= c0.update(i as int, (key, child2)));
                    assert forall|p: Seq<Option<ItemLike>>, o: ItemStack| #[trigger] has_recipe(before, p, o) implies has_recipe(
                        r,
                        p,
                        o,
                    ) by {
                        lemma_recipe_head(before, p, o);
                        assert(seq![p[0]] + p.drop_first() =~= p);
                        if p[0] is Some {
                            let j = choose|j: int|
                                #![trigger c0[j]]
                                0 <= j < c0.len() && c0[j].0 == p[0].unwrap() && has_recipe(c0[j].1, p.drop_first(), o);
                            assert(has_recipe(r->Branch_0@[j].1, p.drop_first(), o));
                            lemma_child_recipe(r, j, p.drop_first(), o);
                        } else {
                            lemma_alt_recipe(r, p.drop_first(), o);
                        }
                    }
                    assert forall|p: Seq<Option<ItemLike>>, o: ItemStack| #[trigger] has_recipe(r, p, o) implies has_recipe(
                        before,
                        p,
                        o,
                    ) || (o == output && fits_pattern(p, q)) by {
                        lemma_recipe_head(r, p, o);
                        assert(seq![p[0]] + p.drop_first() =~= p);
                        if p[0] is Some {
                            let j = choose|j: int|
                                #![trigger r->Branch_0@[j]]
                                0 <= j < r->Branch_0@.len() && r->Branch_0@[j].0 == p[0].unwrap() && has_recipe(
                                    r->Branch_0@[j].1,
                                    p.drop_first(),
                                    o,
                                );
                            if j == i {
                                if has_recipe(child, p.drop_first(), o) {
                                    lemma_child_recipe(before, j, p.drop_first(), o);
                                } else {
                                    lemma_fits_cons(Some(key), p.drop_first(), q);
                                }
                            } else {
                                lemma_child_recipe(before, j, p.drop_first(), o);
                            }
                        } else {
                            lemma_alt_recipe(before, p.drop_first(), o);
                        }
                    }
                    let p1 = choose|p: Seq<Option<ItemLike>>|
                        #[trigger] has_recipe(child2, p, output) && fits_pattern(p, q.drop_first());
                    lemma_child_recipe(r, i as int, p1, output);
                    lemma_fits_cons(Some(key), p1, q);
                    assert(has_recipe(r, seq![Some(key)] + p1, output));
                    if leaves_at(before, d) {
                        assert(leaves_at(child, (d - 1) as nat));
                        assert forall|j: int| #![trigger r->Branch_0@[j]] 0 <= j < r->Branch_0@.len() implies leaves_at(
                            r->Branch_0@[j].1,
                            (d - 1) as nat,
                        ) by {
                            if j != i {
                                assert(r->Branch_0@[j] == c0[j]);
                            }
                        }
                    }
                    assert forall|e: nat| d <= e && (branches_above(before, e) || empty_branch(before)) implies #[trigger] branches_above(
                        r,
                        e,
                    ) by {
                        assert(branches_above(child, (e - 1) as nat));
                        assert(branches_above(child2, (e - 1) as nat));
                        assert forall|j: int| #![trigger r->Branch_0@[j]] 0 <= j < r->Branch_0@.len() implies branches_above(
                            r->Branch_0@[j].1,
                            (e - 1) as nat,
                        ) by {
                            if j != i {
                                assert(r->Branch_0@[j] == c0[j]);
                                assert(c0[j] == before->Branch_0@[j]);
                            }
                        }
                    }
                    if keys_distinct(before) {
                        assert(keys_distinct(child));
                        assert forall|a: int, b: int|
                            #![trigger r->Branch_0@[a], r->Branch_0@[b]]
                            0 <= a < b < r->Branch_0@.len() implies !(key_fits(r->Branch_0@[a].0, r->Branch_0@[b].0)) by {
                            assert(r->Branch_0@[a].0 == c0[a].0);
                            assert(r->Branch_0@[b].0 == c0[b].0);
                            assert(c0[a] == before->Branch_0@[a]);
                            assert(c0[b] == before->Branch_0@[b]);
                        }
                        assert forall|j: int| #![trigger r->Branch_0@[j]] 0 <= j < r->Branch_0@.len() implies keys_distinct(
                            r->Branch_0@[j].1,
                        ) by {
                            if j != i {
                                assert(r->Branch_0@[j] == c0[j]);
                                assert(c0[j] == before->Branch_0@[j]);
                            }
                        }
                    }
                }
                r
            },
            None => {
                let empty = Node::Branch(Vec::new(), None);
                let ghost e = empty;
                proof {
                    lemma_empty_branch(e);
                    lemma_empty_registrable(e, q.drop_first());
                }
                let _len = input.len();
                let nnode = empty.registered(input, from + 1, output);
                children.push((k.clone(), nnode));
                let r = Node::Branch(children, alt);
                proof {
                    lemma_key_fits_self(*k);
                    assert(children@ =~= c0.push((*k, nnode)));
                    assert forall|p: Seq<Option<ItemLike>>, o: ItemStack| #[trigger] has_recipe(before, p, o) implies has_recipe(
                        r,
                        p,
                        o,
                    ) by {
                        lemma_recipe_head(before, p, o);
                        assert(seq![p[0]] + p.drop_first() =~= p);
                        if p[0] is Some {
                            let j = choose|j: int|
                                #![trigger c0[j]]
                                0 <= j < c0.len() && c0[j].0 == p[0].unwrap() && has_recipe(c0[j].1, p.drop_first(), o);
                            assert(r->Branch_0@[j] == c0[j]);
                            lemma_child_recipe(r, j, p.drop_first(), o);
                        } else {
                            lemma_alt_recipe(r, p.drop_first(), o);
                        }
                    }
                    assert forall|p: Seq<Option<ItemLike>>, o: ItemStack| #[trigger] has_recipe(r, p, o) implies has_recipe(
                        before,
                        p,
                        o,
                    ) || (o == output && fits_pattern(p, q)) by {
                        lemma_recipe_head(r, p, o);
                        assert(seq![p[0]] + p.drop_first() =~= p);
                        if p[0] is Some {
                            let j = choose|j: int|
                                #![trigger r->Branch_0@[j]]
                                0 <= j < r->Branch_0@.len() && r->Branch_0@[j].0 == p[0].unwrap() && has_recipe(
                                    r->Branch_0@[j].1,
                                    p.drop_first(),
                                    o,
                                );
                            if j == c0.len() {
                                lemma_fits_cons(Some(*k), p.drop_first(), q);
                            } else {
                                assert(r->Branch_0@[j] == c0[j]);
                                lemma_child_recipe(before, j, p.drop_first(), o);
                            }
                        } else {
                            lemma_alt_recipe(before, p.drop_first(), o);
                        }
                    }
                    let p1 = choose|p: Seq<Option<ItemLike>>|
                        #[trigger] has_recipe(nnode, p, output) && fits_pattern(p, q.drop_first());
                    lemma_child_recipe(r, c0.len() as int, p1, output);
                    lemma_fits_cons(Some(*k), p1, q);
                    assert(has_recipe(r, seq![Some(*k)] + p1, output));
                    if leaves_at(before, d) || empty_branch(before) {
                        assert forall|j: int| #![trigger r->Branch_0@[j]] 0 <= j < r->Branch_0@.len() implies leaves_at(
                            r->Branch_0@[j].1,
                            (d - 1) as nat,
                        ) by {
                            if j < c0.len() {
                                assert(r->Branch_0@[j] == c0[j]);
                                assert(c0[j] == before->Branch_0@[j]);
                            }
                        }
                    }
                    assert forall|e: nat| d <= e && (branches_above(before, e) || empty_branch(before)) implies #[trigger] branches_above(
                        r,
                        e,
                    ) by {
                        assert(branches_above(nnode, (e - 1) as nat));
                        assert forall|j: int| #![trigger r->Branch_0@[j]] 0 <= j < r->Branch_0@.len() implies branches_above(
                            r->Branch_0@[j].1,
                            (e - 1) as nat,
                        ) by {
                            if j < c0.len() {
                                assert(r->Branch_0@[j] == c0[j]);
                                assert(c0[j] == before->Branch_0@[j]);
                            }
                        }
                    }
                    if keys_distinct(before) {
                        assert(keys_distinct(e));
                        assert forall|a: int, b: int|
                            #![trigger r->Branch_0@[a], r->Branch_0@[b]]
                            0 <= a < b < r->Branch_0@.len() implies !(key_fits(r->Branch_0@[a].0, r->Branch_0@[b].0)) by {
                            assert(r->Branch_0@[a] == c0[a]);
                            assert(c0[a] == before->Branch_0@[a]);
                            if b < c0.len() {
                                assert(r->Branch_0@[b] == c0[b]);
                                assert(c0[b] == before->Branch_0@[b]);
                            } else {
                                assert(r->Branch_0@[b].0 == *k);
                                assert(c0[a] == children@[a]);
                            }
                        }
                        assert forall|j: int| #![trigger r->Branch_0@[j]] 0 <= j < r->Branch_0@.len() implies keys_distinct(
                            r->Branch_0@[j].1,
                        ) by {
                            if j < c0.len() {
                                assert(r->Branch_0@[j] == c0[j]);
                                assert(c0[j] == before->Branch_0@[j]);
                            }
                        }
                    }
                }
                r
            },
        }
    }

    /// `Branch(children, alt)` with the recipe added whose slots are
    /// `input` from `from` on, the first empty.
    fn registered_under_empty(
        children: Vec<(ItemLike, Node)>,
        alt: Option<Box<Node>>,
        input: &[Option<ItemLike>],
        from: usize,
        output: ItemStack,
    ) -> (r: Node)
        requires
            from < input@.len(),
            input@[from as int] is None,
            registrable(Node::Branch(children, alt), input@.subrange(from as int, input@.len() as int)),
        ensures
            leaves_at(Node::Branch(children, alt), (input@.len() - from) as nat) || empty_branch(
                Node::Branch(children, alt),
            ) ==> leaves_at(r, (input@.len() - from) as nat),
            forall|e: nat|
                (input@.len() - from) as nat <= e && (branches_above(Node::Branch(children, alt), e) || empty_branch(
                    Node::Branch(children, alt),
                )) ==> #[trigger] branches_above(r, e),
            adds_recipe(Node::Branch(children, alt), r, input@.subrange(from as int, input@.len() as int), output),
            keys_distinct(Node::Branch(children, alt)) ==> keys_distinct(r),
        decreases input@.len() - from, 0int,
    {
        let ghost q = input@.subrange(from as int, input@.len() as int);
        let ghost d: nat = (input@.len() - from) as nat;
        let ghost before = Node::Branch(children, alt);
        assert(q.drop_first() =~= input@.subrange(from + 1, input@.len() as int));
        assert(q[0] is None);
        let (sub, fresh) = match alt {
            Some(a) => (*a, false),
            None => (Node::Branch(Vec::new(), None), true),
        };
        proof {
            if fresh {
                lemma_empty_branch(sub);
                lemma_empty_registrable(sub, q.drop_first());
            } else {
                assert(registrable(sub, q.drop_first()));
            }
        }
        let _len = input.len();
        let sub2 = sub.registered(input, from + 1, output);
        let r = Node::Branch(children, Some(Box::new(sub2)));
        proof {
            assert forall|p: Seq<Option<ItemLike>>, o: ItemStack| #[trigger] has_recipe(before, p, o) implies has_recipe(
                r,
                p,
                o,
            ) by {
                lemma_recipe_head(before, p, o);
                assert(seq![p[0]] + p.drop_first() =~= p);
                if p[0] is Some {
                    let j = choose|j: int|
                        #![trigger children@[j]]
                        0 <= j < children@.len() && children@[j].0 == p[0].unwrap() && has_recipe(
                            children@[j].1,
                            p.drop_first(),
                            o,
                        );
                    lemma_child_recipe(r, j, p.drop_first(), o);
                } else {
                    lemma_alt_recipe(r, p.drop_first(), o);
                }
            }
            assert forall|p: Seq<Option<ItemLike>>, o: ItemStack| #[trigger] has_recipe(r, p, o) implies has_recipe(
                before,
                p,
                o,
            ) || (o == output && fits_pattern(p, q)) by {
                lemma_recipe_head(r, p, o);
                assert(seq![p[0]] + p.drop_first() =~= p);
                if p[0] is Some {
                    let j = choose|j: int|
                        #![trigger children@[j]]
                        0 <= j < children@.len() && children@[j].0 == p[0].unwrap() && has_recipe(
                            children@[j].1,
                            p.drop_first(),
                            o,
                        );
                    lemma_child_recipe(before, j, p.drop_first(), o);
                } else {
                    if has_recipe(sub, p.drop_first(), o) {
                        lemma_alt_recipe(before, p.drop_first(), o);
                    } else {
                        lemma_fits_cons(None, p.drop_first(), q);
                    }
                }
            }
            let p1 = choose|p: Seq<Option<ItemLike>>|
                #[trigger] has_recipe(sub2, p, output) && fits_pattern(p, q.drop_first());
            lemma_alt_recipe(r, p1, output);
            lemma_fits_cons(None, p1, q);
            assert(has_recipe(r, seq![None] + p1, output));
            if keys_distinct(before) {
                assert(keys_distinct(sub));
            }
            if leaves_at(before, d) || empty_branch(before) {
                if !fresh {
                    assert(leaves_at(sub, (d - 1) as nat));
                }
                assert(leaves_at(sub2, (d - 1) as nat));
                assert forall|j: int| #![trigger children@[j]] 0 <= j < children@.len() implies leaves_at(
                    children@[j].1,
                    (d - 1) as nat,
                ) by {
                    assert(before->Branch_0@[j] == children@[j]);
                }
                assert(r->Branch_0 == children);
                assert(leaves_at(r, d));
            }
            assert forall|e: nat| d <= e && (branches_above(before, e) || empty_branch(before)) implies #[trigger] branches_above(
                r,
                e,
            ) by {
                if !fresh {
                    assert(branches_above(sub, (e - 1) as nat));
                }
                assert(branches_above(sub2, (e - 1) as nat));
                assert forall|j: int| #![trigger children@[j]] 0 <= j < children@.len() implies branches_above(
                    children@[j].1,
                    (e - 1) as nat,
                ) by {
                    assert(before->Branch_0@[j] == children@[j]);
                }
                assert(r->Branch_0 == children);
            }
        }
        r
    }

    /// Adds the recipe with slots `input` and output `output`. Following
    /// `input` down the trie must not meet a leaf, nor end on a branch that
    /// holds recipes.
    pub fn register(&mut self, input: &[Option<ItemLike>], output: ItemStack)
        requires
            registrable(*old(self), input@),
        ensures
            leaves_at(*old(self), input@.len() as nat) || empty_branch(*old(self)) ==> leaves_at(
                *final(self),
                input@.len() as nat,
            ),
            forall|e: nat|
                input@.len() <= e && (branches_above(*old(self), e) || empty_branch(*old(self)))
                    ==> #[trigger] branches_above(*final(self), e),
            adds_recipe(*old(self), *final(self), input@, output),
            keys_distinct(*old(self)) ==> keys_distinct(*final(self)),
    {
        assert(input@.subrange(0, input@.len() as int) =~= input@);
        let mut n = Node::Branch(Vec::new(), None);
        std::mem::swap(&mut n, self);
        *self = n.registered(input, 0, output);
    }
}

/// Whether the recipe with slots `input` from `from` on can be added to
/// the trie `n`; see `registrable`.
fn can_register(n: &Node, input: &[Option<ItemLike>], from: usize) -> (r: bool)
    requires
        from <= input@.len(),
    ensures
        r == registrable(*n, input@.subrange(from as int, input@.len() as int)),
    decreases *n,
{
    let ghost q = input@.subrange(from as int, input@.len() as int);
    match n {
        Node::Leaf(_) => false,
        Node::Branch(children, alt) => {
            if from == input.len() {
                assert(q.len() == 0);
                return children.len() == 0 && alt.is_none();
            }
            assert(q.drop_first() =~= input@.subrange(from + 1, input@.len() as int));
            assert(q[0] == input@[from as int]);
            match &input[from] {
                Some(k) => {
                    let mut ok = true;
                    let mut seen_item = false;
                    let mut i: usize = 0;
                    while i < children.len()
                        invariant
                            from < input@.len(),
                            input@.len() <= usize::MAX,
                            *n is Branch,
                            n->Branch_0 == *children,
                            q == input@.subrange(from as int, input@.len() as int),
                            q.drop_first() =~= input@.subrange(from + 1, input@.len() as int),
                            i <= children@.len(),
                            seen_item == exists|j: int| 0 <= j < i && key_fits(#[trigger] children@[j].0, *k),
                            ok == forall|j: int|
                                0 <= j < i && #[trigger] leads_to(children@, *k, j) ==> registrable(
                                    children@[j].1,
                                    q.drop_first(),
                                ),
                        decreases children@.len() - i,
                    {
                        let fits = key_fits_exec(&children[i].0, k);
                        proof {
                            assert(leads_to(children@, *k, i as int) == (fits && !seen_item));
                        }
                        if fits && !seen_item {
                            proof {
                                assert(decreases_to!(*n => n->Branch_0));
                                assert(decreases_to!(n->Branch_0 => n->Branch_0@));
                                assert(decreases_to!(n->Branch_0@ => n->Branch_0@[i as int]));
                                assert(decreases_to!(n->Branch_0@[i as int] => n->Branch_0@[i as int].1));
                            }
                            let sub = can_register(&children[i].1, input, from + 1);
                            if !sub {
                                ok = false;
                            }
                        }
                        if fits {
                            seen_item = true;
                        }
                        i = i + 1;
                    }
                    ok
                },
                None => match alt {
                    Some(a) => can_register(a, input, from + 1),
                    None => true,
                },
            }
        },
    }
}

/// A trie whose leaves all lie at depth `d` has every branch above `d`.
pub proof fn lemma_leaves_branches(n: Node, d: nat)
    requires
        leaves_at(n, d),
    ensures
        branches_above(n, d),
    decreases n,
{
    match n {
        Node::Branch(children, alt) => {
            assert forall|i: int| #![trigger children@[i]] 0 <= i < children@.len() implies branches_above(
                children@[i].1,
                (d - 1) as nat,
            ) by {
                lemma_leaves_branches(children@[i].1, (d - 1) as nat);
            }
            match alt {
                Some(a) => lemma_leaves_branches(*a, (d - 1) as nat),
                None => {},
            }
        },
        Node::Leaf(_) => {},
    }
}

/// A registered recipe is found again: once a recipe with slots `q` and
/// output `out` has been added, a grid that `q` fits is matched by a
/// recipe with output `out` (and, as no two keys of a branch fit each
/// other in a trie that `register` built, `search` returns `out`).
pub proof fn lemma_register_then_find(
    before: Node,
    after: Node,
    q: Seq<Option<ItemLike>>,
    out: ItemStack,
    g: Seq<Option<ItemStack>>,
)
    requires
        adds_recipe(before, after, q, out),
        fits_grid(q, g),
    ensures
        finds(after, g, out),
{
    let p = choose|p: Seq<Option<ItemLike>>| #[trigger] has_recipe(after, p, out) && fits_pattern(p, q);
    assert forall|i: int| 0 <= i < p.len() implies slot_fits(#[trigger] p[i], g[i]) by {
        assert(key_slot_fits(p[i], q[i]));
        assert(slot_fits(q[i], g[i]));
    }
    assert(has_recipe(after, p, out) && fits_grid(p, g));
}

/// In a trie where no two keys of a branch fit each other, all recipes
/// that fit one grid have the same output.
pub proof fn lemma_recipe_unique(
    n: Node,
    g: Seq<Option<ItemStack>>,
    p1: Seq<Option<ItemLike>>,
    o1: ItemStack,
    p2: Seq<Option<ItemLike>>,
    o2: ItemStack,
)
    requires
        keys_distinct(n),
        has_recipe(n, p1, o1),
        fits_grid(p1, g),
        has_recipe(n, p2, o2),
        fits_grid(p2, g),
    ensures
        o1 == o2,
    decreases n,
{
    match n {
        Node::Leaf(_) => {},
        Node::Branch(children, alt) => {
            lemma_grid_tail(p1, g);
            lemma_grid_tail(p2, g);
            match p1[0] {
                Some(k1) => {
                    let k2 = p2[0].unwrap();
                    let i1 = choose|i: int|
                        #![trigger children@[i]]
                        0 <= i < children@.len() && children@[i].0 == k1 && has_recipe(
                            children@[i].1,
                            p1.drop_first(),
                            o1,
                        );
                    let i2 = choose|i: int|
                        #![trigger children@[i]]
                        0 <= i < children@.len() && children@[i].0 == k2 && has_recipe(
                            children@[i].1,
                            p2.drop_first(),
                            o2,
                        );
                    assert(key_fits(k1, k2));
                    if i1 < i2 {
                        assert(!key_fits(children@[i1].0, children@[i2].0));
                    } else if i2 < i1 {
                        assert(!key_fits(children@[i2].0, children@[i1].0));
                    }
                    assert(i1 == i2);
                    lemma_recipe_unique(children@[i1].1, g.drop_first(), p1.drop_first(), o1, p2.drop_first(), o2);
                },
                None => {
                    let a = alt.unwrap();
                    lemma_recipe_unique(*a, g.drop_first(), p1.drop_first(), o1, p2.drop_first(), o2);
                },
            }
        },
    }
}

/// A registered recipe is what the grid finds: once a recipe with slots
/// `q` and output `out` has been added to a trie where no two keys of a
/// branch fit each other (as `register` keeps them), every recipe that
/// fits a grid that `q` fits has output `out`, so `search` there returns
/// `out`.
pub proof fn lemma_register_then_search(
    before: Node,
    after: Node,
    q: Seq<Option<ItemLike>>,
    out: ItemStack,
    g: Seq<Option<ItemStack>>,
)
    requires
        adds_recipe(before, after, q, out),
        keys_distinct(after),
        fits_grid(q, g),
    ensures
        forall|p: Seq<Option<ItemLike>>, o: ItemStack|
            #[trigger] has_recipe(after, p, o) && fits_grid(p, g) ==> o == out,
{
    lemma_register_then_find(before, after, q, out, g);
    let p0 = choose|p: Seq<Option<ItemLike>>| #[trigger] has_recipe(after, p, out) && fits_grid(p, g);
    assert forall|p: Seq<Option<ItemLike>>, o: ItemStack|
        #[trigger] has_recipe(after, p, o) && fits_grid(p, g) implies o == out by {
        lemma_recipe_unique(after, g, p, o, p0, out);
    }
}

/// Registering keeps what earlier searches found: when a recipe of
/// `before` with output `o` fits a grid, every recipe that fits it after a
/// recipe was added (keeping no two keys of a branch fitting each other)
/// has output `o`, so `search` there still returns `o`.
pub proof fn lemma_register_keeps_search(
    before: Node,
    after: Node,
    q: Seq<Option<ItemLike>>,
    out: ItemStack,
    g: Seq<Option<ItemStack>>,
    p: Seq<Option<ItemLike>>,
    o: ItemStack,
)
    requires
        adds_recipe(before, after, q, out),
        keys_distinct(after),
        has_recipe(before, p, o),
        fits_grid(p, g),
    ensures
        forall|p2: Seq<Option<ItemLike>>, o2: ItemStack|
            #[trigger] has_recipe(after, p2, o2) && fits_grid(p2, g) ==> o2 == o,
{
    assert(has_recipe(after, p, o));
    assert forall|p2: Seq<Option<ItemLike>>, o2: ItemStack|
        #[trigger] has_recipe(after, p2, o2) && fits_grid(p2, g) implies o2 == o by {
        lemma_recipe_unique(after, g, p2, o2, p, o);
    }
}

/// The recipes of the game. Shaped recipes match the crafting grid slot by
/// slot; recipes that match in any arrangement are not supported.
#[derive(Debug)]
pub struct CraftingRegistry {
    shaped: Vec<Node>,
    unshaped: Vec<Node>,
}

impl CraftingRegistry {
    /// The trie of shaped recipes.
    pub closed spec fn shaped_trie(&self) -> Node {
        self.shaped@[0]
    }

    /// Both lists hold their trie, and no two keys of a branch of the
    /// shaped trie fit each other.
    #[verifier::type_invariant]
    spec fn wf(self) -> bool {
        self.shaped@.len() >= 1 && self.unshaped@.len() >= 1 && keys_distinct(self.shaped@[0])
    }

    /// A registry with no recipes.
    pub fn new() -> (r: Self)
        ensures
            empty_branch(r.shaped_trie()),
            keys_distinct(r.shaped_trie()),
    {
        CraftingRegistry {
            shaped: vec![Node::Branch(Vec::new(), None)],
            unshaped: vec![Node::Branch(Vec::new(), None)],
        }
    }

    /// Adds a shaped recipe with slots `input` and output `output`.
    /// Following `input` down the trie of shaped recipes must not meet a
    /// leaf, nor end on a branch that holds recipes.
    pub fn register(&mut self, shaped: bool, input: &[Option<ItemLike>], output: ItemStack)
        requires
            shaped,
            registrable(old(self).shaped_trie(), input@),
        ensures
            keys_distinct(final(self).shaped_trie()),
            leaves_at(old(self).shaped_trie(), input@.len() as nat) || empty_branch(old(self).shaped_trie())
                ==> leaves_at(final(self).shaped_trie(), input@.len() as nat),
            forall|e: nat|
                input@.len() <= e && (branches_above(old(self).shaped_trie(), e) || empty_branch(
                    old(self).shaped_trie(),
                )) ==> #[trigger] branches_above(final(self).shaped_trie(), e),
            adds_recipe(old(self).shaped_trie(), final(self).shaped_trie(), input@, output),
    {
        proof {
            use_type_invariant(&*self);
        }
        let mut taken = CraftingRegistry::new();
        std::mem::swap(&mut taken, self);
        let CraftingRegistry { mut shaped, unshaped } = taken;
        let mut root = shaped.remove(0);
        root.register(input, output);
        shaped.insert(0, root);
        *self = CraftingRegistry { shaped, unshaped };
    }

    /// Adds a shaped recipe with slots `input` and output `output` when it
    /// can be added, and says whether it was: following `input` down the
    /// trie of shaped recipes must not meet a leaf, nor end on a branch
    /// that holds recipes. Otherwise nothing changes.
    pub fn try_register(&mut self, shaped: bool, input: &[Option<ItemLike>], output: ItemStack) -> (added: bool)
        requires
            shaped,
        ensures
            keys_distinct(final(self).shaped_trie()),
            added == registrable(old(self).shaped_trie(), input@),
            !added ==> *final(self) == *old(self),
            added ==> adds_recipe(old(self).shaped_trie(), final(self).shaped_trie(), input@, output),
            added && (leaves_at(old(self).shaped_trie(), input@.len() as nat) || empty_branch(
                old(self).shaped_trie(),
            )) ==> leaves_at(final(self).shaped_trie(), input@.len() as nat),
            forall|e: nat|
                added && input@.len() <= e && (branches_above(old(self).shaped_trie(), e) || empty_branch(
                    old(self).shaped_trie(),
                )) ==> #[trigger] branches_above(final(self).shaped_trie(), e),
    {
        proof {
            use_type_invariant(&*self);
        }
        assert(input@.subrange(0, input@.len() as int) =~= input@);
        if can_register(&self.shaped[0], input, 0) {
            self.register(shaped, input, output);
            true
        } else {
            false
        }
    }

    /// The output of the shaped recipe that the grid matches, if any.
    pub fn search(&self, input: &[Option<ItemStack>]) -> (r: Option<&ItemStack>)
        requires
            branches_above(self.shaped_trie(), input@.len() as nat),
        ensures
            r is Some ==> finds(self.shaped_trie(), input@, *r.unwrap()),
            forall|p: Seq<Option<ItemLike>>, o: ItemStack|
                #[trigger] has_recipe(self.shaped_trie(), p, o) && fits_grid(p, input@) ==> r is Some && *r.unwrap()
                    == o,
    {
        proof {
            use_type_invariant(self);
        }
        self.shaped[0].search(input)
    }
}

} // verus!
