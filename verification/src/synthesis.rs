//! Crafting: the recipe table, the canonical form of a blueprint under which
//! a recipe is looked up, and the commands that move items between the
//! world, the storage and the blueprint.

use crate::component::{
    cleared, first_empty, inserted, is_full, lemma_first_empty_exists, names_slot,
    Blueprint, EntityId, Storage, StorageInHand,
};
use crate::in_game::Grip;
use crate::shape_mod::{
    init_table, lemma_rank_injective, recipe_list, recipes_view, Ingredient, Recipe, Type,
};
use crate::tally::{
    counts, lemma_occurrences_bound, lemma_occurrences_push, lemma_occurrences_take,
    lemma_occurrences_update, occurrences, tally,
};
use std::collections::HashMap;
use vstd::prelude::*;

verus! {

broadcast use vstd::std_specs::hash::group_hash_axioms;

/// Number of slots of a player's storage.
pub const STORAGE_SIZE: usize = 8;

/// Number of slots of a player's blueprint.
pub const BLUEPRINT_SIZE: usize = 4;

/// Greatest rank of a kind.
pub const TOP_RANK: u8 = 6;

/// The codes of the slots of `items` that hold an item, in slot order.
pub open spec fn item_codes(items: Seq<Type>) -> Seq<u8>
    decreases items.len(),
{
    if items.len() == 0 {
        Seq::empty()
    } else if items.last() == Type::Empty {
        item_codes(items.drop_last())
    } else {
        item_codes(items.drop_last()).push(items.last().rank() as u8)
    }
}

/// How many items of kind `t` the slots `items` hold; `Empty` is no item.
pub open spec fn amount(items: Seq<Type>, t: Type) -> nat {
    if t == Type::Empty {
        0
    } else {
        occurrences(items, t)
    }
}

/// The ingredients of kinds up to rank `top` that `items` holds, greatest kind first.
pub open spec fn ingredients_upto(items: Seq<Type>, top: nat) -> Seq<Ingredient>
    decreases top,
{
    if top == 0 {
        Seq::empty()
    } else {
        let rest = ingredients_upto(items, (top - 1) as nat);
        match Type::of_rank(top) {
            Some(t) => if amount(items, t) > 0 {
                seq![(t, amount(items, t) as usize)] + rest
            } else {
                rest
            },
            None => rest,
        }
    }
}

/// The canonical form of the items in `items`: one entry for each kind that occurs, with
/// the number of its occurrences, ordered by descending kind, `Empty` left out.
pub open spec fn ingredients(items: Seq<Type>) -> Seq<Ingredient> {
    ingredients_upto(items, TOP_RANK as nat)
}

/// Whether `key` is in canonical form: kinds strictly descending, none `Empty`, no count zero.
pub open spec fn is_canonical(key: Seq<Ingredient>) -> bool {
    &&& forall|i: int| 0 <= i < key.len() ==> (#[trigger] key[i]).0 != Type::Empty && key[i].1 > 0
    &&& forall|i: int, j: int|
        0 <= i < j < key.len() ==> (#[trigger] key[i]).0.rank() > (#[trigger] key[j]).0.rank()
}

/// The codes of the items count each kind as often as it occurs, and nothing else.
pub proof fn lemma_item_codes(items: Seq<Type>, k: u8)
    ensures
        occurrences(item_codes(items), k) == match Type::of_rank(k as nat) {
            Some(t) => amount(items, t),
            None => 0,
        },
    decreases items.len(),
{
    if items.len() > 0 {
        let front = items.drop_last();
        let t = items.last();
        lemma_item_codes(front, k);
        lemma_rank_injective(t, t);
        if t != Type::Empty {
            lemma_occurrences_push(item_codes(front), t.rank() as u8, k);
            match Type::of_rank(k as nat) {
                Some(u) => {
                    lemma_rank_injective(u, t);
                },
                None => {},
            }
        }
    }
}

/// The codes of the slots of `items` that hold an item.
fn codes_of(items: &Vec<Type>) -> (codes: Vec<u8>)
    ensures
        codes@ == item_codes(items@),
{
    let mut codes: Vec<u8> = Vec::new();
    let n = items.len();
    let mut i: usize = 0;
    while i < n
        invariant
            n == items@.len(),
            i <= n,
            codes@ == item_codes(items@.take(i as int)),
        decreases n - i,
    {
        let t = items[i];
        proof {
            assert(items@.take(i as int + 1).drop_last() =~= items@.take(i as int));
        }
        if t != Type::Empty {
            codes.push(t.code());
        }
        i += 1;
    }
    proof {
        assert(items@.take(n as int) =~= items@);
    }
    codes
}

impl Blueprint {
    /// The canonical form of the staged items, which is the key under which a recipe
    /// is looked up.
    pub fn ingredients(&self) -> (key: Vec<Ingredient>)
        ensures
            key@ == ingredients(self@),
    {
        let codes = codes_of(&self.items);
        let found = counts(&codes);
        let mut key: Vec<Ingredient> = Vec::new();
        let mut r: u8 = TOP_RANK;
        while r > 0
            invariant
                r <= TOP_RANK,
                found@ == tally(item_codes(self@)),
                key@ + ingredients_upto(self@, r as nat) == ingredients(self@),
            decreases r,
        {
            proof {
                lemma_item_codes(self@, r);
            }
            let kind = Type::from_code(r);
            match (kind, found.get(&r)) {
                (Some(t), Some(c)) => {
                    proof {
                        assert((key@.push((t, *c)) + ingredients_upto(self@, (r - 1) as nat))
                            =~= key@ + (seq![(t, *c)] + ingredients_upto(self@, (r - 1) as nat)));
                    }
                    key.push((t, *c));
                },
                _ => {},
            }
            r -= 1;
        }
        proof {
            assert(key@ + Seq::<Ingredient>::empty() =~= key@);
        }
        key
    }
}

/// Whether slot `i` of the storage `sto` is one that crafting the blueprint `bp` consumes:
/// it holds an item, and fewer items of its kind come before it than `bp` asks for.
pub open spec fn is_matched(sto: Seq<Type>, bp: Seq<Type>, i: int) -> bool {
    &&& 0 <= i < sto.len()
    &&& sto[i] != Type::Empty
    &&& occurrences(sto.take(i), sto[i]) < occurrences(bp, sto[i])
}

/// The matched slots among the first `n` of `sto`, in ascending order.
pub open spec fn matched_upto(sto: Seq<Type>, bp: Seq<Type>, n: nat) -> Seq<usize>
    decreases n,
{
    if n == 0 {
        Seq::empty()
    } else {
        let before = matched_upto(sto, bp, (n - 1) as nat);
        if is_matched(sto, bp, n - 1) {
            before.push((n - 1) as usize)
        } else {
            before
        }
    }
}

/// The slots of `sto` that crafting `bp` consumes: for each kind, the first slots that
/// hold it, as many as `bp` holds of that kind.
pub open spec fn matched_slots(sto: Seq<Type>, bp: Seq<Type>) -> Seq<usize> {
    matched_upto(sto, bp, sto.len())
}

/// Whether `sto` holds at least as many items of every kind as `bp` does.
pub open spec fn is_enough(sto: Seq<Type>, bp: Seq<Type>) -> bool {
    forall|t: Type| amount(sto, t) >= amount(bp, t)
}

/// What is still owed of each kind after the first `n` slots of `sto` were matched
/// against `bp`, keyed by the kind's code; a kind of which nothing is owed has no entry.
pub open spec fn owed(sto: Seq<Type>, bp: Seq<Type>, n: int) -> Map<u8, usize> {
    Map::new(
        |k: u8|
            match Type::of_rank(k as nat) {
                Some(t) => amount(bp, t) > occurrences(sto.take(n), t),
                None => false,
            },
        |k: u8|
            match Type::of_rank(k as nat) {
                Some(t) => (amount(bp, t) - occurrences(sto.take(n), t)) as usize,
                None => 0usize,
            },
    )
}

proof fn lemma_owed_start(sto: Seq<Type>, bp: Seq<Type>)
    ensures
        tally(item_codes(bp)) =~= owed(sto, bp, 0),
{
    let a = tally(item_codes(bp));
    let b = owed(sto, bp, 0);
    assert(sto.take(0) =~= Seq::<Type>::empty());
    assert forall|k: u8| #[trigger] a.dom().contains(k) == b.dom().contains(k) by {
        lemma_item_codes(bp, k);
    }
    assert forall|k: u8| a.dom().contains(k) implies #[trigger] a[k] == b[k] by {
        lemma_item_codes(bp, k);
    }
}

proof fn lemma_owed_end(sto: Seq<Type>, bp: Seq<Type>)
    ensures
        owed(sto, bp, sto.len() as int).is_empty() <==> is_enough(sto, bp),
{
    let m = owed(sto, bp, sto.len() as int);
    assert(sto.take(sto.len() as int) =~= sto);
    if m.is_empty() {
        assert forall|t: Type| amount(sto, t) >= amount(bp, t) by {
            lemma_rank_injective(t, t);
            assert(!m.dom().contains(t.rank() as u8));
        }
    }
    if is_enough(sto, bp) {
        assert forall|k: u8| !m.dom().contains(k) by {
            match Type::of_rank(k as nat) {
                Some(t) => {
                    assert(amount(sto, t) >= amount(bp, t));
                },
                None => {},
            }
        }
        assert(m.dom() =~= Set::<u8>::empty());
    }
}

/// Matches the blueprint against the storage: tells whether the storage holds all that
/// the blueprint stages, and if so, which slots crafting will consume.
pub fn check_ingredients(sto: &Storage, bp: &Blueprint) -> (r: (bool, Vec<usize>))
    ensures
        r.0 == is_enough(sto@, bp@),
        r.0 ==> r.1@ == matched_slots(sto@, bp@),
        !r.0 ==> r.1@.len() == 0,
        forall|k: int| 0 <= k < r.1@.len() ==> r.1@[k] < sto@.len(),
{
    let codes = codes_of(&bp.items);
    let mut work: HashMap<u8, usize> = counts(&codes);
    let mut indices: Vec<usize> = Vec::new();
    let n = sto.items.len();
    let staged = bp.items.len();
    let mut i: usize = 0;
    proof {
        lemma_owed_start(sto@, bp@);
    }
    while i < n
        invariant
            n == sto@.len(),
            staged == bp@.len(),
            i <= n,
            work@ == owed(sto@, bp@, i as int),
            indices@ == matched_upto(sto@, bp@, i as nat),
            forall|k: int| 0 <= k < indices@.len() ==> indices@[k] < n,
        decreases n - i,
    {
        let id = sto.items[i];
        let code = id.code();
        let ghost seen = sto@.take(i as int);
        proof {
            lemma_rank_injective(id, id);
            assert(sto@.take(i as int + 1) =~= seen.push(id));
            assert forall|t: Type|
                occurrences(sto@.take(i as int + 1), t) == occurrences(seen, t) + if id == t {
                    1nat
                } else {
                    0nat
                } by {
                lemma_occurrences_push(seen, id, t);
            }
        }
        let left = match work.get(&code) {
            Some(c) => Some(*c),
            None => None,
        };
        let ghost before = work@;
        match left {
            Some(c) => {
                proof {
                    lemma_occurrences_bound(bp@, id);
                }
                assert(is_matched(sto@, bp@, i as int));
                indices.push(i);
                if c - 1 == 0 {
                    work.remove(&code);
                } else {
                    work.insert(code, c - 1);
                }
            },
            None => {
                assert(!is_matched(sto@, bp@, i as int));
            },
        }
        proof {
            let after = owed(sto@, bp@, i as int + 1);
            assert forall|k: u8| #[trigger] work@.dom().contains(k) == after.dom().contains(k) by {
                match Type::of_rank(k as nat) {
                    Some(t) => {
                        lemma_rank_injective(t, id);
                        lemma_occurrences_bound(bp@, t);
                        assert(before.dom().contains(k) == (amount(bp@, t) > occurrences(
                            seen,
                            t,
                        )));
                    },
                    None => {
                        assert(!before.dom().contains(k));
                    },
                }
            }
            assert forall|k: u8| work@.dom().contains(k) implies #[trigger] work@[k]
                == after[k] by {
                match Type::of_rank(k as nat) {
                    Some(t) => {
                        lemma_rank_injective(t, id);
                        lemma_occurrences_bound(bp@, t);
                        assert(before.dom().contains(k) == (amount(bp@, t) > occurrences(
                            seen,
                            t,
                        )));
                    },
                    None => {},
                }
            }
            assert(work@ =~= after);
        }
        i += 1;
    }
    proof {
        lemma_owed_end(sto@, bp@);
    }
    if work.is_empty() {
        (true, indices)
    } else {
        (false, Vec::new())
    }
}

/// The recipes that crafting knows, looked up by the canonical form of a blueprint.
#[derive(Clone, Debug)]
pub struct Table(pub Vec<Recipe>);

impl View for Table {
    type V = Seq<(Seq<Ingredient>, Type)>;

    open spec fn view(&self) -> Seq<(Seq<Ingredient>, Type)> {
        recipes_view(self.0@)
    }
}

/// What the recipes yield for `key`: the product of the last recipe that consumes exactly
/// `key` and yields an item. A recipe that would yield `Empty` is never found.
pub open spec fn recipe_result(recipes: Seq<(Seq<Ingredient>, Type)>, key: Seq<Ingredient>)
    -> Option<Type>
    decreases recipes.len(),
{
    if recipes.len() == 0 {
        None
    } else if recipes.last().0 == key && recipes.last().1 != Type::Empty {
        Some(recipes.last().1)
    } else {
        recipe_result(recipes.drop_last(), key)
    }
}

/// Whether two ingredient lists are the same list.
pub fn same_key(a: &Vec<Ingredient>, b: &Vec<Ingredient>) -> (same: bool)
    ensures
        same == (a@ == b@),
{
    if a.len() != b.len() {
        return false;
    }
    let n = a.len();
    let mut i: usize = 0;
    while i < n
        invariant
            n == a@.len(),
            n == b@.len(),
            i <= n,
            forall|j: int| 0 <= j < i ==> a@[j] == b@[j],
        decreases n - i,
    {
        if a[i].0 != b[i].0 || a[i].1 != b[i].1 {
            assert(a@[i as int] != b@[i as int]);
            return false;
        }
        i += 1;
    }
    assert(a@ =~= b@);
    true
}

impl Table {
    /// The kind that the recipes yield for `key`, if any does.
    pub fn get(&self, key: &Vec<Ingredient>) -> (r: Option<Type>)
        ensures
            r == recipe_result(self@, key@),
            r matches Some(t) ==> t != Type::Empty,
    {
        let n = self.0.len();
        let mut found: Option<Type> = None;
        let mut i: usize = 0;
        while i < n
            invariant
                n == self.0@.len(),
                i <= n,
                found == recipe_result(self@.take(i as int), key@),
                found matches Some(t) ==> t != Type::Empty,
            decreases n - i,
        {
            proof {
                assert(self@.take(i as int + 1).drop_last() =~= self@.take(i as int));
            }
            if self.0[i].1 != Type::Empty && same_key(&self.0[i].0, key) {
                found = Some(self.0[i].1);
            }
            i += 1;
        }
        proof {
            assert(self@.take(n as int) =~= self@);
        }
        found
    }
}

/// What crafting is about to yield: the product of the recipe that the blueprint selects,
/// provided that the storage holds all that the blueprint stages.
pub open spec fn craftable(
    sto: Seq<Type>,
    bp: Seq<Type>,
    recipes: Seq<(Seq<Ingredient>, Type)>,
) -> Option<Type> {
    if is_enough(sto, bp) {
        recipe_result(recipes, ingredients(bp))
    } else {
        None
    }
}

/// The storage after an attempt to craft: the matched slots are cleared and the product
/// is put into the first free slot; without a product nothing changes.
pub open spec fn synthesized(
    sto: Seq<Type>,
    bp: Seq<Type>,
    recipes: Seq<(Seq<Ingredient>, Type)>,
) -> Seq<Type> {
    match craftable(sto, bp, recipes) {
        Some(product) => inserted(cleared(sto, matched_slots(sto, bp)), product),
        None => sto,
    }
}

/// Attempts to craft what the blueprint stages. The blueprint selects the recipe; the
/// storage supplies the ingredients and receives the product. Returns the product, or
/// `None` when no recipe matches or the storage lacks an ingredient, in which case the
/// storage is left as it was.
pub fn synthesize_entity(storage: &mut Storage, bp: &Blueprint, table: &Table) -> (crafted: Option<
    Type,
>)
    ensures
        crafted == craftable(old(storage)@, bp@, table@),
        final(storage)@ == synthesized(old(storage)@, bp@, table@),
{
    let key = bp.ingredients();
    match table.get(&key) {
        Some(product) => {
            let (is_enough, indices) = check_ingredients(storage, bp);
            if is_enough {
                storage.remove(indices.as_slice());
                storage.insert(product);
                Some(product)
            } else {
                None
            }
        },
        None => None,
    }
}

/// The slot whose key is down: the first of the storage's slots for which `keys` says
/// so, where `keys[i]` tells whether the key of slot `i` was just pressed.
pub fn pressed_slot(keys: &Vec<bool>) -> (slot: Option<usize>)
    ensures
        match slot {
            Some(k) => k < keys@.len() && k < STORAGE_SIZE && keys@[k as int] && forall|j: int|
                0 <= j < k ==> !keys@[j],
            None => forall|j: int| 0 <= j < keys@.len() && j < STORAGE_SIZE ==> !keys@[j],
        },
{
    let n = if keys.len() < STORAGE_SIZE {
        keys.len()
    } else {
        STORAGE_SIZE
    };
    let mut i: usize = 0;
    while i < n
        invariant
            n <= keys@.len(),
            n <= STORAGE_SIZE,
            n == keys@.len() || n == STORAGE_SIZE,
            i <= n,
            forall|j: int| 0 <= j < i ==> !keys@[j],
        decreases n - i,
    {
        if keys[i] {
            return Some(i);
        }
        i += 1;
    }
    None
}

/// Whether selecting `slot` now selects it for the second time in a row, which stages
/// its item.
pub open spec fn is_double_select(selection: StorageInHand, slot: usize) -> bool {
    selection.cur == Some(slot)
}

/// Selects a storage slot. The slot selected before is remembered. Selecting the slot
/// that is selected already stages its item: a copy of it goes into the first free slot
/// of the blueprint, and the storage keeps the item. Returns whether an item was staged;
/// with a full blueprint none is.
pub fn storage_input(
    slot: Option<usize>,
    selection: &mut StorageInHand,
    storage: &Storage,
    bp: &mut Blueprint,
) -> (staged: bool)
    ensures
        match slot {
            Some(k) => {
                &&& *final(selection) == (StorageInHand { prev: old(selection).cur, cur: Some(k) })
                &&& if is_double_select(*old(selection), k) && k < storage@.len() {
                    &&& final(bp)@ == inserted(old(bp)@, storage@[k as int])
                    &&& staged == !is_full(old(bp)@)
                } else {
                    &&& final(bp)@ == old(bp)@
                    &&& !staged
                }
            },
            None => {
                &&& *final(selection) == *old(selection)
                &&& final(bp)@ == old(bp)@
                &&& !staged
            },
        },
{
    match slot {
        Some(k) => {
            let double = match selection.cur {
                Some(c) => c == k,
                None => false,
            };
            selection.prev = selection.cur;
            selection.cur = Some(k);
            if double && k < storage.items.len() {
                bp.insert(storage.items[k])
            } else {
                false
            }
        },
        None => false,
    }
}

/// Puts the held object into the storage: its kind goes into the first free slot, the
/// grip lets go, and the object is returned for the world to remove. With an empty hand
/// or a full storage nothing happens: the object stays in the world and in the hand.
pub fn store_entity(storage: &mut Storage, grip: &mut Grip, kind: Type) -> (stored: Option<
    EntityId,
>)
    ensures
        final(grip).player == old(grip).player,
        old(grip).wf() ==> final(grip).wf(),
        match old(grip).in_hand.entity {
            Some(object) if !is_full(old(storage)@) => {
                &&& final(storage)@ == inserted(old(storage)@, kind)
                &&& final(grip).is_empty()
                &&& stored == Some(object)
            },
            _ => {
                &&& final(storage)@ == old(storage)@
                &&& final(grip)@ == old(grip)@
                &&& stored is None
            },
        },
{
    match grip.in_hand.entity {
        Some(object) => {
            if storage.insert(kind) {
                grip.release();
                Some(object)
            } else {
                None
            }
        },
        None => None,
    }
}

/// The slot from which an item can be taken in hand: the selected one, if it exists and
/// holds an item, the hand is empty, and the cursor tells where to put the item.
pub open spec fn holdable(
    sto: Seq<Type>,
    selection: StorageInHand,
    hand: Option<EntityId>,
    cursor_known: bool,
) -> Option<int> {
    match selection.cur {
        Some(i) => if i < sto.len() && sto[i as int] != Type::Empty && hand is None
            && cursor_known {
            Some(i as int)
        } else {
            None
        },
        None => None,
    }
}

/// Takes the item of the selected slot out of the storage, to be held: the slot is
/// cleared and the kind is returned for the world to spawn as an object; the grip then
/// attaches what was spawned. Nothing happens, and `None` is returned, with no slot
/// selected, an empty slot, an object in hand already, or an unknown cursor position.
pub fn hold_stored_entity(
    storage: &mut Storage,
    selection: &StorageInHand,
    grip: &Grip,
    cursor_known: bool,
) -> (taken: Option<Type>)
    ensures
        match holdable(old(storage)@, *selection, grip.in_hand.entity, cursor_known) {
            Some(i) => {
                &&& final(storage)@ == old(storage)@.update(i, Type::Empty)
                &&& taken == Some(old(storage)@[i])
            },
            None => {
                &&& final(storage)@ == old(storage)@
                &&& taken is None
            },
        },
        taken matches Some(t) ==> t != Type::Empty,
{
    match selection.cur {
        Some(i) => {
            if i < storage.items.len() && cursor_known && grip.in_hand.entity.is_none() {
                let id = storage.items[i];
                if id != Type::Empty {
                    storage.items.set(i, Type::Empty);
                    Some(id)
                } else {
                    None
                }
            } else {
                None
            }
        },
        None => None,
    }
}

/// Empties the blueprint.
pub fn clear_entity(bp: &mut Blueprint)
    ensures
        final(bp)@.len() == old(bp)@.len(),
        forall|i: int| 0 <= i < final(bp)@.len() ==> final(bp)@[i] == Type::Empty,
{
    bp.clear();
}

/// For each kind that some recipe yields, what the last such recipe consumes; the
/// recipe book shows this. The key is the index of the kind.
#[derive(Clone, Debug)]
pub struct TableInverse(pub HashMap<usize, Vec<Ingredient>>);

impl View for TableInverse {
    type V = Map<usize, Seq<Ingredient>>;

    open spec fn view(&self) -> Map<usize, Seq<Ingredient>> {
        self.0@.map_values(|key: Vec<Ingredient>| key@)
    }
}

/// The ingredients by product: each recipe enters what it consumes under the index of
/// what it yields, a later recipe replacing an earlier one for the same product.
pub open spec fn inverse_of(recipes: Seq<(Seq<Ingredient>, Type)>) -> Map<usize, Seq<Ingredient>>
    decreases recipes.len(),
{
    if recipes.len() == 0 {
        Map::empty()
    } else {
        inverse_of(recipes.drop_last()).insert(
            recipes.last().1.rank() as usize,
            recipes.last().0,
        )
    }
}

/// A copy of an ingredient list.
pub fn copy_key(key: &Vec<Ingredient>) -> (copy: Vec<Ingredient>)
    ensures
        copy@ == key@,
{
    let mut copy: Vec<Ingredient> = Vec::new();
    let n = key.len();
    let mut i: usize = 0;
    while i < n
        invariant
            n == key@.len(),
            i <= n,
            copy@ == key@.take(i as int),
        decreases n - i,
    {
        copy.push(key[i]);
        proof {
            assert(key@.take(i as int + 1) =~= key@.take(i as int).push(key@[i as int]));
        }
        i += 1;
    }
    proof {
        assert(key@.take(n as int) =~= key@);
    }
    copy
}

impl TableInverse {
    /// Builds the inverse of a list of recipes.
    pub fn new(recipes: &Vec<Recipe>) -> (inverse: TableInverse)
        ensures
            inverse@ == inverse_of(recipes_view(recipes@)),
    {
        let mut m: HashMap<usize, Vec<Ingredient>> = HashMap::new();
        let n = recipes.len();
        let mut i: usize = 0;
        proof {
            assert(m@.map_values(|key: Vec<Ingredient>| key@) =~= Map::<
                usize,
                Seq<Ingredient>,
            >::empty());
            assert(recipes_view(recipes@).take(0) =~= Seq::empty());
        }
        while i < n
            invariant
                n == recipes@.len(),
                i <= n,
                m@.map_values(|key: Vec<Ingredient>| key@) == inverse_of(
                    recipes_view(recipes@).take(i as int),
                ),
            decreases n - i,
        {
            let ghost before = m@;
            let key = copy_key(&recipes[i].0);
            let index = recipes[i].1.index();
            m.insert(index, key);
            proof {
                let all = recipes_view(recipes@);
                assert(all.take(i as int + 1).drop_last() =~= all.take(i as int));
                assert(all.take(i as int + 1).last() == all[i as int]);
                assert(m@.map_values(|key: Vec<Ingredient>| key@) =~= before.map_values(
                    |key: Vec<Ingredient>| key@,
                ).insert(index, key@));
            }
            i += 1;
        }
        proof {
            assert(recipes_view(recipes@).take(n as int) =~= recipes_view(recipes@));
        }
        TableInverse(m)
    }

    /// What the recipe for `product` consumes, if there is a recipe for it.
    pub fn get(&self, product: Type) -> (key: Option<&Vec<Ingredient>>)
        ensures
            match key {
                Some(k) => self@.contains_key(product.rank() as usize) && self@[product.rank() as usize]
                    == k@,
                None => !self@.contains_key(product.rank() as usize),
            },
    {
        let index = product.index();
        self.0.get(&index)
    }
}

/// Builds the recipe table of the game and its inverse.
pub fn setup_table() -> (r: (Table, TableInverse))
    ensures
        r.0@ == recipe_list(),
        r.1@ == inverse_of(recipe_list()),
        forall|i: int| 0 <= i < r.0@.len() ==> is_canonical(#[trigger] r.0@[i].0),
{
    let recipes = init_table();
    let inverse = TableInverse::new(&recipes);
    (Table(recipes), inverse)
}

/// Every entry of the canonical form up to a rank is of a kind of at most that rank,
/// and of no kind that is `Empty`; it tells how often its kind occurs.
pub proof fn lemma_ingredients_entries(items: Seq<Type>, top: nat, i: int)
    requires
        items.len() <= usize::MAX,
        top <= TOP_RANK,
        0 <= i < ingredients_upto(items, top).len(),
    ensures
        ingredients_upto(items, top)[i].0 != Type::Empty,
        0 < ingredients_upto(items, top)[i].0.rank() <= top,
        ingredients_upto(items, top)[i].1 == amount(items, ingredients_upto(items, top)[i].0),
        ingredients_upto(items, top)[i].1 > 0,
    decreases top,
{
    if top > 0 {
        let rest = ingredients_upto(items, (top - 1) as nat);
        let t = Type::of_rank(top).unwrap();
        lemma_rank_injective(t, t);
        lemma_occurrences_bound(items, t);
        if amount(items, t) > 0 {
            if i > 0 {
                lemma_ingredients_entries(items, (top - 1) as nat, i - 1);
            }
        } else {
            lemma_ingredients_entries(items, (top - 1) as nat, i);
        }
    }
}

/// The canonical form of any slots is canonical: its kinds descend strictly, none is
/// `Empty`, and no count is zero.
pub proof fn lemma_ingredients_canonical(items: Seq<Type>)
    requires
        items.len() <= usize::MAX,
    ensures
        is_canonical(ingredients(items)),
{
    lemma_ingredients_sorted(items, TOP_RANK as nat);
    assert forall|i: int| 0 <= i < ingredients(items).len() implies (#[trigger] ingredients(
        items,
    )[i]).0 != Type::Empty && ingredients(items)[i].1 > 0 by {
        lemma_ingredients_entries(items, TOP_RANK as nat, i);
    }
}

proof fn lemma_ingredients_sorted(items: Seq<Type>, top: nat)
    requires
        items.len() <= usize::MAX,
        top <= TOP_RANK,
    ensures
        forall|i: int, j: int|
            0 <= i < j < ingredients_upto(items, top).len() ==> (#[trigger] ingredients_upto(
                items,
                top,
            )[i]).0.rank() > (#[trigger] ingredients_upto(items, top)[j]).0.rank(),
    decreases top,
{
    if top > 0 {
        let rest = ingredients_upto(items, (top - 1) as nat);
        let all = ingredients_upto(items, top);
        let t = Type::of_rank(top).unwrap();
        lemma_rank_injective(t, t);
        lemma_ingredients_sorted(items, (top - 1) as nat);
        assert forall|i: int, j: int| 0 <= i < j < all.len() implies (#[trigger] all[i]).0.rank()
            > (#[trigger] all[j]).0.rank() by {
            if amount(items, t) > 0 {
                lemma_ingredients_entries(items, (top - 1) as nat, j - 1);
                if i > 0 {
                    assert(all[i] == rest[i - 1]);
                    assert(all[j] == rest[j - 1]);
                }
            }
        }
    }
}

/// A kind has an entry in the canonical form exactly if the slots hold an item of it,
/// and the entry tells how many.
pub proof fn lemma_ingredients_complete(items: Seq<Type>, t: Type)
    requires
        items.len() <= usize::MAX,
    ensures
        amount(items, t) > 0 <==> ingredients(items).contains((t, amount(items, t) as usize)),
        forall|c: usize| ingredients(items).contains((t, c)) ==> c == amount(items, t),
{
    lemma_rank_injective(t, t);
    lemma_ingredients_has(items, TOP_RANK as nat, t);
    lemma_occurrences_bound(items, t);
    assert forall|c: usize| ingredients(items).contains((t, c)) implies c == amount(items, t) by {
        let i = choose|i: int| 0 <= i < ingredients(items).len() && ingredients(items)[i] == (t, c);
        lemma_ingredients_entries(items, TOP_RANK as nat, i);
    }
    if ingredients(items).contains((t, amount(items, t) as usize)) {
        let i = choose|i: int|
            0 <= i < ingredients(items).len() && ingredients(items)[i] == (
                t,
                amount(items, t) as usize,
            );
        lemma_ingredients_entries(items, TOP_RANK as nat, i);
    }
}

proof fn lemma_ingredients_has(items: Seq<Type>, top: nat, t: Type)
    requires
        top <= TOP_RANK,
    ensures
        amount(items, t) > 0 && t.rank() <= top ==> ingredients_upto(items, top).contains(
            (t, amount(items, t) as usize),
        ),
    decreases top,
{
    if top > 0 {
        let rest = ingredients_upto(items, (top - 1) as nat);
        let all = ingredients_upto(items, top);
        let u = Type::of_rank(top).unwrap();
        lemma_rank_injective(u, t);
        lemma_ingredients_has(items, (top - 1) as nat, t);
        if amount(items, t) > 0 && t.rank() <= top {
            if u == t {
                assert(all[0] == (t, amount(items, t) as usize));
            } else {
                let e = (t, amount(items, t) as usize);
                let i = choose|i: int| 0 <= i < rest.len() && rest[i] == e;
                if amount(items, u) > 0 {
                    assert(all[i + 1] == e);
                } else {
                    assert(all[i] == e);
                }
            }
        }
    }
}

/// The canonical form does not depend on the order of the slots: slots that hold the
/// same number of items of every kind have the same canonical form.
pub proof fn lemma_ingredients_order_free(a: Seq<Type>, b: Seq<Type>)
    requires
        forall|t: Type| amount(a, t) == amount(b, t),
    ensures
        ingredients(a) == ingredients(b),
{
    lemma_ingredients_same(a, b, TOP_RANK as nat);
}

proof fn lemma_ingredients_same(a: Seq<Type>, b: Seq<Type>, top: nat)
    requires
        forall|t: Type| amount(a, t) == amount(b, t),
    ensures
        ingredients_upto(a, top) == ingredients_upto(b, top),
    decreases top,
{
    if top > 0 {
        lemma_ingredients_same(a, b, (top - 1) as nat);
        match Type::of_rank(top) {
            Some(t) => {
                assert(amount(a, t) == amount(b, t));
            },
            None => {},
        }
    }
}

/// A slot is named by the matched slots up to `n` exactly if it lies below `n` and
/// is matched.
pub proof fn lemma_matched_names(sto: Seq<Type>, bp: Seq<Type>, n: nat, i: int)
    requires
        n <= sto.len(),
        sto.len() <= usize::MAX,
    ensures
        names_slot(matched_upto(sto, bp, n), i) <==> 0 <= i < n && is_matched(sto, bp, i),
    decreases n,
{
    if n > 0 {
        let before = matched_upto(sto, bp, (n - 1) as nat);
        let all = matched_upto(sto, bp, n);
        lemma_matched_names(sto, bp, (n - 1) as nat, i);
        if names_slot(all, i) {
            let k = choose|k: int| 0 <= k < all.len() && #[trigger] all[k] == i;
            if k < before.len() {
                assert(before[k] == i);
            }
        }
        if names_slot(before, i) {
            let k = choose|k: int| 0 <= k < before.len() && #[trigger] before[k] == i;
            assert(all[k] == i);
        }
        if is_matched(sto, bp, n - 1) && i == n - 1 {
            assert(all[all.len() - 1] == i);
        }
    }
}

/// How many of the first `n` items of kind `t` crafting consumes: all of them, up to the
/// number that the blueprint asks for.
pub open spec fn consumed(sto: Seq<Type>, bp: Seq<Type>, t: Type, n: int) -> nat {
    if occurrences(sto.take(n), t) < amount(bp, t) {
        occurrences(sto.take(n), t)
    } else {
        amount(bp, t)
    }
}

proof fn lemma_cleared_prefix(sto: Seq<Type>, bp: Seq<Type>, t: Type, n: int)
    requires
        0 <= n <= sto.len(),
        sto.len() <= usize::MAX,
        t != Type::Empty,
    ensures
        occurrences(cleared(sto, matched_slots(sto, bp)).take(n), t) == occurrences(
            sto.take(n),
            t,
        ) - consumed(sto, bp, t, n),
    decreases n,
{
    let c = cleared(sto, matched_slots(sto, bp));
    if n == 0 {
        assert(c.take(0) =~= Seq::<Type>::empty());
        assert(sto.take(0) =~= Seq::<Type>::empty());
    } else {
        lemma_cleared_prefix(sto, bp, t, n - 1);
        lemma_occurrences_take(c, n - 1, t);
        lemma_occurrences_take(sto, n - 1, t);
        lemma_matched_names(sto, bp, sto.len(), n - 1);
    }
}

/// Clearing the matched slots takes from the storage, of every kind, exactly what the
/// blueprint stages of it, provided that the storage holds that much.
pub proof fn lemma_cleared_amount(sto: Seq<Type>, bp: Seq<Type>, t: Type)
    requires
        is_enough(sto, bp),
        sto.len() <= usize::MAX,
    ensures
        amount(cleared(sto, matched_slots(sto, bp)), t) == amount(sto, t) - amount(bp, t),
{
    let c = cleared(sto, matched_slots(sto, bp));
    if t != Type::Empty {
        lemma_cleared_prefix(sto, bp, t, sto.len() as int);
        assert(c.take(sto.len() as int) =~= c);
        assert(sto.take(sto.len() as int) =~= sto);
        assert(amount(sto, t) >= amount(bp, t));
    }
}

/// Putting an item into a storage that has a free slot adds one item of that kind and
/// changes no other amount.
pub proof fn lemma_inserted_amount(s: Seq<Type>, id: Type, t: Type)
    requires
        !is_full(s),
    ensures
        amount(inserted(s, id), t) == amount(s, t) + if id == t && t != Type::Empty {
            1nat
        } else {
            0nat
        },
{
    lemma_first_empty_exists(s);
    let i = first_empty(s).unwrap();
    lemma_occurrences_update(s, i, id, t);
}

/// Crafting debits the storage exactly: where a product comes of it and finds a free
/// slot, the storage afterwards holds of every kind what it held, less what the
/// blueprint stages, and one more of the product.
pub proof fn lemma_synthesis_balance(
    sto: Seq<Type>,
    bp: Seq<Type>,
    recipes: Seq<(Seq<Ingredient>, Type)>,
    t: Type,
)
    requires
        sto.len() <= usize::MAX,
        craftable(sto, bp, recipes) is Some,
        !is_full(cleared(sto, matched_slots(sto, bp))),
    ensures
        amount(synthesized(sto, bp, recipes), t) == amount(sto, t) - amount(bp, t)
            + if craftable(sto, bp, recipes) == Some(t) {
            1int
        } else {
            0int
        },
{
    let product = craftable(sto, bp, recipes).unwrap();
    lemma_recipe_result_item(recipes, ingredients(bp));
    lemma_cleared_amount(sto, bp, t);
    lemma_inserted_amount(cleared(sto, matched_slots(sto, bp)), product, t);
}

/// No recipe yields `Empty`.
pub proof fn lemma_recipe_result_item(recipes: Seq<(Seq<Ingredient>, Type)>, key: Seq<Ingredient>)
    ensures
        recipe_result(recipes, key) != Some(Type::Empty),
    decreases recipes.len(),
{
    if recipes.len() > 0 {
        lemma_recipe_result_item(recipes.drop_last(), key);
    }
}

/// Crafting from a blueprint that stages at least one item always finds room for the
/// product: the slot of a consumed ingredient is free.
pub proof fn lemma_synthesis_has_room(sto: Seq<Type>, bp: Seq<Type>, t: Type)
    requires
        sto.len() <= usize::MAX,
        is_enough(sto, bp),
        amount(bp, t) > 0,
    ensures
        !is_full(cleared(sto, matched_slots(sto, bp))),
{
    let c = cleared(sto, matched_slots(sto, bp));
    assert(amount(sto, t) >= amount(bp, t));
    lemma_first_occurrence(sto, t);
    let i = choose|i: int| 0 <= i < sto.len() && sto[i] == t && occurrences(sto.take(i), t) == 0;
    lemma_matched_names(sto, bp, sto.len(), i);
    assert(c[i] == Type::Empty);
}

/// What occurs in a sequence has a first occurrence.
pub proof fn lemma_first_occurrence<T>(s: Seq<T>, x: T)
    requires
        occurrences(s, x) > 0,
    ensures
        exists|i: int| 0 <= i < s.len() && s[i] == x && occurrences(s.take(i), x) == 0,
    decreases s.len(),
{
    let front = s.drop_last();
    if occurrences(front, x) > 0 {
        lemma_first_occurrence(front, x);
        let i = choose|i: int| 0 <= i < front.len() && front[i] == x && occurrences(
            front.take(i),
            x,
        ) == 0;
        assert(front.take(i) =~= s.take(i));
        assert(s[i] == x);
    } else {
        let i = s.len() - 1;
        assert(s.take(i) =~= front);
        assert(s[i] == x);
    }
}

/// A key yields a product exactly if some recipe consumes exactly that key and yields
/// an item, and the product is then that of a recipe that does.
pub proof fn lemma_recipe_found(recipes: Seq<(Seq<Ingredient>, Type)>, key: Seq<Ingredient>)
    ensures
        recipe_result(recipes, key) is Some <==> exists|i: int|
            0 <= i < recipes.len() && (#[trigger] recipes[i]).0 == key && recipes[i].1
                != Type::Empty,
        recipe_result(recipes, key) matches Some(product) ==> exists|i: int|
            0 <= i < recipes.len() && (#[trigger] recipes[i]) == (key, product),
    decreases recipes.len(),
{
    if recipes.len() > 0 {
        let front = recipes.drop_last();
        let last = recipes.len() - 1;
        lemma_recipe_found(front, key);
        if recipes[last].0 == key && recipes[last].1 != Type::Empty {
            assert(recipes[last] == (key, recipes[last].1));
        } else {
            if recipe_result(front, key) is Some {
                let product = recipe_result(front, key).unwrap();
                let i = choose|i: int| 0 <= i < front.len() && (#[trigger] front[i]) == (key, product);
                assert(recipes[i] == front[i]);
                let j = choose|j: int|
                    0 <= j < front.len() && (#[trigger] front[j]).0 == key && front[j].1
                        != Type::Empty;
                assert(recipes[j] == front[j]);
            }
            if exists|i: int|
                0 <= i < recipes.len() && (#[trigger] recipes[i]).0 == key && recipes[i].1
                    != Type::Empty {
                let i = choose|i: int|
                    0 <= i < recipes.len() && (#[trigger] recipes[i]).0 == key && recipes[i].1
                        != Type::Empty;
                assert(front[i] == recipes[i]);
            }
        }
    }
}

} // verus!
