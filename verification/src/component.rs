//! The data that entities carry: markers, health, and the two inventories
//! of a player, `Storage` and `Blueprint`.

use crate::shape_mod::Type;
use vstd::prelude::*;

verus! {

/// Identifies one entity of the simulated world.
pub type EntityId = u64;

/// Marks the entity that the player steers.
#[derive(Copy, Clone, Debug, PartialEq, Eq, Structural)]
pub struct Player;

/// Marks an entity that was spawned as a world object.
#[derive(Copy, Clone, Debug, PartialEq, Eq, Structural)]
pub struct Object;

/// Marks an entity that can be picked up and thrown, and tells its kind.
#[derive(Copy, Clone, Debug, PartialEq, Eq, Structural)]
pub struct Throwable(pub Type);

/// Carried by a held object; names the entity that holds it.
#[derive(Copy, Clone, Debug, PartialEq, Eq, Structural)]
pub struct Grabbed(pub EntityId);

/// Marks geometry that ignores its health and is never removed.
#[derive(Copy, Clone, Debug, PartialEq, Eq, Structural)]
pub struct Undead;

/// Damage that an entity inflicts on impact.
#[derive(Copy, Clone, Debug, PartialEq, Eq, Structural)]
pub struct Dmg(pub i32);

/// Least health that healing leaves.
pub const MIN_HEALED_HP: i32 = 0;

/// Greatest health that healing leaves.
pub const MAX_HEALED_HP: i32 = 100;

/// `v` brought into the range of `i32`.
pub open spec fn saturate(v: int) -> int {
    if v < i32::MIN {
        i32::MIN as int
    } else if v > i32::MAX {
        i32::MAX as int
    } else {
        v
    }
}

/// Health after healing by `val`: the sum, brought into `[0, 100]`.
pub open spec fn healed(hp: int, val: int) -> int {
    if hp + val < MIN_HEALED_HP {
        MIN_HEALED_HP as int
    } else if hp + val > MAX_HEALED_HP {
        MAX_HEALED_HP as int
    } else {
        hp + val
    }
}

/// Health after taking `dmg`: the difference, which is not clamped to the healing range
/// and stops only at the bounds of `i32`.
pub open spec fn damaged(hp: int, dmg: int) -> int {
    saturate(hp - dmg)
}

/// Hit points of an entity. An entity is dead when it has none left.
#[derive(Copy, Clone, Debug, PartialEq, Eq, Structural)]
pub struct Health {
    pub hp: i32,
}

impl Health {
    /// Health of `hp` hit points.
    pub fn new(hp: i32) -> (h: Health)
        ensures
            h.hp == hp,
    {
        Health { hp }
    }

    /// Whether no hit points are left.
    pub open spec fn is_dead(&self) -> bool {
        self.hp <= 0
    }

    /// Tells whether no hit points are left.
    pub fn dead(&self) -> (d: bool)
        ensures
            d == self.is_dead(),
    {
        self.hp <= 0
    }

    /// Adds `val`, which may be negative, and clamps the result to `[0, 100]`.
    pub fn heal(&mut self, val: i32)
        ensures
            final(self).hp == healed(old(self).hp as int, val as int),
            MIN_HEALED_HP <= final(self).hp <= MAX_HEALED_HP,
    {
        let sum: i64 = self.hp as i64 + val as i64;
        if sum < MIN_HEALED_HP as i64 {
            self.hp = MIN_HEALED_HP;
        } else if sum > MAX_HEALED_HP as i64 {
            self.hp = MAX_HEALED_HP;
        } else {
            self.hp = sum as i32;
        }
    }

    /// Subtracts `dmg`. The result may be negative.
    pub fn damage(&mut self, dmg: i32)
        ensures
            final(self).hp == damaged(old(self).hp as int, dmg as int),
    {
        let diff: i64 = self.hp as i64 - dmg as i64;
        if diff < i32::MIN as i64 {
            self.hp = i32::MIN;
        } else if diff > i32::MAX as i64 {
            self.hp = i32::MAX;
        } else {
            self.hp = diff as i32;
        }
    }
}

/// Whether no slot of `s` is `Empty`.
pub open spec fn is_full(s: Seq<Type>) -> bool {
    forall|j: int| 0 <= j < s.len() ==> s[j] != Type::Empty
}

/// Whether `i` is the first slot of `s` that is `Empty`.
pub open spec fn is_first_empty(s: Seq<Type>, i: int) -> bool {
    &&& 0 <= i < s.len()
    &&& s[i] == Type::Empty
    &&& forall|j: int| 0 <= j < i ==> s[j] != Type::Empty
}

/// The first `Empty` slot of `s`, if there is one.
pub open spec fn first_empty(s: Seq<Type>) -> Option<int> {
    if is_full(s) {
        None
    } else {
        Some(choose|i: int| is_first_empty(s, i))
    }
}

/// The slots after an item was put into the first free one; unchanged when none is free.
pub open spec fn inserted(s: Seq<Type>, id: Type) -> Seq<Type> {
    match first_empty(s) {
        Some(i) => s.update(i, id),
        None => s,
    }
}

/// Whether slot `i` is among those that `indices` names.
pub open spec fn names_slot(indices: Seq<usize>, i: int) -> bool {
    exists|k: int| 0 <= k < indices.len() && #[trigger] indices[k] == i
}

/// The slots after those named in `indices` were reset to `Empty`.
pub open spec fn cleared(s: Seq<Type>, indices: Seq<usize>) -> Seq<Type> {
    Seq::new(
        s.len(),
        |i: int|
            if names_slot(indices, i) {
                Type::Empty
            } else {
                s[i]
            },
    )
}

/// The first free slot is the one that `is_first_empty` singles out.
pub proof fn lemma_first_empty(s: Seq<Type>, i: int)
    requires
        is_first_empty(s, i),
    ensures
        first_empty(s) == Some(i),
        !is_full(s),
{
    let k = choose|k: int| is_first_empty(s, k);
    assert(is_first_empty(s, k));
    if k < i {
        assert(s[k] != Type::Empty);
    }
    if i < k {
        assert(s[i] != Type::Empty);
    }
}

/// Below any `Empty` slot, or at it, lies the first one.
pub proof fn lemma_least_empty(s: Seq<Type>, n: int)
    requires
        0 <= n < s.len(),
        s[n] == Type::Empty,
    ensures
        exists|i: int| is_first_empty(s, i),
    decreases n,
{
    if forall|j: int| 0 <= j < n ==> s[j] != Type::Empty {
        assert(is_first_empty(s, n));
    } else {
        let j = choose|j: int| 0 <= j < n && s[j] == Type::Empty;
        lemma_least_empty(s, j);
    }
}

/// Slots that are not full have a first free slot.
pub proof fn lemma_first_empty_exists(s: Seq<Type>)
    requires
        !is_full(s),
    ensures
        exists|i: int| is_first_empty(s, i),
        first_empty(s) is Some,
        is_first_empty(s, first_empty(s).unwrap()),
{
    let n = choose|n: int| 0 <= n < s.len() && s[n] == Type::Empty;
    lemma_least_empty(s, n);
}

/// Puts `id` into the first `Empty` slot of `items`; tells whether there was one.
pub fn fill_first_empty(items: &mut Vec<Type>, id: Type) -> (ok: bool)
    ensures
        ok == !is_full(old(items)@),
        final(items)@ == inserted(old(items)@, id),
{
    let n = items.len();
    let mut i: usize = 0;
    while i < n
        invariant
            n == items.len(),
            i <= n,
            items@ == old(items)@,
            forall|j: int| 0 <= j < i ==> items@[j] != Type::Empty,
        decreases n - i,
    {
        if items[i] == Type::Empty {
            proof {
                lemma_first_empty(items@, i as int);
            }
            items.set(i, id);
            return true;
        }
        i += 1;
    }
    false
}

/// The player's inventory: a fixed number of slots, each holding one kind or `Empty`.
#[derive(Clone, Debug)]
pub struct Storage {
    pub items: Vec<Type>,
}

impl View for Storage {
    type V = Seq<Type>;

    open spec fn view(&self) -> Seq<Type> {
        self.items@
    }
}

impl Storage {
    /// A storage of `size` slots, all `Empty`.
    pub fn new(size: usize) -> (s: Storage)
        ensures
            s@.len() == size,
            forall|i: int| 0 <= i < size ==> s@[i] == Type::Empty,
    {
        let mut items: Vec<Type> = Vec::new();
        let mut i: usize = 0;
        while i < size
            invariant
                i <= size,
                items@.len() == i,
                forall|j: int| 0 <= j < i ==> items@[j] == Type::Empty,
            decreases size - i,
        {
            items.push(Type::Empty);
            i += 1;
        }
        Storage { items }
    }

    /// Puts `id` into the first free slot. Returns `false`, and changes nothing,
    /// when every slot is taken.
    pub fn insert(&mut self, id: Type) -> (ok: bool)
        ensures
            ok == !is_full(old(self)@),
            final(self)@ == inserted(old(self)@, id),
    {
        fill_first_empty(&mut self.items, id)
    }

    /// Resets the named slots to `Empty`.
    pub fn remove(&mut self, indices: &[usize])
        requires
            forall|k: int| 0 <= k < indices@.len() ==> indices@[k] < old(self)@.len(),
        ensures
            final(self)@ == cleared(old(self)@, indices@),
    {
        let n = indices.len();
        let mut k: usize = 0;
        while k < n
            invariant
                n == indices@.len(),
                k <= n,
                self@.len() == old(self)@.len(),
                forall|j: int| 0 <= j < n ==> indices@[j] < self@.len(),
                self@ == cleared(old(self)@, indices@.take(k as int)),
            decreases n - k,
        {
            let idx = indices[k];
            self.items.set(idx, Type::Empty);
            proof {
                let before = indices@.take(k as int);
                let after = indices@.take(k as int + 1);
                assert(after =~= before.push(idx));
                assert forall|i: int| 0 <= i < self@.len() implies self@[i] == cleared(
                    old(self)@,
                    after,
                )[i] by {
                    if names_slot(after, i) {
                        let w = choose|w: int| 0 <= w < after.len() && #[trigger] after[w] == i;
                        if w < k {
                            assert(before[w] == i);
                        }
                    }
                    if names_slot(before, i) {
                        let w = choose|w: int| 0 <= w < before.len() && #[trigger] before[w] == i;
                        assert(after[w] == i);
                    }
                    if i == idx {
                        assert(after[k as int] == i);
                    }
                }
                assert(self@ =~= cleared(old(self)@, after));
            }
            k += 1;
        }
        proof {
            assert(indices@.take(n as int) =~= indices@);
        }
    }
}

/// The staging area in which a recipe is put together before it is crafted.
#[derive(Clone, Debug)]
pub struct Blueprint {
    pub items: Vec<Type>,
}

impl View for Blueprint {
    type V = Seq<Type>;

    open spec fn view(&self) -> Seq<Type> {
        self.items@
    }
}

impl Blueprint {
    /// A blueprint of `size` slots, all `Empty`.
    pub fn new(size: usize) -> (b: Blueprint)
        ensures
            b@.len() == size,
            forall|i: int| 0 <= i < size ==> b@[i] == Type::Empty,
    {
        let s = Storage::new(size);
        Blueprint { items: s.items }
    }

    /// Puts `id` into the first free slot. Returns `false`, and changes nothing,
    /// when every slot is taken.
    pub fn insert(&mut self, id: Type) -> (ok: bool)
        ensures
            ok == !is_full(old(self)@),
            final(self)@ == inserted(old(self)@, id),
    {
        fill_first_empty(&mut self.items, id)
    }

    /// Resets every slot to `Empty`.
    pub fn clear(&mut self)
        ensures
            final(self)@.len() == old(self)@.len(),
            forall|i: int| 0 <= i < final(self)@.len() ==> final(self)@[i] == Type::Empty,
    {
        let n = self.items.len();
        let mut i: usize = 0;
        while i < n
            invariant
                n == self.items@.len(),
                n == old(self)@.len(),
                i <= n,
                forall|j: int| 0 <= j < i ==> self.items@[j] == Type::Empty,
            decreases n - i,
        {
            self.items.set(i, Type::Empty);
            i += 1;
        }
    }
}

/// The storage slot that the player has selected, and the one selected before it.
#[derive(Copy, Clone, Debug, PartialEq, Eq, Structural)]
pub struct StorageInHand {
    pub prev: Option<usize>,
    pub cur: Option<usize>,
}

/// Linear and angular velocity of a body, in thousandths of a unit per second (of a
/// radian per second for the spin). Factors that scale a velocity are given in
/// thousandths too.
#[derive(Copy, Clone, Debug, PartialEq, Eq, Structural)]
pub struct Velocity {
    pub x: i32,
    pub y: i32,
    pub angvel: i32,
}

/// The product of `v` and `permille` thousandths, rounded toward zero.
pub open spec fn scaled(v: int, permille: int) -> int {
    if v >= 0 {
        saturate(v * permille / 1000)
    } else {
        saturate(-((-v) * permille / 1000))
    }
}

/// Multiplies a velocity component by `permille` thousandths, rounding toward zero.
pub fn scale_component(v: i32, permille: u16) -> (r: i32)
    ensures
        r == scaled(v as int, permille as int),
{
    let magnitude: u64 = if v >= 0 {
        v as u64
    } else {
        (-(v as i64)) as u64
    };
    assert(magnitude * permille <= 0x8000_0000 * 0xffff) by (nonlinear_arith)
        requires
            magnitude <= 0x8000_0000,
            permille <= 0xffff,
    ;
    let part: u64 = magnitude * (permille as u64) / 1000;
    if v >= 0 {
        if part > i32::MAX as u64 {
            i32::MAX
        } else {
            part as i32
        }
    } else {
        if part > 0x8000_0000 {
            i32::MIN
        } else {
            (-(part as i64)) as i32
        }
    }
}

impl Velocity {
    /// A body at rest.
    pub fn zero() -> (v: Velocity)
        ensures
            v == (Velocity { x: 0, y: 0, angvel: 0 }),
    {
        Velocity { x: 0, y: 0, angvel: 0 }
    }

    /// The velocity with every component multiplied by `permille` thousandths.
    pub open spec fn damped(self, permille: u16) -> Velocity {
        Velocity {
            x: scaled(self.x as int, permille as int) as i32,
            y: scaled(self.y as int, permille as int) as i32,
            angvel: scaled(self.angvel as int, permille as int) as i32,
        }
    }

    /// Multiplies the linear and the angular velocity by `permille` thousandths.
    pub fn damp(&mut self, permille: u16)
        ensures
            *final(self) == old(self).damped(permille),
    {
        self.x = scale_component(self.x, permille);
        self.y = scale_component(self.y, permille);
        self.angvel = scale_component(self.angvel, permille);
    }

    /// The velocity with its linear part set to zero.
    pub open spec fn halted(self) -> Velocity {
        Velocity { x: 0, y: 0, ..self }
    }

    /// Stops the linear motion and leaves the rotation.
    pub fn halt(&mut self)
        ensures
            *final(self) == old(self).halted(),
    {
        self.x = 0;
        self.y = 0;
    }
}

/// The first row of `rows` that belongs to entity `id`, if there is one.
pub open spec fn row_of<T>(rows: Seq<(EntityId, T)>, id: EntityId) -> Option<int> {
    if exists|i: int| is_row_of(rows, id, i) {
        Some(choose|i: int| is_row_of(rows, id, i))
    } else {
        None
    }
}

/// Whether `i` is the first row of `rows` that belongs to entity `id`.
pub open spec fn is_row_of<T>(rows: Seq<(EntityId, T)>, id: EntityId, i: int) -> bool {
    &&& 0 <= i < rows.len()
    &&& rows[i].0 == id
    &&& forall|j: int| 0 <= j < i ==> (#[trigger] rows[j]).0 != id
}

/// The row that `is_row_of` singles out is the one that `row_of` gives.
pub proof fn lemma_row_of<T>(rows: Seq<(EntityId, T)>, id: EntityId, i: int)
    requires
        is_row_of(rows, id, i),
    ensures
        row_of(rows, id) == Some(i),
{
    let k = choose|k: int| is_row_of(rows, id, k);
    assert(is_row_of(rows, id, k));
    if k < i {
        assert(rows[k].0 != id);
    }
    if i < k {
        assert(rows[i].0 != id);
    }
}

/// An entity without a row has none.
pub proof fn lemma_no_row<T>(rows: Seq<(EntityId, T)>, id: EntityId)
    requires
        forall|j: int| 0 <= j < rows.len() ==> (#[trigger] rows[j]).0 != id,
    ensures
        row_of(rows, id) is None,
{
}

/// Finds the first row of entity `id`. A row list stands for the entities that carry a
/// component; an entity that is gone, or never carried it, has no row.
pub fn find_row<T>(rows: &Vec<(EntityId, T)>, id: EntityId) -> (found: Option<usize>)
    ensures
        found matches Some(i) ==> row_of(rows@, id) == Some(i as int) && i < rows@.len()
            && rows@[i as int].0 == id,
        found is None ==> row_of(rows@, id) is None,
{
    let n = rows.len();
    let mut i: usize = 0;
    while i < n
        invariant
            n == rows@.len(),
            i <= n,
            forall|j: int| 0 <= j < i ==> (#[trigger] rows@[j]).0 != id,
        decreases n - i,
    {
        if rows[i].0 == id {
            proof {
                lemma_row_of(rows@, id, i as int);
            }
            return Some(i);
        }
        i += 1;
    }
    proof {
        lemma_no_row(rows@, id);
    }
    None
}

/// Whether `id` is among `ids`.
pub fn contains_id(ids: &Vec<EntityId>, id: EntityId) -> (found: bool)
    ensures
        found == ids@.contains(id),
{
    let n = ids.len();
    let mut i: usize = 0;
    while i < n
        invariant
            n == ids@.len(),
            i <= n,
            forall|j: int| 0 <= j < i ==> ids@[j] != id,
        decreases n - i,
    {
        if ids[i] == id {
            return true;
        }
        i += 1;
    }
    false
}

} // verus!
