//! The kinds of item that exist in the game, their order, and the recipes
//! that turn some of them into others.

use std::cmp::Ordering;
use vstd::prelude::*;

verus! {

/// The kind of an item or world object. `Empty` stands for "no item".
///
/// Kinds are totally ordered by their position in this list, see [`Type::rank`].
#[derive(Copy, Clone, Hash, Eq, PartialEq, PartialOrd, Ord, Debug, Structural)]
pub enum Type {
    Empty,
    Square,
    Circle,
    Rect,
    Triangle,
    Heart,
    Rust,
}

/// Number of kinds, `Empty` included.
pub const TYPE_COUNT: usize = 7;

impl Type {
    /// Position of the kind in the total order; `Empty` is the least.
    pub open spec fn rank(self) -> nat {
        match self {
            Type::Empty => 0,
            Type::Square => 1,
            Type::Circle => 2,
            Type::Rect => 3,
            Type::Triangle => 4,
            Type::Heart => 5,
            Type::Rust => 6,
        }
    }

    /// The kind at a given position of the order, if there is one.
    pub open spec fn of_rank(rank: nat) -> Option<Type> {
        if rank == 0 {
            Some(Type::Empty)
        } else if rank == 1 {
            Some(Type::Square)
        } else if rank == 2 {
            Some(Type::Circle)
        } else if rank == 3 {
            Some(Type::Rect)
        } else if rank == 4 {
            Some(Type::Triangle)
        } else if rank == 5 {
            Some(Type::Heart)
        } else if rank == 6 {
            Some(Type::Rust)
        } else {
            None
        }
    }

    /// The rank as a byte; this is the code under which a kind is counted.
    pub fn code(self) -> (c: u8)
        ensures
            c == self.rank(),
            c < TYPE_COUNT,
    {
        match self {
            Type::Empty => 0,
            Type::Square => 1,
            Type::Circle => 2,
            Type::Rect => 3,
            Type::Triangle => 4,
            Type::Heart => 5,
            Type::Rust => 6,
        }
    }

    /// The rank as an index into a table with one slot per kind.
    pub fn index(self) -> (i: usize)
        ensures
            i == self.rank(),
            i < TYPE_COUNT,
    {
        match self {
            Type::Empty => 0,
            Type::Square => 1,
            Type::Circle => 2,
            Type::Rect => 3,
            Type::Triangle => 4,
            Type::Heart => 5,
            Type::Rust => 6,
        }
    }

    /// The kind with the given code; `None` for a byte that codes no kind.
    pub fn from_code(code: u8) -> (t: Option<Type>)
        ensures
            t == Type::of_rank(code as nat),
            t is Some <==> code < TYPE_COUNT,
            t matches Some(k) ==> k.rank() == code,
    {
        match code {
            0 => Some(Type::Empty),
            1 => Some(Type::Square),
            2 => Some(Type::Circle),
            3 => Some(Type::Rect),
            4 => Some(Type::Triangle),
            5 => Some(Type::Heart),
            6 => Some(Type::Rust),
            _ => None,
        }
    }

    /// Three-way comparison of two kinds by rank.
    pub fn compare(&self, other: &Type) -> (o: Ordering)
        ensures
            o is Less <==> self.rank() < other.rank(),
            o is Equal <==> *self == *other,
            o is Greater <==> self.rank() > other.rank(),
    {
        let a = self.code();
        let b = other.code();
        proof {
            lemma_rank_injective(*self, *other);
        }
        if a < b {
            Ordering::Less
        } else if a > b {
            Ordering::Greater
        } else {
            Ordering::Equal
        }
    }
}

/// Two kinds of the same rank are the same kind.
pub proof fn lemma_rank_injective(a: Type, b: Type)
    ensures
        a.rank() == b.rank() <==> a == b,
        Type::of_rank(a.rank()) == Some(a),
        a.rank() < TYPE_COUNT,
{
}

/// One ingredient of a recipe: a kind and how many of it.
pub type Ingredient = (Type, usize);

/// A recipe: what it consumes, and the kind it yields.
pub type Recipe = (Vec<Ingredient>, Type);

/// A list of recipes as plain values.
pub open spec fn recipes_view(recipes: Seq<Recipe>) -> Seq<(Seq<Ingredient>, Type)> {
    Seq::new(recipes.len(), |i: int| (recipes[i].0@, recipes[i].1))
}

/// The recipes of the game: two squares make a rect, a triangle and two circles make a
/// heart, two hearts make rust. Each lists its ingredients by descending kind.
pub open spec fn recipe_list() -> Seq<(Seq<Ingredient>, Type)> {
    seq![
        (seq![(Type::Square, 2usize)], Type::Rect),
        (seq![(Type::Triangle, 1usize), (Type::Circle, 2usize)], Type::Heart),
        (seq![(Type::Heart, 2usize)], Type::Rust),
    ]
}

/// The recipes of the game, from which the recipe table is built once at startup.
pub fn init_table() -> (table: Vec<Recipe>)
    ensures
        recipes_view(table@) == recipe_list(),
{
    let mut rect: Vec<Ingredient> = Vec::new();
    rect.push((Type::Square, 2));
    let mut heart: Vec<Ingredient> = Vec::new();
    heart.push((Type::Triangle, 1));
    heart.push((Type::Circle, 2));
    let mut rust: Vec<Ingredient> = Vec::new();
    rust.push((Type::Heart, 2));
    let mut table: Vec<Recipe> = Vec::new();
    table.push((rect, Type::Rect));
    table.push((heart, Type::Heart));
    table.push((rust, Type::Rust));
    proof {
        let v = recipes_view(table@);
        let r = recipe_list();
        assert(v.len() == r.len());
        assert(v[0].0 =~= r[0].0);
        assert(v[1].0 =~= r[1].0);
        assert(v[2].0 =~= r[2].0);
        assert(v =~= r);
    }
    table
}

} // verus!
