//! The sprites of a level: food that grants the power to eat ghosts, and the
//! ghosts themselves, with the cells each level places them on.
use vstd::prelude::*;

verus! {

/// What a sprite is.
#[derive(Clone, Copy, Debug, PartialEq, Eq)]
pub enum SpriteKind {
    Food,
    Ghost1,
    Ghost2,
    Ghost3,
}

/// The ghost kinds.
pub open spec fn ghost_kind(kind: SpriteKind) -> bool {
    kind == SpriteKind::Ghost1 || kind == SpriteKind::Ghost2 || kind == SpriteKind::Ghost3
}

impl SpriteKind {
    /// Whether this kind is one of the ghosts.
    pub fn is_ghost(self) -> (is_ghost_kind: bool)
        ensures
            is_ghost_kind == ghost_kind(self),
    {
        match self {
            SpriteKind::Ghost1 | SpriteKind::Ghost2 | SpriteKind::Ghost3 => true,
            SpriteKind::Food => false,
        }
    }
}

/// What a frame of sprite updates did to the player.
#[derive(Clone, Copy, Debug, PartialEq, Eq)]
pub enum SpriteUpdate {
    NoEvent,
    PlayerCaught,
}

/// A sprite placed at the centre of a maze cell when a level starts.
#[derive(Clone, Copy, Debug, PartialEq, Eq)]
pub struct SpriteSpawn {
    pub kind: SpriteKind,
    pub column: usize,
    pub row: usize,
}

/// The sprites level `level_index` (counted from 0) starts with, in order.
pub open spec fn level_spawn_list(level_index: int) -> Seq<SpriteSpawn> {
    if level_index == 0 {
        seq![
            SpriteSpawn { kind: SpriteKind::Food, column: 3, row: 1 },
            SpriteSpawn { kind: SpriteKind::Food, column: 6, row: 3 },
            SpriteSpawn { kind: SpriteKind::Food, column: 11, row: 7 },
            SpriteSpawn { kind: SpriteKind::Ghost1, column: 7, row: 5 },
            SpriteSpawn { kind: SpriteKind::Ghost2, column: 15, row: 10 },
        ]
    } else if level_index == 1 {
        seq![
            SpriteSpawn { kind: SpriteKind::Food, column: 3, row: 1 },
            SpriteSpawn { kind: SpriteKind::Food, column: 6, row: 3 },
            SpriteSpawn { kind: SpriteKind::Food, column: 14, row: 5 },
            SpriteSpawn { kind: SpriteKind::Food, column: 16, row: 11 },
            SpriteSpawn { kind: SpriteKind::Ghost1, column: 4, row: 5 },
            SpriteSpawn { kind: SpriteKind::Ghost2, column: 15, row: 7 },
            SpriteSpawn { kind: SpriteKind::Ghost3, column: 11, row: 9 },
        ]
    } else if level_index == 2 {
        seq![
            SpriteSpawn { kind: SpriteKind::Food, column: 3, row: 1 },
            SpriteSpawn { kind: SpriteKind::Food, column: 8, row: 1 },
            SpriteSpawn { kind: SpriteKind::Food, column: 4, row: 3 },
            SpriteSpawn { kind: SpriteKind::Food, column: 6, row: 7 },
            SpriteSpawn { kind: SpriteKind::Food, column: 13, row: 7 },
            SpriteSpawn { kind: SpriteKind::Ghost1, column: 4, row: 5 },
            SpriteSpawn { kind: SpriteKind::Ghost2, column: 4, row: 9 },
            SpriteSpawn { kind: SpriteKind::Ghost3, column: 13, row: 9 },
            SpriteSpawn { kind: SpriteKind::Ghost1, column: 15, row: 11 },
        ]
    } else {
        Seq::empty()
    }
}

/// The cells and kinds of the sprites level `level_index` starts with; an
/// unknown level has none.
pub fn level_spawns(level_index: usize) -> (spawns: Vec<SpriteSpawn>)
    ensures
        spawns@ == level_spawn_list(level_index as int),
{
    let mut spawns: Vec<SpriteSpawn> = Vec::new();
    if level_index == 0 {
        spawns.push(SpriteSpawn { kind: SpriteKind::Food, column: 3, row: 1 });
        spawns.push(SpriteSpawn { kind: SpriteKind::Food, column: 6, row: 3 });
        spawns.push(SpriteSpawn { kind: SpriteKind::Food, column: 11, row: 7 });
        spawns.push(SpriteSpawn { kind: SpriteKind::Ghost1, column: 7, row: 5 });
        spawns.push(SpriteSpawn { kind: SpriteKind::Ghost2, column: 15, row: 10 });
    } else if level_index == 1 {
        spawns.push(SpriteSpawn { kind: SpriteKind::Food, column: 3, row: 1 });
        spawns.push(SpriteSpawn { kind: SpriteKind::Food, column: 6, row: 3 });
        spawns.push(SpriteSpawn { kind: SpriteKind::Food, column: 14, row: 5 });
        spawns.push(SpriteSpawn { kind: SpriteKind::Food, column: 16, row: 11 });
        spawns.push(SpriteSpawn { kind: SpriteKind::Ghost1, column: 4, row: 5 });
        spawns.push(SpriteSpawn { kind: SpriteKind::Ghost2, column: 15, row: 7 });
        spawns.push(SpriteSpawn { kind: SpriteKind::Ghost3, column: 11, row: 9 });
    } else if level_index == 2 {
        spawns.push(SpriteSpawn { kind: SpriteKind::Food, column: 3, row: 1 });
        spawns.push(SpriteSpawn { kind: SpriteKind::Food, column: 8, row: 1 });
        spawns.push(SpriteSpawn { kind: SpriteKind::Food, column: 4, row: 3 });
        spawns.push(SpriteSpawn { kind: SpriteKind::Food, column: 6, row: 7 });
        spawns.push(SpriteSpawn { kind: SpriteKind::Food, column: 13, row: 7 });
        spawns.push(SpriteSpawn { kind: SpriteKind::Ghost1, column: 4, row: 5 });
        spawns.push(SpriteSpawn { kind: SpriteKind::Ghost2, column: 4, row: 9 });
        spawns.push(SpriteSpawn { kind: SpriteKind::Ghost3, column: 13, row: 9 });
        spawns.push(SpriteSpawn { kind: SpriteKind::Ghost1, column: 15, row: 11 });
    }
    assert(spawns@ =~= level_spawn_list(level_index as int));
    spawns
}

/// How many sprites of `spawns` are food.
pub open spec fn food_count(spawns: Seq<SpriteSpawn>) -> nat
    decreases spawns.len(),
{
    if spawns.len() == 0 {
        0
    } else {
        food_count(spawns.drop_last()) + (if spawns.last().kind == SpriteKind::Food {
            1nat
        } else {
            0nat
        })
    }
}

/// How many sprites of `spawns` are ghosts.
pub open spec fn ghost_count(spawns: Seq<SpriteSpawn>) -> nat
    decreases spawns.len(),
{
    if spawns.len() == 0 {
        0
    } else {
        ghost_count(spawns.drop_last()) + (if ghost_kind(spawns.last().kind) {
            1nat
        } else {
            0nat
        })
    }
}

/// The first level has three foods and two ghosts, and each of the next two
/// levels adds one food and one ghost; levels past the third have no sprite.
pub proof fn lemma_level_sprite_counts(level_index: int)
    ensures
        0 <= level_index <= 2 ==> food_count(level_spawn_list(level_index)) == 3 + level_index
            && ghost_count(level_spawn_list(level_index)) == 2 + level_index,
        level_index > 2 ==> level_spawn_list(level_index).len() == 0,
{
    reveal_with_fuel(food_count, 10);
    reveal_with_fuel(ghost_count, 10);
}

/// The second and third levels use every ghost kind.
pub proof fn lemma_later_levels_use_every_ghost(level_index: int, kind: SpriteKind)
    requires
        level_index == 1 || level_index == 2,
        ghost_kind(kind),
    ensures
        exists|i: int|
            0 <= i < level_spawn_list(level_index).len() && #[trigger] level_spawn_list(
                level_index,
            )[i].kind == kind,
{
    let spawns = level_spawn_list(level_index);
    if kind == SpriteKind::Ghost1 {
        assert(spawns[4].kind == kind || spawns[5].kind == kind);
    } else if kind == SpriteKind::Ghost2 {
        assert(spawns[5].kind == kind || spawns[6].kind == kind);
    } else {
        assert(spawns[6].kind == kind || spawns[7].kind == kind);
    }
}

} // verus!
