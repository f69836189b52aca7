use raycasting::sprite::{level_spawns, SpriteKind, SpriteSpawn};

fn assert_sprite_counts(sprites: &[SpriteSpawn], foods: usize, ghosts: usize) {
    let food_count = sprites.iter().filter(|sprite| sprite.kind == SpriteKind::Food).count();
    let ghost_count = sprites.iter().filter(|sprite| sprite.kind.is_ghost()).count();

    assert_eq!(food_count, foods);
    assert_eq!(ghost_count, ghosts);
}

#[test]
fn level_one_has_three_foods_and_two_ghosts() {
    let sprites = level_spawns(0);

    assert_eq!(sprites.len(), 5);
    assert_sprite_counts(&sprites, 3, 2);
}

#[test]
fn levels_add_one_food_and_one_ghost_each() {
    let level_one = level_spawns(0);
    let level_two = level_spawns(1);
    let level_three = level_spawns(2);

    assert_sprite_counts(&level_one, 3, 2);
    assert_sprite_counts(&level_two, 4, 3);
    assert_sprite_counts(&level_three, 5, 4);
}

#[test]
fn unknown_levels_start_without_sprites() {
    assert!(level_spawns(3).is_empty());
}

#[test]
fn later_levels_use_all_available_ghost_textures() {
    let level_two = level_spawns(1);
    let level_three = level_spawns(2);

    for kind in [SpriteKind::Ghost1, SpriteKind::Ghost2, SpriteKind::Ghost3] {
        assert!(level_two.iter().any(|sprite| sprite.kind == kind));
        assert!(level_three.iter().any(|sprite| sprite.kind == kind));
    }
}

#[test]
fn first_level_spawns_at_fixed_cells() {
    let sprites = level_spawns(0);

    assert_eq!(sprites[0], SpriteSpawn { kind: SpriteKind::Food, column: 3, row: 1 });
    assert_eq!(sprites[3], SpriteSpawn { kind: SpriteKind::Ghost1, column: 7, row: 5 });
    assert_eq!(sprites[4], SpriteSpawn { kind: SpriteKind::Ghost2, column: 15, row: 10 });
}

#[test]
fn only_ghost_kinds_are_ghosts() {
    assert!(!SpriteKind::Food.is_ghost());
    assert!(SpriteKind::Ghost1.is_ghost());
    assert!(SpriteKind::Ghost2.is_ghost());
    assert!(SpriteKind::Ghost3.is_ghost());
}
