use metal_mayhem::collisions::{Axis, BodyType};
use metal_mayhem::player::{Avatar, Direction, EntityType, SpriteState};
use metal_mayhem::world::{resolve_combat, CombatOutcome, Fighter};

#[test]
fn avatar_codes() {
    assert_eq!(Avatar::from_code(1), Avatar::Tizia);
    assert_eq!(Avatar::from_code(2), Avatar::Gundam);
    assert_eq!(Avatar::from_code(3), Avatar::Coso);
    assert_eq!(Avatar::from_code(0), Avatar::Tizia);
    assert_eq!(Avatar::from_code(4), Avatar::Tizia);
    assert_eq!(Avatar::from_code(255), Avatar::Tizia);
}

#[test]
fn defaults() {
    assert_eq!(Avatar::default(), Avatar::Tizia);
    assert_eq!(SpriteState::default(), SpriteState::Idle);
    assert_eq!(Direction::default(), Direction::L);
    assert_ne!(EntityType::Player, EntityType::PlayerHitBox);
    assert_ne!(BodyType::Static, BodyType::Dynamic);
    assert_ne!(Axis::X, Axis::Y);
}

#[test]
fn facing_follows_horizontal_movement() {
    assert_eq!(Direction::L.after_step(true, false), Direction::R);
    assert_eq!(Direction::R.after_step(false, true), Direction::L);
    assert_eq!(Direction::L.after_step(false, false), Direction::L);
    assert_eq!(Direction::R.after_step(false, false), Direction::R);
    assert_eq!(Direction::L.after_step(true, true), Direction::R);
}

#[test]
fn hitbox_lands_on_the_facing_side() {
    assert_eq!(Direction::L.hitbox_side(), -1);
    assert_eq!(Direction::R.hitbox_side(), 1);
}

#[test]
fn walking_sprite() {
    assert_eq!(SpriteState::after_step(true), SpriteState::Walk);
    assert_eq!(SpriteState::after_step(false), SpriteState::Idle);
}

fn fighter(id: u32, attacking: bool, sprite_state: SpriteState) -> Fighter {
    Fighter { id, attacking, sprite_state }
}

#[test]
fn blows_land_on_overlapped_players() {
    let fighters = vec![
        fighter(1, true, SpriteState::Walk),
        fighter(2, false, SpriteState::Idle),
        fighter(3, true, SpriteState::Idle),
    ];
    let overlaps = vec![
        vec![true, true, false],
        vec![true, true, true],
        vec![true, true, true],
    ];
    let r = resolve_combat(&fighters, &overlaps);
    assert_eq!(
        r,
        vec![
            CombatOutcome { sprite_state: SpriteState::Damage, hits: 1 },
            CombatOutcome { sprite_state: SpriteState::Damage, hits: 2 },
            CombatOutcome { sprite_state: SpriteState::Attack, hits: 0 },
        ]
    );
}

#[test]
fn nobody_attacking_changes_nothing() {
    let fighters = vec![fighter(1, false, SpriteState::Walk), fighter(2, false, SpriteState::Idle)];
    let overlaps = vec![vec![true, true], vec![true, true]];
    let r = resolve_combat(&fighters, &overlaps);
    assert_eq!(
        r,
        vec![
            CombatOutcome { sprite_state: SpriteState::Walk, hits: 0 },
            CombatOutcome { sprite_state: SpriteState::Idle, hits: 0 },
        ]
    );
}

#[test]
fn own_hitbox_never_hurts() {
    let fighters = vec![fighter(5, true, SpriteState::Idle), fighter(5, true, SpriteState::Walk)];
    let overlaps = vec![vec![true, true], vec![true, true]];
    let r = resolve_combat(&fighters, &overlaps);
    assert_eq!(
        r,
        vec![
            CombatOutcome { sprite_state: SpriteState::Attack, hits: 0 },
            CombatOutcome { sprite_state: SpriteState::Attack, hits: 0 },
        ]
    );
}

#[test]
fn empty_arena() {
    assert!(resolve_combat(&vec![], &vec![]).is_empty());
}
