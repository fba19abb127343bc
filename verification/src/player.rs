use vstd::prelude::*;

verus! {

/// The animation a player's sprite shows.
#[derive(Debug, PartialEq, Eq, Structural, Copy, Clone)]
pub enum SpriteState {
    Idle,
    Walk,
    Attack,
    Damage,
    Dead,
}

impl Default for SpriteState {
    fn default() -> (s: Self)
        ensures
            s == SpriteState::Idle,
    {
        SpriteState::Idle
    }
}

/// The kinds of entity that live in the arena.
#[derive(Debug, PartialEq, Eq, Structural, Copy, Clone)]
pub enum EntityType {
    Player,
    PlayerHitBox,
}

/// The three selectable characters.
#[derive(Debug, PartialEq, Eq, Structural, Copy, Clone)]
pub enum Avatar {
    Tizia,
    Gundam,
    Coso,
}

impl Default for Avatar {
    fn default() -> (a: Self)
        ensures
            a == Avatar::Tizia,
    {
        Avatar::Tizia
    }
}

/// The character that an avatar code picks: 1, 2 and 3 pick Tizia, Gundam and
/// Coso; any other code falls back to Tizia.
pub open spec fn avatar_for_code(code: u8) -> Avatar {
    if code == 2 {
        Avatar::Gundam
    } else if code == 3 {
        Avatar::Coso
    } else {
        Avatar::Tizia
    }
}

impl Avatar {
    /// The character chosen with `code` in a player configuration.
    pub fn from_code(code: u8) -> (a: Avatar)
        ensures
            a == avatar_for_code(code),
    {
        match code {
            1 => Avatar::Tizia,
            2 => Avatar::Gundam,
            3 => Avatar::Coso,
            _ => Avatar::Tizia,
        }
    }
}

/// Which way a character faces.
#[derive(Debug, PartialEq, Eq, Structural, Copy, Clone)]
pub enum Direction {
    L,
    R,
}

impl Default for Direction {
    fn default() -> (d: Self)
        ensures
            d == Direction::L,
    {
        Direction::L
    }
}

/// The facing after a step whose horizontal movement points right
/// (`moving_right`) or left (`moving_left`): right wins, then left, and a step
/// with no horizontal movement keeps the facing.
pub open spec fn facing_after(current: Direction, moving_right: bool, moving_left: bool) -> Direction {
    if moving_right {
        Direction::R
    } else if moving_left {
        Direction::L
    } else {
        current
    }
}

/// The sprite after a step: walking when the input moves the character at all.
pub open spec fn sprite_after_step(moving: bool) -> SpriteState {
    if moving {
        SpriteState::Walk
    } else {
        SpriteState::Idle
    }
}

/// Side of a character on which its attack hitbox appears: -1 to its left, +1 to its right.
pub open spec fn hitbox_side(d: Direction) -> int {
    match d {
        Direction::L => -1,
        Direction::R => 1,
    }
}

/// Moving right always turns a character to face right and moving only left
/// always turns it to face left, whatever it faced before; a step with no
/// horizontal movement keeps the facing.
pub proof fn facing_follows_movement(d: Direction, moving_left: bool)
    ensures
        facing_after(d, true, moving_left) == Direction::R,
        facing_after(d, false, true) == Direction::L,
        facing_after(d, false, false) == d,
{
}

impl Direction {
    /// The facing after a step (see [`facing_after`]).
    pub fn after_step(self, moving_right: bool, moving_left: bool) -> (d: Direction)
        ensures
            d == facing_after(self, moving_right, moving_left),
    {
        if moving_right {
            Direction::R
        } else if moving_left {
            Direction::L
        } else {
            self
        }
    }

    /// The side on which this character's attack lands.
    pub fn hitbox_side(self) -> (side: i8)
        ensures
            side == hitbox_side(self),
    {
        match self {
            Direction::L => -1,
            Direction::R => 1,
        }
    }
}

impl SpriteState {
    /// The sprite after a step (see [`sprite_after_step`]).
    pub fn after_step(moving: bool) -> (s: SpriteState)
        ensures
            s == sprite_after_step(moving),
    {
        if moving {
            SpriteState::Walk
        } else {
            SpriteState::Idle
        }
    }
}

} // verus!
