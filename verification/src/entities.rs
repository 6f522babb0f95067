use vstd::prelude::*;

verus! {

/// The four walls of a room.
#[derive(Clone, Copy, Debug, PartialEq, Eq, Structural)]
pub enum WallType {
    North,
    South,
    East,
    West,
}

/// The name under which a wall of the given side is spawned.
pub open spec fn wall_name(w: WallType) -> Seq<char> {
    match w {
        WallType::North => "Wall North"@,
        WallType::South => "Wall South"@,
        WallType::East => "Wall East"@,
        WallType::West => "Wall West"@,
    }
}

impl WallType {
    /// The display name of the wall.
    pub fn get_name(&self) -> (name: &'static str)
        ensures
            name@ == wall_name(*self),
    {
        match self {
            WallType::North => "Wall North",
            WallType::South => "Wall South",
            WallType::East => "Wall East",
            WallType::West => "Wall West",
        }
    }

    /// Walls facing north or south run along the room's width; the others
    /// along its depth.
    pub fn spans_width(&self) -> (b: bool)
        ensures
            b == (*self == WallType::North || *self == WallType::South),
    {
        match self {
            WallType::North | WallType::South => true,
            WallType::East | WallType::West => false,
        }
    }
}

/// A wall of a room, by the side it closes.
#[derive(Clone, Copy, Debug, PartialEq, Eq, Structural)]
pub struct WallEntity {
    pub wall_type: WallType,
}

impl WallEntity {
    /// A wall on the given side.
    pub fn new(wall_type: WallType) -> (w: Self)
        ensures
            w.wall_type == wall_type,
    {
        WallEntity { wall_type }
    }
}

impl Default for WallEntity {
    /// The north wall.
    fn default() -> (w: Self)
        ensures
            w.wall_type == WallType::North,
    {
        WallEntity { wall_type: WallType::North }
    }
}

/// The kinds of enemy that can be spawned.
#[derive(Clone, Copy, Debug, PartialEq, Eq, Structural)]
pub enum EnemyType {
    Basic,
    Fast,
    Heavy,
}

/// The entity-type identifier of an enemy of the given kind.
pub open spec fn enemy_type_name(t: EnemyType) -> Seq<char> {
    match t {
        EnemyType::Basic => "Enemy_Basic"@,
        EnemyType::Fast => "Enemy_Fast"@,
        EnemyType::Heavy => "Enemy_Heavy"@,
    }
}

impl EnemyType {
    /// The entity-type identifier of an enemy of this kind.
    pub fn entity_type_name(&self) -> (name: &'static str)
        ensures
            name@ == enemy_type_name(*self),
    {
        match self {
            EnemyType::Basic => "Enemy_Basic",
            EnemyType::Fast => "Enemy_Fast",
            EnemyType::Heavy => "Enemy_Heavy",
        }
    }
}

/// Something the world spawns, with an identifier of its kind.
pub trait GameEntity {
    /// The identifier of the entity's kind.
    fn entity_type(&self) -> &'static str;
}

impl GameEntity for WallEntity {
    fn entity_type(&self) -> (name: &'static str)
        ensures
            name@ == "Wall"@,
    {
        "Wall"
    }
}

} // verus!
