use vstd::prelude::*;

verus! {

/// Identifier of a zone (room) of a generated level.
#[derive(Clone, Copy, Debug, PartialEq, Eq, Structural, Hash)]
pub struct ZoneId(pub u32);

/// The kinds of rooms a level is built from.
#[derive(Clone, Copy, Debug, PartialEq, Eq, Structural)]
pub enum ZoneType {
    Hub,
    Corridor,
    Utility,
    Industrial,
    Objective,
    Storage,
}

impl ZoneType {
    pub open spec fn spec_max_connections(self) -> usize {
        match self {
            ZoneType::Hub => 5,
            ZoneType::Corridor => 2,
            ZoneType::Utility => 2,
            ZoneType::Industrial => 4,
            ZoneType::Objective => 2,
            ZoneType::Storage => 1,
        }
    }

    /// How many doors a room of this kind may have.
    pub fn max_connections(&self) -> (n: usize)
        ensures
            n == self.spec_max_connections(),
    {
        match self {
            ZoneType::Hub => 5,
            ZoneType::Corridor => 2,
            ZoneType::Utility => 2,
            ZoneType::Industrial => 4,
            ZoneType::Objective => 2,
            ZoneType::Storage => 1,
        }
    }
}

/// The kinds of door between two zones.
#[derive(Clone, Copy, Debug, PartialEq, Eq, Structural, Hash)]
pub enum DoorType {
    Normal,
    Keycard,
    Alarm,
    Bulkhead,
}

impl DoorType {
    /// A keycard door.
    pub fn requires_keycard(self) -> (b: bool)
        ensures
            b <==> self == DoorType::Keycard,
    {
        matches!(self, DoorType::Keycard)
    }

    /// A door that triggers a defensive hold (alarm or bulkhead).
    pub fn is_defensive_hold(self) -> (b: bool)
        ensures
            b <==> (self == DoorType::Alarm || self == DoorType::Bulkhead),
    {
        matches!(self, DoorType::Alarm | DoorType::Bulkhead)
    }
}

/// Colour of the keycard placed in a level.
#[derive(Clone, Copy, Debug, PartialEq, Eq, Structural, Hash)]
pub enum KeycardColor {
    Red,
    Blue,
}

impl Default for KeycardColor {
    fn default() -> (c: Self)
        ensures
            c == KeycardColor::Red,
    {
        KeycardColor::Red
    }
}

/// What an entry of the terminal network points at.
#[derive(Clone, Copy, Debug, PartialEq, Eq, Structural, Hash)]
pub enum IndexedItemKind {
    Keycard,
    Objective,
    Ammo,
    Medical,
    Tool,
}

/// An entry of the terminal network.
#[derive(Clone, Debug)]
pub struct IndexedItem {
    pub id: String,
    pub kind: IndexedItemKind,
    pub zone: ZoneId,
    pub label: String,
}

/// The index of items that every terminal console of the level can query.
#[derive(Clone, Debug)]
pub struct TerminalNetwork {
    pub items: Vec<IndexedItem>,
}

impl Default for TerminalNetwork {
    fn default() -> (n: Self)
        ensures
            n.items@.len() == 0,
    {
        TerminalNetwork { items: Vec::new() }
    }
}

/// Per-zone resource budget.
#[derive(Clone, Copy, Debug, PartialEq, Eq, Structural)]
pub struct ZoneResources {
    pub ammo_packs: u8,
    pub tool_packs: u8,
    pub med_packs: u8,
}

impl ZoneResources {
    pub open spec fn is_empty(self) -> bool {
        self.ammo_packs == 0 && self.tool_packs == 0 && self.med_packs == 0
    }

    /// No resources at all.
    pub fn none() -> (r: Self)
        ensures
            r.is_empty(),
    {
        ZoneResources { ammo_packs: 0, tool_packs: 0, med_packs: 0 }
    }
}

/// A zone of the level graph: what the level logic reads of a room. Its
/// placement in space lives with the renderer and the physics world.
#[derive(Clone, Debug)]
pub struct Zone {
    pub id: ZoneId,
    pub zone_type: ZoneType,
    pub connections: Vec<ZoneId>,
    pub is_built: bool,
    pub is_objective: bool,
    pub is_keycard: bool,
    pub hazard_level: u8,
    pub resources: ZoneResources,
}

impl Zone {
    /// A fresh zone with no doors, flags or resources.
    pub fn new(id: ZoneId, zone_type: ZoneType) -> (z: Self)
        ensures
            z.id == id,
            z.zone_type == zone_type,
            z.connections@.len() == 0,
            !z.is_built,
            !z.is_objective,
            !z.is_keycard,
            z.hazard_level == 0,
            z.resources.is_empty(),
    {
        Zone {
            id,
            zone_type,
            connections: Vec::new(),
            is_built: false,
            is_objective: false,
            is_keycard: false,
            hazard_level: 0,
            resources: ZoneResources::none(),
        }
    }

    pub open spec fn spec_is_leaf(&self, spawn: ZoneId) -> bool {
        self.id != spawn && self.connections@.len() <= 1
    }

    /// A dead end: not the given spawn zone, with at most one door.
    pub fn is_leaf(&self, spawn: ZoneId) -> (b: bool)
        ensures
            b == self.spec_is_leaf(spawn),
    {
        self.id.0 != spawn.0 && self.connections.len() <= 1
    }
}

/// A door between two zones.
#[derive(Clone, Copy, Debug)]
pub struct ZoneConnection {
    pub from_zone: ZoneId,
    pub to_zone: ZoneId,
    pub door_type: DoorType,
    pub required_keycard: Option<ZoneId>,
    pub is_critical_path: bool,
}

/// The integer part of a level's configuration.
#[derive(Clone, Copy, Debug)]
pub struct LevelConfig {
    pub seed: u64,
    pub target_zone_count: u32,
    pub max_depth: u32,
}

impl Default for LevelConfig {
    fn default() -> (c: Self)
        ensures
            c.seed == 12345,
            c.target_zone_count == 15,
            c.max_depth == 10,
    {
        LevelConfig { seed: 12345, target_zone_count: 15, max_depth: 10 }
    }
}

/// The graph of zones and doors of a level, with the expedition design laid on it.
#[derive(Clone, Debug)]
pub struct LevelGraph {
    pub config: LevelConfig,
    pub zones: Vec<Zone>,
    pub connections: Vec<ZoneConnection>,
    pub spawn_zone: ZoneId,
    pub objective_zones: Vec<ZoneId>,
    pub objective_zone: Option<ZoneId>,
    pub keycard_zone: Option<ZoneId>,
    pub keycard_color: KeycardColor,
    pub terminal_network: TerminalNetwork,
    pub horde_spawn_zones: Vec<ZoneId>,
    pub scan_node_zones: Vec<ZoneId>,
}

/// Does some zone of the sequence carry this id?
pub open spec fn has_zone(zones: Seq<Zone>, id: u32) -> bool {
    exists|i: int| 0 <= i < zones.len() && zones[i].id.0 == id
}

/// Index of the zone with this id (meaningful when `has_zone`).
pub open spec fn zone_index(zones: Seq<Zone>, id: u32) -> int {
    choose|i: int| 0 <= i < zones.len() && zones[i].id.0 == id
}

/// No two zones share an id: the zones form a map from id to zone.
pub open spec fn unique_ids(zones: Seq<Zone>) -> bool {
    forall|i: int, j: int|
        0 <= i < zones.len() && 0 <= j < zones.len() && i != j ==> zones[i].id.0 != zones[j].id.0
}

impl LevelGraph {
    /// Well-formed: zones are keyed by their id.
    pub open spec fn wf(&self) -> bool {
        unique_ids(self.zones@)
    }

    /// An empty level graph for the configuration.
    pub fn new(config: LevelConfig) -> (g: Self)
        ensures
            g.wf(),
            g.config == config,
            g.zones@.len() == 0,
            g.connections@.len() == 0,
            g.spawn_zone == ZoneId(0),
            g.objective_zones@.len() == 0,
            g.objective_zone.is_none(),
            g.keycard_zone.is_none(),
            g.keycard_color == KeycardColor::Red,
            g.terminal_network.items@.len() == 0,
            g.horde_spawn_zones@.len() == 0,
            g.scan_node_zones@.len() == 0,
    {
        LevelGraph {
            config,
            zones: Vec::new(),
            connections: Vec::new(),
            spawn_zone: ZoneId(0),
            objective_zones: Vec::new(),
            objective_zone: None,
            keycard_zone: None,
            keycard_color: KeycardColor::Red,
            terminal_network: TerminalNetwork { items: Vec::new() },
            horde_spawn_zones: Vec::new(),
            scan_node_zones: Vec::new(),
        }
    }

    /// Index of the zone with this id, if there is one.
    pub fn zone_position(&self, id: ZoneId) -> (r: Option<usize>)
        ensures
            match r {
                Some(i) => i < self.zones@.len() && self.zones@[i as int].id == id,
                None => !has_zone(self.zones@, id.0),
            },
            self.wf() && r.is_some() ==> r == Some(zone_index(self.zones@, id.0) as usize),
    {
        let mut i: usize = 0;
        while i < self.zones.len()
            invariant
                i <= self.zones@.len(),
                forall|k: int| 0 <= k < i ==> self.zones@[k].id.0 != id.0,
            decreases self.zones@.len() - i,
        {
            if self.zones[i].id.0 == id.0 {
                proof {
                    if self.wf() {
                        let j = zone_index(self.zones@, id.0);
                        assert(self.zones@[i as int].id.0 == id.0);
                    }
                }
                return Some(i);
            }
            i = i + 1;
        }
        None
    }

    /// The zone with this id.
    pub fn get_zone(&self, id: ZoneId) -> (r: Option<&Zone>)
        requires
            self.wf(),
        ensures
            match r {
                Some(z) => has_zone(self.zones@, id.0) && *z == self.zones@[zone_index(
                    self.zones@,
                    id.0,
                )],
                None => !has_zone(self.zones@, id.0),
            },
    {
        match self.zone_position(id) {
            Some(i) => Some(&self.zones[i]),
            None => None,
        }
    }

    /// Inserts a zone, replacing the zone that had its id, if any.
    pub fn add_zone(&mut self, zone: Zone)
        requires
            old(self).wf(),
        ensures
            final(self).wf(),
            has_zone(old(self).zones@, zone.id.0) ==> final(self).zones@ == old(self).zones@.update(
                zone_index(old(self).zones@, zone.id.0),
                zone,
            ),
            !has_zone(old(self).zones@, zone.id.0) ==> final(self).zones@ == old(
                self,
            ).zones@.push(zone),
            final(self).connections@ == old(self).connections@,
            final(self).spawn_zone == old(self).spawn_zone,
            final(self).config == old(self).config,
            final(self).objective_zones == old(self).objective_zones,
            final(self).objective_zone == old(self).objective_zone,
            final(self).keycard_zone == old(self).keycard_zone,
            final(self).keycard_color == old(self).keycard_color,
    {
        match self.zone_position(zone.id) {
            Some(i) => {
                self.zones.set(i, zone);
            },
            None => {
                self.zones.push(zone);
            },
        }
    }
}

/// Does the list of zone ids hold `id`?
pub fn contains_zone(v: &Vec<ZoneId>, id: ZoneId) -> (b: bool)
    ensures
        b == v@.contains(id),
{
    let mut i: usize = 0;
    while i < v.len()
        invariant
            i <= v@.len(),
            forall|k: int| 0 <= k < i ==> v@[k] != id,
        decreases v@.len() - i,
    {
        if v[i].0 == id.0 {
            assert(v@[i as int] == id);
            return true;
        }
        i = i + 1;
    }
    false
}

/// `s` with `other` appended unless it is already there.
pub open spec fn linked(s: Seq<ZoneId>, other: ZoneId) -> Seq<ZoneId> {
    if s.contains(other) {
        s
    } else {
        s.push(other)
    }
}

/// The door list of a zone after a door between `from` and `to` was added.
pub open spec fn links_after_connect(z: Zone, from: ZoneId, to: ZoneId) -> Seq<ZoneId> {
    let s1 = if z.id == from {
        linked(z.connections@, to)
    } else {
        z.connections@
    };
    if z.id == to {
        linked(s1, from)
    } else {
        s1
    }
}

/// `z` with its door list replaced and everything else kept.
pub open spec fn same_but_links(z: Zone, w: Zone) -> bool {
    &&& w.id == z.id
    &&& w.zone_type == z.zone_type
    &&& w.is_built == z.is_built
    &&& w.is_objective == z.is_objective
    &&& w.is_keycard == z.is_keycard
    &&& w.hazard_level == z.hazard_level
    &&& w.resources == z.resources
}

impl LevelGraph {
    /// Adds `other` to the door list of the zone at index `i` unless it is there.
    fn link_zone_at(&mut self, i: usize, other: ZoneId)
        requires
            i < old(self).zones@.len(),
        ensures
            final(self).zones@.len() == old(self).zones@.len(),
            forall|k: int|
                0 <= k < old(self).zones@.len() && k != i ==> final(self).zones@[k] == old(
                    self,
                ).zones@[k],
            same_but_links(old(self).zones@[i as int], final(self).zones@[i as int]),
            final(self).zones@[i as int].connections@ == linked(
                old(self).zones@[i as int].connections@,
                other,
            ),
            final(self).connections@ == old(self).connections@,
            final(self).config == old(self).config,
            final(self).spawn_zone == old(self).spawn_zone,
            final(self).objective_zones == old(self).objective_zones,
            final(self).keycard_zone == old(self).keycard_zone,
    {
        if !contains_zone(&self.zones[i].connections, other) {
            let mut z = self.zones.remove(i);
            z.connections.push(other);
            self.zones.insert(i, z);
        }
    }

    /// Adds a door between two zones and records each zone in the other's
    /// door list (once).
    pub fn add_connection(&mut self, from: ZoneId, to: ZoneId, door_type: DoorType)
        requires
            old(self).wf(),
        ensures
            final(self).wf(),
            final(self).connections@ == old(self).connections@.push(
                ZoneConnection {
                    from_zone: from,
                    to_zone: to,
                    door_type,
                    required_keycard: None,
                    is_critical_path: false,
                },
            ),
            final(self).zones@.len() == old(self).zones@.len(),
            forall|k: int|
                0 <= k < old(self).zones@.len() ==> same_but_links(
                    #[trigger] old(self).zones@[k],
                    final(self).zones@[k],
                ) && final(self).zones@[k].connections@ == links_after_connect(
                    old(self).zones@[k],
                    from,
                    to,
                ),
            forall|k: int|
                0 <= k < old(self).zones@.len() && old(self).zones@[k].id != from && old(
                    self,
                ).zones@[k].id != to ==> #[trigger] final(self).zones@[k] == old(self).zones@[k],
            final(self).spawn_zone == old(self).spawn_zone,
            final(self).config == old(self).config,
            final(self).objective_zones == old(self).objective_zones,
            final(self).keycard_zone == old(self).keycard_zone,
    {
        self.connections.push(
            ZoneConnection {
                from_zone: from,
                to_zone: to,
                door_type,
                required_keycard: None,
                is_critical_path: false,
            },
        );
        let ghost z0 = self.zones@;
        if let Some(i) = self.zone_position(from) {
            self.link_zone_at(i, to);
        }
        let ghost z1 = self.zones@;
        if let Some(j) = self.zone_position(to) {
            self.link_zone_at(j, from);
        }
        assert forall|k: int| 0 <= k < z0.len() implies same_but_links(
            #[trigger] z0[k],
            self.zones@[k],
        ) && self.zones@[k].connections@ == links_after_connect(z0[k], from, to) by {
            assert(z0[k].id == z1[k].id);
        }
        assert forall|a: int, b: int|
            0 <= a < self.zones@.len() && 0 <= b < self.zones@.len() && a != b implies self.zones@[a].id.0
            != self.zones@[b].id.0 by {
            assert(same_but_links(z0[a], self.zones@[a]));
            assert(same_but_links(z0[b], self.zones@[b]));
        }
    }
}

} // verus!
