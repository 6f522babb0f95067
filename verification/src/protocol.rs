use vstd::prelude::*;

verus! {

/// Marks an entity as a character (player or NPC) whose physics is replicated.
#[derive(Clone, Copy, Debug, PartialEq, Eq, Structural)]
pub struct CharacterMarker;

/// The seed of the game a server starts.
#[derive(Clone, Copy, Debug, PartialEq, Eq, Structural)]
pub struct GameSeed {
    pub seed: u64,
}

/// The seed every peer generates the procedural level from.
#[derive(Clone, Copy, Debug, PartialEq, Eq, Structural)]
pub struct LevelSeed {
    pub seed: u64,
}

/// The seed a server gives every new game and level.
pub fn new_game_seed() -> (s: u64)
    ensures
        s == 42,
{
    42
}

/// A client reports that it has built its world.
#[derive(Clone, Copy, Debug, PartialEq, Eq, Structural)]
pub struct ClientWorldCreatedEvent {
    pub client_id: u64,
}

/// A client asks the server to start the game.
#[derive(Clone, Copy, Debug, PartialEq, Eq, Structural)]
pub struct HostStartGameEvent {
    pub requested: bool,
}

/// The server tells clients to start loading the game.
#[derive(Clone, Copy, Debug, PartialEq, Eq, Structural)]
pub struct StartLoadingGameEvent {
    pub start: bool,
}

/// The reliable, ordered channel of lobby messages.
#[derive(Clone, Copy, Debug, PartialEq, Eq, Structural)]
pub struct LobbyControlChannel;

/// The phases of a server.
#[derive(Clone, Copy, Debug, PartialEq, Eq, Structural, Hash)]
pub enum ServerGameState {
    Lobby,
    Loading,
    Playing,
}

impl Default for ServerGameState {
    fn default() -> (s: Self)
        ensures
            s == ServerGameState::Lobby,
    {
        ServerGameState::Lobby
    }
}

/// Whether a server draws a window.
#[derive(Clone, Copy, Debug, PartialEq, Eq, Structural)]
pub enum ServerMode {
    Windowed,
    Headless,
}

/// The phases of a client.
#[derive(Clone, Copy, Debug, PartialEq, Eq, Structural, Hash)]
pub enum GameState {
    MainMenu,
    HostingLobby,
    JoiningGame,
    InLobby,
    Loading,
    Spawning,
    Playing,
    Connecting,
}

impl Default for GameState {
    fn default() -> (s: Self)
        ensures
            s == GameState::MainMenu,
    {
        GameState::MainMenu
    }
}

/// A start request moves a game from the lobby to loading; in any other phase
/// it is ignored.
pub fn state_after_start_request(current: GameState) -> (next: GameState)
    ensures
        next == if current == GameState::InLobby {
            GameState::Loading
        } else {
            current
        },
{
    if current == GameState::InLobby {
        GameState::Loading
    } else {
        current
    }
}

/// Tracks whether the server has built its static world.
#[derive(Clone, Copy, Debug, PartialEq, Eq, Structural)]
pub struct WorldCreationTracker {
    pub static_world_created: bool,
}

impl Default for WorldCreationTracker {
    fn default() -> (t: Self)
        ensures
            !t.static_world_created,
    {
        WorldCreationTracker { static_world_created: false }
    }
}

/// When a client reports its world built, the game moves on to playing once
/// the server's own world is built.
pub fn state_after_world_created(tracker: WorldCreationTracker) -> (next: Option<GameState>)
    ensures
        next == if tracker.static_world_created {
            Some(GameState::Playing)
        } else {
            None
        },
{
    if tracker.static_world_created {
        Some(GameState::Playing)
    } else {
        None
    }
}

/// How peers talk to each other.
#[derive(Clone, Copy, Debug, PartialEq, Eq, Structural)]
pub enum NetworkMode {
    /// UDP, across the network.
    Udp,
    /// An in-process channel.
    Crossbeam,
    /// Client and server in one app.
    Local,
}

impl Default for NetworkMode {
    fn default() -> (m: Self)
        ensures
            m == NetworkMode::Udp,
    {
        NetworkMode::Udp
    }
}

/// The gym (test arena) is on.
#[derive(Clone, Copy, Debug, PartialEq, Eq, Structural)]
pub struct GymMode(pub bool);

/// The server starts the game by itself once the lobby has players.
#[derive(Clone, Copy, Debug, PartialEq, Eq, Structural)]
pub struct AutoStartOnLobbyReady(pub bool);

/// The connection settings client and server share.
#[derive(Clone, Copy, Debug)]
pub struct SharedSettings {
    pub private_key: [u8; 32],
    pub protocol_id: u64,
}

/// The shared settings: protocol 42 and an all-zero key.
pub fn shared_settings() -> (s: SharedSettings)
    ensures
        s.protocol_id == 42,
        forall|i: int| 0 <= i < 32 ==> s.private_key[i] == 0,
{
    let s = SharedSettings { private_key: [0u8; 32], protocol_id: 42 };
    assert(s.private_key@ == Seq::new(32, |i: int| 0u8));
    s
}

/// Switches for debugging output.
#[derive(Clone, Copy, Debug)]
pub struct DebugControls {
    pub client_debug_gizmos: bool,
    pub gym_diagnostics_logs: bool,
    pub console_debug_prints: bool,
}

/// The debugging switches in force: all on.
pub fn debug_controls() -> (c: DebugControls)
    ensures
        c.client_debug_gizmos,
        c.gym_diagnostics_logs,
        c.console_debug_prints,
{
    DebugControls { client_debug_gizmos: true, gym_diagnostics_logs: true, console_debug_prints: true }
}

/// Whether clients draw debug gizmos.
pub fn client_debug_gizmos_enabled() -> (b: bool)
    ensures
        b == debug_controls_spec().0,
{
    debug_controls().client_debug_gizmos
}

/// Whether the gym logs its diagnostics.
pub fn gym_diagnostics_logs_enabled() -> (b: bool)
    ensures
        b == debug_controls_spec().1,
{
    debug_controls().gym_diagnostics_logs
}

/// Whether debug lines are printed to the console.
pub fn console_debug_prints_enabled() -> (b: bool)
    ensures
        b == debug_controls_spec().2,
{
    debug_controls().console_debug_prints
}

/// The debugging switches in force (gizmos, gym logs, console prints).
pub open spec fn debug_controls_spec() -> (bool, bool, bool) {
    (true, true, true)
}

/// The actions a player's input maps to.
#[derive(Clone, Copy, Debug, PartialEq, Eq, Structural, Hash)]
pub enum PlayerAction {
    Move,
    Look,
    Jump,
    Sprint,
    Shoot,
    Aim,
    ToggleFlashlight,
}

impl Default for PlayerAction {
    fn default() -> (a: Self)
        ensures
            a == PlayerAction::Move,
    {
        PlayerAction::Move
    }
}

/// Marks a dead NPC waiting to respawn.
#[derive(Clone, Copy, Debug, PartialEq, Eq, Structural)]
pub struct PendingNpcRespawn;

/// Marks the navigation mesh of a procedural level.
#[derive(Clone, Copy, Debug, PartialEq, Eq, Structural)]
pub struct ProceduralNavMeshMarker;

/// Marks a light placed at a door of a procedural level.
#[derive(Clone, Copy, Debug, PartialEq, Eq, Structural)]
pub struct ProceduralConnectionLightMarker;

/// Marks a terminal placed in a procedural level.
#[derive(Clone, Copy, Debug, PartialEq, Eq, Structural)]
pub struct ProceduralTerminalMarker;

} // verus!
