use vstd::prelude::*;

use crate::protocol::{HostStartGameEvent, ServerGameState};
use crate::search::contains_u64;

verus! {

/// The players gathered before a game starts, by client id, and the host who
/// may start it.
#[derive(Clone, Debug)]
pub struct LobbyState {
    pub players: Vec<u64>,
    pub host_id: Option<u64>,
}

/// What accepting a connecting client did.
#[derive(Clone, Copy, Debug, PartialEq, Eq, Structural)]
pub struct JoinOutcome {
    /// The client was not in the lobby and was added.
    pub added: bool,
    /// The client became the host.
    pub became_host: bool,
}

/// `s` without its element at position `i`.
pub open spec fn seq_remove_at(s: Seq<u64>, i: int) -> Seq<u64> {
    s.subrange(0, i) + s.subrange(i + 1, s.len() as int)
}

/// The players of `s` that are connected, in order.
pub open spec fn retained(s: Seq<u64>, connected: Seq<u64>) -> Seq<u64>
    decreases s.len(),
{
    if s.len() == 0 {
        s
    } else {
        let prev = retained(s.drop_last(), connected);
        if connected.contains(s.last()) {
            prev.push(s.last())
        } else {
            prev
        }
    }
}

/// The position of the first occurrence of `c` in `s` (meaningful when `s`
/// contains `c`).
pub open spec fn first_occurrence(s: Seq<u64>, c: u64) -> int {
    choose|i: int| 0 <= i < s.len() && s[i] == c && forall|k: int| 0 <= k < i ==> s[k] != c
}

/// The players and host after a client connects: see
/// [`LobbyState::accept_client`].
pub open spec fn after_accept(players: Seq<u64>, host: Option<u64>, c: u64) -> (Seq<u64>, Option<u64>) {
    if players.contains(c) {
        (players, host)
    } else {
        (players.push(c), if players.len() == 0 || host.is_none() {
            Some(c)
        } else {
            host
        })
    }
}

/// The players and host after a client disconnects: its first occurrence
/// leaves, and a host that leaves hands over to the first remaining player.
pub open spec fn after_remove(players: Seq<u64>, host: Option<u64>, c: u64) -> (Seq<u64>, Option<u64>) {
    if !players.contains(c) {
        (players, host)
    } else {
        let rest = seq_remove_at(players, first_occurrence(players, c));
        (rest, if host == Some(c) {
            first_player(rest)
        } else {
            host
        })
    }
}

/// The first player, if any.
pub open spec fn first_player(s: Seq<u64>) -> Option<u64> {
    if s.len() > 0 {
        Some(s[0])
    } else {
        None
    }
}

/// Removing position `i` from a sequence without duplicates removes exactly
/// the element there and keeps the rest free of duplicates.
proof fn lemma_remove_at(s: Seq<u64>, i: int)
    requires
        0 <= i < s.len(),
        s.no_duplicates(),
    ensures
        seq_remove_at(s, i).no_duplicates(),
        forall|x: u64| #[trigger] seq_remove_at(s, i).contains(x) <==> (s.contains(x) && x != s[i]),
        seq_remove_at(s, i).len() == s.len() - 1,
        seq_remove_at(s, i).len() > 0 ==> seq_remove_at(s, i)[0] == (if i == 0 { s[1] } else { s[0] }),
{
    let r = seq_remove_at(s, i);
    assert(r.len() == s.len() - 1);
    assert forall|k: int| 0 <= k < r.len() implies #[trigger] r[k] == (if k < i { s[k] } else { s[k + 1] }) by {}
    assert forall|x: u64| #[trigger] r.contains(x) <==> (s.contains(x) && x != s[i]) by {
        if r.contains(x) {
            let k = choose|k: int| 0 <= k < r.len() && r[k] == x;
            if k < i {
                assert(s[k] == x);
            } else {
                assert(s[k + 1] == x);
            }
        }
        if s.contains(x) && x != s[i] {
            let k = choose|k: int| 0 <= k < s.len() && s[k] == x;
            if k < i {
                assert(r[k] == x);
            } else {
                assert(k != i);
                assert(r[k - 1] == x);
            }
        }
    }
    assert forall|a: int, b: int| 0 <= a < b < r.len() implies r[a] != r[b] by {
        let sa = if a < i { a } else { a + 1 };
        let sb = if b < i { b } else { b + 1 };
        assert(r[a] == s[sa]);
        assert(r[b] == s[sb]);
    }
}

/// The first occurrence is the one position before which `c` does not occur.
proof fn lemma_first_occurrence(s: Seq<u64>, c: u64, i: int)
    requires
        0 <= i < s.len(),
        s[i] == c,
        forall|k: int| 0 <= k < i ==> s[k] != c,
    ensures
        first_occurrence(s, c) == i,
{
    let j = first_occurrence(s, c);
    assert(0 <= j < s.len() && s[j] == c && forall|k: int| 0 <= k < j ==> s[k] != c);
    if j < i {
        assert(s[j] != c);
    }
    if i < j {
        assert(s[i] != c);
    }
}

/// What the connected players keep: exactly those both listed and connected,
/// each once if they were once.
proof fn lemma_retained(s: Seq<u64>, connected: Seq<u64>)
    ensures
        forall|x: u64| #[trigger] retained(s, connected).contains(x) <==> (s.contains(x) && connected.contains(x)),
        s.no_duplicates() ==> retained(s, connected).no_duplicates(),
        retained(s, connected).len() <= s.len(),
    decreases s.len(),
{
    if s.len() > 0 {
        let init = s.drop_last();
        lemma_retained(init, connected);
        let prev = retained(init, connected);
        assert forall|x: u64| #[trigger] s.contains(x) <==> (init.contains(x) || x == s.last()) by {
            if s.contains(x) {
                let k = choose|k: int| 0 <= k < s.len() && s[k] == x;
                if k < s.len() - 1 {
                    assert(init[k] == x);
                }
            }
            if init.contains(x) {
                let k = choose|k: int| 0 <= k < init.len() && init[k] == x;
                assert(s[k] == x);
            }
        }
        if connected.contains(s.last()) {
            let r = prev.push(s.last());
            assert forall|x: u64| #[trigger] r.contains(x) <==> (prev.contains(x) || x == s.last()) by {
                if r.contains(x) {
                    let k = choose|k: int| 0 <= k < r.len() && r[k] == x;
                    if k < prev.len() {
                        assert(prev[k] == x);
                    }
                }
                if prev.contains(x) {
                    let k = choose|k: int| 0 <= k < prev.len() && prev[k] == x;
                    assert(r[k] == x);
                }
                if x == s.last() {
                    assert(r[prev.len() as int] == x);
                }
            }
            if s.no_duplicates() {
                assert(init.no_duplicates()) by {
                    assert forall|a: int, b: int| 0 <= a < b < init.len() implies init[a] != init[b] by {
                        assert(init[a] == s[a] && init[b] == s[b]);
                    }
                }
                assert(!init.contains(s.last())) by {
                    if init.contains(s.last()) {
                        let k = choose|k: int| 0 <= k < init.len() && init[k] == s.last();
                        assert(s[k] == s[s.len() - 1]);
                    }
                }
                assert forall|a: int, b: int| 0 <= a < b < r.len() implies r[a] != r[b] by {
                    if b == prev.len() {
                        assert(r[a] == prev[a]);
                        assert(prev.contains(prev[a]));
                    } else {
                        assert(r[a] == prev[a] && r[b] == prev[b]);
                    }
                }
            }
        } else {
            if s.no_duplicates() {
                assert(init.no_duplicates()) by {
                    assert forall|a: int, b: int| 0 <= a < b < init.len() implies init[a] != init[b] by {
                        assert(init[a] == s[a] && init[b] == s[b]);
                    }
                }
            }
        }
    }
}

impl LobbyState {
    /// Each player once; a host exactly when there are players, and the host is
    /// one of them.
    pub open spec fn wf(&self) -> bool {
        Self::view_wf(self.players@, self.host_id)
    }

    /// Well-formedness over the players and host as plain values.
    pub open spec fn view_wf(players: Seq<u64>, host: Option<u64>) -> bool {
        &&& players.no_duplicates()
        &&& (host.is_none() <==> players.len() == 0)
        &&& forall|h: u64| host == Some(h) ==> players.contains(h)
    }

    /// A lobby whose first player, `client`, is its host.
    pub fn with_host(client: u64) -> (l: Self)
        ensures
            l.wf(),
            l.players@ == seq![client],
            l.host_id == Some(client),
    {
        let mut players: Vec<u64> = Vec::new();
        players.push(client);
        let l = LobbyState { players, host_id: Some(client) };
        assert(l.players@[0] == client);
        l
    }

    /// Accepts a connecting client. A client already in the lobby changes
    /// nothing; a new one joins at the end and becomes host when it is the only
    /// player or the lobby has no host.
    pub fn accept_client(&mut self, client: u64) -> (outcome: JoinOutcome)
        ensures
            old(self).players@.contains(client) ==> (*final(self) == *old(self) && outcome
                == (JoinOutcome { added: false, became_host: false })),
            !old(self).players@.contains(client) ==> final(self).players@ == old(self).players@.push(
                client,
            ),
            !old(self).players@.contains(client) ==> outcome == (JoinOutcome {
                added: true,
                became_host: old(self).players@.len() == 0 || old(self).host_id.is_none(),
            }),
            !old(self).players@.contains(client) ==> final(self).host_id == (if outcome.became_host {
                Some(client)
            } else {
                old(self).host_id
            }),
            old(self).wf() ==> final(self).wf(),
            (final(self).players@, final(self).host_id) == after_accept(
                old(self).players@,
                old(self).host_id,
                client,
            ),
    {
        if contains_u64(&self.players, client) {
            return JoinOutcome { added: false, became_host: false };
        }
        let ghost p0 = self.players@;
        self.players.push(client);
        proof {
            assert forall|x: u64| #[trigger] self.players@.contains(x) <==> (p0.contains(x) || x == client) by {
                if self.players@.contains(x) {
                    let j = choose|j: int| 0 <= j < self.players@.len() && self.players@[j] == x;
                    if j < p0.len() {
                        assert(p0[j] == x);
                    }
                }
                if p0.contains(x) {
                    let j = choose|j: int| 0 <= j < p0.len() && p0[j] == x;
                    assert(self.players@[j] == x);
                }
                if x == client {
                    assert(self.players@[p0.len() as int] == x);
                }
            }
            if p0.no_duplicates() {
                assert forall|a: int, b: int| 0 <= a < b < self.players@.len() implies self.players@[a]
                    != self.players@[b] by {
                    assert(p0[a] == self.players@[a]);
                    if b == p0.len() {
                        assert(p0.contains(p0[a]));
                    } else {
                        assert(p0[b] == self.players@[b]);
                    }
                }
            }
        }
        let became = self.players.len() == 1 || self.host_id.is_none();
        if became {
            self.host_id = Some(client);
        }
        JoinOutcome { added: true, became_host: became }
    }

    /// Removes a disconnected client (its first occurrence). If it was the
    /// host, the first remaining player becomes host, or nobody.
    pub fn remove_player(&mut self, client: u64) -> (removed: bool)
        ensures
            removed == old(self).players@.contains(client),
            !removed ==> *final(self) == *old(self),
            removed ==> exists|i: int|
                0 <= i < old(self).players@.len() && old(self).players@[i] == client && (forall|k: int|
                    0 <= k < i ==> old(self).players@[k] != client) && #[trigger] seq_remove_at(
                    old(self).players@,
                    i,
                ) == final(self).players@,
            removed ==> final(self).host_id == (if old(self).host_id == Some(client) {
                first_player(final(self).players@)
            } else {
                old(self).host_id
            }),
            old(self).wf() ==> final(self).wf(),
            old(self).players@.no_duplicates() ==> !final(self).players@.contains(client),
            (final(self).players@, final(self).host_id) == after_remove(
                old(self).players@,
                old(self).host_id,
                client,
            ),
    {
        let mut i: usize = 0;
        while i < self.players.len()
            invariant
                *self == *old(self),
                i <= self.players@.len(),
                forall|k: int| 0 <= k < i ==> self.players@[k] != client,
            decreases self.players@.len() - i,
        {
            if self.players[i] == client {
                let ghost p0 = self.players@;
                proof {
                    lemma_first_occurrence(p0, client, i as int);
                }
                self.players.remove(i);
                assert(self.players@ =~= seq_remove_at(p0, i as int));
                proof {
                    if p0.no_duplicates() {
                        lemma_remove_at(p0, i as int);
                    }
                    if old(self).wf() && old(self).host_id != Some(client) {
                        let h = old(self).host_id.unwrap();
                        assert(p0.contains(h));
                        assert(self.players@.contains(h));
                    }
                }
                if self.host_id == Some(client) {
                    if self.players.len() > 0 {
                        self.host_id = Some(self.players[0]);
                    } else {
                        self.host_id = None;
                    }
                }
                return true;
            }
            i = i + 1;
        }
        false
    }

    /// Keeps only the players that are connected; a host that is no longer
    /// connected is replaced by the first remaining player, or nobody.
    /// Returns whether any player was dropped.
    pub fn retain_connected(&mut self, connected: &Vec<u64>) -> (changed: bool)
        ensures
            final(self).players@ == retained(old(self).players@, connected@),
            final(self).host_id == (match old(self).host_id {
                Some(h) => if connected@.contains(h) {
                    Some(h)
                } else {
                    first_player(final(self).players@)
                },
                None => None,
            }),
            forall|x: u64| #[trigger] final(self).players@.contains(x) <==> (old(self).players@.contains(x) && connected@.contains(x)),
            old(self).wf() ==> final(self).wf(),
            changed == (final(self).players@.len() != old(self).players@.len()),
    {
        let ghost p0 = self.players@;
        let previous_len = self.players.len();
        let mut kept: Vec<u64> = Vec::new();
        let mut i: usize = 0;
        while i < self.players.len()
            invariant
                self.players@ == p0,
                i <= p0.len(),
                kept@ == retained(p0.subrange(0, i as int), connected@),
            decreases p0.len() - i,
        {
            proof {
                let t = p0.subrange(0, i + 1);
                assert(t.drop_last() =~= p0.subrange(0, i as int));
                assert(t.last() == p0[i as int]);
            }
            if contains_u64(connected, self.players[i]) {
                kept.push(self.players[i]);
            }
            i = i + 1;
        }
        proof {
            assert(p0.subrange(0, p0.len() as int) =~= p0);
            lemma_retained(p0, connected@);
            if old(self).wf() && self.host_id.is_some() && connected@.contains(self.host_id.unwrap()) {
                assert(retained(p0, connected@).contains(self.host_id.unwrap()));
            }
        }
        self.players = kept;
        match self.host_id {
            Some(h) => {
                if !contains_u64(connected, h) {
                    self.host_id = if self.players.len() > 0 {
                        Some(self.players[0])
                    } else {
                        None
                    };
                }
            },
            None => {},
        }
        self.players.len() != previous_len
    }
}

/// A start request is honoured only when it asks to start and comes from the host.
pub fn is_authorized_host_start(request: &HostStartGameEvent, sender: u64, lobby: &LobbyState) -> (b: bool)
    ensures
        b == (request.requested && lobby.host_id == Some(sender)),
{
    request.requested && match lobby.host_id {
        Some(h) => h == sender,
        None => false,
    }
}

/// A client admitted while the game is loading or running is told to load at once.
pub fn sends_late_join_start(outcome: JoinOutcome, state: ServerGameState) -> (b: bool)
    ensures
        b == (outcome.added && (state == ServerGameState::Loading || state
            == ServerGameState::Playing)),
{
    outcome.added && (state == ServerGameState::Loading || state == ServerGameState::Playing)
}

/// With auto-start on, a lobby with players starts the game.
pub fn should_auto_start(enabled: bool, lobby: &LobbyState) -> (b: bool)
    ensures
        b == (enabled && lobby.players@.len() > 0),
{
    enabled && lobby.players.len() > 0
}

/// A player entity is removed when its owner is gone or its id is no longer
/// among the connected clients.
pub fn should_despawn_player(owner_connected: bool, player: u64, connected: &Vec<u64>) -> (b: bool)
    ensures
        b == (!owner_connected || !connected@.contains(player)),
{
    !owner_connected || !contains_u64(connected, player)
}

/// The spawn slot of a client that joins a running game: its position in the
/// lobby, when it is a lobby player without a player entity yet.
pub fn late_join_slot(lobby: &LobbyState, client: u64, existing: &Vec<u64>) -> (slot: Option<usize>)
    ensures
        (match slot {
            Some(i) => i < lobby.players@.len() && lobby.players@[i as int] == client && (forall|k: int|
                0 <= k < i ==> lobby.players@[k] != client) && !existing@.contains(client),
            None => !lobby.players@.contains(client) || existing@.contains(client),
        }),
{
    if contains_u64(existing, client) {
        return None;
    }
    let mut i: usize = 0;
    while i < lobby.players.len()
        invariant
            i <= lobby.players@.len(),
            !existing@.contains(client),
            forall|k: int| 0 <= k < i ==> lobby.players@[k] != client,
        decreases lobby.players@.len() - i,
    {
        if lobby.players[i] == client {
            return Some(i);
        }
        i = i + 1;
    }
    None
}

/// A client that joins a lobby and then leaves it leaves the lobby as it was:
/// the same players, and the same host.
pub proof fn law_join_then_leave_restores(players: Seq<u64>, host: Option<u64>, c: u64)
    requires
        LobbyState::view_wf(players, host),
        !players.contains(c),
    ensures
        ({
            let (p1, h1) = after_accept(players, host, c);
            after_remove(p1, h1, c) == (players, host)
        }),
{
    let p1 = players.push(c);
    assert(p1[players.len() as int] == c);
    assert(p1.contains(c));
    assert forall|k: int| 0 <= k < players.len() implies p1[k] != c by {
        assert(p1[k] == players[k]);
    }
    lemma_first_occurrence(p1, c, players.len() as int);
    assert(seq_remove_at(p1, players.len() as int) =~= players);
    if players.len() > 0 {
        let h = host.unwrap();
        assert(players.contains(h));
    }
}

/// Dropping the disconnected players twice drops nothing more.
pub proof fn law_retain_is_idempotent(s: Seq<u64>, connected: Seq<u64>)
    ensures
        retained(retained(s, connected), connected) == retained(s, connected),
    decreases s.len(),
{
    if s.len() > 0 {
        law_retain_is_idempotent(s.drop_last(), connected);
        let prev = retained(s.drop_last(), connected);
        if connected.contains(s.last()) {
            let r = prev.push(s.last());
            assert(r.drop_last() =~= prev);
            assert(r.last() == s.last());
        }
    }
}

/// The spawn slots of the first `n` lobby players that have a connected
/// client: each player's position in the lobby with its id, in lobby order.
pub open spec fn spawn_slots_upto(players: Seq<u64>, clients: Seq<u64>, n: nat) -> Seq<(usize, u64)>
    decreases n,
{
    if n == 0 {
        seq![]
    } else {
        let prev = spawn_slots_upto(players, clients, (n - 1) as nat);
        if clients.contains(players[n - 1]) {
            prev.push(((n - 1) as usize, players[n - 1]))
        } else {
            prev
        }
    }
}

/// The players that get an entity when the game starts, with the lobby
/// position that places them on the spawn circle: every lobby player with a
/// connected client.
pub fn player_spawn_slots(lobby: &LobbyState, clients: &Vec<u64>) -> (slots: Vec<(usize, u64)>)
    ensures
        slots@ == spawn_slots_upto(lobby.players@, clients@, lobby.players@.len()),
{
    let mut slots: Vec<(usize, u64)> = Vec::new();
    let mut i: usize = 0;
    while i < lobby.players.len()
        invariant
            i <= lobby.players@.len(),
            slots@ == spawn_slots_upto(lobby.players@, clients@, i as nat),
        decreases lobby.players@.len() - i,
    {
        if contains_u64(clients, lobby.players[i]) {
            slots.push((i, lobby.players[i]));
        }
        i = i + 1;
    }
    slots
}

/// A client joining a lobby that has a host never takes the host's place,
/// whatever the host's id (zero included).
pub proof fn law_joining_keeps_the_host(players: Seq<u64>, host: Option<u64>, c: u64)
    requires
        LobbyState::view_wf(players, host),
        host.is_some(),
    ensures
        after_accept(players, host, c).1 == host,
{
}

} // verus!
