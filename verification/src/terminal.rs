use vstd::prelude::*;

use crate::expedition::item_view;
use crate::level::{IndexedItem, IndexedItemKind, LevelGraph, TerminalNetwork, ZoneId};
use crate::text::{
    append_decimal, append_str, debug_quoted, debug_string, decimal, join, join_strings,
    lowercase, occurs_in, contains_str, parse_u32, parse_u32_spec, split_whitespace, str_equals,
    string_of, to_lowercase, to_uppercase, uppercase, views, words,
};

verus! {

/// State of the reactor objective.
#[derive(Clone, Copy, Debug, PartialEq, Eq, Structural, Hash)]
pub enum ReactorState {
    Off,
    Starting,
    Online,
    Stabilizing,
    Critical,
}

impl Default for ReactorState {
    fn default() -> (s: Self)
        ensures
            s == ReactorState::Off,
    {
        ReactorState::Off
    }
}

/// State of the uplink objective.
#[derive(Clone, Copy, Debug, PartialEq, Eq, Structural, Hash)]
pub enum UplinkState {
    Disconnected,
    Connecting,
    Uploading,
    Complete,
}

impl Default for UplinkState {
    fn default() -> (s: Self)
        ensures
            s == UplinkState::Disconnected,
    {
        UplinkState::Disconnected
    }
}

/// What a terminal is being used for.
#[derive(Clone, Copy, Debug, PartialEq, Eq, Structural)]
pub enum TerminalMode {
    Navigation,
    Reactor,
    Uplink,
    Extraction,
}

impl Default for TerminalMode {
    fn default() -> (m: Self)
        ensures
            m == TerminalMode::Navigation,
    {
        TerminalMode::Navigation
    }
}

/// The state of one terminal console. The sets of unlocked keycards,
/// downloaded files and completed objectives are lists without repeats;
/// the extraction countdown is held in microseconds (finer than the frame
/// clock's seconds in single precision around the countdown's 90 s).
#[derive(Clone, Debug)]
pub struct TerminalState {
    pub terminal_id: String,
    pub zone_id: ZoneId,
    pub mode: TerminalMode,
    pub active: bool,
    pub unlocked_keycards: Vec<String>,
    pub objective_progress: u32,
    pub reactor_state: ReactorState,
    pub uplink_state: UplinkState,
    pub has_extracted: bool,
    pub extract_timer: u32,
    pub downloaded_files: Vec<String>,
    pub completed_objectives: Vec<String>,
}

/// Everything a terminal's state holds, as plain values.
pub type StateView = (
    Seq<char>,
    ZoneId,
    TerminalMode,
    bool,
    Seq<Seq<char>>,
    u32,
    ReactorState,
    UplinkState,
    bool,
    u32,
    Seq<Seq<char>>,
    Seq<Seq<char>>,
);

impl TerminalState {
    /// The state's sets hold each string at most once.
    pub open spec fn wf(&self) -> bool {
        sets_without_repeats(self.view_all())
    }

    pub open spec fn view_all(&self) -> StateView {
        (
            self.terminal_id@,
            self.zone_id,
            self.mode,
            self.active,
            views(self.unlocked_keycards@),
            self.objective_progress,
            self.reactor_state,
            self.uplink_state,
            self.has_extracted,
            self.extract_timer,
            views(self.downloaded_files@),
            views(self.completed_objectives@),
        )
    }

    /// A fresh console: active, in navigation mode, nothing unlocked or started.
    pub fn new_default() -> (s: Self)
        ensures
            s.wf(),
            s.view_all() == (
                Seq::<char>::empty(),
                ZoneId(0),
                TerminalMode::Navigation,
                true,
                Seq::<Seq<char>>::empty(),
                0u32,
                ReactorState::Off,
                UplinkState::Disconnected,
                false,
                0u32,
                Seq::<Seq<char>>::empty(),
                Seq::<Seq<char>>::empty(),
            ),
    {
        let s = TerminalState {
            terminal_id: String::new(),
            zone_id: ZoneId(0),
            mode: TerminalMode::Navigation,
            active: true,
            unlocked_keycards: Vec::new(),
            objective_progress: 0,
            reactor_state: ReactorState::Off,
            uplink_state: UplinkState::Disconnected,
            has_extracted: false,
            extract_timer: 0,
            downloaded_files: Vec::new(),
            completed_objectives: Vec::new(),
        };
        assert(views(s.unlocked_keycards@) =~= Seq::<Seq<char>>::empty());
        assert(views(s.downloaded_files@) =~= Seq::<Seq<char>>::empty());
        assert(views(s.completed_objectives@) =~= Seq::<Seq<char>>::empty());
        s
    }

    /// A fresh console with the given id in the given zone.
    pub fn for_console(terminal_id: &str, zone_id: ZoneId) -> (s: Self)
        ensures
            s.wf(),
            s.view_all() == (
                terminal_id@,
                zone_id,
                TerminalMode::Navigation,
                true,
                Seq::<Seq<char>>::empty(),
                0u32,
                ReactorState::Off,
                UplinkState::Disconnected,
                false,
                0u32,
                Seq::<Seq<char>>::empty(),
                Seq::<Seq<char>>::empty(),
            ),
    {
        let mut s = TerminalState::new_default();
        s.terminal_id = string_of(terminal_id);
        s.zone_id = zone_id;
        s
    }
}

impl TerminalState {
    /// Whether the state's sets hold each string at most once, as
    /// [`execute_terminal_command`] needs.
    pub fn is_well_formed(&self) -> (b: bool)
        ensures
            b == self.wf(),
    {
        no_repeats(&self.unlocked_keycards) && no_repeats(&self.downloaded_files) && no_repeats(
            &self.completed_objectives,
        )
    }

    /// The extraction countdown after `micros` more microseconds: it runs down
    /// to zero and stays there; nothing else changes.
    pub fn count_down_extraction(&mut self, micros: u32)
        ensures
            final(self).extract_timer == if old(self).extract_timer > micros {
                (old(self).extract_timer - micros) as u32
            } else {
                0u32
            },
            final(self).view_all() == {
                let v = old(self).view_all();
                (v.0, v.1, v.2, v.3, v.4, v.5, v.6, v.7, v.8, final(self).extract_timer, v.10, v.11)
            },
    {
        if self.extract_timer > micros {
            self.extract_timer = self.extract_timer - micros;
        } else {
            self.extract_timer = 0;
        }
    }
}

/// Whether no string occurs twice in the list.
fn no_repeats(v: &Vec<String>) -> (b: bool)
    ensures
        b == views(v@).no_duplicates(),
{
    let ghost w = views(v@);
    let mut i: usize = 0;
    while i < v.len()
        invariant
            i <= v@.len(),
            w == views(v@),
            forall|a: int, b: int| 0 <= a < b < v@.len() && a < i ==> w[a] != w[b],
        decreases v@.len() - i,
    {
        let mut j: usize = i + 1;
        while j < v.len()
            invariant
                i < j <= v@.len(),
                w == views(v@),
                forall|a: int, b: int| 0 <= a < b < v@.len() && a < i ==> w[a] != w[b],
                forall|b: int| i < b < j ==> w[i as int] != w[b],
            decreases v@.len() - j,
        {
            if str_equals(v[i].as_str(), v[j].as_str()) {
                assert(w[i as int] == w[j as int]);
                return false;
            }
            j = j + 1;
        }
        i = i + 1;
    }
    assert forall|a: int, b: int| 0 <= a < w.len() && 0 <= b < w.len() && a != b implies w[a] != w[b] by {
        if a > b {
            assert(w[b] != w[a]);
        }
    }
    true
}

impl Default for TerminalState {
    /// A fresh console: see [`TerminalState::new_default`].
    fn default() -> (s: Self)
        ensures
            s.wf(),
            s.view_all() == (
                Seq::<char>::empty(),
                ZoneId(0),
                TerminalMode::Navigation,
                true,
                Seq::<Seq<char>>::empty(),
                0u32,
                ReactorState::Off,
                UplinkState::Disconnected,
                false,
                0u32,
                Seq::<Seq<char>>::empty(),
                Seq::<Seq<char>>::empty(),
            ),
    {
        TerminalState::new_default()
    }
}

/// A terminal console placed in a zone.
#[derive(Clone, Debug)]
pub struct TerminalConsole {
    pub terminal_id: String,
    pub zone_id: ZoneId,
    pub description: String,
}

impl TerminalConsole {
    /// A console with the given id, zone and description.
    pub fn new(terminal_id: &str, zone_id: ZoneId, description: &str) -> (c: Self)
        ensures
            c.terminal_id@ == terminal_id@,
            c.zone_id == zone_id,
            c.description@ == description@,
    {
        TerminalConsole {
            terminal_id: string_of(terminal_id),
            zone_id,
            description: string_of(description),
        }
    }
}

/// Why an interaction with a terminal is refused.
#[derive(Clone, Copy, Debug, PartialEq, Eq, Structural, Hash)]
pub enum TerminalInteractionError {
    SessionNotPlayable,
    InvalidPosition,
    OutOfRange,
    LineOfSightBlocked,
    Cooldown,
    DuplicateRequest,
    TerminalInactive,
}

/// The checks an interaction must pass, in order: a playable session, finite
/// positions, the player within range, a clear line of sight, the cooldown over.
pub fn validate_terminal_interaction(
    session_is_playable: bool,
    positions_are_finite: bool,
    within_range: bool,
    cooldown_ready: bool,
    line_of_sight_clear: bool,
) -> (r: Result<(), TerminalInteractionError>)
    ensures
        r == (if !session_is_playable {
            Err(TerminalInteractionError::SessionNotPlayable)
        } else if !positions_are_finite {
            Err(TerminalInteractionError::InvalidPosition)
        } else if !within_range {
            Err(TerminalInteractionError::OutOfRange)
        } else if !line_of_sight_clear {
            Err(TerminalInteractionError::LineOfSightBlocked)
        } else if !cooldown_ready {
            Err(TerminalInteractionError::Cooldown)
        } else {
            Ok(())
        }),
{
    if !session_is_playable {
        return Err(TerminalInteractionError::SessionNotPlayable);
    }
    if !positions_are_finite {
        return Err(TerminalInteractionError::InvalidPosition);
    }
    if !within_range {
        return Err(TerminalInteractionError::OutOfRange);
    }
    if !line_of_sight_clear {
        return Err(TerminalInteractionError::LineOfSightBlocked);
    }
    if !cooldown_ready {
        return Err(TerminalInteractionError::Cooldown);
    }
    Ok(())
}

/// A command typed at a terminal: the command word in upper case and its arguments.
#[derive(Clone, Debug)]
pub struct TerminalCommand {
    pub command: String,
    pub args: Vec<String>,
}

/// The command word a line parses to.
pub open spec fn command_word(line: Seq<char>) -> Seq<char> {
    let parts = words(line);
    if parts.len() == 0 {
        seq![]
    } else {
        uppercase(parts[0])
    }
}

/// The arguments a line parses to.
pub open spec fn command_args(line: Seq<char>) -> Seq<Seq<char>> {
    let parts = words(line);
    if parts.len() == 0 {
        seq![]
    } else {
        parts.drop_first()
    }
}

/// The text a command stands for: the command word, then the arguments,
/// separated by single spaces.
pub open spec fn full_command_spec(command: Seq<char>, args: Seq<Seq<char>>) -> Seq<char> {
    if args.len() == 0 {
        command
    } else {
        command + " "@ + join(args, " "@)
    }
}

impl TerminalCommand {
    /// Parses a typed line: words split at white space, the first one in upper
    /// case as the command, the rest as arguments.
    pub fn new(cmd: &str) -> (c: Self)
        ensures
            c.command@ == command_word(cmd@),
            views(c.args@) == command_args(cmd@),
    {
        let mut parts = split_whitespace(cmd);
        if parts.len() == 0 {
            return TerminalCommand { command: String::new(), args: Vec::new() };
        }
        let ghost p0 = views(parts@);
        let first = parts.remove(0);
        let command = to_uppercase(first.as_str());
        proof {
            assert(views(parts@) =~= p0.drop_first());
        }
        TerminalCommand { command, args: parts }
    }

    /// The command as text.
    pub fn full_command(&self) -> (s: String)
        ensures
            s@ == full_command_spec(self.command@, views(self.args@)),
    {
        if self.args.len() == 0 {
            return string_of(self.command.as_str());
        }
        let mut s = string_of(self.command.as_str());
        append_str(&mut s, " ");
        let rest = join_strings(&self.args, " ");
        append_str(&mut s, rest.as_str());
        s
    }
}

/// Parses a line typed at a terminal.
pub fn parse_terminal_input(input: &str) -> (c: TerminalCommand)
    ensures
        c.command@ == command_word(input@),
        views(c.args@) == command_args(input@),
{
    TerminalCommand::new(input)
}

/// A command sent to a terminal by a client.
#[derive(Clone, Debug)]
pub struct TerminalInteractionRequest {
    pub terminal_id: String,
    pub command: TerminalCommand,
}

/// What identifies a request when repeats are filtered.
#[derive(Clone, Debug)]
pub struct TerminalRequestKey {
    pub terminal_id: String,
    pub command: String,
}

impl TerminalRequestKey {
    /// The key of a request: its terminal and its command text.
    pub fn from_request(request: &TerminalInteractionRequest) -> (k: Self)
        ensures
            k.terminal_id@ == request.terminal_id@,
            k.command@ == full_command_spec(request.command.command@, views(request.command.args@)),
    {
        TerminalRequestKey {
            terminal_id: string_of(request.terminal_id.as_str()),
            command: request.command.full_command(),
        }
    }

    /// The key as text: terminal id, `::`, command.
    pub fn as_string(&self) -> (s: String)
        ensures
            s@ == self.terminal_id@ + "::"@ + self.command@,
    {
        let mut s = string_of(self.terminal_id.as_str());
        append_str(&mut s, "::");
        append_str(&mut s, self.command.as_str());
        s
    }
}

/// Is `key` the key of `request`?
pub fn request_key_matches(key: &str, request: &TerminalInteractionRequest) -> (b: bool)
    ensures
        b == (key@ == request.terminal_id@ + "::"@ + full_command_spec(
            request.command.command@,
            views(request.command.args@),
        )),
{
    let k = TerminalRequestKey::from_request(request).as_string();
    str_equals(key, k.as_str())
}

/// The answer of a terminal to a command.
#[derive(Clone, Debug)]
pub struct TerminalResponse {
    pub success: bool,
    pub output: String,
    pub triggers_reactor: bool,
    pub triggers_uplink: bool,
    pub triggers_extraction: bool,
    pub error: Option<String>,
}

/// A response as plain values.
pub type ResponseView = (bool, Seq<char>, bool, bool, bool, Option<Seq<char>>);

impl TerminalResponse {
    pub open spec fn view_all(&self) -> ResponseView {
        (
            self.success,
            self.output@,
            self.triggers_reactor,
            self.triggers_uplink,
            self.triggers_extraction,
            match self.error {
                Some(e) => Some(e@),
                None => None,
            },
        )
    }

    /// A success with the given output and no triggers.
    pub fn ok(output: &str) -> (r: Self)
        ensures
            r.view_all() == ok_view(output@),
    {
        TerminalResponse {
            success: true,
            output: string_of(output),
            triggers_reactor: false,
            triggers_uplink: false,
            triggers_extraction: false,
            error: None,
        }
    }

    /// A failure with the given message and no output.
    pub fn fail(msg: &str) -> (r: Self)
        ensures
            r.view_all() == fail_view(msg@),
    {
        TerminalResponse {
            success: false,
            output: String::new(),
            triggers_reactor: false,
            triggers_uplink: false,
            triggers_extraction: false,
            error: Some(string_of(msg)),
        }
    }
}

/// A success with the given output.
pub open spec fn ok_view(output: Seq<char>) -> ResponseView {
    (true, output, false, false, false, None)
}

/// A failure with the given message.
pub open spec fn fail_view(msg: Seq<char>) -> ResponseView {
    (false, Seq::empty(), false, false, false, Some(msg))
}

/// The terminal network, as a resource of the running game.
#[derive(Clone, Debug)]
pub struct TerminalNetworkResource {
    pub network: TerminalNetwork,
}

impl TerminalNetworkResource {
    /// The network of a generated level.
    pub fn from_graph(graph: &LevelGraph) -> (r: Self)
        ensures
            r.network.items@.map_values(|it: IndexedItem| item_view(it)) == graph.terminal_network.items@.map_values(
                |it: IndexedItem| item_view(it),
            ),
    {
        TerminalNetworkResource { network: copy_network(&graph.terminal_network) }
    }
}

/// A copy of an entry.
pub fn copy_item(it: &IndexedItem) -> (r: IndexedItem)
    ensures
        item_view(r) == item_view(*it),
{
    IndexedItem {
        id: string_of(it.id.as_str()),
        kind: it.kind,
        zone: it.zone,
        label: string_of(it.label.as_str()),
    }
}

/// A copy of a network.
pub fn copy_network(n: &TerminalNetwork) -> (r: TerminalNetwork)
    ensures
        r.items@.map_values(|it: IndexedItem| item_view(it)) == n.items@.map_values(
            |it: IndexedItem| item_view(it),
        ),
{
    let mut items: Vec<IndexedItem> = Vec::new();
    let mut i: usize = 0;
    while i < n.items.len()
        invariant
            i <= n.items@.len(),
            items@.len() == i,
            forall|k: int| 0 <= k < i ==> item_view(#[trigger] items@[k]) == item_view(n.items@[k]),
        decreases n.items@.len() - i,
    {
        items.push(copy_item(&n.items[i]));
        i = i + 1;
    }
    proof {
        assert(items@.map_values(|it: IndexedItem| item_view(it)) =~= n.items@.map_values(
            |it: IndexedItem| item_view(it),
        ));
    }
    TerminalNetwork { items }
}

/// An entry of the terminal network as plain values.
pub type ItemView = (Seq<char>, IndexedItemKind, ZoneId, Seq<char>);

/// The name a kind of entry is listed under.
pub open spec fn kind_name(k: IndexedItemKind) -> Seq<char> {
    match k {
        IndexedItemKind::Keycard => "Keycard"@,
        IndexedItemKind::Objective => "Objective"@,
        IndexedItemKind::Ammo => "Ammo"@,
        IndexedItemKind::Medical => "Medical"@,
        IndexedItemKind::Tool => "Tool"@,
    }
}

impl IndexedItemKind {
    /// The name this kind is listed under.
    pub fn name(&self) -> (s: &'static str)
        ensures
            s@ == kind_name(*self),
    {
        match self {
            IndexedItemKind::Keycard => "Keycard",
            IndexedItemKind::Objective => "Objective",
            IndexedItemKind::Ammo => "Ammo",
            IndexedItemKind::Medical => "Medical",
            IndexedItemKind::Tool => "Tool",
        }
    }
}

/// How `LIST` and `QUERY` show an entry: `ID [Kind] - ZONE n`.
pub open spec fn item_line(it: ItemView) -> Seq<char> {
    it.0 + " ["@ + kind_name(it.1) + "] - ZONE "@ + decimal(it.2.0 as nat)
}

/// The search term occurs in the entry's lower-cased id, kind or label.
pub open spec fn lowered_match(id: Seq<char>, kind: Seq<char>, label: Seq<char>, term: Seq<char>) -> bool {
    occurs_in(id, term) || occurs_in(kind, term) || occurs_in(label, term)
}

/// An entry matches a (lower-case) search term in its id, kind or label, case
/// folded.
pub open spec fn item_matches(it: ItemView, term: Seq<char>) -> bool {
    lowered_match(lowercase(it.0), lowercase(kind_name(it.1)), lowercase(it.3), term)
}

/// A QUERY term is looked for in all three of an entry's texts: it matches
/// exactly when it occurs in the lower-cased id, in the lower-cased kind or in
/// the lower-cased label.
pub proof fn law_query_searches_id_kind_and_label(id: Seq<char>, kind: Seq<char>, label: Seq<char>, term: Seq<char>)
    ensures
        occurs_in(label, term) ==> lowered_match(id, kind, label, term),
        occurs_in(id, term) ==> lowered_match(id, kind, label, term),
        occurs_in(kind, term) ==> lowered_match(id, kind, label, term),
        lowered_match(id, kind, label, term) ==> occurs_in(id, term) || occurs_in(kind, term) || occurs_in(
            label,
            term,
        ),
{
}

/// `line` is the line of one of the first `n` entries that matches `term`.
pub open spec fn line_of_a_match(items: Seq<ItemView>, term: Seq<char>, n: nat, line: Seq<char>) -> bool {
    exists|i: int| 0 <= i < n && #[trigger] item_matches(items[i], term) && item_line(items[i]) == line
}

/// QUERY lists every indexed entry that matches its term, and only such
/// entries: each matching entry's line is among the lines, and each line is
/// the line of a matching entry.
pub proof fn law_query_lists_the_matching_entries(items: Seq<ItemView>, term: Seq<char>, n: nat)
    requires
        n <= items.len(),
    ensures
        forall|i: int|
            0 <= i < n && #[trigger] item_matches(items[i], term) ==> query_lines_upto(items, term, n).contains(
                item_line(items[i]),
            ),
        forall|k: int|
            0 <= k < query_lines_upto(items, term, n).len() ==> line_of_a_match(
                items,
                term,
                n,
                #[trigger] query_lines_upto(items, term, n)[k],
            ),
    decreases n,
{
    if n > 0 {
        law_query_lists_the_matching_entries(items, term, (n - 1) as nat);
        let prev = query_lines_upto(items, term, (n - 1) as nat);
        let cur = query_lines_upto(items, term, n);
        assert forall|i: int| 0 <= i < n && #[trigger] item_matches(items[i], term) implies cur.contains(
            item_line(items[i]),
        ) by {
            if i < n - 1 {
                let k = choose|k: int| 0 <= k < prev.len() && prev[k] == item_line(items[i]);
                assert(cur[k] == prev[k]);
            } else {
                assert(cur[prev.len() as int] == item_line(items[i]));
            }
        }
        assert forall|k: int| 0 <= k < cur.len() implies line_of_a_match(items, term, n, #[trigger] cur[k]) by {
            if k < prev.len() {
                assert(cur[k] == prev[k]);
                assert(line_of_a_match(items, term, (n - 1) as nat, prev[k]));
                let i = choose|i: int|
                    0 <= i < n - 1 && #[trigger] item_matches(items[i], term) && item_line(items[i]) == prev[k];
                assert(0 <= i < n && item_matches(items[i], term) && item_line(items[i]) == cur[k]);
            } else {
                assert(item_matches(items[n - 1], term));
                assert(item_line(items[n - 1]) == cur[k]);
            }
        }
    }
}

/// The answer to QUERY with the lower-cased search term `term`, given the
/// lines of the matching entries.
pub open spec fn query_response_spec(term: Seq<char>, lines: Seq<Seq<char>>) -> ResponseView {
    if lines.len() == 0 {
        ok_view("No items match '"@ + term + "'"@)
    } else {
        ok_view("Found "@ + decimal(lines.len()) + " item(s):\n"@ + join(lines, "\n"@))
    }
}

/// The lines of the entries among the first `n` that match `term`.
pub open spec fn query_lines_upto(items: Seq<ItemView>, term: Seq<char>, n: nat) -> Seq<Seq<char>>
    decreases n,
{
    if n == 0 {
        seq![]
    } else {
        let prev = query_lines_upto(items, term, (n - 1) as nat);
        if item_matches(items[n - 1], term) {
            prev.push(item_line(items[n - 1]))
        } else {
            prev
        }
    }
}

/// `s` with `x` added unless it is there.
pub open spec fn set_insert(s: Seq<Seq<char>>, x: Seq<char>) -> Seq<Seq<char>> {
    if s.contains(x) {
        s
    } else {
        s.push(x)
    }
}

/// What UNLOCK does once its argument `arg` has been upper-cased to `id`: an
/// unknown keycard fails (naming the argument as typed); a known one is
/// recorded as unlocked.
pub open spec fn unlock_spec(id: Seq<char>, arg: Seq<char>, s: StateView, items: Seq<ItemView>) -> (
    ResponseView,
    StateView,
) {
    if !(exists|i: int| 0 <= i < items.len() && #[trigger] items[i].0 == id && items[i].1 == IndexedItemKind::Keycard) {
        (fail_view("Unknown keycard: "@ + arg), s)
    } else {
        (
            ok_view("Security doors unlocked: "@ + id),
            (s.0, s.1, s.2, s.3, set_insert(s.4, id), s.5, s.6, s.7, s.8, s.9, s.10, s.11),
        )
    }
}

/// What DOWNLOAD does once its argument has been upper-cased to `id`: a file
/// downloaded before or not in the index fails; otherwise it is recorded.
pub open spec fn download_spec(id: Seq<char>, s: StateView, items: Seq<ItemView>) -> (ResponseView, StateView) {
    if s.10.contains(id) {
        (fail_view("File already downloaded"@), s)
    } else if !(exists|i: int| 0 <= i < items.len() && #[trigger] items[i].0 == id) {
        (fail_view("Unknown file: "@ + id), s)
    } else {
        (
            ok_view("Downloaded: "@ + id),
            (s.0, s.1, s.2, s.3, s.4, s.5, s.6, s.7, s.8, s.9, s.10.push(id), s.11),
        )
    }
}

/// The three sets of a terminal's state (unlocked keycards, downloaded files,
/// completed objectives) hold each string at most once.
pub open spec fn sets_without_repeats(s: StateView) -> bool {
    &&& s.4.no_duplicates()
    &&& s.10.no_duplicates()
    &&& s.11.no_duplicates()
}

/// Adding a string to a list without repeats keeps it without repeats.
proof fn lemma_set_insert_no_duplicates(s: Seq<Seq<char>>, x: Seq<char>)
    requires
        s.no_duplicates(),
    ensures
        set_insert(s, x).no_duplicates(),
{
    if !s.contains(x) {
        let t = s.push(x);
        assert forall|i: int, j: int| 0 <= i < t.len() && 0 <= j < t.len() && i != j implies t[i] != t[j] by {
            if i == s.len() as int {
                assert(t[j] == s[j]);
            } else if j == s.len() as int {
                assert(t[i] == s[i]);
            } else {
                assert(t[i] == s[i] && t[j] == s[j]);
            }
        }
    }
}

/// Commands keep the sets of a terminal's state without repeats.
pub proof fn law_commands_keep_sets_without_repeats(
    cmd: Seq<char>,
    args: Seq<Seq<char>>,
    s: StateView,
    items: Seq<ItemView>,
)
    requires
        sets_without_repeats(s),
    ensures
        sets_without_repeats(execute_spec(cmd, args, s, items).1),
{
    if args.len() > 0 {
        lemma_set_insert_no_duplicates(s.4, uppercase(args[0]));
        lemma_set_insert_no_duplicates(s.10, uppercase(args[0]));
    }
    lemma_set_insert_no_duplicates(s.11, "uplink"@);
}

/// How `{:?}` prints a set of strings (in this order).
pub open spec fn debug_set(s: Seq<Seq<char>>) -> Seq<char> {
    "{"@ + join(s.map_values(|x: Seq<char>| debug_quoted(x)), ", "@) + "}"@
}

pub open spec fn mode_name(m: TerminalMode) -> Seq<char> {
    match m {
        TerminalMode::Navigation => "Navigation"@,
        TerminalMode::Reactor => "Reactor"@,
        TerminalMode::Uplink => "Uplink"@,
        TerminalMode::Extraction => "Extraction"@,
    }
}

pub open spec fn reactor_name(r: ReactorState) -> Seq<char> {
    match r {
        ReactorState::Off => "Off"@,
        ReactorState::Starting => "Starting"@,
        ReactorState::Online => "Online"@,
        ReactorState::Stabilizing => "Stabilizing"@,
        ReactorState::Critical => "Critical"@,
    }
}

pub open spec fn uplink_name(u: UplinkState) -> Seq<char> {
    match u {
        UplinkState::Disconnected => "Disconnected"@,
        UplinkState::Connecting => "Connecting"@,
        UplinkState::Uploading => "Uploading"@,
        UplinkState::Complete => "Complete"@,
    }
}

/// The text `STATUS` answers with.
pub open spec fn status_text(s: StateView) -> Seq<char> {
    "Terminal "@ + s.0 + " | Zone: ZoneId("@ + decimal(s.1.0 as nat) + ") | Mode: "@ + mode_name(s.2)
        + " | Reactor: "@ + reactor_name(s.6) + " | Uplink: "@ + uplink_name(s.7) + "\nUnlocked: "@
        + debug_set(s.4) + " | Downloaded: "@ + decimal(s.10.len()) + " file(s)\nExtract: "@ + (if s.8 {
        "ACTIVE"@
    } else {
        "READY"@
    })
}

/// What a command does: the response, and the terminal's state after it.
pub open spec fn execute_spec(
    cmd: Seq<char>,
    args: Seq<Seq<char>>,
    s: StateView,
    items: Seq<ItemView>,
) -> (ResponseView, StateView) {
    if cmd.len() == 0 {
        (ok_view("READY."@), s)
    } else if cmd == "LIST"@ {
        let lines = items.map_values(|it: ItemView| item_line(it));
        (ok_view(decimal(items.len()) + " items indexed.\n"@ + join(lines, "\n"@)), s)
    } else if cmd == "QUERY"@ {
        if args.len() == 0 {
            (ok_view("Usage: QUERY <SEARCH_TERM>"@), s)
        } else {
            let term = lowercase(args[0]);
            (query_response_spec(term, query_lines_upto(items, term, items.len())), s)
        }
    } else if cmd == "PING"@ {
        if args.len() == 0 {
            (ok_view("Usage: PING <ZONE_ID>"@), s)
        } else {
            match parse_u32_spec(args[0]) {
                Some(z) => if exists|i: int| 0 <= i < items.len() && #[trigger] items[i].2 == ZoneId(z) {
                    (ok_view("Pinging Zone "@ + decimal(z as nat) + " - items detected"@), s)
                } else {
                    (ok_view("Pinging Zone "@ + decimal(z as nat) + " - clear"@), s)
                },
                None => (fail_view("Invalid zone ID: "@ + args[0]), s),
            }
        }
    } else if cmd == "UNLOCK"@ {
        if args.len() == 0 {
            (ok_view("Usage: UNLOCK <KEYCARD_ID>"@), s)
        } else {
            unlock_spec(uppercase(args[0]), args[0], s, items)
        }
    } else if cmd == "DOWNLOAD"@ {
        if args.len() == 0 {
            (ok_view("Usage: DOWNLOAD <FILE_ID>"@), s)
        } else {
            download_spec(uppercase(args[0]), s, items)
        }
    } else if cmd == "REACTOR_START"@ {
        if s.6 != ReactorState::Off {
            (fail_view("Reactor already started"@), s)
        } else {
            (
                (true, "REACTOR: Initiating startup sequence..."@, true, false, false, None),
                (s.0, s.1, TerminalMode::Reactor, s.3, s.4, s.5, ReactorState::Starting, s.7, s.8, s.9, s.10, s.11),
            )
        }
    } else if cmd == "REACTOR_STABILIZE"@ {
        if s.6 != ReactorState::Starting {
            (fail_view("Reactor not in startup sequence"@), s)
        } else {
            (
                ok_view("REACTOR: Online. Output nominal."@),
                (s.0, s.1, s.2, s.3, s.4, s.5, ReactorState::Online, s.7, s.8, s.9, s.10, s.11),
            )
        }
    } else if cmd == "REACTOR_CONTAIN"@ {
        if s.6 != ReactorState::Critical {
            (fail_view("Reactor not in critical state"@), s)
        } else {
            (
                ok_view("REACTOR: Containment initiated. Standing by..."@),
                (s.0, s.1, s.2, s.3, s.4, s.5, ReactorState::Stabilizing, s.7, s.8, s.9, s.10, s.11),
            )
        }
    } else if cmd == "UPLINK_CONNECT"@ {
        if s.7 != UplinkState::Disconnected {
            (fail_view("Uplink already initiated"@), s)
        } else {
            (
                (true, "UPLINK: Establishing connection..."@, false, true, false, None),
                (s.0, s.1, TerminalMode::Uplink, s.3, s.4, s.5, s.6, UplinkState::Connecting, s.8, s.9, s.10, s.11),
            )
        }
    } else if cmd == "UPLINK_UPLOAD"@ {
        if s.7 != UplinkState::Connecting {
            (fail_view("Uplink not connected"@), s)
        } else {
            (
                ok_view("UPLINK: Uploading data..."@),
                (s.0, s.1, s.2, s.3, s.4, s.5, s.6, UplinkState::Uploading, s.8, s.9, s.10, s.11),
            )
        }
    } else if cmd == "UPLINK_COMPLETE"@ {
        if s.7 != UplinkState::Uploading {
            (fail_view("Uplink not uploading"@), s)
        } else {
            (
                ok_view("UPLINK: Transfer complete. Objective secured."@),
                (s.0, s.1, s.2, s.3, s.4, s.5, s.6, UplinkState::Complete, s.8, s.9, s.10, set_insert(s.11, "uplink"@)),
            )
        }
    } else if cmd == "EXTRACT"@ {
        if s.8 {
            (fail_view("Extraction already called"@), s)
        } else {
            (
                (true, "EXTRACTION: Sequence initiated. Defend for 90 seconds."@, false, false, true, None),
                (s.0, s.1, TerminalMode::Extraction, s.3, s.4, s.5, s.6, s.7, true, 90_000_000u32, s.10, s.11),
            )
        }
    } else if cmd == "STATUS"@ {
        (ok_view(status_text(s)), s)
    } else {
        (fail_view("Unknown command: "@ + cmd + ". Type LIST for available commands."@), s)
    }
}

/// The entries of a network as plain values.
pub open spec fn items_view(items: Seq<IndexedItem>) -> Seq<ItemView> {
    items.map_values(|it: IndexedItem| item_view(it))
}

/// The line `LIST` and `QUERY` show for an entry.
fn item_line_string(it: &IndexedItem) -> (s: String)
    ensures
        s@ == item_line(item_view(*it)),
{
    let mut s = string_of(it.id.as_str());
    append_str(&mut s, " [");
    append_str(&mut s, it.kind.name());
    append_str(&mut s, "] - ZONE ");
    append_decimal(&mut s, it.zone.0 as u64);
    s
}

/// `n` followed by `rest`.
fn number_then(n: usize, rest: &str) -> (s: String)
    ensures
        s@ == decimal(n as nat) + rest@,
{
    let mut s = String::new();
    append_decimal(&mut s, n as u64);
    append_str(&mut s, rest);
    proof {
        assert(Seq::<char>::empty() + decimal(n as nat) =~= decimal(n as nat));
    }
    s
}

/// The answer to `LIST`: the number of entries, then one line per entry.
fn list_output(items: &Vec<IndexedItem>) -> (s: String)
    ensures
        s@ == decimal(items@.len()) + " items indexed.\n"@ + join(
            items_view(items@).map_values(|it: ItemView| item_line(it)),
            "\n"@,
        ),
{
    let mut lines: Vec<String> = Vec::new();
    let mut i: usize = 0;
    while i < items.len()
        invariant
            i <= items@.len(),
            lines@.len() == i,
            forall|k: int| 0 <= k < i ==> (#[trigger] lines@[k])@ == item_line(item_view(items@[k])),
        decreases items@.len() - i,
    {
        lines.push(item_line_string(&items[i]));
        i = i + 1;
    }
    assert(views(lines@) =~= items_view(items@).map_values(|it: ItemView| item_line(it)));
    let mut s = number_then(items.len(), " items indexed.\n");
    let body = join_strings(&lines, "\n");
    append_str(&mut s, body.as_str());
    s
}

/// Does some entry match the search term?
fn item_matches_term(it: &IndexedItem, term: &str) -> (b: bool)
    ensures
        b == item_matches(item_view(*it), term@),
{
    let id = to_lowercase(it.id.as_str());
    let kind = to_lowercase(it.kind.name());
    let label = to_lowercase(it.label.as_str());
    matches_lowered(id.as_str(), kind.as_str(), label.as_str(), term)
}

/// Whether a search term occurs in an entry's id, kind or label, each already
/// lower-cased.
pub fn matches_lowered(id: &str, kind: &str, label: &str, term: &str) -> (b: bool)
    ensures
        b == lowered_match(id@, kind@, label@, term@),
{
    contains_str(id, term) || contains_str(kind, term) || contains_str(label, term)
}

/// The answer to QUERY with the lower-cased search term `term`, given the
/// lines of the matching entries.
pub fn query_response(term: &str, lines: &Vec<String>) -> (r: TerminalResponse)
    ensures
        r.view_all() == query_response_spec(term@, views(lines@)),
{
    proof {
        assert(views(lines@).len() == lines@.len());
    }
    if lines.len() == 0 {
        let out = concat3("No items match '", term, "'");
        return TerminalResponse::ok(out.as_str());
    }
    let out = number_then(lines.len(), " item(s):\n");
    let mut s = string_of("Found ");
    append_str(&mut s, out.as_str());
    let body = join_strings(lines, "\n");
    append_str(&mut s, body.as_str());
    TerminalResponse::ok(s.as_str())
}

/// The lines of the entries that match the search term.
fn query_lines(items: &Vec<IndexedItem>, term: &str) -> (lines: Vec<String>)
    ensures
        views(lines@) == query_lines_upto(items_view(items@), term@, items@.len()),
        lines@.len() <= items@.len(),
{
    let mut lines: Vec<String> = Vec::new();
    let mut i: usize = 0;
    while i < items.len()
        invariant
            i <= items@.len(),
            views(lines@) == query_lines_upto(items_view(items@), term@, i as nat),
            lines@.len() <= i,
        decreases items@.len() - i,
    {
        if item_matches_term(&items[i], term) {
            let ghost l0 = views(lines@);
            let line = item_line_string(&items[i]);
            lines.push(line);
            proof {
                assert(views(lines@) =~= l0.push(line@));
            }
        }
        i = i + 1;
    }
    lines
}

/// Does some entry lie in zone `z`?
fn zone_has_items(items: &Vec<IndexedItem>, z: u32) -> (b: bool)
    ensures
        b == exists|i: int| 0 <= i < items@.len() && #[trigger] items_view(items@)[i].2 == ZoneId(z),
{
    let mut i: usize = 0;
    while i < items.len()
        invariant
            i <= items@.len(),
            forall|k: int| 0 <= k < i ==> items@[k].zone != ZoneId(z),
        decreases items@.len() - i,
    {
        if items[i].zone.0 == z {
            assert(items_view(items@)[i as int].2 == ZoneId(z));
            return true;
        }
        i = i + 1;
    }
    assert forall|k: int| 0 <= k < items@.len() implies #[trigger] items_view(items@)[k].2 != ZoneId(z) by {
        assert(items_view(items@)[k].2 == items@[k].zone);
    }
    false
}

/// Is there an entry with this id (and, if asked, of the keycard kind)?
fn has_item_id(items: &Vec<IndexedItem>, id: &str, keycard_only: bool) -> (b: bool)
    ensures
        b == exists|i: int|
            0 <= i < items@.len() && #[trigger] items_view(items@)[i].0 == id@ && (!keycard_only
                || items_view(items@)[i].1 == IndexedItemKind::Keycard),
{
    let mut i: usize = 0;
    while i < items.len()
        invariant
            i <= items@.len(),
            forall|k: int|
                0 <= k < i ==> !(items@[k].id@ == id@ && (!keycard_only || items@[k].kind
                    == IndexedItemKind::Keycard)),
        decreases items@.len() - i,
    {
        if str_equals(items[i].id.as_str(), id) && (!keycard_only || items[i].kind
            == IndexedItemKind::Keycard) {
            assert(items_view(items@)[i as int].0 == id@);
            return true;
        }
        i = i + 1;
    }
    assert forall|k: int|
        0 <= k < items@.len() implies !(#[trigger] items_view(items@)[k].0 == id@ && (!keycard_only
            || items_view(items@)[k].1 == IndexedItemKind::Keycard)) by {
        assert(items_view(items@)[k].0 == items@[k].id@);
    }
    false
}

/// Does the list hold a string with these characters?
fn contains_string(v: &Vec<String>, x: &str) -> (b: bool)
    ensures
        b == views(v@).contains(x@),
{
    let mut i: usize = 0;
    while i < v.len()
        invariant
            i <= v@.len(),
            forall|k: int| 0 <= k < i ==> v@[k]@ != x@,
        decreases v@.len() - i,
    {
        if str_equals(v[i].as_str(), x) {
            assert(views(v@)[i as int] == x@);
            return true;
        }
        i = i + 1;
    }
    assert forall|k: int| 0 <= k < views(v@).len() implies views(v@)[k] != x@ by {
        assert(views(v@)[k] == v@[k]@);
    }
    false
}

/// Adds a string to a list used as a set.
fn insert_string(v: &mut Vec<String>, x: String)
    ensures
        views(final(v)@) == set_insert(views(old(v)@), x@),
{
    if !contains_string(v, x.as_str()) {
        let ghost v0 = views(v@);
        let ghost xv = x@;
        v.push(x);
        assert(views(v@) =~= v0.push(xv));
    }
}

/// How `{:?}` prints the set of strings.
fn debug_set_string(v: &Vec<String>) -> (s: String)
    ensures
        s@ == debug_set(views(v@)),
{
    let mut quoted: Vec<String> = Vec::new();
    let mut i: usize = 0;
    while i < v.len()
        invariant
            i <= v@.len(),
            quoted@.len() == i,
            forall|k: int| 0 <= k < i ==> (#[trigger] quoted@[k])@ == debug_quoted(v@[k]@),
        decreases v@.len() - i,
    {
        quoted.push(debug_string(v[i].as_str()));
        i = i + 1;
    }
    assert(views(quoted@) =~= views(v@).map_values(|x: Seq<char>| debug_quoted(x)));
    let mut s = string_of("{");
    let body = join_strings(&quoted, ", ");
    append_str(&mut s, body.as_str());
    append_str(&mut s, "}");
    s
}

impl TerminalMode {
    pub fn name(&self) -> (s: &'static str)
        ensures
            s@ == mode_name(*self),
    {
        match self {
            TerminalMode::Navigation => "Navigation",
            TerminalMode::Reactor => "Reactor",
            TerminalMode::Uplink => "Uplink",
            TerminalMode::Extraction => "Extraction",
        }
    }
}

impl ReactorState {
    pub fn name(&self) -> (s: &'static str)
        ensures
            s@ == reactor_name(*self),
    {
        match self {
            ReactorState::Off => "Off",
            ReactorState::Starting => "Starting",
            ReactorState::Online => "Online",
            ReactorState::Stabilizing => "Stabilizing",
            ReactorState::Critical => "Critical",
        }
    }
}

impl UplinkState {
    pub fn name(&self) -> (s: &'static str)
        ensures
            s@ == uplink_name(*self),
    {
        match self {
            UplinkState::Disconnected => "Disconnected",
            UplinkState::Connecting => "Connecting",
            UplinkState::Uploading => "Uploading",
            UplinkState::Complete => "Complete",
        }
    }
}

/// The text `STATUS` answers with.
fn status_string(state: &TerminalState) -> (s: String)
    ensures
        s@ == status_text(state.view_all()),
{
    let mut s = string_of("Terminal ");
    append_str(&mut s, state.terminal_id.as_str());
    append_str(&mut s, " | Zone: ZoneId(");
    append_decimal(&mut s, state.zone_id.0 as u64);
    append_str(&mut s, ") | Mode: ");
    append_str(&mut s, state.mode.name());
    append_str(&mut s, " | Reactor: ");
    append_str(&mut s, state.reactor_state.name());
    append_str(&mut s, " | Uplink: ");
    append_str(&mut s, state.uplink_state.name());
    append_str(&mut s, "\nUnlocked: ");
    let set = debug_set_string(&state.unlocked_keycards);
    append_str(&mut s, set.as_str());
    append_str(&mut s, " | Downloaded: ");
    append_decimal(&mut s, state.downloaded_files.len() as u64);
    append_str(&mut s, " file(s)\nExtract: ");
    if state.has_extracted {
        append_str(&mut s, "ACTIVE");
    } else {
        append_str(&mut s, "READY");
    }
    proof {
        assert(views(state.downloaded_files@).len() == state.downloaded_files@.len());
    }
    s
}

/// `prefix`, then `middle`, then `suffix`.
fn concat3(prefix: &str, middle: &str, suffix: &str) -> (s: String)
    ensures
        s@ == prefix@ + middle@ + suffix@,
{
    let mut s = string_of(prefix);
    append_str(&mut s, middle);
    append_str(&mut s, suffix);
    s
}

/// A success with the given output and trigger flags.
fn triggered(output: &str, reactor: bool, uplink: bool, extraction: bool) -> (r: TerminalResponse)
    ensures
        r.view_all() == (true, output@, reactor, uplink, extraction, None::<Seq<char>>),
{
    TerminalResponse {
        success: true,
        output: string_of(output),
        triggers_reactor: reactor,
        triggers_uplink: uplink,
        triggers_extraction: extraction,
        error: None,
    }
}

/// UNLOCK with its argument `arg` already upper-cased to `keycard_id`.
pub fn unlock_keycard(
    keycard_id: String,
    arg: &str,
    state: &mut TerminalState,
    network: &TerminalNetwork,
) -> (r: TerminalResponse)
    requires
        old(state).wf(),
    ensures
        (r.view_all(), final(state).view_all()) == unlock_spec(
            keycard_id@,
            arg@,
            old(state).view_all(),
            items_view(network.items@),
        ),
        final(state).wf(),
{
    proof {
        lemma_set_insert_no_duplicates(views(state.unlocked_keycards@), keycard_id@);
    }
    if !has_item_id(&network.items, keycard_id.as_str(), true) {
        let msg = concat3("Unknown keycard: ", arg, "");
        proof {
            assert("Unknown keycard: "@ + arg@ + ""@ =~= "Unknown keycard: "@ + arg@) by {
                reveal_strlit("");
            }
        }
        return TerminalResponse::fail(msg.as_str());
    }
    let msg = concat3("Security doors unlocked: ", keycard_id.as_str(), "");
    proof {
        assert("Security doors unlocked: "@ + keycard_id@ + ""@ =~= "Security doors unlocked: "@ + keycard_id@) by {
            reveal_strlit("");
        }
    }
    insert_string(&mut state.unlocked_keycards, keycard_id);
    TerminalResponse::ok(msg.as_str())
}

/// DOWNLOAD with its argument already upper-cased to `file_id`.
pub fn download_file(file_id: String, state: &mut TerminalState, network: &TerminalNetwork) -> (r: TerminalResponse)
    requires
        old(state).wf(),
    ensures
        (r.view_all(), final(state).view_all()) == download_spec(
            file_id@,
            old(state).view_all(),
            items_view(network.items@),
        ),
        final(state).wf(),
{
    proof {
        lemma_set_insert_no_duplicates(views(state.downloaded_files@), file_id@);
    }
    if contains_string(&state.downloaded_files, file_id.as_str()) {
        return TerminalResponse::fail("File already downloaded");
    }
    if !has_item_id(&network.items, file_id.as_str(), false) {
        let msg = concat3("Unknown file: ", file_id.as_str(), "");
        proof {
            assert("Unknown file: "@ + file_id@ + ""@ =~= "Unknown file: "@ + file_id@) by {
                reveal_strlit("");
            }
        }
        return TerminalResponse::fail(msg.as_str());
    }
    let msg = concat3("Downloaded: ", file_id.as_str(), "");
    proof {
        assert("Downloaded: "@ + file_id@ + ""@ =~= "Downloaded: "@ + file_id@) by {
            reveal_strlit("");
        }
    }
    insert_string(&mut state.downloaded_files, file_id);
    TerminalResponse::ok(msg.as_str())
}

/// Runs a command on a terminal: answers it and updates the terminal's state.
/// `LIST`, `QUERY`, `PING`, `UNLOCK` and `DOWNLOAD` read the terminal network;
/// the reactor and uplink commands step their sequences in order; `EXTRACT`
/// starts the extraction countdown once; `STATUS` reports the state.
pub fn execute_terminal_command(
    command: &TerminalCommand,
    state: &mut TerminalState,
    network: &TerminalNetwork,
) -> (r: TerminalResponse)
    requires
        old(state).wf(),
    ensures
        (r.view_all(), final(state).view_all()) == execute_spec(
            command.command@,
            views(command.args@),
            old(state).view_all(),
            items_view(network.items@),
        ),
        final(state).wf(),
{
    proof {
        law_commands_keep_sets_without_repeats(
            command.command@,
            views(command.args@),
            old(state).view_all(),
            items_view(network.items@),
        );
    }
    let cmd = command.command.as_str();
    let args = &command.args;
    proof {
        assert(views(args@).len() == args@.len());
        if args@.len() > 0 {
            assert(views(args@)[0] == args@[0]@);
        }
    }
    if cmd.unicode_len() == 0 {
        return TerminalResponse::ok("READY.");
    }
    if str_equals(cmd, "LIST") {
        let out = list_output(&network.items);
        proof {
            assert(items_view(network.items@).len() == network.items@.len());
        }
        return TerminalResponse::ok(out.as_str());
    }
    if str_equals(cmd, "QUERY") {
        if args.len() == 0 {
            return TerminalResponse::ok("Usage: QUERY <SEARCH_TERM>");
        }
        let term = to_lowercase(args[0].as_str());
        let lines = query_lines(&network.items, term.as_str());
        proof {
            assert(items_view(network.items@).len() == network.items@.len());
        }
        return query_response(term.as_str(), &lines);
    }
    if str_equals(cmd, "PING") {
        if args.len() == 0 {
            return TerminalResponse::ok("Usage: PING <ZONE_ID>");
        }
        match parse_u32(args[0].as_str()) {
            Some(zone_num) => {
                let found = zone_has_items(&network.items, zone_num);
                let mut s = string_of("Pinging Zone ");
                append_decimal(&mut s, zone_num as u64);
                if found {
                    append_str(&mut s, " - items detected");
                } else {
                    append_str(&mut s, " - clear");
                }
                return TerminalResponse::ok(s.as_str());
            },
            None => {
                let msg = concat3("Invalid zone ID: ", args[0].as_str(), "");
                proof {
                    assert("Invalid zone ID: "@ + args@[0]@ + ""@ =~= "Invalid zone ID: "@ + args@[0]@) by {
                        reveal_strlit("");
                    }
                }
                return TerminalResponse::fail(msg.as_str());
            },
        }
    }
    if str_equals(cmd, "UNLOCK") {
        if args.len() == 0 {
            return TerminalResponse::ok("Usage: UNLOCK <KEYCARD_ID>");
        }
        let keycard_id = to_uppercase(args[0].as_str());
        return unlock_keycard(keycard_id, args[0].as_str(), state, network);
    }
    if str_equals(cmd, "DOWNLOAD") {
        if args.len() == 0 {
            return TerminalResponse::ok("Usage: DOWNLOAD <FILE_ID>");
        }
        let file_id = to_uppercase(args[0].as_str());
        return download_file(file_id, state, network);
    }
    if str_equals(cmd, "REACTOR_START") {
        if state.reactor_state != ReactorState::Off {
            return TerminalResponse::fail("Reactor already started");
        }
        state.reactor_state = ReactorState::Starting;
        state.mode = TerminalMode::Reactor;
        return triggered("REACTOR: Initiating startup sequence...", true, false, false);
    }
    if str_equals(cmd, "REACTOR_STABILIZE") {
        if state.reactor_state != ReactorState::Starting {
            return TerminalResponse::fail("Reactor not in startup sequence");
        }
        state.reactor_state = ReactorState::Online;
        return TerminalResponse::ok("REACTOR: Online. Output nominal.");
    }
    if str_equals(cmd, "REACTOR_CONTAIN") {
        if state.reactor_state != ReactorState::Critical {
            return TerminalResponse::fail("Reactor not in critical state");
        }
        state.reactor_state = ReactorState::Stabilizing;
        return TerminalResponse::ok("REACTOR: Containment initiated. Standing by...");
    }
    if str_equals(cmd, "UPLINK_CONNECT") {
        if state.uplink_state != UplinkState::Disconnected {
            return TerminalResponse::fail("Uplink already initiated");
        }
        state.uplink_state = UplinkState::Connecting;
        state.mode = TerminalMode::Uplink;
        return triggered("UPLINK: Establishing connection...", false, true, false);
    }
    if str_equals(cmd, "UPLINK_UPLOAD") {
        if state.uplink_state != UplinkState::Connecting {
            return TerminalResponse::fail("Uplink not connected");
        }
        state.uplink_state = UplinkState::Uploading;
        return TerminalResponse::ok("UPLINK: Uploading data...");
    }
    if str_equals(cmd, "UPLINK_COMPLETE") {
        if state.uplink_state != UplinkState::Uploading {
            return TerminalResponse::fail("Uplink not uploading");
        }
        state.uplink_state = UplinkState::Complete;
        insert_string(&mut state.completed_objectives, string_of("uplink"));
        return TerminalResponse::ok("UPLINK: Transfer complete. Objective secured.");
    }
    if str_equals(cmd, "EXTRACT") {
        if state.has_extracted {
            return TerminalResponse::fail("Extraction already called");
        }
        state.has_extracted = true;
        state.extract_timer = 90_000_000;
        state.mode = TerminalMode::Extraction;
        return triggered("EXTRACTION: Sequence initiated. Defend for 90 seconds.", false, false, true);
    }
    if str_equals(cmd, "STATUS") {
        let out = status_string(state);
        return TerminalResponse::ok(out.as_str());
    }
    let msg = concat3("Unknown command: ", cmd, ". Type LIST for available commands.");
    TerminalResponse::fail(msg.as_str())
}

} // verus!

verus! {

/// The command words, by length and first letter: enough to tell them apart.
proof fn lemma_command_words()
    ensures
        "LIST"@.len() == 4 && "LIST"@[0] == 'L',
        "QUERY"@.len() == 5 && "QUERY"@[0] == 'Q',
        "PING"@.len() == 4 && "PING"@[0] == 'P',
        "UNLOCK"@.len() == 6 && "UNLOCK"@[0] == 'U',
        "DOWNLOAD"@.len() == 8 && "DOWNLOAD"@[0] == 'D',
        "REACTOR_START"@.len() == 13 && "REACTOR_START"@[0] == 'R',
        "REACTOR_STABILIZE"@.len() == 17 && "REACTOR_STABILIZE"@[0] == 'R',
        "REACTOR_CONTAIN"@.len() == 15 && "REACTOR_CONTAIN"@[0] == 'R',
        "UPLINK_CONNECT"@.len() == 14 && "UPLINK_CONNECT"@[0] == 'U',
        "UPLINK_UPLOAD"@.len() == 13 && "UPLINK_UPLOAD"@[0] == 'U',
        "UPLINK_COMPLETE"@.len() == 15 && "UPLINK_COMPLETE"@[0] == 'U',
        "EXTRACT"@.len() == 7 && "EXTRACT"@[0] == 'E',
        "STATUS"@.len() == 6 && "STATUS"@[0] == 'S',
{
    reveal_strlit("LIST");
    reveal_strlit("QUERY");
    reveal_strlit("PING");
    reveal_strlit("UNLOCK");
    reveal_strlit("DOWNLOAD");
    reveal_strlit("REACTOR_START");
    reveal_strlit("REACTOR_STABILIZE");
    reveal_strlit("REACTOR_CONTAIN");
    reveal_strlit("UPLINK_CONNECT");
    reveal_strlit("UPLINK_UPLOAD");
    reveal_strlit("UPLINK_COMPLETE");
    reveal_strlit("EXTRACT");
    reveal_strlit("STATUS");
}

/// A command that fails leaves the terminal as it was.
pub proof fn law_failed_command_changes_nothing(
    cmd: Seq<char>,
    args: Seq<Seq<char>>,
    s: StateView,
    items: Seq<ItemView>,
)
    ensures
        !execute_spec(cmd, args, s, items).0.0 ==> execute_spec(cmd, args, s, items).1 == s,
{
}

/// Listing, querying, pinging and asking for the status never change the
/// terminal.
pub proof fn law_queries_change_nothing(
    cmd: Seq<char>,
    args: Seq<Seq<char>>,
    s: StateView,
    items: Seq<ItemView>,
)
    requires
        cmd.len() == 0 || cmd == "LIST"@ || cmd == "QUERY"@ || cmd == "PING"@ || cmd == "STATUS"@,
    ensures
        execute_spec(cmd, args, s, items).1 == s,
{
    lemma_command_words();
}

/// A file is downloaded once: after a download succeeds, the same download
/// fails.
pub proof fn law_download_once(args: Seq<Seq<char>>, s: StateView, items: Seq<ItemView>)
    requires
        args.len() > 0,
        execute_spec("DOWNLOAD"@, args, s, items).0.0,
    ensures
        !execute_spec("DOWNLOAD"@, args, execute_spec("DOWNLOAD"@, args, s, items).1, items).0.0,
{
    lemma_command_words();
    let s1 = execute_spec("DOWNLOAD"@, args, s, items).1;
    let id = uppercase(args[0]);
    assert(s1.10 == s.10.push(id));
    assert(s1.10[s.10.len() as int] == id);
}

/// QUERY finds an entry whose id, kind or label contains the search term,
/// case folded: the command succeeds, changes nothing, and answers "Found N
/// item(s):" followed by the lines of the matching entries, that entry's line
/// among them.
pub proof fn law_query_finds_entries_by_id_kind_or_label(
    args: Seq<Seq<char>>,
    s: StateView,
    items: Seq<ItemView>,
    i: int,
)
    requires
        args.len() > 0,
        0 <= i < items.len(),
        occurs_in(lowercase(items[i].0), lowercase(args[0])) || occurs_in(
            lowercase(kind_name(items[i].1)),
            lowercase(args[0]),
        ) || occurs_in(lowercase(items[i].3), lowercase(args[0])),
    ensures
        ({
            let (r, s2) = execute_spec("QUERY"@, args, s, items);
            let lines = query_lines_upto(items, lowercase(args[0]), items.len());
            &&& r.0
            &&& r.5 is None
            &&& s2 == s
            &&& lines.contains(item_line(items[i]))
            &&& r.1 == "Found "@ + decimal(lines.len()) + " item(s):\n"@ + join(lines, "\n"@)
        }),
{
    lemma_command_words();
    let term = lowercase(args[0]);
    law_query_searches_id_kind_and_label(lowercase(items[i].0), lowercase(kind_name(items[i].1)), lowercase(items[i].3), term);
    assert(item_matches(items[i], term));
    law_query_lists_the_matching_entries(items, term, items.len());
    let lines = query_lines_upto(items, term, items.len());
    assert(lines.contains(item_line(items[i])));
    assert(lines.len() > 0);
}

/// A successful unlock records the keycard, in upper case.
pub proof fn law_unlock_records_keycard(args: Seq<Seq<char>>, s: StateView, items: Seq<ItemView>)
    requires
        execute_spec("UNLOCK"@, args, s, items).0.0,
        args.len() > 0,
    ensures
        execute_spec("UNLOCK"@, args, s, items).1.4.contains(uppercase(args[0])),
{
    lemma_command_words();
    let id = uppercase(args[0]);
    if !s.4.contains(id) {
        assert(s.4.push(id)[s.4.len() as int] == id);
    }
}

/// The reactor sequence: from off, starting then stabilising brings it online,
/// and it cannot be started a second time.
pub proof fn law_reactor_sequence(s: StateView, items: Seq<ItemView>)
    requires
        s.6 == ReactorState::Off,
    ensures
        ({
            let (r1, s1) = execute_spec("REACTOR_START"@, seq![], s, items);
            let (r2, s2) = execute_spec("REACTOR_STABILIZE"@, seq![], s1, items);
            &&& r1.0 && s1.6 == ReactorState::Starting && s1.2 == TerminalMode::Reactor
            &&& r2.0 && s2.6 == ReactorState::Online
            &&& !execute_spec("REACTOR_START"@, seq![], s1, items).0.0
            &&& !execute_spec("REACTOR_START"@, seq![], s2, items).0.0
        }),
{
    lemma_command_words();
}

/// Stabilising the reactor succeeds only during its startup sequence.
pub proof fn law_stabilize_needs_startup(s: StateView, items: Seq<ItemView>)
    ensures
        execute_spec("REACTOR_STABILIZE"@, seq![], s, items).0.0 <==> s.6 == ReactorState::Starting,
{
    lemma_command_words();
}

/// The uplink sequence: from disconnected, connecting, uploading and
/// completing each succeed in turn and record the objective; uploading before
/// connecting fails.
pub proof fn law_uplink_sequence(s: StateView, items: Seq<ItemView>)
    requires
        s.7 == UplinkState::Disconnected,
    ensures
        !execute_spec("UPLINK_UPLOAD"@, seq![], s, items).0.0,
        ({
            let (r1, s1) = execute_spec("UPLINK_CONNECT"@, seq![], s, items);
            let (r2, s2) = execute_spec("UPLINK_UPLOAD"@, seq![], s1, items);
            let (r3, s3) = execute_spec("UPLINK_COMPLETE"@, seq![], s2, items);
            &&& r1.0 && s1.7 == UplinkState::Connecting
            &&& r2.0 && s2.7 == UplinkState::Uploading
            &&& r3.0 && s3.7 == UplinkState::Complete
            &&& s3.11.contains("uplink"@)
        }),
{
    lemma_command_words();
    let s2 = execute_spec(
        "UPLINK_UPLOAD"@,
        seq![],
        execute_spec("UPLINK_CONNECT"@, seq![], s, items).1,
        items,
    ).1;
    if !s2.11.contains("uplink"@) {
        assert(s2.11.push("uplink"@)[s2.11.len() as int] == "uplink"@);
    }
}

/// Extraction is called once: a second call fails.
pub proof fn law_extraction_once(s: StateView, items: Seq<ItemView>)
    ensures
        execute_spec("EXTRACT"@, seq![], s, items).0.0 <==> !s.8,
        !execute_spec("EXTRACT"@, seq![], execute_spec("EXTRACT"@, seq![], s, items).1, items).0.0,
{
    lemma_command_words();
}

} // verus!

verus! {

/// Runs a client's command on a console: only when the request names this
/// console and the interaction checks passed (`checks`, from
/// [`validate_terminal_interaction`]). Returns whether the command succeeded;
/// a request that is not run leaves the terminal as it was.
pub fn process_terminal_interaction_request(
    request: &TerminalInteractionRequest,
    console: &TerminalConsole,
    checks: Result<(), TerminalInteractionError>,
    state: &mut TerminalState,
    network: &TerminalNetwork,
) -> (ok: bool)
    requires
        old(state).wf(),
    ensures
        final(state).wf(),
        (request.terminal_id@ != console.terminal_id@ || checks.is_err()) ==> (!ok && *final(state)
            == *old(state)),
        (request.terminal_id@ == console.terminal_id@ && checks.is_ok()) ==> ({
            let (r, s) = execute_spec(
                request.command.command@,
                views(request.command.args@),
                old(state).view_all(),
                items_view(network.items@),
            );
            ok == r.0 && final(state).view_all() == s
        }),
{
    if !str_equals(request.terminal_id.as_str(), console.terminal_id.as_str()) || checks.is_err() {
        return false;
    }
    let response = execute_terminal_command(&request.command, state, network);
    response.success
}

} // verus!
