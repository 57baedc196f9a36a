//! What happens to a room when players arrive, leave, toggle their readiness,
//! and add or delete options.
use vstd::prelude::*;
use vstd::string::*;
use crate::message::{ClientMessage, MessageType, ServerMessage};
use crate::state::{
    GameState, GameStateView, Player, PlayerView, build_player, new_player_view, players_view,
    options_view,
};
use crate::text::{decimal, decimal_string, non_empty_comma_fields, non_empty_fields, push_decimal};

verus! {

/// How many players are ready.
pub open spec fn count_ready(ps: Seq<PlayerView>) -> nat
    decreases ps.len(),
{
    if ps.len() == 0 {
        0
    } else {
        count_ready(ps.drop_last()) + if ps.last().ready { 1nat } else { 0nat }
    }
}

/// How many players are connected.
pub open spec fn count_connected(ps: Seq<PlayerView>) -> nat
    decreases ps.len(),
{
    if ps.len() == 0 {
        0
    } else {
        count_connected(ps.drop_last()) + if ps.last().is_connected { 1nat } else { 0nat }
    }
}

/// The text of the ready count: ready players, a slash, connected players.
pub open spec fn ready_count_text(ps: Seq<PlayerView>) -> Seq<char> {
    decimal(count_ready(ps)) + "/"@ + decimal(count_connected(ps))
}

/// The message that tells every player the ready count of `ps`.
pub open spec fn is_ready_count_message(m: ServerMessage, ps: Seq<PlayerView>) -> bool {
    m.message_type == MessageType::ToggleReady && m.content@ == ready_count_text(ps)
}

/// The ready count of a room's players, as the message that announces it.
pub fn ready_player_count_message(players: &Vec<Player>) -> (m: ServerMessage)
    ensures
        is_ready_count_message(m, players_view(players@)),
{
    let ghost ps = players_view(players@);
    let mut ready: u64 = 0;
    let mut connected: u64 = 0;
    let mut i: usize = 0;
    while i < players.len()
        invariant
            0 <= i <= players.len(),
            ps == players_view(players@),
            ready == count_ready(ps.take(i as int)),
            connected == count_connected(ps.take(i as int)),
            ready <= i,
            connected <= i,
        decreases players.len() - i,
    {
        assert(ps.take(i + 1).drop_last() =~= ps.take(i as int));
        if players[i].ready {
            ready = ready + 1;
        }
        if players[i].is_connected {
            connected = connected + 1;
        }
        i = i + 1;
    }
    assert(ps.take(i as int) =~= ps);
    let mut content = String::new();
    push_decimal(&mut content, ready);
    content.append("/");
    push_decimal(&mut content, connected);
    ServerMessage { message_type: MessageType::ToggleReady, content }
}

/// `i` is the first position of a player named `name`.
pub open spec fn is_first_named(ps: Seq<PlayerView>, name: Seq<char>, i: int) -> bool {
    &&& 0 <= i < ps.len()
    &&& ps[i].name == name
    &&& forall|j: int| 0 <= j < i ==> #[trigger] ps[j].name != name
}

/// The position of the first player named `name`, or -1 when there is none.
pub open spec fn first_named(ps: Seq<PlayerView>, name: Seq<char>) -> int {
    if exists|i: int| is_first_named(ps, name, i) {
        choose|i: int| is_first_named(ps, name, i)
    } else {
        -1
    }
}

proof fn lemma_first_named_unique(ps: Seq<PlayerView>, name: Seq<char>, i: int)
    requires
        is_first_named(ps, name, i),
    ensures
        first_named(ps, name) == i,
{
    let k = first_named(ps, name);
    assert(is_first_named(ps, name, k));
    if k < i {
        assert(ps[k].name != name);
    }
    if i < k {
        assert(ps[i].name != name);
    }
}

proof fn lemma_first_named_none(ps: Seq<PlayerView>, name: Seq<char>)
    requires
        forall|j: int| 0 <= j < ps.len() ==> #[trigger] ps[j].name != name,
    ensures
        first_named(ps, name) == -1,
{
    if exists|i: int| is_first_named(ps, name, i) {
        let k = choose|i: int| is_first_named(ps, name, i);
        assert(ps[k].name != name);
    }
}

/// Finds the first player named `name`.
pub fn find_player(players: &Vec<Player>, name: &String) -> (r: Option<usize>)
    ensures
        r matches Some(i) ==> i as int == first_named(players_view(players@), name@),
        r is None ==> first_named(players_view(players@), name@) == -1,
        r is None <==> forall|j: int|
            0 <= j < players@.len() ==> #[trigger] players@[j].name@ != name@,
{
    let ghost ps = players_view(players@);
    let mut i: usize = 0;
    while i < players.len()
        invariant
            0 <= i <= players.len(),
            ps == players_view(players@),
            forall|j: int| 0 <= j < i ==> #[trigger] players@[j].name@ != name@,
        decreases players.len() - i,
    {
        if players[i].name == *name {
            assert forall|j: int| 0 <= j < i implies #[trigger] ps[j].name != name@ by {
                assert(players@[j].name@ != name@);
            }
            proof {
                lemma_first_named_unique(ps, name@, i as int);
            }
            return Some(i);
        }
        i = i + 1;
    }
    assert forall|j: int| 0 <= j < ps.len() implies #[trigger] ps[j].name != name@ by {
        assert(players@[j].name@ != name@);
    }
    proof {
        lemma_first_named_none(ps, name@);
    }
    None
}

/// The players after `f` was applied to the first one named `name`, if any.
pub open spec fn update_first_named(
    ps: Seq<PlayerView>,
    name: Seq<char>,
    f: spec_fn(PlayerView) -> PlayerView,
) -> Seq<PlayerView> {
    let i = first_named(ps, name);
    if i >= 0 {
        ps.update(i, f(ps[i]))
    } else {
        ps
    }
}

/// A player back on line.
pub open spec fn reconnected(p: PlayerView) -> PlayerView {
    PlayerView { is_connected: true, ..p }
}

/// A player gone: no longer connected, no longer ready.
pub open spec fn disconnected(p: PlayerView) -> PlayerView {
    PlayerView { is_connected: false, ready: false, ..p }
}

/// A player who changed their mind about being ready.
pub open spec fn toggled(p: PlayerView) -> PlayerView {
    PlayerView { ready: !p.ready, ..p }
}

/// The change of a player who comes back.
pub open spec fn reconnecting() -> spec_fn(PlayerView) -> PlayerView {
    |p: PlayerView| reconnected(p)
}

/// The change of a player who leaves.
pub open spec fn disconnecting() -> spec_fn(PlayerView) -> PlayerView {
    |p: PlayerView| disconnected(p)
}

/// The change of a player who toggles their readiness.
pub open spec fn toggling() -> spec_fn(PlayerView) -> PlayerView {
    |p: PlayerView| toggled(p)
}

/// `new` is `old` with the first player named `name` changed by `f`, and
/// nothing else changed.
pub open spec fn player_changed(
    old: GameStateView,
    new: GameStateView,
    name: Seq<char>,
    f: spec_fn(PlayerView) -> PlayerView,
) -> bool {
    &&& new.players == update_first_named(old.players, name, f)
    &&& new.options == old.options
    &&& new.latest_id == old.latest_id
}

/// A player who put the options in `order`.
pub open spec fn ordered_as(order: Seq<Seq<char>>) -> spec_fn(PlayerView) -> PlayerView {
    |p: PlayerView| PlayerView { option_order: order, ..p }
}

/// Records the order in which player `player_id` put the options: the
/// options' names separated by commas, empty names left out. A room with no
/// such player is left as it is.
pub fn update_player_option_scores(game_state: &mut GameState, player_id: &str, content: String)
    ensures
        final(game_state).tower == old(game_state).tower,
        final(game_state)@.players == update_first_named(
            old(game_state)@.players,
            player_id@,
            ordered_as(non_empty_fields(content@)),
        ),
        final(game_state)@.options == old(game_state)@.options,
        final(game_state)@.latest_id == old(game_state)@.latest_id,
{
    let order = non_empty_comma_fields(content.as_str());
    let name = String::from_str(player_id);
    let ghost before = players_view(game_state.players@);
    match find_player(&game_state.players, &name) {
        Some(i) => {
            game_state.players[i].option_order = order;
            assert(players_view(game_state.players@) =~= before.update(
                i as int,
                ordered_as(non_empty_fields(content@))(before[i as int]),
            ));
        },
        None => {},
    }
}

/// `new` is `old` with a new player, whose id `id` is the next number, and
/// `m` announces the new ready count.
pub open spec fn player_added(
    old: GameStateView,
    new: GameStateView,
    id: Seq<char>,
    m: ServerMessage,
) -> bool {
    &&& new.latest_id == old.latest_id + 1
    &&& id == decimal(new.latest_id)
    &&& new.players == old.players.push(new_player_view(id))
    &&& new.options == old.options
    &&& is_ready_count_message(m, new.players)
}

/// Adds a new player to the room, named by the next id; answers the new
/// player's id and the ready count to announce.
pub fn add_new_player(game_state: &mut GameState) -> (r: (String, ServerMessage))
    requires
        old(game_state).latest_id < u32::MAX,
    ensures
        final(game_state).tower == old(game_state).tower,
        player_added(old(game_state)@, final(game_state)@, r.0@, r.1),
{
    game_state.latest_id = game_state.latest_id + 1;
    let player_id = decimal_string(game_state.latest_id as u64);
    let ghost before = game_state.players@;
    game_state.players.push(build_player(player_id.clone()));
    assert(players_view(game_state.players@) =~= players_view(before).push(
        new_player_view(player_id@),
    ));
    let m = ready_player_count_message(&game_state.players);
    (player_id, m)
}

/// Marks the first player named `player_id` as connected again; answers the
/// ready count to announce.
pub fn active_old_player(game_state: &mut GameState, player_id: &str) -> (m: ServerMessage)
    ensures
        final(game_state).tower == old(game_state).tower,
        player_changed(old(game_state)@, final(game_state)@, player_id@, reconnecting()),
        is_ready_count_message(m, final(game_state)@.players),
{
    let name = String::from_str(player_id);
    let ghost before = players_view(game_state.players@);
    match find_player(&game_state.players, &name) {
        Some(i) => {
            game_state.players[i].is_connected = true;
            assert(players_view(game_state.players@) =~= before.update(
                i as int,
                reconnected(before[i as int]),
            ));
        },
        None => {},
    }
    ready_player_count_message(&game_state.players)
}

/// Marks the first player named `player_id` as gone: not connected, not
/// ready; answers the ready count to announce.
pub fn disconnect_player(game_state: &mut GameState, player_id: &str) -> (m: ServerMessage)
    ensures
        final(game_state).tower == old(game_state).tower,
        player_changed(old(game_state)@, final(game_state)@, player_id@, disconnecting()),
        is_ready_count_message(m, final(game_state)@.players),
{
    let name = String::from_str(player_id);
    let ghost before = players_view(game_state.players@);
    match find_player(&game_state.players, &name) {
        Some(i) => {
            game_state.players[i].is_connected = false;
            game_state.players[i].ready = false;
            assert(players_view(game_state.players@) =~= before.update(
                i as int,
                disconnected(before[i as int]),
            ));
        },
        None => {},
    }
    ready_player_count_message(&game_state.players)
}

/// Toggles whether the first player named `player_id` is ready; answers the
/// ready count to announce.
pub fn switch_player_ready(game_state: &mut GameState, player_id: &str) -> (m: ServerMessage)
    ensures
        final(game_state).tower == old(game_state).tower,
        player_changed(old(game_state)@, final(game_state)@, player_id@, toggling()),
        is_ready_count_message(m, final(game_state)@.players),
{
    let name = String::from_str(player_id);
    let ghost before = players_view(game_state.players@);
    match find_player(&game_state.players, &name) {
        Some(i) => {
            let ready = game_state.players[i].ready;
            game_state.players[i].ready = !ready;
            assert(players_view(game_state.players@) =~= before.update(
                i as int,
                toggled(before[i as int]),
            ));
        },
        None => {},
    }
    ready_player_count_message(&game_state.players)
}

/// Whether `option` is among the room's options.
pub fn has_option(options: &Vec<String>, option: &String) -> (found: bool)
    ensures
        found <==> options_view(options@).contains(option@),
{
    let mut i: usize = 0;
    while i < options.len()
        invariant
            0 <= i <= options.len(),
            forall|j: int| 0 <= j < i ==> #[trigger] options@[j]@ != option@,
        decreases options.len() - i,
    {
        if options[i] == *option {
            assert(options_view(options@)[i as int] == option@);
            return true;
        }
        i = i + 1;
    }
    assert forall|j: int| 0 <= j < options_view(options@).len() implies
        #[trigger] options_view(options@)[j] != option@ by {
        assert(options@[j]@ != option@);
    }
    false
}

/// Adds an option to the room unless it is empty or already there; answers
/// the announcement of the new option when it was added.
pub fn add_option_to_room(game_state: &mut GameState, option: String) -> (m: Option<ServerMessage>)
    ensures
        final(game_state).tower == old(game_state).tower,
        ({
            let added = !old(game_state)@.options.contains(option@) && option@.len() > 0;
            &&& added ==> final(game_state)@.options == old(game_state)@.options.push(option@)
            &&& !added ==> final(game_state)@.options == old(game_state)@.options
            &&& added <==> m is Some
        }),
        m matches Some(a) ==> a.message_type == MessageType::NewOption && a.content@ == option@,
        final(game_state)@.players == old(game_state)@.players,
        final(game_state)@.latest_id == old(game_state)@.latest_id,
{
    if !has_option(&game_state.options, &option) && !option.as_str().is_empty() {
        let ghost before = game_state.options@;
        game_state.options.push(option.clone());
        assert(options_view(game_state.options@) =~= options_view(before).push(option@));
        Some(ServerMessage { message_type: MessageType::NewOption, content: option })
    } else {
        None
    }
}

/// Whether an option is not `option`.
pub open spec fn differs_from(option: Seq<char>) -> spec_fn(Seq<char>) -> bool {
    |o: Seq<char>| o != option
}

/// The options with every copy of `option` taken out, the others in order.
pub open spec fn options_without(options: Seq<Seq<char>>, option: Seq<char>) -> Seq<Seq<char>> {
    options.filter(differs_from(option))
}

/// Takes every copy of `option` out of the room; answers the announcement of
/// its deletion, which goes out whether or not it was there.
pub fn remove_option_from_room(game_state: &mut GameState, option: String) -> (m: ServerMessage)
    ensures
        final(game_state).tower == old(game_state).tower,
        final(game_state)@.options == options_without(old(game_state)@.options, option@),
        m.message_type == MessageType::DeleteOption,
        m.content@ == option@,
        final(game_state)@.players == old(game_state)@.players,
        final(game_state)@.latest_id == old(game_state)@.latest_id,
{
    let ghost keep = differs_from(option@);
    let ghost all = options_view(game_state.options@);
    let mut kept: Vec<String> = Vec::new();
    let mut i: usize = 0;
    while i < game_state.options.len()
        invariant
            0 <= i <= game_state.options.len(),
            all == options_view(game_state.options@),
            forall|o: Seq<char>| #[trigger] keep(o) == (o != option@),
            options_view(kept@) == all.take(i as int).filter(keep),
        decreases game_state.options.len() - i,
    {
        assert(all.take(i + 1) =~= all.take(i as int).push(all[i as int]));
        proof {
            all.take(i as int).lemma_filter_push(all[i as int], keep);
        }
        let same = game_state.options[i] == option;
        assert(all[i as int] == game_state.options@[i as int]@);
        if !same {
            let ghost k0 = kept@;
            kept.push(game_state.options[i].clone());
            assert(options_view(kept@) =~= options_view(k0).push(all[i as int]));
        }
        i = i + 1;
    }
    assert(all.take(i as int) =~= all);
    game_state.options = kept;
    ServerMessage { message_type: MessageType::DeleteOption, content: option }
}

/// The lower-case form of a character, as `to_ascii_lowercase` gives it:
/// only `A` to `Z` change.
pub open spec fn ascii_lower(c: char) -> char {
    if 'A' <= c && c <= 'Z' {
        ((c as u32) + 32) as char
    } else {
        c
    }
}

/// Whether a phase's name, in lower case, is `results`.
pub open spec fn names_results_phase(phase: Seq<char>) -> bool {
    phase.map_values(|c: char| ascii_lower(c)) == "results"@
}

fn lower_char(c: char) -> (l: char)
    ensures
        l == ascii_lower(c),
{
    if 'A' <= c && c <= 'Z' {
        let b: u8 = (c as u8) + 32u8;
        b as char
    } else {
        c
    }
}

/// Whether a phase's name, in lower case, is `results`.
pub fn is_results_phase(phase: &str) -> (b: bool)
    ensures
        b == names_results_phase(phase@),
{
    let target = "results";
    proof {
        reveal_strlit("results");
    }
    let len = phase.unicode_len();
    if len != 7 {
        assert(phase@.map_values(|c: char| ascii_lower(c)).len() != target@.len());
        return false;
    }
    let mut i: usize = 0;
    while i < 7
        invariant
            0 <= i <= 7,
            phase@.len() == 7,
            target@ == "results"@,
            target@.len() == 7,
            forall|j: int| 0 <= j < i ==> ascii_lower(#[trigger] phase@[j]) == target@[j],
        decreases 7 - i,
    {
        let c = lower_char(phase.get_char(i));
        let t = target.get_char(i);
        if c != t {
            assert(phase@.map_values(|c: char| ascii_lower(c))[i as int] != target@[i as int]);
            return false;
        }
        i = i + 1;
    }
    assert(phase@.map_values(|c: char| ascii_lower(c)) =~= target@);
    true
}

/// What the server does about a message from a player, once the room was
/// updated.
pub enum Reaction {
    /// Print a line on the server's console.
    Log(String),
    /// Send a message to every player of the room.
    Announce(ServerMessage),
    /// Announce the new phase; when the phase is the results, the results follow.
    NewPhase { announcement: ServerMessage, show_results: bool },
    /// Nothing to do.
    Nothing,
}

/// Whether adding `option` changes a room: it is new and not empty.
pub open spec fn option_is_addable(g: GameStateView, option: Seq<char>) -> bool {
    !g.options.contains(option) && option.len() > 0
}

/// The line printed when a handshake message arrives after the handshake.
pub open spec fn late_handshake_text(t: MessageType) -> Seq<char> {
    "Got "@ + crate::message::message_type_name(t)
        + " Client Message but should have already been handled in handshake"@
}

/// The line printed when a handshake message arrives after the handshake.
pub fn late_handshake_line(t: MessageType) -> (line: String)
    ensures
        line@ == late_handshake_text(t),
{
    let mut line = String::from_str("Got ");
    line.append(t.name());
    line.append(" Client Message but should have already been handled in handshake");
    line
}

/// `new` and `r` are what a message `msg` from player `player_id` makes of the
/// room `old` and answers.
pub open spec fn evaluation(
    old: GameStateView,
    msg: ClientMessage,
    player_id: Seq<char>,
    new: GameStateView,
    r: Reaction,
) -> bool {
    match msg.message_type {
        MessageType::NewPlayer | MessageType::PlayerToken => {
            &&& new == old
            &&& r matches Reaction::Log(line)
            &&& line@ == late_handshake_text(msg.message_type)
        },
        MessageType::OptionsOrder => {
            &&& new.players == update_first_named(
                old.players,
                player_id,
                ordered_as(non_empty_fields(msg.content@)),
            )
            &&& new.options == old.options
            &&& new.latest_id == old.latest_id
            &&& r is Nothing
        },
        MessageType::NewOption => {
            &&& new.players == old.players
            &&& new.latest_id == old.latest_id
            &&& if option_is_addable(old, msg.content@) {
                &&& new.options == old.options.push(msg.content@)
                &&& r matches Reaction::Announce(m)
                &&& m.message_type == MessageType::NewOption
                &&& m.content@ == msg.content@
            } else {
                &&& new.options == old.options
                &&& r is Nothing
            }
        },
        MessageType::DeleteOption => {
            &&& new.players == old.players
            &&& new.latest_id == old.latest_id
            &&& new.options == options_without(
                old.options,
                msg.content@,
            )
            &&& r matches Reaction::Announce(m)
            &&& m.message_type == MessageType::DeleteOption
            &&& m.content@ == msg.content@
        },
        MessageType::ToggleReady => {
            &&& new.players == update_first_named(
                old.players,
                player_id,
                toggling(),
            )
            &&& new.options == old.options
            &&& new.latest_id == old.latest_id
            &&& r matches Reaction::Announce(m)
            &&& is_ready_count_message(m, new.players)
        },
        MessageType::ChangePhase => {
            &&& new == old
            &&& r matches Reaction::NewPhase { announcement, show_results }
            &&& announcement.message_type == MessageType::ChangePhase
            &&& announcement.content@ == msg.content@
            &&& show_results == names_results_phase(msg.content@)
        },
        MessageType::Debug => {
            &&& new == old
            &&& r matches Reaction::Log(line)
            &&& line@ == msg.content@
        },
    }
}

/// Reacts to a message from player `player_id`: updates the room and answers
/// what remains to be done.
pub fn evaluate_parsed_msg(
    parsed_msg: ClientMessage,
    game_state: &mut GameState,
    player_id: &str,
) -> (r: Reaction)
    ensures
        final(game_state).tower == old(game_state).tower,
        evaluation(old(game_state)@, parsed_msg, player_id@, final(game_state)@, r),
{
    match parsed_msg.message_type {
        MessageType::NewPlayer => Reaction::Log(late_handshake_line(MessageType::NewPlayer)),
        MessageType::PlayerToken => Reaction::Log(late_handshake_line(MessageType::PlayerToken)),
        MessageType::OptionsOrder => {
            update_player_option_scores(game_state, player_id, parsed_msg.content);
            Reaction::Nothing
        },
        MessageType::NewOption => {
            match add_option_to_room(game_state, parsed_msg.content) {
                Some(m) => Reaction::Announce(m),
                None => Reaction::Nothing,
            }
        },
        MessageType::DeleteOption => {
            Reaction::Announce(remove_option_from_room(game_state, parsed_msg.content))
        },
        MessageType::ToggleReady => Reaction::Announce(switch_player_ready(game_state, player_id)),
        MessageType::ChangePhase => {
            let show_results = is_results_phase(parsed_msg.content.as_str());
            Reaction::NewPhase {
                announcement: ServerMessage {
                    message_type: MessageType::ChangePhase,
                    content: parsed_msg.content,
                },
                show_results,
            }
        },
        MessageType::Debug => Reaction::Log(parsed_msg.content),
    }
}

/// A player let into a room.
pub struct Admission {
    /// The id the player goes by.
    pub player_id: String,
    /// Whether the player is new, and so must be told their id.
    pub is_new: bool,
    /// The ready count to announce.
    pub ready_count: ServerMessage,
}

/// Whether some player is named `name`.
pub open spec fn has_player_named(ps: Seq<PlayerView>, name: Seq<char>) -> bool {
    exists|j: int| 0 <= j < ps.len() && #[trigger] ps[j].name == name
}

/// The first message shows the token of a player of the room.
pub open spec fn is_returning(g: GameStateView, first: ClientMessage) -> bool {
    first.message_type == MessageType::PlayerToken && has_player_named(g.players, first.content@)
}

/// The first message asks to play, and is not the token of a player of the room.
pub open spec fn is_newcomer(g: GameStateView, first: ClientMessage) -> bool {
    !is_returning(g, first) && (first.message_type == MessageType::NewPlayer
        || first.message_type == MessageType::PlayerToken)
}

/// `new` and `a` are what letting in the sender of `first` makes of the room
/// `old` and answers.
pub open spec fn admission(
    old: GameStateView,
    first: ClientMessage,
    new: GameStateView,
    a: Option<Admission>,
) -> bool {
    &&& is_returning(old, first) ==> {
        &&& a is Some
        &&& !a->0.is_new
        &&& a->0.player_id@ == first.content@
        &&& player_changed(old, new, first.content@, reconnecting())
    }
    &&& is_newcomer(old, first) ==> {
        &&& a is Some
        &&& a->0.is_new
        &&& player_added(old, new, a->0.player_id@, a->0.ready_count)
    }
    &&& !is_returning(old, first) && !is_newcomer(old, first) ==> {
        &&& a is None
        &&& new == old
    }
    &&& a matches Some(adm) ==> is_ready_count_message(adm.ready_count, new.players)
}

/// Lets a player into a room by the first message they send: a player who
/// shows the token of a player of the room is that player, back on line;
/// anybody else who asks to play (`NewPlayer`, or a token the room does not
/// know) joins as a new player. Any other message lets nobody in.
pub fn get_player_id(game_state: &mut GameState, first: &ClientMessage) -> (a: Option<Admission>)
    requires
        is_newcomer(old(game_state)@, *first) ==> old(game_state).latest_id < u32::MAX,
    ensures
        final(game_state).tower == old(game_state).tower,
        admission(old(game_state)@, *first, final(game_state)@, a),
{
    match first.message_type {
        MessageType::PlayerToken => {
            let token = first.content.clone();
            match find_player(&game_state.players, &token) {
                Some(i) => {
                    proof {
                        let ps = players_view(old(game_state).players@);
                        assert(ps[i as int].name == first.content@);
                    }
                    let m = active_old_player(game_state, token.as_str());
                    Some(Admission { player_id: token, is_new: false, ready_count: m })
                },
                None => {
                    proof {
                        let ps = players_view(old(game_state).players@);
                        if has_player_named(ps, first.content@) {
                            let j = choose|j: int| 0 <= j < ps.len() && #[trigger] ps[j].name == first.content@;
                            assert(game_state.players@[j].name@ != token@);
                        }
                    }
                    let (id, m) = add_new_player(game_state);
                    Some(Admission { player_id: id, is_new: true, ready_count: m })
                },
            }
        },
        MessageType::NewPlayer => {
            let (id, m) = add_new_player(game_state);
            Some(Admission { player_id: id, is_new: true, ready_count: m })
        },
        _ => None,
    }
}

/// The options of a room not in `shown`.
pub open spec fn not_in(shown: Seq<Seq<char>>) -> spec_fn(Seq<char>) -> bool {
    |o: Seq<char>| !shown.contains(o)
}

/// The options to show a player who arrives: the ones they already ranked,
/// in their order, then the room's other options, in the room's order.
pub fn options_to_send(room_options: &Vec<String>, ranked: &Vec<String>) -> (out: Vec<String>)
    ensures
        options_view(out@) == options_view(ranked@) + options_view(room_options@).filter(
            not_in(options_view(ranked@)),
        ),
{
    let ghost all = options_view(room_options@);
    let ghost keep = not_in(options_view(ranked@));
    let mut out: Vec<String> = Vec::new();
    let mut k: usize = 0;
    while k < ranked.len()
        invariant
            0 <= k <= ranked.len(),
            options_view(out@) == options_view(ranked@).take(k as int),
        decreases ranked.len() - k,
    {
        let ghost o0 = out@;
        let item = ranked[k].clone();
        assert(item@ == ranked@[k as int]@);
        out.push(item);
        assert(options_view(out@) =~= options_view(o0).push(ranked@[k as int]@));
        assert(options_view(ranked@).take(k + 1) =~= options_view(ranked@).take(k as int).push(
            ranked@[k as int]@,
        ));
        k = k + 1;
    }
    assert(options_view(ranked@).take(k as int) =~= options_view(ranked@));
    let mut i: usize = 0;
    while i < room_options.len()
        invariant
            0 <= i <= room_options.len(),
            all == options_view(room_options@),
            keep == not_in(options_view(ranked@)),
            options_view(out@) == options_view(ranked@) + all.take(i as int).filter(keep),
        decreases room_options.len() - i,
    {
        assert(all.take(i + 1) =~= all.take(i as int).push(all[i as int]));
        proof {
            all.take(i as int).lemma_filter_push(all[i as int], keep);
        }
        let seen = has_option(ranked, &room_options[i]);
        if !seen {
            let ghost o0 = out@;
            out.push(room_options[i].clone());
            assert(options_view(out@) =~= options_view(o0).push(all[i as int]));
        }
        i = i + 1;
    }
    assert(all.take(i as int) =~= all);
    out
}

/// The ids of a room are sound: every player's id is the decimal form of a
/// number from 1 to the last id handed out, and no two players share an id.
pub open spec fn ids_well_formed(g: GameStateView) -> bool {
    &&& forall|i: int|
        0 <= i < g.players.len() ==> exists|k: nat|
            1 <= k <= g.latest_id && #[trigger] decimal(k) == (#[trigger] g.players[i]).name
    &&& forall|i: int, j: int|
        0 <= i < j < g.players.len() ==> (#[trigger] g.players[i]).name != (
        #[trigger] g.players[j]).name
}

/// A new player's id is one no player of the room has, and the ids stay
/// sound once the player is in.
pub proof fn law_new_player_id_is_fresh(g: GameStateView)
    requires
        ids_well_formed(g),
    ensures
        forall|i: int|
            0 <= i < g.players.len() ==> (#[trigger] g.players[i]).name != decimal(g.latest_id + 1),
        ids_well_formed(
            GameStateView {
                players: g.players.push(
                    new_player_view(decimal(g.latest_id + 1)),
                ),
                options: g.options,
                latest_id: g.latest_id + 1,
            },
        ),
{
    let fresh = decimal(g.latest_id + 1);
    assert forall|i: int| 0 <= i < g.players.len() implies (#[trigger] g.players[i]).name
        != fresh by {
        let k = choose|k: nat| 1 <= k <= g.latest_id && #[trigger] decimal(k) == g.players[i].name;
        if g.players[i].name == fresh {
            crate::text::lemma_decimal_injective(k, g.latest_id + 1);
        }
    }
    let h = GameStateView {
        players: g.players.push(new_player_view(fresh)),
        options: g.options,
        latest_id: g.latest_id + 1,
    };
    assert forall|i: int| 0 <= i < h.players.len() implies exists|k: nat|
        1 <= k <= h.latest_id && #[trigger] decimal(k) == (#[trigger] h.players[i]).name by {
        if i == g.players.len() {
            assert(decimal(h.latest_id) == h.players[i].name);
        } else {
            assert(h.players[i] == g.players[i]);
            let k = choose|k: nat| 1 <= k <= g.latest_id && #[trigger] decimal(k) == g.players[i].name;
            assert(decimal(k) == h.players[i].name);
        }
    }
    assert forall|i: int, j: int| 0 <= i < j < h.players.len() implies (#[trigger] h.players[i]).name
        != (#[trigger] h.players[j]).name by {
        if j == g.players.len() {
            assert(h.players[i] == g.players[i]);
        } else {
            assert(h.players[i] == g.players[i]);
            assert(h.players[j] == g.players[j]);
        }
    }
}

/// Changing the first player with some name, in a way that keeps names,
/// keeps the ids of the room sound.
pub proof fn law_player_update_keeps_ids(
    g: GameStateView,
    name: Seq<char>,
    f: spec_fn(PlayerView) -> PlayerView,
)
    requires
        ids_well_formed(g),
        forall|p: PlayerView| (#[trigger] f(p)).name == p.name,
    ensures
        ids_well_formed(
            GameStateView {
                players: update_first_named(g.players, name, f),
                options: g.options,
                latest_id: g.latest_id,
            },
        ),
{
    let ps = update_first_named(g.players, name, f);
    let i0 = first_named(g.players, name);
    if i0 >= 0 {
        assert(is_first_named(g.players, name, i0));
        assert(f(g.players[i0]).name == g.players[i0].name);
    }
    assert forall|i: int| 0 <= i < ps.len() implies #[trigger] ps[i].name == g.players[i].name by {
        if i == i0 {
            assert(f(g.players[i0]).name == g.players[i0].name);
        }
    }
    let h = GameStateView { players: ps, options: g.options, latest_id: g.latest_id };
    assert forall|i: int| 0 <= i < h.players.len() implies exists|k: nat|
        1 <= k <= h.latest_id && #[trigger] decimal(k) == (#[trigger] h.players[i]).name by {
        assert(ps[i].name == g.players[i].name);
        let k = choose|k: nat| 1 <= k <= g.latest_id && #[trigger] decimal(k) == g.players[i].name;
        assert(decimal(k) == h.players[i].name);
    }
    assert forall|i: int, j: int| 0 <= i < j < h.players.len() implies (#[trigger] h.players[i]).name
        != (#[trigger] h.players[j]).name by {
        assert(ps[i].name == g.players[i].name);
        assert(ps[j].name == g.players[j].name);
    }
}

/// Toggling the readiness of the same player twice gives the room's players
/// back as they were.
pub proof fn law_toggle_twice(ps: Seq<PlayerView>, name: Seq<char>)
    ensures
        update_first_named(
            update_first_named(ps, name, toggling()),
            name,
            toggling(),
        ) == ps,
{
    let f = toggling();
    let once = update_first_named(ps, name, f);
    let i = first_named(ps, name);
    if i >= 0 {
        assert(is_first_named(ps, name, i));
        assert forall|j: int| 0 <= j < i implies #[trigger] once[j].name != name by {
            assert(once[j] == ps[j]);
            assert(ps[j].name != name);
        }
        assert(is_first_named(once, name, i));
        lemma_first_named_unique(once, name, i);
        assert(update_first_named(once, name, f) =~= ps);
    }
}

/// The options of a room are sound: none is empty, none comes twice.
pub open spec fn options_well_formed(options: Seq<Seq<char>>) -> bool {
    &&& options.no_duplicates()
    &&& forall|i: int| 0 <= i < options.len() ==> (#[trigger] options[i]).len() > 0
}

/// Adding an option keeps the options sound.
pub proof fn law_add_keeps_options_sound(options: Seq<Seq<char>>, option: Seq<char>)
    requires
        options_well_formed(options),
    ensures
        options_well_formed(
            if !options.contains(option) && option.len() > 0 {
                options.push(option)
            } else {
                options
            },
        ),
{
    if !options.contains(option) && option.len() > 0 {
        let after = options.push(option);
        assert forall|a: int, b: int| 0 <= a < b < after.len() implies after[a] != after[b] by {
            if b == options.len() {
                assert(options.contains(after[a]));
            }
        }
    }
}

proof fn lemma_filter_no_duplicates(s: Seq<Seq<char>>, keep: spec_fn(Seq<char>) -> bool)
    requires
        s.no_duplicates(),
    ensures
        s.filter(keep).no_duplicates(),
        forall|x: Seq<char>| s.filter(keep).contains(x) ==> s.contains(x),
    decreases s.len(),
{
    reveal(Seq::filter);
    if s.len() > 0 {
        let init = s.drop_last();
        assert(init.no_duplicates()) by {
            assert forall|a: int, b: int| 0 <= a < b < init.len() implies init[a] != init[b] by {
                assert(init[a] == s[a] && init[b] == s[b]);
            }
        }
        lemma_filter_no_duplicates(init, keep);
        assert(s.filter(keep) == if keep(s.last()) {
            init.filter(keep).push(s.last())
        } else {
            init.filter(keep)
        });
        assert forall|x: Seq<char>| init.contains(x) implies s.contains(x) by {
            let k = choose|k: int| 0 <= k < init.len() && init[k] == x;
            assert(s[k] == x);
        }
        if keep(s.last()) {
            let f = init.filter(keep);
            assert(!init.contains(s.last())) by {
                if init.contains(s.last()) {
                    let k = choose|k: int| 0 <= k < init.len() && init[k] == s.last();
                    assert(s[k] == s[s.len() - 1]);
                }
            }
            assert forall|a: int, b: int| 0 <= a < b < f.push(s.last()).len() implies f.push(
                s.last(),
            )[a] != f.push(s.last())[b] by {
                if b == f.len() {
                    assert(f.contains(f[a]));
                }
            }
            assert forall|x: Seq<char>| f.push(s.last()).contains(x) implies s.contains(x) by {
                let k = choose|k: int| 0 <= k < f.push(s.last()).len() && f.push(s.last())[k] == x;
                if k < f.len() {
                    assert(f.contains(x));
                }
            }
        }
    }
}

/// Deleting an option keeps the options sound.
pub proof fn law_remove_keeps_options_sound(options: Seq<Seq<char>>, option: Seq<char>)
    requires
        options_well_formed(options),
    ensures
        options_well_formed(options_without(options, option)),
{
    let keep = differs_from(option);
    lemma_filter_no_duplicates(options, keep);
    let after = options.filter(keep);
    assert forall|i: int| 0 <= i < after.len() implies (#[trigger] after[i]).len() > 0 by {
        assert(after.contains(after[i]));
        assert(options.contains(after[i]));
    }
}

proof fn lemma_filter_keeps_all(s: Seq<Seq<char>>, keep: spec_fn(Seq<char>) -> bool)
    requires
        forall|i: int| 0 <= i < s.len() ==> keep(#[trigger] s[i]),
    ensures
        s.filter(keep) == s,
    decreases s.len(),
{
    reveal(Seq::filter);
    if s.len() > 0 {
        let init = s.drop_last();
        assert forall|i: int| 0 <= i < init.len() implies keep(#[trigger] init[i]) by {
            assert(init[i] == s[i]);
        }
        lemma_filter_keeps_all(init, keep);
        assert(keep(s[s.len() - 1]));
        assert(init.push(s.last()) =~= s);
    }
}

/// Deleting an option that was just added, and was new, gives the options
/// back as they were.
pub proof fn law_remove_undoes_add(options: Seq<Seq<char>>, option: Seq<char>)
    requires
        !options.contains(option),
    ensures
        options_without(options.push(option), option) == options,
{
    let keep = differs_from(option);
    options.lemma_filter_push(option, keep);
    assert forall|i: int| 0 <= i < options.len() implies keep(#[trigger] options[i]) by {
        assert(options.contains(options[i]));
    }
    lemma_filter_keeps_all(options, keep);
}

/// The ready count counts exactly the players who are ready, and the
/// connected count exactly those who are connected.
pub proof fn law_counts_count_players(ps: Seq<PlayerView>)
    ensures
        count_ready(ps) == ps.filter(|p: PlayerView| p.ready).len(),
        count_connected(ps) == ps.filter(|p: PlayerView| p.is_connected).len(),
    decreases ps.len(),
{
    reveal(Seq::filter);
    if ps.len() > 0 {
        law_counts_count_players(ps.drop_last());
    }
}

/// Players with a name: the first one named `name` is changed by `f`, every
/// other player stays as they were, and nobody is added or taken away.
pub proof fn law_update_first_named(
    ps: Seq<PlayerView>,
    name: Seq<char>,
    f: spec_fn(PlayerView) -> PlayerView,
)
    ensures
        update_first_named(ps, name, f).len() == ps.len(),
        has_player_named(ps, name) ==> exists|i: int|
            #[trigger] is_first_named(ps, name, i) && update_first_named(ps, name, f)[i] == f(ps[i])
                && forall|j: int|
                0 <= j < ps.len() && j != i ==> #[trigger] update_first_named(ps, name, f)[j]
                    == ps[j],
        !has_player_named(ps, name) ==> update_first_named(ps, name, f) == ps,
{
    if has_player_named(ps, name) {
        lemma_first_named_exists(ps, name, ps.len() as int);
        let i = first_named(ps, name);
        assert(is_first_named(ps, name, i));
    } else {
        assert forall|j: int| 0 <= j < ps.len() implies #[trigger] ps[j].name != name by {
            if ps[j].name == name {
                assert(has_player_named(ps, name));
            }
        }
        lemma_first_named_none(ps, name);
    }
}

proof fn lemma_first_named_exists(ps: Seq<PlayerView>, name: Seq<char>, n: int)
    requires
        0 <= n <= ps.len(),
        exists|j: int| 0 <= j < n && #[trigger] ps[j].name == name,
    ensures
        first_named(ps, name) >= 0,
        is_first_named(ps, name, first_named(ps, name)),
    decreases n,
{
    if exists|j: int| 0 <= j < n - 1 && #[trigger] ps[j].name == name {
        lemma_first_named_exists(ps, name, n - 1);
    } else {
        assert(ps[n - 1].name == name);
        assert(is_first_named(ps, name, n - 1));
        lemma_first_named_unique(ps, name, n - 1);
    }
}

/// A player who comes back is connected again and keeps their name, their
/// readiness and their order of the options.
pub proof fn law_reconnecting_changes_only_the_connection(p: PlayerView)
    ensures
        reconnecting()(p).is_connected,
        reconnecting()(p).name == p.name,
        reconnecting()(p).ready == p.ready,
        reconnecting()(p).option_order == p.option_order,
{
}

/// A player who leaves is neither connected nor ready, and keeps their name
/// and their order of the options.
pub proof fn law_disconnecting_clears_connection_and_readiness(p: PlayerView)
    ensures
        !disconnecting()(p).is_connected,
        !disconnecting()(p).ready,
        disconnecting()(p).name == p.name,
        disconnecting()(p).option_order == p.option_order,
{
}

/// Toggling readiness flips it and keeps the name, the connection and the
/// order of the options.
pub proof fn law_toggling_flips_only_readiness(p: PlayerView)
    ensures
        toggling()(p).ready == !p.ready,
        toggling()(p).name == p.name,
        toggling()(p).is_connected == p.is_connected,
        toggling()(p).option_order == p.option_order,
{
}

/// Recording an order changes only the player's order.
pub proof fn law_recording_an_order_changes_only_the_order(order: Seq<Seq<char>>, p: PlayerView)
    ensures
        ordered_as(order)(p).option_order == order,
        ordered_as(order)(p).name == p.name,
        ordered_as(order)(p).ready == p.ready,
        ordered_as(order)(p).is_connected == p.is_connected,
{
}

/// When a player comes back, every player keeps their name, readiness and
/// order of the options, the options and ids stay, and the player who came
/// back, if the room knows them, is connected.
pub proof fn law_reconnect_keeps_orders(old: GameStateView, new: GameStateView, name: Seq<char>)
    requires
        player_changed(old, new, name, reconnecting()),
    ensures
        new.players.len() == old.players.len(),
        forall|j: int|
            0 <= j < old.players.len() ==> {
                &&& (#[trigger] new.players[j]).name == old.players[j].name
                &&& new.players[j].ready == old.players[j].ready
                &&& new.players[j].option_order == old.players[j].option_order
            },
        has_player_named(old.players, name) ==> exists|j: int|
            0 <= j < new.players.len() && (#[trigger] new.players[j]).name == name
                && new.players[j].is_connected,
        new.options == old.options,
        new.latest_id == old.latest_id,
{
    law_update_first_named(old.players, name, reconnecting());
    if has_player_named(old.players, name) {
        let i = choose|i: int|
            #[trigger] is_first_named(old.players, name, i) && update_first_named(
                old.players,
                name,
                reconnecting(),
            )[i] == reconnecting()(old.players[i]) && forall|j: int|
                0 <= j < old.players.len() && j != i ==> #[trigger] update_first_named(
                    old.players,
                    name,
                    reconnecting(),
                )[j] == old.players[j];
        law_reconnecting_changes_only_the_connection(old.players[i]);
        assert(new.players[i].name == name && new.players[i].is_connected);
        assert forall|j: int| 0 <= j < old.players.len() implies {
            &&& (#[trigger] new.players[j]).name == old.players[j].name
            &&& new.players[j].ready == old.players[j].ready
            &&& new.players[j].option_order == old.players[j].option_order
        } by {
            if j != i {
                assert(new.players[j] == old.players[j]);
            }
        }
    }
}

/// Whatever a player sends, the options of the room stay sound: none empty,
/// none twice.
pub proof fn law_messages_keep_options_sound(
    old: GameStateView,
    msg: ClientMessage,
    player_id: Seq<char>,
    new: GameStateView,
    r: Reaction,
)
    requires
        options_well_formed(old.options),
        evaluation(old, msg, player_id, new, r),
    ensures
        options_well_formed(new.options),
{
    law_add_keeps_options_sound(old.options, msg.content@);
    law_remove_keeps_options_sound(old.options, msg.content@);
}

/// A new option is added, and announced, exactly when it is not empty and
/// not there yet; otherwise the options stay and nothing is announced.
pub proof fn law_new_option(
    old: GameStateView,
    msg: ClientMessage,
    player_id: Seq<char>,
    new: GameStateView,
    r: Reaction,
)
    requires
        msg.message_type == MessageType::NewOption,
        evaluation(old, msg, player_id, new, r),
    ensures
        msg.content@.len() == 0 || old.options.contains(msg.content@) ==> {
            &&& new.options == old.options
            &&& r is Nothing
        },
        msg.content@.len() > 0 && !old.options.contains(msg.content@) ==> {
            &&& new.options == old.options.push(msg.content@)
            &&& r matches Reaction::Announce(m)
            &&& m.message_type == MessageType::NewOption
            &&& m.content@ == msg.content@
        },
        new.players == old.players,
        new.latest_id == old.latest_id,
{
}

/// Lower case changes only the capitals `A` to `Z`, each into its small
/// letter, 32 code points further.
pub proof fn law_ascii_lower(c: char)
    ensures
        'A' <= c <= 'Z' ==> ascii_lower(c) as u32 == c as u32 + 32 && 'a' <= ascii_lower(c) <= 'z',
        !('A' <= c <= 'Z') ==> ascii_lower(c) == c,
{
}

/// What an arriving player is shown: first the options they ranked, in their
/// order; then every other option of the room, none of them ranked already;
/// every option of the room is shown, and nothing that is neither ranked nor
/// an option of the room.
pub proof fn law_options_to_send(room: Seq<Seq<char>>, ranked: Seq<Seq<char>>)
    ensures
        ({
            let out = ranked + room.filter(not_in(ranked));
            &&& out.take(ranked.len() as int) == ranked
            &&& forall|i: int| ranked.len() <= i < out.len() ==> !ranked.contains(#[trigger] out[i])
            &&& forall|i: int| ranked.len() <= i < out.len() ==> room.contains(#[trigger] out[i])
            &&& forall|o: Seq<char>| #[trigger] room.contains(o) ==> out.contains(o)
        }),
{
    let rest = room.filter(not_in(ranked));
    let out = ranked + rest;
    assert(out.take(ranked.len() as int) =~= ranked);
    assert forall|i: int| ranked.len() <= i < out.len() implies !ranked.contains(#[trigger] out[i])
        && room.contains(out[i]) by {
        let k = i - ranked.len();
        assert(out[i] == rest[k]);
        room.lemma_filter_pred(not_in(ranked), k);
        room.lemma_filter_contains_rev(not_in(ranked), rest[k]);
        assert(rest.contains(rest[k]));
    }
    assert forall|o: Seq<char>| #[trigger] room.contains(o) implies out.contains(o) by {
        let j = choose|j: int| 0 <= j < room.len() && room[j] == o;
        if ranked.contains(o) {
            let k = choose|k: int| 0 <= k < ranked.len() && ranked[k] == o;
            assert(out[k] == o);
        } else {
            room.lemma_filter_contains(not_in(ranked), j);
            let k = choose|k: int| 0 <= k < rest.len() && rest[k] == o;
            assert(out[ranked.len() + k] == o);
        }
    }
}

/// Deleting an option takes out every copy of it, keeps every other option,
/// and announces the deletion.
pub proof fn law_delete_option(
    old: GameStateView,
    msg: ClientMessage,
    player_id: Seq<char>,
    new: GameStateView,
    r: Reaction,
)
    requires
        msg.message_type == MessageType::DeleteOption,
        evaluation(old, msg, player_id, new, r),
    ensures
        !new.options.contains(msg.content@),
        forall|o: Seq<char>| o != msg.content@ && old.options.contains(o) ==> #[trigger] new.options.contains(o),
        forall|o: Seq<char>| #[trigger] new.options.contains(o) ==> old.options.contains(o),
        r matches Reaction::Announce(m) && m.message_type == MessageType::DeleteOption && m.content@
            == msg.content@,
        new.players == old.players,
{
    let keep = differs_from(msg.content@);
    if new.options.contains(msg.content@) {
        let k = choose|k: int| 0 <= k < new.options.len() && new.options[k] == msg.content@;
        old.options.lemma_filter_pred(keep, k);
    }
    assert forall|o: Seq<char>| o != msg.content@ && old.options.contains(o) implies #[trigger] new.options.contains(o) by {
        let j = choose|j: int| 0 <= j < old.options.len() && old.options[j] == o;
        old.options.lemma_filter_contains(keep, j);
    }
    assert forall|o: Seq<char>| #[trigger] new.options.contains(o) implies old.options.contains(o) by {
        old.options.lemma_filter_contains_rev(keep, o);
    }
}

} // verus!
