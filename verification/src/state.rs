//! The state of one room: its players, its options and its broadcast tower.
use vstd::prelude::*;
use tokio::sync::broadcast::Sender;
use crate::message::{ClientMessage, MessageType, server_message_json, to_server_message_json};

verus! {

#[verifier::external_type_specification]
#[verifier::external_body]
#[verifier::reject_recursive_types(T)]
pub struct ExTowerSender<T>(tokio::sync::broadcast::Sender<T>);

#[verifier::external_type_specification]
#[verifier::external_body]
pub struct ExAxumError(axum::Error);

/// How many messages a room's tower keeps for a slow listener.
pub const TOWER_CAPACITY: usize = 20;

/// Creates a room's tower (`tokio::sync::broadcast::Sender::new`).
///
/// Nothing is claimed of the sender it returns; the capacity handed over is
/// positive and at most `usize::MAX / 2`, the range in which `new` does not panic.
#[verifier::external_body]
fn new_tower(capacity: usize) -> Sender<String>
    requires
        0 < capacity <= usize::MAX / 2,
{
    Sender::new(capacity)
}

/// Hands a text to every listener of a tower (`tokio::sync::broadcast::Sender::send`).
///
/// Nothing is claimed: whether anybody listens decides what `send` returns,
/// and that answer is dropped.
#[verifier::external_body]
pub(crate) fn tower_send(tower: &Sender<String>, text: String) {
    let _ = tower.send(text);
}

/// Sends a message, as JSON, to every listener of a room's tower, and
/// answers the text it handed to the tower: the JSON of a message of the
/// given type with the given content.
pub fn send_from_tower(message_type: MessageType, content: String, room_tower: &Sender<String>) -> (sent:
    String)
    ensures
        sent@ == server_message_json(message_type, content@),
{
    let json_string = to_server_message_json(message_type, content);
    tower_send(room_tower, json_string.clone());
    json_string
}

/// A player as the logic sees them.
pub struct PlayerView {
    pub name: Seq<char>,
    pub ready: bool,
    pub is_connected: bool,
    pub option_order: Seq<Seq<char>>,
}

/// A player of a room.
#[derive(Debug)]
pub struct Player {
    pub name: String,
    pub ready: bool,
    pub is_connected: bool,
    /// The options in the order the player last put them; a player's score
    /// for an option is its place in this order.
    pub option_order: Vec<String>,
}

impl View for Player {
    type V = PlayerView;

    open spec fn view(&self) -> PlayerView {
        PlayerView {
            name: self.name@,
            ready: self.ready,
            is_connected: self.is_connected,
            option_order: options_view(self.option_order@),
        }
    }
}

/// A newly arrived player as the logic sees them: not ready, connected, and
/// with no order of the options yet.
pub open spec fn new_player_view(name: Seq<char>) -> PlayerView {
    PlayerView { name, ready: false, is_connected: true, option_order: Seq::empty() }
}

/// A newly arrived player: not ready, connected, no order of the options yet.
pub fn build_player(name: String) -> (p: Player)
    ensures
        p@ == new_player_view(name@),
{
    let p = Player { name, ready: false, is_connected: true, option_order: Vec::new() };
    assert(p@.option_order =~= Seq::<Seq<char>>::empty());
    p
}

/// The players of a room as the logic sees them.
pub open spec fn players_view(players: Seq<Player>) -> Seq<PlayerView> {
    players.map_values(|p: Player| p@)
}

/// The options of a room as the logic sees them.
pub open spec fn options_view(options: Seq<String>) -> Seq<Seq<char>> {
    options.map_values(|o: String| o@)
}

/// A room as the logic sees it; the tower is left out.
pub struct GameStateView {
    pub players: Seq<PlayerView>,
    pub options: Seq<Seq<char>>,
    pub latest_id: nat,
}

/// One room: its broadcast tower, its players, its options, and the last
/// number handed out as a player's id.
pub struct GameState {
    pub tower: Sender<String>,
    pub players: Vec<Player>,
    pub options: Vec<String>,
    pub latest_id: u32,
}

impl View for GameState {
    type V = GameStateView;

    open spec fn view(&self) -> GameStateView {
        GameStateView {
            players: players_view(self.players@),
            options: options_view(self.options@),
            latest_id: self.latest_id as nat,
        }
    }
}

/// A fresh room: no players, no options, no ids handed out yet.
pub fn build_gamestate() -> (g: GameState)
    ensures
        g@.players == Seq::<PlayerView>::empty(),
        g@.options == Seq::<Seq<char>>::empty(),
        g@.latest_id == 0,
{
    let g = GameState {
        tower: new_tower(TOWER_CAPACITY),
        players: Vec::new(),
        options: Vec::new(),
        latest_id: 0,
    };
    assert(g@.players =~= Seq::<PlayerView>::empty());
    assert(g@.options =~= Seq::<Seq<char>>::empty());
    g
}

/// What can go wrong while talking with a player's browser.
#[derive(Debug)]
pub enum GameError {
    UserDisconnected,
    NetworkFailure(axum::Error),
    ParseFailure(serde_json::Error),
    WrongFrameType(String),
    WrongMessageType(String),
}

impl From<axum::Error> for GameError {
    fn from(error: axum::Error) -> (e: Self) {
        GameError::NetworkFailure(error)
    }
}

impl vstd::std_specs::convert::FromSpecImpl<axum::Error> for GameError {
    open spec fn obeys_from_spec() -> bool {
        true
    }

    open spec fn from_spec(error: axum::Error) -> Self {
        GameError::NetworkFailure(error)
    }
}

impl From<serde_json::Error> for GameError {
    fn from(error: serde_json::Error) -> (e: Self) {
        GameError::ParseFailure(error)
    }
}

impl vstd::std_specs::convert::FromSpecImpl<serde_json::Error> for GameError {
    open spec fn obeys_from_spec() -> bool {
        true
    }

    open spec fn from_spec(error: serde_json::Error) -> Self {
        GameError::ParseFailure(error)
    }
}

/// Whether the connection to a player stays open after a message was read:
/// it does after a message, and after a frame that was not text; it closes on
/// a disconnect, a network failure or a message that could not be parsed.
pub fn keeps_connection(received: &Result<ClientMessage, GameError>) -> (keep: bool)
    ensures
        keep <==> (received is Ok || (received matches Err(GameError::WrongFrameType(_)))),
{
    match received {
        Ok(_) => true,
        Err(GameError::WrongFrameType(_)) => true,
        Err(_) => false,
    }
}

} // verus!
