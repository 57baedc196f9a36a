//! The rooms of the server, each known by a code of four capital letters.
use vstd::prelude::*;
use vstd::string::*;
use crate::lobby::{
    Admission, Reaction, active_old_player, add_new_player, admission, disconnect_player,
    disconnecting, evaluate_parsed_msg, evaluation, get_player_id, is_newcomer,
    is_ready_count_message, is_results_phase, late_handshake_line, late_handshake_text, names_results_phase, player_added, player_changed,
    reconnecting,
};
use crate::message::{ClientMessage, MessageType, ServerMessage};
use crate::state::{GameState, GameStateView, build_gamestate};
use crate::text::{push_char, replace_all, replaced};

verus! {

/// How many letters a room code has.
pub const ROOM_CODE_LEN: usize = 4;

/// How many letters a room code draws from.
pub const ALPHABET_LEN: usize = 26;

/// Draws a number below `n` at random (`rand::random_range` on `0..n`).
///
/// Claimed of it: the number is below `n`. The range is not empty, the one
/// case in which `random_range` panics.
#[verifier::external_body]
fn random_below(n: usize) -> (i: usize)
    requires
        n > 0,
    ensures
        i < n,
{
    rand::random_range(0..n)
}

/// A capital letter, `A` to `Z`.
pub open spec fn is_capital(c: char) -> bool {
    'A' <= c && c <= 'Z'
}

/// A room code: four capital letters.
pub open spec fn is_room_code(code: Seq<char>) -> bool {
    &&& code.len() == ROOM_CODE_LEN
    &&& forall|i: int| 0 <= i < code.len() ==> is_capital(#[trigger] code[i])
}

/// The `i`-th capital letter.
pub open spec fn capital(i: nat) -> char {
    ((65 + i) as u32) as char
}

/// The `i`-th capital letter, counting from `A` as 0.
pub fn letter(i: usize) -> (c: char)
    requires
        i < ALPHABET_LEN,
    ensures
        c == capital(i as nat),
        is_capital(c),
{
    let b: u8 = 65u8 + (i as u8);
    b as char
}

/// The room code spelled by four draws, each a letter's position in the alphabet.
pub fn room_code_from_draws(draws: &Vec<usize>) -> (code: String)
    requires
        draws@.len() == ROOM_CODE_LEN,
        forall|k: int| 0 <= k < ROOM_CODE_LEN ==> #[trigger] draws@[k] < ALPHABET_LEN,
    ensures
        code@ == draws@.map_values(|i: usize| capital(i as nat)),
        is_room_code(code@),
{
    let mut code = String::new();
    let mut k: usize = 0;
    while k < draws.len()
        invariant
            0 <= k <= draws.len(),
            draws@.len() == ROOM_CODE_LEN,
            forall|j: int| 0 <= j < ROOM_CODE_LEN ==> #[trigger] draws@[j] < ALPHABET_LEN,
            code@ == draws@.take(k as int).map_values(|i: usize| capital(i as nat)),
            forall|i: int| 0 <= i < code@.len() ==> is_capital(#[trigger] code@[i]),
        decreases draws.len() - k,
    {
        let c = letter(draws[k]);
        let ghost c0 = code@;
        push_char(&mut code, c);
        assert(draws@.take(k + 1).map_values(|i: usize| capital(i as nat)) =~= c0.push(c));
        k = k + 1;
    }
    assert(draws@.take(k as int) =~= draws@);
    code
}

/// A room code drawn at random: four letters, each drawn on its own.
pub fn random_room_code() -> (code: String)
    ensures
        is_room_code(code@),
{
    let mut draws: Vec<usize> = Vec::new();
    while draws.len() < ROOM_CODE_LEN
        invariant
            draws@.len() <= ROOM_CODE_LEN,
            forall|j: int| 0 <= j < draws@.len() ==> #[trigger] draws@[j] < ALPHABET_LEN,
        decreases ROOM_CODE_LEN - draws@.len(),
    {
        let random_index = random_below(ALPHABET_LEN);
        draws.push(random_index);
    }
    room_code_from_draws(&draws)
}

/// A room and its code.
struct Room {
    code: String,
    state: GameState,
}

/// The rooms as the logic sees them: each room's code and state, in the
/// order the rooms were opened.
pub type RoomsView = Seq<(Seq<char>, GameStateView)>;

/// The codes of the rooms.
pub open spec fn room_codes(v: RoomsView) -> Seq<Seq<char>> {
    v.map_values(|e: (Seq<char>, GameStateView)| e.0)
}

/// Room `i` has the code `code`.
pub open spec fn is_room_at(v: RoomsView, code: Seq<char>, i: int) -> bool {
    0 <= i < v.len() && v[i].0 == code
}

/// Only the state of room `i` may differ between `old` and `new`.
pub open spec fn only_room_changed(old: RoomsView, new: RoomsView, i: int) -> bool {
    &&& new.len() == old.len()
    &&& new[i].0 == old[i].0
    &&& forall|j: int| 0 <= j < old.len() && j != i ==> #[trigger] new[j] == old[j]
}

/// Of the rooms of `old`, only room `i` may have changed in `new`: every
/// other room keeps its code and its whole state, and room `i` keeps its code
/// and its tower.
pub open spec fn rooms_kept_but(old: Lobby, new: Lobby, i: int) -> bool {
    &&& only_room_changed(old@, new@, i)
    &&& forall|j: int| 0 <= j < old@.len() && j != i ==> #[trigger] new.state_at(j) == old.state_at(j)
    &&& new.state_at(i).tower == old.state_at(i).tower
}

/// All the rooms of the server; no two share a code.
pub struct Lobby {
    rooms: Vec<Room>,
}

impl View for Lobby {
    type V = RoomsView;

    closed spec fn view(&self) -> RoomsView {
        self.rooms@.map_values(|r: Room| (r.code@, r.state@))
    }
}

impl Lobby {
    #[verifier::type_invariant]
    spec fn codes_distinct(self) -> bool {
        room_codes(self@).no_duplicates()
    }

    /// The whole state of room `i`, its tower included.
    pub closed spec fn state_at(&self, i: int) -> GameState {
        self.rooms@[i].state
    }

    /// Room `i`'s view is the view of its whole state.
    pub proof fn lemma_state_at_view(&self, i: int)
        requires
            0 <= i < self@.len(),
        ensures
            self.state_at(i)@ == self@[i].1,
    {
    }

    /// Whether some room has the code `code`.
    pub open spec fn has_room(&self, code: Seq<char>) -> bool {
        room_codes(self@).contains(code)
    }

    /// A lobby with no rooms.
    pub fn new() -> (l: Lobby)
        ensures
            l@ == RoomsView::empty(),
    {
        let l = Lobby { rooms: Vec::new() };
        assert(l@ =~= RoomsView::empty());
        l
    }

    /// The position of the room with code `code`, if there is one; no two
    /// rooms share a code.
    pub fn find_room(&self, code: &str) -> (r: Option<usize>)
        ensures
            r matches Some(i) ==> is_room_at(self@, code@, i as int),
            r is None <==> !self.has_room(code@),
            room_codes(self@).no_duplicates(),
    {
        proof {
            use_type_invariant(self);
        }
        let wanted = String::from_str(code);
        let mut i: usize = 0;
        while i < self.rooms.len()
            invariant
                0 <= i <= self.rooms.len(),
                wanted@ == code@,
                room_codes(self@).no_duplicates(),
                forall|j: int| 0 <= j < i ==> #[trigger] self.rooms@[j].code@ != code@,
            decreases self.rooms.len() - i,
        {
            if self.rooms[i].code == wanted {
                assert(self@[i as int].0 == code@);
                assert(room_codes(self@)[i as int] == code@);
                return Some(i);
            }
            i = i + 1;
        }
        assert forall|j: int| 0 <= j < room_codes(self@).len() implies #[trigger] room_codes(
            self@,
        )[j] != code@ by {
            assert(self.rooms@[j].code@ != code@);
        }
        None
    }

    /// Whether some room has the code `code`.
    pub fn contains_room(&self, code: &str) -> (b: bool)
        ensures
            b == self.has_room(code@),
    {
        self.find_room(code).is_some()
    }

    /// The room with code `code`, if there is one.
    pub fn room(&self, code: &str) -> (r: Option<&GameState>)
        ensures
            r is None <==> !self.has_room(code@),
            r matches Some(g) ==> exists|i: int|
                #[trigger] is_room_at(self@, code@, i) && self@[i].1 == g@ && *g == self.state_at(i),
    {
        match self.find_room(code) {
            Some(i) => {
                let g = &self.rooms[i].state;
                assert(self@[i as int].1 == g@);
                Some(g)
            },
            None => None,
        }
    }

    /// Opens a fresh room under `code` when no room has that code yet, and
    /// answers whether it did; otherwise changes nothing.
    pub fn open_room(&mut self, code: String) -> (opened: bool)
        ensures
            opened <==> !old(self).has_room(code@),
            opened ==> final(self)@ == old(self)@.push((code@, fresh_room())),
            opened ==> forall|j: int|
                0 <= j < old(self)@.len() ==> #[trigger] final(self).state_at(j) == old(self).state_at(j),
            !opened ==> *final(self) == *old(self),
    {
        if self.contains_room(code.as_str()) {
            return false;
        }
        proof {
            use_type_invariant(&*self);
        }
        let ghost before = self@;
        let mut rooms: Vec<Room> = Vec::new();
        std::mem::swap(&mut rooms, &mut self.rooms);
        let state = build_gamestate();
        rooms.push(Room { code, state });
        let ghost after = rooms@.map_values(|r: Room| (r.code@, r.state@));
        assert(after =~= before.push((code@, fresh_room())));
        assert(room_codes(after) =~= room_codes(before).push(code@));
        assert forall|a: int, b: int| 0 <= a < b < room_codes(after).len() implies room_codes(
            after,
        )[a] != room_codes(after)[b] by {
            if b == before.len() {
                assert(room_codes(before)[a] == room_codes(after)[a]);
            }
        }
        self.rooms = rooms;
        true
    }

    /// Draws a room code at random; when no room has it yet, opens a fresh
    /// room under it and answers the code, else changes nothing. It fails
    /// only when the code drawn is taken, so never while no room has a code
    /// of four capital letters.
    pub fn draw_room(&mut self) -> (r: Option<String>)
        ensures
            r matches Some(code) ==> {
                &&& is_room_code(code@)
                &&& !old(self).has_room(code@)
                &&& final(self)@ == old(self)@.push((code@, fresh_room()))
                &&& forall|j: int|
                    0 <= j < old(self)@.len() ==> #[trigger] final(self).state_at(j) == old(
                        self,
                    ).state_at(j)
            },
            r is None ==> *final(self) == *old(self),
            r is None ==> exists|taken: Seq<char>| is_room_code(taken) && old(self).has_room(taken),
    {
        let room_code = random_room_code();
        if self.open_room(room_code.clone()) {
            Some(room_code)
        } else {
            assert(is_room_code(room_code@) && old(self).has_room(room_code@));
            None
        }
    }

    /// Where a player who asked to join the room `code` is sent: to that
    /// room when it exists, else back to the front page.
    pub fn join_destination(&self, code: &str) -> (path: String)
        ensures
            self.has_room(code@) ==> path@ == "/room/"@ + code@,
            !self.has_room(code@) ==> path@ == "/"@,
    {
        if self.contains_room(code) {
            room_path(code)
        } else {
            String::from_str("/")
        }
    }

    /// Puts the rooms taken out back into the lobby; only room `i` may have
    /// changed since they were taken out as `before`, and it kept its code and
    /// its tower.
    fn put_back(&mut self, rooms: Vec<Room>, i: usize, before: Ghost<Seq<Room>>)
        requires
            old(self).rooms@.len() == 0,
            0 <= i < rooms@.len(),
            rooms@.len() == before@.len(),
            room_codes(before@.map_values(|r: Room| (r.code@, r.state@))).no_duplicates(),
            rooms@[i as int].code == before@[i as int].code,
            rooms@[i as int].state.tower == before@[i as int].state.tower,
            forall|j: int| 0 <= j < before@.len() && j != i ==> #[trigger] rooms@[j] == before@[j],
        ensures
            final(self).rooms@ == rooms@,
    {
        let ghost old_view = before@.map_values(|r: Room| (r.code@, r.state@));
        let ghost after = rooms@.map_values(|r: Room| (r.code@, r.state@));
        assert(room_codes(after) =~= room_codes(old_view)) by {
            assert forall|j: int| 0 <= j < after.len() implies #[trigger] room_codes(after)[j]
                == room_codes(old_view)[j] by {
                if j != i {
                    assert(rooms@[j] == before@[j]);
                }
            }
        }
        self.rooms = rooms;
    }

    /// Takes the rooms out of the lobby, leaving it empty for the moment.
    fn take_rooms(&mut self) -> (rooms: Vec<Room>)
        ensures
            final(self).rooms@.len() == 0,
            rooms@ == old(self).rooms@,
            rooms@.map_values(|r: Room| (r.code@, r.state@)) == old(self)@,
            room_codes(old(self)@).no_duplicates(),
    {
        proof {
            use_type_invariant(&*self);
        }
        let mut rooms: Vec<Room> = Vec::new();
        std::mem::swap(&mut rooms, &mut self.rooms);
        rooms
    }

    /// Reacts to a message from player `player_id` of room `room_code`. In a
    /// room that exists this is what `evaluate_parsed_msg` does there. Where
    /// no room has the code, nothing changes: an option is neither added nor
    /// deleted and nothing is announced, while a phase change is still
    /// announced and lines are still logged. Toggling readiness needs the room.
    pub fn evaluate_in_room(
        &mut self,
        room_code: &str,
        parsed_msg: ClientMessage,
        player_id: &str,
    ) -> (r: Reaction)
        requires
            parsed_msg.message_type == MessageType::ToggleReady ==> old(self).has_room(room_code@),
        ensures
            old(self).has_room(room_code@) ==> exists|i: int|
                #[trigger] is_room_at(old(self)@, room_code@, i) && rooms_kept_but(*old(self), *final(self), i) && evaluation(old(self)@[i].1, parsed_msg, player_id@, final(self)@[i].1, r),
            !old(self).has_room(room_code@) ==> *final(self) == *old(self) && evaluation_without_room(
                parsed_msg,
                r,
            ),
    {
        match self.find_room(room_code) {
            Some(i) => {
                let ghost before = self@;
                let ghost before_rooms = self.rooms@;
                let mut rooms = self.take_rooms();
                assert(rooms@[i as int].state@ == before[i as int].1);
                let r = evaluate_parsed_msg(parsed_msg, &mut rooms[i].state, player_id);
                self.put_back(rooms, i, Ghost(before_rooms));
                assert(is_room_at(before, room_code@, i as int));
                r
            },
            None => without_room(parsed_msg),
        }
    }

    /// Lets a player into room `room_code` by their first message, as
    /// `get_player_id` does there.
    pub fn admit_player(&mut self, room_code: &str, first: &ClientMessage) -> (a: Option<Admission>)
        requires
            old(self).has_room(room_code@),
            forall|i: int|
                #[trigger] is_room_at(old(self)@, room_code@, i) ==> (is_newcomer(old(self)@[i].1, *first)
                    ==> old(self)@[i].1.latest_id < u32::MAX),
        ensures
            exists|i: int|
                #[trigger] is_room_at(old(self)@, room_code@, i) && rooms_kept_but(*old(self), *final(self), i) && admission(old(self)@[i].1, *first, final(self)@[i].1, a),
    {
        let i = self.find_room(room_code).unwrap();
        let ghost before = self@;
        let ghost before_rooms = self.rooms@;
        let mut rooms = self.take_rooms();
        assert(is_room_at(before, room_code@, i as int));
        assert(rooms@[i as int].state@ == before[i as int].1);
        let a = get_player_id(&mut rooms[i].state, first);
        self.put_back(rooms, i, Ghost(before_rooms));
        a
    }

    /// Adds a new player to room `room_code`, as `add_new_player` does there.
    pub fn add_new_player_in_room(&mut self, room_code: &str) -> (r: (String, ServerMessage))
        requires
            old(self).has_room(room_code@),
            forall|i: int|
                #[trigger] is_room_at(old(self)@, room_code@, i) ==> old(self)@[i].1.latest_id
                    < u32::MAX,
        ensures
            exists|i: int|
                #[trigger] is_room_at(old(self)@, room_code@, i) && rooms_kept_but(*old(self), *final(self), i) && player_added(old(self)@[i].1, final(self)@[i].1, r.0@, r.1),
    {
        let i = self.find_room(room_code).unwrap();
        let ghost before = self@;
        let ghost before_rooms = self.rooms@;
        let mut rooms = self.take_rooms();
        assert(is_room_at(before, room_code@, i as int));
        assert(rooms@[i as int].state@ == before[i as int].1);
        let r = add_new_player(&mut rooms[i].state);
        self.put_back(rooms, i, Ghost(before_rooms));
        r
    }

    /// Marks player `player_id` of room `room_code` as back on line, as
    /// `active_old_player` does there.
    pub fn active_old_player_in_room(&mut self, room_code: &str, player_id: &str) -> (m:
        ServerMessage)
        requires
            old(self).has_room(room_code@),
        ensures
            exists|i: int|
                #[trigger] is_room_at(old(self)@, room_code@, i) && rooms_kept_but(*old(self), *final(self), i) && player_changed(old(self)@[i].1, final(self)@[i].1, player_id@, reconnecting())
                && is_ready_count_message(m, final(self)@[i].1.players),
    {
        let i = self.find_room(room_code).unwrap();
        let ghost before = self@;
        let ghost before_rooms = self.rooms@;
        let mut rooms = self.take_rooms();
        assert(is_room_at(before, room_code@, i as int));
        assert(rooms@[i as int].state@ == before[i as int].1);
        let m = active_old_player(&mut rooms[i].state, player_id);
        self.put_back(rooms, i, Ghost(before_rooms));
        m
    }

    /// Marks player `player_id` of room `room_code` as gone, as
    /// `disconnect_player` does there.
    pub fn disconnect_player_in_room(&mut self, room_code: &str, player_id: &str) -> (m:
        ServerMessage)
        requires
            old(self).has_room(room_code@),
        ensures
            exists|i: int|
                #[trigger] is_room_at(old(self)@, room_code@, i) && rooms_kept_but(*old(self), *final(self), i) && player_changed(old(self)@[i].1, final(self)@[i].1, player_id@, disconnecting())
                && is_ready_count_message(m, final(self)@[i].1.players),
    {
        let i = self.find_room(room_code).unwrap();
        let ghost before = self@;
        let ghost before_rooms = self.rooms@;
        let mut rooms = self.take_rooms();
        assert(is_room_at(before, room_code@, i as int));
        assert(rooms@[i as int].state@ == before[i as int].1);
        let m = disconnect_player(&mut rooms[i].state, player_id);
        self.put_back(rooms, i, Ghost(before_rooms));
        m
    }
}

/// What a message from a player answers where no room has the player's room
/// code: the lines and phase announcements that need no room, and nothing
/// for the rest.
pub open spec fn evaluation_without_room(msg: ClientMessage, r: Reaction) -> bool {
    match msg.message_type {
        MessageType::NewPlayer | MessageType::PlayerToken => {
            &&& r matches Reaction::Log(line)
            &&& line@ == late_handshake_text(msg.message_type)
        },
        MessageType::ChangePhase => {
            &&& r matches Reaction::NewPhase { announcement, show_results }
            &&& announcement.message_type == MessageType::ChangePhase
            &&& announcement.content@ == msg.content@
            &&& show_results == names_results_phase(msg.content@)
        },
        MessageType::Debug => {
            &&& r matches Reaction::Log(line)
            &&& line@ == msg.content@
        },
        _ => r is Nothing,
    }
}

fn without_room(parsed_msg: ClientMessage) -> (r: Reaction)
    requires
        parsed_msg.message_type != MessageType::ToggleReady,
    ensures
        evaluation_without_room(parsed_msg, r),
{
    match parsed_msg.message_type {
        MessageType::NewPlayer | MessageType::PlayerToken => {
            Reaction::Log(late_handshake_line(parsed_msg.message_type))
        },
        MessageType::ChangePhase => {
            let show_results = is_results_phase(parsed_msg.content.as_str());
            Reaction::NewPhase {
                announcement: ServerMessage {
                    message_type: MessageType::ChangePhase,
                    content: parsed_msg.content,
                },
                show_results,
            }
        },
        MessageType::Debug => Reaction::Log(parsed_msg.content),
        _ => Reaction::Nothing,
    }
}

/// A room as it is when made.
pub open spec fn fresh_room() -> GameStateView {
    GameStateView { players: Seq::empty(), options: Seq::empty(), latest_id: 0 }
}

/// The page of the room `code`.
pub fn room_path(code: &str) -> (path: String)
    ensures
        path@ == "/room/"@ + code@,
{
    let mut path = String::from_str("/room/");
    path.append(code);
    path
}

/// The page of a room: its template with the room's code in place of every
/// `[ROOM_CODE]`.
pub fn show_room_page(template: &str, room_code: &str) -> (page: String)
    ensures
        page@ == replaced(template@, "[ROOM_CODE]"@, room_code@),
{
    proof {
        reveal_strlit("[ROOM_CODE]");
    }
    replace_all(template, "[ROOM_CODE]", room_code)
}

/// Rooms are never lost: once a room is opened, every room there was is
/// still there, and the new one is there too, so players can join it.
pub proof fn law_opening_keeps_rooms(before: RoomsView, code: Seq<char>, state: GameStateView)
    ensures
        room_codes(before.push((code, state))).contains(code),
        forall|c: Seq<char>|
            room_codes(before).contains(c) ==> room_codes(before.push((code, state))).contains(c),
{
    let after = before.push((code, state));
    assert(room_codes(after)[before.len() as int] == code);
    assert forall|c: Seq<char>| room_codes(before).contains(c) implies room_codes(after).contains(
        c,
    ) by {
        let k = choose|k: int| 0 <= k < room_codes(before).len() && room_codes(before)[k] == c;
        assert(room_codes(after)[k] == c);
    }
}

/// The draws 0 to 25 give the capital letters `A` to `Z` in order, each
/// draw its own letter.
pub proof fn law_capitals_are_the_alphabet()
    ensures
        forall|i: nat| i < ALPHABET_LEN ==> is_capital(#[trigger] capital(i)),
        forall|i: nat| i < ALPHABET_LEN ==> (#[trigger] capital(i)) as u32 == 'A' as u32 + i,
        forall|i: nat, j: nat| i < j < ALPHABET_LEN ==> #[trigger] capital(i) != #[trigger] capital(j),
        capital(0) == 'A',
        capital(25) == 'Z',
{
}

} // verus!
