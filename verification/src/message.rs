//! The messages exchanged with the players' browsers, and their JSON framing.
use vstd::prelude::*;
use vstd::string::*;

verus! {

/// What a message is about.
#[derive(PartialEq, Eq, Structural, Clone, Copy, Debug)]
pub enum MessageType {
    NewPlayer,
    PlayerToken,
    OptionsOrder,
    NewOption,
    DeleteOption,
    ToggleReady,
    ChangePhase,
    Debug,
}

/// A message sent by a player's browser.
#[derive(Debug)]
pub struct ClientMessage {
    pub message_type: MessageType,
    pub content: String,
}

/// A message sent to the players' browsers.
#[derive(Debug)]
pub struct ServerMessage {
    pub message_type: MessageType,
    pub content: String,
}

/// The form with which a player asks to join a room.
#[derive(Debug)]
pub struct JoinRequest {
    pub room_code: String,
}

/// The name under which a message type travels in JSON: the variant's own name.
pub open spec fn message_type_name(t: MessageType) -> Seq<char> {
    match t {
        MessageType::NewPlayer => "NewPlayer"@,
        MessageType::PlayerToken => "PlayerToken"@,
        MessageType::OptionsOrder => "OptionsOrder"@,
        MessageType::NewOption => "NewOption"@,
        MessageType::DeleteOption => "DeleteOption"@,
        MessageType::ToggleReady => "ToggleReady"@,
        MessageType::ChangePhase => "ChangePhase"@,
        MessageType::Debug => "Debug"@,
    }
}

impl MessageType {
    /// The name under which this message type travels in JSON.
    pub fn name(&self) -> (s: &'static str)
        ensures
            s@ == message_type_name(*self),
    {
        match self {
            MessageType::NewPlayer => "NewPlayer",
            MessageType::PlayerToken => "PlayerToken",
            MessageType::OptionsOrder => "OptionsOrder",
            MessageType::NewOption => "NewOption",
            MessageType::DeleteOption => "DeleteOption",
            MessageType::ToggleReady => "ToggleReady",
            MessageType::ChangePhase => "ChangePhase",
            MessageType::Debug => "Debug",
        }
    }
}

#[verifier::external_type_specification]
#[verifier::external_body]
pub struct ExJsonError(serde_json::Error);

/// A character that JSON writes as an escape sequence: a quote, a backslash
/// or a control character below U+0020.
pub open spec fn json_escaped_char(c: char) -> bool {
    c == '"' || c == '\\' || (c as u32) < 0x20
}

/// A lower-case hexadecimal digit.
pub open spec fn hex_digit(d: nat) -> char {
    if d < 10 {
        ((48 + d) as u32) as char
    } else {
        ((87 + d) as u32) as char
    }
}

/// How one character stands in a JSON string: a quote and a backslash behind
/// a backslash; backspace, tab, line feed, form feed and carriage return as
/// `\b \t \n \f \r`; other control characters as `\u00` and two hex digits;
/// every other character as itself.
pub open spec fn json_char(c: char) -> Seq<char> {
    let n = c as u32;
    if c == '"' {
        seq!['\\', '"']
    } else if c == '\\' {
        seq!['\\', '\\']
    } else if n == 8 {
        seq!['\\', 'b']
    } else if n == 9 {
        seq!['\\', 't']
    } else if n == 10 {
        seq!['\\', 'n']
    } else if n == 12 {
        seq!['\\', 'f']
    } else if n == 13 {
        seq!['\\', 'r']
    } else if n < 0x20 {
        seq!['\\', 'u', '0', '0', hex_digit((n / 16) as nat), hex_digit((n % 16) as nat)]
    } else {
        seq![c]
    }
}

/// The characters of a text as they stand inside a JSON string.
pub open spec fn json_escaped(s: Seq<char>) -> Seq<char>
    decreases s.len(),
{
    if s.len() == 0 {
        Seq::empty()
    } else {
        json_escaped(s.drop_last()) + json_char(s.last())
    }
}

/// A text as a JSON string literal: between quotes, each character as
/// `json_char` writes it.
pub open spec fn json_string_literal(s: Seq<char>) -> Seq<char> {
    seq!['"'] + json_escaped(s) + seq!['"']
}

/// A text with no character that JSON escapes stands for itself.
pub proof fn lemma_plain_text_is_not_escaped(s: Seq<char>)
    requires
        forall|i: int| 0 <= i < s.len() ==> !json_escaped_char(#[trigger] s[i]),
    ensures
        json_escaped(s) == s,
    decreases s.len(),
{
    if s.len() > 0 {
        let init = s.drop_last();
        assert forall|i: int| 0 <= i < init.len() implies !json_escaped_char(#[trigger] init[i]) by {
            assert(init[i] == s[i]);
        }
        lemma_plain_text_is_not_escaped(init);
        assert(!json_escaped_char(s[s.len() - 1]));
        assert(init.push(s.last()) =~= s);
    }
}

/// Calls `serde_json::to_string` on a string slice.
///
/// Claimed of it: it succeeds (it writes into a `Vec<u8>`, whose writes do
/// not fail, and serialising a `str` has no other error), and its text is the
/// JSON string literal of the slice: a quote, each character as `json_char`
/// writes it (the escapes of its `ESCAPE` table and `write_char_escape`), and
/// a quote.
#[verifier::external_body]
fn json_string(s: &str) -> (r: Result<String, serde_json::Error>)
    ensures
        r is Ok,
        r matches Ok(v) ==> v@ == json_string_literal(s@),
{
    serde_json::to_string(s)
}

/// The JSON text of a server message: an object with the fields
/// `message_type` and `content`, in that order.
pub open spec fn server_message_json(t: MessageType, content: Seq<char>) -> Seq<char> {
    "{\"message_type\":\""@ + message_type_name(t) + "\",\"content\":"@ + json_string_literal(
        content,
    ) + "}"@
}

/// Serialises a server message to JSON.
pub fn to_server_message_json(message_type: MessageType, content: String) -> (json: String)
    ensures
        json@ == server_message_json(message_type, content@),
        (forall|i: int| 0 <= i < content@.len() ==> !json_escaped_char(#[trigger] content@[i]))
            ==> json@ == "{\"message_type\":\""@ + message_type_name(message_type)
            + "\",\"content\":"@ + seq!['"'] + content@ + seq!['"'] + "}"@,
{
    proof {
        if forall|i: int| 0 <= i < content@.len() ==> !json_escaped_char(#[trigger] content@[i]) {
            lemma_plain_text_is_not_escaped(content@);
        }
    }
    let literal = match json_string(content.as_str()) {
        Ok(v) => v,
        Err(_) => String::new(),
    };
    let mut json = String::from_str("{\"message_type\":\"");
    json.append(message_type.name());
    json.append("\",\"content\":");
    json.append(literal.as_str());
    json.append("}");
    json
}

} // verus!
