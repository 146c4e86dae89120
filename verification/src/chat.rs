//! A chat room: names, the lines that the room sends, and the lines that it
//! accepts.

use vstd::prelude::*;
use vstd::string::StringExecFns;
use crate::message::option_view;
use crate::text::{all_ascii, ascii_chars, is_all_ascii, joined_with, string_from_ascii};

verus! {

/// The byte that ends a line.
pub const EOM: u8 = 0x0a;

/// A line for the room, with the name of the user that it comes from.
#[derive(Debug, Clone, PartialEq, Eq)]
pub struct Message {
    pub name: String,
    pub value: String,
}

/// The mathematical value of a [`Message`].
pub struct MessageView {
    pub name: Seq<char>,
    pub value: Seq<char>,
}

impl View for Message {
    type V = MessageView;

    open spec fn view(&self) -> MessageView {
        MessageView { name: self.name@, value: self.value@ }
    }
}

/// The names, with a comma and a space between each two.
pub open spec fn joined(names: Seq<Seq<char>>) -> Seq<char> {
    joined_with(names, ", "@)
}

/// The texts of a list of strings.
pub open spec fn texts(names: Seq<String>) -> Seq<Seq<char>> {
    names.map_values(|name: String| name@)
}

/// True for the bytes of the ASCII letters and digits.
pub open spec fn is_alphanumeric_byte(byte: u8) -> bool {
    (0x30 <= byte <= 0x39) || (0x41 <= byte <= 0x5a) || (0x61 <= byte <= 0x7a)
}

/// True for a name that a user may take: at least one character, ASCII
/// letters and digits only.
pub open spec fn is_name(bytes: Seq<u8>) -> bool {
    bytes.len() > 0 && forall|i: int| 0 <= i < bytes.len() ==> is_alphanumeric_byte(#[trigger] bytes[i])
}

/// True for a line that the room passes on: at least one character, ASCII
/// only.
pub open spec fn is_chat_line(bytes: Seq<u8>) -> bool {
    bytes.len() > 0 && all_ascii(bytes)
}

/// The line that greets a new connection.
pub fn build_welcome_msg() -> (msg: String)
    ensures
        msg@ == "Welcome to budgetchat! What shall I call you?"@,
{
    "Welcome to budgetchat! What shall I call you?".to_owned()
}

/// The line that tells a new user who is in the room.
pub fn build_log_in_msg(logged_names: &Vec<String>) -> (msg: String)
    ensures
        msg@ == "* The room contains: "@ + joined(texts(logged_names@)),
{
    let mut msg = "* The room contains: ".to_owned();
    let mut i: usize = 0;
    let ghost names = texts(logged_names@);
    while i < logged_names.len()
        invariant
            i <= logged_names.len(),
            names == texts(logged_names@),
            msg@ == "* The room contains: "@ + joined(names.take(i as int)),
        decreases logged_names.len() - i,
    {
        assert(names.take(i + 1).drop_last() =~= names.take(i as int));
        if i > 0 {
            msg.append(", ");
        }
        msg.append(logged_names[i].as_str());
        i += 1;
    }
    assert(names.take(names.len() as int) =~= names);
    msg
}

/// The line that tells the room of a new user.
pub fn build_new_user_msg(name: &str) -> (msg: Message)
    ensures
        msg@ == (MessageView { name: name@, value: "* "@ + name@ + " has entered the room"@ }),
{
    let mut value = "* ".to_owned();
    value.append(name);
    value.append(" has entered the room");
    Message { name: name.to_owned(), value }
}

/// The line that tells the room that a user has left.
pub fn build_log_out_msg(name: &str) -> (msg: Message)
    ensures
        msg@ == (MessageView { name: name@, value: "* "@ + name@ + " has left the room"@ }),
{
    let mut value = "* ".to_owned();
    value.append(name);
    value.append(" has left the room");
    Message { name: name.to_owned(), value }
}

/// Makes a line of a user into a line for the room. A line that is empty or
/// not ASCII is dropped.
pub fn parse_chat_msg(bytes: Vec<u8>, name: &str) -> (msg: Option<Message>)
    ensures
        option_view(msg) == if is_chat_line(bytes@) {
            Some(MessageView { name: name@, value: "["@ + name@ + "] "@ + ascii_chars(bytes@) })
        } else {
            None
        },
{
    if bytes.len() == 0 {
        return None;
    }
    if !is_all_ascii(&bytes) {
        return None;
    }
    let text = string_from_ascii(bytes);
    let mut value = "[".to_owned();
    value.append(name);
    value.append("] ");
    value.append(text.as_str());
    Some(Message { name: name.to_owned(), value })
}

/// Tells whether a byte is an ASCII letter or digit.
pub fn is_alphanumeric(byte: u8) -> (alphanumeric: bool)
    ensures
        alphanumeric == is_alphanumeric_byte(byte),
{
    (0x30 <= byte && byte <= 0x39) || (0x41 <= byte && byte <= 0x5a) || (0x61 <= byte && byte
        <= 0x7a)
}

/// Reads the name that a user asks for. There is none where the bytes are
/// empty or hold anything but ASCII letters and digits.
pub fn parse_name(bytes: Vec<u8>) -> (name: Option<String>)
    ensures
        option_view(name) == if is_name(bytes@) {
            Some(ascii_chars(bytes@))
        } else {
            None
        },
{
    if bytes.len() == 0 {
        return None;
    }
    let mut i: usize = 0;
    while i < bytes.len()
        invariant
            i <= bytes.len(),
            forall|k: int| 0 <= k < i ==> is_alphanumeric_byte(#[trigger] bytes@[k]),
        decreases bytes.len() - i,
    {
        if !is_alphanumeric(bytes[i]) {
            return None;
        }
        i += 1;
    }
    assert(all_ascii(bytes@)) by {
        assert forall|k: int| 0 <= k < bytes@.len() implies #[trigger] bytes@[k] < 128 by {
            assert(is_alphanumeric_byte(bytes@[k]));
        }
    }
    Some(string_from_ascii(bytes))
}

impl Message {
    /// Tells whether the line comes from the user `name`, who is then not
    /// sent it.
    pub fn is_from(&self, name: &str) -> (own: bool)
        ensures
            own == (self@.name == name@),
    {
        let other = name.to_owned();
        self.name == other
    }
}

/// The names that differ from `name`.
pub open spec fn other_than(name: Seq<char>) -> spec_fn(Seq<char>) -> bool {
    |other: Seq<char>| other != name
}

/// The names without `name`, in their order.
pub open spec fn without(names: Seq<Seq<char>>, name: Seq<char>) -> Seq<Seq<char>> {
    names.filter(other_than(name))
}

/// Names that are all different stay so when one is taken out.
pub proof fn lemma_without_keeps_names_apart(names: Seq<Seq<char>>, name: Seq<char>)
    requires
        names.no_duplicates(),
    ensures
        without(names, name).no_duplicates(),
        !without(names, name).contains(name),
    decreases names.len(),
{
    reveal(Seq::filter);
    let rest = without(names, name);
    if names.len() > 0 {
        let head = names.drop_last();
        lemma_without_keeps_names_apart(head, name);
        let kept = without(head, name);
        if names.last() != name {
            if kept.contains(names.last()) {
                head.lemma_filter_contains_rev(other_than(name), names.last());
            }
            assert(rest == kept.push(names.last()));
        }
    }
}

/// The users in a chat room, in the order in which they came.
pub struct Room {
    names: Vec<String>,
}

impl View for Room {
    type V = Seq<Seq<char>>;

    closed spec fn view(&self) -> Seq<Seq<char>> {
        texts(self.names@)
    }
}

impl Room {
    /// No name is taken twice.
    pub open spec fn wf(&self) -> bool {
        self@.no_duplicates()
    }

    /// An empty room.
    pub fn new() -> (room: Room)
        ensures
            room.wf(),
            room@ == Seq::<Seq<char>>::empty(),
    {
        Room { names: Vec::new() }
    }

    /// Tells whether a user of that name is in the room.
    pub fn contains(&self, name: &str) -> (taken: bool)
        ensures
            taken == self@.contains(name@),
    {
        let wanted = name.to_owned();
        let mut i: usize = 0;
        while i < self.names.len()
            invariant
                i <= self.names.len(),
                wanted@ == name@,
                forall|k: int| 0 <= k < i ==> self@[k] != name@,
            decreases self.names.len() - i,
        {
            assert(self@[i as int] == self.names@[i as int]@);
            if self.names[i] == wanted {
                return true;
            }
            i += 1;
        }
        false
    }

    /// Lets a user into the room, unless the name is taken. The user is
    /// answered with the line that lists who was in the room before.
    pub fn log_in(&mut self, name: &str) -> (msg: Option<String>)
        requires
            old(self).wf(),
        ensures
            final(self).wf(),
            old(self)@.contains(name@) ==> msg is None && final(self)@ == old(self)@,
            !old(self)@.contains(name@) ==> msg is Some && msg->0@ == "* The room contains: "@
                + joined(old(self)@) && final(self)@ == old(self)@.push(name@),
    {
        if self.contains(name) {
            return None;
        }
        let msg = build_log_in_msg(&self.names);
        let ghost before = self@;
        self.names.push(name.to_owned());
        assert(self@ =~= before.push(name@));
        Some(msg)
    }

    /// Takes a user out of the room.
    pub fn log_out(&mut self, name: &str)
        requires
            old(self).wf(),
        ensures
            final(self).wf(),
            final(self)@ == without(old(self)@, name@),
            !final(self)@.contains(name@),
    {
        let ghost before = self@;
        let ghost keep = other_than(name@);
        let mut kept: Vec<String> = Vec::new();
        let gone = name.to_owned();
        let mut i: usize = 0;
        while i < self.names.len()
            invariant
                i <= self.names.len(),
                self@ == before,
                gone@ == name@,
                keep == other_than(name@),
                texts(kept@) == before.take(i as int).filter(keep),
            decreases self.names.len() - i,
        {
            proof {
                reveal(Seq::filter);
                assert(before.take(i + 1).drop_last() =~= before.take(i as int));
            }
            if self.names[i] != gone {
                kept.push(self.names[i].clone());
            }
            i += 1;
        }
        assert(before.take(before.len() as int) =~= before);
        self.names = kept;
        proof {
            lemma_without_keeps_names_apart(before, name@);
        }
    }
}

} // verus!
