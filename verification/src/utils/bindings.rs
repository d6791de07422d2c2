//! The names of the keys that commands are bound to.

use vstd::prelude::*;
use vstd::string::StringExecFns;

verus! {

/// A key of the keyboard.
#[derive(Debug, Clone, Copy, PartialEq, Eq, Structural)]
pub enum Key {
    Left,
    Right,
    Up,
    Down,
    Home,
    /// A function key, by its number.
    F(u8),
    /// The key of a character.
    Char(char),
    /// The key of a character, with Alt held.
    Alt(char),
    /// The key of a character, with Ctrl held.
    Ctrl(char),
    Esc,
    /// Any other key.
    Other,
}

/// The name of function key `number`, for the twelve that exist.
pub open spec fn function_key_name(number: u8) -> Seq<char> {
    if number == 1 {
        "F1"@
    } else if number == 2 {
        "F2"@
    } else if number == 3 {
        "F3"@
    } else if number == 4 {
        "F4"@
    } else if number == 5 {
        "F5"@
    } else if number == 6 {
        "F6"@
    } else if number == 7 {
        "F7"@
    } else if number == 8 {
        "F8"@
    } else if number == 9 {
        "F9"@
    } else if number == 10 {
        "F10"@
    } else if number == 11 {
        "F11"@
    } else {
        "F12"@
    }
}

impl Key {
    /// Whether the key has a name: the function keys beyond the twelfth and
    /// the keys that are not told apart have none.
    pub open spec fn has_name(self) -> bool {
        match self {
            Key::F(number) => 1 <= number <= 12,
            Key::Other => false,
            _ => true,
        }
    }

    /// The name of the key.
    pub open spec fn name(self) -> Seq<char> {
        match self {
            Key::Left => "Left arrow"@,
            Key::Right => "Right arrow"@,
            Key::Up => "Up arrow"@,
            Key::Down => "Down arrow"@,
            Key::Home => "Home"@,
            Key::F(number) => function_key_name(number),
            Key::Char(value) => if value == ' ' {
                "Space"@
            } else {
                seq![value]
            },
            Key::Alt(value) => "alt-"@ + seq![value],
            Key::Ctrl(value) => "ctl-"@ + seq![value],
            Key::Esc => "Esc"@,
            Key::Other => Seq::empty(),
        }
    }
}

/// The string of one character: `char::to_string` of the standard library,
/// which writes the character and nothing else.
#[verifier::external_body]
fn char_to_string(value: char) -> (text: String)
    ensures
        text@ == seq![value],
{
    value.to_string()
}

/// The name of a function key.
fn function_key_to_string(number: u8) -> (name: String)
    requires
        1 <= number <= 12,
    ensures
        name@ == function_key_name(number),
{
    let name = if number == 1 {
        "F1"
    } else if number == 2 {
        "F2"
    } else if number == 3 {
        "F3"
    } else if number == 4 {
        "F4"
    } else if number == 5 {
        "F5"
    } else if number == 6 {
        "F6"
    } else if number == 7 {
        "F7"
    } else if number == 8 {
        "F8"
    } else if number == 9 {
        "F9"
    } else if number == 10 {
        "F10"
    } else if number == 11 {
        "F11"
    } else {
        "F12"
    };
    String::from_str(name)
}

/// The name of a key, as the help shows it.
pub fn key_to_string(key: &Key) -> (name: String)
    requires
        key.has_name(),
    ensures
        name@ == key.name(),
{
    match key {
        Key::Left => String::from_str("Left arrow"),
        Key::Right => String::from_str("Right arrow"),
        Key::Up => String::from_str("Up arrow"),
        Key::Down => String::from_str("Down arrow"),
        Key::Home => String::from_str("Home"),
        Key::F(value) => function_key_to_string(*value),
        Key::Char(value) => {
            if *value == ' ' {
                String::from_str("Space")
            } else {
                char_to_string(*value)
            }
        },
        Key::Alt(value) => {
            let mut name = String::from_str("alt-");
            name.append(char_to_string(*value).as_str());
            name
        },
        Key::Ctrl(value) => {
            let mut name = String::from_str("ctl-");
            name.append(char_to_string(*value).as_str());
            name
        },
        Key::Esc => String::from_str("Esc"),
        Key::Other => String::from_str(""),
    }
}

} // verus!
