use vstd::prelude::*;

verus! {

/// A key of a QWERTY keyboard, as far as the driver reads characters from it: letters,
/// digits and keypad digits by their index (`a` and `0` being 0), the punctuation keys, and
/// every other key as `Other`.
#[derive(Clone, Copy, Debug, PartialEq, Eq, Hash)]
pub enum Key {
    Letter(u8),
    Digit(u8),
    Numpad(u8),
    NumpadAdd,
    NumpadDecimal,
    NumpadDivide,
    Quote,
    Backslash,
    Comma,
    Equal,
    Backquote,
    BracketLeft,
    Minus,
    Period,
    BracketRight,
    Semicolon,
    Slash,
    Tab,
    Space,
    Other,
}

pub open spec fn lower_letters() -> Seq<char> {
    seq![
        'a', 'b', 'c', 'd', 'e', 'f', 'g', 'h', 'i', 'j', 'k', 'l', 'm', 'n', 'o', 'p', 'q', 'r',
        's', 't', 'u', 'v', 'w', 'x', 'y', 'z',
    ]
}

pub open spec fn upper_letters() -> Seq<char> {
    seq![
        'A', 'B', 'C', 'D', 'E', 'F', 'G', 'H', 'I', 'J', 'K', 'L', 'M', 'N', 'O', 'P', 'Q', 'R',
        'S', 'T', 'U', 'V', 'W', 'X', 'Y', 'Z',
    ]
}

pub open spec fn digit_chars() -> Seq<char> {
    seq!['0', '1', '2', '3', '4', '5', '6', '7', '8', '9']
}

/// What shift gives on the digit row, from `0` to `9`.
pub open spec fn shifted_digits() -> Seq<char> {
    seq![')', '!', '@', '#', '$', '%', '^', '&', '*', '(']
}

/// The character a key types without shift.
pub open spec fn plain_char(k: Key) -> Option<char> {
    match k {
        Key::Letter(i) => if i < 26 { Some(lower_letters()[i as int]) } else { None },
        Key::Digit(d) => if d < 10 { Some(digit_chars()[d as int]) } else { None },
        Key::Numpad(d) => if d < 10 { Some(digit_chars()[d as int]) } else { None },
        Key::NumpadAdd => Some('+'),
        Key::NumpadDecimal => Some('.'),
        Key::NumpadDivide => Some('/'),
        Key::Quote => Some('\''),
        Key::Backslash => Some('\\'),
        Key::Comma => Some(','),
        Key::Equal => Some('='),
        Key::Backquote => Some('`'),
        Key::BracketLeft => Some('['),
        Key::Minus => Some('-'),
        Key::Period => Some('.'),
        Key::BracketRight => Some(']'),
        Key::Semicolon => Some(';'),
        Key::Slash => Some('/'),
        Key::Tab => Some('\t'),
        Key::Space => Some(' '),
        Key::Other => None,
    }
}

/// The character a key types with shift; keypad digits and the keypad point type none.
pub open spec fn shifted_char(k: Key) -> Option<char> {
    match k {
        Key::Letter(i) => if i < 26 { Some(upper_letters()[i as int]) } else { None },
        Key::Digit(d) => if d < 10 { Some(shifted_digits()[d as int]) } else { None },
        Key::Numpad(_) => None,
        Key::NumpadAdd => Some('+'),
        Key::NumpadDecimal => None,
        Key::NumpadDivide => Some('/'),
        Key::Quote => Some('"'),
        Key::Backslash => Some('|'),
        Key::Comma => Some('<'),
        Key::Equal => Some('+'),
        Key::Backquote => Some('~'),
        Key::BracketLeft => Some('{'),
        Key::Minus => Some('_'),
        Key::Period => Some('>'),
        Key::BracketRight => Some('}'),
        Key::Semicolon => Some(':'),
        Key::Slash => Some('?'),
        Key::Tab => Some('\t'),
        Key::Space => Some(' '),
        Key::Other => None,
    }
}

fn table_char(table: &Vec<char>, i: u8) -> (r: Option<char>)
    ensures
        r == (if (i as int) < table@.len() { Some(table@[i as int]) } else { None }),
{
    if (i as usize) < table.len() {
        Some(table[i as usize])
    } else {
        None
    }
}

/// A key, read for the character it types.
pub struct KeyCodeExt(pub Key);

impl KeyCodeExt {
    /// The character typed with or without shift.
    pub fn to_qwerty_char(self, shift_down: bool) -> (r: Option<char>)
        ensures
            r == (if shift_down { shifted_char(self.0) } else { plain_char(self.0) }),
    {
        if shift_down {
            self.to_qwerty_char_with_shift()
        } else {
            self.to_qwerty_char_without_shift()
        }
    }

    /// The character typed without shift.
    pub fn to_qwerty_char_without_shift(self) -> (r: Option<char>)
        ensures
            r == plain_char(self.0),
    {
        match self.0 {
            Key::Letter(i) => {
                let t = vec![
                    'a', 'b', 'c', 'd', 'e', 'f', 'g', 'h', 'i', 'j', 'k', 'l', 'm', 'n', 'o',
                    'p', 'q', 'r', 's', 't', 'u', 'v', 'w', 'x', 'y', 'z',
                ];
                assert(t@ =~= lower_letters());
                table_char(&t, i)
            },
            Key::Digit(d) | Key::Numpad(d) => {
                let t = vec!['0', '1', '2', '3', '4', '5', '6', '7', '8', '9'];
                assert(t@ =~= digit_chars());
                table_char(&t, d)
            },
            Key::NumpadAdd => Some('+'),
            Key::NumpadDecimal => Some('.'),
            Key::NumpadDivide => Some('/'),
            Key::Quote => Some('\''),
            Key::Backslash => Some('\\'),
            Key::Comma => Some(','),
            Key::Equal => Some('='),
            Key::Backquote => Some('`'),
            Key::BracketLeft => Some('['),
            Key::Minus => Some('-'),
            Key::Period => Some('.'),
            Key::BracketRight => Some(']'),
            Key::Semicolon => Some(';'),
            Key::Slash => Some('/'),
            Key::Tab => Some('\t'),
            Key::Space => Some(' '),
            Key::Other => None,
        }
    }

    /// The character typed with shift.
    pub fn to_qwerty_char_with_shift(self) -> (r: Option<char>)
        ensures
            r == shifted_char(self.0),
    {
        match self.0 {
            Key::Letter(i) => {
                let t = vec![
                    'A', 'B', 'C', 'D', 'E', 'F', 'G', 'H', 'I', 'J', 'K', 'L', 'M', 'N', 'O',
                    'P', 'Q', 'R', 'S', 'T', 'U', 'V', 'W', 'X', 'Y', 'Z',
                ];
                assert(t@ =~= upper_letters());
                table_char(&t, i)
            },
            Key::Digit(d) => {
                let t = vec![')', '!', '@', '#', '$', '%', '^', '&', '*', '('];
                assert(t@ =~= shifted_digits());
                table_char(&t, d)
            },
            Key::Numpad(_) => None,
            Key::NumpadAdd => Some('+'),
            Key::NumpadDecimal => None,
            Key::NumpadDivide => Some('/'),
            Key::Quote => Some('"'),
            Key::Backslash => Some('|'),
            Key::Comma => Some('<'),
            Key::Equal => Some('+'),
            Key::Backquote => Some('~'),
            Key::BracketLeft => Some('{'),
            Key::Minus => Some('_'),
            Key::Period => Some('>'),
            Key::BracketRight => Some('}'),
            Key::Semicolon => Some(':'),
            Key::Slash => Some('?'),
            Key::Tab => Some('\t'),
            Key::Space => Some(' '),
            Key::Other => None,
        }
    }
}

} // verus!
