use grammar2d::input::{Key, KeyCodeExt};

#[test]
fn letters_and_digits_without_shift() {
    assert_eq!(KeyCodeExt(Key::Letter(0)).to_qwerty_char_without_shift(), Some('a'));
    assert_eq!(KeyCodeExt(Key::Letter(25)).to_qwerty_char_without_shift(), Some('z'));
    assert_eq!(KeyCodeExt(Key::Digit(7)).to_qwerty_char_without_shift(), Some('7'));
    assert_eq!(KeyCodeExt(Key::Numpad(3)).to_qwerty_char_without_shift(), Some('3'));
    assert_eq!(KeyCodeExt(Key::Letter(26)).to_qwerty_char_without_shift(), None);
}

#[test]
fn letters_and_digits_with_shift() {
    assert_eq!(KeyCodeExt(Key::Letter(19)).to_qwerty_char_with_shift(), Some('T'));
    assert_eq!(KeyCodeExt(Key::Digit(1)).to_qwerty_char_with_shift(), Some('!'));
    assert_eq!(KeyCodeExt(Key::Digit(0)).to_qwerty_char_with_shift(), Some(')'));
    assert_eq!(KeyCodeExt(Key::Numpad(3)).to_qwerty_char_with_shift(), None);
    assert_eq!(KeyCodeExt(Key::Digit(10)).to_qwerty_char_with_shift(), None);
}

#[test]
fn punctuation_with_and_without_shift() {
    assert_eq!(KeyCodeExt(Key::Period).to_qwerty_char(false), Some('.'));
    assert_eq!(KeyCodeExt(Key::Period).to_qwerty_char(true), Some('>'));
    assert_eq!(KeyCodeExt(Key::Equal).to_qwerty_char(true), Some('+'));
    assert_eq!(KeyCodeExt(Key::Quote).to_qwerty_char(false), Some('\''));
    assert_eq!(KeyCodeExt(Key::NumpadDecimal).to_qwerty_char(true), None);
    assert_eq!(KeyCodeExt(Key::Space).to_qwerty_char(true), Some(' '));
    assert_eq!(KeyCodeExt(Key::Other).to_qwerty_char(false), None);
}
