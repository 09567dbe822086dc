//! From the key codes and characters of macOS to the engine's input keys.
use vstd::prelude::*;

verus! {

/// The input key of a character: letters and digits are their upper-case ASCII
/// code, the blank is 32.
pub open spec fn key_of_char(c: char) -> Option<int> {
    if 'A' <= c <= 'Z' || '0' <= c <= '9' {
        Some(c as int)
    } else if 'a' <= c <= 'z' {
        Some(c as int - 32)
    } else if c == ' ' {
        Some(32)
    } else {
        None
    }
}

/// The input key of a hardware key code; zero where it is not known.
pub open spec fn key_of_code(kc: int) -> int {
    if kc == 123 {
        37
    } else if kc == 126 {
        38
    } else if kc == 124 {
        39
    } else if kc == 125 {
        40
    } else if kc == 36 {
        13
    } else if kc == 48 {
        9
    } else if kc == 51 {
        8
    } else if kc == 53 {
        27
    } else if kc == 49 {
        32
    } else if kc == 122 {
        112
    } else if kc == 120 {
        113
    } else if kc == 99 {
        114
    } else if kc == 118 {
        115
    } else {
        0
    }
}

/// The character decides where it is a letter, a digit or a blank; otherwise
/// the key code does: arrows, return, tab, delete, escape, space and F1 to F4.
pub fn map_macos_keycode_to_einputkey(kc: i32, ch: Option<char>) -> (r: i32)
    ensures
        r == (match ch {
            Some(c) => match key_of_char(c) {
                Some(k) => k,
                None => key_of_code(kc as int),
            },
            None => key_of_code(kc as int),
        }),
{
    if let Some(c) = ch {
        if ('A' <= c && c <= 'Z') || ('0' <= c && c <= '9') {
            return c as i32;
        }
        if 'a' <= c && c <= 'z' {
            return c as i32 - 32;
        }
        if c == ' ' {
            return 32;
        }
    }
    match kc {
        123 => 37,
        126 => 38,
        124 => 39,
        125 => 40,
        36 => 13,
        48 => 9,
        51 => 8,
        53 => 27,
        49 => 32,
        122 => 112,
        120 => 113,
        99 => 114,
        118 => 115,
        _ => 0,
    }
}

/// A letter gives the same key whether it was typed small or capital.
pub proof fn letter_case_does_not_matter(small: char, capital: char)
    requires
        'a' <= small <= 'z',
        capital as int == small as int - 32,
    ensures
        key_of_char(small) == key_of_char(capital),
{
}

} // verus!
