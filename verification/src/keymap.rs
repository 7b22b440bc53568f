//! Mapping layout characters to evdev keys: the built-in US table, and the
//! table read from the system's XKB keymap for other layouts.
use crate::text::{seq_starts_with, str_eq, str_starts_with};
use crate::tokens::{
    find_char_spec, find_spec, lemma_find_from_found, lines_spec, split_spec, str_find,
    str_find_char, str_lines, str_split_char, str_trim, trim_spec, views,
};
use crate::uinput::{spec_xkb_sym_to_char, xkb_sym_to_char};
use vstd::prelude::*;

verus! {

/// The evdev key and Shift state that type a character on a US layout.
pub open spec fn us_layout_key_spec(c: char) -> Option<(u16, bool)> {
    match c {
        'a' => Some((30u16, false)),
        'b' => Some((48u16, false)),
        'c' => Some((46u16, false)),
        'd' => Some((32u16, false)),
        'e' => Some((18u16, false)),
        'f' => Some((33u16, false)),
        'g' => Some((34u16, false)),
        'h' => Some((35u16, false)),
        'i' => Some((23u16, false)),
        'j' => Some((36u16, false)),
        'k' => Some((37u16, false)),
        'l' => Some((38u16, false)),
        'm' => Some((50u16, false)),
        'n' => Some((49u16, false)),
        'o' => Some((24u16, false)),
        'p' => Some((25u16, false)),
        'q' => Some((16u16, false)),
        'r' => Some((19u16, false)),
        's' => Some((31u16, false)),
        't' => Some((20u16, false)),
        'u' => Some((22u16, false)),
        'v' => Some((47u16, false)),
        'w' => Some((17u16, false)),
        'x' => Some((45u16, false)),
        'y' => Some((21u16, false)),
        'z' => Some((44u16, false)),
        '0' => Some((11u16, false)),
        '1' => Some((2u16, false)),
        '2' => Some((3u16, false)),
        '3' => Some((4u16, false)),
        '4' => Some((5u16, false)),
        '5' => Some((6u16, false)),
        '6' => Some((7u16, false)),
        '7' => Some((8u16, false)),
        '8' => Some((9u16, false)),
        '9' => Some((10u16, false)),
        '`' => Some((41u16, false)),
        '-' => Some((12u16, false)),
        '=' => Some((13u16, false)),
        '[' => Some((26u16, false)),
        ']' => Some((27u16, false)),
        '\\' => Some((43u16, false)),
        ',' => Some((51u16, false)),
        '.' => Some((52u16, false)),
        '/' => Some((53u16, false)),
        ';' => Some((39u16, false)),
        '\'' => Some((40u16, false)),
        'A' => Some((30u16, true)),
        'B' => Some((48u16, true)),
        'C' => Some((46u16, true)),
        'D' => Some((32u16, true)),
        'E' => Some((18u16, true)),
        'F' => Some((33u16, true)),
        'G' => Some((34u16, true)),
        'H' => Some((35u16, true)),
        'I' => Some((23u16, true)),
        'J' => Some((36u16, true)),
        'K' => Some((37u16, true)),
        'L' => Some((38u16, true)),
        'M' => Some((50u16, true)),
        'N' => Some((49u16, true)),
        'O' => Some((24u16, true)),
        'P' => Some((25u16, true)),
        'Q' => Some((16u16, true)),
        'R' => Some((19u16, true)),
        'S' => Some((31u16, true)),
        'T' => Some((20u16, true)),
        'U' => Some((22u16, true)),
        'V' => Some((47u16, true)),
        'W' => Some((17u16, true)),
        'X' => Some((45u16, true)),
        'Y' => Some((21u16, true)),
        'Z' => Some((44u16, true)),
        ')' => Some((11u16, true)),
        '!' => Some((2u16, true)),
        '@' => Some((3u16, true)),
        '#' => Some((4u16, true)),
        '$' => Some((5u16, true)),
        '%' => Some((6u16, true)),
        '^' => Some((7u16, true)),
        '&' => Some((8u16, true)),
        '*' => Some((9u16, true)),
        '(' => Some((10u16, true)),
        '~' => Some((41u16, true)),
        '_' => Some((12u16, true)),
        '+' => Some((13u16, true)),
        '{' => Some((26u16, true)),
        '}' => Some((27u16, true)),
        '|' => Some((43u16, true)),
        '<' => Some((51u16, true)),
        '>' => Some((52u16, true)),
        '?' => Some((53u16, true)),
        ':' => Some((39u16, true)),
        '"' => Some((40u16, true)),
        _ => None,
    }
}

/// The character a US layout types with evdev key `code`, with Shift when
/// `shift`.
spec fn us_char_of(code: u16, shift: bool) -> Option<char> {
    match (code, shift) {
        (30, false) => Some('a'),
        (48, false) => Some('b'),
        (46, false) => Some('c'),
        (32, false) => Some('d'),
        (18, false) => Some('e'),
        (33, false) => Some('f'),
        (34, false) => Some('g'),
        (35, false) => Some('h'),
        (23, false) => Some('i'),
        (36, false) => Some('j'),
        (37, false) => Some('k'),
        (38, false) => Some('l'),
        (50, false) => Some('m'),
        (49, false) => Some('n'),
        (24, false) => Some('o'),
        (25, false) => Some('p'),
        (16, false) => Some('q'),
        (19, false) => Some('r'),
        (31, false) => Some('s'),
        (20, false) => Some('t'),
        (22, false) => Some('u'),
        (47, false) => Some('v'),
        (17, false) => Some('w'),
        (45, false) => Some('x'),
        (21, false) => Some('y'),
        (44, false) => Some('z'),
        (11, false) => Some('0'),
        (2, false) => Some('1'),
        (3, false) => Some('2'),
        (4, false) => Some('3'),
        (5, false) => Some('4'),
        (6, false) => Some('5'),
        (7, false) => Some('6'),
        (8, false) => Some('7'),
        (9, false) => Some('8'),
        (10, false) => Some('9'),
        (41, false) => Some('`'),
        (12, false) => Some('-'),
        (13, false) => Some('='),
        (26, false) => Some('['),
        (27, false) => Some(']'),
        (43, false) => Some('\\'),
        (51, false) => Some(','),
        (52, false) => Some('.'),
        (53, false) => Some('/'),
        (39, false) => Some(';'),
        (40, false) => Some('\''),
        (30, true) => Some('A'),
        (48, true) => Some('B'),
        (46, true) => Some('C'),
        (32, true) => Some('D'),
        (18, true) => Some('E'),
        (33, true) => Some('F'),
        (34, true) => Some('G'),
        (35, true) => Some('H'),
        (23, true) => Some('I'),
        (36, true) => Some('J'),
        (37, true) => Some('K'),
        (38, true) => Some('L'),
        (50, true) => Some('M'),
        (49, true) => Some('N'),
        (24, true) => Some('O'),
        (25, true) => Some('P'),
        (16, true) => Some('Q'),
        (19, true) => Some('R'),
        (31, true) => Some('S'),
        (20, true) => Some('T'),
        (22, true) => Some('U'),
        (47, true) => Some('V'),
        (17, true) => Some('W'),
        (45, true) => Some('X'),
        (21, true) => Some('Y'),
        (44, true) => Some('Z'),
        (11, true) => Some(')'),
        (2, true) => Some('!'),
        (3, true) => Some('@'),
        (4, true) => Some('#'),
        (5, true) => Some('$'),
        (6, true) => Some('%'),
        (7, true) => Some('^'),
        (8, true) => Some('&'),
        (9, true) => Some('*'),
        (10, true) => Some('('),
        (41, true) => Some('~'),
        (12, true) => Some('_'),
        (13, true) => Some('+'),
        (26, true) => Some('{'),
        (27, true) => Some('}'),
        (43, true) => Some('|'),
        (51, true) => Some('<'),
        (52, true) => Some('>'),
        (53, true) => Some('?'),
        (39, true) => Some(':'),
        (40, true) => Some('"'),
        _ => None,
    }
}

/// The US table types each character with its own key and Shift state:
/// two different characters never share a key and Shift state.
pub proof fn lemma_us_layout_injective(c1: char, c2: char)
    requires
        us_layout_key_spec(c1) is Some,
        us_layout_key_spec(c1) == us_layout_key_spec(c2),
    ensures
        c1 == c2,
{
    lemma_us_char_of(c1);
    lemma_us_char_of(c2);
}

proof fn lemma_us_char_of(c: char)
    ensures
        us_layout_key_spec(c) matches Some(k) ==> us_char_of(k.0, k.1) == Some(c),
{
}

/// Each letter is typed with the kernel's key for it on a QWERTY keyboard:
/// the letters of the top row `qwertyuiop` are codes 16 to 25, of the home
/// row `asdfghjkl` codes 30 to 38 and of the bottom row `zxcvbnm` codes 44 to
/// 50, in order; a lowercase letter without Shift, its capital with it.
pub proof fn lemma_us_layout_letters()
    ensures
        forall|i: int| 0 <= i < 10 ==> us_layout_key_spec(#[trigger] "qwertyuiop"@[i]) == Some(((16 + i) as u16, false))
            && us_layout_key_spec("QWERTYUIOP"@[i]) == Some(((16 + i) as u16, true)),
        forall|i: int| 0 <= i < 9 ==> us_layout_key_spec(#[trigger] "asdfghjkl"@[i]) == Some(((30 + i) as u16, false))
            && us_layout_key_spec("ASDFGHJKL"@[i]) == Some(((30 + i) as u16, true)),
        forall|i: int| 0 <= i < 7 ==> us_layout_key_spec(#[trigger] "zxcvbnm"@[i]) == Some(((44 + i) as u16, false))
            && us_layout_key_spec("ZXCVBNM"@[i]) == Some(((44 + i) as u16, true)),
{
    reveal_strlit("qwertyuiop");
    reveal_strlit("QWERTYUIOP");
    reveal_strlit("asdfghjkl");
    reveal_strlit("ASDFGHJKL");
    reveal_strlit("zxcvbnm");
    reveal_strlit("ZXCVBNM");
    assert forall|i: int| 0 <= i < 10 implies us_layout_key_spec(#[trigger] "qwertyuiop"@[i]) == Some(((16 + i) as u16, false))
        && us_layout_key_spec("QWERTYUIOP"@[i]) == Some(((16 + i) as u16, true)) by {
        assert(i == 0 || i == 1 || i == 2 || i == 3 || i == 4 || i == 5 || i == 6 || i == 7 || i == 8 || i == 9);
    }
    assert forall|i: int| 0 <= i < 9 implies us_layout_key_spec(#[trigger] "asdfghjkl"@[i]) == Some(((30 + i) as u16, false))
        && us_layout_key_spec("ASDFGHJKL"@[i]) == Some(((30 + i) as u16, true)) by {
        assert(i == 0 || i == 1 || i == 2 || i == 3 || i == 4 || i == 5 || i == 6 || i == 7 || i == 8);
    }
    assert forall|i: int| 0 <= i < 7 implies us_layout_key_spec(#[trigger] "zxcvbnm"@[i]) == Some(((44 + i) as u16, false))
        && us_layout_key_spec("ZXCVBNM"@[i]) == Some(((44 + i) as u16, true)) by {
        assert(i == 0 || i == 1 || i == 2 || i == 3 || i == 4 || i == 5 || i == 6);
    }
}

/// The digit row of a US keyboard: `1234567890` are codes 2 to 11, in
/// order, without Shift, and with Shift they type `!@#$%^&*()`.
pub proof fn lemma_us_layout_digit_row()
    ensures
        forall|i: int| 0 <= i < 10 ==> us_layout_key_spec(#[trigger] "1234567890"@[i]) == Some(((2 + i) as u16, false))
            && us_layout_key_spec("!@#$%^&*()"@[i]) == Some(((2 + i) as u16, true)),
{
    reveal_strlit("1234567890");
    reveal_strlit("!@#$%^&*()");
    assert forall|i: int| 0 <= i < 10 implies us_layout_key_spec(#[trigger] "1234567890"@[i]) == Some(((2 + i) as u16, false))
        && us_layout_key_spec("!@#$%^&*()"@[i]) == Some(((2 + i) as u16, true)) by {
        assert(i == 0 || i == 1 || i == 2 || i == 3 || i == 4 || i == 5 || i == 6 || i == 7 || i == 8 || i == 9);
    }
}

/// The evdev key and Shift state that type `c` on a US layout.
pub fn us_layout_key(c: char) -> (r: Option<(u16, bool)>)
    ensures
        r == us_layout_key_spec(c),
{
    match c {
        'a' => Some((30, false)),
        'b' => Some((48, false)),
        'c' => Some((46, false)),
        'd' => Some((32, false)),
        'e' => Some((18, false)),
        'f' => Some((33, false)),
        'g' => Some((34, false)),
        'h' => Some((35, false)),
        'i' => Some((23, false)),
        'j' => Some((36, false)),
        'k' => Some((37, false)),
        'l' => Some((38, false)),
        'm' => Some((50, false)),
        'n' => Some((49, false)),
        'o' => Some((24, false)),
        'p' => Some((25, false)),
        'q' => Some((16, false)),
        'r' => Some((19, false)),
        's' => Some((31, false)),
        't' => Some((20, false)),
        'u' => Some((22, false)),
        'v' => Some((47, false)),
        'w' => Some((17, false)),
        'x' => Some((45, false)),
        'y' => Some((21, false)),
        'z' => Some((44, false)),
        '0' => Some((11, false)),
        '1' => Some((2, false)),
        '2' => Some((3, false)),
        '3' => Some((4, false)),
        '4' => Some((5, false)),
        '5' => Some((6, false)),
        '6' => Some((7, false)),
        '7' => Some((8, false)),
        '8' => Some((9, false)),
        '9' => Some((10, false)),
        '`' => Some((41, false)),
        '-' => Some((12, false)),
        '=' => Some((13, false)),
        '[' => Some((26, false)),
        ']' => Some((27, false)),
        '\\' => Some((43, false)),
        ',' => Some((51, false)),
        '.' => Some((52, false)),
        '/' => Some((53, false)),
        ';' => Some((39, false)),
        '\'' => Some((40, false)),
        'A' => Some((30, true)),
        'B' => Some((48, true)),
        'C' => Some((46, true)),
        'D' => Some((32, true)),
        'E' => Some((18, true)),
        'F' => Some((33, true)),
        'G' => Some((34, true)),
        'H' => Some((35, true)),
        'I' => Some((23, true)),
        'J' => Some((36, true)),
        'K' => Some((37, true)),
        'L' => Some((38, true)),
        'M' => Some((50, true)),
        'N' => Some((49, true)),
        'O' => Some((24, true)),
        'P' => Some((25, true)),
        'Q' => Some((16, true)),
        'R' => Some((19, true)),
        'S' => Some((31, true)),
        'T' => Some((20, true)),
        'U' => Some((22, true)),
        'V' => Some((47, true)),
        'W' => Some((17, true)),
        'X' => Some((45, true)),
        'Y' => Some((21, true)),
        'Z' => Some((44, true)),
        ')' => Some((11, true)),
        '!' => Some((2, true)),
        '@' => Some((3, true)),
        '#' => Some((4, true)),
        '$' => Some((5, true)),
        '%' => Some((6, true)),
        '^' => Some((7, true)),
        '&' => Some((8, true)),
        '*' => Some((9, true)),
        '(' => Some((10, true)),
        '~' => Some((41, true)),
        '_' => Some((12, true)),
        '+' => Some((13, true)),
        '{' => Some((26, true)),
        '}' => Some((27, true)),
        '|' => Some((43, true)),
        '<' => Some((51, true)),
        '>' => Some((52, true)),
        '?' => Some((53, true)),
        ':' => Some((39, true)),
        '"' => Some((40, true)),
        _ => None,
    }
}

/// Number of keys whose symbols are read from the XKB keymap.
pub const XKB_KEY_COUNT: usize = 48;

/// The XKB names of the keys whose symbols depend on the layout, with their
/// evdev key codes.
pub open spec fn xkb_key_table() -> Seq<(Seq<char>, u16)> {
    seq![
        ("TLDE"@, 41u16),
        ("AE01"@, 2u16),
        ("AE02"@, 3u16),
        ("AE03"@, 4u16),
        ("AE04"@, 5u16),
        ("AE05"@, 6u16),
        ("AE06"@, 7u16),
        ("AE07"@, 8u16),
        ("AE08"@, 9u16),
        ("AE09"@, 10u16),
        ("AE10"@, 11u16),
        ("AE11"@, 12u16),
        ("AE12"@, 13u16),
        ("AD01"@, 16u16),
        ("AD02"@, 17u16),
        ("AD03"@, 18u16),
        ("AD04"@, 19u16),
        ("AD05"@, 20u16),
        ("AD06"@, 21u16),
        ("AD07"@, 22u16),
        ("AD08"@, 23u16),
        ("AD09"@, 24u16),
        ("AD10"@, 25u16),
        ("AD11"@, 26u16),
        ("AD12"@, 27u16),
        ("AC01"@, 30u16),
        ("AC02"@, 31u16),
        ("AC03"@, 32u16),
        ("AC04"@, 33u16),
        ("AC05"@, 34u16),
        ("AC06"@, 35u16),
        ("AC07"@, 36u16),
        ("AC08"@, 37u16),
        ("AC09"@, 38u16),
        ("AC10"@, 39u16),
        ("AC11"@, 40u16),
        ("AB01"@, 44u16),
        ("AB02"@, 45u16),
        ("AB03"@, 46u16),
        ("AB04"@, 47u16),
        ("AB05"@, 48u16),
        ("AB06"@, 49u16),
        ("AB07"@, 50u16),
        ("AB08"@, 51u16),
        ("AB09"@, 52u16),
        ("AB10"@, 53u16),
        ("BKSL"@, 43u16),
        ("LSGT"@, 86u16)
    ]
}

/// The value of a two-digit decimal number written `a`, `b`.
pub open spec fn two_digits(a: char, b: char) -> int {
    (a as int - '0' as int) * 10 + (b as int - '0' as int)
}

/// The kernel's evdev code of the key at the XKB key position `name`: in the
/// alphanumeric block `A<row><nn>`, the digits row `E` starts at code 2, row
/// `D` at 16, the home row `C` at 30 and row `B` at 44, counting `nn` from
/// 01; the key left of 1 (`TLDE`) is 41, the backslash key (`BKSL`) 43, and
/// the extra key next to left Shift (`LSGT`) 86. Other names have none.
pub open spec fn position_code(name: Seq<char>) -> Option<int> {
    if name == seq!['T', 'L', 'D', 'E'] {
        Some(41)
    } else if name == seq!['B', 'K', 'S', 'L'] {
        Some(43)
    } else if name == seq!['L', 'S', 'G', 'T'] {
        Some(86)
    } else if name.len() == 4 && name[0] == 'A' {
        let n = two_digits(name[2], name[3]);
        if name[1] == 'E' {
            Some(1 + n)
        } else if name[1] == 'D' {
            Some(15 + n)
        } else if name[1] == 'C' {
            Some(29 + n)
        } else if name[1] == 'B' {
            Some(43 + n)
        } else {
            None
        }
    } else {
        None
    }
}

/// The position of the key with evdev code `c` in [`xkb_key_table`].
spec fn xkb_code_index(c: u16) -> int {
    match c {
        41 => 0,
        2 => 1,
        3 => 2,
        4 => 3,
        5 => 4,
        6 => 5,
        7 => 6,
        8 => 7,
        9 => 8,
        10 => 9,
        11 => 10,
        12 => 11,
        13 => 12,
        16 => 13,
        17 => 14,
        18 => 15,
        19 => 16,
        20 => 17,
        21 => 18,
        22 => 19,
        23 => 20,
        24 => 21,
        25 => 22,
        26 => 23,
        27 => 24,
        30 => 25,
        31 => 26,
        32 => 27,
        33 => 28,
        34 => 29,
        35 => 30,
        36 => 31,
        37 => 32,
        38 => 33,
        39 => 34,
        40 => 35,
        44 => 36,
        45 => 37,
        46 => 38,
        47 => 39,
        48 => 40,
        49 => 41,
        50 => 42,
        51 => 43,
        52 => 44,
        53 => 45,
        43 => 46,
        86 => 47,
        _ => -1,
    }
}

/// Every key of the XKB key table carries the kernel's code for its
/// position, and no two keys share a code.
pub proof fn lemma_xkb_key_table_positions()
    ensures
        xkb_key_table().len() == XKB_KEY_COUNT,
        forall|i: int| 0 <= i < XKB_KEY_COUNT ==> position_code(#[trigger] xkb_key_table()[i].0) == Some(xkb_key_table()[i].1 as int),
        forall|i: int, j: int| 0 <= i < j < XKB_KEY_COUNT ==> #[trigger] xkb_key_table()[i].1 != #[trigger] xkb_key_table()[j].1,
{
    let t = xkb_key_table();
    reveal_strlit("TLDE");
    reveal_strlit("AE01");
    reveal_strlit("AE02");
    reveal_strlit("AE03");
    reveal_strlit("AE04");
    reveal_strlit("AE05");
    reveal_strlit("AE06");
    reveal_strlit("AE07");
    reveal_strlit("AE08");
    reveal_strlit("AE09");
    reveal_strlit("AE10");
    reveal_strlit("AE11");
    reveal_strlit("AE12");
    reveal_strlit("AD01");
    reveal_strlit("AD02");
    reveal_strlit("AD03");
    reveal_strlit("AD04");
    reveal_strlit("AD05");
    reveal_strlit("AD06");
    reveal_strlit("AD07");
    reveal_strlit("AD08");
    reveal_strlit("AD09");
    reveal_strlit("AD10");
    reveal_strlit("AD11");
    reveal_strlit("AD12");
    reveal_strlit("AC01");
    reveal_strlit("AC02");
    reveal_strlit("AC03");
    reveal_strlit("AC04");
    reveal_strlit("AC05");
    reveal_strlit("AC06");
    reveal_strlit("AC07");
    reveal_strlit("AC08");
    reveal_strlit("AC09");
    reveal_strlit("AC10");
    reveal_strlit("AC11");
    reveal_strlit("AB01");
    reveal_strlit("AB02");
    reveal_strlit("AB03");
    reveal_strlit("AB04");
    reveal_strlit("AB05");
    reveal_strlit("AB06");
    reveal_strlit("AB07");
    reveal_strlit("AB08");
    reveal_strlit("AB09");
    reveal_strlit("AB10");
    reveal_strlit("BKSL");
    reveal_strlit("LSGT");
    assert(t[0] == ("TLDE"@, 41u16));
    assert(t[1] == ("AE01"@, 2u16));
    assert(t[2] == ("AE02"@, 3u16));
    assert(t[3] == ("AE03"@, 4u16));
    assert(t[4] == ("AE04"@, 5u16));
    assert(t[5] == ("AE05"@, 6u16));
    assert(t[6] == ("AE06"@, 7u16));
    assert(t[7] == ("AE07"@, 8u16));
    assert(t[8] == ("AE08"@, 9u16));
    assert(t[9] == ("AE09"@, 10u16));
    assert(t[10] == ("AE10"@, 11u16));
    assert(t[11] == ("AE11"@, 12u16));
    assert(t[12] == ("AE12"@, 13u16));
    assert(t[13] == ("AD01"@, 16u16));
    assert(t[14] == ("AD02"@, 17u16));
    assert(t[15] == ("AD03"@, 18u16));
    assert(t[16] == ("AD04"@, 19u16));
    assert(t[17] == ("AD05"@, 20u16));
    assert(t[18] == ("AD06"@, 21u16));
    assert(t[19] == ("AD07"@, 22u16));
    assert(t[20] == ("AD08"@, 23u16));
    assert(t[21] == ("AD09"@, 24u16));
    assert(t[22] == ("AD10"@, 25u16));
    assert(t[23] == ("AD11"@, 26u16));
    assert(t[24] == ("AD12"@, 27u16));
    assert(t[25] == ("AC01"@, 30u16));
    assert(t[26] == ("AC02"@, 31u16));
    assert(t[27] == ("AC03"@, 32u16));
    assert(t[28] == ("AC04"@, 33u16));
    assert(t[29] == ("AC05"@, 34u16));
    assert(t[30] == ("AC06"@, 35u16));
    assert(t[31] == ("AC07"@, 36u16));
    assert(t[32] == ("AC08"@, 37u16));
    assert(t[33] == ("AC09"@, 38u16));
    assert(t[34] == ("AC10"@, 39u16));
    assert(t[35] == ("AC11"@, 40u16));
    assert(t[36] == ("AB01"@, 44u16));
    assert(t[37] == ("AB02"@, 45u16));
    assert(t[38] == ("AB03"@, 46u16));
    assert(t[39] == ("AB04"@, 47u16));
    assert(t[40] == ("AB05"@, 48u16));
    assert(t[41] == ("AB06"@, 49u16));
    assert(t[42] == ("AB07"@, 50u16));
    assert(t[43] == ("AB08"@, 51u16));
    assert(t[44] == ("AB09"@, 52u16));
    assert(t[45] == ("AB10"@, 53u16));
    assert(t[46] == ("BKSL"@, 43u16));
    assert(t[47] == ("LSGT"@, 86u16));
    assert("TLDE"@ =~= seq!['T', 'L', 'D', 'E']);
    assert("BKSL"@ =~= seq!['B', 'K', 'S', 'L']);
    assert("LSGT"@ =~= seq!['L', 'S', 'G', 'T']);
    assert(position_code(t[0].0) == Some(41int));
    assert(xkb_code_index(t[0].1) == 0);
    assert(position_code(t[1].0) == Some(2int));
    assert(xkb_code_index(t[1].1) == 1);
    assert(position_code(t[2].0) == Some(3int));
    assert(xkb_code_index(t[2].1) == 2);
    assert(position_code(t[3].0) == Some(4int));
    assert(xkb_code_index(t[3].1) == 3);
    assert(position_code(t[4].0) == Some(5int));
    assert(xkb_code_index(t[4].1) == 4);
    assert(position_code(t[5].0) == Some(6int));
    assert(xkb_code_index(t[5].1) == 5);
    assert(position_code(t[6].0) == Some(7int));
    assert(xkb_code_index(t[6].1) == 6);
    assert(position_code(t[7].0) == Some(8int));
    assert(xkb_code_index(t[7].1) == 7);
    assert(position_code(t[8].0) == Some(9int));
    assert(xkb_code_index(t[8].1) == 8);
    assert(position_code(t[9].0) == Some(10int));
    assert(xkb_code_index(t[9].1) == 9);
    assert(position_code(t[10].0) == Some(11int));
    assert(xkb_code_index(t[10].1) == 10);
    assert(position_code(t[11].0) == Some(12int));
    assert(xkb_code_index(t[11].1) == 11);
    assert(position_code(t[12].0) == Some(13int));
    assert(xkb_code_index(t[12].1) == 12);
    assert(position_code(t[13].0) == Some(16int));
    assert(xkb_code_index(t[13].1) == 13);
    assert(position_code(t[14].0) == Some(17int));
    assert(xkb_code_index(t[14].1) == 14);
    assert(position_code(t[15].0) == Some(18int));
    assert(xkb_code_index(t[15].1) == 15);
    assert(position_code(t[16].0) == Some(19int));
    assert(xkb_code_index(t[16].1) == 16);
    assert(position_code(t[17].0) == Some(20int));
    assert(xkb_code_index(t[17].1) == 17);
    assert(position_code(t[18].0) == Some(21int));
    assert(xkb_code_index(t[18].1) == 18);
    assert(position_code(t[19].0) == Some(22int));
    assert(xkb_code_index(t[19].1) == 19);
    assert(position_code(t[20].0) == Some(23int));
    assert(xkb_code_index(t[20].1) == 20);
    assert(position_code(t[21].0) == Some(24int));
    assert(xkb_code_index(t[21].1) == 21);
    assert(position_code(t[22].0) == Some(25int));
    assert(xkb_code_index(t[22].1) == 22);
    assert(position_code(t[23].0) == Some(26int));
    assert(xkb_code_index(t[23].1) == 23);
    assert(position_code(t[24].0) == Some(27int));
    assert(xkb_code_index(t[24].1) == 24);
    assert(position_code(t[25].0) == Some(30int));
    assert(xkb_code_index(t[25].1) == 25);
    assert(position_code(t[26].0) == Some(31int));
    assert(xkb_code_index(t[26].1) == 26);
    assert(position_code(t[27].0) == Some(32int));
    assert(xkb_code_index(t[27].1) == 27);
    assert(position_code(t[28].0) == Some(33int));
    assert(xkb_code_index(t[28].1) == 28);
    assert(position_code(t[29].0) == Some(34int));
    assert(xkb_code_index(t[29].1) == 29);
    assert(position_code(t[30].0) == Some(35int));
    assert(xkb_code_index(t[30].1) == 30);
    assert(position_code(t[31].0) == Some(36int));
    assert(xkb_code_index(t[31].1) == 31);
    assert(position_code(t[32].0) == Some(37int));
    assert(xkb_code_index(t[32].1) == 32);
    assert(position_code(t[33].0) == Some(38int));
    assert(xkb_code_index(t[33].1) == 33);
    assert(position_code(t[34].0) == Some(39int));
    assert(xkb_code_index(t[34].1) == 34);
    assert(position_code(t[35].0) == Some(40int));
    assert(xkb_code_index(t[35].1) == 35);
    assert(position_code(t[36].0) == Some(44int));
    assert(xkb_code_index(t[36].1) == 36);
    assert(position_code(t[37].0) == Some(45int));
    assert(xkb_code_index(t[37].1) == 37);
    assert(position_code(t[38].0) == Some(46int));
    assert(xkb_code_index(t[38].1) == 38);
    assert(position_code(t[39].0) == Some(47int));
    assert(xkb_code_index(t[39].1) == 39);
    assert(position_code(t[40].0) == Some(48int));
    assert(xkb_code_index(t[40].1) == 40);
    assert(position_code(t[41].0) == Some(49int));
    assert(xkb_code_index(t[41].1) == 41);
    assert(position_code(t[42].0) == Some(50int));
    assert(xkb_code_index(t[42].1) == 42);
    assert(position_code(t[43].0) == Some(51int));
    assert(xkb_code_index(t[43].1) == 43);
    assert(position_code(t[44].0) == Some(52int));
    assert(xkb_code_index(t[44].1) == 44);
    assert(position_code(t[45].0) == Some(53int));
    assert(xkb_code_index(t[45].1) == 45);
    assert(position_code(t[46].0) == Some(43int));
    assert(xkb_code_index(t[46].1) == 46);
    assert(position_code(t[47].0) == Some(86int));
    assert(xkb_code_index(t[47].1) == 47);
    assert forall|i: int| 0 <= i < XKB_KEY_COUNT implies position_code(#[trigger] t[i].0) == Some(t[i].1 as int)
        && xkb_code_index(t[i].1) == i by {
        assert(i == 0 || i == 1 || i == 2 || i == 3 || i == 4 || i == 5 || i == 6 || i == 7 || i == 8 || i == 9 || i == 10 || i == 11 || i == 12 || i == 13 || i == 14 || i == 15 || i == 16 || i == 17 || i == 18 || i == 19 || i == 20 || i == 21 || i == 22 || i == 23 || i == 24 || i == 25 || i == 26 || i == 27 || i == 28 || i == 29 || i == 30 || i == 31 || i == 32 || i == 33 || i == 34 || i == 35 || i == 36 || i == 37 || i == 38 || i == 39 || i == 40 || i == 41 || i == 42 || i == 43 || i == 44 || i == 45 || i == 46 || i == 47);
    }
    assert forall|i: int, j: int| 0 <= i < j < XKB_KEY_COUNT implies #[trigger] t[i].1 != #[trigger] t[j].1 by {
        assert(xkb_code_index(t[i].1) == i);
        assert(xkb_code_index(t[j].1) == j);
    }
}

/// The `i`-th key of [`xkb_key_table`].
pub fn xkb_key(i: usize) -> (r: (&'static str, u16))
    requires
        i < XKB_KEY_COUNT,
    ensures
        r.0@ == xkb_key_table()[i as int].0,
        r.1 == xkb_key_table()[i as int].1,
{
    match i {
        0 => ("TLDE", 41),
        1 => ("AE01", 2),
        2 => ("AE02", 3),
        3 => ("AE03", 4),
        4 => ("AE04", 5),
        5 => ("AE05", 6),
        6 => ("AE06", 7),
        7 => ("AE07", 8),
        8 => ("AE08", 9),
        9 => ("AE09", 10),
        10 => ("AE10", 11),
        11 => ("AE11", 12),
        12 => ("AE12", 13),
        13 => ("AD01", 16),
        14 => ("AD02", 17),
        15 => ("AD03", 18),
        16 => ("AD04", 19),
        17 => ("AD05", 20),
        18 => ("AD06", 21),
        19 => ("AD07", 22),
        20 => ("AD08", 23),
        21 => ("AD09", 24),
        22 => ("AD10", 25),
        23 => ("AD11", 26),
        24 => ("AD12", 27),
        25 => ("AC01", 30),
        26 => ("AC02", 31),
        27 => ("AC03", 32),
        28 => ("AC04", 33),
        29 => ("AC05", 34),
        30 => ("AC06", 35),
        31 => ("AC07", 36),
        32 => ("AC08", 37),
        33 => ("AC09", 38),
        34 => ("AC10", 39),
        35 => ("AC11", 40),
        36 => ("AB01", 44),
        37 => ("AB02", 45),
        38 => ("AB03", 46),
        39 => ("AB04", 47),
        40 => ("AB05", 48),
        41 => ("AB06", 49),
        42 => ("AB07", 50),
        43 => ("AB08", 51),
        44 => ("AB09", 52),
        45 => ("AB10", 53),
        46 => ("BKSL", 43),
        47 => ("LSGT", 86),
        _ => ("LSGT", 86),
    }
}

/// The symbols of the key named `name` in an XKB keymap: in the first
/// `key <name>` block, up to its `};`, the comma-separated entries between
/// `symbols[Group1]= [` and the next `]`, each trimmed.
pub open spec fn key_block_syms(text: Seq<char>, name: Seq<char>) -> Option<Seq<Seq<char>>> {
    match find_spec(text, "key <"@ + name + ">"@) {
        None => None,
        Some(start) => {
            let block = text.skip(start);
            match find_spec(block, "};"@) {
                None => None,
                Some(end) => {
                    let b = block.take(end);
                    match find_spec(b, "symbols[Group1]= ["@) {
                        None => None,
                        Some(ss) => {
                            let after = b.skip(ss + "symbols[Group1]= ["@.len());
                            match find_char_spec(after, ']') {
                                None => None,
                                Some(e) => Some(split_spec(after.take(e), ',').map_values(|p: Seq<char>| trim_spec(p))),
                            }
                        },
                    }
                },
            }
        },
    }
}

/// The symbols of the key named `name` in an XKB keymap.
fn key_symbols(text: &str, name: &str) -> (r: Option<Vec<String>>)
    ensures
        match key_block_syms(text@, name@) {
            Some(syms) => r matches Some(v) && views(v@) == syms,
            None => r is None,
        },
{
    let mut pattern = "key <".to_owned();
    pattern.append(name);
    pattern.append(">");
    assert(pattern@ == "key <"@ + name@ + ">"@);
    let start = match str_find(text, pattern.as_str()) {
        Some(s) => s,
        None => return None,
    };
    proof {
        lemma_find_from_found(text@, pattern@, 0);
    }
    let n = text.unicode_len();
    let block = text.substring_char(start, n);
    assert(block@ =~= text@.skip(start as int));
    let end = match str_find(block, "};") {
        Some(e) => e,
        None => return None,
    };
    proof {
        lemma_find_from_found(block@, "};"@, 0);
    }
    let b = block.substring_char(0, end);
    assert(b@ =~= block@.take(end as int));
    let ss = match str_find(b, "symbols[Group1]= [") {
        Some(x) => x,
        None => return None,
    };
    proof {
        lemma_find_from_found(b@, "symbols[Group1]= ["@, 0);
    }
    let sl = "symbols[Group1]= [".unicode_len();
    let bn = b.unicode_len();
    let after = b.substring_char(ss + sl, bn);
    assert(after@ =~= b@.skip(ss + "symbols[Group1]= ["@.len()));
    let e = match str_find_char(after, ']') {
        Some(e) => e,
        None => return None,
    };
    let inner = after.substring_char(0, e);
    assert(inner@ =~= after@.take(e as int));
    let parts = str_split_char(inner, ',');
    let ghost ps = split_spec(inner@, ',');
    let mut out: Vec<String> = Vec::new();
    let mut k: usize = 0;
    proof {
        assert(views(out@) =~= Seq::<Seq<char>>::empty());
        assert(ps.take(0).map_values(|p: Seq<char>| trim_spec(p)) =~= Seq::<Seq<char>>::empty());
    }
    while k < parts.len()
        invariant
            k <= parts@.len(),
            views(parts@) == ps,
            views(out@) == ps.take(k as int).map_values(|p: Seq<char>| trim_spec(p)),
        decreases parts@.len() - k,
    {
        let ghost pre = out@;
        let t = str_trim(parts[k].as_str()).to_owned();
        proof {
            assert(ps[k as int] == parts@[k as int]@);
        }
        let ghost tv = t@;
        out.push(t);
        proof {
            assert(views(out@) =~= views(pre).push(tv));
            assert(views(out@) =~= ps.take(k + 1).map_values(|p: Seq<char>| trim_spec(p)));
        }
        k = k + 1;
    }
    proof {
        assert(ps.take(parts@.len() as int) =~= ps);
    }
    Some(out)
}

/// Whether `m` already maps the character `c`.
pub open spec fn maps_char(m: Seq<(char, u16, bool)>, c: char) -> bool {
    exists|i: int| 0 <= i < m.len() && m[i].0 == c
}

/// `m` with `c` mapped to `(code, shift)` unless it maps `c` already or
/// there is no character.
pub open spec fn add_entry(m: Seq<(char, u16, bool)>, c: Option<char>, code: u16, shift: bool) -> Seq<(char, u16, bool)> {
    match c {
        Some(ch) => if maps_char(m, ch) {
            m
        } else {
            m.push((ch, code, shift))
        },
        None => m,
    }
}

/// The characters typed by the keys of `table` in an XKB keymap: for each
/// key in order, its first symbol without Shift and its second with Shift,
/// a character keeping the first key found for it.
pub open spec fn layout_entries(text: Seq<char>, table: Seq<(Seq<char>, u16)>) -> Seq<(char, u16, bool)>
    decreases table.len(),
{
    if table.len() == 0 {
        Seq::empty()
    } else {
        let prev = layout_entries(text, table.drop_last());
        let (name, code) = table.last();
        match key_block_syms(text, name) {
            None => prev,
            Some(syms) => {
                let p1 = if syms.len() > 0 { add_entry(prev, spec_xkb_sym_to_char(syms[0]), code, false) } else { prev };
                if syms.len() > 1 {
                    add_entry(p1, spec_xkb_sym_to_char(syms[1]), code, true)
                } else {
                    p1
                }
            },
        }
    }
}

/// Adding an entry keeps each character mapped at most once.
proof fn lemma_add_entry_unique(m: Seq<(char, u16, bool)>, c: Option<char>, code: u16, shift: bool)
    requires
        forall|i: int, j: int| 0 <= i < j < m.len() ==> (#[trigger] m[i]).0 != (#[trigger] m[j]).0,
    ensures
        ({
            let r = add_entry(m, c, code, shift);
            forall|i: int, j: int| 0 <= i < j < r.len() ==> (#[trigger] r[i]).0 != (#[trigger] r[j]).0
        }),
{
    match c {
        Some(ch) => {
            if !maps_char(m, ch) {
                let r = m.push((ch, code, shift));
                assert forall|i: int, j: int| 0 <= i < j < r.len() implies (#[trigger] r[i]).0 != (#[trigger] r[j]).0 by {
                    if j == m.len() {
                        assert(r[i] == m[i]);
                        if m[i].0 == ch {
                            assert(maps_char(m, ch));
                        }
                    }
                }
            }
        },
        None => {},
    }
}

/// The table read from a keymap maps each character at most once.
pub proof fn lemma_layout_entries_unique(text: Seq<char>, table: Seq<(Seq<char>, u16)>)
    ensures
        ({
            let r = layout_entries(text, table);
            forall|i: int, j: int| 0 <= i < j < r.len() ==> (#[trigger] r[i]).0 != (#[trigger] r[j]).0
        }),
    decreases table.len(),
{
    if table.len() > 0 {
        lemma_layout_entries_unique(text, table.drop_last());
        let prev = layout_entries(text, table.drop_last());
        let (name, code) = table.last();
        match key_block_syms(text, name) {
            None => {},
            Some(syms) => {
                let p1 = if syms.len() > 0 { add_entry(prev, spec_xkb_sym_to_char(syms[0]), code, false) } else { prev };
                if syms.len() > 0 {
                    lemma_add_entry_unique(prev, spec_xkb_sym_to_char(syms[0]), code, false);
                }
                if syms.len() > 1 {
                    lemma_add_entry_unique(p1, spec_xkb_sym_to_char(syms[1]), code, true);
                }
            },
        }
    }
}

/// Whether `m` maps the character `c`.
fn has_char(m: &Vec<(char, u16, bool)>, c: char) -> (r: bool)
    ensures
        r == maps_char(m@, c),
{
    let mut i: usize = 0;
    while i < m.len()
        invariant
            i <= m@.len(),
            forall|j: int| 0 <= j < i ==> m@[j].0 != c,
        decreases m@.len() - i,
    {
        if m[i].0 == c {
            return true;
        }
        i = i + 1;
    }
    false
}

/// `m` with the character of the symbol `sym` mapped to `(code, shift)`,
/// unless it is mapped already.
fn add_symbol(m: &mut Vec<(char, u16, bool)>, sym: &str, code: u16, shift: bool)
    ensures
        final(m)@ == add_entry(old(m)@, spec_xkb_sym_to_char(sym@), code, shift),
{
    match xkb_sym_to_char(sym) {
        Some(ch) => {
            if !has_char(m, ch) {
                m.push((ch, code, shift));
            }
        },
        None => {},
    }
}

/// The characters typed by the layout-dependent keys in an XKB keymap
/// (the output of `xkbcomp`), in the order they were found.
pub fn xkb_layout_map(xkb_text: &str) -> (r: Vec<(char, u16, bool)>)
    ensures
        r@ == layout_entries(xkb_text@, xkb_key_table()),
        forall|i: int, j: int| 0 <= i < j < r@.len() ==> (#[trigger] r@[i]).0 != (#[trigger] r@[j]).0,
{
    proof {
        lemma_layout_entries_unique(xkb_text@, xkb_key_table());
    }
    let mut out: Vec<(char, u16, bool)> = Vec::new();
    let mut i: usize = 0;
    proof {
        assert(xkb_key_table().take(0) =~= Seq::<(Seq<char>, u16)>::empty());
    }
    while i < XKB_KEY_COUNT
        invariant
            i <= XKB_KEY_COUNT,
            xkb_key_table().len() == XKB_KEY_COUNT,
            out@ == layout_entries(xkb_text@, xkb_key_table().take(i as int)),
        decreases XKB_KEY_COUNT - i,
    {
        let (name, code) = xkb_key(i);
        proof {
            let t = xkb_key_table().take(i + 1);
            assert(t.drop_last() =~= xkb_key_table().take(i as int));
            assert(t.last() == xkb_key_table()[i as int]);
        }
        match key_symbols(xkb_text, name) {
            Some(syms) => {
                proof {
                    if syms@.len() > 0 {
                        assert(views(syms@)[0] == syms@[0]@);
                    }
                    if syms@.len() > 1 {
                        assert(views(syms@)[1] == syms@[1]@);
                    }
                }
                if syms.len() > 0 {
                    add_symbol(&mut out, syms[0].as_str(), code, false);
                }
                if syms.len() > 1 {
                    add_symbol(&mut out, syms[1].as_str(), code, true);
                }
            },
            None => {},
        }
        i = i + 1;
    }
    proof {
        assert(xkb_key_table().take(XKB_KEY_COUNT as int) =~= xkb_key_table());
    }
    out
}

/// The layout table read from an XKB keymap, when the keymap is not empty
/// and yields at least one character.
pub fn dynamic_layout_map(xkb_text: &str) -> (r: Option<Vec<(char, u16, bool)>>)
    ensures
        xkb_text@.len() == 0 ==> r is None,
        xkb_text@.len() > 0 ==> match r {
            Some(m) => m@ == layout_entries(xkb_text@, xkb_key_table()) && m@.len() > 0,
            None => layout_entries(xkb_text@, xkb_key_table()).len() == 0,
        },
{
    if xkb_text.unicode_len() == 0 {
        return None;
    }
    let m = xkb_layout_map(xkb_text);
    if m.len() == 0 {
        None
    } else {
        Some(m)
    }
}

/// The value of a `key: value` line: what follows the first colon, trimmed.
pub open spec fn setting_value(t: Seq<char>) -> Seq<char> {
    let ps = split_spec(t, ':');
    if ps.len() > 1 {
        trim_spec(ps[1])
    } else {
        Seq::empty()
    }
}

/// The value of the last line of `ls` that starts with `key` once trimmed;
/// empty when there is none.
pub open spec fn setting_spec(ls: Seq<Seq<char>>, key: Seq<char>) -> Seq<char>
    decreases ls.len(),
{
    if ls.len() == 0 {
        Seq::empty()
    } else {
        let t = trim_spec(ls.last());
        if seq_starts_with(t, key) {
            setting_value(t)
        } else {
            setting_spec(ls.drop_last(), key)
        }
    }
}

/// The value of the setting `key` (such as `X11 Layout:`) in the output of
/// `localectl status`.
pub fn localectl_setting(localectl_out: &str, key: &str) -> (r: String)
    ensures
        r@ == setting_spec(lines_spec(localectl_out@), key@),
{
    let lines = str_lines(localectl_out);
    let ghost ls = lines_spec(localectl_out@);
    let mut i: usize = lines.len();
    proof {
        assert(ls.take(i as int) =~= ls);
    }
    while i > 0
        invariant
            i <= lines@.len(),
            views(lines@) == ls,
            ls == lines_spec(localectl_out@),
            setting_spec(ls, key@) == setting_spec(ls.take(i as int), key@),
        decreases i,
    {
        proof {
            assert(ls.take(i as int).drop_last() =~= ls.take(i - 1));
            assert(ls.take(i as int).last() == lines@[i - 1]@);
        }
        let t = str_trim(lines[i - 1].as_str());
        if str_starts_with(t, key) {
            let ps = str_split_char(t, ':');
            let ghost pv = split_spec(t@, ':');
            proof {
                assert(views(ps@).len() == ps@.len());
            }
            if ps.len() > 1 {
                proof {
                    assert(pv[1] == ps@[1]@);
                }
                return str_trim(ps[1].as_str()).to_owned();
            }
            return String::new();
        }
        i = i - 1;
    }
    String::new()
}

/// The X11 keyboard layout in the output of `localectl status`.
pub fn x11_layout(localectl_out: &str) -> (r: String)
    ensures
        r@ == setting_spec(lines_spec(localectl_out@), "X11 Layout:"@),
{
    localectl_setting(localectl_out, "X11 Layout:")
}

/// The arguments of `setxkbmap` that give X11 clients the system layout:
/// `-layout` with the layout, then `-variant` with the variant when there
/// is one; none when no layout is set.
pub fn setxkbmap_args(localectl_out: &str) -> (r: Option<Vec<String>>)
    ensures
        ({
            let ls = lines_spec(localectl_out@);
            let layout = setting_spec(ls, "X11 Layout:"@);
            let variant = setting_spec(ls, "X11 Variant:"@);
            if layout.len() == 0 {
                r is None
            } else if variant.len() == 0 {
                r matches Some(v) && views(v@) == seq!["-layout"@, layout]
            } else {
                r matches Some(v) && views(v@) == seq!["-layout"@, layout, "-variant"@, variant]
            }
        }),
{
    let layout = localectl_setting(localectl_out, "X11 Layout:");
    let variant = localectl_setting(localectl_out, "X11 Variant:");
    if layout.unicode_len() == 0 {
        return None;
    }
    let mut args: Vec<String> = Vec::new();
    args.push("-layout".to_owned());
    let ghost lv = layout@;
    let ghost vv = variant@;
    args.push(layout);
    if variant.unicode_len() > 0 {
        args.push("-variant".to_owned());
        args.push(variant);
        proof {
            assert(views(args@) =~= seq!["-layout"@, lv, "-variant"@, vv]);
        }
    } else {
        proof {
            assert(views(args@) =~= seq!["-layout"@, lv]);
        }
    }
    Some(args)
}

/// Whether the built-in US table serves the layout: none is named, or `us`.
pub fn uses_us_layout(layout: &str) -> (r: bool)
    ensures
        r == (layout@.len() == 0 || layout@ == "us"@),
{
    layout.unicode_len() == 0 || str_eq(layout, "us")
}

/// The first entry for `c` in a layout table.
pub open spec fn table_lookup(m: Seq<(char, u16, bool)>, c: char) -> Option<(u16, bool)>
    decreases m.len(),
{
    if m.len() == 0 {
        None
    } else if m[0].0 == c {
        Some((m[0].1, m[0].2))
    } else {
        table_lookup(m.drop_first(), c)
    }
}

/// The keys of the remote keyboard that have an evdev key of their own,
/// whatever the layout.
#[derive(Debug, Clone, Copy, PartialEq, Eq)]
pub enum NamedKey {
    Alt,
    Backspace,
    CapsLock,
    Control,
    Delete,
    DownArrow,
    End,
    Escape,
    F1,
    F10,
    F11,
    F12,
    F2,
    F3,
    F4,
    F5,
    F6,
    F7,
    F8,
    F9,
    Home,
    LeftArrow,
    Meta,
    Option,
    PageDown,
    PageUp,
    Return,
    RightArrow,
    Shift,
    Space,
    Tab,
    UpArrow,
    Numpad0,
    Numpad1,
    Numpad2,
    Numpad3,
    Numpad4,
    Numpad5,
    Numpad6,
    Numpad7,
    Numpad8,
    Numpad9,
    Cancel,
    Clear,
    Pause,
    Kana,
    Hangul,
    Hanja,
    Select,
    Print,
    Snapshot,
    Insert,
    Help,
    Sleep,
    Scroll,
    NumLock,
    RWin,
    Apps,
    Multiply,
    Add,
    Subtract,
    Decimal,
    Divide,
    Equals,
    NumpadEnter,
    RightAlt,
    RightControl,
    RightShift,
}

/// The evdev key code of a named key.
pub open spec fn named_key_code_spec(k: NamedKey) -> u16 {
    match k {
        NamedKey::Alt => 56u16,
        NamedKey::Backspace => 14u16,
        NamedKey::CapsLock => 58u16,
        NamedKey::Control => 29u16,
        NamedKey::Delete => 111u16,
        NamedKey::DownArrow => 108u16,
        NamedKey::End => 107u16,
        NamedKey::Escape => 1u16,
        NamedKey::F1 => 59u16,
        NamedKey::F10 => 68u16,
        NamedKey::F11 => 87u16,
        NamedKey::F12 => 88u16,
        NamedKey::F2 => 60u16,
        NamedKey::F3 => 61u16,
        NamedKey::F4 => 62u16,
        NamedKey::F5 => 63u16,
        NamedKey::F6 => 64u16,
        NamedKey::F7 => 65u16,
        NamedKey::F8 => 66u16,
        NamedKey::F9 => 67u16,
        NamedKey::Home => 102u16,
        NamedKey::LeftArrow => 105u16,
        NamedKey::Meta => 125u16,
        NamedKey::Option => 357u16,
        NamedKey::PageDown => 109u16,
        NamedKey::PageUp => 104u16,
        NamedKey::Return => 28u16,
        NamedKey::RightArrow => 106u16,
        NamedKey::Shift => 42u16,
        NamedKey::Space => 57u16,
        NamedKey::Tab => 15u16,
        NamedKey::UpArrow => 103u16,
        NamedKey::Numpad0 => 82u16,
        NamedKey::Numpad1 => 79u16,
        NamedKey::Numpad2 => 80u16,
        NamedKey::Numpad3 => 81u16,
        NamedKey::Numpad4 => 75u16,
        NamedKey::Numpad5 => 76u16,
        NamedKey::Numpad6 => 77u16,
        NamedKey::Numpad7 => 71u16,
        NamedKey::Numpad8 => 72u16,
        NamedKey::Numpad9 => 73u16,
        NamedKey::Cancel => 223u16,
        NamedKey::Clear => 355u16,
        NamedKey::Pause => 119u16,
        NamedKey::Kana => 90u16,
        NamedKey::Hangul => 122u16,
        NamedKey::Hanja => 123u16,
        NamedKey::Select => 353u16,
        NamedKey::Print => 210u16,
        NamedKey::Snapshot => 99u16,
        NamedKey::Insert => 110u16,
        NamedKey::Help => 138u16,
        NamedKey::Sleep => 142u16,
        NamedKey::Scroll => 70u16,
        NamedKey::NumLock => 69u16,
        NamedKey::RWin => 126u16,
        NamedKey::Apps => 127u16,
        NamedKey::Multiply => 55u16,
        NamedKey::Add => 78u16,
        NamedKey::Subtract => 74u16,
        NamedKey::Decimal => 121u16,
        NamedKey::Divide => 98u16,
        NamedKey::Equals => 117u16,
        NamedKey::NumpadEnter => 96u16,
        NamedKey::RightAlt => 100u16,
        NamedKey::RightControl => 97u16,
        NamedKey::RightShift => 54u16,
    }
}

/// The evdev key code of a named key.
pub fn named_key_code(k: NamedKey) -> (code: u16)
    ensures
        code == named_key_code_spec(k),
{
    match k {
        NamedKey::Alt => 56, // KEY_LEFTALT
        NamedKey::Backspace => 14, // KEY_BACKSPACE
        NamedKey::CapsLock => 58, // KEY_CAPSLOCK
        NamedKey::Control => 29, // KEY_LEFTCTRL
        NamedKey::Delete => 111, // KEY_DELETE
        NamedKey::DownArrow => 108, // KEY_DOWN
        NamedKey::End => 107, // KEY_END
        NamedKey::Escape => 1, // KEY_ESC
        NamedKey::F1 => 59, // KEY_F1
        NamedKey::F10 => 68, // KEY_F10
        NamedKey::F11 => 87, // KEY_F11
        NamedKey::F12 => 88, // KEY_F12
        NamedKey::F2 => 60, // KEY_F2
        NamedKey::F3 => 61, // KEY_F3
        NamedKey::F4 => 62, // KEY_F4
        NamedKey::F5 => 63, // KEY_F5
        NamedKey::F6 => 64, // KEY_F6
        NamedKey::F7 => 65, // KEY_F7
        NamedKey::F8 => 66, // KEY_F8
        NamedKey::F9 => 67, // KEY_F9
        NamedKey::Home => 102, // KEY_HOME
        NamedKey::LeftArrow => 105, // KEY_LEFT
        NamedKey::Meta => 125, // KEY_LEFTMETA
        NamedKey::Option => 357, // KEY_OPTION
        NamedKey::PageDown => 109, // KEY_PAGEDOWN
        NamedKey::PageUp => 104, // KEY_PAGEUP
        NamedKey::Return => 28, // KEY_ENTER
        NamedKey::RightArrow => 106, // KEY_RIGHT
        NamedKey::Shift => 42, // KEY_LEFTSHIFT
        NamedKey::Space => 57, // KEY_SPACE
        NamedKey::Tab => 15, // KEY_TAB
        NamedKey::UpArrow => 103, // KEY_UP
        NamedKey::Numpad0 => 82, // KEY_KP0
        NamedKey::Numpad1 => 79, // KEY_KP1
        NamedKey::Numpad2 => 80, // KEY_KP2
        NamedKey::Numpad3 => 81, // KEY_KP3
        NamedKey::Numpad4 => 75, // KEY_KP4
        NamedKey::Numpad5 => 76, // KEY_KP5
        NamedKey::Numpad6 => 77, // KEY_KP6
        NamedKey::Numpad7 => 71, // KEY_KP7
        NamedKey::Numpad8 => 72, // KEY_KP8
        NamedKey::Numpad9 => 73, // KEY_KP9
        NamedKey::Cancel => 223, // KEY_CANCEL
        NamedKey::Clear => 355, // KEY_CLEAR
        NamedKey::Pause => 119, // KEY_PAUSE
        NamedKey::Kana => 90, // KEY_KATAKANA
        NamedKey::Hangul => 122, // KEY_HANGEUL
        NamedKey::Hanja => 123, // KEY_HANJA
        NamedKey::Select => 353, // KEY_SELECT
        NamedKey::Print => 210, // KEY_PRINT
        NamedKey::Snapshot => 99, // KEY_SYSRQ
        NamedKey::Insert => 110, // KEY_INSERT
        NamedKey::Help => 138, // KEY_HELP
        NamedKey::Sleep => 142, // KEY_SLEEP
        NamedKey::Scroll => 70, // KEY_SCROLLLOCK
        NamedKey::NumLock => 69, // KEY_NUMLOCK
        NamedKey::RWin => 126, // KEY_RIGHTMETA
        NamedKey::Apps => 127, // KEY_COMPOSE
        NamedKey::Multiply => 55, // KEY_KPASTERISK
        NamedKey::Add => 78, // KEY_KPPLUS
        NamedKey::Subtract => 74, // KEY_KPMINUS
        NamedKey::Decimal => 121, // KEY_KPCOMMA
        NamedKey::Divide => 98, // KEY_KPSLASH
        NamedKey::Equals => 117, // KEY_KPEQUAL
        NamedKey::NumpadEnter => 96, // KEY_KPENTER
        NamedKey::RightAlt => 100, // KEY_RIGHTALT
        NamedKey::RightControl => 97, // KEY_RIGHTCTRL
        NamedKey::RightShift => 54, // KEY_RIGHTSHIFT
    }
}

/// A key of the remote keyboard, as far as the key map tells keys apart.
#[derive(Debug, Clone, Copy, PartialEq, Eq)]
pub enum InputKey {
    /// A key with an evdev key of its own.
    Named(NamedKey),
    /// A key that types a character of the layout.
    Layout(char),
    /// Any other key: the key map has no evdev key for it.
    Unmapped,
}

/// The evdev key and Shift state for a remote key: a named key maps to its
/// own evdev key without Shift; a layout character is looked up in the
/// table read from the keymap, else in the built-in US table.
pub open spec fn map_key_spec(dynamic: Option<Seq<(char, u16, bool)>>, key: InputKey) -> Option<(u16, bool)> {
    match key {
        InputKey::Named(k) => Some((named_key_code_spec(k), false)),
        InputKey::Layout(c) => match dynamic {
            Some(m) => match table_lookup(m, c) {
                Some(k) => Some(k),
                None => us_layout_key_spec(c),
            },
            None => us_layout_key_spec(c),
        },
        InputKey::Unmapped => None,
    }
}

/// The evdev key and Shift state for a remote key, with the layout table
/// `dynamic` read from the keymap when there is one; `None` when the key
/// cannot be mapped.
pub fn map_key(key: &InputKey, dynamic: Option<&Vec<(char, u16, bool)>>) -> (r: Option<(u16, bool)>)
    ensures
        r == map_key_spec(
            match dynamic {
                Some(m) => Some(m@),
                None => None,
            },
            *key,
        ),
{
    match key {
        InputKey::Named(k) => Some((named_key_code(*k), false)),
        InputKey::Layout(c) => layout_key(dynamic, *c),
        InputKey::Unmapped => None,
    }
}

/// The key and Shift state that type the layout character `c`: from the
/// table read from the keymap when there is one and it has `c`, else from
/// the built-in US table.
pub fn layout_key(dynamic: Option<&Vec<(char, u16, bool)>>, c: char) -> (r: Option<(u16, bool)>)
    ensures
        r == match dynamic {
            Some(m) => match table_lookup(m@, c) {
                Some(k) => Some(k),
                None => us_layout_key_spec(c),
            },
            None => us_layout_key_spec(c),
        },
{
    match dynamic {
        Some(m) => {
            let mut i: usize = 0;
            proof {
                assert(m@.skip(0) =~= m@);
            }
            while i < m.len()
                invariant
                    i <= m@.len(),
                    dynamic == Some(m),
                    table_lookup(m@, c) == table_lookup(m@.skip(i as int), c),
                decreases m@.len() - i,
            {
                proof {
                    assert(m@.skip(i as int)[0] == m@[i as int]);
                    assert(m@.skip(i as int).drop_first() =~= m@.skip(i + 1));
                }
                if m[i].0 == c {
                    return Some((m[i].1, m[i].2));
                }
                i = i + 1;
            }
            proof {
                assert(m@.skip(m@.len() as int).len() == 0);
            }
            us_layout_key(c)
        },
        None => us_layout_key(c),
    }
}

} // verus!
