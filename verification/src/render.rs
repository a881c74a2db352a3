//! Template selection and hexadecimal channel rendering.
//!
//! The rendering layer proper — interpolating channel values into a
//! template and writing the escape bytes — is a concern of the
//! surrounding program; this module pins down the pure parts of it: which
//! output template a format flag selects, and the two uppercase
//! hexadecimal digits of an 8-bit channel value.

use vstd::prelude::*;

use crate::normalize::str_eq;

verus! {

/// The output template that a format flag selects: a terminal background
/// escape for `iterm_bg`, a terminal tab-color escape for `iterm_tab`, an
/// HTML swatch for any other flag, and a second HTML swatch when no flag
/// was given.
pub open spec fn format_template(format: Option<Seq<char>>) -> Seq<char> {
    match format {
        Some(t) => {
            if t == "iterm_bg"@ {
                "\x1b]1337;SetColors=bg={{hex2 red}}{{ hex2 green}}{{ hex2 blue}}\x07"@
            } else if t == "iterm_tab"@ {
                "\x1b]6;1;bg;red;brightness;{{ red }}\x07\x1b]6;1;bg;green;brightness;{{ green }}\x07\x1b]6;1;bg;blue;brightness;{{ blue }}\x07"@
            } else {
                "{{hue}} {{ red }} {{green }} {{ blue }} <div style='background-color: #{{hex2 red}}{{hex2 green}}{{hex2 blue}};'>{{ hue }} {{red}} {{green}} {{blue}} {{source}}</div>\n"@
            }
        },
        None => {
            "<div style='background-color: 0x{{hex2 red}}{{hex2 green}}{{hex2 blue}};'>{{ hue }}, {{red}} {{green}} {{blue}} {{source}}</div>\n"@
        },
    }
}

/// Select the output template for a format flag.
pub fn get_format(format: Option<&str>) -> (r: &str)
    ensures
        format matches Some(t) ==> r@ == format_template(Some(t@)),
        format is None ==> r@ == format_template(None),
{
    match format {
        Some(t) => {
            if str_eq(t, "iterm_bg") {
                "\x1b]1337;SetColors=bg={{hex2 red}}{{ hex2 green}}{{ hex2 blue}}\x07"
            } else if str_eq(t, "iterm_tab") {
                "\x1b]6;1;bg;red;brightness;{{ red }}\x07\x1b]6;1;bg;green;brightness;{{ green }}\x07\x1b]6;1;bg;blue;brightness;{{ blue }}\x07"
            } else {
                "{{hue}} {{ red }} {{green }} {{ blue }} <div style='background-color: #{{hex2 red}}{{hex2 green}}{{hex2 blue}};'>{{ hue }} {{red}} {{green}} {{blue}} {{source}}</div>\n"
            }
        },
        None => {
            "<div style='background-color: 0x{{hex2 red}}{{hex2 green}}{{hex2 blue}};'>{{ hue }}, {{red}} {{green}} {{blue}} {{source}}</div>\n"
        },
    }
}

/// The uppercase hexadecimal digit for a value below sixteen.
pub open spec fn hex_digit_char(d: int) -> char {
    if d == 0 {
        '0'
    } else if d == 1 {
        '1'
    } else if d == 2 {
        '2'
    } else if d == 3 {
        '3'
    } else if d == 4 {
        '4'
    } else if d == 5 {
        '5'
    } else if d == 6 {
        '6'
    } else if d == 7 {
        '7'
    } else if d == 8 {
        '8'
    } else if d == 9 {
        '9'
    } else if d == 10 {
        'A'
    } else if d == 11 {
        'B'
    } else if d == 12 {
        'C'
    } else if d == 13 {
        'D'
    } else if d == 14 {
        'E'
    } else {
        'F'
    }
}

/// The two uppercase hexadecimal digits of an 8-bit value, high digit
/// first: the stable hex form of one color channel.
pub open spec fn hex_byte_chars(v: int) -> (char, char) {
    (hex_digit_char(v / 16), hex_digit_char(v % 16))
}

/// Render a channel value below sixteen as one uppercase hex digit.
pub fn hex_digit(d: u8) -> (c: char)
    requires
        d < 16,
    ensures
        c == hex_digit_char(d as int),
{
    match d {
        0 => '0',
        1 => '1',
        2 => '2',
        3 => '3',
        4 => '4',
        5 => '5',
        6 => '6',
        7 => '7',
        8 => '8',
        9 => '9',
        10 => 'A',
        11 => 'B',
        12 => 'C',
        13 => 'D',
        14 => 'E',
        _ => 'F',
    }
}

/// Render an 8-bit channel value as two uppercase hex digits, high digit
/// first.
pub fn hex_byte(v: u8) -> (r: (char, char))
    ensures
        r == hex_byte_chars(v as int),
{
    (hex_digit(v / 16), hex_digit(v % 16))
}

} // verus!
