//! The request body of the command route: a JSON object whose `args`
//! member holds the command line.  The parser accepts an object with any
//! members whose values are JSON strings, numbers, booleans or `null`,
//! requires exactly one `args` member with a string value, and rejects
//! everything else as malformed.

use vstd::prelude::*;
use crate::ascii::{char_from_u32, push_char, str_eq};
use crate::response::data_view;

verus! {

/// JSON insignificant whitespace.
pub open spec fn is_ws(c: char) -> bool {
    c == ' ' || c == '\n' || c == '\t' || c == '\r'
}

/// The first position at or after `i` holding no whitespace.
pub open spec fn skip_ws(s: Seq<char>, i: int) -> int
    decreases s.len() - i,
{
    if 0 <= i < s.len() && is_ws(s[i]) {
        skip_ws(s, i + 1)
    } else {
        i
    }
}

fn skip_ws_exec(s: &str, i: usize) -> (r: usize)
    requires
        i <= s@.len(),
    ensures
        r == skip_ws(s@, i as int),
        i <= r <= s@.len(),
{
    let len = s.unicode_len();
    let mut j = i;
    while j < len && (s.get_char(j) == ' ' || s.get_char(j) == '\n' || s.get_char(j) == '\t'
        || s.get_char(j) == '\r')
        invariant
            i <= j <= len,
            len == s@.len(),
            skip_ws(s@, i as int) == skip_ws(s@, j as int),
        decreases len - j,
    {
        j += 1;
    }
    j
}

/// A decimal digit.
pub open spec fn is_digit(c: char) -> bool {
    '0' <= c && c <= '9'
}

/// A hexadecimal digit, in either letter case.
pub open spec fn is_hex(c: char) -> bool {
    is_digit(c) || ('a' <= c && c <= 'f') || ('A' <= c && c <= 'F')
}

/// The value of a hexadecimal digit.
pub open spec fn hex_val(c: char) -> int {
    if is_digit(c) {
        c as u32 - 48
    } else if 'a' <= c && c <= 'f' {
        c as u32 - 87
    } else if 'A' <= c && c <= 'F' {
        c as u32 - 55
    } else {
        0
    }
}

fn hex_val_exec(c: char) -> (r: Option<u32>)
    ensures
        match r {
            Some(v) => is_hex(c) && v == hex_val(c) && v < 16,
            None => !is_hex(c),
        },
{
    if '0' <= c && c <= '9' {
        Some(c as u32 - 48)
    } else if 'a' <= c && c <= 'f' {
        Some(c as u32 - 87)
    } else if 'A' <= c && c <= 'F' {
        Some(c as u32 - 55)
    } else {
        None
    }
}

/// Four hexadecimal digits stand at `i`.
pub open spec fn hex4_ok(s: Seq<char>, i: int) -> bool {
    i + 4 <= s.len() && is_hex(s[i]) && is_hex(s[i + 1]) && is_hex(s[i + 2]) && is_hex(s[i + 3])
}

/// The value of the four hexadecimal digits at `i`.
pub open spec fn hex4(s: Seq<char>, i: int) -> int {
    hex_val(s[i]) * 4096 + hex_val(s[i + 1]) * 256 + hex_val(s[i + 2]) * 16 + hex_val(s[i + 3])
}

fn hex4_exec(s: &str, i: usize) -> (r: Option<u32>)
    requires
        i <= s@.len(),
    ensures
        match r {
            Some(v) => hex4_ok(s@, i as int) && v == hex4(s@, i as int) && v < 0x10000,
            None => !hex4_ok(s@, i as int),
        },
{
    let len = s.unicode_len();
    if len - i < 4 {
        return None;
    }
    let d0 = match hex_val_exec(s.get_char(i)) {
        Some(v) => v,
        None => {
            return None;
        },
    };
    let d1 = match hex_val_exec(s.get_char(i + 1)) {
        Some(v) => v,
        None => {
            return None;
        },
    };
    let d2 = match hex_val_exec(s.get_char(i + 2)) {
        Some(v) => v,
        None => {
            return None;
        },
    };
    let d3 = match hex_val_exec(s.get_char(i + 3)) {
        Some(v) => v,
        None => {
            return None;
        },
    };
    Some(d0 * 4096 + d1 * 256 + d2 * 16 + d3)
}

/// The character a two-letter escape stands for.
pub open spec fn esc_char(c: char) -> char {
    if c == 'b' {
        8u8 as char
    } else if c == 'f' {
        12u8 as char
    } else if c == 'n' {
        '\n'
    } else if c == 'r' {
        '\r'
    } else if c == 't' {
        '\t'
    } else {
        c
    }
}

/// A two-letter escape's second character.
pub open spec fn is_simple_escape(c: char) -> bool {
    c == '"' || c == '\\' || c == '/' || c == 'b' || c == 'f' || c == 'n' || c == 'r' || c == 't'
}

/// The rest of a JSON string literal, starting inside the quotes at `i`
/// with the characters `acc` already read: the decoded content and the
/// position after the closing quote, or nothing when the text is not a
/// well-formed string.  Escapes follow the JSON grammar, `\uXXXX`
/// included, with surrogate pairs combined and lone surrogates refused.
pub open spec fn string_tail(s: Seq<char>, i: int, acc: Seq<char>) -> Option<(Seq<char>, int)>
    decreases s.len() - i,
{
    if !(0 <= i < s.len()) {
        None
    } else if s[i] == '"' {
        Some((acc, i + 1))
    } else if s[i] == '\\' {
        if i + 1 >= s.len() {
            None
        } else if is_simple_escape(s[i + 1]) {
            string_tail(s, i + 2, acc.push(esc_char(s[i + 1])))
        } else if s[i + 1] == 'u' && hex4_ok(s, i + 2) {
            let v = hex4(s, i + 2);
            if 0xD800 <= v < 0xDC00 {
                if i + 12 <= s.len() && s[i + 6] == '\\' && s[i + 7] == 'u' && hex4_ok(s, i + 8)
                    && 0xDC00 <= hex4(s, i + 8) < 0xE000 {
                    let w = 0x10000 + (v - 0xD800) * 0x400 + (hex4(s, i + 8) - 0xDC00);
                    string_tail(s, i + 12, acc.push(((w as u32) as char)))
                } else {
                    None
                }
            } else if 0xDC00 <= v < 0xE000 {
                None
            } else {
                string_tail(s, i + 6, acc.push(((v as u32) as char)))
            }
        } else {
            None
        }
    } else if (s[i] as u32) < 0x20 {
        None
    } else {
        string_tail(s, i + 1, acc.push(s[i]))
    }
}

/// The decoded content of a string literal never shrinks its end short of
/// the start.
proof fn lemma_string_tail_end(s: Seq<char>, i: int, acc: Seq<char>)
    requires
        0 <= i,
    ensures
        match string_tail(s, i, acc) {
            Some((_, e)) => i < e <= s.len(),
            None => true,
        },
    decreases s.len() - i,
{
    if 0 <= i < s.len() {
        if s[i] == '\\' {
            if i + 1 < s.len() && is_simple_escape(s[i + 1]) {
                lemma_string_tail_end(s, i + 2, acc.push(esc_char(s[i + 1])));
            } else if i + 1 < s.len() && s[i + 1] == 'u' && hex4_ok(s, i + 2) {
                let v = hex4(s, i + 2);
                if 0xD800 <= v < 0xDC00 {
                    if i + 12 <= s.len() && s[i + 6] == '\\' && s[i + 7] == 'u' && hex4_ok(s, i + 8)
                        && 0xDC00 <= hex4(s, i + 8) < 0xE000 {
                        let w = 0x10000 + (v - 0xD800) * 0x400 + (hex4(s, i + 8) - 0xDC00);
                        lemma_string_tail_end(s, i + 12, acc.push(((w as u32) as char)));
                    }
                } else if !(0xDC00 <= v < 0xE000) {
                    lemma_string_tail_end(s, i + 6, acc.push(((v as u32) as char)));
                }
            }
        } else if s[i] != '"' && (s[i] as u32) >= 0x20 {
            lemma_string_tail_end(s, i + 1, acc.push(s[i]));
        }
    }
}

/// Reads the rest of a string literal into `acc`, exactly as
/// `string_tail` states it.
fn string_tail_exec(s: &str, i: usize, acc: &mut String) -> (r: Option<usize>)
    requires
        i <= s@.len(),
    ensures
        match string_tail(s@, i as int, old(acc)@) {
            Some((v, e)) => r == Some(e as usize) && final(acc)@ == v,
            None => r is None,
        },
    decreases s@.len() - i,
{
    let len = s.unicode_len();
    if i >= len {
        return None;
    }
    let c = s.get_char(i);
    if c == '"' {
        return Some(i + 1);
    }
    if c == '\\' {
        if i + 1 >= len {
            return None;
        }
        let e = s.get_char(i + 1);
        if e == '"' || e == '\\' || e == '/' || e == 'b' || e == 'f' || e == 'n' || e == 'r' || e
            == 't' {
            let mapped = if e == 'b' {
                8u8 as char
            } else if e == 'f' {
                12u8 as char
            } else if e == 'n' {
                '\n'
            } else if e == 'r' {
                '\r'
            } else if e == 't' {
                '\t'
            } else {
                e
            };
            push_char(acc, mapped);
            return string_tail_exec(s, i + 2, acc);
        }
        if e == 'u' {
            let v = match hex4_exec(s, i + 2) {
                Some(v) => v,
                None => {
                    return None;
                },
            };
            if 0xD800 <= v && v < 0xDC00 {
                if len - i >= 12 && s.get_char(i + 6) == '\\' && s.get_char(i + 7) == 'u' {
                    let w = match hex4_exec(s, i + 8) {
                        Some(w) => w,
                        None => {
                            return None;
                        },
                    };
                    if 0xDC00 <= w && w < 0xE000 {
                        let scalar: u32 = 0x10000 + (v - 0xD800) * 0x400 + (w - 0xDC00);
                        let decoded = match char_from_u32(scalar) {
                            Some(d) => d,
                            None => {
                                return None;
                            },
                        };
                        proof {
                            vstd::utf8::char_u32_cast(decoded, scalar);
                        }
                        push_char(acc, decoded);
                        return string_tail_exec(s, i + 12, acc);
                    } else {
                        return None;
                    }
                } else {
                    return None;
                }
            }
            if 0xDC00 <= v && v < 0xE000 {
                return None;
            }
            let decoded = match char_from_u32(v) {
                Some(d) => d,
                None => {
                    return None;
                },
            };
            proof {
                vstd::utf8::char_u32_cast(decoded, v);
            }
            push_char(acc, decoded);
            return string_tail_exec(s, i + 6, acc);
        }
        return None;
    }
    if (c as u32) < 0x20 {
        return None;
    }
    push_char(acc, c);
    string_tail_exec(s, i + 1, acc)
}

/// The first position at or after `i` holding no decimal digit.
pub open spec fn digits_end(s: Seq<char>, i: int) -> int
    decreases s.len() - i,
{
    if 0 <= i < s.len() && is_digit(s[i]) {
        digits_end(s, i + 1)
    } else {
        i
    }
}

fn digits_end_exec(s: &str, i: usize) -> (r: usize)
    requires
        i <= s@.len(),
    ensures
        r == digits_end(s@, i as int),
        i <= r <= s@.len(),
{
    let len = s.unicode_len();
    let mut j = i;
    while j < len && '0' <= s.get_char(j) && s.get_char(j) <= '9'
        invariant
            i <= j <= len,
            len == s@.len(),
            digits_end(s@, i as int) == digits_end(s@, j as int),
        decreases len - j,
    {
        j += 1;
    }
    j
}

/// The position after the JSON number starting at `i`, or nothing when no
/// well-formed number starts there: an optional sign, an integer part
/// without a leading zero, and optional fraction and exponent parts.
pub open spec fn number_end(s: Seq<char>, i: int) -> Option<int> {
    let j = if 0 <= i < s.len() && s[i] == '-' {
        i + 1
    } else {
        i
    };
    if !(0 <= j < s.len()) {
        None
    } else if s[j] == '0' || ('1' <= s[j] && s[j] <= '9') {
        let k = if s[j] == '0' {
            j + 1
        } else {
            digits_end(s, j + 1)
        };
        let f = if k < s.len() && s[k] == '.' {
            if k + 1 < s.len() && is_digit(s[k + 1]) {
                Some(digits_end(s, k + 1))
            } else {
                None
            }
        } else {
            Some(k)
        };
        match f {
            None => None,
            Some(k2) => if k2 < s.len() && (s[k2] == 'e' || s[k2] == 'E') {
                let k3 = if k2 + 1 < s.len() && (s[k2 + 1] == '+' || s[k2 + 1] == '-') {
                    k2 + 2
                } else {
                    k2 + 1
                };
                if k3 < s.len() && is_digit(s[k3]) {
                    Some(digits_end(s, k3))
                } else {
                    None
                }
            } else {
                Some(k2)
            },
        }
    } else {
        None
    }
}

fn number_end_exec(s: &str, i: usize) -> (r: Option<usize>)
    requires
        i <= s@.len(),
    ensures
        match r {
            Some(e) => number_end(s@, i as int) == Some(e as int) && e <= s@.len(),
            None => number_end(s@, i as int) is None,
        },
{
    let len = s.unicode_len();
    let j = if i < len && s.get_char(i) == '-' {
        i + 1
    } else {
        i
    };
    if j >= len {
        return None;
    }
    let c = s.get_char(j);
    if !(c == '0' || ('1' <= c && c <= '9')) {
        return None;
    }
    let k = if c == '0' {
        j + 1
    } else {
        digits_end_exec(s, j + 1)
    };
    let k2 = if k < len && s.get_char(k) == '.' {
        if k + 1 < len && '0' <= s.get_char(k + 1) && s.get_char(k + 1) <= '9' {
            digits_end_exec(s, k + 1)
        } else {
            return None;
        }
    } else {
        k
    };
    if k2 < len && (s.get_char(k2) == 'e' || s.get_char(k2) == 'E') {
        let k3 = if k2 + 1 < len && (s.get_char(k2 + 1) == '+' || s.get_char(k2 + 1) == '-') {
            k2 + 2
        } else {
            k2 + 1
        };
        if k3 < len && '0' <= s.get_char(k3) && s.get_char(k3) <= '9' {
            Some(digits_end_exec(s, k3))
        } else {
            None
        }
    } else {
        Some(k2)
    }
}

/// The position after the scalar JSON value starting at `i` — a string,
/// a number, `true`, `false` or `null` — or nothing when none starts
/// there.
pub open spec fn value_end(s: Seq<char>, i: int) -> Option<int> {
    if !(0 <= i < s.len()) {
        None
    } else if s[i] == '"' {
        match string_tail(s, i + 1, Seq::empty()) {
            Some((_, e)) => Some(e),
            None => None,
        }
    } else if s[i] == 't' {
        if i + 4 <= s.len() && s.subrange(i, i + 4) == "true"@ {
            Some(i + 4)
        } else {
            None
        }
    } else if s[i] == 'f' {
        if i + 5 <= s.len() && s.subrange(i, i + 5) == "false"@ {
            Some(i + 5)
        } else {
            None
        }
    } else if s[i] == 'n' {
        if i + 4 <= s.len() && s.subrange(i, i + 4) == "null"@ {
            Some(i + 4)
        } else {
            None
        }
    } else if s[i] == '-' || is_digit(s[i]) {
        number_end(s, i)
    } else {
        None
    }
}

fn value_end_exec(s: &str, i: usize) -> (r: Option<usize>)
    requires
        i <= s@.len(),
    ensures
        match r {
            Some(e) => value_end(s@, i as int) == Some(e as int) && e <= s@.len(),
            None => value_end(s@, i as int) is None,
        },
{
    let len = s.unicode_len();
    if i >= len {
        return None;
    }
    let c = s.get_char(i);
    if c == '"' {
        let mut scratch = String::new();
        proof {
            lemma_string_tail_end(s@, i + 1, Seq::empty());
        }
        match string_tail_exec(s, i + 1, &mut scratch) {
            Some(e) => Some(e),
            None => None,
        }
    } else if c == 't' {
        if len - i >= 4 && str_eq(s.substring_char(i, i + 4), "true") {
            Some(i + 4)
        } else {
            None
        }
    } else if c == 'f' {
        if len - i >= 5 && str_eq(s.substring_char(i, i + 5), "false") {
            Some(i + 5)
        } else {
            None
        }
    } else if c == 'n' {
        if len - i >= 4 && str_eq(s.substring_char(i, i + 4), "null") {
            Some(i + 4)
        } else {
            None
        }
    } else if c == '-' || ('0' <= c && c <= '9') {
        number_end_exec(s, i)
    } else {
        None
    }
}

/// The run of object members starting at `i` (just after `{` or a
/// comma): the value of the single `args` member and the position after
/// the closing brace, or nothing when the members are not well formed,
/// `args` is missing or repeated, its value is not a string, or a member
/// value is not a scalar.  `fuel` bounds the member count; the parser
/// grants one unit per character, which no well-formed object exhausts.
pub open spec fn members(s: Seq<char>, i: int, seen: Option<Seq<char>>, fuel: nat) -> Option<
    (Seq<char>, int),
>
    decreases fuel,
{
    if fuel == 0 {
        None
    } else {
        let j = skip_ws(s, i);
        if !(j < s.len() && s[j] == '"') {
            None
        } else {
            match string_tail(s, j + 1, Seq::empty()) {
                None => None,
                Some((key, j2)) => {
                    let j3 = skip_ws(s, j2);
                    if !(j3 < s.len() && s[j3] == ':') {
                        None
                    } else {
                        let j4 = skip_ws(s, j3 + 1);
                        let parsed: Option<(Option<Seq<char>>, int)> = if key == "args"@ {
                            if seen is Some {
                                None
                            } else if j4 < s.len() && s[j4] == '"' {
                                match string_tail(s, j4 + 1, Seq::empty()) {
                                    Some((v, j5)) => Some((Some(v), j5)),
                                    None => None,
                                }
                            } else {
                                None
                            }
                        } else {
                            match value_end(s, j4) {
                                Some(j5) => Some((seen, j5)),
                                None => None,
                            }
                        };
                        match parsed {
                            None => None,
                            Some((seen2, j5)) => {
                                let j6 = skip_ws(s, j5);
                                if j6 < s.len() && s[j6] == ',' {
                                    members(s, j6 + 1, seen2, (fuel - 1) as nat)
                                } else if j6 < s.len() && s[j6] == '}' {
                                    match seen2 {
                                        Some(v) => Some((v, j6 + 1)),
                                        None => None,
                                    }
                                } else {
                                    None
                                }
                            },
                        }
                    }
                },
            }
        }
    }
}

fn members_exec(s: &str, i: usize, seen: Option<String>, fuel: usize) -> (r: Option<
    (String, usize),
>)
    requires
        i <= s@.len(),
    ensures
        match r {
            Some((v, e)) => members(s@, i as int, data_view(seen), fuel as nat) == Some(
                (v@, e as int),
            ) && e <= s@.len(),
            None => members(s@, i as int, data_view(seen), fuel as nat) is None,
        },
    decreases fuel,
{
    if fuel == 0 {
        return None;
    }
    let len = s.unicode_len();
    let j = skip_ws_exec(s, i);
    if !(j < len && s.get_char(j) == '"') {
        return None;
    }
    let mut key = String::new();
    proof {
        lemma_string_tail_end(s@, j + 1, Seq::empty());
    }
    let j2 = match string_tail_exec(s, j + 1, &mut key) {
        Some(e) => e,
        None => {
            return None;
        },
    };
    let j3 = skip_ws_exec(s, j2);
    if !(j3 < len && s.get_char(j3) == ':') {
        return None;
    }
    let j4 = skip_ws_exec(s, j3 + 1);
    let seen2: Option<String>;
    let j5: usize;
    if str_eq(key.as_str(), "args") {
        proof {
            reveal_strlit("args");
        }
        if seen.is_some() {
            return None;
        }
        if !(j4 < len && s.get_char(j4) == '"') {
            return None;
        }
        let mut value = String::new();
        proof {
            lemma_string_tail_end(s@, j4 + 1, Seq::empty());
        }
        match string_tail_exec(s, j4 + 1, &mut value) {
            Some(e) => {
                seen2 = Some(value);
                j5 = e;
            },
            None => {
                return None;
            },
        }
    } else {
        proof {
            reveal_strlit("args");
        }
        match value_end_exec(s, j4) {
            Some(e) => {
                seen2 = seen;
                j5 = e;
            },
            None => {
                return None;
            },
        }
    }
    let j6 = skip_ws_exec(s, j5);
    if j6 < len && s.get_char(j6) == ',' {
        members_exec(s, j6 + 1, seen2, fuel - 1)
    } else if j6 < len && s.get_char(j6) == '}' {
        match seen2 {
            Some(v) => Some((v, j6 + 1)),
            None => None,
        }
    } else {
        None
    }
}

/// The parse of a whole request body: optional whitespace, an object
/// whose single `args` member holds a string, optional whitespace, and
/// nothing further.  The parsed command line, or nothing when the body
/// is malformed.
pub open spec fn parse_body_model(s: Seq<char>) -> Option<Seq<char>> {
    let i0 = skip_ws(s, 0);
    if !(i0 < s.len() && s[i0] == '{') {
        None
    } else {
        match members(s, i0 + 1, None, s.len()) {
            None => None,
            Some((v, e)) => {
                let e2 = skip_ws(s, e);
                if e2 == s.len() {
                    Some(v)
                } else {
                    None
                }
            },
        }
    }
}

/// Parses a request body, exactly as `parse_body_model` states it.
pub fn parse_body(s: &str) -> (r: Option<String>)
    ensures
        data_view(r) == parse_body_model(s@),
{
    let len = s.unicode_len();
    let i0 = skip_ws_exec(s, 0);
    if !(i0 < len && s.get_char(i0) == '{') {
        return None;
    }
    match members_exec(s, i0 + 1, None, len) {
        None => None,
        Some((v, e)) => {
            let e2 = skip_ws_exec(s, e);
            if e2 == len {
                Some(v)
            } else {
                None
            }
        },
    }
}

} // verus!
