//! The Decoder: turns a raw request body into the list of words, or fails.
//!
//! The accepted bodies are exactly the well-formed JSON texts whose top-level
//! value is an object with a member `"words"` holding an array of strings.
//! Other members are allowed and skipped; a duplicate `"words"` member, a
//! non-array `"words"` value, a non-string array element, ill-formed UTF-8 or
//! ill-formed JSON syntax are all a [`DecodeError`].
//!
//! The grammar is stated by the spec functions of this module, culminating in
//! [`parse_request`]; the executable functions are proved to return exactly
//! what the spec functions describe.

use vstd::prelude::*;

use crate::skip_ws;
use crate::ws_end;

verus! {

/// Decoding failed: the body is not a well-formed request.
#[derive(Debug)]
pub struct DecodeError {}

impl DecodeError {
    /// A human-readable description of the failure, as response body bytes.
    pub fn message_bytes(&self) -> (r: Vec<u8>)
        ensures
            r@ == bad_request_text(),
    {
        let r: Vec<u8> = vec![
            0x62, 0x61, 0x64, 0x20, 0x72, 0x65, 0x71, 0x75, 0x65, 0x73, 0x74,
        ];
        proof {
            assert(r@ =~= bad_request_text());
        }
        r
    }
}

/// The bytes of the text "bad request".
pub open spec fn bad_request_text() -> Seq<u8> {
    seq![0x62u8, 0x61, 0x64, 0x20, 0x72, 0x65, 0x71, 0x75, 0x65, 0x73, 0x74]
}

/// A UTF-8 continuation byte.
pub open spec fn is_cont(b: u8) -> bool {
    0x80 <= b <= 0xbf
}

/// The bytes of `s` from `i` on are a well-formed UTF-8 sequence.
///
/// The shortest-form and surrogate-exclusion rules are the usual ones: two
/// bytes start at 0xc2, 0xe0 and 0xf0 narrow their first continuation byte,
/// 0xed excludes the surrogate range, and 0xf4 caps the highest code point.
pub open spec fn utf8_from(s: Seq<u8>, i: int) -> bool
    decreases s.len() - i,
{
    if i < 0 || i >= s.len() {
        true
    } else {
        let b = s[i];
        if b < 0x80 {
            utf8_from(s, i + 1)
        } else if 0xc2 <= b <= 0xdf {
            i + 2 <= s.len() && is_cont(s[i + 1]) && utf8_from(s, i + 2)
        } else if b == 0xe0 {
            i + 3 <= s.len() && 0xa0 <= s[i + 1] <= 0xbf && is_cont(s[i + 2]) && utf8_from(s, i + 3)
        } else if (0xe1 <= b <= 0xec) || b == 0xee || b == 0xef {
            i + 3 <= s.len() && is_cont(s[i + 1]) && is_cont(s[i + 2]) && utf8_from(s, i + 3)
        } else if b == 0xed {
            i + 3 <= s.len() && 0x80 <= s[i + 1] <= 0x9f && is_cont(s[i + 2]) && utf8_from(s, i + 3)
        } else if b == 0xf0 {
            i + 4 <= s.len() && 0x90 <= s[i + 1] <= 0xbf && is_cont(s[i + 2]) && is_cont(s[i + 3])
                && utf8_from(s, i + 4)
        } else if 0xf1 <= b <= 0xf3 {
            i + 4 <= s.len() && is_cont(s[i + 1]) && is_cont(s[i + 2]) && is_cont(s[i + 3])
                && utf8_from(s, i + 4)
        } else if b == 0xf4 {
            i + 4 <= s.len() && 0x80 <= s[i + 1] <= 0x8f && is_cont(s[i + 2]) && is_cont(s[i + 3])
                && utf8_from(s, i + 4)
        } else {
            false
        }
    }
}

/// Check that the whole buffer is well-formed UTF-8.
pub fn check_utf8(s: &Vec<u8>) -> (r: bool)
    ensures
        r == utf8_from(s@, 0),
{
    let n = s.len();
    let mut i: usize = 0;
    loop
        invariant
            i <= n,
            utf8_from(s@, 0) == utf8_from(s@, i as int),
        decreases n - i,
    {
        if i >= n {
            return true;
        }
        let b = s[i];
        if b < 0x80 {
            i = i + 1;
        } else if 0xc2 <= b && b <= 0xdf {
            if !(n - i >= 2 && 0x80 <= s[i + 1] && s[i + 1] <= 0xbf) {
                return false;
            }
            i = i + 2;
        } else if b == 0xe0 {
            if !(n - i >= 3 && 0xa0 <= s[i + 1] && s[i + 1] <= 0xbf && 0x80 <= s[i + 2] && s[i + 2]
                <= 0xbf) {
                return false;
            }
            i = i + 3;
        } else if (0xe1 <= b && b <= 0xec) || b == 0xee || b == 0xef {
            if !(n - i >= 3 && 0x80 <= s[i + 1] && s[i + 1] <= 0xbf && 0x80 <= s[i + 2] && s[i + 2]
                <= 0xbf) {
                return false;
            }
            i = i + 3;
        } else if b == 0xed {
            if !(n - i >= 3 && 0x80 <= s[i + 1] && s[i + 1] <= 0x9f && 0x80 <= s[i + 2] && s[i + 2]
                <= 0xbf) {
                return false;
            }
            i = i + 3;
        } else if b == 0xf0 {
            if !(n - i >= 4 && 0x90 <= s[i + 1] && s[i + 1] <= 0xbf && 0x80 <= s[i + 2] && s[i + 2]
                <= 0xbf && 0x80 <= s[i + 3] && s[i + 3] <= 0xbf) {
                return false;
            }
            i = i + 4;
        } else if 0xf1 <= b && b <= 0xf3 {
            if !(n - i >= 4 && 0x80 <= s[i + 1] && s[i + 1] <= 0xbf && 0x80 <= s[i + 2] && s[i + 2]
                <= 0xbf && 0x80 <= s[i + 3] && s[i + 3] <= 0xbf) {
                return false;
            }
            i = i + 4;
        } else if b == 0xf4 {
            if !(n - i >= 4 && 0x80 <= s[i + 1] && s[i + 1] <= 0x8f && 0x80 <= s[i + 2] && s[i + 2]
                <= 0xbf && 0x80 <= s[i + 3] && s[i + 3] <= 0xbf) {
                return false;
            }
            i = i + 4;
        } else {
            return false;
        }
    }
}

/// The numeric value of a hexadecimal digit byte, if it is one.
pub open spec fn hex_val(b: u8) -> Option<u8> {
    if 0x30 <= b <= 0x39 {
        Some((b - 0x30) as u8)
    } else if 0x41 <= b <= 0x46 {
        Some((b - 0x41 + 10) as u8)
    } else if 0x61 <= b <= 0x66 {
        Some((b - 0x61 + 10) as u8)
    } else {
        None
    }
}

/// The value of the four hexadecimal digits at `i`, if they are there.
pub open spec fn hex4(s: Seq<u8>, i: int) -> Option<int> {
    if i < 0 || i + 4 > s.len() {
        None
    } else {
        match (hex_val(s[i]), hex_val(s[i + 1]), hex_val(s[i + 2]), hex_val(s[i + 3])) {
            (Some(h0), Some(h1), Some(h2), Some(h3)) => Some(
                h0 * 0x1000 + h1 * 0x100 + h2 * 0x10 + h3,
            ),
            _ => None,
        }
    }
}

/// Read four hexadecimal digits starting at `i`.
fn read_hex4(s: &Vec<u8>, i: usize) -> (r: Option<u32>)
    ensures
        match r {
            Some(v) => hex4(s@, i as int) == Some(v as int) && v < 0x10000 && i + 4 <= s@.len(),
            None => hex4(s@, i as int) is None,
        },
{
    if i >= s.len() || s.len() - i < 4 {
        return None;
    }
    let h0 = read_hex_digit(s[i]);
    let h1 = read_hex_digit(s[i + 1]);
    let h2 = read_hex_digit(s[i + 2]);
    let h3 = read_hex_digit(s[i + 3]);
    match (h0, h1, h2, h3) {
        (Some(a), Some(b), Some(c), Some(d)) => Some(
            (a as u32) * 0x1000 + (b as u32) * 0x100 + (c as u32) * 0x10 + (d as u32),
        ),
        _ => None,
    }
}

/// Read one hexadecimal digit.
fn read_hex_digit(b: u8) -> (r: Option<u8>)
    ensures
        r == hex_val(b),
{
    if 0x30 <= b && b <= 0x39 {
        Some(b - 0x30)
    } else if 0x41 <= b && b <= 0x46 {
        Some(b - 0x41 + 10)
    } else if 0x61 <= b && b <= 0x66 {
        Some(b - 0x61 + 10)
    } else {
        None
    }
}

/// The UTF-8 encoding of the code point `cp`, for `0 <= cp <= 0x10ffff`.
pub open spec fn utf8_bytes(cp: int) -> Seq<u8> {
    if cp < 0x80 {
        seq![cp as u8]
    } else if cp < 0x800 {
        seq![(0xc0 + cp / 0x40) as u8, (0x80 + cp % 0x40) as u8]
    } else if cp < 0x10000 {
        seq![
            (0xe0 + cp / 0x1000) as u8,
            (0x80 + (cp / 0x40) % 0x40) as u8,
            (0x80 + cp % 0x40) as u8,
        ]
    } else {
        seq![
            (0xf0 + cp / 0x40000) as u8,
            (0x80 + (cp / 0x1000) % 0x40) as u8,
            (0x80 + (cp / 0x40) % 0x40) as u8,
            (0x80 + cp % 0x40) as u8,
        ]
    }
}

/// Append the UTF-8 encoding of `cp` to `out`.
fn push_utf8(out: &mut Vec<u8>, cp: u32)
    requires
        cp <= 0x10ffff,
    ensures
        final(out)@ == old(out)@ + utf8_bytes(cp as int),
{
    if cp < 0x80 {
        out.push(cp as u8);
    } else if cp < 0x800 {
        out.push(0xc0 + (cp / 0x40) as u8);
        out.push(0x80 + (cp % 0x40) as u8);
    } else if cp < 0x10000 {
        out.push(0xe0 + (cp / 0x1000) as u8);
        out.push(0x80 + ((cp / 0x40) % 0x40) as u8);
        out.push(0x80 + (cp % 0x40) as u8);
    } else {
        out.push(0xf0 + (cp / 0x40000) as u8);
        out.push(0x80 + ((cp / 0x1000) % 0x40) as u8);
        out.push(0x80 + ((cp / 0x40) % 0x40) as u8);
        out.push(0x80 + (cp % 0x40) as u8);
    }
    proof {
        assert(final(out)@ =~= old(out)@ + utf8_bytes(cp as int));
    }
}

/// A decimal digit byte.
pub open spec fn is_digit(b: u8) -> bool {
    0x30 <= b <= 0x39
}

/// Index of the first byte at or after `i` that is not a decimal digit.
pub open spec fn digits_end(s: Seq<u8>, i: int) -> int
    decreases s.len() - i,
{
    if i < 0 || i >= s.len() {
        i
    } else if is_digit(s[i]) {
        digits_end(s, i + 1)
    } else {
        i
    }
}

/// Skip decimal digits, starting at `i`.
fn skip_digits(s: &Vec<u8>, i: usize) -> (r: usize)
    requires
        i <= s@.len(),
    ensures
        r as int == digits_end(s@, i as int),
        i <= r <= s@.len(),
    decreases s@.len() - i,
{
    if i < s.len() && 0x30 <= s[i] && s[i] <= 0x39 {
        skip_digits(s, i + 1)
    } else {
        i
    }
}

/// End of the integer part of a JSON number whose first digit stands at `i`:
/// either a lone `0`, or a nonzero digit followed by more digits.
pub open spec fn int_part_end(s: Seq<u8>, i: int) -> Option<int> {
    if i < 0 || i >= s.len() {
        None
    } else if s[i] == 0x30 {
        Some(i + 1)
    } else if 0x31 <= s[i] <= 0x39 {
        Some(digits_end(s, i + 1))
    } else {
        None
    }
}

/// End of the optional fraction part starting at `i` (a `.` and at least one
/// digit), or `i` itself where none stands there.
pub open spec fn frac_part_end(s: Seq<u8>, i: int) -> Option<int> {
    if 0 <= i < s.len() && s[i] == 0x2e {
        if i + 1 < s.len() && is_digit(s[i + 1]) {
            Some(digits_end(s, i + 1))
        } else {
            None
        }
    } else {
        Some(i)
    }
}

/// End of the optional exponent part starting at `i` (an `e` or `E`, an
/// optional sign, and at least one digit), or `i` itself where none stands.
pub open spec fn exp_part_end(s: Seq<u8>, i: int) -> Option<int> {
    if 0 <= i < s.len() && (s[i] == 0x65 || s[i] == 0x45) {
        let j = if i + 1 < s.len() && (s[i + 1] == 0x2b || s[i + 1] == 0x2d) {
            i + 2
        } else {
            i + 1
        };
        if j < s.len() && is_digit(s[j]) {
            Some(digits_end(s, j))
        } else {
            None
        }
    } else {
        Some(i)
    }
}

/// End of the JSON number whose first byte (`-` or a digit) stands at `i`.
pub open spec fn num_end(s: Seq<u8>, i: int) -> Option<int> {
    if i < 0 || i >= s.len() {
        None
    } else {
        let j = if s[i] == 0x2d {
            i + 1
        } else {
            i
        };
        match int_part_end(s, j) {
            None => None,
            Some(k) => match frac_part_end(s, k) {
                None => None,
                Some(m) => exp_part_end(s, m),
            },
        }
    }
}

/// Skip the JSON number starting at `i`; `None` if it is ill-formed.
fn skip_number(s: &Vec<u8>, i: usize) -> (r: Option<usize>)
    requires
        i < s@.len(),
    ensures
        match r {
            Some(j) => num_end(s@, i as int) == Some(j as int) && i < j <= s@.len(),
            None => num_end(s@, i as int) is None,
        },
{
    let n = s.len();
    let j = if s[i] == 0x2d {
        i + 1
    } else {
        i
    };
    if j >= n {
        return None;
    }
    let k: usize;
    if s[j] == 0x30 {
        k = j + 1;
    } else if 0x31 <= s[j] && s[j] <= 0x39 {
        k = skip_digits(s, j + 1);
    } else {
        return None;
    }
    let m: usize;
    if k < n && s[k] == 0x2e {
        if k + 1 < n && 0x30 <= s[k + 1] && s[k + 1] <= 0x39 {
            m = skip_digits(s, k + 1);
        } else {
            return None;
        }
    } else {
        m = k;
    }
    if m < n && (s[m] == 0x65 || s[m] == 0x45) {
        let p = if m + 1 < n && (s[m + 1] == 0x2b || s[m + 1] == 0x2d) {
            m + 2
        } else {
            m + 1
        };
        if p < n && 0x30 <= s[p] && s[p] <= 0x39 {
            Some(skip_digits(s, p))
        } else {
            None
        }
    } else {
        Some(m)
    }
}

/// The single byte that a short escape `\x` stands for, if `x` is one of the
/// eight short escapes of JSON.
pub open spec fn esc_byte(e: u8) -> Option<u8> {
    if e == 0x22 {
        Some(0x22u8)
    } else if e == 0x5c {
        Some(0x5cu8)
    } else if e == 0x2f {
        Some(0x2fu8)
    } else if e == 0x62 {
        Some(0x08u8)
    } else if e == 0x66 {
        Some(0x0cu8)
    } else if e == 0x6e {
        Some(0x0au8)
    } else if e == 0x72 {
        Some(0x0du8)
    } else if e == 0x74 {
        Some(0x09u8)
    } else {
        None
    }
}

/// Parse the body of a JSON string: `i` stands just after the opening quote,
/// `acc` holds what is decoded so far. On success the result is the decoded
/// bytes and the index just after the closing quote.
///
/// Escapes are decoded: the eight short escapes, `\uXXXX`, and surrogate
/// pairs `\uD...\uD...`; an unpaired surrogate, a control byte, or a string
/// that never closes is a failure.
pub open spec fn str_body(s: Seq<u8>, i: int, acc: Seq<u8>) -> Option<(Seq<u8>, int)>
    decreases s.len() - i,
{
    if i < 0 || i >= s.len() {
        None
    } else {
        let b = s[i];
        if b == 0x22 {
            Some((acc, i + 1))
        } else if b == 0x5c {
            if i + 1 >= s.len() {
                None
            } else {
                let e = s[i + 1];
                if e == 0x75 {
                    match hex4(s, i + 2) {
                        None => None,
                        Some(cp) => {
                            if 0xdc00 <= cp < 0xe000 {
                                None
                            } else if 0xd800 <= cp < 0xdc00 {
                                if i + 12 <= s.len() && s[i + 6] == 0x5c && s[i + 7] == 0x75 {
                                    match hex4(s, i + 8) {
                                        None => None,
                                        Some(cp2) => {
                                            if 0xdc00 <= cp2 < 0xe000 {
                                                str_body(
                                                    s,
                                                    i + 12,
                                                    acc + utf8_bytes(
                                                        0x10000 + (cp - 0xd800) * 0x400 + (cp2
                                                            - 0xdc00),
                                                    ),
                                                )
                                            } else {
                                                None
                                            }
                                        },
                                    }
                                } else {
                                    None
                                }
                            } else {
                                str_body(s, i + 6, acc + utf8_bytes(cp))
                            }
                        },
                    }
                } else {
                    match esc_byte(e) {
                        None => None,
                        Some(x) => str_body(s, i + 2, acc.push(x)),
                    }
                }
            }
        } else if b < 0x20 {
            None
        } else {
            str_body(s, i + 1, acc.push(b))
        }
    }
}

/// Parse the body of a JSON string, `i` standing just after the opening
/// quote; return the decoded bytes and the index just after the closing one.
fn parse_str(s: &Vec<u8>, i: usize) -> (r: Option<(Vec<u8>, usize)>)
    requires
        i <= s@.len(),
    ensures
        match r {
            Some(p) => str_body(s@, i as int, Seq::empty()) == Some((p.0@, p.1 as int)) && i
                < p.1 <= s@.len(),
            None => str_body(s@, i as int, Seq::empty()) is None,
        },
{
    let n = s.len();
    let mut out: Vec<u8> = Vec::new();
    let mut j: usize = i;
    loop
        invariant
            i <= j <= n,
            str_body(s@, i as int, Seq::empty()) == str_body(s@, j as int, out@),
        decreases n - j,
    {
        if j >= n {
            return None;
        }
        let b = s[j];
        if b == 0x22 {
            return Some((out, j + 1));
        } else if b == 0x5c {
            if n - j < 2 {
                return None;
            }
            let e = s[j + 1];
            if e == 0x75 {
                match read_hex4(s, j + 2) {
                    None => {
                        return None;
                    },
                    Some(cp) => {
                        if 0xdc00 <= cp && cp < 0xe000 {
                            return None;
                        } else if 0xd800 <= cp && cp < 0xdc00 {
                            if n - j >= 12 && s[j + 6] == 0x5c && s[j + 7] == 0x75 {
                                match read_hex4(s, j + 8) {
                                    None => {
                                        return None;
                                    },
                                    Some(cp2) => {
                                        if 0xdc00 <= cp2 && cp2 < 0xe000 {
                                            let full: u32 = 0x10000 + (cp - 0xd800) * 0x400 + (cp2
                                                - 0xdc00);
                                            push_utf8(&mut out, full);
                                            j = j + 12;
                                        } else {
                                            return None;
                                        }
                                    },
                                }
                            } else {
                                return None;
                            }
                        } else {
                            push_utf8(&mut out, cp);
                            j = j + 6;
                        }
                    },
                }
            } else {
                match read_esc_byte(e) {
                    None => {
                        return None;
                    },
                    Some(x) => {
                        out.push(x);
                        j = j + 2;
                    },
                }
            }
        } else if b < 0x20 {
            return None;
        } else {
            out.push(b);
            j = j + 1;
        }
    }
}

/// Decode one short escape.
fn read_esc_byte(e: u8) -> (r: Option<u8>)
    ensures
        r == esc_byte(e),
{
    if e == 0x22 {
        Some(0x22)
    } else if e == 0x5c {
        Some(0x5c)
    } else if e == 0x2f {
        Some(0x2f)
    } else if e == 0x62 {
        Some(0x08)
    } else if e == 0x66 {
        Some(0x0c)
    } else if e == 0x6e {
        Some(0x0a)
    } else if e == 0x72 {
        Some(0x0d)
    } else if e == 0x74 {
        Some(0x09)
    } else {
        None
    }
}

/// End of the JSON value whose first byte stands at `i` (no leading
/// whitespace): a string, object, array, literal or number. Only the extent
/// is of interest; the value itself is skipped.
///
/// The bound guards on the sub-results (`k <= j`, `k > s.len()` and the
/// like) never hold of a real parse; they make termination of the mutual
/// recursion structural.
pub open spec fn val_end(s: Seq<u8>, i: int) -> Option<int>
    decreases s.len() - i, 0int,
{
    if i < 0 || i >= s.len() {
        None
    } else {
        let b = s[i];
        if b == 0x22 {
            match str_body(s, i + 1, Seq::empty()) {
                None => None,
                Some(p) => Some(p.1),
            }
        } else if b == 0x7b {
            obj_rest(s, i + 1, true)
        } else if b == 0x5b {
            arr_rest(s, i + 1, true)
        } else if b == 0x74 {
            if i + 4 <= s.len() && s[i + 1] == 0x72 && s[i + 2] == 0x75 && s[i + 3] == 0x65 {
                Some(i + 4)
            } else {
                None
            }
        } else if b == 0x66 {
            if i + 5 <= s.len() && s[i + 1] == 0x61 && s[i + 2] == 0x6c && s[i + 3] == 0x73 && s[i
                + 4] == 0x65 {
                Some(i + 5)
            } else {
                None
            }
        } else if b == 0x6e {
            if i + 4 <= s.len() && s[i + 1] == 0x75 && s[i + 2] == 0x6c && s[i + 3] == 0x6c {
                Some(i + 4)
            } else {
                None
            }
        } else if b == 0x2d || is_digit(b) {
            num_end(s, i)
        } else {
            None
        }
    }
}

/// End of the rest of a JSON array: `i` stands just after `[` (when `first`)
/// or just after a `,`.
pub open spec fn arr_rest(s: Seq<u8>, i: int, first: bool) -> Option<int>
    decreases s.len() - i, 1int,
{
    let j = ws_end(s, i);
    if j < i || j >= s.len() {
        None
    } else if first && s[j] == 0x5d {
        Some(j + 1)
    } else {
        match val_end(s, j) {
            None => None,
            Some(k) => {
                if k <= j || k > s.len() {
                    None
                } else {
                    let m = ws_end(s, k);
                    if m < k || m >= s.len() {
                        None
                    } else if s[m] == 0x2c {
                        arr_rest(s, m + 1, false)
                    } else if s[m] == 0x5d {
                        Some(m + 1)
                    } else {
                        None
                    }
                }
            },
        }
    }
}

/// End of the rest of a JSON object: `i` stands just after `{` (when
/// `first`) or just after a `,`.
pub open spec fn obj_rest(s: Seq<u8>, i: int, first: bool) -> Option<int>
    decreases s.len() - i, 1int,
{
    let j = ws_end(s, i);
    if j < i || j >= s.len() {
        None
    } else if first && s[j] == 0x7d {
        Some(j + 1)
    } else if s[j] != 0x22 {
        None
    } else {
        match str_body(s, j + 1, Seq::empty()) {
            None => None,
            Some(key) => {
                if key.1 <= j + 1 || key.1 > s.len() {
                    None
                } else {
                    let m = ws_end(s, key.1);
                    if m < key.1 || m >= s.len() || s[m] != 0x3a {
                        None
                    } else {
                        let p = ws_end(s, m + 1);
                        if p < m + 1 || p >= s.len() {
                            None
                        } else {
                            match val_end(s, p) {
                                None => None,
                                Some(q) => {
                                    if q <= p || q > s.len() {
                                        None
                                    } else {
                                        let t = ws_end(s, q);
                                        if t < q || t >= s.len() {
                                            None
                                        } else if s[t] == 0x2c {
                                            obj_rest(s, t + 1, false)
                                        } else if s[t] == 0x7d {
                                            Some(t + 1)
                                        } else {
                                            None
                                        }
                                    }
                                },
                            }
                        }
                    }
                }
            },
        }
    }
}

/// Skip the JSON value whose first byte stands at `i`.
fn parse_val(s: &Vec<u8>, i: usize) -> (r: Option<usize>)
    requires
        i <= s@.len(),
    ensures
        match r {
            Some(j) => val_end(s@, i as int) == Some(j as int) && i < j <= s@.len(),
            None => val_end(s@, i as int) is None,
        },
    decreases s@.len() - i,
{
    let n = s.len();
    if i >= n {
        return None;
    }
    let b = s[i];
    if b == 0x22 {
        match parse_str(s, i + 1) {
            None => None,
            Some(p) => Some(p.1),
        }
    } else if b == 0x7b {
        // object: one loop iteration handles one member and its separator
        let mut p: usize = i + 1;
        let mut first: bool = true;
        loop
            invariant
                i < p <= n,
                val_end(s@, i as int) == obj_rest(s@, p as int, first),
            decreases n - p,
        {
            let j = skip_ws(s, p);
            if j >= n {
                return None;
            }
            if first && s[j] == 0x7d {
                return Some(j + 1);
            }
            if s[j] != 0x22 {
                return None;
            }
            let k: usize;
            match parse_str(s, j + 1) {
                None => {
                    return None;
                },
                Some(kp) => {
                    k = kp.1;
                },
            }
            let m = skip_ws(s, k);
            if m >= n || s[m] != 0x3a {
                return None;
            }
            let p2 = skip_ws(s, m + 1);
            if p2 >= n {
                return None;
            }
            let q: usize;
            match parse_val(s, p2) {
                None => {
                    return None;
                },
                Some(qq) => {
                    q = qq;
                },
            }
            let t = skip_ws(s, q);
            if t >= n {
                return None;
            }
            if s[t] == 0x2c {
                p = t + 1;
                first = false;
            } else if s[t] == 0x7d {
                return Some(t + 1);
            } else {
                return None;
            }
        }
    } else if b == 0x5b {
        // array: one loop iteration handles one element and its separator
        let mut p: usize = i + 1;
        let mut first: bool = true;
        loop
            invariant
                i < p <= n,
                val_end(s@, i as int) == arr_rest(s@, p as int, first),
            decreases n - p,
        {
            let j = skip_ws(s, p);
            if j >= n {
                return None;
            }
            if first && s[j] == 0x5d {
                return Some(j + 1);
            }
            let k: usize;
            match parse_val(s, j) {
                None => {
                    return None;
                },
                Some(kk) => {
                    k = kk;
                },
            }
            let m = skip_ws(s, k);
            if m >= n {
                return None;
            }
            if s[m] == 0x2c {
                p = m + 1;
                first = false;
            } else if s[m] == 0x5d {
                return Some(m + 1);
            } else {
                return None;
            }
        }
    } else if b == 0x74 {
        if n - i >= 4 && s[i + 1] == 0x72 && s[i + 2] == 0x75 && s[i + 3] == 0x65 {
            Some(i + 4)
        } else {
            None
        }
    } else if b == 0x66 {
        if n - i >= 5 && s[i + 1] == 0x61 && s[i + 2] == 0x6c && s[i + 3] == 0x73 && s[i + 4]
            == 0x65 {
            Some(i + 5)
        } else {
            None
        }
    } else if b == 0x6e {
        if n - i >= 4 && s[i + 1] == 0x75 && s[i + 2] == 0x6c && s[i + 3] == 0x6c {
            Some(i + 4)
        } else {
            None
        }
    } else if b == 0x2d || (0x30 <= b && b <= 0x39) {
        skip_number(s, i)
    } else {
        None
    }
}

/// The bytes of the member name "words".
pub open spec fn words_key() -> Seq<u8> {
    seq![0x77u8, 0x6f, 0x72, 0x64, 0x73]
}

/// Does this buffer hold exactly the bytes of "words"?
fn is_words_key(key: &Vec<u8>) -> (r: bool)
    ensures
        r == (key@ == words_key()),
{
    let r = key.len() == 5 && key[0] == 0x77 && key[1] == 0x6f && key[2] == 0x72 && key[3] == 0x64
        && key[4] == 0x73;
    proof {
        if r {
            assert(key@ =~= words_key());
        }
    }
    r
}

/// The rest of the words array: `i` stands just after `[` (when `first`) or
/// just after a `,`; `acc` holds the words decoded so far. Every element
/// must be a string; the result is the decoded words and the index just
/// after `]`.
pub open spec fn strs_rest(s: Seq<u8>, i: int, first: bool, acc: Seq<Seq<u8>>) -> Option<
    (Seq<Seq<u8>>, int),
>
    decreases s.len() - i,
{
    let j = ws_end(s, i);
    if j < i || j >= s.len() {
        None
    } else if first && s[j] == 0x5d {
        Some((acc, j + 1))
    } else if s[j] != 0x22 {
        None
    } else {
        match str_body(s, j + 1, Seq::empty()) {
            None => None,
            Some(w) => {
                if w.1 <= j + 1 || w.1 > s.len() {
                    None
                } else {
                    let m = ws_end(s, w.1);
                    if m < w.1 || m >= s.len() {
                        None
                    } else if s[m] == 0x2c {
                        strs_rest(s, m + 1, false, acc.push(w.0))
                    } else if s[m] == 0x5d {
                        Some((acc.push(w.0), m + 1))
                    } else {
                        None
                    }
                }
            },
        }
    }
}

/// The rest of the top-level object: `i` stands just after `{` (when
/// `first`) or just after a `,`; `found` holds the words array if the
/// member "words" was already seen. A second "words" member, or a close
/// without one seen, is a failure; other members are skipped.
pub open spec fn members(s: Seq<u8>, i: int, first: bool, found: Option<Seq<Seq<u8>>>) -> Option<
    (Seq<Seq<u8>>, int),
>
    decreases s.len() - i,
{
    let j = ws_end(s, i);
    if j < i || j >= s.len() {
        None
    } else if first && s[j] == 0x7d {
        match found {
            Some(w) => Some((w, j + 1)),
            None => None,
        }
    } else if s[j] != 0x22 {
        None
    } else {
        match str_body(s, j + 1, Seq::empty()) {
            None => None,
            Some(key) => {
                if key.1 <= j + 1 || key.1 > s.len() {
                    None
                } else {
                    let m = ws_end(s, key.1);
                    if m < key.1 || m >= s.len() || s[m] != 0x3a {
                        None
                    } else {
                        let p = ws_end(s, m + 1);
                        if p < m + 1 || p >= s.len() {
                            None
                        } else if key.0 == words_key() {
                            if found is Some {
                                None
                            } else if s[p] != 0x5b {
                                None
                            } else {
                                match strs_rest(s, p + 1, true, Seq::empty()) {
                                    None => None,
                                    Some(w) => {
                                        if w.1 <= p + 1 || w.1 > s.len() {
                                            None
                                        } else {
                                            members_tail(s, w.1, Some(w.0))
                                        }
                                    },
                                }
                            }
                        } else {
                            match val_end(s, p) {
                                None => None,
                                Some(q) => {
                                    if q <= p || q > s.len() {
                                        None
                                    } else {
                                        members_tail(s, q, found)
                                    }
                                },
                            }
                        }
                    }
                }
            },
        }
    }
}

/// After one member of the top-level object: a `,` continues, a `}` closes.
pub open spec fn members_tail(s: Seq<u8>, i: int, found: Option<Seq<Seq<u8>>>) -> Option<
    (Seq<Seq<u8>>, int),
>
    decreases s.len() - i, 0int,
{
    let t = ws_end(s, i);
    if t < i || t >= s.len() {
        None
    } else if s[t] == 0x2c {
        members(s, t + 1, false, found)
    } else if s[t] == 0x7d {
        match found {
            Some(w) => Some((w, t + 1)),
            None => None,
        }
    } else {
        None
    }
}

/// The whole request grammar: well-formed UTF-8, then optional whitespace,
/// then an object holding a member "words" with an array of strings, then
/// optional whitespace to the end. The result is the decoded word list.
pub open spec fn parse_request(s: Seq<u8>) -> Option<Seq<Seq<u8>>> {
    if !utf8_from(s, 0) {
        None
    } else {
        let i = ws_end(s, 0);
        if i < 0 || i >= s.len() || s[i] != 0x7b {
            None
        } else {
            match members(s, i + 1, true, None) {
                None => None,
                Some(w) => {
                    if ws_end(s, w.1) == s.len() {
                        Some(w.0)
                    } else {
                        None
                    }
                },
            }
        }
    }
}

/// The views of an option of a word buffer list, for relating exec state to
/// the grammar.
pub open spec fn found_view(o: Option<Vec<Vec<u8>>>) -> Option<Seq<Seq<u8>>> {
    match o {
        None => None,
        Some(v) => Some(v.deep_view()),
    }
}

/// Parse the words array: `i` stands just after its `[`.
fn parse_strings(s: &Vec<u8>, i: usize) -> (r: Option<(Vec<Vec<u8>>, usize)>)
    requires
        i <= s@.len(),
    ensures
        match r {
            Some(p) => strs_rest(s@, i as int, true, Seq::empty()) == Some(
                (p.0.deep_view(), p.1 as int),
            ) && i < p.1 <= s@.len(),
            None => strs_rest(s@, i as int, true, Seq::empty()) is None,
        },
{
    let n = s.len();
    let mut acc: Vec<Vec<u8>> = Vec::new();
    let mut p: usize = i;
    let mut first: bool = true;
    proof {
        assert(acc.deep_view() =~= Seq::<Seq<u8>>::empty());
    }
    loop
        invariant
            i <= p <= n,
            strs_rest(s@, i as int, true, Seq::empty()) == strs_rest(
                s@,
                p as int,
                first,
                acc.deep_view(),
            ),
        decreases n - p,
    {
        let j = skip_ws(s, p);
        if j >= n {
            return None;
        }
        if first && s[j] == 0x5d {
            return Some((acc, j + 1));
        }
        if s[j] != 0x22 {
            return None;
        }
        match parse_str(s, j + 1) {
            None => {
                return None;
            },
            Some(w) => {
                let m = skip_ws(s, w.1);
                if m >= n {
                    return None;
                }
                if s[m] == 0x2c {
                    let ghost prev = acc.deep_view();
                    acc.push(w.0);
                    proof {
                        assert(acc.deep_view() =~~= prev.push(w.0@));
                    }
                    p = m + 1;
                    first = false;
                } else if s[m] == 0x5d {
                    let ghost prev = acc.deep_view();
                    acc.push(w.0);
                    proof {
                        assert(acc.deep_view() =~~= prev.push(w.0@));
                    }
                    return Some((acc, m + 1));
                } else {
                    return None;
                }
            },
        }
    }
}

/// Parse the rest of the top-level object, `i` standing just after its `{`.
fn parse_members(s: &Vec<u8>, i: usize) -> (r: Option<(Vec<Vec<u8>>, usize)>)
    requires
        i <= s@.len(),
    ensures
        match r {
            Some(p) => members(s@, i as int, true, None) == Some((p.0.deep_view(), p.1 as int)),
            None => members(s@, i as int, true, None) is None,
        },
{
    let n = s.len();
    let mut found: Option<Vec<Vec<u8>>> = None;
    let mut p: usize = i;
    let mut first: bool = true;
    loop
        invariant
            i <= p <= n,
            members(s@, i as int, true, None) == members(s@, p as int, first, found_view(found)),
        decreases n - p,
    {
        let j = skip_ws(s, p);
        if j >= n {
            return None;
        }
        if first && s[j] == 0x7d {
            return match found {
                Some(w) => Some((w, j + 1)),
                None => None,
            };
        }
        if s[j] != 0x22 {
            return None;
        }
        let key: Vec<u8>;
        let k: usize;
        match parse_str(s, j + 1) {
            None => {
                return None;
            },
            Some(kp) => {
                key = kp.0;
                k = kp.1;
            },
        }
        let m = skip_ws(s, k);
        if m >= n || s[m] != 0x3a {
            return None;
        }
        let p2 = skip_ws(s, m + 1);
        if p2 >= n {
            return None;
        }
        let q: usize;
        if is_words_key(&key) {
            if found.is_some() {
                return None;
            }
            if s[p2] != 0x5b {
                return None;
            }
            match parse_strings(s, p2 + 1) {
                None => {
                    return None;
                },
                Some(w) => {
                    found = Some(w.0);
                    q = w.1;
                },
            }
        } else {
            match parse_val(s, p2) {
                None => {
                    return None;
                },
                Some(qq) => {
                    q = qq;
                },
            }
        }
        let t = skip_ws(s, q);
        if t >= n {
            return None;
        }
        if s[t] == 0x2c {
            p = t + 1;
            first = false;
        } else if s[t] == 0x7d {
            return match found {
                Some(w) => Some((w, t + 1)),
                None => None,
            };
        } else {
            return None;
        }
    }
}

/// Decode a request body into its list of words.
///
/// Returns the words exactly when the body matches the request grammar
/// [`parse_request`]; every other body is a [`DecodeError`].
pub fn decode_words(body: &Vec<u8>) -> (r: Result<Vec<Vec<u8>>, DecodeError>)
    ensures
        match r {
            Ok(ws) => parse_request(body@) == Some(ws.deep_view()),
            Err(_) => parse_request(body@) is None,
        },
{
    if !check_utf8(body) {
        return Err(DecodeError {});
    }
    let n = body.len();
    let i = skip_ws(body, 0);
    if i >= n || body[i] != 0x7b {
        return Err(DecodeError {});
    }
    match parse_members(body, i + 1) {
        None => Err(DecodeError {}),
        Some(w) => {
            if w.1 <= n {
                let e = skip_ws(body, w.1);
                if e == n {
                    Ok(w.0)
                } else {
                    Err(DecodeError {})
                }
            } else {
                Err(DecodeError {})
            }
        },
    }
}

} // verus!
