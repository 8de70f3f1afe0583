//! The wire decoder: reads one frame back into a `Message`. `sp_decode`
//! is the mathematical parser; `decode_message` is the executable one and
//! returns exactly what `sp_decode` says. A frame is a JSON object with
//! the five message fields in any order: insignificant whitespace, the
//! full JSON string escape set (including `\uXXXX` and surrogate pairs)
//! and unknown members are accepted; unknown member values are skipped
//! under a recursion budget, as the reference JSON readers bound their
//! own nesting. A duplicate or missing field, a non-integer timestamp, a
//! raw control character in a string, or trailing input is an error.

use vstd::prelude::*;
use crate::message::{Message, MessageView};
use crate::codec::{is_digit, digit_val, chars_to_string};

verus! {

/// An inbound frame that is not a valid message. Such a frame is logged
/// and dropped; it never terminates the read loop.
#[derive(Debug, PartialEq, Eq, Structural)]
pub struct ParseError;

pub open spec fn is_ws(c: char) -> bool {
    c == ' ' || c == '\t' || c == '\n' || c == '\r'
}

/// The position of the first non-whitespace character at or after `i`.
pub open spec fn sp_ws(v: Seq<char>, i: int) -> int
    decreases v.len() - i,
{
    if 0 <= i && i < v.len() && is_ws(v[i]) {
        sp_ws(v, i + 1)
    } else {
        i
    }
}

/// The numeric value of a hexadecimal digit character; 16 for anything
/// else.
pub open spec fn hex_val(c: char) -> int {
    if c == '0' { 0 }
    else if c == '1' { 1 }
    else if c == '2' { 2 }
    else if c == '3' { 3 }
    else if c == '4' { 4 }
    else if c == '5' { 5 }
    else if c == '6' { 6 }
    else if c == '7' { 7 }
    else if c == '8' { 8 }
    else if c == '9' { 9 }
    else if c == 'a' || c == 'A' { 10 }
    else if c == 'b' || c == 'B' { 11 }
    else if c == 'c' || c == 'C' { 12 }
    else if c == 'd' || c == 'D' { 13 }
    else if c == 'e' || c == 'E' { 14 }
    else if c == 'f' || c == 'F' { 15 }
    else { 16 }
}

pub open spec fn is_hex(c: char) -> bool {
    hex_val(c) < 16
}

/// A literal word expected at position `i`: the position just past it if
/// it is there, nothing otherwise.
pub open spec fn sp_lit(v: Seq<char>, i: int, l: Seq<char>) -> Option<int> {
    if 0 <= i && i + l.len() <= v.len() && v.subrange(i, i + l.len()) == l {
        Some(i + l.len())
    } else {
        None
    }
}

/// A JSON string body starting at `i` (just past the opening quote):
/// the unescaped content accumulated onto `acc`, and the position just
/// past the closing quote. A raw control character or a bad escape is an
/// error; `\uXXXX` escapes cover the basic plane directly and the rest
/// through surrogate pairs.
pub open spec fn sp_string(v: Seq<char>, i: int, acc: Seq<char>) -> Option<(Seq<char>, int)>
    decreases v.len() - i,
{
    if i < 0 || i >= v.len() {
        None
    } else if v[i] == '"' {
        Some((acc, i + 1))
    } else if v[i] == '\\' {
        if i + 1 >= v.len() {
            None
        } else {
            let c = v[i + 1];
            if c == '"' {
                sp_string(v, i + 2, acc.push('"'))
            } else if c == '\\' {
                sp_string(v, i + 2, acc.push('\\'))
            } else if c == '/' {
                sp_string(v, i + 2, acc.push('/'))
            } else if c == 'b' {
                sp_string(v, i + 2, acc.push('\u{8}'))
            } else if c == 'f' {
                sp_string(v, i + 2, acc.push('\u{c}'))
            } else if c == 'n' {
                sp_string(v, i + 2, acc.push('\n'))
            } else if c == 't' {
                sp_string(v, i + 2, acc.push('\t'))
            } else if c == 'r' {
                sp_string(v, i + 2, acc.push('\r'))
            } else if c == 'u' {
                if i + 6 > v.len() {
                    None
                } else if is_hex(v[i + 2]) && is_hex(v[i + 3]) && is_hex(v[i + 4]) && is_hex(
                    v[i + 5],
                ) {
                    let nn = hex_val(v[i + 2]) * 4096 + hex_val(v[i + 3]) * 256 + hex_val(
                        v[i + 4],
                    ) * 16 + hex_val(v[i + 5]);
                    if 0xD800 <= nn < 0xDC00 {
                        if i + 12 > v.len() {
                            None
                        } else if v[i + 6] == '\\' && v[i + 7] == 'u' && is_hex(v[i + 8]) && is_hex(
                            v[i + 9],
                        ) && is_hex(v[i + 10]) && is_hex(v[i + 11]) {
                            let low = hex_val(v[i + 8]) * 4096 + hex_val(v[i + 9]) * 256 + hex_val(
                                v[i + 10],
                            ) * 16 + hex_val(v[i + 11]);
                            if 0xDC00 <= low < 0xE000 {
                                sp_string(
                                    v,
                                    i + 12,
                                    acc.push(
                                        ((0x10000 + (nn - 0xD800) * 0x400 + (low
                                            - 0xDC00)) as u32) as char,
                                    ),
                                )
                            } else {
                                None
                            }
                        } else {
                            None
                        }
                    } else if 0xDC00 <= nn < 0xE000 {
                        None
                    } else {
                        sp_string(v, i + 6, acc.push((nn as u32) as char))
                    }
                } else {
                    None
                }
            } else {
                None
            }
        }
    } else if (v[i] as u32) < 0x20 {
        None
    } else {
        sp_string(v, i + 1, acc.push(v[i]))
    }
}

/// A run of decimal digits starting at `i`, folded onto the accumulator
/// `acc`: the value and the position of the first non-digit.
pub open spec fn sp_uint(v: Seq<char>, i: int, acc: int) -> (int, int)
    decreases v.len() - i,
{
    if 0 <= i && i < v.len() && is_digit(v[i]) {
        sp_uint(v, i + 1, acc * 10 + digit_val(v[i]))
    } else {
        (acc, i)
    }
}

/// The digit run starting at `d0` read as the timestamp magnitude: no
/// leading zero, no fraction or exponent (the field is an integer), and
/// within the range of the wire type.
pub open spec fn sp_int_body(v: Seq<char>, d0: int, neg: bool) -> Option<(int, int)> {
    let r = sp_uint(v, d0, 0);
    let j = r.1;
    if v[d0] == '0' && j != d0 + 1 {
        None
    } else if j < v.len() && (v[j] == '.' || v[j] == 'e' || v[j] == 'E') {
        None
    } else if neg {
        if r.0 <= 0x8000_0000_0000_0000 {
            Some((-r.0, j))
        } else {
            None
        }
    } else {
        if r.0 <= 0x7fff_ffff_ffff_ffff {
            Some((r.0, j))
        } else {
            None
        }
    }
}

/// A JSON integer starting at `i`, within the range of the wire type:
/// its value and the position just past it.
pub open spec fn sp_int(v: Seq<char>, i: int) -> Option<(int, int)> {
    if i < 0 || i >= v.len() {
        None
    } else if v[i] == '-' {
        if i + 1 < v.len() && is_digit(v[i + 1]) {
            sp_int_body(v, i + 1, true)
        } else {
            None
        }
    } else if is_digit(v[i]) {
        sp_int_body(v, i, false)
    } else {
        None
    }
}

pub open spec fn is_number_char(c: char) -> bool {
    is_digit(c) || c == '.' || c == 'e' || c == 'E' || c == '+' || c == '-'
}

/// The end of a loosely scanned number token starting at `i`.
pub open spec fn sp_scan_number(v: Seq<char>, i: int) -> int
    decreases v.len() - i,
{
    if 0 <= i && i < v.len() && is_number_char(v[i]) {
        sp_scan_number(v, i + 1)
    } else {
        i
    }
}

/// An unknown member's number value, skipped by shape.
pub open spec fn sp_skip_number(v: Seq<char>, i: int) -> Option<int> {
    if i < 0 || i >= v.len() {
        None
    } else if v[i] == '-' {
        if i + 1 < v.len() && is_digit(v[i + 1]) {
            Some(sp_scan_number(v, i + 1))
        } else {
            None
        }
    } else if is_digit(v[i]) {
        Some(sp_scan_number(v, i))
    } else {
        None
    }
}

/// An unknown member's JSON value, skipped by shape under the recursion
/// budget `fuel`.
pub open spec fn sp_skip_value(v: Seq<char>, i: int, fuel: nat) -> Option<int>
    decreases fuel,
{
    if fuel == 0 {
        None
    } else if i < 0 || i >= v.len() {
        None
    } else if v[i] == '"' {
        match sp_string(v, i + 1, Seq::empty()) {
            None => None,
            Some(p) => Some(p.1),
        }
    } else if v[i] == '{' {
        sp_skip_object(v, sp_ws(v, i + 1), (fuel - 1) as nat)
    } else if v[i] == '[' {
        sp_skip_array(v, sp_ws(v, i + 1), (fuel - 1) as nat)
    } else if v[i] == 't' {
        sp_lit(v, i, seq!['t', 'r', 'u', 'e'])
    } else if v[i] == 'f' {
        sp_lit(v, i, seq!['f', 'a', 'l', 's', 'e'])
    } else if v[i] == 'n' {
        sp_lit(v, i, seq!['n', 'u', 'l', 'l'])
    } else {
        sp_skip_number(v, i)
    }
}

/// The rest of a skipped object, `i` at its first token after the brace.
pub open spec fn sp_skip_object(v: Seq<char>, i: int, fuel: nat) -> Option<int>
    decreases fuel,
{
    if fuel == 0 {
        None
    } else if i < 0 || i >= v.len() {
        None
    } else if v[i] == '}' {
        Some(i + 1)
    } else {
        sp_skip_object_members(v, i, (fuel - 1) as nat)
    }
}

pub open spec fn sp_skip_object_members(v: Seq<char>, i: int, fuel: nat) -> Option<int>
    decreases fuel,
{
    if fuel == 0 {
        None
    } else if !(0 <= i && i < v.len() && v[i] == '"') {
        None
    } else {
        match sp_string(v, i + 1, Seq::empty()) {
            None => None,
            Some(p) => {
                let j2 = sp_ws(v, p.1);
                if !(j2 < v.len() && v[j2] == ':') {
                    None
                } else {
                    match sp_skip_value(v, sp_ws(v, j2 + 1), (fuel - 1) as nat) {
                        None => None,
                        Some(j4) => {
                            let j5 = sp_ws(v, j4);
                            if j5 >= v.len() {
                                None
                            } else if v[j5] == '}' {
                                Some(j5 + 1)
                            } else if v[j5] == ',' {
                                sp_skip_object_members(v, sp_ws(v, j5 + 1), (fuel - 1) as nat)
                            } else {
                                None
                            }
                        },
                    }
                }
            },
        }
    }
}

/// The rest of a skipped array, `i` at its first token after the bracket.
pub open spec fn sp_skip_array(v: Seq<char>, i: int, fuel: nat) -> Option<int>
    decreases fuel,
{
    if fuel == 0 {
        None
    } else if i < 0 || i >= v.len() {
        None
    } else if v[i] == ']' {
        Some(i + 1)
    } else {
        sp_skip_array_elements(v, i, (fuel - 1) as nat)
    }
}

pub open spec fn sp_skip_array_elements(v: Seq<char>, i: int, fuel: nat) -> Option<int>
    decreases fuel,
{
    if fuel == 0 {
        None
    } else {
        match sp_skip_value(v, i, (fuel - 1) as nat) {
            None => None,
            Some(j) => {
                let j2 = sp_ws(v, j);
                if j2 >= v.len() {
                    None
                } else if v[j2] == ']' {
                    Some(j2 + 1)
                } else if v[j2] == ',' {
                    sp_skip_array_elements(v, sp_ws(v, j2 + 1), (fuel - 1) as nat)
                } else {
                    None
                }
            },
        }
    }
}

pub open spec fn key_id() -> Seq<char> {
    seq!['i', 'd']
}

pub open spec fn key_content() -> Seq<char> {
    seq!['c', 'o', 'n', 't', 'e', 'n', 't']
}

pub open spec fn key_sender() -> Seq<char> {
    seq!['s', 'e', 'n', 'd', 'e', 'r']
}

pub open spec fn key_node_id() -> Seq<char> {
    seq!['n', 'o', 'd', 'e', '_', 'i', 'd']
}

pub open spec fn key_timestamp() -> Seq<char> {
    seq!['t', 'i', 'm', 'e', 's', 't', 'a', 'm', 'p']
}

/// The fields collected so far while reading a frame's members.
pub struct PartialFrame {
    pub id: Option<Seq<char>>,
    pub content: Option<Seq<char>>,
    pub sender: Option<Seq<char>>,
    pub node_id: Option<Seq<char>>,
    pub timestamp: Option<int>,
}

pub open spec fn empty_frame() -> PartialFrame {
    PartialFrame { id: None, content: None, sender: None, node_id: None, timestamp: None }
}

/// One member's value, dispatched on its key: a known field is read into
/// its slot (a duplicate is an error, as the reference reader treats it),
/// an unknown member's value is skipped.
pub open spec fn sp_member_value(
    v: Seq<char>,
    i: int,
    pf: PartialFrame,
    key: Seq<char>,
    fuel: nat,
) -> Option<(PartialFrame, int)> {
    if key == key_id() {
        if pf.id is Some || !(0 <= i && i < v.len() && v[i] == '"') {
            None
        } else {
            match sp_string(v, i + 1, Seq::empty()) {
                None => None,
                Some(p) => Some((PartialFrame { id: Some(p.0), ..pf }, p.1)),
            }
        }
    } else if key == key_content() {
        if pf.content is Some || !(0 <= i && i < v.len() && v[i] == '"') {
            None
        } else {
            match sp_string(v, i + 1, Seq::empty()) {
                None => None,
                Some(p) => Some((PartialFrame { content: Some(p.0), ..pf }, p.1)),
            }
        }
    } else if key == key_sender() {
        if pf.sender is Some || !(0 <= i && i < v.len() && v[i] == '"') {
            None
        } else {
            match sp_string(v, i + 1, Seq::empty()) {
                None => None,
                Some(p) => Some((PartialFrame { sender: Some(p.0), ..pf }, p.1)),
            }
        }
    } else if key == key_node_id() {
        if pf.node_id is Some || !(0 <= i && i < v.len() && v[i] == '"') {
            None
        } else {
            match sp_string(v, i + 1, Seq::empty()) {
                None => None,
                Some(p) => Some((PartialFrame { node_id: Some(p.0), ..pf }, p.1)),
            }
        }
    } else if key == key_timestamp() {
        if pf.timestamp is Some {
            None
        } else {
            match sp_int(v, i) {
                None => None,
                Some(p) => Some((PartialFrame { timestamp: Some(p.0), ..pf }, p.1)),
            }
        }
    } else {
        match sp_skip_value(v, i, fuel) {
            None => None,
            Some(j) => Some((pf, j)),
        }
    }
}

/// The members of a frame from the first key on: each key read, its
/// value dispatched, members separated by commas until the closing
/// brace.
pub open spec fn sp_members(v: Seq<char>, i: int, pf: PartialFrame, fuel: nat) -> Option<
    (PartialFrame, int),
>
    decreases fuel,
{
    if fuel == 0 {
        None
    } else if !(0 <= i && i < v.len() && v[i] == '"') {
        None
    } else {
        match sp_string(v, i + 1, Seq::empty()) {
            None => None,
            Some(kp) => {
                let j2 = sp_ws(v, kp.1);
                if !(j2 < v.len() && v[j2] == ':') {
                    None
                } else {
                    match sp_member_value(v, sp_ws(v, j2 + 1), pf, kp.0, fuel) {
                        None => None,
                        Some(mp) => {
                            let j5 = sp_ws(v, mp.1);
                            if j5 >= v.len() {
                                None
                            } else if v[j5] == '}' {
                                Some((mp.0, j5 + 1))
                            } else if v[j5] == ',' {
                                sp_members(v, sp_ws(v, j5 + 1), mp.0, (fuel - 1) as nat)
                            } else {
                                None
                            }
                        },
                    }
                }
            },
        }
    }
}

/// The mathematical decoder: the message a frame denotes, if it is a
/// JSON object carrying exactly the five message fields, and nothing
/// else.
pub open spec fn sp_decode(v: Seq<char>) -> Option<MessageView> {
    let i0 = sp_ws(v, 0);
    if !(i0 < v.len() && v[i0] == '{') {
        None
    } else {
        match sp_members(v, sp_ws(v, i0 + 1), empty_frame(), (v.len() + 1) as nat) {
            None => None,
            Some(p) => {
                if sp_ws(v, p.1) != v.len() {
                    None
                } else {
                    match (p.0.id, p.0.content, p.0.sender, p.0.node_id, p.0.timestamp) {
                        (Some(id), Some(content), Some(sender), Some(node_id), Some(t)) => Some(
                            MessageView { id, content, sender, node_id, timestamp: t },
                        ),
                        _ => None,
                    }
                }
            },
        }
    }
}

/// Relies on char::from_u32: the scalar value for a code point that is
/// not a surrogate and at most 0x10FFFF, nothing otherwise.
pub assume_specification[ char::from_u32 ](i: u32) -> (r: Option<char>)
    ensures
        r matches Some(c) ==> c as u32 == i,
        r is Some <==> (i < 0xD800 || (0xE000 <= i && i <= 0x10FFFF)),
;

/// A character is its own code point read back.
pub proof fn lemma_code_char(c: char, n: int)
    requires
        n == c as u32,
    ensures
        ((n as u32) as char) == c,
{
    assert(n as u32 == c as u32);
    assert(((c as u32) as char) == c);
}

/// The characters of a string slice.
fn chars_of(s: &str) -> (v: Vec<char>)
    ensures
        v@ == s@,
{
    let n = s.unicode_len();
    let mut v: Vec<char> = Vec::new();
    let mut k: usize = 0;
    while k < n
        invariant
            k <= n,
            n == s@.len(),
            v@ == s@.take(k as int),
        decreases n - k,
    {
        v.push(s.get_char(k));
        k = k + 1;
        proof {
            assert(v@ =~= s@.take(k as int));
        }
    }
    proof {
        assert(s@.take(n as int) =~= s@);
    }
    v
}

fn is_digit_x(c: char) -> (r: bool)
    ensures
        r == is_digit(c),
{
    c == '0' || c == '1' || c == '2' || c == '3' || c == '4' || c == '5' || c == '6'
        || c == '7' || c == '8' || c == '9'
}

fn digit_val_x(c: char) -> (d: u64)
    requires
        is_digit(c),
    ensures
        d as int == digit_val(c),
{
    if c == '0' { 0 }
    else if c == '1' { 1 }
    else if c == '2' { 2 }
    else if c == '3' { 3 }
    else if c == '4' { 4 }
    else if c == '5' { 5 }
    else if c == '6' { 6 }
    else if c == '7' { 7 }
    else { 8 + if c == '9' { 1 } else { 0 } }
}

fn is_hex_x(c: char) -> (r: bool)
    ensures
        r == is_hex(c),
{
    is_digit_x(c) || c == 'a' || c == 'A' || c == 'b' || c == 'B' || c == 'c' || c == 'C'
        || c == 'd' || c == 'D' || c == 'e' || c == 'E' || c == 'f' || c == 'F'
}

fn hex_val_x(c: char) -> (d: u32)
    requires
        is_hex(c),
    ensures
        d as int == hex_val(c),
{
    if c == '0' { 0 }
    else if c == '1' { 1 }
    else if c == '2' { 2 }
    else if c == '3' { 3 }
    else if c == '4' { 4 }
    else if c == '5' { 5 }
    else if c == '6' { 6 }
    else if c == '7' { 7 }
    else if c == '8' { 8 }
    else if c == '9' { 9 }
    else if c == 'a' || c == 'A' { 10 }
    else if c == 'b' || c == 'B' { 11 }
    else if c == 'c' || c == 'C' { 12 }
    else if c == 'd' || c == 'D' { 13 }
    else if c == 'e' || c == 'E' { 14 }
    else { 15 }
}

fn is_ws_x(c: char) -> (r: bool)
    ensures
        r == is_ws(c),
{
    c == ' ' || c == '\t' || c == '\n' || c == '\r'
}

/// Skips whitespace from `i`.
fn skip_ws(v: &Vec<char>, i: usize) -> (j: usize)
    requires
        i <= v@.len(),
    ensures
        j as int == sp_ws(v@, i as int),
        i <= j <= v@.len(),
{
    let n = v.len();
    let mut j = i;
    while j < n && is_ws_x(v[j])
        invariant
            i <= j <= n,
            n == v@.len(),
            sp_ws(v@, i as int) == sp_ws(v@, j as int),
        decreases n - j,
    {
        j = j + 1;
    }
    j
}

/// Matches the literal `l` at position `start` of `v`.
fn expect_lit(v: &Vec<char>, start: usize, l: &str) -> (r: Option<usize>)
    ensures
        r matches Some(j) ==> sp_lit(v@, start as int, l@) == Some(j as int)
            && j as int == start + l@.len() && j <= v@.len(),
        r is None ==> sp_lit(v@, start as int, l@) is None,
{
    let n = l.unicode_len();
    let vn = v.len();
    if start > vn || vn - start < n {
        return None;
    }
    let mut k: usize = 0;
    while k < n
        invariant
            k <= n,
            n == l@.len(),
            start + n <= vn,
            vn == v@.len(),
            forall|q: int| 0 <= q < k ==> v@[start + q] == l@[q],
        decreases n - k,
    {
        if v[start + k] != l.get_char(k) {
            proof {
                assert(v@.subrange(start as int, start + l@.len())[k as int] == v@[start + k]);
                assert(v@.subrange(start as int, start + l@.len()) != l@);
            }
            return None;
        }
        k = k + 1;
    }
    proof {
        assert(v@.subrange(start as int, start + l@.len()) =~= l@);
    }
    Some(start + n)
}

/// Reads a JSON string body starting just past the opening quote; returns
/// the unescaped content and the position just past the closing quote.
fn parse_string(v: &Vec<char>, start: usize) -> (r: Option<(Vec<char>, usize)>)
    ensures
        r matches Some(p) ==> sp_string(v@, start as int, Seq::empty())
            == Some((p.0@, p.1 as int)) && p.1 <= v@.len(),
        r is None ==> sp_string(v@, start as int, Seq::empty()) is None,
{
    let n = v.len();
    let mut i: usize = start;
    let mut acc: Vec<char> = Vec::new();
    loop
        invariant
            n == v@.len(),
            sp_string(v@, start as int, Seq::empty()) == sp_string(v@, i as int, acc@),
        decreases v@.len() - i,
    {
        if i >= n {
            return None;
        }
        let c = v[i];
        if c == '"' {
            return Some((acc, i + 1));
        } else if c == '\\' {
            if i + 1 >= n {
                return None;
            }
            let e = v[i + 1];
            if e == '"' {
                acc.push('"');
                i = i + 2;
            } else if e == '\\' {
                acc.push('\\');
                i = i + 2;
            } else if e == '/' {
                acc.push('/');
                i = i + 2;
            } else if e == 'b' {
                acc.push('\u{8}');
                i = i + 2;
            } else if e == 'f' {
                acc.push('\u{c}');
                i = i + 2;
            } else if e == 'n' {
                acc.push('\n');
                i = i + 2;
            } else if e == 't' {
                acc.push('\t');
                i = i + 2;
            } else if e == 'r' {
                acc.push('\r');
                i = i + 2;
            } else if e == 'u' {
                if n - i < 6 {
                    return None;
                }
                if !(is_hex_x(v[i + 2]) && is_hex_x(v[i + 3]) && is_hex_x(v[i + 4])
                    && is_hex_x(v[i + 5])) {
                    return None;
                }
                let nn: u32 = hex_val_x(v[i + 2]) * 4096 + hex_val_x(v[i + 3]) * 256
                    + hex_val_x(v[i + 4]) * 16 + hex_val_x(v[i + 5]);
                if 0xD800 <= nn && nn < 0xDC00 {
                    if n - i < 12 {
                        return None;
                    }
                    if !(v[i + 6] == '\\' && v[i + 7] == 'u' && is_hex_x(v[i + 8])
                        && is_hex_x(v[i + 9]) && is_hex_x(v[i + 10]) && is_hex_x(v[i + 11])) {
                        return None;
                    }
                    let low: u32 = hex_val_x(v[i + 8]) * 4096 + hex_val_x(v[i + 9]) * 256
                        + hex_val_x(v[i + 10]) * 16 + hex_val_x(v[i + 11]);
                    if !(0xDC00 <= low && low < 0xE000) {
                        return None;
                    }
                    let code: u32 = 0x10000 + (nn - 0xD800) * 0x400 + (low - 0xDC00);
                    let c2 = match char::from_u32(code) {
                        Some(c2) => c2,
                        None => {
                            return None;
                        },
                    };
                    proof {
                        lemma_code_char(c2, code as int);
                        assert(c2 == (code as char));
                    }
                    acc.push(c2);
                    i = i + 12;
                } else if 0xDC00 <= nn && nn < 0xE000 {
                    return None;
                } else {
                    let c2 = match char::from_u32(nn) {
                        Some(c2) => c2,
                        None => {
                            return None;
                        },
                    };
                    proof {
                        lemma_code_char(c2, nn as int);
                        assert(c2 == (nn as char));
                    }
                    acc.push(c2);
                    i = i + 6;
                }
            } else {
                return None;
            }
        } else if (c as u32) < 0x20 {
            return None;
        } else {
            acc.push(c);
            i = i + 1;
        }
    }
}

/// The value a digit run folds to only grows from its accumulator.
proof fn lemma_sp_uint_ge(v: Seq<char>, i: int, acc: int)
    requires
        acc >= 0,
    ensures
        sp_uint(v, i, acc).0 >= acc,
        sp_uint(v, i, acc).1 >= i,
    decreases v.len() - i,
{
    if 0 <= i && i < v.len() && is_digit(v[i]) {
        assert(acc * 10 >= acc) by (nonlinear_arith)
            requires acc >= 0;
        lemma_sp_uint_ge(v, i + 1, acc * 10 + digit_val(v[i]));
    }
}

/// Reads a JSON integer in the range of the wire type.
fn parse_int(v: &Vec<char>, start: usize) -> (r: Option<(i64, usize)>)
    ensures
        r matches Some(p) ==> sp_int(v@, start as int) == Some((p.0 as int, p.1 as int))
            && p.1 <= v@.len(),
        r is None ==> sp_int(v@, start as int) is None,
{
    let n = v.len();
    if start >= n {
        return None;
    }
    let neg = v[start] == '-';
    let d0: usize = if neg { start + 1 } else { start };
    if d0 >= n || !is_digit_x(v[d0]) {
        return None;
    }
    let bound: u128 = if neg { 0x8000_0000_0000_0000 } else { 0x7fff_ffff_ffff_ffff };
    let mut i: usize = d0;
    let mut acc: u128 = 0;
    while i < n && is_digit_x(v[i])
        invariant
            d0 <= i <= n,
            n == v@.len(),
            acc <= bound,
            bound == if neg { 0x8000_0000_0000_0000u128 } else { 0x7fff_ffff_ffff_ffffu128 },
            sp_uint(v@, d0 as int, 0) == sp_uint(v@, i as int, acc as int),
            start < v@.len(),
            neg == (v@[start as int] == '-'),
            d0 == if neg { start + 1 } else { start as int },
            d0 < v@.len(),
            is_digit(v@[d0 as int]),
        decreases n - i,
    {
        let d = digit_val_x(v[i]);
        let next: u128 = acc * 10 + d as u128;
        proof {
            assert(sp_uint(v@, i as int, acc as int) == sp_uint(v@, i + 1, next as int));
        }
        i = i + 1;
        acc = next;
        if acc > bound {
            proof {
                lemma_sp_uint_ge(v@, i as int, acc as int);
            }
            return None;
        }
    }
    proof {
        assert(sp_uint(v@, i as int, acc as int) == (acc as int, i as int));
    }
    if v[d0] == '0' && i != d0 + 1 {
        return None;
    }
    if i < n && (v[i] == '.' || v[i] == 'e' || v[i] == 'E') {
        return None;
    }
    let t: i64 = if neg {
        if acc == 0x8000_0000_0000_0000 {
            i64::MIN
        } else {
            -((acc as u64) as i64)
        }
    } else {
        acc as i64
    };
    Some((t, i))
}

fn is_number_char_x(c: char) -> (r: bool)
    ensures
        r == is_number_char(c),
{
    is_digit_x(c) || c == '.' || c == 'e' || c == 'E' || c == '+' || c == '-'
}

/// Scans past a number token.
fn scan_number(v: &Vec<char>, start: usize) -> (j: usize)
    requires
        start <= v@.len(),
    ensures
        j as int == sp_scan_number(v@, start as int),
        start <= j <= v@.len(),
{
    let n = v.len();
    let mut j = start;
    while j < n && is_number_char_x(v[j])
        invariant
            start <= j <= n,
            n == v@.len(),
            sp_scan_number(v@, start as int) == sp_scan_number(v@, j as int),
        decreases n - j,
    {
        j = j + 1;
    }
    j
}

/// Skips one JSON value of an unknown member.
fn skip_value(v: &Vec<char>, i: usize, fuel: u128) -> (r: Option<usize>)
    ensures
        r matches Some(j) ==> sp_skip_value(v@, i as int, fuel as nat) == Some(j as int)
            && j <= v@.len(),
        r is None ==> sp_skip_value(v@, i as int, fuel as nat) is None,
    decreases fuel,
{
    let n = v.len();
    if fuel == 0 || i >= n {
        return None;
    }
    let c = v[i];
    if c == '"' {
        match parse_string(v, i + 1) {
            Some(p) => Some(p.1),
            None => None,
        }
    } else if c == '{' {
        let j = skip_ws(v, i + 1);
        skip_object(v, j, fuel - 1)
    } else if c == '[' {
        let j = skip_ws(v, i + 1);
        skip_array(v, j, fuel - 1)
    } else if c == 't' {
        proof {
            reveal_strlit("true");
            assert("true"@ =~= seq!['t', 'r', 'u', 'e']);
        }
        expect_lit(v, i, "true")
    } else if c == 'f' {
        proof {
            reveal_strlit("false");
            assert("false"@ =~= seq!['f', 'a', 'l', 's', 'e']);
        }
        expect_lit(v, i, "false")
    } else if c == 'n' {
        proof {
            reveal_strlit("null");
            assert("null"@ =~= seq!['n', 'u', 'l', 'l']);
        }
        expect_lit(v, i, "null")
    } else if c == '-' {
        if i + 1 < n && is_digit_x(v[i + 1]) {
            Some(scan_number(v, i + 1))
        } else {
            None
        }
    } else if is_digit_x(c) {
        Some(scan_number(v, i))
    } else {
        None
    }
}

/// Skips the rest of an unknown object value.
fn skip_object(v: &Vec<char>, i: usize, fuel: u128) -> (r: Option<usize>)
    ensures
        r matches Some(j) ==> sp_skip_object(v@, i as int, fuel as nat) == Some(j as int)
            && j <= v@.len(),
        r is None ==> sp_skip_object(v@, i as int, fuel as nat) is None,
    decreases fuel,
{
    let n = v.len();
    if fuel == 0 || i >= n {
        return None;
    }
    if v[i] == '}' {
        Some(i + 1)
    } else {
        skip_object_members(v, i, fuel - 1)
    }
}

fn skip_object_members(v: &Vec<char>, i: usize, fuel: u128) -> (r: Option<usize>)
    ensures
        r matches Some(j) ==> sp_skip_object_members(v@, i as int, fuel as nat)
            == Some(j as int) && j <= v@.len(),
        r is None ==> sp_skip_object_members(v@, i as int, fuel as nat) is None,
    decreases fuel,
{
    let n = v.len();
    if fuel == 0 || !(i < n && v[i] == '"') {
        return None;
    }
    let (_key, j) = match parse_string(v, i + 1) {
        Some(p) => p,
        None => {
            return None;
        },
    };
    let j2 = skip_ws(v, j);
    if !(j2 < n && v[j2] == ':') {
        return None;
    }
    let j3 = skip_ws(v, j2 + 1);
    let j4 = match skip_value(v, j3, fuel - 1) {
        Some(j4) => j4,
        None => {
            return None;
        },
    };
    let j5 = skip_ws(v, j4);
    if j5 >= n {
        return None;
    }
    if v[j5] == '}' {
        Some(j5 + 1)
    } else if v[j5] == ',' {
        let j6 = skip_ws(v, j5 + 1);
        skip_object_members(v, j6, fuel - 1)
    } else {
        None
    }
}

/// Skips the rest of an unknown array value.
fn skip_array(v: &Vec<char>, i: usize, fuel: u128) -> (r: Option<usize>)
    ensures
        r matches Some(j) ==> sp_skip_array(v@, i as int, fuel as nat) == Some(j as int)
            && j <= v@.len(),
        r is None ==> sp_skip_array(v@, i as int, fuel as nat) is None,
    decreases fuel,
{
    let n = v.len();
    if fuel == 0 || i >= n {
        return None;
    }
    if v[i] == ']' {
        Some(i + 1)
    } else {
        skip_array_elements(v, i, fuel - 1)
    }
}

fn skip_array_elements(v: &Vec<char>, i: usize, fuel: u128) -> (r: Option<usize>)
    ensures
        r matches Some(j) ==> sp_skip_array_elements(v@, i as int, fuel as nat)
            == Some(j as int) && j <= v@.len(),
        r is None ==> sp_skip_array_elements(v@, i as int, fuel as nat) is None,
    decreases fuel,
{
    let n = v.len();
    if fuel == 0 {
        return None;
    }
    let j = match skip_value(v, i, fuel - 1) {
        Some(j) => j,
        None => {
            return None;
        },
    };
    let j2 = skip_ws(v, j);
    if j2 >= n {
        return None;
    }
    if v[j2] == ']' {
        Some(j2 + 1)
    } else if v[j2] == ',' {
        let j3 = skip_ws(v, j2 + 1);
        skip_array_elements(v, j3, fuel - 1)
    } else {
        None
    }
}

/// Whether a collected key equals the literal `l`.
fn key_is(k: &Vec<char>, l: &str) -> (r: bool)
    ensures
        r == (k@ == l@),
{
    let n = l.unicode_len();
    if k.len() != n {
        proof {
            if k@ == l@ {
                assert(k@.len() == l@.len());
            }
        }
        return false;
    }
    let mut q: usize = 0;
    while q < n
        invariant
            q <= n,
            n == l@.len(),
            n == k@.len(),
            forall|a: int| 0 <= a < q ==> k@[a] == l@[a],
        decreases n - q,
    {
        if k[q] != l.get_char(q) {
            proof {
                assert(k@[q as int] != l@[q as int]);
            }
            return false;
        }
        q = q + 1;
    }
    proof {
        assert(k@ =~= l@);
    }
    true
}

/// The field slots an executable parse fills in.
struct FrameSlots {
    id: Option<Vec<char>>,
    content: Option<Vec<char>>,
    sender: Option<Vec<char>>,
    node_id: Option<Vec<char>>,
    timestamp: Option<i64>,
}

pub open spec fn opt_seq_view(o: Option<Vec<char>>) -> Option<Seq<char>> {
    match o {
        Option::None => Option::None,
        Option::Some(x) => Option::Some(x@),
    }
}

impl FrameSlots {
    spec fn pf(self) -> PartialFrame {
        PartialFrame {
            id: opt_seq_view(self.id),
            content: opt_seq_view(self.content),
            sender: opt_seq_view(self.sender),
            node_id: opt_seq_view(self.node_id),
            timestamp: match self.timestamp {
                Option::None => Option::None,
                Option::Some(t) => Option::Some(t as int),
            },
        }
    }
}

/// Reads members from the first key on, mirroring `sp_members`.
fn parse_members(v: &Vec<char>, i: usize, slots: FrameSlots, fuel: u128) -> (r: Result<
    (FrameSlots, usize),
    ParseError,
>)
    ensures
        r matches Ok(p) ==> sp_members(v@, i as int, slots.pf(), fuel as nat)
            == Some((p.0.pf(), p.1 as int)) && p.1 <= v@.len(),
        r is Err ==> sp_members(v@, i as int, slots.pf(), fuel as nat) is None,
    decreases fuel,
{
    proof {
        reveal_strlit("id");
        reveal_strlit("content");
        reveal_strlit("sender");
        reveal_strlit("node_id");
        reveal_strlit("timestamp");
        assert("id"@ =~= key_id());
        assert("content"@ =~= key_content());
        assert("sender"@ =~= key_sender());
        assert("node_id"@ =~= key_node_id());
        assert("timestamp"@ =~= key_timestamp());
    }
    let n = v.len();
    if fuel == 0 || !(i < n && v[i] == '"') {
        return Err(ParseError);
    }
    let (key, j) = match parse_string(v, i + 1) {
        Some(p) => p,
        None => {
            return Err(ParseError);
        },
    };
    let j2 = skip_ws(v, j);
    if !(j2 < n && v[j2] == ':') {
        return Err(ParseError);
    }
    let j3 = skip_ws(v, j2 + 1);
    let ghost pf = slots.pf();
    let ghost keyv = key@;
    let (slots2, j4): (FrameSlots, usize) = if key_is(&key, "id") {
        if slots.id.is_some() || !(j3 < n && v[j3] == '"') {
            return Err(ParseError);
        }
        let (s, j4) = match parse_string(v, j3 + 1) {
            Some(p) => p,
            None => {
                return Err(ParseError);
            },
        };
        (FrameSlots { id: Some(s), ..slots }, j4)
    } else if key_is(&key, "content") {
        if slots.content.is_some() || !(j3 < n && v[j3] == '"') {
            return Err(ParseError);
        }
        let (s, j4) = match parse_string(v, j3 + 1) {
            Some(p) => p,
            None => {
                return Err(ParseError);
            },
        };
        (FrameSlots { content: Some(s), ..slots }, j4)
    } else if key_is(&key, "sender") {
        if slots.sender.is_some() || !(j3 < n && v[j3] == '"') {
            return Err(ParseError);
        }
        let (s, j4) = match parse_string(v, j3 + 1) {
            Some(p) => p,
            None => {
                return Err(ParseError);
            },
        };
        (FrameSlots { sender: Some(s), ..slots }, j4)
    } else if key_is(&key, "node_id") {
        if slots.node_id.is_some() || !(j3 < n && v[j3] == '"') {
            return Err(ParseError);
        }
        let (s, j4) = match parse_string(v, j3 + 1) {
            Some(p) => p,
            None => {
                return Err(ParseError);
            },
        };
        (FrameSlots { node_id: Some(s), ..slots }, j4)
    } else if key_is(&key, "timestamp") {
        if slots.timestamp.is_some() {
            return Err(ParseError);
        }
        let (t, j4) = match parse_int(v, j3) {
            Some(p) => p,
            None => {
                return Err(ParseError);
            },
        };
        (FrameSlots { timestamp: Some(t), ..slots }, j4)
    } else {
        let j4 = match skip_value(v, j3, fuel) {
            Some(j4) => j4,
            None => {
                return Err(ParseError);
            },
        };
        (slots, j4)
    };
    proof {
        assert(sp_member_value(v@, j3 as int, pf, keyv, fuel as nat)
            == Some((slots2.pf(), j4 as int)));
    }
    let j5 = skip_ws(v, j4);
    if j5 >= n {
        return Err(ParseError);
    }
    if v[j5] == '}' {
        Ok((slots2, j5 + 1))
    } else if v[j5] == ',' {
        let j6 = skip_ws(v, j5 + 1);
        parse_members(v, j6, slots2, fuel - 1)
    } else {
        Err(ParseError)
    }
}

/// Decodes one frame. Returns the message a valid frame denotes, and an
/// error on every other input: a malformed frame is reported, never
/// mistaken for a message.
pub fn decode_message(s: &str) -> (r: Result<Message, ParseError>)
    ensures
        r matches Ok(m) ==> sp_decode(s@) == Some(m@),
        r is Err ==> sp_decode(s@) is None,
{
    let v = chars_of(s);
    let n = v.len();
    let i0 = skip_ws(&v, 0);
    if !(i0 < n && v[i0] == '{') {
        return Err(ParseError);
    }
    let i1 = skip_ws(&v, i0 + 1);
    let slots0 = FrameSlots { id: None, content: None, sender: None, node_id: None,
        timestamp: None };
    proof {
        assert(slots0.pf() == empty_frame());
    }
    let fuel: u128 = n as u128 + 1;
    let (slots, j) = match parse_members(&v, i1, slots0, fuel) {
        Ok(p) => p,
        Err(_) => {
            return Err(ParseError);
        },
    };
    let j2 = skip_ws(&v, j);
    if j2 != n {
        return Err(ParseError);
    }
    let id = match slots.id {
        Some(x) => x,
        None => {
            return Err(ParseError);
        },
    };
    let content = match slots.content {
        Some(x) => x,
        None => {
            return Err(ParseError);
        },
    };
    let sender = match slots.sender {
        Some(x) => x,
        None => {
            return Err(ParseError);
        },
    };
    let node_id = match slots.node_id {
        Some(x) => x,
        None => {
            return Err(ParseError);
        },
    };
    let timestamp = match slots.timestamp {
        Some(x) => x,
        None => {
            return Err(ParseError);
        },
    };
    let m = Message {
        id: chars_to_string(&id),
        content: chars_to_string(&content),
        sender: chars_to_string(&sender),
        node_id: chars_to_string(&node_id),
        timestamp,
    };
    Ok(m)
}

} // verus!
