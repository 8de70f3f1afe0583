//! The wire codec. Every frame is one UTF-8 JSON object with exactly the
//! fields `id`, `content`, `sender`, `node_id` (strings) and `timestamp`
//! (integer), in that order. `spec_encode` is the canonical wire form of a
//! message; `encode_message` produces it and `decode_message` in
//! `crate::decode` reads it back.

use vstd::prelude::*;
use crate::message::{Message, MessageView};

verus! {

pub open spec fn hex_char(d: int) -> char {
    if d == 0 { '0' }
    else if d == 1 { '1' }
    else if d == 2 { '2' }
    else if d == 3 { '3' }
    else if d == 4 { '4' }
    else if d == 5 { '5' }
    else if d == 6 { '6' }
    else if d == 7 { '7' }
    else if d == 8 { '8' }
    else if d == 9 { '9' }
    else if d == 10 { 'a' }
    else if d == 11 { 'b' }
    else if d == 12 { 'c' }
    else if d == 13 { 'd' }
    else if d == 14 { 'e' }
    else { 'f' }
}

/// How one character is written inside a JSON string: quote and backslash
/// are escaped, control characters get their short escape or a `\u00XX`
/// form, and every other character stands as itself.
pub open spec fn esc_char(c: char) -> Seq<char> {
    if c == '"' {
        seq!['\\', '"']
    } else if c == '\\' {
        seq!['\\', '\\']
    } else if c == '\u{8}' {
        seq!['\\', 'b']
    } else if c == '\t' {
        seq!['\\', 't']
    } else if c == '\n' {
        seq!['\\', 'n']
    } else if c == '\u{c}' {
        seq!['\\', 'f']
    } else if c == '\r' {
        seq!['\\', 'r']
    } else if (c as u32) < 0x20 {
        seq!['\\', 'u', '0', '0', hex_char((c as u32 / 16) as int), hex_char((c as u32 % 16) as int)]
    } else {
        seq![c]
    }
}

/// The escaped form of a whole string body.
pub open spec fn esc(s: Seq<char>) -> Seq<char>
    decreases s.len(),
{
    if s.len() == 0 {
        Seq::empty()
    } else {
        esc_char(s[0]) + esc(s.skip(1))
    }
}

pub open spec fn digit_char(d: int) -> char {
    if d == 0 { '0' }
    else if d == 1 { '1' }
    else if d == 2 { '2' }
    else if d == 3 { '3' }
    else if d == 4 { '4' }
    else if d == 5 { '5' }
    else if d == 6 { '6' }
    else if d == 7 { '7' }
    else if d == 8 { '8' }
    else { '9' }
}

/// The numeric value of a decimal digit character; 10 for anything that is
/// not a decimal digit.
pub open spec fn digit_val(c: char) -> int {
    if c == '0' { 0 }
    else if c == '1' { 1 }
    else if c == '2' { 2 }
    else if c == '3' { 3 }
    else if c == '4' { 4 }
    else if c == '5' { 5 }
    else if c == '6' { 6 }
    else if c == '7' { 7 }
    else if c == '8' { 8 }
    else if c == '9' { 9 }
    else { 10 }
}

pub open spec fn is_digit(c: char) -> bool {
    digit_val(c) < 10
}

/// The decimal digits of a natural number, most significant first.
pub open spec fn dec_digits(n: nat) -> Seq<char>
    decreases n,
{
    if n < 10 {
        seq![digit_char(n as int)]
    } else {
        dec_digits((n / 10) as nat) + seq![digit_char((n % 10) as int)]
    }
}

/// The decimal form of an integer, with a leading minus sign if negative.
pub open spec fn int_digits(i: int) -> Seq<char> {
    if i < 0 {
        seq!['-'] + dec_digits((-i) as nat)
    } else {
        dec_digits(i as nat)
    }
}

pub open spec fn lit_open() -> Seq<char> {
    seq!['{', '"', 'i', 'd', '"', ':', '"']
}

pub open spec fn lit_content() -> Seq<char> {
    seq![',', '"', 'c', 'o', 'n', 't', 'e', 'n', 't', '"', ':', '"']
}

pub open spec fn lit_sender() -> Seq<char> {
    seq![',', '"', 's', 'e', 'n', 'd', 'e', 'r', '"', ':', '"']
}

pub open spec fn lit_node_id() -> Seq<char> {
    seq![',', '"', 'n', 'o', 'd', 'e', '_', 'i', 'd', '"', ':', '"']
}

pub open spec fn lit_timestamp() -> Seq<char> {
    seq![',', '"', 't', 'i', 'm', 'e', 's', 't', 'a', 'm', 'p', '"', ':']
}

pub open spec fn quote() -> Seq<char> {
    seq!['"']
}

pub open spec fn rbrace() -> Seq<char> {
    seq!['}']
}

/// The canonical wire form of a message: the one serialization the
/// broadcast engine sends.
pub open spec fn spec_encode(m: MessageView) -> Seq<char> {
    lit_open() + esc(m.id) + quote()
        + lit_content() + esc(m.content) + quote()
        + lit_sender() + esc(m.sender) + quote()
        + lit_node_id() + esc(m.node_id) + quote()
        + lit_timestamp() + int_digits(m.timestamp) + rbrace()
}

/// Escaping distributes over concatenation.
pub proof fn lemma_esc_append(a: Seq<char>, b: Seq<char>)
    ensures
        esc(a + b) == esc(a) + esc(b),
    decreases a.len(),
{
    if a.len() == 0 {
        assert(a + b =~= b);
        assert(esc(a) + esc(b) =~= esc(b));
    } else {
        assert((a + b).skip(1) =~= a.skip(1) + b);
        assert((a + b)[0] == a[0]);
        lemma_esc_append(a.skip(1), b);
        assert(esc(a + b) =~= esc(a) + esc(b));
    }
}

/// Escaping a single character is `esc_char`.
pub proof fn lemma_esc_one(c: char)
    ensures
        esc(seq![c]) == esc_char(c),
{
    assert(seq![c].skip(1) =~= Seq::<char>::empty());
    assert(esc(Seq::<char>::empty()) =~= Seq::<char>::empty());
    assert(esc(seq![c]) == esc_char(seq![c][0]) + esc(seq![c].skip(1)));
    assert(seq![c][0] == c);
    assert(esc(seq![c]) =~= esc_char(c));
}

/// Relies on `String: FromIterator<char>`: collecting an iterator of
/// characters builds the string of exactly those characters, in order.
#[verifier::external_body]
pub(crate) fn chars_to_string(v: &Vec<char>) -> (s: String)
    ensures
        s@ == v@,
{
    v.iter().collect()
}

/// Appends the characters of `s` to `out`.
fn push_str_chars(out: &mut Vec<char>, s: &str)
    ensures
        final(out)@ == old(out)@ + s@,
{
    let n = s.unicode_len();
    let mut k: usize = 0;
    while k < n
        invariant
            k <= n,
            n == s@.len(),
            out@ == old(out)@ + s@.take(k as int),
        decreases n - k,
    {
        out.push(s.get_char(k));
        k = k + 1;
        proof {
            assert(out@ =~= old(out)@ + s@.take(k as int));
        }
    }
    proof {
        assert(s@.take(n as int) =~= s@);
    }
}

/// Appends the escaped form of `s` to `out`.
fn push_escaped(out: &mut Vec<char>, s: &str)
    ensures
        final(out)@ == old(out)@ + esc(s@),
{
    let n = s.unicode_len();
    let mut k: usize = 0;
    while k < n
        invariant
            k <= n,
            n == s@.len(),
            out@ == old(out)@ + esc(s@.take(k as int)),
        decreases n - k,
    {
        let c = s.get_char(k);
        if c == '"' {
            out.push('\\');
            out.push('"');
        } else if c == '\\' {
            out.push('\\');
            out.push('\\');
        } else if c == '\u{8}' {
            out.push('\\');
            out.push('b');
        } else if c == '\t' {
            out.push('\\');
            out.push('t');
        } else if c == '\n' {
            out.push('\\');
            out.push('n');
        } else if c == '\u{c}' {
            out.push('\\');
            out.push('f');
        } else if c == '\r' {
            out.push('\\');
            out.push('r');
        } else if (c as u32) < 0x20 {
            out.push('\\');
            out.push('u');
            out.push('0');
            out.push('0');
            out.push(hex_char_x(c as u32 / 16));
            out.push(hex_char_x(c as u32 % 16));
        } else {
            out.push(c);
        }
        proof {
            assert(s@.take(k + 1) =~= s@.take(k as int) + seq![s@[k as int]]);
            lemma_esc_append(s@.take(k as int), seq![s@[k as int]]);
            lemma_esc_one(s@[k as int]);
            assert(out@ =~= old(out)@ + esc(s@.take(k + 1)));
        }
        k = k + 1;
    }
    proof {
        assert(s@.take(n as int) =~= s@);
    }
}

fn hex_char_x(d: u32) -> (c: char)
    requires
        d < 16,
    ensures
        c == hex_char(d as int),
{
    if d == 0 { '0' }
    else if d == 1 { '1' }
    else if d == 2 { '2' }
    else if d == 3 { '3' }
    else if d == 4 { '4' }
    else if d == 5 { '5' }
    else if d == 6 { '6' }
    else if d == 7 { '7' }
    else if d == 8 { '8' }
    else if d == 9 { '9' }
    else if d == 10 { 'a' }
    else if d == 11 { 'b' }
    else if d == 12 { 'c' }
    else if d == 13 { 'd' }
    else if d == 14 { 'e' }
    else { 'f' }
}

fn digit_char_x(d: u64) -> (c: char)
    requires
        d < 10,
    ensures
        c == digit_char(d as int),
{
    if d == 0 { '0' }
    else if d == 1 { '1' }
    else if d == 2 { '2' }
    else if d == 3 { '3' }
    else if d == 4 { '4' }
    else if d == 5 { '5' }
    else if d == 6 { '6' }
    else if d == 7 { '7' }
    else if d == 8 { '8' }
    else { '9' }
}

/// Appends the decimal digits of `n` to `out`.
fn push_u64_digits(out: &mut Vec<char>, n: u64)
    ensures
        final(out)@ == old(out)@ + dec_digits(n as nat),
    decreases n,
{
    if n < 10 {
        out.push(digit_char_x(n));
        proof {
            assert(out@ =~= old(out)@ + dec_digits(n as nat));
        }
    } else {
        push_u64_digits(out, n / 10);
        out.push(digit_char_x(n % 10));
        proof {
            assert(out@ =~= old(out)@ + dec_digits(n as nat));
        }
    }
}

/// Appends the decimal form of `t`, with a sign if negative, to `out`.
fn push_timestamp(out: &mut Vec<char>, t: i64)
    ensures
        final(out)@ == old(out)@ + int_digits(t as int),
{
    if t < 0 {
        out.push('-');
        let m: u64 = (-(t as i128)) as u64;
        proof {
            assert(m as nat == (-(t as int)) as nat);
        }
        push_u64_digits(out, m);
        proof {
            assert(out@ =~= old(out)@ + int_digits(t as int));
        }
    } else {
        push_u64_digits(out, t as u64);
    }
}

/// Serializes a message to its canonical wire form.
pub fn encode_message(m: &Message) -> (s: String)
    ensures
        s@ == spec_encode(m@),
{
    let mut out: Vec<char> = Vec::new();
    proof {
        reveal_strlit("{\"id\":\"");
        reveal_strlit("\",\"content\":\"");
        reveal_strlit("\",\"sender\":\"");
        reveal_strlit("\",\"node_id\":\"");
        reveal_strlit("\",\"timestamp\":");
        assert("{\"id\":\""@ =~= lit_open());
        assert("\",\"content\":\""@ =~= quote() + lit_content());
        assert("\",\"sender\":\""@ =~= quote() + lit_sender());
        assert("\",\"node_id\":\""@ =~= quote() + lit_node_id());
        assert("\",\"timestamp\":"@ =~= quote() + lit_timestamp());
    }
    push_str_chars(&mut out, "{\"id\":\"");
    push_escaped(&mut out, m.id.as_str());
    push_str_chars(&mut out, "\",\"content\":\"");
    push_escaped(&mut out, m.content.as_str());
    push_str_chars(&mut out, "\",\"sender\":\"");
    push_escaped(&mut out, m.sender.as_str());
    push_str_chars(&mut out, "\",\"node_id\":\"");
    push_escaped(&mut out, m.node_id.as_str());
    push_str_chars(&mut out, "\",\"timestamp\":");
    push_timestamp(&mut out, m.timestamp);
    out.push('}');
    proof {
        assert(out@ =~= spec_encode(m@));
    }
    chars_to_string(&out)
}

} // verus!
