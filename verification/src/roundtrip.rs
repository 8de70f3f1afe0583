//! The round-trip law of the wire codec: decoding an encoded message
//! yields the original, field for field.

use vstd::prelude::*;
use crate::message::MessageView;
use crate::codec::{
    esc, esc_char, hex_char, dec_digits, int_digits, digit_val, digit_char, is_digit,
    spec_encode,
};
use crate::decode::{
    sp_ws, sp_string, sp_uint, sp_int, sp_int_body, sp_members, sp_member_value, sp_decode,
    hex_val, is_hex, is_ws, key_id, key_content, key_sender, key_node_id, key_timestamp,
    PartialFrame, empty_frame,
};

verus! {

pub open spec fn pow10(k: nat) -> int
    decreases k,
{
    if k == 0 {
        1
    } else {
        10 * pow10((k - 1) as nat)
    }
}

/// The value of a sequence of decimal digit characters.
pub open spec fn seq_val(s: Seq<char>) -> int
    decreases s.len(),
{
    if s.len() == 0 {
        0
    } else {
        digit_val(s[0]) * pow10((s.len() - 1) as nat) + seq_val(s.skip(1))
    }
}

proof fn lemma_pow10_pos(k: nat)
    ensures
        pow10(k) >= 1,
    decreases k,
{
    if k > 0 {
        lemma_pow10_pos((k - 1) as nat);
    }
}

proof fn lemma_pow10_add(x: nat, y: nat)
    ensures
        pow10(x + y) == pow10(x) * pow10(y),
    decreases x,
{
    if x == 0 {
        assert(pow10(y) == 1 * pow10(y));
    } else {
        lemma_pow10_add((x - 1) as nat, y);
        assert(pow10((x + y - 1) as nat) == pow10((x - 1) as nat) * pow10(y));
        assert(10 * (pow10((x - 1) as nat) * pow10(y)) == (10 * pow10((x - 1) as nat)) * pow10(y))
            by (nonlinear_arith);
    }
}

/// A digit run folds to its accumulated prefix scaled past the run, plus
/// the run's own value, and ends at the first non-digit.
proof fn lemma_sp_uint_run(v: Seq<char>, i: int, j: int, acc: int)
    requires
        0 <= i <= j <= v.len(),
        forall|k: int| i <= k < j ==> is_digit(v[k]),
        j == v.len() || !is_digit(v[j]),
        acc >= 0,
    ensures
        sp_uint(v, i, acc) == (acc * pow10((j - i) as nat) + seq_val(v.subrange(i, j)), j),
    decreases j - i,
{
    if i == j {
        assert(v.subrange(i, j) =~= Seq::<char>::empty());
        assert(pow10(0) == 1);
    } else {
        let c = v[i];
        assert(is_digit(c));
        let acc2 = acc * 10 + digit_val(c);
        lemma_sp_uint_run(v, i + 1, j, acc2);
        let sub = v.subrange(i, j);
        let sub2 = v.subrange(i + 1, j);
        assert(sub.skip(1) =~= sub2);
        assert(sub[0] == c);
        let p = pow10((j - i - 1) as nat);
        lemma_pow10_pos((j - i - 1) as nat);
        assert(pow10((j - i) as nat) == 10 * p);
        assert((acc * 10 + digit_val(c)) * p == acc * (10 * p) + digit_val(c) * p)
            by (nonlinear_arith);
        assert(seq_val(sub) == digit_val(c) * p + seq_val(sub2));
        assert(sp_uint(v, i, acc) == sp_uint(v, i + 1, acc2));
    }
}

proof fn lemma_seq_val_append(a: Seq<char>, b: Seq<char>)
    ensures
        seq_val(a + b) == seq_val(a) * pow10(b.len()) + seq_val(b),
    decreases a.len(),
{
    if a.len() == 0 {
        assert(a + b =~= b);
        assert(seq_val(a) == 0);
    } else {
        assert((a + b)[0] == a[0]);
        assert((a + b).skip(1) =~= a.skip(1) + b);
        lemma_seq_val_append(a.skip(1), b);
        let d = digit_val(a[0]);
        let la = (a.len() - 1) as nat;
        let lb = b.len();
        lemma_pow10_add(la, lb);
        assert(seq_val(a + b) == d * pow10((la + lb) as nat) + seq_val(a.skip(1) + b));
        assert(d * (pow10(la) * pow10(lb)) + seq_val(a.skip(1)) * pow10(lb)
            == (d * pow10(la) + seq_val(a.skip(1))) * pow10(lb)) by (nonlinear_arith);
    }
}

proof fn lemma_seq_val_one(c: char)
    ensures
        seq_val(seq![c]) == digit_val(c),
{
    assert(seq![c].skip(1) =~= Seq::<char>::empty());
    assert(seq_val(Seq::<char>::empty()) == 0);
    assert(pow10(0) == 1);
    assert(seq_val(seq![c]) == digit_val(c) * pow10(0) + seq_val(seq![c].skip(1)));
}

proof fn lemma_digit_inverse(d: int)
    requires
        0 <= d < 10,
    ensures
        digit_val(digit_char(d)) == d,
        is_digit(digit_char(d)),
{
}

proof fn lemma_hex_inverse(d: int)
    requires
        0 <= d < 16,
    ensures
        hex_val(hex_char(d)) == d,
        is_hex(hex_char(d)),
{
}

/// The decimal digits of `n` are digits, at least one, value `n`, and
/// never start with a superfluous zero.
proof fn lemma_dec_digits(n: nat)
    ensures
        dec_digits(n).len() >= 1,
        forall|k: int| 0 <= k < dec_digits(n).len() ==> is_digit(#[trigger] dec_digits(n)[k]),
        seq_val(dec_digits(n)) == n,
        dec_digits(n).len() > 1 ==> dec_digits(n)[0] != '0',
    decreases n,
{
    if n < 10 {
        lemma_digit_inverse(n as int);
        lemma_seq_val_one(digit_char(n as int));
        assert(seq_val(dec_digits(n)) == n);
    } else {
        lemma_dec_digits((n / 10) as nat);
        lemma_digit_inverse((n % 10) as int);
        let a = dec_digits((n / 10) as nat);
        let b = seq![digit_char((n % 10) as int)];
        lemma_seq_val_append(a, b);
        lemma_seq_val_one(digit_char((n % 10) as int));
        assert(seq_val(b) == n % 10);
        assert(pow10(1) == 10);
        assert(seq_val(a + b) == (n / 10) * 10 + n % 10);
        assert(n == 10 * (n / 10) + n % 10);
        assert(forall|k: int| 0 <= k < (a + b).len() ==> is_digit(#[trigger] (a + b)[k]));
        assert((a + b)[0] == a[0]);
        if n / 10 < 10 {
            assert(a =~= seq![digit_char((n / 10) as int)]);
            assert(n / 10 >= 1);
            assert(a[0] != '0');
        } else {
            lemma_dec_digits(((n / 10) / 10) as nat);
            assert(a.len() > 1);
            assert(a[0] != '0');
        }
    }
}

/// Escaping leaves a string of plain characters (no quote, no backslash,
/// no control character) exactly as it is.
proof fn lemma_esc_plain(s: Seq<char>)
    requires
        forall|k: int| 0 <= k < s.len() ==> 0x20 <= (#[trigger] s[k]) as u32 && s[k] != '"'
            && s[k] != '\\',
    ensures
        esc(s) == s,
    decreases s.len(),
{
    if s.len() == 0 {
        assert(esc(s) =~= s);
    } else {
        let c = s[0];
        assert(0x20 <= c as u32);
        assert(c != '\u{8}' && c != '\t' && c != '\n' && c != '\u{c}' && c != '\r');
        assert(esc_char(c) =~= seq![c]);
        assert(forall|k: int| 0 <= k < s.skip(1).len() ==> #[trigger] s.skip(1)[k] == s[k + 1]);
        lemma_esc_plain(s.skip(1));
        assert(esc(s) =~= s);
    }
}

/// Reading a JSON string whose body is the escaped form of `s`, up to its
/// closing quote, yields `s` appended to the accumulator.
proof fn lemma_sp_string_esc(v: Seq<char>, i: int, s: Seq<char>, acc: Seq<char>)
    requires
        0 <= i,
        i + esc(s).len() + 1 <= v.len(),
        v.subrange(i, i + esc(s).len()) == esc(s),
        v[i + esc(s).len()] == '"',
    ensures
        sp_string(v, i, acc) == Some((acc + s, i + esc(s).len() + 1)),
    decreases s.len(),
{
    if s.len() == 0 {
        assert(esc(s).len() == 0);
        assert(v[i] == '"');
        assert(acc + s =~= acc);
    } else {
        let c = s[0];
        let s2 = s.skip(1);
        assert(esc(s) == esc_char(c) + esc(s2));
        assert(v.subrange(i, i + esc(s).len())[0] == v[i]);
        if c == '"' || c == '\\' || c == '\u{8}' || c == '\t' || c == '\n' || c == '\u{c}'
            || c == '\r' {
            let e: char = if c == '"' { '"' } else if c == '\\' { '\\' } else if c == '\u{8}' {
                'b'
            } else if c == '\t' { 't' } else if c == '\n' { 'n' } else if c == '\u{c}' {
                'f'
            } else { 'r' };
            assert(esc_char(c) =~= seq!['\\', e]);
            assert(esc_char(c).len() == 2);
            assert(v.subrange(i, i + esc(s).len())[1] == v[i + 1]);
            assert(v[i] == esc(s)[0]);
            assert(v[i + 1] == esc(s)[1]);
            assert(esc(s)[0] == '\\');
            assert(esc(s)[1] == e);
            assert(v.subrange(i + 2, i + 2 + esc(s2).len()) =~= esc(s2)) by {
                assert(forall|k: int| 0 <= k < esc(s2).len()
                    ==> v.subrange(i, i + esc(s).len())[k + 2] == #[trigger] esc(s2)[k]);
            };
            lemma_sp_string_esc(v, i + 2, s2, acc.push(c));
            assert(acc.push(c) + s2 =~= acc + s);
            assert(sp_string(v, i, acc) == sp_string(v, i + 2, acc.push(c)));
        } else if (c as u32) < 0x20 {
            let hi = ((c as u32) / 16) as int;
            let lo = ((c as u32) % 16) as int;
            assert(esc_char(c) =~= seq!['\\', 'u', '0', '0', hex_char(hi), hex_char(lo)]);
            assert(esc_char(c).len() == 6);
            assert(v.subrange(i, i + esc(s).len())[1] == v[i + 1]);
            assert(v.subrange(i, i + esc(s).len())[2] == v[i + 2]);
            assert(v.subrange(i, i + esc(s).len())[3] == v[i + 3]);
            assert(v.subrange(i, i + esc(s).len())[4] == v[i + 4]);
            assert(v.subrange(i, i + esc(s).len())[5] == v[i + 5]);
            assert(v[i] == '\\');
            assert(v[i + 1] == 'u');
            assert(v[i + 2] == '0');
            assert(v[i + 3] == '0');
            assert(v[i + 4] == hex_char(hi));
            assert(v[i + 5] == hex_char(lo));
            lemma_hex_inverse(hi);
            lemma_hex_inverse(lo);
            assert(hex_val('0') == 0);
            assert(is_hex('0'));
            let nn = hex_val(v[i + 2]) * 4096 + hex_val(v[i + 3]) * 256 + hex_val(v[i + 4]) * 16
                + hex_val(v[i + 5]);
            assert(nn == hi * 16 + lo);
            assert(nn == c as u32);
            crate::decode::lemma_code_char(c, nn);
            assert(((nn as u32) as char) == c);
            assert(v.subrange(i + 6, i + 6 + esc(s2).len()) =~= esc(s2)) by {
                assert(forall|k: int| 0 <= k < esc(s2).len()
                    ==> v.subrange(i, i + esc(s).len())[k + 6] == #[trigger] esc(s2)[k]);
            };
            lemma_sp_string_esc(v, i + 6, s2, acc.push(c));
            assert(acc.push(c) + s2 =~= acc + s);
            assert(sp_string(v, i, acc) == sp_string(v, i + 6, acc.push(c)));
        } else {
            assert(esc_char(c) =~= seq![c]);
            assert(v[i] == esc(s)[0]);
            assert(esc(s)[0] == c);
            assert(!((v[i] as u32) < 0x20));
            assert(v.subrange(i + 1, i + 1 + esc(s2).len()) =~= esc(s2)) by {
                assert(forall|k: int| 0 <= k < esc(s2).len()
                    ==> v.subrange(i, i + esc(s).len())[k + 1] == #[trigger] esc(s2)[k]);
            };
            lemma_sp_string_esc(v, i + 1, s2, acc.push(c));
            assert(acc.push(c) + s2 =~= acc + s);
            assert(sp_string(v, i, acc) == sp_string(v, i + 1, acc.push(c)));
        }
    }
}

/// Reading a JSON integer whose text is the decimal form of `t`, followed
/// by a character that continues no number, yields `t`.
proof fn lemma_sp_int_digits(v: Seq<char>, i: int, t: int)
    requires
        0 <= i,
        i + int_digits(t).len() <= v.len(),
        v.subrange(i, i + int_digits(t).len()) == int_digits(t),
        i + int_digits(t).len() == v.len() || !(is_digit(v[i + int_digits(t).len()])
            || v[i + int_digits(t).len()] == '.' || v[i + int_digits(t).len()] == 'e'
            || v[i + int_digits(t).len()] == 'E'),
        -0x8000_0000_0000_0000 <= t <= 0x7fff_ffff_ffff_ffff,
    ensures
        sp_int(v, i) == Some((t, i + int_digits(t).len())),
{
    if t >= 0 {
        let n = t as nat;
        let d = dec_digits(n);
        assert(int_digits(t) == d);
        lemma_dec_digits(n);
        assert(forall|k: int| i <= k < i + d.len() ==> is_digit(#[trigger] v[k])) by {
            assert(forall|k: int| i <= k < i + d.len()
                ==> v[k] == v.subrange(i, i + d.len() as int)[k - i]);
        };
        lemma_sp_uint_run(v, i, i + d.len() as int, 0);
        assert(v.subrange(i, i + d.len() as int) == d);
        assert(0 * pow10(d.len()) == 0);
        assert(sp_uint(v, i, 0) == (t, i + d.len() as int));
        assert(is_digit(v[i]));
        assert(v[i] != '-');
        assert(v.subrange(i, i + d.len() as int)[0] == v[i]);
        assert(v[i] == d[0]);
        if d.len() > 1 {
            assert(v[i] != '0');
        }
        assert(sp_int_body(v, i, false) == Some((t, i + d.len() as int)));
    } else {
        let n = (-t) as nat;
        let d = dec_digits(n);
        assert(int_digits(t) == seq!['-'] + d);
        lemma_dec_digits(n);
        assert(v.subrange(i, i + int_digits(t).len())[0] == v[i]);
        assert(v[i] == '-');
        assert(v.subrange(i + 1, i + 1 + d.len() as int) =~= d) by {
            assert(forall|k: int| 0 <= k < d.len()
                ==> v.subrange(i, i + int_digits(t).len())[k + 1] == #[trigger] d[k]);
        };
        assert(forall|k: int| i + 1 <= k < i + 1 + d.len() ==> is_digit(#[trigger] v[k])) by {
            assert(forall|k: int| i + 1 <= k < i + 1 + d.len()
                ==> v[k] == v.subrange(i + 1, i + 1 + d.len() as int)[k - i - 1]);
        };
        lemma_sp_uint_run(v, i + 1, i + 1 + d.len() as int, 0);
        assert(0 * pow10(d.len()) == 0);
        assert(sp_uint(v, i + 1, 0) == (n as int, i + 1 + d.len() as int));
        assert(is_digit(v[i + 1]));
        assert(v.subrange(i + 1, i + 1 + d.len() as int)[0] == v[i + 1]);
        assert(v[i + 1] == d[0]);
        if d.len() > 1 {
            assert(v[i + 1] != '0');
        }
        assert(sp_int_body(v, i + 1, true) == Some((t, i + 1 + d.len() as int)));
    }
}

/// The first two members of a canonical frame: `id` and `content`.
#[verifier::rlimit(100)]
#[verifier::spinoff_prover]
proof fn lemma_rt_part1(m: MessageView)
    ensures
        sp_members(spec_encode(m), 1, empty_frame(), (spec_encode(m).len() + 1) as nat)
            == sp_members(
            spec_encode(m),
            (7 + esc(m.id).len() + 13 + esc(m.content).len() + 2) as int,
            PartialFrame {
                id: Some(m.id),
                content: Some(m.content),
                sender: None,
                node_id: None,
                timestamp: None,
            },
            (spec_encode(m).len() - 1) as nat,
        ),
{
    let v = spec_encode(m);
    let e1 = esc(m.id);
    let e2 = esc(m.content);
    let o1: int = 7;
    let o2: int = o1 + e1.len();
    let o3: int = o2 + 13;
    let o4: int = o3 + e2.len();
    let fuel = (v.len() + 1) as nat;
    let pf0 = empty_frame();
    let pf1 = PartialFrame { id: Some(m.id), ..pf0 };
    let pf2 = PartialFrame { content: Some(m.content), ..pf1 };
    assert(v.len() >= o4 + 2);
    lemma_esc_plain(key_id());
    lemma_esc_plain(key_content());
    assert(key_id() != key_content());

    assert(v[1] == '"');
    assert(v.subrange(2, 4) =~= key_id());
    assert(v[4] == '"');
    lemma_sp_string_esc(v, 2, key_id(), Seq::empty());
    assert(Seq::empty() + key_id() =~= key_id());
    assert(v[5] == ':');
    assert(sp_ws(v, 5) == 5);
    assert(v[6] == '"');
    assert(sp_ws(v, 6) == 6);
    assert(v.subrange(o1, o2) =~= e1);
    assert(v[o2] == '"');
    lemma_sp_string_esc(v, o1, m.id, Seq::empty());
    assert(Seq::empty() + m.id =~= m.id);
    assert(sp_member_value(v, 6, pf0, key_id(), fuel) == Some((pf1, o2 + 1)));
    assert(v[o2 + 1] == ',');
    assert(sp_ws(v, o2 + 1) == o2 + 1);
    assert(v[o2 + 2] == '"');
    assert(sp_ws(v, o2 + 2) == o2 + 2);
    assert(sp_members(v, 1, pf0, fuel) == sp_members(v, o2 + 2, pf1, (fuel - 1) as nat));

    assert(v.subrange(o2 + 3, o2 + 10) =~= key_content());
    assert(v[o2 + 10] == '"');
    lemma_sp_string_esc(v, o2 + 3, key_content(), Seq::empty());
    assert(Seq::empty() + key_content() =~= key_content());
    assert(v[o2 + 11] == ':');
    assert(sp_ws(v, o2 + 11) == o2 + 11);
    assert(v[o2 + 12] == '"');
    assert(sp_ws(v, o2 + 12) == o2 + 12);
    assert(v.subrange(o3, o4) =~= e2);
    assert(v[o4] == '"');
    lemma_sp_string_esc(v, o3, m.content, Seq::empty());
    assert(Seq::empty() + m.content =~= m.content);
    assert(sp_member_value(v, o2 + 12, pf1, key_content(), (fuel - 1) as nat)
        == Some((pf2, o4 + 1)));
    assert(v[o4 + 1] == ',');
    assert(sp_ws(v, o4 + 1) == o4 + 1);
    assert(v[o4 + 2] == '"');
    assert(sp_ws(v, o4 + 2) == o4 + 2);
    assert(sp_members(v, o2 + 2, pf1, (fuel - 1) as nat)
        == sp_members(v, o4 + 2, pf2, (fuel - 2) as nat));
}

/// The third member of a canonical frame: `sender`.
#[verifier::rlimit(100)]
#[verifier::spinoff_prover]
proof fn lemma_rt_part2a(m: MessageView)
    ensures
        sp_members(
            spec_encode(m),
            (7 + esc(m.id).len() + 13 + esc(m.content).len() + 2) as int,
            PartialFrame {
                id: Some(m.id),
                content: Some(m.content),
                sender: None,
                node_id: None,
                timestamp: None,
            },
            (spec_encode(m).len() - 1) as nat,
        ) == sp_members(
            spec_encode(m),
            (7 + esc(m.id).len() + 13 + esc(m.content).len() + 12 + esc(m.sender).len()
                + 2) as int,
            PartialFrame {
                id: Some(m.id),
                content: Some(m.content),
                sender: Some(m.sender),
                node_id: None,
                timestamp: None,
            },
            (spec_encode(m).len() - 2) as nat,
        ),
{
    let v = spec_encode(m);
    let e1 = esc(m.id);
    let e2 = esc(m.content);
    let e3 = esc(m.sender);
    let o4: int = (7 + e1.len() + 13 + e2.len()) as int;
    let o5: int = o4 + 12;
    let o6: int = o5 + e3.len();
    let fuel = (v.len() + 1) as nat;
    let pf2 = PartialFrame {
                id: Some(m.id),
                content: Some(m.content),
                sender: None,
                node_id: None,
                timestamp: None,
            };
    let pf3 = PartialFrame { sender: Some(m.sender), ..pf2 };
    assert(v.len() >= o6 + 2);
    lemma_esc_plain(key_sender());
    assert(key_sender() != key_id() && key_sender() != key_content());

    assert(v[o4 + 2] == '"');
    assert(v.subrange(o4 + 3, o4 + 9) =~= key_sender());
    assert(v[o4 + 9] == '"');
    lemma_sp_string_esc(v, o4 + 3, key_sender(), Seq::empty());
    assert(Seq::empty() + key_sender() =~= key_sender());
    assert(v[o4 + 10] == ':');
    assert(sp_ws(v, o4 + 10) == o4 + 10);
    assert(v[o4 + 11] == '"');
    assert(sp_ws(v, o4 + 11) == o4 + 11);
    assert(v.subrange(o5, o6) =~= e3);
    assert(v[o6] == '"');
    lemma_sp_string_esc(v, o5, m.sender, Seq::empty());
    assert(Seq::empty() + m.sender =~= m.sender);
    assert(sp_member_value(v, o4 + 11, pf2, key_sender(), (fuel - 2) as nat)
        == Some((pf3, o6 + 1)));
    assert(v[o6 + 1] == ',');
    assert(sp_ws(v, o6 + 1) == o6 + 1);
    assert(v[o6 + 2] == '"');
    assert(sp_ws(v, o6 + 2) == o6 + 2);
    assert(sp_members(v, o4 + 2, pf2, (fuel - 2) as nat)
        == sp_members(v, o6 + 2, pf3, (fuel - 3) as nat));
}

/// The fourth member of a canonical frame: `node_id`.
#[verifier::rlimit(100)]
#[verifier::spinoff_prover]
proof fn lemma_rt_part2b(m: MessageView)
    ensures
        sp_members(
            spec_encode(m),
            (7 + esc(m.id).len() + 13 + esc(m.content).len() + 12 + esc(m.sender).len()
                + 2) as int,
            PartialFrame {
                id: Some(m.id),
                content: Some(m.content),
                sender: Some(m.sender),
                node_id: None,
                timestamp: None,
            },
            (spec_encode(m).len() - 2) as nat,
        ) == sp_members(
            spec_encode(m),
            (7 + esc(m.id).len() + 13 + esc(m.content).len() + 12 + esc(m.sender).len() + 13
                + esc(m.node_id).len() + 2) as int,
            PartialFrame {
                id: Some(m.id),
                content: Some(m.content),
                sender: Some(m.sender),
                node_id: Some(m.node_id),
                timestamp: None,
            },
            (spec_encode(m).len() - 3) as nat,
        ),
{
    let v = spec_encode(m);
    let e1 = esc(m.id);
    let e2 = esc(m.content);
    let e3 = esc(m.sender);
    let e4 = esc(m.node_id);
    let o6: int = (7 + e1.len() + 13 + e2.len() + 12 + e3.len()) as int;
    let o7: int = o6 + 13;
    let o8: int = o7 + e4.len();
    let fuel = (v.len() + 1) as nat;
    let pf3 = PartialFrame {
                id: Some(m.id),
                content: Some(m.content),
                sender: Some(m.sender),
                node_id: None,
                timestamp: None,
            };
    let pf4 = PartialFrame { node_id: Some(m.node_id), ..pf3 };
    assert(v.len() >= o8 + 2);
    lemma_esc_plain(key_node_id());
    assert(key_node_id() != key_id() && key_node_id() != key_sender()
        && key_node_id() != key_timestamp());
    assert(key_node_id() != key_content()) by {
        assert(key_node_id()[0] != key_content()[0]);
    };

    assert(v[o6 + 2] == '"');
    assert(v.subrange(o6 + 3, o6 + 10) =~= key_node_id());
    assert(v[o6 + 10] == '"');
    lemma_sp_string_esc(v, o6 + 3, key_node_id(), Seq::empty());
    assert(Seq::empty() + key_node_id() =~= key_node_id());
    assert(v[o6 + 11] == ':');
    assert(sp_ws(v, o6 + 11) == o6 + 11);
    assert(v[o6 + 12] == '"');
    assert(sp_ws(v, o6 + 12) == o6 + 12);
    assert(v.subrange(o7, o8) =~= e4);
    assert(v[o8] == '"');
    lemma_sp_string_esc(v, o7, m.node_id, Seq::empty());
    assert(Seq::empty() + m.node_id =~= m.node_id);
    assert(sp_member_value(v, o6 + 12, pf3, key_node_id(), (fuel - 3) as nat)
        == Some((pf4, o8 + 1)));
    assert(v[o8 + 1] == ',');
    assert(sp_ws(v, o8 + 1) == o8 + 1);
    assert(v[o8 + 2] == '"');
    assert(sp_ws(v, o8 + 2) == o8 + 2);
    assert(sp_members(v, o6 + 2, pf3, (fuel - 3) as nat)
        == sp_members(v, o8 + 2, pf4, (fuel - 4) as nat));
}

/// The last member of a canonical frame, `timestamp`, and its close.
#[verifier::rlimit(100)]
#[verifier::spinoff_prover]
proof fn lemma_rt_part3(m: MessageView)
    requires
        i64::MIN <= m.timestamp <= i64::MAX,
    ensures
        sp_members(
            spec_encode(m),
            (7 + esc(m.id).len() + 13 + esc(m.content).len() + 12 + esc(m.sender).len() + 13
                + esc(m.node_id).len() + 2) as int,
            PartialFrame {
                id: Some(m.id),
                content: Some(m.content),
                sender: Some(m.sender),
                node_id: Some(m.node_id),
                timestamp: None,
            },
            (spec_encode(m).len() - 3) as nat,
        ) == Some(
            (
                PartialFrame {
                    id: Some(m.id),
                    content: Some(m.content),
                    sender: Some(m.sender),
                    node_id: Some(m.node_id),
                    timestamp: Some(m.timestamp),
                },
                spec_encode(m).len() as int,
            ),
        ),
{
    let v = spec_encode(m);
    let e1 = esc(m.id);
    let e2 = esc(m.content);
    let e3 = esc(m.sender);
    let e4 = esc(m.node_id);
    let td = int_digits(m.timestamp);
    let o4: int = (7 + e1.len() + 13 + e2.len()) as int;
    let o6: int = o4 + 12 + e3.len();
    let o8: int = o6 + 13 + e4.len();
    let o9: int = o8 + 14;
    let o10: int = o9 + td.len();
    let fuel = (v.len() + 1) as nat;
    let pf4 = PartialFrame {
        id: Some(m.id),
        content: Some(m.content),
        sender: Some(m.sender),
        node_id: Some(m.node_id),
        timestamp: None,
    };
    let pf5 = PartialFrame { timestamp: Some(m.timestamp), ..pf4 };
    assert(v.len() == o10 + 1);
    lemma_esc_plain(key_timestamp());
    assert(key_timestamp() != key_id() && key_timestamp() != key_content()
        && key_timestamp() != key_sender() && key_timestamp() != key_node_id());

    assert(v[o8 + 2] == '"');
    assert(v.subrange(o8 + 3, o8 + 12) =~= key_timestamp());
    assert(v[o8 + 12] == '"');
    lemma_sp_string_esc(v, o8 + 3, key_timestamp(), Seq::empty());
    assert(Seq::empty() + key_timestamp() =~= key_timestamp());
    assert(v[o8 + 13] == ':');
    assert(sp_ws(v, o8 + 13) == o8 + 13);
    assert(v.subrange(o9, o10) =~= td);
    assert(v.subrange(o9, o10)[0] == v[o9]);
    if m.timestamp >= 0 {
        lemma_dec_digits(m.timestamp as nat);
        assert(v[o9] == td[0]);
        assert(is_digit(td[0]));
        assert(!is_ws(v[o9]));
    } else {
        lemma_dec_digits((-m.timestamp) as nat);
        assert(td[0] == '-');
        assert(!is_ws(v[o9]));
    }
    assert(sp_ws(v, o8 + 14) == o8 + 14);
    assert(v[o10] == '}');
    lemma_sp_int_digits(v, o9, m.timestamp);
    assert(sp_int(v, o9) == Some((m.timestamp, o10)));
    assert(sp_member_value(v, o9, pf4, key_timestamp(), (fuel - 4) as nat)
        == Some((pf5, o10)));
    assert(sp_ws(v, o10) == o10);
    assert(sp_members(v, o8 + 2, pf4, (fuel - 4) as nat) == Some((pf5, o10 + 1)));
}

/// The round-trip law: decoding the canonical wire form of a message
/// yields that message, equal in every field.
#[verifier::rlimit(100)]
#[verifier::spinoff_prover]
pub proof fn lemma_round_trip(m: MessageView)
    requires
        i64::MIN <= m.timestamp <= i64::MAX,
    ensures
        sp_decode(spec_encode(m)) == Some(m),
{
    let v = spec_encode(m);
    assert(v[0] == '{');
    assert(sp_ws(v, 0) == 0);
    assert(v[1] == '"');
    assert(sp_ws(v, 1) == 1);
    lemma_rt_part1(m);
    lemma_rt_part2a(m);
    lemma_rt_part2b(m);
    lemma_rt_part3(m);
    assert(sp_ws(v, v.len() as int) == v.len());
    assert(sp_decode(v) == Some(m));
}

} // verus!
