//! The string escaper: turns a sequence of characters into a form that is
//! safe to embed inside a double-quoted Nix string literal.
//!
//! Reserved and control characters become two-character escapes, any other
//! control character below 0x20 becomes `\x` plus two lowercase hex digits,
//! code points above 0x7F and at most 0xFFFF become `\u` plus four digits,
//! and code points above 0xFFFF become `\U` plus eight digits. Printable
//! ASCII passes through unchanged and the output keeps the input's order.

use vstd::prelude::*;

use crate::strutil::push_char;

verus! {

/// The lowercase hexadecimal digit for a value below 16.
pub open spec fn hex_digit_char(d: nat) -> char {
    if d == 0 {
        '0'
    } else if d == 1 {
        '1'
    } else if d == 2 {
        '2'
    } else if d == 3 {
        '3'
    } else if d == 4 {
        '4'
    } else if d == 5 {
        '5'
    } else if d == 6 {
        '6'
    } else if d == 7 {
        '7'
    } else if d == 8 {
        '8'
    } else if d == 9 {
        '9'
    } else if d == 10 {
        'a'
    } else if d == 11 {
        'b'
    } else if d == 12 {
        'c'
    } else if d == 13 {
        'd'
    } else if d == 14 {
        'e'
    } else {
        'f'
    }
}

/// Two lowercase hex digits of a value below 0x100.
pub open spec fn hex2(v: nat) -> Seq<char> {
    seq![hex_digit_char(v / 16 % 16), hex_digit_char(v % 16)]
}

/// Four lowercase hex digits of a value below 0x10000.
pub open spec fn hex4(v: nat) -> Seq<char> {
    seq![
        hex_digit_char(v / 4096 % 16),
        hex_digit_char(v / 256 % 16),
        hex_digit_char(v / 16 % 16),
        hex_digit_char(v % 16),
    ]
}

/// Eight lowercase hex digits of a value below 0x100000000.
pub open spec fn hex8(v: nat) -> Seq<char> {
    seq![
        hex_digit_char(v / 268435456 % 16),
        hex_digit_char(v / 16777216 % 16),
        hex_digit_char(v / 1048576 % 16),
        hex_digit_char(v / 65536 % 16),
        hex_digit_char(v / 4096 % 16),
        hex_digit_char(v / 256 % 16),
        hex_digit_char(v / 16 % 16),
        hex_digit_char(v % 16),
    ]
}

/// What a single character contributes to the escaped output, in the fixed
/// priority order: named escapes first, then `\x`, `\u`, `\U`, then verbatim.
pub open spec fn escape_char(c: char) -> Seq<char> {
    if c == '"' {
        seq!['\\', '"']
    } else if c == '\\' {
        seq!['\\', '\\']
    } else if c == '\n' {
        seq!['\\', 'n']
    } else if c == '\r' {
        seq!['\\', 'r']
    } else if c == '\t' {
        seq!['\\', 't']
    } else if c == '\'' {
        seq!['\\', '\'']
    } else if c == '\0' {
        seq!['\\', '0']
    } else if c == '\u{7}' {
        seq!['\\', 'a']
    } else if c == '\u{8}' {
        seq!['\\', 'b']
    } else if c == '\u{c}' {
        seq!['\\', 'f']
    } else if c == '\u{b}' {
        seq!['\\', 'v']
    } else if (c as u32) < 0x20 {
        seq!['\\', 'x'] + hex2((c as u32) as nat)
    } else if (c as u32) > 0x7F && (c as u32) <= 0xFFFF {
        seq!['\\', 'u'] + hex4((c as u32) as nat)
    } else if (c as u32) > 0xFFFF {
        seq!['\\', 'U'] + hex8((c as u32) as nat)
    } else {
        seq![c]
    }
}

/// The escaped form of a whole character sequence, character by character,
/// in input order.
pub open spec fn escape_seq(s: Seq<char>) -> Seq<char>
    decreases s.len(),
{
    if s.len() == 0 {
        Seq::empty()
    } else {
        escape_char(s[0]) + escape_seq(s.drop_first())
    }
}

proof fn lemma_escape_seq_push(s: Seq<char>, c: char)
    ensures
        escape_seq(s.push(c)) == escape_seq(s) + escape_char(c),
    decreases s.len(),
{
    if s.len() == 0 {
        assert(s.push(c)[0] == c);
        assert(s.push(c).drop_first() =~= Seq::<char>::empty());
        assert(escape_seq(Seq::<char>::empty()) == Seq::<char>::empty());
        assert(escape_seq(s.push(c)) == escape_char(c) + escape_seq(s.push(c).drop_first()));
        assert(escape_char(c) + Seq::<char>::empty() =~= escape_char(c));
        assert(escape_seq(s) == Seq::<char>::empty());
        assert(Seq::<char>::empty() + escape_char(c) =~= escape_char(c));
        assert(escape_seq(s.push(c)) =~= escape_seq(s) + escape_char(c));
    } else {
        assert(s.push(c).drop_first() =~= s.drop_first().push(c));
        lemma_escape_seq_push(s.drop_first(), c);
        assert(s.push(c)[0] == s[0]);
        assert(escape_seq(s.push(c)) =~= escape_seq(s) + escape_char(c));
    }
}

/// The numeric value of a lowercase hexadecimal digit.
pub open spec fn hex_val(c: char) -> nat {
    if c == '0' {
        0
    } else if c == '1' {
        1
    } else if c == '2' {
        2
    } else if c == '3' {
        3
    } else if c == '4' {
        4
    } else if c == '5' {
        5
    } else if c == '6' {
        6
    } else if c == '7' {
        7
    } else if c == '8' {
        8
    } else if c == '9' {
        9
    } else if c == 'a' {
        10
    } else if c == 'b' {
        11
    } else if c == 'c' {
        12
    } else if c == 'd' {
        13
    } else if c == 'e' {
        14
    } else if c == 'f' {
        15
    } else {
        0
    }
}

/// The value of a big-endian sequence of hexadecimal digits.
pub open spec fn hex_seq_val(s: Seq<char>) -> nat
    decreases s.len(),
{
    if s.len() == 0 {
        0
    } else {
        hex_seq_val(s.drop_last()) * 16 + hex_val(s.last())
    }
}

/// Whether `c` closes one of the named two-character escapes.
pub open spec fn is_named_escape(c: char) -> bool {
    ||| c == '"'
    ||| c == '\\'
    ||| c == 'n'
    ||| c == 'r'
    ||| c == 't'
    ||| c == '\''
    ||| c == '0'
    ||| c == 'a'
    ||| c == 'b'
    ||| c == 'f'
    ||| c == 'v'
}

/// The code point that a named two-character escape stands for.
pub open spec fn named_escape_value(c: char) -> u32 {
    if c == '"' {
        0x22
    } else if c == '\\' {
        0x5C
    } else if c == 'n' {
        0x0A
    } else if c == 'r' {
        0x0D
    } else if c == 't' {
        0x09
    } else if c == '\'' {
        0x27
    } else if c == '0' {
        0x00
    } else if c == 'a' {
        0x07
    } else if c == 'b' {
        0x08
    } else if c == 'f' {
        0x0C
    } else {
        0x0B
    }
}

/// The code points of a character sequence.
pub open spec fn code_points(s: Seq<char>) -> Seq<u32> {
    s.map(|i: int, c: char| c as u32)
}

/// Reads escaped text back into the code points it stands for: named escapes,
/// `\x`, `\u` and `\U` hexadecimal escapes, and plain characters as themselves.
pub open spec fn unescape_code_points(s: Seq<char>) -> Seq<u32>
    decreases s.len(),
{
    if s.len() == 0 {
        Seq::empty()
    } else if s[0] == '\\' && s.len() >= 2 {
        if is_named_escape(s[1]) {
            seq![named_escape_value(s[1])] + unescape_code_points(s.skip(2))
        } else if s[1] == 'x' && s.len() >= 4 {
            seq![hex_seq_val(s.subrange(2, 4)) as u32] + unescape_code_points(s.skip(4))
        } else if s[1] == 'u' && s.len() >= 6 {
            seq![hex_seq_val(s.subrange(2, 6)) as u32] + unescape_code_points(s.skip(6))
        } else if s[1] == 'U' && s.len() >= 10 {
            seq![hex_seq_val(s.subrange(2, 10)) as u32] + unescape_code_points(s.skip(10))
        } else {
            seq![s[1] as u32] + unescape_code_points(s.skip(2))
        }
    } else {
        seq![s[0] as u32] + unescape_code_points(s.skip(1))
    }
}

proof fn lemma_hex_val_digit(d: nat)
    requires
        d < 16,
    ensures
        hex_val(hex_digit_char(d)) == d,
{
}

proof fn lemma_hex_seq_val_push(s: Seq<char>, c: char)
    ensures
        hex_seq_val(s.push(c)) == hex_seq_val(s) * 16 + hex_val(c),
{
    assert(s.push(c).drop_last() =~= s);
    assert(s.push(c).last() == c);
}

proof fn lemma_hex2_roundtrip(v: u32)
    requires
        v < 0x100,
    ensures
        hex_seq_val(hex2(v as nat)) == v as nat,
{
    let d1 = v / 16 % 16;
    let d0 = v % 16;
    assert(d1 * 16 + d0 == v) by (bit_vector)
        requires
            v < 0x100,
            d1 == v / 16 % 16,
            d0 == v % 16,
    ;
    let a = hex_digit_char(d1 as nat);
    let b = hex_digit_char(d0 as nat);
    assert(hex2(v as nat) =~= seq![a].push(b));
    assert(seq![a] =~= Seq::<char>::empty().push(a));
    lemma_hex_seq_val_push(Seq::<char>::empty(), a);
    lemma_hex_seq_val_push(seq![a], b);
    assert(hex_seq_val(Seq::<char>::empty()) == 0);
}

proof fn lemma_hex4_roundtrip(v: u32)
    requires
        v < 0x10000,
    ensures
        hex_seq_val(hex4(v as nat)) == v as nat,
{
    let d3 = v / 4096 % 16;
    let d2 = v / 256 % 16;
    let d1 = v / 16 % 16;
    let d0 = v % 16;
    assert(((d3 * 16 + d2) * 16 + d1) * 16 + d0 == v) by (bit_vector)
        requires
            v < 0x10000,
            d3 == v / 4096 % 16,
            d2 == v / 256 % 16,
            d1 == v / 16 % 16,
            d0 == v % 16,
    ;
    let a = hex_digit_char(d3 as nat);
    let b = hex_digit_char(d2 as nat);
    let c = hex_digit_char(d1 as nat);
    let d = hex_digit_char(d0 as nat);
    assert(hex4(v as nat) =~= seq![a].push(b).push(c).push(d));
    assert(seq![a] =~= Seq::<char>::empty().push(a));
    lemma_hex_seq_val_push(Seq::<char>::empty(), a);
    lemma_hex_seq_val_push(seq![a], b);
    lemma_hex_seq_val_push(seq![a].push(b), c);
    lemma_hex_seq_val_push(seq![a].push(b).push(c), d);
    assert(hex_seq_val(Seq::<char>::empty()) == 0);
}

#[verifier::rlimit(60)]
proof fn lemma_hex8_roundtrip(v: u32)
    ensures
        hex_seq_val(hex8(v as nat)) == v as nat,
{
    let d7 = v / 268435456 % 16;
    let d6 = v / 16777216 % 16;
    let d5 = v / 1048576 % 16;
    let d4 = v / 65536 % 16;
    let d3 = v / 4096 % 16;
    let d2 = v / 256 % 16;
    let d1 = v / 16 % 16;
    let d0 = v % 16;
    assert(((((((d7 * 16 + d6) * 16 + d5) * 16 + d4) * 16 + d3) * 16 + d2) * 16 + d1) * 16 + d0
        == v) by (bit_vector)
        requires
            d7 == v / 268435456 % 16,
            d6 == v / 16777216 % 16,
            d5 == v / 1048576 % 16,
            d4 == v / 65536 % 16,
            d3 == v / 4096 % 16,
            d2 == v / 256 % 16,
            d1 == v / 16 % 16,
            d0 == v % 16,
    ;
    let a7 = hex_digit_char(d7 as nat);
    let a6 = hex_digit_char(d6 as nat);
    let a5 = hex_digit_char(d5 as nat);
    let a4 = hex_digit_char(d4 as nat);
    let a3 = hex_digit_char(d3 as nat);
    let a2 = hex_digit_char(d2 as nat);
    let a1 = hex_digit_char(d1 as nat);
    let a0 = hex_digit_char(d0 as nat);
    assert(hex8(v as nat) =~= seq![a7].push(a6).push(a5).push(a4).push(a3).push(a2).push(a1).push(
        a0,
    ));
    lemma_hex_val_digit(d7 as nat);
    lemma_hex_val_digit(d6 as nat);
    lemma_hex_val_digit(d5 as nat);
    lemma_hex_val_digit(d4 as nat);
    lemma_hex_val_digit(d3 as nat);
    lemma_hex_val_digit(d2 as nat);
    lemma_hex_val_digit(d1 as nat);
    lemma_hex_val_digit(d0 as nat);
    assert(seq![a7] =~= Seq::<char>::empty().push(a7));
    lemma_hex_seq_val_push(Seq::<char>::empty(), a7);
    lemma_hex_seq_val_push(seq![a7], a6);
    lemma_hex_seq_val_push(seq![a7].push(a6), a5);
    lemma_hex_seq_val_push(seq![a7].push(a6).push(a5), a4);
    lemma_hex_seq_val_push(seq![a7].push(a6).push(a5).push(a4), a3);
    lemma_hex_seq_val_push(seq![a7].push(a6).push(a5).push(a4).push(a3), a2);
    lemma_hex_seq_val_push(seq![a7].push(a6).push(a5).push(a4).push(a3).push(a2), a1);
    lemma_hex_seq_val_push(seq![a7].push(a6).push(a5).push(a4).push(a3).push(a2).push(a1), a0);
    assert(hex_seq_val(Seq::<char>::empty()) == 0);
}

/// Decoding one escaped character followed by any tail reads back that
/// character's code point and leaves the tail to decode on its own.
proof fn lemma_unescape_unit(c: char, t: Seq<char>)
    ensures
        unescape_code_points(escape_char(c) + t) == seq![c as u32] + unescape_code_points(t),
{
    let u = escape_char(c);
    let s = u + t;
    if u.len() == 1 {
        assert(s[0] == c);
        assert(s.skip(1) =~= t);
    } else if u.len() == 2 {
        assert(s[0] == '\\' && s[1] == u[1]);
        assert(is_named_escape(u[1]));
        assert(named_escape_value(u[1]) == c as u32);
        assert(s.skip(2) =~= t);
    } else if u.len() == 4 {
        assert(s[0] == '\\' && s[1] == 'x');
        assert(!is_named_escape('x'));
        assert(s.subrange(2, 4) =~= hex2((c as u32) as nat));
        lemma_hex2_roundtrip(c as u32);
        assert(s.skip(4) =~= t);
    } else if u.len() == 6 {
        assert(s[0] == '\\' && s[1] == 'u');
        assert(!is_named_escape('u'));
        assert(s.subrange(2, 6) =~= hex4((c as u32) as nat));
        lemma_hex4_roundtrip(c as u32);
        assert(s.skip(6) =~= t);
    } else {
        assert(u.len() == 10);
        assert(s[0] == '\\' && s[1] == 'U');
        assert(!is_named_escape('U'));
        assert(s.subrange(2, 10) =~= hex8((c as u32) as nat));
        lemma_hex8_roundtrip(c as u32);
        assert(s.skip(10) =~= t);
    }
    assert(unescape_code_points(s) =~= seq![c as u32] + unescape_code_points(t));
}

/// Escaping loses nothing: decoding the escaped form of any character
/// sequence gives back exactly the code points of that sequence. Code points
/// determine characters, so the original text is recovered in full.
pub proof fn lemma_unescape_escape(s: Seq<char>)
    ensures
        unescape_code_points(escape_seq(s)) == code_points(s),
    decreases s.len(),
{
    if s.len() == 0 {
        assert(unescape_code_points(escape_seq(s)) =~= code_points(s));
    } else {
        lemma_unescape_escape(s.drop_first());
        lemma_unescape_unit(s[0], escape_seq(s.drop_first()));
        assert(unescape_code_points(escape_seq(s)) =~= code_points(s));
    }
}

/// A character that the escaper passes through unchanged: printable ASCII
/// other than the reserved characters.
pub open spec fn verbatim_char(c: char) -> bool {
    0x20 <= (c as u32) <= 0x7F && c != '"' && c != '\\' && c != '\''
}

/// Escaping text made only of verbatim characters changes nothing.
pub proof fn lemma_escape_verbatim(s: Seq<char>)
    requires
        forall|i: int| 0 <= i < s.len() ==> verbatim_char(#[trigger] s[i]),
    ensures
        escape_seq(s) == s,
    decreases s.len(),
{
    if s.len() == 0 {
        assert(escape_seq(s) =~= s);
    } else {
        lemma_escape_verbatim(s.drop_first());
        assert(escape_char(s[0]) == seq![s[0]]);
        assert(escape_seq(s) =~= s);
    }
}

/// A character that may stand on its own in escaped output: printable ASCII
/// that is neither a double quote nor a backslash.
pub open spec fn plain_safe(c: char) -> bool {
    0x20 <= (c as u32) <= 0x7F && c != '"' && c != '\\'
}

/// Whether `c` may follow a backslash in escaped output: a named escape
/// or the opener of a hexadecimal escape.
pub open spec fn recognized_follower(c: char) -> bool {
    is_named_escape(c) || c == 'x' || c == 'u' || c == 'U'
}

/// Escaped output is safe to embed: every character either stands on its own
/// and is a printable ASCII character other than a double quote or a
/// backslash, or belongs to a recognized escape sequence opened by a
/// backslash.
pub open spec fn safe_escaped(s: Seq<char>) -> bool
    decreases s.len(),
{
    if s.len() == 0 {
        true
    } else if s[0] == '\\' {
        s.len() >= 2 && recognized_follower(s[1]) && safe_escaped(s.skip(2))
    } else {
        plain_safe(s[0]) && safe_escaped(s.skip(1))
    }
}

proof fn lemma_safe_prepend_plain(ds: Seq<char>, t: Seq<char>)
    requires
        forall|i: int| 0 <= i < ds.len() ==> plain_safe(ds[i]),
        safe_escaped(t),
    ensures
        safe_escaped(ds + t),
    decreases ds.len(),
{
    if ds.len() == 0 {
        assert(ds + t =~= t);
    } else {
        lemma_safe_prepend_plain(ds.drop_first(), t);
        let s = ds + t;
        assert(s[0] == ds[0]);
        assert(s.skip(1) =~= ds.drop_first() + t);
    }
}

proof fn lemma_hex_digits_plain(v: nat)
    ensures
        forall|i: int| 0 <= i < hex2(v).len() ==> plain_safe(hex2(v)[i]),
        forall|i: int| 0 <= i < hex4(v).len() ==> plain_safe(hex4(v)[i]),
        forall|i: int| 0 <= i < hex8(v).len() ==> plain_safe(hex8(v)[i]),
{
    assert forall|d: nat| plain_safe(hex_digit_char(d)) by {
        if d == 0 {
        } else if d == 1 {
        } else {
        }
    }
}

/// Safety of the escaper: its output never holds an unescaped double quote,
/// backslash, or raw control character; everything that is not plain
/// printable ASCII stands inside a recognized escape sequence.
pub proof fn lemma_escape_safe(s: Seq<char>)
    ensures
        safe_escaped(escape_seq(s)),
    decreases s.len(),
{
    if s.len() == 0 {
    } else {
        let c = s[0];
        let t = escape_seq(s.drop_first());
        lemma_escape_safe(s.drop_first());
        let u = escape_char(c);
        let out = u + t;
        lemma_hex_digits_plain((c as u32) as nat);
        if u.len() == 1 {
            assert(plain_safe(c));
            assert(out[0] == c);
            assert(out.skip(1) =~= t);
        } else if u.len() == 2 {
            assert(out[0] == '\\' && out[1] == u[1]);
            assert(recognized_follower(u[1]));
            assert(out.skip(2) =~= t);
        } else if u.len() == 4 {
            assert(out[0] == '\\' && out[1] == 'x');
            assert(out.skip(2) =~= hex2((c as u32) as nat) + t);
            lemma_safe_prepend_plain(hex2((c as u32) as nat), t);
        } else if u.len() == 6 {
            assert(out[0] == '\\' && out[1] == 'u');
            assert(out.skip(2) =~= hex4((c as u32) as nat) + t);
            lemma_safe_prepend_plain(hex4((c as u32) as nat), t);
        } else {
            assert(u.len() == 10);
            assert(out[0] == '\\' && out[1] == 'U');
            assert(out.skip(2) =~= hex8((c as u32) as nat) + t);
            lemma_safe_prepend_plain(hex8((c as u32) as nat), t);
        }
        assert(escape_seq(s) == out);
    }
}

/// The lowercase hexadecimal digit for a value below 16, executable form.
pub(crate) fn hex_digit(d: u32) -> (c: char)
    requires
        d < 16,
    ensures
        c == hex_digit_char(d as nat),
{
    if d == 0 {
        '0'
    } else if d == 1 {
        '1'
    } else if d == 2 {
        '2'
    } else if d == 3 {
        '3'
    } else if d == 4 {
        '4'
    } else if d == 5 {
        '5'
    } else if d == 6 {
        '6'
    } else if d == 7 {
        '7'
    } else if d == 8 {
        '8'
    } else if d == 9 {
        '9'
    } else if d == 10 {
        'a'
    } else if d == 11 {
        'b'
    } else if d == 12 {
        'c'
    } else if d == 13 {
        'd'
    } else if d == 14 {
        'e'
    } else {
        'f'
    }
}

fn push_hex2(out: &mut String, v: u32)
    requires
        v < 0x100,
    ensures
        final(out)@ == old(out)@ + hex2(v as nat),
{
    push_char(out, hex_digit(v / 16 % 16));
    push_char(out, hex_digit(v % 16));
    assert(final(out)@ =~= old(out)@ + hex2(v as nat));
}

fn push_hex4(out: &mut String, v: u32)
    requires
        v < 0x10000,
    ensures
        final(out)@ == old(out)@ + hex4(v as nat),
{
    push_char(out, hex_digit(v / 4096 % 16));
    push_char(out, hex_digit(v / 256 % 16));
    push_char(out, hex_digit(v / 16 % 16));
    push_char(out, hex_digit(v % 16));
    assert(final(out)@ =~= old(out)@ + hex4(v as nat));
}

fn push_hex8(out: &mut String, v: u32)
    ensures
        final(out)@ == old(out)@ + hex8(v as nat),
{
    push_char(out, hex_digit(v / 268435456 % 16));
    push_char(out, hex_digit(v / 16777216 % 16));
    push_char(out, hex_digit(v / 1048576 % 16));
    push_char(out, hex_digit(v / 65536 % 16));
    push_char(out, hex_digit(v / 4096 % 16));
    push_char(out, hex_digit(v / 256 % 16));
    push_char(out, hex_digit(v / 16 % 16));
    push_char(out, hex_digit(v % 16));
    assert(final(out)@ =~= old(out)@ + hex8(v as nat));
}

/// Appends the escaped form of one character to `out`.
pub(crate) fn push_escaped_char(out: &mut String, c: char)
    ensures
        final(out)@ == old(out)@ + escape_char(c),
{
    if c == '"' {
        push_char(out, '\\');
        push_char(out, '"');
    } else if c == '\\' {
        push_char(out, '\\');
        push_char(out, '\\');
    } else if c == '\n' {
        push_char(out, '\\');
        push_char(out, 'n');
    } else if c == '\r' {
        push_char(out, '\\');
        push_char(out, 'r');
    } else if c == '\t' {
        push_char(out, '\\');
        push_char(out, 't');
    } else if c == '\'' {
        push_char(out, '\\');
        push_char(out, '\'');
    } else if c == '\0' {
        push_char(out, '\\');
        push_char(out, '0');
    } else if c == '\u{7}' {
        push_char(out, '\\');
        push_char(out, 'a');
    } else if c == '\u{8}' {
        push_char(out, '\\');
        push_char(out, 'b');
    } else if c == '\u{c}' {
        push_char(out, '\\');
        push_char(out, 'f');
    } else if c == '\u{b}' {
        push_char(out, '\\');
        push_char(out, 'v');
    } else if (c as u32) < 0x20 {
        push_char(out, '\\');
        push_char(out, 'x');
        push_hex2(out, c as u32);
    } else if (c as u32) > 0x7F && (c as u32) <= 0xFFFF {
        push_char(out, '\\');
        push_char(out, 'u');
        push_hex4(out, c as u32);
    } else if (c as u32) > 0xFFFF {
        push_char(out, '\\');
        push_char(out, 'U');
        push_hex8(out, c as u32);
    } else {
        push_char(out, c);
    }
    assert(final(out)@ =~= old(out)@ + escape_char(c));
}

/// Escapes a string for embedding inside a double-quoted Nix string literal.
/// Adds no surrounding quotes.
pub fn escape_string(input: &str) -> (r: String)
    ensures
        r@ == escape_seq(input@),
{
    let n: usize = input.unicode_len();
    let mut out = String::new();
    let mut i: usize = 0;
    while i < n
        invariant
            n == input@.len(),
            i <= n,
            out@ == escape_seq(input@.take(i as int)),
        decreases n - i,
    {
        let c = input.get_char(i);
        proof {
            lemma_escape_seq_push(input@.take(i as int), c);
            assert(input@.take(i as int).push(c) =~= input@.take(i as int + 1));
        }
        push_escaped_char(&mut out, c);
        i = i + 1;
    }
    proof {
        assert(input@.take(n as int) =~= input@);
    }
    out
}

} // verus!
