//! Reading back what the JSON output escapes: a reader of JSON string
//! literals recovers every path exactly.

use vstd::prelude::*;

use crate::render::{hex_char, json_escaped, json_escaped_char};

verus! {

broadcast use vstd::seq_lib::group_seq_properties;

/// The value of a hexadecimal digit, either case.
pub open spec fn hex_value(c: char) -> Option<nat> {
    if '0' <= c && c <= '9' {
        Some((c as u32 - '0' as u32) as nat)
    } else if 'a' <= c && c <= 'f' {
        Some((c as u32 - 'a' as u32 + 10) as nat)
    } else if 'A' <= c && c <= 'F' {
        Some((c as u32 - 'A' as u32 + 10) as nat)
    } else {
        None
    }
}

/// `x` in front of the decoded rest, when the rest decodes.
pub open spec fn prepend(x: u32, rest: Option<Seq<u32>>) -> Option<Seq<u32>> {
    match rest {
        Some(t) => Some(seq![x] + t),
        None => None,
    }
}

/// The code units that the body of a JSON string literal stands for, as a
/// JSON reader reads it; `None` when the body is not well formed (a bare `"`,
/// a control character, or an unknown or cut-off escape).
pub open spec fn json_unescaped(e: Seq<char>) -> Option<Seq<u32>>
    decreases e.len(),
{
    if e.len() == 0 {
        Some(Seq::empty())
    } else if e[0] == '"' || (e[0] as u32) < 0x20 {
        None
    } else if e[0] != '\\' {
        prepend(e[0] as u32, json_unescaped(e.skip(1)))
    } else if e.len() < 2 {
        None
    } else if e[1] == 'u' {
        if e.len() < 6 {
            None
        } else {
            match (hex_value(e[2]), hex_value(e[3]), hex_value(e[4]), hex_value(e[5])) {
                (Some(a), Some(b), Some(c), Some(d)) => prepend(
                    (((a * 16 + b) * 16 + c) * 16 + d) as u32,
                    json_unescaped(e.skip(6)),
                ),
                _ => None,
            }
        }
    } else {
        let unit: Option<u32> = if e[1] == '"' {
            Some(0x22u32)
        } else if e[1] == '\\' {
            Some(0x5cu32)
        } else if e[1] == '/' {
            Some(0x2fu32)
        } else if e[1] == 'b' {
            Some(0x08u32)
        } else if e[1] == 'f' {
            Some(0x0cu32)
        } else if e[1] == 'n' {
            Some(0x0au32)
        } else if e[1] == 'r' {
            Some(0x0du32)
        } else if e[1] == 't' {
            Some(0x09u32)
        } else {
            None
        };
        match unit {
            Some(x) => prepend(x, json_unescaped(e.skip(2))),
            None => None,
        }
    }
}

/// The code points of `s`.
pub open spec fn code_points(s: Seq<char>) -> Seq<u32> {
    s.map_values(|c: char| c as u32)
}

/// Escaping a concatenation escapes each part.
proof fn lemma_json_escaped_concat(a: Seq<char>, b: Seq<char>)
    ensures
        json_escaped(a + b) == json_escaped(a) + json_escaped(b),
    decreases b.len(),
{
    if b.len() == 0 {
        assert(a + b =~= a);
    } else {
        lemma_json_escaped_concat(a, b.drop_last());
        assert((a + b).drop_last() =~= a + b.drop_last());
        assert((a + b).last() == b.last());
    }
}

/// A hexadecimal digit reads back as its value.
proof fn lemma_hex_round_trip(d: nat)
    requires
        d < 16,
    ensures
        hex_value(hex_char(d)) == Some(d),
{
}

/// One escaped character in front of a body decodes to that character's
/// code point in front of the body's decoding.
proof fn lemma_unescape_char(c: char, rest: Seq<char>)
    ensures
        json_unescaped(json_escaped_char(c) + rest) == prepend(c as u32, json_unescaped(rest)),
{
    let e = json_escaped_char(c) + rest;
    let n = json_escaped_char(c).len() as int;
    assert(e.skip(n) =~= rest);
    if c != '"' && c != '\\' && c != '\n' && c != '\r' && c != '\t' && (c as u32) < 0x20 {
        let v = (c as u32) as nat;
        lemma_hex_round_trip(v / 16);
        lemma_hex_round_trip(v % 16);
        assert(e[2] == '0' && e[3] == '0');
        assert(e[4] == hex_char(v / 16) && e[5] == hex_char(v % 16));
        assert((((0 * 16 + 0) * 16 + v / 16) * 16 + v % 16) == v);
    }
}

/// What the JSON output escapes reads back as exactly the original text.
pub proof fn lemma_json_escape_round_trip(s: Seq<char>)
    ensures
        json_unescaped(json_escaped(s)) == Some(code_points(s)),
    decreases s.len(),
{
    if s.len() == 0 {
        assert(code_points(s) =~= Seq::<u32>::empty());
    } else {
        let t = s.skip(1);
        lemma_json_escape_round_trip(t);
        assert(s =~= seq![s[0]] + t);
        lemma_json_escaped_concat(seq![s[0]], t);
        let one = seq![s[0]];
        assert(one.drop_last() =~= Seq::<char>::empty());
        assert(json_escaped(one.drop_last()) == Seq::<char>::empty());
        assert(json_escaped(one) == json_escaped(one.drop_last()) + json_escaped_char(one.last()));
        assert(json_escaped(one) =~= json_escaped_char(s[0]));
        lemma_unescape_char(s[0], json_escaped(t));
        assert(code_points(s) =~= seq![s[0] as u32] + code_points(t));
    }
}

} // verus!
