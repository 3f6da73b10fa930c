//! Encoding and decoding of JSON string literals at the character level.
//!
//! The transcript file and the wire protocol both carry one JSON record per
//! line, so the crate has its own verified codec for the string portions:
//! `escape_seq` says exactly which characters an encoded string holds, and
//! `parse_str_body` is the matching reader. `lemma_parse_escape` proves the
//! round trip.
use vstd::prelude::*;

verus! {

use crate::text::push_char;

/// The hexadecimal digit character for `n` (lower case).
pub open spec fn hexd(n: int) -> char {
    if n == 0 {
        '0'
    } else if n == 1 {
        '1'
    } else if n == 2 {
        '2'
    } else if n == 3 {
        '3'
    } else if n == 4 {
        '4'
    } else if n == 5 {
        '5'
    } else if n == 6 {
        '6'
    } else if n == 7 {
        '7'
    } else if n == 8 {
        '8'
    } else if n == 9 {
        '9'
    } else if n == 10 {
        'a'
    } else if n == 11 {
        'b'
    } else if n == 12 {
        'c'
    } else if n == 13 {
        'd'
    } else if n == 14 {
        'e'
    } else {
        'f'
    }
}

/// The value of a (lower case) hexadecimal digit character, or -1.
pub open spec fn hexv(c: char) -> int {
    if c == '0' {
        0
    } else if c == '1' {
        1
    } else if c == '2' {
        2
    } else if c == '3' {
        3
    } else if c == '4' {
        4
    } else if c == '5' {
        5
    } else if c == '6' {
        6
    } else if c == '7' {
        7
    } else if c == '8' {
        8
    } else if c == '9' {
        9
    } else if c == 'a' {
        10
    } else if c == 'b' {
        11
    } else if c == 'c' {
        12
    } else if c == 'd' {
        13
    } else if c == 'e' {
        14
    } else if c == 'f' {
        15
    } else {
        -1
    }
}

pub open spec fn is_hexd(c: char) -> bool {
    hexv(c) >= 0
}

pub proof fn lemma_hexv_hexd(n: int)
    requires
        0 <= n < 16,
    ensures
        hexv(hexd(n)) == n,
{
}

/// How one character is written inside a JSON string literal.
pub open spec fn esc_char(c: char) -> Seq<char> {
    if c == '"' {
        seq!['\\', '"']
    } else if c == '\\' {
        seq!['\\', '\\']
    } else if c == '\n' {
        seq!['\\', 'n']
    } else if c == '\r' {
        seq!['\\', 'r']
    } else if c == '\t' {
        seq!['\\', 't']
    } else if (c as u32) < 32 {
        seq!['\\', 'u', '0', '0', hexd((c as u32) as int / 16), hexd((c as u32) as int % 16)]
    } else {
        seq![c]
    }
}

/// The body of the JSON string literal that denotes `s` (without the
/// surrounding quotes).
pub open spec fn escape_seq(s: Seq<char>) -> Seq<char>
    decreases s.len(),
{
    if s.len() == 0 {
        Seq::empty()
    } else {
        esc_char(s[0]) + escape_seq(s.drop_first())
    }
}

pub proof fn lemma_escape_snoc(s: Seq<char>, c: char)
    ensures
        escape_seq(s.push(c)) == escape_seq(s) + esc_char(c),
    decreases s.len(),
{
    if s.len() == 0 {
        assert(s.push(c)[0] == c);
        assert(s.push(c).drop_first() =~= Seq::<char>::empty());
        assert(escape_seq(s.push(c)) == esc_char(c) + escape_seq(Seq::<char>::empty()));
        assert(esc_char(c) + Seq::<char>::empty() =~= esc_char(c));
        assert(escape_seq(s) + esc_char(c) =~= esc_char(c));
    } else {
        assert(s.push(c)[0] == s[0]);
        assert(s.push(c).drop_first() =~= s.drop_first().push(c));
        lemma_escape_snoc(s.drop_first(), c);
        assert(escape_seq(s.push(c)) == esc_char(s[0]) + (escape_seq(s.drop_first()) + esc_char(
            c,
        )));
        assert(esc_char(s[0]) + (escape_seq(s.drop_first()) + esc_char(c)) =~= (esc_char(s[0])
            + escape_seq(s.drop_first())) + esc_char(c));
    }
}

/// The character a two-character escape stands for.
pub open spec fn unesc2(e: char) -> char {
    if e == '"' {
        '"'
    } else if e == '\\' {
        '\\'
    } else if e == 'n' {
        '\n'
    } else if e == 'r' {
        '\r'
    } else if e == 'b' {
        '\u{8}'
    } else if e == 'f' {
        '\u{c}'
    } else {
        '\t'
    }
}

/// Whether `n` is a Unicode scalar value, i.e. a valid `char` code.
pub open spec fn scalar_code(n: int) -> bool {
    0 <= n < 0xD800 || 0xDFFF < n <= 0x10FFFF
}

/// Reads a JSON string literal body up to and including the closing quote.
/// Returns the denoted characters and how many input characters were read.
pub open spec fn parse_str_body(s: Seq<char>) -> Option<(Seq<char>, int)>
    decreases s.len(),
{
    if s.len() == 0 {
        None
    } else if s[0] == '"' {
        Some((Seq::empty(), 1int))
    } else if s[0] == '\\' {
        if s.len() < 2 {
            None
        } else {
            let e = s[1];
            if e == '"' || e == '\\' || e == 'n' || e == 'r' || e == 't' || e == 'b' || e == 'f' {
                match parse_str_body(s.skip(2)) {
                    Some(pr) => Some((seq![unesc2(e)] + pr.0, pr.1 + 2)),
                    None => None,
                }
            } else if e == 'u' {
                if s.len() < 6 {
                    None
                } else if is_hexd(s[2]) && is_hexd(s[3]) && is_hexd(s[4]) && is_hexd(s[5]) {
                    let code = hexv(s[2]) * 4096 + hexv(s[3]) * 256 + hexv(s[4]) * 16 + hexv(s[5]);
                    if scalar_code(code) {
                        match parse_str_body(s.skip(6)) {
                            Some(pr) => Some((seq![((code as u32) as char)] + pr.0, pr.1 + 6)),
                            None => None,
                        }
                    } else {
                        None
                    }
                } else {
                    None
                }
            } else {
                None
            }
        }
    } else {
        match parse_str_body(s.skip(1)) {
            Some(pr) => Some((seq![s[0]] + pr.0, pr.1 + 1)),
            None => None,
        }
    }
}

/// Reading back an escaped string consumes exactly the escaped text plus
/// the closing quote, and yields the original characters.
pub proof fn lemma_parse_escape(p: Seq<char>, rest: Seq<char>)
    ensures
        parse_str_body(escape_seq(p) + seq!['"'] + rest) == Some(
            (p, escape_seq(p).len() + 1 as int),
        ),
    decreases p.len(),
{
    broadcast use vstd::utf8::char_u32_cast;

    let s = escape_seq(p) + seq!['"'] + rest;
    if p.len() == 0 {
        assert(s =~= seq!['"'] + rest);
        assert(s[0] == '"');
        assert(parse_str_body(s) == Some((Seq::<char>::empty(), 1int)));
        assert(p =~= Seq::<char>::empty());
    } else {
        let c = p[0];
        let tail = p.drop_first();
        lemma_parse_escape(tail, rest);
        let s_tail = escape_seq(tail) + seq!['"'] + rest;
        assert(escape_seq(p) == esc_char(c) + escape_seq(tail));
        assert(s =~= esc_char(c) + s_tail);
        if c == '"' || c == '\\' || c == '\n' || c == '\r' || c == '\t' {
            let e = esc_char(c)[1];
            assert(s[0] == '\\' && s[1] == e);
            assert(s.skip(2) =~= s_tail);
            assert(unesc2(e) == c);
            assert(seq![c] + tail =~= p);
        } else if (c as u32) < 32 {
            assert(s[0] == '\\' && s[1] == 'u' && s[2] == '0' && s[3] == '0');
            let hi = (c as u32) as int / 16;
            let lo = (c as u32) as int % 16;
            assert(s[4] == hexd(hi) && s[5] == hexd(lo));
            lemma_hexv_hexd(hi);
            lemma_hexv_hexd(lo);
            assert(is_hexd(s[4]) && is_hexd(s[5]));
            assert(hexv('0') == 0);
            let code = hexv(s[2]) * 4096 + hexv(s[3]) * 256 + hexv(s[4]) * 16 + hexv(s[5]);
            assert(code == hi * 16 + lo);
            assert(code == c as u32) by {
                assert(hi * 16 + lo == c as u32) by (nonlinear_arith)
                    requires
                        hi == (c as u32) as int / 16,
                        lo == (c as u32) as int % 16,
                ;
            }
            assert(scalar_code(code));
            vstd::utf8::char_u32_cast(c, (code as u32));
            assert(((code as u32) as char) == c);
            assert(s.skip(6) =~= s_tail);
            assert(seq![c] + tail =~= p);
        } else {
            assert(esc_char(c) == seq![c]);
            assert(s[0] == c);
            assert(c != '"' && c != '\\');
            assert(s.skip(1) =~= s_tail);
            assert(seq![c] + tail =~= p);
        }
    }
}

/// The hexadecimal digit character for `n`.
pub fn hexd_exec(n: u32) -> (r: char)
    requires
        n < 16,
    ensures
        r == hexd(n as int),
{
    if n == 0 {
        '0'
    } else if n == 1 {
        '1'
    } else if n == 2 {
        '2'
    } else if n == 3 {
        '3'
    } else if n == 4 {
        '4'
    } else if n == 5 {
        '5'
    } else if n == 6 {
        '6'
    } else if n == 7 {
        '7'
    } else if n == 8 {
        '8'
    } else if n == 9 {
        '9'
    } else if n == 10 {
        'a'
    } else if n == 11 {
        'b'
    } else if n == 12 {
        'c'
    } else if n == 13 {
        'd'
    } else if n == 14 {
        'e'
    } else {
        'f'
    }
}

/// The value of a hexadecimal digit character, if it is one.
pub fn hexv_exec(c: char) -> (r: Option<u32>)
    ensures
        r is Some <==> is_hexd(c),
        r is Some ==> r->0 == hexv(c) && r->0 < 16,
{
    if c == '0' {
        Some(0)
    } else if c == '1' {
        Some(1)
    } else if c == '2' {
        Some(2)
    } else if c == '3' {
        Some(3)
    } else if c == '4' {
        Some(4)
    } else if c == '5' {
        Some(5)
    } else if c == '6' {
        Some(6)
    } else if c == '7' {
        Some(7)
    } else if c == '8' {
        Some(8)
    } else if c == '9' {
        Some(9)
    } else if c == 'a' {
        Some(10)
    } else if c == 'b' {
        Some(11)
    } else if c == 'c' {
        Some(12)
    } else if c == 'd' {
        Some(13)
    } else if c == 'e' {
        Some(14)
    } else if c == 'f' {
        Some(15)
    } else {
        None
    }
}

/// Relies on char::from_u32: `Some` exactly for Unicode scalar values, and
/// the returned character has code `u`.
#[verifier::external_body]
fn char_from_code(u: u32) -> (r: Option<char>)
    ensures
        r is Some <==> scalar_code(u as int),
        r is Some ==> (r->0 as u32) == u,
{
    char::from_u32(u)
}

/// Appends the escaped form of the characters `v` to `out`.
pub fn escape_push(out: &mut String, v: &[char])
    ensures
        final(out)@ == old(out)@ + escape_seq(v@),
{
    let mut i: usize = 0;
    assert(v@.subrange(0, 0) =~= Seq::<char>::empty());
    assert(out@ =~= old(out)@ + escape_seq(v@.subrange(0, 0)));
    while i < v.len()
        invariant
            i <= v@.len(),
            out@ == old(out)@ + escape_seq(v@.subrange(0, i as int)),
        decreases v@.len() - i,
    {
        let c = v[i];
        let code: u32 = c as u32;
        if c == '"' {
            push_char(out, '\\');
            push_char(out, '"');
        } else if c == '\\' {
            push_char(out, '\\');
            push_char(out, '\\');
        } else if c == '\n' {
            push_char(out, '\\');
            push_char(out, 'n');
        } else if c == '\r' {
            push_char(out, '\\');
            push_char(out, 'r');
        } else if c == '\t' {
            push_char(out, '\\');
            push_char(out, 't');
        } else if code < 32 {
            push_char(out, '\\');
            push_char(out, 'u');
            push_char(out, '0');
            push_char(out, '0');
            push_char(out, hexd_exec(code / 16));
            push_char(out, hexd_exec(code % 16));
        } else {
            push_char(out, c);
        }
        assert(out@ =~= old(out)@ + escape_seq(v@.subrange(0, i as int)) + esc_char(c));
        proof {
            lemma_escape_snoc(v@.subrange(0, i as int), c);
            assert(v@.subrange(0, i as int).push(c) =~= v@.subrange(0, i + 1 as int));
        }
        i = i + 1;
        assert(out@ =~= old(out)@ + escape_seq(v@.subrange(0, i as int)));
    }
    assert(v@.subrange(0, i as int) =~= v@);
}

/// Reads a JSON string literal body out of `s`, starting at `i`, appending
/// the denoted characters to `out`; returns how many characters were read,
/// exactly as `parse_str_body` says.
pub fn parse_str_body_exec(s: &[char], i: usize, out: &mut Vec<char>) -> (r: Option<usize>)
    requires
        i <= s@.len(),
    ensures
        r is Some <==> parse_str_body(s@.skip(i as int)) is Some,
        r is Some ==> {
            let pr = parse_str_body(s@.skip(i as int))->0;
            r->0 == pr.1 && final(out)@ == old(out)@ + pr.0 && i + r->0 <= s@.len()
        },
    decreases s@.len() - i,
{
    let ghost tail = s@.skip(i as int);
    let rem = s.len() - i;
    if rem == 0 {
        return None;
    }
    let c = s[i];
    assert(c == tail[0]);
    if c == '"' {
        assert(out@ =~= out@ + Seq::<char>::empty());
        return Some(1);
    }
    if c == '\\' {
        if rem < 2 {
            return None;
        }
        let e = s[i + 1];
        assert(e == tail[1]);
        if e == '"' || e == '\\' || e == 'n' || e == 'r' || e == 't' || e == 'b' || e == 'f' {
            let u = if e == '"' {
                '"'
            } else if e == '\\' {
                '\\'
            } else if e == 'n' {
                '\n'
            } else if e == 'r' {
                '\r'
            } else if e == 'b' {
                '\u{8}'
            } else if e == 'f' {
                '\u{c}'
            } else {
                '\t'
            };
            assert(u == unesc2(e));
            out.push(u);
            assert(s@.skip(i + 2 as int) =~= tail.skip(2));
            let inner = parse_str_body_exec(s, i + 2, out);
            match inner {
                Some(n) => {
                    assert(out@ =~= old(out)@ + (seq![unesc2(e)]
                        + (parse_str_body(tail.skip(2))->0).0));
                    return Some(n + 2);
                },
                None => {
                    return None;
                },
            }
        } else if e == 'u' {
            if rem < 6 {
                return None;
            }
            assert(s[i + 2 as int] == tail[2] && s[i + 3 as int] == tail[3] && s[i + 4 as int]
                == tail[4] && s[i + 5 as int] == tail[5]);
            let h3 = hexv_exec(s[i + 2]);
            let h2 = hexv_exec(s[i + 3]);
            let h1 = hexv_exec(s[i + 4]);
            let h0 = hexv_exec(s[i + 5]);
            match (h3, h2, h1, h0) {
                (Some(a), Some(b), Some(cc), Some(d)) => {
                    let code: u32 = a * 4096 + b * 256 + cc * 16 + d;
                    match char_from_code(code) {
                        Some(u) => {
                            proof {
                                let cs = hexv(tail[2]) * 4096 + hexv(tail[3]) * 256 + hexv(
                                    tail[4],
                                ) * 16 + hexv(tail[5]);
                                assert(cs == code as int);
                                vstd::utf8::char_u32_cast(u, code);
                                assert(((cs as u32) as char) == u);
                            }
                            out.push(u);
                            assert(s@.skip(i + 6 as int) =~= tail.skip(6));
                            let inner = parse_str_body_exec(s, i + 6, out);
                            match inner {
                                Some(n) => {
                                    assert(out@ =~= old(out)@ + (seq![u] + (parse_str_body(
                                        tail.skip(6),
                                    )->0).0));
                                    return Some(n + 6);
                                },
                                None => {
                                    return None;
                                },
                            }
                        },
                        None => {
                            return None;
                        },
                    }
                },
                _ => {
                    return None;
                },
            }
        } else {
            return None;
        }
    } else {
        out.push(c);
        assert(s@.skip(i + 1 as int) =~= tail.skip(1));
        let inner = parse_str_body_exec(s, i + 1, out);
        match inner {
            Some(n) => {
                assert(out@ =~= old(out)@ + (seq![tail[0]] + (parse_str_body(tail.skip(1))->0).0));
                return Some(n + 1);
            },
            None => {
                return None;
            },
        }
    }
}


/// Comma-joined parts, after the first: `,p` for each.
pub open spec fn join_comma_rest(parts: Seq<Seq<char>>) -> Seq<char>
    decreases parts.len(),
{
    if parts.len() == 0 {
        Seq::empty()
    } else {
        seq![','] + parts[0] + join_comma_rest(parts.drop_first())
    }
}

/// Comma-joined parts: `a,b,c`.
pub open spec fn join_comma(parts: Seq<Seq<char>>) -> Seq<char> {
    if parts.len() == 0 {
        Seq::empty()
    } else {
        parts[0] + join_comma_rest(parts.drop_first())
    }
}

pub proof fn lemma_join_comma_rest_snoc(parts: Seq<Seq<char>>, x: Seq<char>)
    ensures
        join_comma_rest(parts.push(x)) == join_comma_rest(parts) + (seq![','] + x),
    decreases parts.len(),
{
    if parts.len() == 0 {
        assert(parts.push(x)[0] == x);
        assert(parts.push(x).drop_first() =~= Seq::<Seq<char>>::empty());
        assert(join_comma_rest(Seq::<Seq<char>>::empty()) =~= Seq::<char>::empty());
        assert(join_comma_rest(parts.push(x)) == seq![','] + x + join_comma_rest(
            Seq::<Seq<char>>::empty(),
        ));
        assert(join_comma_rest(parts.push(x)) =~= join_comma_rest(parts) + (seq![','] + x));
    } else {
        assert(parts.push(x)[0] == parts[0]);
        assert(parts.push(x).drop_first() =~= parts.drop_first().push(x));
        lemma_join_comma_rest_snoc(parts.drop_first(), x);
        assert(join_comma_rest(parts.push(x)) =~= join_comma_rest(parts) + (seq![','] + x));
    }
}

pub proof fn lemma_join_comma_snoc(parts: Seq<Seq<char>>, x: Seq<char>)
    ensures
        parts.len() == 0 ==> join_comma(parts.push(x)) == x,
        parts.len() > 0 ==> join_comma(parts.push(x)) == join_comma(parts) + (seq![','] + x),
{
    if parts.len() == 0 {
        assert(parts.push(x)[0] == x);
        assert(parts.push(x).drop_first() =~= Seq::<Seq<char>>::empty());
        assert(join_comma_rest(Seq::<Seq<char>>::empty()) =~= Seq::<char>::empty());
        assert(join_comma(parts.push(x)) == x + join_comma_rest(Seq::<Seq<char>>::empty()));
        assert(join_comma(parts.push(x)) =~= x);
    } else {
        assert(parts.push(x)[0] == parts[0]);
        assert(parts.push(x).drop_first() =~= parts.drop_first().push(x));
        lemma_join_comma_rest_snoc(parts.drop_first(), x);
        assert(join_comma(parts.push(x)) =~= join_comma(parts) + (seq![','] + x));
    }
}


/// A JSON string literal denoting `s`, quotes included.
pub open spec fn quote_seq(s: Seq<char>) -> Seq<char> {
    seq!['"'] + escape_seq(s) + seq!['"']
}

/// Appends `"x"` (quoted, escaped) to `out`.
pub fn push_quoted(out: &mut String, x: &str)
    ensures
        final(out)@ == old(out)@ + quote_seq(x@),
{
    push_char(out, '"');
    let v = crate::text::chars_of(x);
    escape_push(out, v.as_slice());
    push_char(out, '"');
    assert(out@ =~= old(out)@ + quote_seq(x@));
}

} // verus!
