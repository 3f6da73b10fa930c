//! Transcript records. A session's transcript holds one `Message` per line,
//! written as a JSON object with the fields `role`, `content`, `timestamp`
//! and `skills`. The writer and reader here are exact inverses:
//! `lemma_message_round_trip` proves that reading back an encoded record
//! yields the record that was written.
use vstd::prelude::*;

verus! {

use vstd::string::StringExecFns;
use crate::jsontext::escape_seq;
use crate::jsontext::quote_seq;
use crate::jsontext::push_quoted;
use crate::jsontext::parse_str_body;
use crate::jsontext::parse_str_body_exec;
use crate::jsontext::lemma_parse_escape;
use crate::text::push_char;
use crate::text::chars_of;
use crate::text::string_from_chars;
use crate::text::str_eq;
use crate::text::starts_with_seq;
use crate::text::slice_starts_at;

/// One transcript entry: who spoke, what was said, when, and which skills
/// were active when the entry was appended.
#[derive(Debug, Clone)]
pub struct Message {
    pub role: String,
    pub content: String,
    pub timestamp: String,
    pub skills: Vec<String>,
}

/// The mathematical value of a `Message`.
pub struct MsgView {
    pub role: Seq<char>,
    pub content: Seq<char>,
    pub timestamp: Seq<char>,
    pub skills: Seq<Seq<char>>,
}

impl View for Message {
    type V = MsgView;

    open spec fn view(&self) -> MsgView {
        MsgView {
            role: self.role@,
            content: self.content@,
            timestamp: self.timestamp@,
            skills: self.skills.deep_view(),
        }
    }
}

pub open spec fn lit_role() -> Seq<char> {
    "{\"role\":"@
}

pub open spec fn lit_content() -> Seq<char> {
    ",\"content\":"@
}

pub open spec fn lit_timestamp() -> Seq<char> {
    ",\"timestamp\":"@
}

pub open spec fn lit_skills() -> Seq<char> {
    ",\"skills\":["@
}

/// The items of a skill array after the first: `,"x"` for each entry.
pub open spec fn encode_items_rest(xs: Seq<Seq<char>>) -> Seq<char>
    decreases xs.len(),
{
    if xs.len() == 0 {
        Seq::empty()
    } else {
        seq![','] + quote_seq(xs[0]) + encode_items_rest(xs.drop_first())
    }
}

/// The items of a skill array, comma separated, without the brackets.
pub open spec fn encode_items(xs: Seq<Seq<char>>) -> Seq<char> {
    if xs.len() == 0 {
        Seq::empty()
    } else {
        quote_seq(xs[0]) + encode_items_rest(xs.drop_first())
    }
}

/// The transcript line that denotes `m` (without the newline).
pub open spec fn encode_message_seq(m: MsgView) -> Seq<char> {
    lit_role() + quote_seq(m.role) + lit_content() + quote_seq(m.content) + lit_timestamp()
        + quote_seq(m.timestamp) + lit_skills() + encode_items(m.skills) + seq![']'] + seq!['}']
}

/// Reads a quoted JSON string; the count includes both quotes.
pub open spec fn parse_quoted(s: Seq<char>) -> Option<(Seq<char>, int)> {
    if s.len() == 0 || s[0] != '"' {
        None
    } else {
        match parse_str_body(s.skip(1)) {
            Some(pr) => Some((pr.0, pr.1 + 1)),
            None => None,
        }
    }
}

/// Reads `,"x"` items until the closing `]`, which it consumes.
pub open spec fn parse_items_more(s: Seq<char>) -> Option<(Seq<Seq<char>>, int)>
    decreases s.len(),
{
    if s.len() == 0 {
        None
    } else if s[0] == ']' {
        Some((Seq::empty(), 1int))
    } else if s[0] == ',' {
        match parse_quoted(s.skip(1)) {
            None => None,
            Some(pr) => {
                let n = 1 + pr.1;
                if !(1 <= n <= s.len()) {
                    None
                } else {
                    match parse_items_more(s.skip(n)) {
                        None => None,
                        Some(qr) => Some((seq![pr.0] + qr.0, n + qr.1)),
                    }
                }
            },
        }
    } else {
        None
    }
}

/// Reads a skill array body (after the `[`), consuming the closing `]`.
pub open spec fn parse_items(s: Seq<char>) -> Option<(Seq<Seq<char>>, int)> {
    if s.len() == 0 {
        None
    } else if s[0] == ']' {
        Some((Seq::empty(), 1int))
    } else {
        match parse_quoted(s) {
            None => None,
            Some(pr) => {
                if !(1 <= pr.1 <= s.len()) {
                    None
                } else {
                    match parse_items_more(s.skip(pr.1)) {
                        None => None,
                        Some(qr) => Some((seq![pr.0] + qr.0, pr.1 + qr.1)),
                    }
                }
            },
        }
    }
}

/// Reads one whole transcript line back into a record.
pub open spec fn parse_message_seq(s: Seq<char>) -> Option<MsgView> {
    if !starts_with_seq(s, lit_role()) {
        None
    } else {
        let s1 = s.skip(lit_role().len() as int);
        match parse_quoted(s1) {
            None => None,
            Some(r1) => {
                if !(0 <= r1.1 <= s1.len()) {
                    None
                } else {
                    let s2 = s1.skip(r1.1);
                    if !starts_with_seq(s2, lit_content()) {
                        None
                    } else {
                        let s3 = s2.skip(lit_content().len() as int);
                        match parse_quoted(s3) {
                            None => None,
                            Some(r2) => {
                                if !(0 <= r2.1 <= s3.len()) {
                                    None
                                } else {
                                    let s4 = s3.skip(r2.1);
                                    if !starts_with_seq(s4, lit_timestamp()) {
                                        None
                                    } else {
                                        let s5 = s4.skip(lit_timestamp().len() as int);
                                        match parse_quoted(s5) {
                                            None => None,
                                            Some(r3) => {
                                                if !(0 <= r3.1 <= s5.len()) {
                                                    None
                                                } else {
                                                    let s6 = s5.skip(r3.1);
                                                    if !starts_with_seq(s6, lit_skills()) {
                                                        None
                                                    } else {
                                                        let s7 = s6.skip(lit_skills().len() as int);
                                                        match parse_items(s7) {
                                                            None => None,
                                                            Some(r4) => {
                                                                if !(0 <= r4.1 <= s7.len()) {
                                                                    None
                                                                } else {
                                                                    let s8 = s7.skip(r4.1);
                                                                    if s8 == seq!['}'] {
                                                                        Some(
                                                                            MsgView {
                                                                                role: r1.0,
                                                                                content: r2.0,
                                                                                timestamp: r3.0,
                                                                                skills: r4.0,
                                                                            },
                                                                        )
                                                                    } else {
                                                                        None
                                                                    }
                                                                }
                                                            },
                                                        }
                                                    }
                                                }
                                            },
                                        }
                                    }
                                }
                            },
                        }
                    }
                }
            },
        }
    }
}

pub proof fn lemma_quoted_round_trip(x: Seq<char>, rest: Seq<char>)
    ensures
        parse_quoted(quote_seq(x) + rest) == Some((x, quote_seq(x).len() as int)),
        quote_seq(x).len() == escape_seq(x).len() + 2,
{
    let s = quote_seq(x) + rest;
    assert(s[0] == '"');
    assert(s.skip(1) =~= escape_seq(x) + seq!['"'] + rest);
    lemma_parse_escape(x, rest);
}

pub proof fn lemma_items_more_round_trip(xs: Seq<Seq<char>>, rest: Seq<char>)
    ensures
        parse_items_more(encode_items_rest(xs) + seq![']'] + rest) == Some(
            (xs, encode_items_rest(xs).len() + 1 as int),
        ),
    decreases xs.len(),
{
    let s = encode_items_rest(xs) + seq![']'] + rest;
    if xs.len() == 0 {
        assert(s =~= seq![']'] + rest);
        assert(s[0] == ']');
        assert(xs =~= Seq::<Seq<char>>::empty());
    } else {
        let x = xs[0];
        let tail = xs.drop_first();
        let s_tail = encode_items_rest(tail) + seq![']'] + rest;
        assert(encode_items_rest(xs) == seq![','] + quote_seq(x) + encode_items_rest(tail));
        assert(s =~= seq![','] + (quote_seq(x) + s_tail));
        assert(s[0] == ',');
        assert(s[0] != ']');
        assert(s.skip(1) =~= quote_seq(x) + s_tail);
        lemma_quoted_round_trip(x, s_tail);
        let n = 1 + quote_seq(x).len() as int;
        assert(s.skip(n) =~= s_tail);
        lemma_items_more_round_trip(tail, rest);
        assert(seq![x] + tail =~= xs);
    }
}

pub proof fn lemma_items_round_trip(xs: Seq<Seq<char>>, rest: Seq<char>)
    ensures
        parse_items(encode_items(xs) + seq![']'] + rest) == Some(
            (xs, encode_items(xs).len() + 1 as int),
        ),
{
    let s = encode_items(xs) + seq![']'] + rest;
    if xs.len() == 0 {
        assert(s =~= seq![']'] + rest);
        assert(s[0] == ']');
        assert(xs =~= Seq::<Seq<char>>::empty());
    } else {
        let x = xs[0];
        let tail = xs.drop_first();
        let s_tail = encode_items_rest(tail) + seq![']'] + rest;
        assert(s =~= quote_seq(x) + s_tail);
        assert(s[0] == '"');
        assert(s[0] != ']');
        lemma_quoted_round_trip(x, s_tail);
        assert(s.skip(quote_seq(x).len() as int) =~= s_tail);
        lemma_items_more_round_trip(tail, rest);
        assert(seq![x] + tail =~= xs);
    }
}

/// Splitting a concatenation back off: the prefix is seen, and skipping it
/// leaves the rest.
proof fn lemma_peel(lit: Seq<char>, rest: Seq<char>)
    ensures
        starts_with_seq(lit + rest, lit),
        (lit + rest).skip(lit.len() as int) == rest,
{
    assert((lit + rest).subrange(0, lit.len() as int) =~= lit);
    assert((lit + rest).skip(lit.len() as int) =~= rest);
}

/// Reading back an encoded transcript line yields exactly the record that
/// was written.
#[verifier::rlimit(100)]
#[verifier::spinoff_prover]
pub proof fn lemma_message_round_trip(m: MsgView)
    ensures
        parse_message_seq(encode_message_seq(m)) == Some(m),
{
    let s = encode_message_seq(m);
    let q1 = quote_seq(m.role);
    let q2 = quote_seq(m.content);
    let q3 = quote_seq(m.timestamp);
    let items = encode_items(m.skills);
    let tail8 = seq![']'] + seq!['}'];
    let rest4 = lit_skills() + (items + tail8);
    let rest3 = lit_timestamp() + (q3 + rest4);
    let rest2 = lit_content() + (q2 + rest3);
    let rest1 = q1 + rest2;
    assert(s =~= lit_role() + rest1);
    lemma_peel(lit_role(), rest1);
    let s1 = s.skip(lit_role().len() as int);
    lemma_quoted_round_trip(m.role, rest2);
    let s2 = s1.skip(q1.len() as int);
    lemma_peel(q1, rest2);
    lemma_peel(lit_content(), q2 + rest3);
    let s3 = s2.skip(lit_content().len() as int);
    lemma_quoted_round_trip(m.content, rest3);
    let s4 = s3.skip(q2.len() as int);
    lemma_peel(q2, rest3);
    lemma_peel(lit_timestamp(), q3 + rest4);
    let s5 = s4.skip(lit_timestamp().len() as int);
    lemma_quoted_round_trip(m.timestamp, rest4);
    let s6 = s5.skip(q3.len() as int);
    lemma_peel(q3, rest4);
    lemma_peel(lit_skills(), items + tail8);
    let s7 = s6.skip(lit_skills().len() as int);
    assert(s7 =~= items + seq![']'] + seq!['}']);
    lemma_items_round_trip(m.skills, seq!['}']);
    assert(parse_items(s7) == Some((m.skills, items.len() + 1 as int)));
    let s8 = s7.skip(items.len() + 1 as int);
    assert((items + seq![']'] + seq!['}']).skip(items.len() + 1 as int) =~= seq!['}']);
}

pub proof fn lemma_encode_items_rest_snoc(xs: Seq<Seq<char>>, x: Seq<char>)
    ensures
        encode_items_rest(xs.push(x)) == encode_items_rest(xs) + (seq![','] + quote_seq(x)),
    decreases xs.len(),
{
    if xs.len() == 0 {
        assert(xs.push(x)[0] == x);
        assert(xs.push(x).drop_first() =~= Seq::<Seq<char>>::empty());
        assert(encode_items_rest(xs.push(x)) == seq![','] + quote_seq(x) + encode_items_rest(
            Seq::<Seq<char>>::empty(),
        ));
        assert(encode_items_rest(xs.push(x)) =~= encode_items_rest(xs) + (seq![','] + quote_seq(
            x,
        )));
    } else {
        assert(xs.push(x)[0] == xs[0]);
        assert(xs.push(x).drop_first() =~= xs.drop_first().push(x));
        lemma_encode_items_rest_snoc(xs.drop_first(), x);
        assert(encode_items_rest(xs.push(x)) =~= encode_items_rest(xs) + (seq![','] + quote_seq(
            x,
        )));
    }
}

pub proof fn lemma_encode_items_snoc(xs: Seq<Seq<char>>, x: Seq<char>)
    ensures
        xs.len() == 0 ==> encode_items(xs.push(x)) == quote_seq(x),
        xs.len() > 0 ==> encode_items(xs.push(x)) == encode_items(xs) + (seq![','] + quote_seq(
            x,
        )),
{
    if xs.len() == 0 {
        assert(xs.push(x)[0] == x);
        assert(xs.push(x).drop_first() =~= Seq::<Seq<char>>::empty());
        assert(encode_items(xs.push(x)) =~= quote_seq(x));
    } else {
        assert(xs.push(x)[0] == xs[0]);
        assert(xs.push(x).drop_first() =~= xs.drop_first().push(x));
        lemma_encode_items_rest_snoc(xs.drop_first(), x);
        assert(encode_items(xs.push(x)) =~= encode_items(xs) + (seq![','] + quote_seq(x)));
    }
}

/// The transcript line for `m`, exactly as `encode_message_seq` says.
pub fn encode_message(m: &Message) -> (r: String)
    ensures
        r@ == encode_message_seq(m@),
{
    let mut out = String::new();
    out.append("{\"role\":");
    push_quoted(&mut out, m.role.as_str());
    out.append(",\"content\":");
    push_quoted(&mut out, m.content.as_str());
    out.append(",\"timestamp\":");
    push_quoted(&mut out, m.timestamp.as_str());
    out.append(",\"skills\":[");
    let ghost prefix = out@;
    let mut j: usize = 0;
    assert(m@.skills.subrange(0, 0) =~= Seq::<Seq<char>>::empty());
    while j < m.skills.len()
        invariant
            j <= m.skills@.len(),
            m@.skills.len() == m.skills@.len(),
            forall|k: int| 0 <= k < m.skills@.len() ==> m@.skills[k] == m.skills@[k]@,
            out@ == prefix + encode_items(m@.skills.subrange(0, j as int)),
        decreases m.skills@.len() - j,
    {
        if j > 0 {
            push_char(&mut out, ',');
        }
        push_quoted(&mut out, m.skills[j].as_str());
        proof {
            let pre = m@.skills.subrange(0, j as int);
            lemma_encode_items_snoc(pre, m@.skills[j as int]);
            assert(pre.push(m@.skills[j as int]) =~= m@.skills.subrange(0, j + 1 as int));
            if j == 0 {
                assert(out@ =~= prefix + encode_items(m@.skills.subrange(0, j + 1 as int)));
            } else {
                assert(out@ =~= prefix + encode_items(m@.skills.subrange(0, j + 1 as int)));
            }
        }
        j = j + 1;
    }
    assert(m@.skills.subrange(0, j as int) =~= m@.skills);
    push_char(&mut out, ']');
    push_char(&mut out, '}');
    assert(out@ =~= encode_message_seq(m@));
    out
}

/// Reads a quoted string at position `i`, as `parse_quoted` says.
fn parse_quoted_exec(s: &[char], i: usize) -> (r: Option<(String, usize)>)
    requires
        i <= s@.len(),
    ensures
        r is Some <==> parse_quoted(s@.skip(i as int)) is Some,
        r is Some ==> {
            let pr = parse_quoted(s@.skip(i as int))->0;
            (r->0).0@ == pr.0 && (r->0).1 == pr.1 && 1 <= (r->0).1 && i + (r->0).1 <= s@.len()
        },
{
    let ghost tail = s@.skip(i as int);
    if s.len() - i == 0 {
        return None;
    }
    if s[i] != '"' {
        assert(tail[0] != '"');
        return None;
    }
    let mut out: Vec<char> = Vec::new();
    assert(s@.skip(i + 1 as int) =~= tail.skip(1));
    match parse_str_body_exec(s, i + 1, &mut out) {
        Some(n) => {
            let txt = string_from_chars(out.as_slice());
            Some((txt, n + 1))
        },
        None => None,
    }
}

/// Reads `,"x"` items plus the closing `]` at position `i`, appending the
/// items to `acc`, as `parse_items_more` says.
fn parse_items_more_exec(s: &[char], i: usize, acc: &mut Vec<String>) -> (r: Option<usize>)
    requires
        i <= s@.len(),
    ensures
        r is Some <==> parse_items_more(s@.skip(i as int)) is Some,
        r is Some ==> {
            let pr = parse_items_more(s@.skip(i as int))->0;
            final(acc).deep_view() == old(acc).deep_view() + pr.0 && r->0 == pr.1 && i + r->0
                <= s@.len()
        },
    decreases s@.len() - i,
{
    let ghost tail = s@.skip(i as int);
    if s.len() - i == 0 {
        return None;
    }
    if s[i] == ']' {
        assert(tail[0] == ']');
        assert(acc.deep_view() =~= acc.deep_view() + Seq::<Seq<char>>::empty());
        return Some(1);
    }
    if s[i] != ',' {
        assert(tail[0] != ',' && tail[0] != ']');
        return None;
    }
    assert(s@.skip(i + 1 as int) =~= tail.skip(1));
    match parse_quoted_exec(s, i + 1) {
        None => None,
        Some((txt, n0)) => {
            let n = 1 + n0;
            assert(n as int == 1 + (parse_quoted(tail.skip(1))->0).1);
            assert(1 <= n as int <= tail.len());
            acc.push(txt);
            assert(s@.skip(i + n as int) =~= tail.skip(n as int));
            let ghost mid = acc.deep_view();
            assert(mid =~= old(acc).deep_view().push(txt@));
            match parse_items_more_exec(s, i + n, acc) {
                None => None,
                Some(m0) => {
                    proof {
                        let pr = parse_items_more(tail)->0;
                        let qr = parse_items_more(tail.skip(n as int))->0;
                        assert(pr.0 =~= seq![txt@] + qr.0);
                        assert(acc.deep_view() =~= old(acc).deep_view() + pr.0);
                    }
                    Some(n + m0)
                },
            }
        },
    }
}

/// Reads a whole skill array body at position `i`, as `parse_items` says.
fn parse_items_exec(s: &[char], i: usize) -> (r: Option<(Vec<String>, usize)>)
    requires
        i <= s@.len(),
    ensures
        r is Some <==> parse_items(s@.skip(i as int)) is Some,
        r is Some ==> {
            let pr = parse_items(s@.skip(i as int))->0;
            (r->0).0.deep_view() == pr.0 && (r->0).1 == pr.1 && 1 <= (r->0).1 && i + (r->0).1
                <= s@.len()
        },
{
    let ghost tail = s@.skip(i as int);
    if s.len() - i == 0 {
        return None;
    }
    let mut acc: Vec<String> = Vec::new();
    if s[i] == ']' {
        assert(tail[0] == ']');
        assert(acc.deep_view() =~= Seq::<Seq<char>>::empty());
        return Some((acc, 1));
    }
    match parse_quoted_exec(s, i) {
        None => None,
        Some((txt, n)) => {
            acc.push(txt);
            assert(s@.skip(i + n as int) =~= tail.skip(n as int));
            let ghost mid = acc.deep_view();
            assert(mid =~= Seq::<Seq<char>>::empty().push(txt@));
            match parse_items_more_exec(s, i + n, &mut acc) {
                None => None,
                Some(m0) => {
                    proof {
                        let pr = parse_items(tail)->0;
                        let qr = parse_items_more(tail.skip(n as int))->0;
                        assert(pr.0 =~= seq![txt@] + qr.0);
                        assert(acc.deep_view() =~= pr.0);
                    }
                    Some((acc, n + m0))
                },
            }
        },
    }
}

/// Reads one transcript line back into a record, exactly as
/// `parse_message_seq` says; lines that do not have the record shape are
/// rejected.
#[verifier::rlimit(100)]
#[verifier::spinoff_prover]
pub fn parse_message(line: &str) -> (r: Option<Message>)
    ensures
        r is Some <==> parse_message_seq(line@) is Some,
        r is Some ==> r->0@ == parse_message_seq(line@)->0,
{
    let v = chars_of(line);
    let s = v.as_slice();
    let lit1 = chars_of("{\"role\":");
    if !slice_starts_at(s, 0, lit1.as_slice()) {
        assert(s@.skip(0) =~= line@);
        return None;
    }
    assert(s@.skip(0) =~= line@);
    let i1 = lit1.len();
    assert(s@.skip(i1 as int) =~= line@.skip(lit_role().len() as int));
    let ghost s1 = line@.skip(lit_role().len() as int);
    match parse_quoted_exec(s, i1) {
        None => None,
        Some((role, n1)) => {
            let i2 = i1 + n1;
            assert(s@.skip(i2 as int) =~= s1.skip((parse_quoted(s1)->0).1));
            let ghost s2 = s1.skip((parse_quoted(s1)->0).1);
            let lit2 = chars_of(",\"content\":");
            if !slice_starts_at(s, i2, lit2.as_slice()) {
                return None;
            }
            let i3 = i2 + lit2.len();
            assert(s@.skip(i3 as int) =~= s2.skip(lit_content().len() as int));
            let ghost s3 = s2.skip(lit_content().len() as int);
            match parse_quoted_exec(s, i3) {
                None => None,
                Some((content, n2)) => {
                    let i4 = i3 + n2;
                    assert(s@.skip(i4 as int) =~= s3.skip((parse_quoted(s3)->0).1));
                    let ghost s4 = s3.skip((parse_quoted(s3)->0).1);
                    let lit3 = chars_of(",\"timestamp\":");
                    if !slice_starts_at(s, i4, lit3.as_slice()) {
                        return None;
                    }
                    let i5 = i4 + lit3.len();
                    assert(s@.skip(i5 as int) =~= s4.skip(lit_timestamp().len() as int));
                    let ghost s5 = s4.skip(lit_timestamp().len() as int);
                    match parse_quoted_exec(s, i5) {
                        None => None,
                        Some((timestamp, n3)) => {
                            let i6 = i5 + n3;
                            assert(s@.skip(i6 as int) =~= s5.skip((parse_quoted(s5)->0).1));
                            let ghost s6 = s5.skip((parse_quoted(s5)->0).1);
                            let lit4 = chars_of(",\"skills\":[");
                            if !slice_starts_at(s, i6, lit4.as_slice()) {
                                return None;
                            }
                            let i7 = i6 + lit4.len();
                            assert(s@.skip(i7 as int) =~= s6.skip(lit_skills().len() as int));
                            let ghost s7 = s6.skip(lit_skills().len() as int);
                            match parse_items_exec(s, i7) {
                                None => None,
                                Some((skills, n4)) => {
                                    let i8 = i7 + n4;
                                    assert(s@.skip(i8 as int) =~= s7.skip((parse_items(s7)->0).1));
                                    let ghost s8 = s7.skip((parse_items(s7)->0).1);
                                    if s.len() - i8 == 1 && s[i8] == '}' {
                                        assert(s8 =~= seq!['}']);
                                        let m = Message { role, content, timestamp, skills };
                                        assert(m@ == parse_message_seq(line@)->0);
                                        Some(m)
                                    } else {
                                        proof {
                                            if s8.len() == 1 && s8[0] == '}' {
                                                assert(s@.skip(i8 as int).len() == 1);
                                                assert(s@.skip(i8 as int)[0] == '}');
                                                assert(false);
                                            }
                                            if s8 == seq!['}'] {
                                                assert(s8.len() == 1 && s8[0] == '}');
                                            }
                                        }
                                        None
                                    }
                                },
                            }
                        },
                    }
                },
            }
        },
    }
}

/// `m` with every tag equal to `name` removed from its skill list; the
/// other fields are kept.
pub open spec fn strip_view(m: MsgView, name: Seq<char>) -> MsgView {
    MsgView {
        role: m.role,
        content: m.content,
        timestamp: m.timestamp,
        skills: m.skills.filter(|x: Seq<char>| x != name),
    }
}

/// A copy of `m` without any `name` tag, as `strip_view` says.
pub fn strip_skill_tag(m: &Message, name: &str) -> (r: Message)
    ensures
        r@ == strip_view(m@, name@),
{
    let mut kept: Vec<String> = Vec::new();
    let mut j: usize = 0;
    proof {
        reveal(Seq::filter);
        assert(m@.skills.subrange(0, 0) =~= Seq::<Seq<char>>::empty());
        assert(kept.deep_view() =~= m@.skills.subrange(0, 0).filter(
            |x: Seq<char>| x != name@,
        ));
    }
    while j < m.skills.len()
        invariant
            j <= m.skills@.len(),
            m@.skills.len() == m.skills@.len(),
            forall|k: int| 0 <= k < m.skills@.len() ==> m@.skills[k] == m.skills@[k]@,
            kept.deep_view() == m@.skills.subrange(0, j as int).filter(
                |x: Seq<char>| x != name@,
            ),
        decreases m.skills@.len() - j,
    {
        let keep = !str_eq(m.skills[j].as_str(), name);
        proof {
            reveal(Seq::filter);
            let pre = m@.skills.subrange(0, j as int);
            let ext = m@.skills.subrange(0, j + 1 as int);
            assert(ext.drop_last() =~= pre);
            assert(ext.last() == m@.skills[j as int]);
        }
        if keep {
            kept.push(m.skills[j].clone());
            assert(kept.deep_view() =~= m@.skills.subrange(0, j as int).filter(
                |x: Seq<char>| x != name@,
            ).push(m@.skills[j as int]));
        }
        j = j + 1;
        assert(kept.deep_view() =~= m@.skills.subrange(0, j as int).filter(
            |x: Seq<char>| x != name@,
        ));
    }
    assert(m@.skills.subrange(0, j as int) =~= m@.skills);
    Message {
        role: m.role.clone(),
        content: m.content.clone(),
        timestamp: m.timestamp.clone(),
        skills: kept,
    }
}

} // verus!
