//! Character-level text utilities shared by the codec, the gateway and the
//! selector: conversions between `&str` and `Vec<char>`, equality, and
//! substring search.
use vstd::prelude::*;

verus! {

use vstd::std_specs::iter::IteratorSpec;

broadcast use vstd::string::group_string_axioms;

/// Relies on String::push: appends exactly one character at the end.
#[verifier::external_body]
pub fn push_char(s: &mut String, c: char)
    ensures
        final(s)@ == old(s)@.push(c),
{
    s.push(c);
}

/// The characters of `s`, in order, as a vector.
pub fn chars_of(s: &str) -> (r: Vec<char>)
    ensures
        r@ == s@,
{
    let mut it = s.chars();
    let mut v: Vec<char> = Vec::new();
    loop
        invariant
            it.obeys_prophetic_iter_laws(),
            it.decrease() is Some,
            v@ + it.remaining() == s@,
        ensures
            v@ == s@,
        decreases it.decrease()->0,
    {
        match it.next() {
            Some(c) => {
                v.push(c);
            },
            None => {
                assert(v@ + it.remaining() == s@);
                assert(v@ =~= s@);
                break ;
            },
        }
    }
    v
}

/// The string holding exactly the characters of `v`, in order.
pub fn string_from_chars(v: &[char]) -> (r: String)
    ensures
        r@ == v@,
{
    let mut s = String::new();
    let mut i: usize = 0;
    while i < v.len()
        invariant
            i <= v@.len(),
            s@ == v@.subrange(0, i as int),
        decreases v@.len() - i,
    {
        push_char(&mut s, v[i]);
        i = i + 1;
        assert(s@ =~= v@.subrange(0, i as int));
    }
    assert(s@ =~= v@);
    s
}

/// Appends the characters of `v` to `s`.
pub fn push_chars(s: &mut String, v: &[char])
    ensures
        final(s)@ == old(s)@ + v@,
{
    let mut i: usize = 0;
    while i < v.len()
        invariant
            i <= v@.len(),
            s@ == old(s)@ + v@.subrange(0, i as int),
        decreases v@.len() - i,
    {
        push_char(s, v[i]);
        i = i + 1;
        assert(s@ =~= old(s)@ + v@.subrange(0, i as int));
    }
    assert(s@ =~= old(s)@ + v@);
}

/// Whether the two strings hold the same characters.
pub fn str_eq(a: &str, b: &str) -> (r: bool)
    ensures
        r == (a@ == b@),
{
    let av = chars_of(a);
    let bv = chars_of(b);
    chars_eq(&av, &bv)
}

/// Whether the two character slices are equal.
pub fn chars_eq(a: &[char], b: &[char]) -> (r: bool)
    ensures
        r == (a@ == b@),
{
    if a.len() != b.len() {
        return false;
    }
    let mut i: usize = 0;
    while i < a.len()
        invariant
            i <= a@.len(),
            a@.len() == b@.len(),
            forall|j: int| 0 <= j < i ==> a@[j] == b@[j],
        decreases a@.len() - i,
    {
        if a[i] != b[i] {
            return false;
        }
        i = i + 1;
    }
    assert(a@ =~= b@);
    true
}

/// `needle` occurs in `haystack` starting at position `i`.
pub open spec fn occurs_at(haystack: Seq<char>, needle: Seq<char>, i: int) -> bool {
    0 <= i && i + needle.len() <= haystack.len() && haystack.subrange(
        i,
        i + needle.len(),
    ) == needle
}

/// `needle` occurs somewhere in `haystack`.
pub open spec fn contains_seq(haystack: Seq<char>, needle: Seq<char>) -> bool {
    exists|i: int| occurs_at(haystack, needle, i)
}

/// Whether `needle` occurs as a contiguous run inside `haystack`.
pub fn contains_chars(haystack: &[char], needle: &[char]) -> (r: bool)
    ensures
        r == contains_seq(haystack@, needle@),
{
    if needle.len() > haystack.len() {
        assert(!contains_seq(haystack@, needle@));
        return false;
    }
    if needle.len() == 0 {
        assert(haystack@.subrange(0, 0) =~= needle@);
        assert(occurs_at(haystack@, needle@, 0));
        return true;
    }
    let mut i: usize = 0;
    while i <= haystack.len() - needle.len()
        invariant
            1 <= needle@.len() <= haystack@.len(),
            i <= haystack@.len() - needle@.len() + 1,
            forall|j: int| 0 <= j < i ==> !occurs_at(haystack@, needle@, j),
        decreases haystack@.len() - needle@.len() + 1 - i,
    {
        let mut k: usize = 0;
        let mut hit = true;
        while k < needle.len()
            invariant_except_break
                hit,
            invariant
                k <= needle@.len(),
                i + needle@.len() <= haystack@.len() <= usize::MAX,
                forall|j: int| 0 <= j < k ==> haystack@[i + j] == needle@[j],
            ensures
                hit ==> k == needle@.len() && forall|j: int|
                    0 <= j < k ==> haystack@[i + j] == needle@[j],
                !hit ==> !occurs_at(haystack@, needle@, i as int),
            decreases needle@.len() - k,
        {
            assert(i + k < haystack@.len());
            if haystack[i + k] != needle[k] {
                hit = false;
                assert(haystack@.subrange(i as int, i + needle@.len())[k as int] != needle@[k as int]);
                break ;
            }
            k = k + 1;
        }
        if hit {
            assert(haystack@.subrange(i as int, i + needle@.len()) =~= needle@);
            assert(occurs_at(haystack@, needle@, i as int));
            return true;
        }
        i = i + 1;
    }
    assert forall|j: int| !occurs_at(haystack@, needle@, j) by {
        if 0 <= j && j + needle@.len() <= haystack@.len() {
            assert(!occurs_at(haystack@, needle@, j));
        }
    }
    false
}


/// The index of the first occurrence of `c` in `s`, or -1.
pub open spec fn first_pos(s: Seq<char>, c: char) -> int
    decreases s.len(),
{
    if s.len() == 0 {
        -1
    } else if s[0] == c {
        0
    } else {
        let r = first_pos(s.drop_first(), c);
        if r < 0 {
            -1
        } else {
            r + 1
        }
    }
}

pub proof fn lemma_first_pos(s: Seq<char>, c: char)
    ensures
        first_pos(s, c) == -1 ==> forall|j: int| 0 <= j < s.len() ==> s[j] != c,
        first_pos(s, c) >= 0 ==> first_pos(s, c) < s.len() && s[first_pos(s, c)] == c
            && forall|j: int| 0 <= j < first_pos(s, c) ==> s[j] != c,
    decreases s.len(),
{
    if s.len() == 0 {
    } else if s[0] == c {
    } else {
        let t = s.drop_first();
        lemma_first_pos(t, c);
        let r = first_pos(t, c);
        if r < 0 {
            assert forall|j: int| 0 <= j < s.len() implies s[j] != c by {
                if j > 0 {
                    assert(t[j - 1] == s[j]);
                }
            }
        } else {
            assert(s[r + 1] == t[r]);
            assert forall|j: int| 0 <= j < r + 1 implies s[j] != c by {
                if j > 0 {
                    assert(t[j - 1] == s[j]);
                }
            }
        }
    }
}

pub proof fn lemma_first_pos_unique(s: Seq<char>, c: char, j: int)
    requires
        0 <= j < s.len(),
        s[j] == c,
        forall|k: int| 0 <= k < j ==> s[k] != c,
    ensures
        first_pos(s, c) == j,
    decreases s.len(),
{
    if s[0] == c {
    } else {
        lemma_first_pos_unique(s.drop_first(), c, j - 1);
    }
}

/// The index of the first occurrence of `c` in `s` at or after `from`.
pub fn find_char(s: &[char], from: usize, c: char) -> (r: Option<usize>)
    requires
        from <= s@.len(),
    ensures
        r == (if first_pos(s@.skip(from as int), c) < 0 {
            Option::<usize>::None
        } else {
            Option::<usize>::Some((from + first_pos(s@.skip(from as int), c)) as usize)
        }),
        r is Some ==> from <= r->0 < s@.len() && s@[r->0 as int] == c && first_pos(
            s@.skip(from as int),
            c,
        ) == r->0 - from,
{
    let ghost tail = s@.skip(from as int);
    proof {
        assert(tail.len() == s@.len() - from);
        assert(forall|k: int| 0 <= k < tail.len() ==> tail[k] == s@[from + k]);
    }
    let mut i: usize = from;
    while i < s.len()
        invariant
            tail == s@.skip(from as int),
            tail.len() == s@.len() - from,
            forall|k: int| 0 <= k < tail.len() ==> tail[k] == s@[from + k],
            from <= i <= s@.len(),
            forall|k: int| from <= k < i ==> s@[k] != c,
        decreases s@.len() - i,
    {
        if s[i] == c {
            proof {
                assert(tail[i - from] == c);
                assert forall|k: int| 0 <= k < i - from implies tail[k] != c by {
                    assert(tail[k] == s@[from + k]);
                }
                lemma_first_pos_unique(tail, c, i - from);
            }
            return Some(i);
        }
        i = i + 1;
    }
    proof {
        assert forall|k: int| 0 <= k < tail.len() implies tail[k] != c by {
            assert(tail[k] == s@[from + k]);
        }
        lemma_first_pos(tail, c);
        if first_pos(tail, c) >= 0 {
            assert(tail[first_pos(tail, c)] == c);
            assert(false);
        }
    }
    None
}

/// A newline-terminated line with a trailing carriage return removed, as
/// `str::lines` does; a final unterminated line keeps its characters.
pub open spec fn strip_cr(s: Seq<char>) -> Seq<char> {
    if s.len() > 0 && s.last() == '\r' {
        s.drop_last()
    } else {
        s
    }
}

/// The lines of `s`: split on newlines, each stripped of a trailing
/// carriage return, with no empty line after a final newline.
pub open spec fn split_lines_seq(s: Seq<char>) -> Seq<Seq<char>>
    decreases s.len(),
{
    if s.len() == 0 {
        Seq::empty()
    } else {
        let i = first_pos(s, '\n');
        if i < 0 || i + 1 > s.len() {
            seq![s]
        } else {
            seq![strip_cr(s.take(i))] + split_lines_seq(s.skip(i + 1))
        }
    }
}

/// Appends the lines of `s` from position `from` on to `out`.
fn split_lines_rec(s: &[char], from: usize, out: &mut Vec<String>)
    requires
        from <= s@.len(),
    ensures
        final(out).deep_view() == old(out).deep_view() + split_lines_seq(s@.skip(from as int)),
    decreases s@.len() - from,
{
    let ghost tail = s@.skip(from as int);
    if s.len() - from == 0 {
        assert(out.deep_view() =~= out.deep_view() + split_lines_seq(tail));
        return ;
    }
    match find_char(s, from, '\n') {
        None => {
            proof {
                lemma_first_pos(tail, '\n');
            }
            let piece = string_from_chars(vstd::slice::slice_subrange(s, from, s.len()));
            assert(piece@ == tail) by {
                assert(s@.subrange(from as int, s@.len() as int) =~= tail);
            }
            let ghost pre = out.deep_view();
            out.push(piece);
            assert(out.deep_view() =~= pre + split_lines_seq(tail));
        },
        Some(j) => {
            let ghost i = first_pos(tail, '\n');
            proof {
                lemma_first_pos(tail, '\n');
            }
            let piece = line_piece(s, from, j);
            assert(piece@ == strip_cr(tail.take(i))) by {
                assert(s@.subrange(from as int, j as int) =~= tail.take(i));
            }
            let ghost pre = out.deep_view();
            out.push(piece);
            assert(out.deep_view() =~= pre + seq![strip_cr(tail.take(i))]);
            assert(s@.skip(j + 1 as int) =~= tail.skip(i + 1));
            split_lines_rec(s, j + 1, out);
            assert(out.deep_view() =~= pre + (seq![strip_cr(tail.take(i))] + split_lines_seq(
                tail.skip(i + 1),
            )));
        },
    }
}

/// The characters of `s` between `from` and `to`, with a trailing carriage
/// return removed, as one string.
fn line_piece(s: &[char], from: usize, to: usize) -> (r: String)
    requires
        from <= to <= s@.len(),
    ensures
        r@ == strip_cr(s@.subrange(from as int, to as int)),
{
    let ghost piece = s@.subrange(from as int, to as int);
    let end = if to > from && s[to - 1] == '\r' {
        to - 1
    } else {
        to
    };
    let sub = vstd::slice::slice_subrange(s, from, end);
    let r = string_from_chars(sub);
    proof {
        if to > from && piece.last() == '\r' {
            assert(s@.subrange(from as int, to - 1 as int) =~= piece.drop_last());
        } else {
            assert(s@.subrange(from as int, to as int) =~= piece);
        }
    }
    r
}

/// The lines of a captured text, as the pagination tool and the stream
/// decoder see them.
pub fn split_lines(text: &str) -> (r: Vec<String>)
    ensures
        r.deep_view() == split_lines_seq(text@),
{
    let v = chars_of(text);
    let mut out: Vec<String> = Vec::new();
    assert(v@.skip(0) =~= text@);
    split_lines_rec(v.as_slice(), 0, &mut out);
    assert(out.deep_view() =~= Seq::<Seq<char>>::empty() + split_lines_seq(text@));
    out
}


pub open spec fn starts_with_seq(s: Seq<char>, p: Seq<char>) -> bool {
    p.len() <= s.len() && s.subrange(0, p.len() as int) == p
}

/// Whether the characters of `s`, from `i` on, start with `p`.
pub fn slice_starts_at(s: &[char], i: usize, p: &[char]) -> (r: bool)
    requires
        i <= s@.len(),
    ensures
        r == starts_with_seq(s@.skip(i as int), p@),
{
    if s.len() - i < p.len() {
        assert(!starts_with_seq(s@.skip(i as int), p@));
        return false;
    }
    let mut k: usize = 0;
    while k < p.len()
        invariant
            k <= p@.len(),
            i + p@.len() <= s@.len() <= usize::MAX,
            forall|j: int| 0 <= j < k ==> s@[i + j] == p@[j],
        decreases p@.len() - k,
    {
        if s[i + k] != p[k] {
            assert(s@.skip(i as int).subrange(0, p@.len() as int)[k as int] != p@[k as int]);
            return false;
        }
        k = k + 1;
    }
    assert(s@.skip(i as int).subrange(0, p@.len() as int) =~= p@);
    true
}

/// Whether `char::is_whitespace` holds of `c`; a property of the character
/// alone.
pub uninterp spec fn is_unicode_ws(c: char) -> bool;

/// Relies on char::is_whitespace: decided by the character alone; space,
/// tab, newline and carriage return are documented as whitespace.
#[verifier::external_body]
pub fn char_is_ws(c: char) -> (r: bool)
    ensures
        r == is_unicode_ws(c),
        c == ' ' || c == '\t' || c == '\n' || c == '\r' ==> r,
{
    c.is_whitespace()
}

pub open spec fn trim_start_seq(s: Seq<char>) -> Seq<char>
    decreases s.len(),
{
    if s.len() > 0 && is_unicode_ws(s[0]) {
        trim_start_seq(s.drop_first())
    } else {
        s
    }
}

pub open spec fn trim_end_seq(s: Seq<char>) -> Seq<char>
    decreases s.len(),
{
    if s.len() > 0 && is_unicode_ws(s.last()) {
        trim_end_seq(s.drop_last())
    } else {
        s
    }
}

/// `s` without leading and trailing whitespace, as `str::trim` leaves it.
pub open spec fn trim_seq(s: Seq<char>) -> Seq<char> {
    trim_end_seq(trim_start_seq(s))
}

/// `s` without leading commas.
pub open spec fn drop_commas_seq(s: Seq<char>) -> Seq<char>
    decreases s.len(),
{
    if s.len() > 0 && s[0] == ',' {
        drop_commas_seq(s.drop_first())
    } else {
        s
    }
}

/// The window of `s` that trimming whitespace leaves, as indices.
pub fn trim_bounds(s: &[char], from: usize, to: usize) -> (r: (usize, usize))
    requires
        from <= to <= s@.len(),
    ensures
        from <= r.0 <= r.1 <= to,
        s@.subrange(r.0 as int, r.1 as int) == trim_seq(s@.subrange(from as int, to as int)),
{
    let mut a = from;
    while a < to && char_is_ws(s[a])
        invariant
            from <= a <= to <= s@.len(),
            trim_start_seq(s@.subrange(from as int, to as int)) == trim_start_seq(
                s@.subrange(a as int, to as int),
            ),
        decreases to - a,
    {
        proof {
            let cur = s@.subrange(a as int, to as int);
            assert(cur[0] == s@[a as int]);
            assert(cur.drop_first() =~= s@.subrange(a + 1 as int, to as int));
        }
        a = a + 1;
    }
    proof {
        let cur = s@.subrange(a as int, to as int);
        if cur.len() > 0 {
            assert(cur[0] == s@[a as int]);
        }
        assert(trim_start_seq(cur) == cur);
    }
    let mut b = to;
    while b > a && char_is_ws(s[b - 1])
        invariant
            from <= a <= b <= to <= s@.len(),
            trim_start_seq(s@.subrange(from as int, to as int)) == s@.subrange(a as int, to as int),
            trim_end_seq(s@.subrange(a as int, to as int)) == trim_end_seq(
                s@.subrange(a as int, b as int),
            ),
        decreases b,
    {
        proof {
            let cur = s@.subrange(a as int, b as int);
            assert(cur.last() == s@[b - 1 as int]);
            assert(cur.drop_last() =~= s@.subrange(a as int, b - 1 as int));
        }
        b = b - 1;
    }
    proof {
        let cur = s@.subrange(a as int, b as int);
        if cur.len() > 0 {
            assert(cur.last() == s@[b - 1 as int]);
        }
        assert(trim_end_seq(cur) == cur);
    }
    (a, b)
}

/// The window of `s` that dropping leading commas leaves, as a start index.
pub fn drop_commas_bound(s: &[char], from: usize, to: usize) -> (r: usize)
    requires
        from <= to <= s@.len(),
    ensures
        from <= r <= to,
        s@.subrange(r as int, to as int) == drop_commas_seq(s@.subrange(from as int, to as int)),
{
    let mut a = from;
    while a < to && s[a] == ','
        invariant
            from <= a <= to <= s@.len(),
            drop_commas_seq(s@.subrange(from as int, to as int)) == drop_commas_seq(
                s@.subrange(a as int, to as int),
            ),
        decreases to - a,
    {
        proof {
            let cur = s@.subrange(a as int, to as int);
            assert(cur[0] == s@[a as int]);
            assert(cur.drop_first() =~= s@.subrange(a + 1 as int, to as int));
        }
        a = a + 1;
    }
    proof {
        let cur = s@.subrange(a as int, to as int);
        if cur.len() > 0 {
            assert(cur[0] == s@[a as int]);
        }
        assert(drop_commas_seq(cur) == cur);
    }
    a
}

} // verus!
