//! Byte-level text helpers: splitting on a separator byte, comparing
//! UTF-8 strings, and writing small numbers in decimal and hexadecimal.

use vstd::prelude::*;
use vstd::utf8::encode_utf8;

verus! {

/// The pieces of `s` between occurrences of `sep` (as `str::split` yields
/// them): always at least one piece, possibly empty ones.
pub open spec fn split_on(s: Seq<u8>, sep: u8) -> Seq<Seq<u8>>
    decreases s.len(),
{
    if s.len() == 0 {
        seq![Seq::<u8>::empty()]
    } else {
        let p = split_on(s.drop_last(), sep);
        if s.last() == sep {
            p.push(Seq::<u8>::empty())
        } else {
            p.update(p.len() - 1, p.last().push(s.last()))
        }
    }
}

pub open spec fn vecs_view(v: Seq<Vec<u8>>) -> Seq<Seq<u8>> {
    v.map_values(|x: Vec<u8>| x@)
}

/// UTF-8 bytes of a character sequence.
pub open spec fn utf8(s: Seq<char>) -> Seq<u8> {
    encode_utf8(s)
}

pub proof fn lemma_split_on_nonempty(s: Seq<u8>, sep: u8)
    ensures
        split_on(s, sep).len() >= 1,
    decreases s.len(),
{
    if s.len() > 0 {
        lemma_split_on_nonempty(s.drop_last(), sep);
    }
}

/// The pieces joined back together with `sep` between consecutive ones.
pub open spec fn join_on(parts: Seq<Seq<u8>>, sep: u8) -> Seq<u8>
    decreases parts.len(),
{
    if parts.len() == 0 {
        Seq::empty()
    } else if parts.len() == 1 {
        parts[0]
    } else {
        join_on(parts.drop_last(), sep) + seq![sep] + parts.last()
    }
}

/// Splitting loses nothing: joining the pieces with the separator gives back
/// the input, and no piece contains the separator.
pub proof fn law_split_then_join(s: Seq<u8>, sep: u8)
    ensures
        join_on(split_on(s, sep), sep) == s,
        forall|i: int, k: int|
            0 <= i < split_on(s, sep).len() && 0 <= k < split_on(s, sep)[i].len()
                ==> #[trigger] split_on(s, sep)[i][k] != sep,
    decreases s.len(),
{
    if s.len() == 0 {
        assert(split_on(s, sep) =~= seq![Seq::<u8>::empty()]);
        assert(join_on(split_on(s, sep), sep) =~= s);
    } else {
        let d = s.drop_last();
        law_split_then_join(d, sep);
        lemma_split_on_nonempty(d, sep);
        let p = split_on(d, sep);
        let q = split_on(s, sep);
        if s.last() == sep {
            assert(q.drop_last() =~= p);
            assert(join_on(q, sep) =~= join_on(p, sep) + seq![sep] + Seq::<u8>::empty());
            assert(join_on(q, sep) =~= s);
            assert forall|i: int, k: int| 0 <= i < q.len() && 0 <= k < q[i].len() implies #[trigger] q[i][k]
                != sep by {
                if i < p.len() {
                    assert(q[i] == p[i]);
                }
            }
        } else {
            let n = p.len();
            if n == 1 {
                assert(join_on(q, sep) =~= q[0]);
                assert(join_on(p, sep) == p[0]);
                assert(q[0] =~= p[0].push(s.last()));
                assert(join_on(q, sep) =~= s);
            } else {
                assert(q.drop_last() =~= p.drop_last());
                assert(q.last() =~= p.last().push(s.last()));
                assert(join_on(p, sep) == join_on(p.drop_last(), sep) + seq![sep] + p.last());
                assert(join_on(q, sep) == join_on(q.drop_last(), sep) + seq![sep] + q.last());
                assert(d =~= join_on(p.drop_last(), sep) + seq![sep] + p.last());
                assert(s =~= d.push(s.last()));
                assert(join_on(q, sep) =~= s);
            }
            assert forall|i: int, k: int| 0 <= i < q.len() && 0 <= k < q[i].len() implies #[trigger] q[i][k]
                != sep by {
                if i < n - 1 {
                    assert(q[i] == p[i]);
                } else if k < p.last().len() {
                    assert(q[i][k] == p[n - 1][k]);
                } else {
                    assert(q[i][k] == s.last());
                }
            }
        }
    }
}

/// Splits `s` at every `sep`, copying the pieces.
pub fn split_bytes(s: &[u8], sep: u8) -> (r: Vec<Vec<u8>>)
    ensures
        vecs_view(r@) == split_on(s@, sep),
{
    let mut parts: Vec<Vec<u8>> = Vec::new();
    let mut current: Vec<u8> = Vec::new();
    let mut i: usize = 0;
    assert(s@.take(0) =~= Seq::<u8>::empty());
    assert(vecs_view(parts@).push(current@) =~= split_on(s@.take(0), sep));
    while i < s.len()
        invariant
            i <= s@.len(),
            vecs_view(parts@).push(current@) == split_on(s@.take(i as int), sep),
        decreases s@.len() - i,
    {
        let b = s[i];
        let ghost before = s@.take(i as int);
        assert(s@.take(i as int + 1).drop_last() =~= before);
        proof {
            lemma_split_on_nonempty(before, sep);
        }
        if b == sep {
            let mut done: Vec<u8> = Vec::new();
            std::mem::swap(&mut done, &mut current);
            parts.push(done);
            assert(vecs_view(parts@).push(current@) =~= split_on(before, sep).push(
                Seq::<u8>::empty(),
            ));
        } else {
            current.push(b);
            assert(vecs_view(parts@).push(current@) =~= split_on(before, sep).update(
                split_on(before, sep).len() - 1,
                split_on(before, sep).last().push(b),
            ));
        }
        i += 1;
    }
    assert(s@.take(s@.len() as int) =~= s@);
    parts.push(current);
    parts
}

/// Byte-wise equality of two slices.
pub fn bytes_eq(a: &[u8], b: &[u8]) -> (r: bool)
    ensures
        r == (a@ == b@),
{
    if a.len() != b.len() {
        return false;
    }
    let mut i: usize = 0;
    while i < a.len()
        invariant
            i <= a@.len(),
            a@.len() == b@.len(),
            forall|k: int| 0 <= k < i ==> a@[k] == b@[k],
        decreases a@.len() - i,
    {
        if a[i] != b[i] {
            return false;
        }
        i += 1;
    }
    assert(a@ =~= b@);
    true
}

/// Equality of two strings, decided on their UTF-8 bytes.
pub fn str_eq(a: &str, b: &str) -> (r: bool)
    ensures
        r == (a@ == b@),
{
    let r = bytes_eq(a.as_bytes(), b.as_bytes());
    proof {
        vstd::utf8::encode_utf8_decode_utf8(a@);
        vstd::utf8::encode_utf8_decode_utf8(b@);
    }
    r
}


/// The lower-case hexadecimal digit for `d` (also the decimal one below 10).
pub open spec fn digit_char(d: int) -> char {
    if d < 10 {
        (48 + d) as char
    } else {
        (87 + d) as char
    }
}

/// `v` in decimal, without leading zeros.
pub open spec fn decimal_text(v: u8) -> Seq<char> {
    if v >= 100 {
        seq![digit_char((v / 100) as int), digit_char(((v / 10) % 10) as int), digit_char((v % 10) as int)]
    } else if v >= 10 {
        seq![digit_char((v / 10) as int), digit_char((v % 10) as int)]
    } else {
        seq![digit_char(v as int)]
    }
}

/// `v` as two lower-case hexadecimal digits.
pub open spec fn hex2_text(v: u8) -> Seq<char> {
    seq![digit_char((v / 16) as int), digit_char((v % 16) as int)]
}

/// Appends the digit for `d` to `s`.
pub fn push_digit(s: &mut String, d: u8)
    requires
        d < 16,
    ensures
        final(s)@ == old(s)@.push(digit_char(d as int)),
{
    let t: &str = match d {
            0 => "0",
            1 => "1",
            2 => "2",
            3 => "3",
            4 => "4",
            5 => "5",
            6 => "6",
            7 => "7",
            8 => "8",
            9 => "9",
            10 => "a",
            11 => "b",
            12 => "c",
            13 => "d",
            14 => "e",
            _ => "f",
    };
    proof {
            reveal_strlit("0");
            reveal_strlit("1");
            reveal_strlit("2");
            reveal_strlit("3");
            reveal_strlit("4");
            reveal_strlit("5");
            reveal_strlit("6");
            reveal_strlit("7");
            reveal_strlit("8");
            reveal_strlit("9");
            reveal_strlit("a");
            reveal_strlit("b");
            reveal_strlit("c");
            reveal_strlit("d");
            reveal_strlit("e");
            reveal_strlit("f");
    }
    s.append(t);
}

/// Appends `v` in decimal to `s`.
pub fn push_decimal(s: &mut String, v: u8)
    ensures
        final(s)@ == old(s)@ + decimal_text(v),
{
    if v >= 100 {
        push_digit(s, v / 100);
    }
    if v >= 10 {
        push_digit(s, (v / 10) % 10);
    }
    push_digit(s, v % 10);
}

/// Appends `v` as two hexadecimal digits to `s`.
pub fn push_hex2(s: &mut String, v: u8)
    ensures
        final(s)@ == old(s)@ + hex2_text(v),
{
    push_digit(s, v / 16);
    push_digit(s, v % 16);
}

} // verus!
