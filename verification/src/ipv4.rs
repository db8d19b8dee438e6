//! Dotted-quad IPv4 address text, as `Ipv4Addr`'s parser accepts it: four
//! decimal octets of one to three digits, no leading zeros, each at most 255.

use vstd::prelude::*;

use crate::text::{split_bytes, split_on, vecs_view};

verus! {

pub open spec fn is_ascii_digit(b: u8) -> bool {
    48 <= b <= 57
}

pub open spec fn decimal_value(s: Seq<u8>) -> nat
    decreases s.len(),
{
    if s.len() == 0 {
        0
    } else {
        decimal_value(s.drop_last()) * 10 + (s.last() - 48) as nat
    }
}

/// The octet that one dot-separated field denotes, if it is well formed.
pub open spec fn octet_of(s: Seq<u8>) -> Option<u8> {
    if 1 <= s.len() <= 3 && (forall|i: int| 0 <= i < s.len() ==> is_ascii_digit(#[trigger] s[i]))
        && !(s.len() > 1 && s[0] == 48) && decimal_value(s) <= 255 {
        Some(decimal_value(s) as u8)
    } else {
        None
    }
}

/// The four octets of a dotted-quad address, if `s` is one.
pub open spec fn ipv4_of(s: Seq<u8>) -> Option<Seq<u8>> {
    let f = split_on(s, 46);
    if f.len() == 4 && octet_of(f[0]) is Some && octet_of(f[1]) is Some && octet_of(f[2]) is Some
        && octet_of(f[3]) is Some {
        Some(
            seq![
                octet_of(f[0])->Some_0,
                octet_of(f[1])->Some_0,
                octet_of(f[2])->Some_0,
                octet_of(f[3])->Some_0,
            ],
        )
    } else {
        None
    }
}

fn parse_octet(s: &[u8]) -> (r: Option<u8>)
    ensures
        r == octet_of(s@),
{
    if s.len() == 0 || s.len() > 3 {
        return None;
    }
    if s.len() > 1 && s[0] == 48 {
        return None;
    }
    let mut value: u32 = 0;
    let mut i: usize = 0;
    while i < s.len()
        invariant
            i <= s@.len() <= 3,
            1 <= s@.len(),
            value == decimal_value(s@.take(i as int)),
            i == 0 ==> value == 0,
            i == 1 ==> value < 10,
            i == 2 ==> value < 100,
            i == 3 ==> value < 1000,
            forall|k: int| 0 <= k < i ==> is_ascii_digit(#[trigger] s@[k]),
        decreases s@.len() - i,
    {
        let b = s[i];
        if b < 48 || b > 57 {
            return None;
        }
        assert(s@.take(i as int + 1).drop_last() =~= s@.take(i as int));
        value = value * 10 + (b - 48) as u32;
        i += 1;
    }
    assert(s@.take(s@.len() as int) =~= s@);
    if value > 255 {
        None
    } else {
        Some(value as u8)
    }
}

/// Parses dotted-quad IPv4 text into its four octets.
pub fn parse_ipv4(text: &[u8]) -> (r: Option<[u8; 4]>)
    ensures
        match r {
            Some(a) => ipv4_of(text@) == Some(a@),
            None => ipv4_of(text@) is None,
        },
{
    let fields = split_bytes(text, 46);
    if fields.len() != 4 {
        return None;
    }
    let a = parse_octet(fields[0].as_slice())?;
    let b = parse_octet(fields[1].as_slice())?;
    let c = parse_octet(fields[2].as_slice())?;
    let d = parse_octet(fields[3].as_slice())?;
    let r = [a, b, c, d];
    assert(r@ =~= ipv4_of(text@)->Some_0);
    Some(r)
}


/// The canonical decimal text of a byte: no leading zeros, "0" for zero.
pub open spec fn decimal_bytes(v: u8) -> Seq<u8> {
    if v >= 100 {
        seq![(48 + v / 100) as u8, (48 + (v / 10) % 10) as u8, (48 + v % 10) as u8]
    } else if v >= 10 {
        seq![(48 + v / 10) as u8, (48 + v % 10) as u8]
    } else {
        seq![(48 + v) as u8]
    }
}

/// The dotted-quad text of four octets, as `Ipv4Addr` formats them.
pub open spec fn dotted_quad(a: Seq<u8>) -> Seq<u8> {
    decimal_bytes(a[0]) + seq![46u8] + decimal_bytes(a[1]) + seq![46u8] + decimal_bytes(a[2])
        + seq![46u8] + decimal_bytes(a[3])
}

proof fn lemma_split_without_sep(y: Seq<u8>, sep: u8)
    requires
        forall|i: int| 0 <= i < y.len() ==> #[trigger] y[i] != sep,
    ensures
        split_on(y, sep) == seq![y],
    decreases y.len(),
{
    if y.len() == 0 {
        assert(y =~= Seq::<u8>::empty());
    } else {
        let d = y.drop_last();
        lemma_split_without_sep(d, sep);
        assert(y.last() == y[y.len() - 1]);
        assert(d.push(y.last()) =~= y);
        assert(split_on(d, sep).update(0, d.push(y.last())) =~= seq![y]);
    }
}

proof fn lemma_split_after_sep(x: Seq<u8>, sep: u8, y: Seq<u8>)
    requires
        forall|i: int| 0 <= i < y.len() ==> #[trigger] y[i] != sep,
    ensures
        split_on(x + seq![sep] + y, sep) == split_on(x, sep).push(y),
    decreases y.len(),
{
    let s = x + seq![sep] + y;
    if y.len() == 0 {
        assert(s.drop_last() =~= x);
        assert(s.last() == sep);
        assert(y =~= Seq::<u8>::empty());
    } else {
        let d = y.drop_last();
        assert forall|i: int| 0 <= i < d.len() implies #[trigger] d[i] != sep by {
            assert(d[i] == y[i]);
        }
        lemma_split_after_sep(x, sep, d);
        assert(s.drop_last() =~= x + seq![sep] + d);
        assert(s.last() == y[y.len() - 1]);
        let p = split_on(x, sep).push(d);
        assert(d.push(y[y.len() - 1]) =~= y);
        assert(p.update(p.len() - 1, p.last().push(s.last())) =~= split_on(x, sep).push(y));
    }
}

proof fn lemma_decimal_octet(v: u8)
    ensures
        octet_of(decimal_bytes(v)) == Some(v),
        forall|i: int| 0 <= i < decimal_bytes(v).len() ==> #[trigger] decimal_bytes(v)[i] != 46,
{
    let s = decimal_bytes(v);
    let e = Seq::<u8>::empty();
    assert(decimal_value(e) == 0);
    let h = v / 100;
    let t = (v / 10) % 10;
    let o = v % 10;
    assert(o < 10 && t < 10);
    if v >= 100 {
        assert(h <= 2);
        let s1 = seq![s[0]];
        let s2 = seq![s[0], s[1]];
        assert(s1.drop_last() =~= e);
        assert(s2.drop_last() =~= s1);
        assert(s.drop_last() =~= s2);
        assert(decimal_value(s1) == h);
        assert(decimal_value(s2) == h * 10 + t);
        assert(decimal_value(s) == (h * 10 + t) * 10 + o);
        assert(h * 100 + t * 10 + o == v);
        assert(forall|i: int| 0 <= i < 3 ==> is_ascii_digit(#[trigger] s[i]));
    } else if v >= 10 {
        let s1 = seq![s[0]];
        assert(s1.drop_last() =~= e);
        assert(s.drop_last() =~= s1);
        assert(decimal_value(s1) == v / 10);
        assert(decimal_value(s) == (v / 10) * 10 + o);
        assert(forall|i: int| 0 <= i < 2 ==> is_ascii_digit(#[trigger] s[i]));
    } else {
        assert(s.drop_last() =~= e);
        assert(decimal_value(s) == v);
        assert(forall|i: int| 0 <= i < 1 ==> is_ascii_digit(#[trigger] s[i]));
    }
}

/// Parsing inverts formatting: the dotted-quad text of any four octets
/// parses back to exactly those octets.
pub proof fn law_parse_formatted_address(a: Seq<u8>)
    requires
        a.len() == 4,
    ensures
        ipv4_of(dotted_quad(a)) == Some(a),
{
    let d0 = decimal_bytes(a[0]);
    let d1 = decimal_bytes(a[1]);
    let d2 = decimal_bytes(a[2]);
    let d3 = decimal_bytes(a[3]);
    lemma_decimal_octet(a[0]);
    lemma_decimal_octet(a[1]);
    lemma_decimal_octet(a[2]);
    lemma_decimal_octet(a[3]);
    lemma_split_without_sep(d0, 46);
    lemma_split_after_sep(d0, 46, d1);
    lemma_split_after_sep(d0 + seq![46u8] + d1, 46, d2);
    lemma_split_after_sep(d0 + seq![46u8] + d1 + seq![46u8] + d2, 46, d3);
    let f = split_on(dotted_quad(a), 46);
    assert(f =~= seq![d0, d1, d2, d3]);
    assert(ipv4_of(dotted_quad(a))->Some_0 =~= a);
}

} // verus!
