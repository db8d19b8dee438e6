//! RFC 1071 Internet checksum and the IPv4/UDP checksum refresh used after
//! the relay rewrites a packet's source address.

use vstd::prelude::*;

verus! {

/// Sum of the 16-bit big-endian words of `b`; an odd trailing byte is the
/// high byte of a word whose low byte is zero.
pub open spec fn word_sum(b: Seq<u8>) -> nat
    decreases b.len(),
{
    if b.len() == 0 {
        0
    } else if b.len() == 1 {
        (b[0] as nat) * 256
    } else {
        (b[0] as nat) * 256 + (b[1] as nat) + word_sum(b.skip(2))
    }
}

/// One's-complement (end-around carry) reduction of a sum to 16 bits:
/// 0 stays 0, every other sum becomes its representative in 1..=65535
/// modulo 65535.
pub open spec fn folded(s: nat) -> nat {
    if s == 0 {
        0
    } else if s % 65535 == 0 {
        65535
    } else {
        s % 65535
    }
}

/// The Internet checksum of a byte string.
pub open spec fn checksum_of(b: Seq<u8>) -> u16 {
    (65535 - folded(word_sum(b))) as u16
}

/// The bytes of several slices, one after the other.
pub open spec fn concat_parts(parts: Seq<Seq<u8>>) -> Seq<u8>
    decreases parts.len(),
{
    if parts.len() == 0 {
        Seq::empty()
    } else {
        concat_parts(parts.drop_last()) + parts.last()
    }
}

pub open spec fn slices_view(parts: Seq<&[u8]>) -> Seq<Seq<u8>> {
    parts.map_values(|p: &[u8]| p@)
}

/// The checksum over the concatenation of `parts`.
pub open spec fn parts_checksum(parts: Seq<&[u8]>) -> u16 {
    checksum_of(concat_parts(slices_view(parts)))
}

/// `v` written big-endian at `at` and `at + 1`.
pub open spec fn with_be16(p: Seq<u8>, at: int, v: u16) -> Seq<u8> {
    p.update(at, (v >> 8) as u8).update(at + 1, (v & 0xff) as u8)
}

pub open spec fn be16_bytes(v: u16) -> Seq<u8> {
    seq![(v >> 8) as u8, (v & 0xff) as u8]
}

/// IPv4 header with its checksum field zeroed and then set to the checksum
/// of the first `hl` bytes.
pub open spec fn header_refreshed(p: Seq<u8>, hl: int) -> Seq<u8> {
    let z = with_be16(p, 10, 0);
    with_be16(z, 10, checksum_of(z.take(hl)))
}

pub open spec fn has_udp_checksum(p: Seq<u8>, hl: int) -> bool {
    p[hl + 6] != 0 || p[hl + 7] != 0
}

/// UDP pseudo-header (source, destination, zero, protocol 17, UDP length)
/// followed by the UDP header and data.
pub open spec fn udp_pseudo(p: Seq<u8>, hl: int, udp_len: int) -> Seq<u8> {
    p.subrange(12, 20) + seq![0u8, 17u8] + be16_bytes(udp_len as u16) + p.subrange(
        hl,
        hl + udp_len,
    )
}

/// UDP checksum as transmitted: a computed 0 is sent as 0xffff, since 0
/// means "no checksum".
pub open spec fn udp_checksum_field(c: u16) -> u16 {
    if c == 0 {
        0xffff
    } else {
        c
    }
}

/// The packet after both checksums are refreshed. A UDP checksum that was
/// absent (zero) stays absent.
pub open spec fn refreshed(p: Seq<u8>, hl: int, udp_len: int) -> Seq<u8> {
    let h = header_refreshed(p, hl);
    if !has_udp_checksum(h, hl) {
        h
    } else {
        let z = with_be16(h, hl + 6, 0);
        with_be16(z, hl + 6, udp_checksum_field(checksum_of(udp_pseudo(z, hl, udp_len))))
    }
}

/// The inputs on which refreshing neither indexes out of bounds nor
/// overflows its 32-bit accumulators.
pub open spec fn refresh_in_bounds(p: Seq<u8>, hl: int, udp_len: int) -> bool {
    let h = header_refreshed(p, hl);
    &&& 12 <= p.len()
    &&& 0 <= hl
    &&& 0 <= udp_len
    &&& hl + 8 <= p.len()
    &&& word_sum(with_be16(p, 10, 0).take(hl)) <= u32::MAX
    &&& has_udp_checksum(h, hl) ==> {
        &&& 20 <= p.len()
        &&& hl + udp_len <= p.len()
        &&& word_sum(udp_pseudo(with_be16(h, hl + 6, 0), hl, udp_len)) <= u32::MAX
    }
}

pub proof fn lemma_word_sum_append(p: Seq<u8>, q: Seq<u8>)
    requires
        p.len() % 2 == 0,
    ensures
        word_sum(p + q) == word_sum(p) + word_sum(q),
    decreases p.len(),
{
    if p.len() == 0 {
        assert(p + q =~= q);
    } else {
        lemma_word_sum_append(p.skip(2), q);
        assert((p + q).skip(2) =~= p.skip(2) + q);
    }
}

proof fn lemma_word_sum_pair(a: u8, b: u8)
    ensures
        word_sum(seq![a, b]) == (a as nat) * 256 + (b as nat),
        word_sum(seq![a]) == (a as nat) * 256,
{
    let e = Seq::<u8>::empty();
    assert(word_sum(e) == 0);
    assert(seq![a, b].skip(2) =~= e);
    assert(word_sum(seq![a, b]) == (a as nat) * 256 + (b as nat) + word_sum(seq![a, b].skip(2)));
}

proof fn lemma_word_sum_prefix(p: Seq<u8>, s: Seq<u8>)
    requires
        p.len() % 2 == 0,
        p.is_prefix_of(s),
    ensures
        word_sum(p) <= word_sum(s),
{
    lemma_word_sum_append(p, s.skip(p.len() as int));
    assert(s =~= p + s.skip(p.len() as int));
}

proof fn lemma_concat_take(parts: Seq<Seq<u8>>, i: int)
    requires
        0 <= i < parts.len(),
    ensures
        concat_parts(parts.take(i + 1)) == concat_parts(parts.take(i)) + parts[i],
{
    assert(parts.take(i + 1).drop_last() =~= parts.take(i));
}

proof fn lemma_concat_take_prefix(parts: Seq<Seq<u8>>, i: int)
    requires
        0 <= i <= parts.len(),
    ensures
        concat_parts(parts.take(i)).is_prefix_of(concat_parts(parts)),
    decreases parts.len() - i,
{
    if i == parts.len() {
        assert(parts.take(i) =~= parts);
    } else {
        lemma_concat_take_prefix(parts, i + 1);
        lemma_concat_take(parts, i);
    }
}

proof fn lemma_concat_single(x: Seq<u8>)
    ensures
        concat_parts(seq![x]) == x,
{
    let e = Seq::<Seq<u8>>::empty();
    assert(concat_parts(e) == Seq::<u8>::empty());
    assert(seq![x].drop_last() =~= e);
    assert(Seq::<u8>::empty() + x =~= x);
}

/// State of the checksum accumulator after `c` has been consumed: an odd
/// trailing byte waits in `pending` for its partner.
spec fn accumulated(sum: u32, pending: Option<u8>, c: Seq<u8>) -> bool {
    match pending {
        None => c.len() % 2 == 0 && sum == word_sum(c),
        Some(h) => c.len() % 2 == 1 && h == c.last() && sum == word_sum(c.drop_last()),
    }
}

proof fn lemma_fold_step(s: u32)
    requires
        s >> 16 != 0,
    ensures
        (s & 0xffff) + (s >> 16) < s,
        ((s & 0xffff) + (s >> 16)) as nat % 65535 == (s as nat) % 65535,
        (s & 0xffff) + (s >> 16) > 0,
{
    assert(s & 0xffff == s % 65536) by (bit_vector);
    assert(s >> 16 == s / 65536) by (bit_vector);
    let q = s / 65536;
    let r = s % 65536;
    assert(s == 65536 * q + r);
    assert(q > 0);
    vstd::arithmetic::div_mod::lemma_mod_multiples_vanish(q as int, (q + r) as int, 65535);
    assert(s as int == 65535 * (q as int) + (q + r) as int);
}

proof fn lemma_word_sum_set16(z: Seq<u8>, k: int, v: u16)
    requires
        0 <= k,
        k % 2 == 0,
        k + 1 < z.len(),
        z[k] == 0,
        z[k + 1] == 0,
    ensures
        word_sum(with_be16(z, k, v)) == word_sum(z) + v,
{
    let hi = (v >> 8) as u8;
    let lo = (v & 0xff) as u8;
    let pre = z.take(k);
    let rest = z.skip(k + 2);
    let w = with_be16(z, k, v);
    assert(z =~= pre + (seq![0u8, 0u8] + rest));
    assert(w =~= pre + (seq![hi, lo] + rest));
    lemma_word_sum_append(pre, seq![0u8, 0u8] + rest);
    lemma_word_sum_append(pre, seq![hi, lo] + rest);
    lemma_word_sum_append(seq![0u8, 0u8], rest);
    lemma_word_sum_append(seq![hi, lo], rest);
    lemma_word_sum_pair(0u8, 0u8);
    lemma_word_sum_pair(hi, lo);
    assert((((v >> 8) as u8) as u16) * 256 + (((v & 0xff) as u8) as u16) == v) by (bit_vector);
}

/// A sum plus its own checksum always folds to 0xffff, i.e. verifies.
proof fn lemma_sum_plus_checksum(s: nat, c: nat)
    requires
        c == 65535 - folded(s) || (c == 65535 && folded(s) == 65535),
    ensures
        folded(s + c) == 65535,
{
    let q = s / 65535;
    let r = s % 65535;
    assert(s == 65535 * q + r) by (nonlinear_arith)
        requires
            q == s / 65535,
            r == s % 65535,
    ;
    if s == 0 {
        assert(folded(s + c) == 65535);
    } else if r == 0 && c == 0 {
        assert(folded(s + c) == 65535);
    } else if r == 0 {
        assert(s + c == 65535 * (q + 1)) by (nonlinear_arith)
            requires
                s == 65535 * q + r,
                r == 0,
                c == 65535,
        ;
        vstd::arithmetic::div_mod::lemma_mod_multiples_vanish((q + 1) as int, 0, 65535);
    } else {
        assert(c == 65535 - r);
        assert(s + c == 65535 * (q + 1)) by (nonlinear_arith)
            requires
                s == 65535 * q + r,
                c == 65535 - r,
        ;
        vstd::arithmetic::div_mod::lemma_mod_multiples_vanish((q + 1) as int, 0, 65535);
    }
}

/// Once refreshed, the IPv4 header checksum verifies: the checksum of the
/// whole header, checksum field included, is zero.
pub proof fn law_refreshed_header_verifies(p: Seq<u8>, hl: int)
    requires
        12 <= hl <= p.len(),
    ensures
        checksum_of(header_refreshed(p, hl).take(hl)) == 0,
{
    let z = with_be16(p, 10, 0);
    assert(((0u16 >> 8) as u8) == 0 && ((0u16 & 0xff) as u8) == 0) by (bit_vector);
    let zt = z.take(hl);
    let c = checksum_of(zt);
    assert(header_refreshed(p, hl).take(hl) =~= with_be16(zt, 10, c));
    lemma_word_sum_set16(zt, 10, c);
    lemma_sum_plus_checksum(word_sum(zt), c as nat);
}

/// Once a packet is refreshed, its IPv4 header checksum verifies and, if it
/// carries a UDP checksum, that checksum verifies over the pseudo-header.
/// A packet without a UDP checksum keeps it absent.
pub proof fn law_refreshed_packet_verifies(p: Seq<u8>, hl: int, udp_len: int)
    requires
        20 <= hl,
        8 <= udp_len,
        hl + udp_len <= p.len(),
    ensures
        checksum_of(refreshed(p, hl, udp_len).take(hl)) == 0,
        has_udp_checksum(header_refreshed(p, hl), hl) ==> checksum_of(
            udp_pseudo(refreshed(p, hl, udp_len), hl, udp_len),
        ) == 0,
        !has_udp_checksum(header_refreshed(p, hl), hl) ==> refreshed(p, hl, udp_len)
            == header_refreshed(p, hl),
        refreshed(p, hl, udp_len).len() == p.len(),
{
    law_refreshed_header_verifies(p, hl);
    let h = header_refreshed(p, hl);
    if has_udp_checksum(h, hl) {
        assert(((0u16 >> 8) as u8) == 0 && ((0u16 & 0xff) as u8) == 0) by (bit_vector);
        let z2 = with_be16(h, hl + 6, 0);
        let pz = udp_pseudo(z2, hl, udp_len);
        let c = checksum_of(pz);
        let cf = udp_checksum_field(c);
        let f = with_be16(z2, hl + 6, cf);
        assert(f.take(hl) =~= h.take(hl));
        assert(udp_pseudo(f, hl, udp_len) =~= with_be16(pz, 18, cf));
        lemma_word_sum_set16(pz, 18, cf);
        lemma_sum_plus_checksum(word_sum(pz), cf as nat);
    }
}

proof fn lemma_concat_three(a: Seq<u8>, x: Seq<u8>, b: Seq<u8>)
    ensures
        concat_parts(seq![a, x, b]) == a + x + b,
{
    let e = Seq::<Seq<u8>>::empty();
    let three = seq![a, x, b];
    assert(three.drop_last() =~= seq![a, x]);
    assert(seq![a, x].drop_last() =~= seq![a]);
    assert(seq![a].drop_last() =~= e);
    assert(concat_parts(e) == Seq::<u8>::empty());
    assert(concat_parts(seq![a]) =~= a);
    assert(concat_parts(seq![a, x]) =~= a + x);
}

/// Writing a checksum into its field makes the data verify: if `c` is the
/// checksum of `a`, a zeroed 16-bit field, then `b`, where the field starts
/// at an even offset, then the same bytes with `c` written big-endian in
/// that field have checksum zero.
pub proof fn law_inserted_checksum_verifies(a: Seq<u8>, b: Seq<u8>)
    requires
        a.len() % 2 == 0,
    ensures
        ({
            let c = checksum_of(concat_parts(seq![a, seq![0u8, 0u8], b]));
            checksum_of(concat_parts(seq![a, be16_bytes(c), b])) == 0
        }),
{
    let z = a + seq![0u8, 0u8] + b;
    lemma_concat_three(a, seq![0u8, 0u8], b);
    let c = checksum_of(z);
    lemma_concat_three(a, be16_bytes(c), b);
    let k = a.len() as int;
    assert(with_be16(z, k, c) =~= a + be16_bytes(c) + b);
    lemma_word_sum_set16(z, k, c);
    lemma_sum_plus_checksum(word_sum(z), c as nat);
}

/// Refreshing rewrites only the two checksum fields: every other byte, and
/// the length, stay as they were.
pub proof fn law_refresh_touches_only_checksums(p: Seq<u8>, hl: int, udp_len: int, k: int)
    requires
        12 <= hl,
        hl + 8 <= p.len(),
        0 <= k < p.len(),
        k != 10 && k != 11 && k != hl + 6 && k != hl + 7,
    ensures
        refreshed(p, hl, udp_len).len() == p.len(),
        refreshed(p, hl, udp_len)[k] == p[k],
{
}

/// The RFC 1071 checksum of the concatenation of `parts`.
pub fn internet_checksum(parts: &[&[u8]]) -> (r: u16)
    requires
        word_sum(concat_parts(slices_view(parts@))) <= u32::MAX,
    ensures
        r == parts_checksum(parts@),
{
    let ghost pv = slices_view(parts@);
    let ghost total = concat_parts(pv);
    let mut sum: u32 = 0;
    let mut pending: Option<u8> = None;
    let mut i: usize = 0;
    assert(pv.take(0) =~= Seq::<Seq<u8>>::empty());
    while i < parts.len()
        invariant
            i <= parts@.len(),
            pv == slices_view(parts@),
            total == concat_parts(pv),
            word_sum(total) <= u32::MAX,
            accumulated(sum, pending, concat_parts(pv.take(i as int))),
        decreases parts@.len() - i,
    {
        let part: &[u8] = parts[i];
        let ghost before = concat_parts(pv.take(i as int));
        proof {
            lemma_concat_take(pv, i as int);
            lemma_concat_take_prefix(pv, i as int + 1);
        }
        let mut j: usize = 0;
        assert(before + part@.take(0) =~= before);
        while j < part.len()
            invariant
                i < parts@.len(),
                j <= part@.len(),
                part@ == pv[i as int],
                pv == slices_view(parts@),
                total == concat_parts(pv),
                word_sum(total) <= u32::MAX,
                before == concat_parts(pv.take(i as int)),
                (before + part@).is_prefix_of(total),
                accumulated(sum, pending, before + part@.take(j as int)),
            decreases part@.len() - j,
        {
            let byte = part[j];
            let ghost c = before + part@.take(j as int);
            let ghost c2 = before + part@.take(j as int + 1);
            assert(c2 =~= c.push(byte));
            match pending {
                Some(high) => {
                    proof {
                        let d = c.drop_last();
                        assert(c2 =~= d + seq![high, byte]);
                        lemma_word_sum_append(d, seq![high, byte]);
                        lemma_word_sum_pair(high, byte);
                        assert(c2.is_prefix_of(before + part@));
                        assert(c2.is_prefix_of(total));
                        lemma_word_sum_prefix(c2, total);
                    }
                    sum = sum + (high as u32) * 256 + (byte as u32);
                    pending = None;
                },
                None => {
                    assert(c2.drop_last() =~= c);
                    pending = Some(byte);
                },
            }
            j += 1;
        }
        assert(part@.take(part@.len() as int) =~= part@);
        i += 1;
    }
    assert(pv.take(parts@.len() as int) =~= pv);
    if let Some(high) = pending {
        proof {
            let d = total.drop_last();
            assert(total =~= d + seq![high]);
            lemma_word_sum_append(d, seq![high]);
            lemma_word_sum_pair(high, 0);
        }
        sum = sum + (high as u32) * 256;
    }
    let ghost s = word_sum(total);
    assert(sum == s);
    while sum >> 16 != 0
        invariant
            (sum as nat) % 65535 == s % 65535,
            (sum == 0) == (s == 0),
        decreases sum,
    {
        proof {
            lemma_fold_step(sum);
        }
        sum = (sum & 0xffff) + (sum >> 16);
    }
    assert(sum < 65536) by {
        assert(sum >> 16 == 0 ==> sum < 65536) by (bit_vector);
    }
    assert(sum == folded(s));
    let x = sum as u16;
    assert(!x == 65535 - x) by (bit_vector);
    !x
}

/// Recomputes the IPv4 header checksum and, when one is present, the UDP
/// checksum of a packet whose header is `header_len` bytes and whose UDP
/// header and data are `udp_len` bytes.
pub fn refresh_ipv4_udp_checksums(packet: &mut Vec<u8>, header_len: usize, udp_len: usize)
    requires
        refresh_in_bounds(old(packet)@, header_len as int, udp_len as int),
    ensures
        final(packet)@ == refreshed(old(packet)@, header_len as int, udp_len as int),
{
    let ghost p = packet@;
    let ghost hl = header_len as int;
    assert(header_len + 8 <= packet.len());
    packet[10] = 0;
    packet[11] = 0;
    assert(packet@ =~= with_be16(p, 10, 0)) by {
        assert(((0u16 >> 8) as u8) == 0 && ((0u16 & 0xff) as u8) == 0) by (bit_vector);
    }
    let ghost z = packet@;
    let header_checksum = {
        let header = vstd::slice::slice_subrange(packet.as_slice(), 0, header_len);
        let parts: [&[u8]; 1] = [header];
        proof {
            assert(slices_view(parts@) =~= seq![z.take(hl)]);
            lemma_concat_single(z.take(hl));
        }
        internet_checksum(parts.as_slice())
    };
    packet[10] = (header_checksum >> 8) as u8;
    packet[11] = (header_checksum & 0xff) as u8;
    assert(packet@ =~= header_refreshed(p, hl));
    let ghost h = packet@;
    assert(header_len + 8 <= packet.len());
    let udp_offset = header_len;
    let had_udp_checksum = packet[udp_offset + 6] != 0 || packet[udp_offset + 7] != 0;
    if !had_udp_checksum {
        return;
    }
    packet[udp_offset + 6] = 0;
    packet[udp_offset + 7] = 0;
    assert(packet@ =~= with_be16(h, hl + 6, 0)) by {
        assert(((0u16 >> 8) as u8) == 0 && ((0u16 & 0xff) as u8) == 0) by (bit_vector);
    }
    let ghost z2 = packet@;
    let udp_len16 = udp_len as u16;
    let udp_len_bytes: [u8; 2] = [(udp_len16 >> 8) as u8, (udp_len16 & 0xff) as u8];
    let pseudo_tail: [u8; 2] = [0u8, 17u8];
    let checksum = {
        let a = vstd::slice::slice_subrange(packet.as_slice(), 12, 20);
        let b = pseudo_tail.as_slice();
        let c = udp_len_bytes.as_slice();
        let d = vstd::slice::slice_subrange(packet.as_slice(), udp_offset, udp_offset + udp_len);
        let parts: [&[u8]; 4] = [a, b, c, d];
        proof {
            let sv = seq![a@, b@, c@, d@];
            assert(slices_view(parts@) =~= sv);
            lemma_concat_single(a@);
            assert(seq![a@, b@].drop_last() =~= seq![a@]);
            assert(concat_parts(seq![a@, b@]) == a@ + b@);
            assert(seq![a@, b@, c@].drop_last() =~= seq![a@, b@]);
            assert(concat_parts(seq![a@, b@, c@]) == a@ + b@ + c@);
            assert(sv.drop_last() =~= seq![a@, b@, c@]);
            assert(concat_parts(sv) == a@ + b@ + c@ + d@);
            assert(b@ =~= seq![0u8, 17u8]);
            assert(c@ =~= be16_bytes(udp_len as u16));
            assert(a@ + b@ + c@ + d@ =~= udp_pseudo(z2, hl, udp_len as int));
        }
        internet_checksum(parts.as_slice())
    };
    let checksum = if checksum == 0 {
        u16::MAX
    } else {
        checksum
    };
    packet[udp_offset + 6] = (checksum >> 8) as u8;
    packet[udp_offset + 7] = (checksum & 0xff) as u8;
    assert(packet@ =~= refreshed(p, hl, udp_len as int));
}

} // verus!
