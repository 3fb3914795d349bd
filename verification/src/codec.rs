//! The persisted form of a verifier index.
//!
//! The index parts that leave the process — domain parameters and the
//! commitments, with curve points and field elements already rendered as
//! canonical byte strings — are written as length-prefixed records with
//! little-endian 64-bit counts.  The exact byte grammar is private to this
//! module; what the format owes its callers is the round trip: reading
//! back a written index yields the same index, and that is stated in the
//! contracts of `vindex_write` and `vindex_read` below.

use vstd::prelude::*;
use crate::gates::{GateType, GateWires};

verus! {

/// One commitment ready for persistence: each curve point a byte string.
pub struct CommData {
    pub unshifted: Vec<Vec<u8>>,
    pub shifted: Option<Vec<u8>>,
}

/// The persisted projection of a verifier index: the sizes, the domain
/// generator, the commitments in the protocol's fixed order, and the two
/// coset shifts.
pub struct VerifierIndexData {
    pub max_poly_size: u64,
    pub max_quot_size: u64,
    pub domain_size: u64,
    pub domain_gen: Vec<u8>,
    pub comms: Vec<CommData>,
    pub r: Vec<u8>,
    pub o: Vec<u8>,
}

/// Little-endian encoding of a 64-bit count.
pub open spec fn enc_u64(x: u64) -> Seq<u8> {
    seq![
        (x & 0xff) as u8,
        ((x >> 8) & 0xff) as u8,
        ((x >> 16) & 0xff) as u8,
        ((x >> 24) & 0xff) as u8,
        ((x >> 32) & 0xff) as u8,
        ((x >> 40) & 0xff) as u8,
        ((x >> 48) & 0xff) as u8,
        ((x >> 56) & 0xff) as u8,
    ]
}

/// A length-prefixed byte string.
pub open spec fn enc_bytes(b: Seq<u8>) -> Seq<u8> {
    enc_u64(b.len() as u64) + b
}

/// A list of byte strings, one length-prefixed record each.
pub open spec fn enc_bytes_list(l: Seq<Vec<u8>>) -> Seq<u8>
    decreases l.len(),
{
    if l.len() == 0 {
        Seq::<u8>::empty()
    } else {
        enc_bytes(l[0]@) + enc_bytes_list(l.skip(1))
    }
}

/// An optional byte string: a presence tag, then the record if present.
pub open spec fn enc_opt_bytes(o: Option<Vec<u8>>) -> Seq<u8> {
    match o {
        None => seq![0u8],
        Some(b) => seq![1u8] + enc_bytes(b@),
    }
}

/// One commitment: the point count, the points, the shifted point if any.
pub open spec fn enc_comm(c: CommData) -> Seq<u8> {
    enc_u64(c.unshifted@.len() as u64) + enc_bytes_list(c.unshifted@) + enc_opt_bytes(c.shifted)
}

/// The commitment list, one record each.
pub open spec fn enc_comm_list(l: Seq<CommData>) -> Seq<u8>
    decreases l.len(),
{
    if l.len() == 0 {
        Seq::<u8>::empty()
    } else {
        enc_comm(l[0]) + enc_comm_list(l.skip(1))
    }
}

/// The whole persisted index.
pub open spec fn enc_vindex(d: VerifierIndexData) -> Seq<u8> {
    enc_u64(d.max_poly_size) + enc_u64(d.max_quot_size) + enc_u64(d.domain_size)
        + enc_bytes(d.domain_gen@) + enc_u64(d.comms@.len() as u64) + enc_comm_list(d.comms@)
        + enc_bytes(d.r@) + enc_bytes(d.o@)
}

/// `s` holds exactly `chunk` starting at `pos`.
pub open spec fn has_at(s: Seq<u8>, pos: int, chunk: Seq<u8>) -> bool {
    &&& 0 <= pos
    &&& pos + chunk.len() <= s.len()
    &&& s.subrange(pos, pos + chunk.len()) == chunk
}

/// A chunk that is a concatenation sits in the buffer piece by piece.
proof fn lemma_has_at_split(s: Seq<u8>, pos: int, a: Seq<u8>, b: Seq<u8>)
    requires
        has_at(s, pos, a + b),
    ensures
        has_at(s, pos, a),
        has_at(s, pos + a.len(), b),
{
    let whole = s.subrange(pos, pos + a.len() + b.len());
    assert(whole == a + b);
    assert forall|i: int| 0 <= i < a.len() implies s[pos + i] == a[i] by {
        assert(whole[i] == s[pos + i]);
        assert((a + b)[i] == a[i]);
    }
    assert(s.subrange(pos, pos + a.len()) =~= a);
    assert forall|i: int| 0 <= i < b.len() implies s[pos + a.len() + i] == b[i] by {
        assert(whole[a.len() + i] == s[pos + a.len() + i]);
        assert((a + b)[a.len() + i] == b[i]);
    }
    assert(s.subrange(pos + a.len(), pos + a.len() + b.len()) =~= b);
}

/// Two commitments with the same persisted content.
pub open spec fn comm_eqv(a: CommData, b: CommData) -> bool {
    &&& a.unshifted@.len() == b.unshifted@.len()
    &&& forall|i: int| 0 <= i < a.unshifted@.len()
        ==> (#[trigger] a.unshifted@[i])@ == b.unshifted@[i]@
    &&& match (a.shifted, b.shifted) {
        (Option::None, Option::None) => true,
        (Option::Some(x), Option::Some(y)) => x@ == y@,
        _ => false,
    }
}

/// Two persisted indexes with the same content: the round trip reproduces
/// the index up to this relation, which compares every part by value.
pub open spec fn vindex_eqv(a: VerifierIndexData, b: VerifierIndexData) -> bool {
    &&& a.max_poly_size == b.max_poly_size
    &&& a.max_quot_size == b.max_quot_size
    &&& a.domain_size == b.domain_size
    &&& a.domain_gen@ == b.domain_gen@
    &&& a.comms@.len() == b.comms@.len()
    &&& forall|i: int| 0 <= i < a.comms@.len() ==> comm_eqv(#[trigger] a.comms@[i], b.comms@[i])
    &&& a.r@ == b.r@
    &&& a.o@ == b.o@
}

/// Appends the little-endian bytes of a 64-bit count.
fn write_u64(out: &mut Vec<u8>, x: u64)
    ensures
        final(out)@ == old(out)@ + enc_u64(x),
{
    out.push((x & 0xff) as u8);
    out.push(((x >> 8) & 0xff) as u8);
    out.push(((x >> 16) & 0xff) as u8);
    out.push(((x >> 24) & 0xff) as u8);
    out.push(((x >> 32) & 0xff) as u8);
    out.push(((x >> 40) & 0xff) as u8);
    out.push(((x >> 48) & 0xff) as u8);
    out.push(((x >> 56) & 0xff) as u8);
    proof {
        assert(out@ =~= old(out)@ + enc_u64(x));
    }
}

/// Appends a length-prefixed byte string.
fn write_bytes(out: &mut Vec<u8>, b: &Vec<u8>)
    ensures
        final(out)@ == old(out)@ + enc_bytes(b@),
{
    write_u64(out, b.len() as u64);
    let ghost mid = out@;
    let mut i: usize = 0;
    #[verifier::loop_isolation(false)]
    while i < b.len()
        invariant
            i <= b@.len(),
            out@ == mid + b@.take(i as int),
        decreases b@.len() - i,
    {
        out.push(b[i]);
        proof {
            assert(mid + b@.take(i as int) + seq![b@[i as int]] =~= mid + b@.take(i + 1));
        }
        i = i + 1;
    }
    proof {
        assert(b@.take(b@.len() as int) =~= b@);
        assert(mid + b@ =~= old(out)@ + enc_bytes(b@));
    }
}

/// Appends the records of `items[i..]`.
fn write_bytes_list(out: &mut Vec<u8>, items: &Vec<Vec<u8>>, i: usize)
    requires
        i <= items@.len(),
    ensures
        final(out)@ == old(out)@ + enc_bytes_list(items@.skip(i as int)),
    decreases items@.len() - i@,
{
    if i == items.len() {
        proof {
            assert(items@.skip(i as int) =~= Seq::<Vec<u8>>::empty());
            assert(out@ =~= out@ + enc_bytes_list(items@.skip(i as int)));
        }
    } else {
        write_bytes(out, &items[i]);
        write_bytes_list(out, items, i + 1);
        proof {
            let l = items@.skip(i as int);
            assert(l[0] == items@[i as int]);
            assert(l.skip(1) =~= items@.skip(i as int + 1));
            assert(old(out)@ + enc_bytes(items@[i as int]@) + enc_bytes_list(items@.skip(
                i as int + 1)) =~= old(out)@ + enc_bytes_list(l));
        }
    }
}

/// Appends one commitment record.
fn write_comm(out: &mut Vec<u8>, c: &CommData)
    ensures
        final(out)@ == old(out)@ + enc_comm(*c),
{
    write_u64(out, c.unshifted.len() as u64);
    write_bytes_list(out, &c.unshifted, 0);
    proof {
        assert(c.unshifted@.skip(0) =~= c.unshifted@);
    }
    match &c.shifted {
        Option::None => {
            out.push(0u8);
            proof {
                assert(out@ =~= old(out)@ + enc_comm(*c));
            }
        },
        Option::Some(b) => {
            out.push(1u8);
            let ghost mid = out@;
            write_bytes(out, b);
            proof {
                assert(out@ =~= old(out)@ + enc_comm(*c));
            }
        },
    }
}

/// Appends the records of `comms[i..]`.
fn write_comm_list(out: &mut Vec<u8>, comms: &Vec<CommData>, i: usize)
    requires
        i <= comms@.len(),
    ensures
        final(out)@ == old(out)@ + enc_comm_list(comms@.skip(i as int)),
    decreases comms@.len() - i@,
{
    if i == comms.len() {
        proof {
            assert(comms@.skip(i as int) =~= Seq::<CommData>::empty());
            assert(out@ =~= out@ + enc_comm_list(comms@.skip(i as int)));
        }
    } else {
        write_comm(out, &comms[i]);
        write_comm_list(out, comms, i + 1);
        proof {
            let l = comms@.skip(i as int);
            assert(l[0] == comms@[i as int]);
            assert(l.skip(1) =~= comms@.skip(i as int + 1));
            assert(old(out)@ + enc_comm(comms@[i as int]) + enc_comm_list(comms@.skip(
                i as int + 1)) =~= old(out)@ + enc_comm_list(l));
        }
    }
}

/// Writes a persisted verifier index: exactly the byte string
/// `enc_vindex` describes.
pub fn vindex_write(d: &VerifierIndexData) -> (r: Vec<u8>)
    ensures
        r@ == enc_vindex(*d),
{
    let mut out: Vec<u8> = Vec::new();
    write_u64(&mut out, d.max_poly_size);
    write_u64(&mut out, d.max_quot_size);
    write_u64(&mut out, d.domain_size);
    write_bytes(&mut out, &d.domain_gen);
    write_u64(&mut out, d.comms.len() as u64);
    write_comm_list(&mut out, &d.comms, 0);
    write_bytes(&mut out, &d.r);
    write_bytes(&mut out, &d.o);
    proof {
        assert(d.comms@.skip(0) =~= d.comms@);
        assert(out@ =~= enc_vindex(*d));
    }
    out
}


/// Every record in a byte-string list costs at least its length prefix.
proof fn lemma_enc_bytes_list_len(l: Seq<Vec<u8>>)
    ensures
        enc_bytes_list(l).len() >= 8 * l.len(),
    decreases l.len(),
{
    if l.len() > 0 {
        lemma_enc_bytes_list_len(l.skip(1));
    }
}

/// Every commitment record costs at least its count prefix and tag.
proof fn lemma_enc_comm_list_len(l: Seq<CommData>)
    ensures
        enc_comm_list(l).len() >= 9 * l.len(),
    decreases l.len(),
{
    if l.len() > 0 {
        lemma_enc_comm_list_len(l.skip(1));
        assert(enc_comm(l[0]).len() >= 9) by {
            lemma_enc_bytes_list_len(l[0].unshifted@);
            assert(enc_opt_bytes(l[0].shifted).len() >= 1);
        }
    }
}

/// Reads a little-endian 64-bit count.  Returns the one count whose
/// encoding sits at `pos`, or nothing when fewer than eight bytes remain.
fn read_u64(s: &Vec<u8>, pos: usize) -> (r: Option<(u64, usize)>)
    ensures
        forall|x: u64| has_at(s@, pos as int, enc_u64(x))
            ==> r == Some((x, (pos + 8) as usize)),
        match r {
            Option::Some(p) => pos + 8 <= s@.len() && p.1 == pos + 8,
            Option::None => true,
        },
{
    if s.len() < 8 || pos > s.len() - 8 {
        proof {
            assert forall|x: u64| has_at(s@, pos as int, enc_u64(x)) implies false by {}
        }
        return None;
    }
    let b0 = s[pos] as u64;
    let b1 = s[pos + 1] as u64;
    let b2 = s[pos + 2] as u64;
    let b3 = s[pos + 3] as u64;
    let b4 = s[pos + 4] as u64;
    let b5 = s[pos + 5] as u64;
    let b6 = s[pos + 6] as u64;
    let b7 = s[pos + 7] as u64;
    let v = b0 | (b1 << 8) | (b2 << 16) | (b3 << 24) | (b4 << 32) | (b5 << 40) | (b6 << 48)
        | (b7 << 56);
    proof {
        assert forall|x: u64| has_at(s@, pos as int, enc_u64(x)) implies v == x by {
            let e = enc_u64(x);
            let p = pos as int;
            assert(s@.subrange(p, p + 8) == e);
            assert(s@[p] == e[0] && s@[p + 1] == e[1] && s@[p + 2] == e[2] && s@[p + 3] == e[3]
                && s@[p + 4] == e[4] && s@[p + 5] == e[5] && s@[p + 6] == e[6]
                && s@[p + 7] == e[7]) by {
                assert(s@.subrange(p, p + 8)[0] == s@[p]);
                assert(s@.subrange(p, p + 8)[1] == s@[p + 1]);
                assert(s@.subrange(p, p + 8)[2] == s@[p + 2]);
                assert(s@.subrange(p, p + 8)[3] == s@[p + 3]);
                assert(s@.subrange(p, p + 8)[4] == s@[p + 4]);
                assert(s@.subrange(p, p + 8)[5] == s@[p + 5]);
                assert(s@.subrange(p, p + 8)[6] == s@[p + 6]);
                assert(s@.subrange(p, p + 8)[7] == s@[p + 7]);
            }
            assert(v == x) by (bit_vector)
                requires
                    v == (((x & 0xff) as u8) as u64) | ((((x >> 8) & 0xff) as u8) as u64) << 8
                        | ((((x >> 16) & 0xff) as u8) as u64) << 16
                        | ((((x >> 24) & 0xff) as u8) as u64) << 24
                        | ((((x >> 32) & 0xff) as u8) as u64) << 32
                        | ((((x >> 40) & 0xff) as u8) as u64) << 40
                        | ((((x >> 48) & 0xff) as u8) as u64) << 48
                        | ((((x >> 56) & 0xff) as u8) as u64) << 56;
        }
    }
    Some((v, pos + 8))
}

/// Reads a length-prefixed byte string.
fn read_bytes(s: &Vec<u8>, pos: usize) -> (r: Option<(Vec<u8>, usize)>)
    ensures
        forall|b: Seq<u8>| has_at(s@, pos as int, enc_bytes(b))
            ==> match r {
                Option::Some(p) => p.0@ == b && p.1 == pos + 8 + b.len(),
                Option::None => false,
            },
        match r {
            Option::Some(p) => pos <= p.1 <= s@.len(),
            Option::None => true,
        },
{
    let (n, p1) = match read_u64(s, pos) {
        Option::Some(t) => t,
        Option::None => {
            proof {
                assert forall|b: Seq<u8>| has_at(s@, pos as int, enc_bytes(b)) implies false by {
                    lemma_has_at_split(s@, pos as int, enc_u64(b.len() as u64), b);
                }
            }
            return None;
        },
    };
    if n > (s.len() - p1) as u64 {
        proof {
            assert forall|b: Seq<u8>| has_at(s@, pos as int, enc_bytes(b)) implies false by {
                lemma_has_at_split(s@, pos as int, enc_u64(b.len() as u64), b);
            }
        }
        return None;
    }
    let len = n as usize;
    let mut out: Vec<u8> = Vec::new();
    let mut j: usize = 0;
    #[verifier::loop_isolation(false)]
    while j < len
        invariant
            j <= len,
            p1 + len <= s@.len(),
            out@ == s@.subrange(p1 as int, p1 + j),
        decreases len - j,
    {
        out.push(s[p1 + j]);
        proof {
            assert(s@.subrange(p1 as int, p1 + j).push(s@[p1 + j]) =~= s@.subrange(
                p1 as int, p1 + j + 1));
        }
        j = j + 1;
    }
    proof {
        assert forall|b: Seq<u8>| has_at(s@, pos as int, enc_bytes(b)) implies out@ == b
            && p1 + len == pos + 8 + b.len() by {
            lemma_has_at_split(s@, pos as int, enc_u64(b.len() as u64), b);
            assert(n == b.len() as u64);
            assert(s@.subrange(p1 as int, p1 + b.len()) == b);
        }
    }
    Some((out, p1 + len))
}

/// Reads `count` length-prefixed byte strings.
fn read_bytes_list(s: &Vec<u8>, pos: usize, count: u64) -> (r: Option<(Vec<Vec<u8>>, usize)>)
    ensures
        forall|l: Seq<Vec<u8>>| l.len() == count && has_at(s@, pos as int, enc_bytes_list(l))
            ==> match r {
                Option::Some(p) => {
                    &&& p.0@.len() == l.len()
                    &&& forall|i: int| 0 <= i < l.len() ==> (#[trigger] p.0@[i])@ == l[i]@
                    &&& p.1 == pos + enc_bytes_list(l).len()
                },
                Option::None => false,
            },
    decreases count,
{
    if count == 0 {
        let out: Vec<Vec<u8>> = Vec::new();
        proof {
            assert forall|l: Seq<Vec<u8>>| l.len() == count
                && has_at(s@, pos as int, enc_bytes_list(l)) implies out@.len() == l.len()
                && pos == pos + enc_bytes_list(l).len() by {
                assert(enc_bytes_list(l).len() == 0);
            }
        }
        return Some((out, pos));
    }
    let (b, p1) = match read_bytes(s, pos) {
        Option::Some(t) => t,
        Option::None => {
            proof {
                assert forall|l: Seq<Vec<u8>>| l.len() == count
                    && has_at(s@, pos as int, enc_bytes_list(l)) implies false by {
                    lemma_has_at_split(s@, pos as int, enc_bytes(l[0]@), enc_bytes_list(l.skip(1)));
                }
            }
            return None;
        },
    };
    let (rest, p2) = match read_bytes_list(s, p1, count - 1) {
        Option::Some(t) => t,
        Option::None => {
            proof {
                assert forall|l: Seq<Vec<u8>>| l.len() == count
                    && has_at(s@, pos as int, enc_bytes_list(l)) implies false by {
                    lemma_has_at_split(s@, pos as int, enc_bytes(l[0]@), enc_bytes_list(l.skip(1)));
                    assert(l.skip(1).len() == count - 1);
                }
            }
            return None;
        },
    };
    let mut out = rest;
    out.insert(0, b);
    proof {
        assert forall|l: Seq<Vec<u8>>| l.len() == count
            && has_at(s@, pos as int, enc_bytes_list(l)) implies out@.len() == l.len()
            && (forall|i: int| 0 <= i < l.len() ==> (#[trigger] out@[i])@ == l[i]@)
            && p2 == pos + enc_bytes_list(l).len() by {
            lemma_has_at_split(s@, pos as int, enc_bytes(l[0]@), enc_bytes_list(l.skip(1)));
            assert(l.skip(1).len() == count - 1);
            assert(b@ == l[0]@);
            assert(p1 == pos + enc_bytes(l[0]@).len());
            assert forall|i: int| 0 <= i < l.len() implies (#[trigger] out@[i])@ == l[i]@ by {
                if i == 0 {
                    assert(out@[0] == b);
                } else {
                    assert(out@[i] == rest@[i - 1]);
                    assert(rest@[i - 1]@ == l.skip(1)[i - 1]@);
                    assert(l.skip(1)[i - 1] == l[i]);
                }
            }
        }
    }
    Some((out, p2))
}

/// Reads an optional length-prefixed byte string behind a presence tag.
fn read_opt_bytes(s: &Vec<u8>, pos: usize) -> (r: Option<(Option<Vec<u8>>, usize)>)
    ensures
        forall|o: Option<Vec<u8>>| has_at(s@, pos as int, enc_opt_bytes(o))
            ==> match r {
                Option::Some(p) => {
                    &&& (match (p.0, o) {
                        (Option::None, Option::None) => true,
                        (Option::Some(x), Option::Some(y)) => x@ == y@,
                        _ => false,
                    })
                    &&& p.1 == pos + enc_opt_bytes(o).len()
                },
                Option::None => false,
            },
        match r {
            Option::Some(p) => pos <= p.1 <= s@.len(),
            Option::None => true,
        },
{
    if pos >= s.len() {
        proof {
            assert forall|o: Option<Vec<u8>>| has_at(s@, pos as int, enc_opt_bytes(o))
                implies false by {
                assert(enc_opt_bytes(o).len() >= 1);
            }
        }
        return None;
    }
    let tag = s[pos];
    if tag == 0 {
        proof {
            assert forall|o: Option<Vec<u8>>| has_at(s@, pos as int, enc_opt_bytes(o))
                implies o is None && enc_opt_bytes(o).len() == 1 by {
                let e = enc_opt_bytes(o);
                assert(s@.subrange(pos as int, pos + e.len() as int)[0] == s@[pos as int]);
                assert(e[0] == s@[pos as int]);
                if o is Some {
                    assert(e[0] == 1u8);
                    assert(false);
                }
            }
        }
        return Some((None, pos + 1));
    }
    if tag != 1 {
        proof {
            assert forall|o: Option<Vec<u8>>| has_at(s@, pos as int, enc_opt_bytes(o))
                implies false by {
                let e = enc_opt_bytes(o);
                assert(s@.subrange(pos as int, pos + e.len() as int)[0] == s@[pos as int]);
                assert(e[0] == s@[pos as int]);
            }
        }
        return None;
    }
    match read_bytes(s, pos + 1) {
        Option::Some((v, p2)) => {
            proof {
                assert forall|o: Option<Vec<u8>>| has_at(s@, pos as int, enc_opt_bytes(o))
                    implies o is Some && v@ == o->0@
                    && p2 == pos + enc_opt_bytes(o).len() by {
                    let e = enc_opt_bytes(o);
                    assert(s@.subrange(pos as int, pos + e.len() as int)[0] == s@[pos as int]);
                    assert(e[0] == s@[pos as int]);
                    if o is None {
                        assert(e[0] == 0u8);
                        assert(false);
                    }
                    let y = o->0;
                    assert(enc_opt_bytes(o) =~= seq![1u8] + enc_bytes(y@));
                    lemma_has_at_split(s@, pos as int, seq![1u8], enc_bytes(y@));
                }
            }
            Some((Some(v), p2))
        },
        Option::None => {
            proof {
                assert forall|o: Option<Vec<u8>>| has_at(s@, pos as int, enc_opt_bytes(o))
                    implies false by {
                    let e = enc_opt_bytes(o);
                    assert(s@.subrange(pos as int, pos + e.len() as int)[0] == s@[pos as int]);
                    assert(e[0] == s@[pos as int]);
                    if o is None {
                        assert(e[0] == 0u8);
                        assert(false);
                    }
                    let y = o->0;
                    assert(enc_opt_bytes(o) =~= seq![1u8] + enc_bytes(y@));
                    lemma_has_at_split(s@, pos as int, seq![1u8], enc_bytes(y@));
                }
            }
            None
        },
    }
}

/// Reads one commitment record.
#[verifier::rlimit(100)]
fn read_comm(s: &Vec<u8>, pos: usize) -> (r: Option<(CommData, usize)>)
    ensures
        forall|c: CommData| has_at(s@, pos as int, enc_comm(c))
            ==> match r {
                Option::Some(p) => comm_eqv(p.0, c) && p.1 == pos + enc_comm(c).len(),
                Option::None => false,
            },
{
    proof {
        assert(vstd::std_specs::vec::spec_vec_len(s) == s@.len());
    }
    let (n, p1) = match read_u64(s, pos) {
        Option::Some(t) => t,
        Option::None => {
            proof {
                assert forall|c: CommData| has_at(s@, pos as int, enc_comm(c)) implies false by {
                    assert(enc_comm(c) =~= enc_u64(c.unshifted@.len() as u64)
                        + (enc_bytes_list(c.unshifted@) + enc_opt_bytes(c.shifted)));
                    lemma_has_at_split(s@, pos as int, enc_u64(c.unshifted@.len() as u64),
                        enc_bytes_list(c.unshifted@) + enc_opt_bytes(c.shifted));
                    lemma_enc_bytes_list_len(c.unshifted@);
                    assert(enc_comm(c).len() <= s@.len());
                    assert(8 * c.unshifted@.len() <= usize::MAX);
                    assert((c.unshifted@.len() as u64) as nat == c.unshifted@.len());
                }
            }
            return None;
        },
    };
    let (unshifted, p2) = match read_bytes_list(s, p1, n) {
        Option::Some(t) => t,
        Option::None => {
            proof {
                assert forall|c: CommData| has_at(s@, pos as int, enc_comm(c)) implies false by {
                    assert(enc_comm(c) =~= enc_u64(c.unshifted@.len() as u64)
                        + (enc_bytes_list(c.unshifted@) + enc_opt_bytes(c.shifted)));
                    lemma_has_at_split(s@, pos as int, enc_u64(c.unshifted@.len() as u64),
                        enc_bytes_list(c.unshifted@) + enc_opt_bytes(c.shifted));
                    lemma_enc_bytes_list_len(c.unshifted@);
                    assert(enc_comm(c).len() <= s@.len());
                    assert(8 * c.unshifted@.len() <= usize::MAX);
                    assert((c.unshifted@.len() as u64) as nat == c.unshifted@.len());
                    lemma_has_at_split(s@, p1 as int, enc_bytes_list(c.unshifted@),
                        enc_opt_bytes(c.shifted));
                }
            }
            return None;
        },
    };
    let (shifted, p3) = match read_opt_bytes(s, p2) {
        Option::Some(t) => t,
        Option::None => {
            proof {
                assert forall|c: CommData| has_at(s@, pos as int, enc_comm(c)) implies false by {
                    assert(enc_comm(c) =~= enc_u64(c.unshifted@.len() as u64)
                        + (enc_bytes_list(c.unshifted@) + enc_opt_bytes(c.shifted)));
                    lemma_has_at_split(s@, pos as int, enc_u64(c.unshifted@.len() as u64),
                        enc_bytes_list(c.unshifted@) + enc_opt_bytes(c.shifted));
                    lemma_enc_bytes_list_len(c.unshifted@);
                    assert(enc_comm(c).len() <= s@.len());
                    assert(8 * c.unshifted@.len() <= usize::MAX);
                    assert((c.unshifted@.len() as u64) as nat == c.unshifted@.len());
                    lemma_has_at_split(s@, p1 as int, enc_bytes_list(c.unshifted@),
                        enc_opt_bytes(c.shifted));
                }
            }
            return None;
        },
    };
    let out = CommData { unshifted, shifted };
    proof {
        assert forall|c: CommData| has_at(s@, pos as int, enc_comm(c))
            implies comm_eqv(out, c) && p3 == pos + enc_comm(c).len() by {
            assert(enc_comm(c) =~= enc_u64(c.unshifted@.len() as u64)
                + (enc_bytes_list(c.unshifted@) + enc_opt_bytes(c.shifted)));
            lemma_has_at_split(s@, pos as int, enc_u64(c.unshifted@.len() as u64),
                enc_bytes_list(c.unshifted@) + enc_opt_bytes(c.shifted));
            lemma_enc_bytes_list_len(c.unshifted@);
            assert(enc_comm(c).len() <= s@.len());
            assert(8 * c.unshifted@.len() <= usize::MAX);
            assert((c.unshifted@.len() as u64) as nat == c.unshifted@.len());
            lemma_has_at_split(s@, p1 as int, enc_bytes_list(c.unshifted@),
                enc_opt_bytes(c.shifted));
            assert(n == c.unshifted@.len() as u64);
        }
    }
    Some((out, p3))
}

/// Reads `count` commitment records.
fn read_comm_list(s: &Vec<u8>, pos: usize, count: u64) -> (r: Option<(Vec<CommData>, usize)>)
    ensures
        forall|l: Seq<CommData>| l.len() == count && has_at(s@, pos as int, enc_comm_list(l))
            ==> match r {
                Option::Some(p) => {
                    &&& p.0@.len() == l.len()
                    &&& forall|i: int| 0 <= i < l.len() ==> comm_eqv(#[trigger] p.0@[i], l[i])
                    &&& p.1 == pos + enc_comm_list(l).len()
                },
                Option::None => false,
            },
    decreases count,
{
    if count == 0 {
        let out: Vec<CommData> = Vec::new();
        proof {
            assert forall|l: Seq<CommData>| l.len() == count
                && has_at(s@, pos as int, enc_comm_list(l)) implies out@.len() == l.len()
                && pos == pos + enc_comm_list(l).len() by {
                assert(enc_comm_list(l).len() == 0);
            }
        }
        return Some((out, pos));
    }
    let (c0, p1) = match read_comm(s, pos) {
        Option::Some(t) => t,
        Option::None => {
            proof {
                assert forall|l: Seq<CommData>| l.len() == count
                    && has_at(s@, pos as int, enc_comm_list(l)) implies false by {
                    lemma_has_at_split(s@, pos as int, enc_comm(l[0]), enc_comm_list(l.skip(1)));
                }
            }
            return None;
        },
    };
    let (rest, p2) = match read_comm_list(s, p1, count - 1) {
        Option::Some(t) => t,
        Option::None => {
            proof {
                assert forall|l: Seq<CommData>| l.len() == count
                    && has_at(s@, pos as int, enc_comm_list(l)) implies false by {
                    lemma_has_at_split(s@, pos as int, enc_comm(l[0]), enc_comm_list(l.skip(1)));
                    assert(l.skip(1).len() == count - 1);
                }
            }
            return None;
        },
    };
    let mut out = rest;
    out.insert(0, c0);
    proof {
        assert forall|l: Seq<CommData>| l.len() == count
            && has_at(s@, pos as int, enc_comm_list(l)) implies out@.len() == l.len()
            && (forall|i: int| 0 <= i < l.len() ==> comm_eqv(#[trigger] out@[i], l[i]))
            && p2 == pos + enc_comm_list(l).len() by {
            lemma_has_at_split(s@, pos as int, enc_comm(l[0]), enc_comm_list(l.skip(1)));
            assert(l.skip(1).len() == count - 1);
            assert(comm_eqv(c0, l[0]));
            assert(p1 == pos + enc_comm(l[0]).len());
            assert forall|i: int| 0 <= i < l.len() implies comm_eqv(#[trigger] out@[i], l[i]) by {
                if i == 0 {
                    assert(out@[0] == c0);
                } else {
                    assert(out@[i] == rest@[i - 1]);
                    assert(comm_eqv(rest@[i - 1], l.skip(1)[i - 1]));
                    assert(l.skip(1)[i - 1] == l[i]);
                }
            }
        }
    }
    Some((out, p2))
}

/// Reads back a persisted verifier index.  The round trip holds: for any
/// index `m`, reading the exact byte string `vindex_write` produces for
/// `m` yields an index with the same content as `m`; trailing bytes or a
/// malformed buffer are rejected.
pub fn vindex_read(s: &Vec<u8>) -> (r: Option<VerifierIndexData>)
    ensures
        forall|m: VerifierIndexData| s@ == enc_vindex(m)
            ==> match r {
                Option::Some(d) => vindex_eqv(d, m),
                Option::None => false,
            },
{
    proof {
        assert(vstd::std_specs::vec::spec_vec_len(s) == s@.len());
        assert forall|m: VerifierIndexData| s@ == enc_vindex(m) implies {
            &&& has_at(s@, 0, enc_u64(m.max_poly_size))
            &&& has_at(s@, 8, enc_u64(m.max_quot_size))
            &&& has_at(s@, 16, enc_u64(m.domain_size))
            &&& has_at(s@, 24, enc_bytes(m.domain_gen@))
            &&& has_at(s@, 32 + m.domain_gen@.len() as int, enc_u64(m.comms@.len() as u64))
            &&& has_at(s@, 40 + m.domain_gen@.len() as int, enc_comm_list(m.comms@))
            &&& has_at(s@, 40 + m.domain_gen@.len() as int + enc_comm_list(m.comms@).len() as int,
                enc_bytes(m.r@))
            &&& has_at(s@, 48 + m.domain_gen@.len() as int + enc_comm_list(m.comms@).len() as int
                + m.r@.len() as int, enc_bytes(m.o@))
            &&& s@.len() == 56 + m.domain_gen@.len() + enc_comm_list(m.comms@).len()
                + m.r@.len() + m.o@.len()
            &&& (m.comms@.len() as u64) as nat == m.comms@.len()
        } by {
            lemma_vindex_parts(s@, m);
        }
    }
    let (max_poly_size, p1) = match read_u64(s, 0) {
        Option::Some(t) => t,
        Option::None => {
            return None;
        },
    };
    let (max_quot_size, p2) = match read_u64(s, p1) {
        Option::Some(t) => t,
        Option::None => {
            return None;
        },
    };
    let (domain_size, p3) = match read_u64(s, p2) {
        Option::Some(t) => t,
        Option::None => {
            return None;
        },
    };
    let (domain_gen, p4) = match read_bytes(s, p3) {
        Option::Some(t) => t,
        Option::None => {
            return None;
        },
    };
    let (comm_count, p5) = match read_u64(s, p4) {
        Option::Some(t) => t,
        Option::None => {
            return None;
        },
    };
    let (comms, p6) = match read_comm_list(s, p5, comm_count) {
        Option::Some(t) => t,
        Option::None => {
            return None;
        },
    };
    let (rr, p7) = match read_bytes(s, p6) {
        Option::Some(t) => t,
        Option::None => {
            return None;
        },
    };
    let (oo, p8) = match read_bytes(s, p7) {
        Option::Some(t) => t,
        Option::None => {
            return None;
        },
    };
    if p8 != s.len() {
        return None;
    }
    let out = VerifierIndexData {
        max_poly_size,
        max_quot_size,
        domain_size,
        domain_gen,
        comms,
        r: rr,
        o: oo,
    };
    Some(out)
}

/// The eight parts of a persisted index sit in the buffer one after the
/// other, each at the offset the parts before it add up to.
#[verifier::rlimit(100)]
proof fn lemma_vindex_parts(s: Seq<u8>, m: VerifierIndexData)
    requires
        s == enc_vindex(m),
        s.len() <= usize::MAX,
    ensures
        has_at(s, 0, enc_u64(m.max_poly_size)),
        has_at(s, 8, enc_u64(m.max_quot_size)),
        has_at(s, 16, enc_u64(m.domain_size)),
        has_at(s, 24, enc_bytes(m.domain_gen@)),
        has_at(s, 32 + m.domain_gen@.len() as int, enc_u64(m.comms@.len() as u64)),
        has_at(s, 40 + m.domain_gen@.len() as int, enc_comm_list(m.comms@)),
        has_at(s, 40 + m.domain_gen@.len() as int + enc_comm_list(m.comms@).len() as int,
            enc_bytes(m.r@)),
        has_at(s, 48 + m.domain_gen@.len() as int + enc_comm_list(m.comms@).len() as int
            + m.r@.len() as int, enc_bytes(m.o@)),
        s.len() == 56 + m.domain_gen@.len() + enc_comm_list(m.comms@).len() + m.r@.len()
            + m.o@.len(),
        m.comms@.len() <= s.len(),
        (m.comms@.len() as u64) as nat == m.comms@.len(),
{
    lemma_enc_comm_list_len(m.comms@);
    let a = enc_u64(m.max_poly_size);
    let b = enc_u64(m.max_quot_size);
    let c = enc_u64(m.domain_size);
    let d = enc_bytes(m.domain_gen@);
    let e = enc_u64(m.comms@.len() as u64);
    let f = enc_comm_list(m.comms@);
    let g = enc_bytes(m.r@);
    let h = enc_bytes(m.o@);
    assert(s.subrange(0, s.len() as int) =~= s);
    assert(has_at(s, 0, a + b + c + d + e + f + g + h));
    lemma_has_at_split(s, 0, a + b + c + d + e + f + g, h);
    lemma_has_at_split(s, 0, a + b + c + d + e + f, g);
    lemma_has_at_split(s, 0, a + b + c + d + e, f);
    lemma_has_at_split(s, 0, a + b + c + d, e);
    lemma_has_at_split(s, 0, a + b + c, d);
    lemma_has_at_split(s, 0, a + b, c);
    lemma_has_at_split(s, 0, a, b);
}

/// A compiled gate ready for persistence: the kind, the six slot ids, and
/// each coefficient as a byte string.
pub struct GateData {
    pub typ: GateType,
    pub wires: GateWires,
    pub c: Vec<Vec<u8>>,
}

/// The persisted core of a prover index: the base domain size, the
/// public-input count, and the compiled gates.
pub struct IndexData {
    pub d1_size: u64,
    pub public: u64,
    pub gates: Vec<GateData>,
}

/// The tag byte of a gate kind.
pub open spec fn gate_type_tag(t: GateType) -> u8 {
    match t {
        GateType::Zero => 0,
        GateType::Generic => 1,
        GateType::Poseidon => 2,
        GateType::Add1 => 3,
        GateType::Add2 => 4,
        GateType::Vbmul1 => 5,
        GateType::Vbmul2 => 6,
        GateType::Vbmul3 => 7,
        GateType::Endomul1 => 8,
        GateType::Endomul2 => 9,
        GateType::Endomul3 => 10,
        GateType::Endomul4 => 11,
    }
}

/// One gate record: the tag, the six slot ids, the coefficients.
pub open spec fn enc_gate(g: GateData) -> Seq<u8> {
    seq![gate_type_tag(g.typ)] + enc_u64(g.wires.l.0 as u64) + enc_u64(g.wires.l.1 as u64)
        + enc_u64(g.wires.r.0 as u64) + enc_u64(g.wires.r.1 as u64)
        + enc_u64(g.wires.o.0 as u64) + enc_u64(g.wires.o.1 as u64)
        + enc_u64(g.c@.len() as u64) + enc_bytes_list(g.c@)
}

/// One record per compiled gate, in order.
pub open spec fn enc_gate_list(l: Seq<GateData>) -> Seq<u8>
    decreases l.len(),
{
    if l.len() == 0 {
        Seq::<u8>::empty()
    } else {
        enc_gate(l[0]) + enc_gate_list(l.skip(1))
    }
}

/// The whole persisted index core.
pub open spec fn enc_index(d: IndexData) -> Seq<u8> {
    enc_u64(d.d1_size) + enc_u64(d.public) + enc_u64(d.gates@.len() as u64)
        + enc_gate_list(d.gates@)
}

/// Two persisted gates with the same content.
pub open spec fn gate_data_eqv(a: GateData, b: GateData) -> bool {
    &&& a.typ == b.typ
    &&& a.wires == b.wires
    &&& a.c@.len() == b.c@.len()
    &&& forall|i: int| 0 <= i < a.c@.len() ==> (#[trigger] a.c@[i])@ == b.c@[i]@
}

/// Two persisted index cores with the same content.
pub open spec fn index_eqv(a: IndexData, b: IndexData) -> bool {
    &&& a.d1_size == b.d1_size
    &&& a.public == b.public
    &&& a.gates@.len() == b.gates@.len()
    &&& forall|i: int| 0 <= i < a.gates@.len() ==> gate_data_eqv(#[trigger] a.gates@[i],
        b.gates@[i])
}

/// The tag byte of a gate kind.
fn gate_type_tag_exec(t: GateType) -> (r: u8)
    ensures
        r == gate_type_tag(t),
{
    match t {
        GateType::Zero => 0,
        GateType::Generic => 1,
        GateType::Poseidon => 2,
        GateType::Add1 => 3,
        GateType::Add2 => 4,
        GateType::Vbmul1 => 5,
        GateType::Vbmul2 => 6,
        GateType::Vbmul3 => 7,
        GateType::Endomul1 => 8,
        GateType::Endomul2 => 9,
        GateType::Endomul3 => 10,
        GateType::Endomul4 => 11,
    }
}

/// Maps a tag byte back to its kind.
fn gate_type_of_tag(tag: u8) -> (r: Option<GateType>)
    ensures
        forall|t: GateType| tag == gate_type_tag(t) ==> r == Some(t),
        match r {
            Option::Some(t) => gate_type_tag(t) == tag,
            Option::None => true,
        },
{
    match tag {
        0 => Some(GateType::Zero),
        1 => Some(GateType::Generic),
        2 => Some(GateType::Poseidon),
        3 => Some(GateType::Add1),
        4 => Some(GateType::Add2),
        5 => Some(GateType::Vbmul1),
        6 => Some(GateType::Vbmul2),
        7 => Some(GateType::Vbmul3),
        8 => Some(GateType::Endomul1),
        9 => Some(GateType::Endomul2),
        10 => Some(GateType::Endomul3),
        11 => Some(GateType::Endomul4),
        _ => None,
    }
}

/// Appends a slot id as a 64-bit count.
fn write_slot(out: &mut Vec<u8>, x: usize)
    ensures
        final(out)@ == old(out)@ + enc_u64(x as u64),
{
    write_u64(out, x as u64);
}

/// Appends one gate record.
fn write_gate(out: &mut Vec<u8>, g: &GateData)
    ensures
        final(out)@ == old(out)@ + enc_gate(*g),
{
    let tag = gate_type_tag_exec(g.typ);
    out.push(tag);
    write_slot(out, g.wires.l.0);
    write_slot(out, g.wires.l.1);
    write_slot(out, g.wires.r.0);
    write_slot(out, g.wires.r.1);
    write_slot(out, g.wires.o.0);
    write_slot(out, g.wires.o.1);
    write_u64(out, g.c.len() as u64);
    write_bytes_list(out, &g.c, 0);
    proof {
        assert(g.c@.skip(0) =~= g.c@);
        assert(out@ =~= old(out)@ + enc_gate(*g));
    }
}

/// Appends the records of `gates[i..]`.
fn write_gate_list(out: &mut Vec<u8>, gates: &Vec<GateData>, i: usize)
    requires
        i <= gates@.len(),
    ensures
        final(out)@ == old(out)@ + enc_gate_list(gates@.skip(i as int)),
    decreases gates@.len() - i@,
{
    if i == gates.len() {
        proof {
            assert(gates@.skip(i as int) =~= Seq::<GateData>::empty());
            assert(out@ =~= out@ + enc_gate_list(gates@.skip(i as int)));
        }
    } else {
        write_gate(out, &gates[i]);
        write_gate_list(out, gates, i + 1);
        proof {
            let l = gates@.skip(i as int);
            assert(l[0] == gates@[i as int]);
            assert(l.skip(1) =~= gates@.skip(i as int + 1));
            assert(old(out)@ + enc_gate(gates@[i as int]) + enc_gate_list(gates@.skip(
                i as int + 1)) =~= old(out)@ + enc_gate_list(l));
        }
    }
}

/// Writes a persisted index core: exactly the byte string `enc_index`
/// describes.
pub fn index_write(d: &IndexData) -> (r: Vec<u8>)
    ensures
        r@ == enc_index(*d),
{
    let mut out: Vec<u8> = Vec::new();
    write_u64(&mut out, d.d1_size);
    write_u64(&mut out, d.public);
    write_u64(&mut out, d.gates.len() as u64);
    write_gate_list(&mut out, &d.gates, 0);
    proof {
        assert(d.gates@.skip(0) =~= d.gates@);
        assert(out@ =~= enc_index(*d));
    }
    out
}

/// Reads a slot id, rejecting one that does not fit the machine word.
fn read_slot(s: &Vec<u8>, pos: usize) -> (r: Option<(usize, usize)>)
    ensures
        forall|x: usize| #[trigger] has_at(s@, pos as int, enc_u64(x as u64))
            ==> r == Some((x, (pos + 8) as usize)),
        match r {
            Option::Some(p) => pos + 8 <= s@.len() && p.1 == pos + 8,
            Option::None => true,
        },
{
    match read_u64(s, pos) {
        Option::Some((v, p)) => {
            if v > usize::MAX as u64 {
                proof {
                    assert forall|x: usize| #[trigger] has_at(s@, pos as int,
                        enc_u64(x as u64)) implies false by {
                        assert(v == x as u64);
                    }
                }
                None
            } else {
                Some((v as usize, p))
            }
        },
        Option::None => None,
    }
}

/// Reads one gate record.
#[verifier::rlimit(60)]
fn read_gate(s: &Vec<u8>, pos: usize) -> (r: Option<(GateData, usize)>)
    ensures
        forall|g: GateData| has_at(s@, pos as int, enc_gate(g))
            ==> match r {
                Option::Some(p) => gate_data_eqv(p.0, g) && p.1 == pos + enc_gate(g).len(),
                Option::None => false,
            },
{
    proof {
        assert(vstd::std_specs::vec::spec_vec_len(s) == s@.len());
        assert forall|g: GateData| has_at(s@, pos as int, enc_gate(g)) implies {
            &&& has_at(s@, pos as int, seq![gate_type_tag(g.typ)])
            &&& has_at(s@, pos + 1, enc_u64(g.wires.l.0 as u64))
            &&& has_at(s@, pos + 9, enc_u64(g.wires.l.1 as u64))
            &&& has_at(s@, pos + 17, enc_u64(g.wires.r.0 as u64))
            &&& has_at(s@, pos + 25, enc_u64(g.wires.r.1 as u64))
            &&& has_at(s@, pos + 33, enc_u64(g.wires.o.0 as u64))
            &&& has_at(s@, pos + 41, enc_u64(g.wires.o.1 as u64))
            &&& has_at(s@, pos + 49, enc_u64(g.c@.len() as u64))
            &&& has_at(s@, pos + 57, enc_bytes_list(g.c@))
            &&& (g.c@.len() as u64) as nat == g.c@.len()
            &&& enc_gate(g).len() == 57 + enc_bytes_list(g.c@).len()
        } by {
            lemma_gate_parts(s@, pos as int, g);
        }
    }
    if pos >= s.len() {
        return None;
    }
    let tag = s[pos];
    let typ = match gate_type_of_tag(tag) {
        Option::Some(t) => t,
        Option::None => {
            proof {
                assert forall|g: GateData| has_at(s@, pos as int, enc_gate(g)) implies false by {
                    assert(s@.subrange(pos as int, pos + 1)[0] == s@[pos as int]);
                    assert(tag == gate_type_tag(g.typ));
                }
            }
            return None;
        },
    };
    let (l0, p1) = match read_slot(s, pos + 1) {
        Option::Some(t) => t,
        Option::None => {
            return None;
        },
    };
    let (l1, p2) = match read_slot(s, p1) {
        Option::Some(t) => t,
        Option::None => {
            return None;
        },
    };
    let (r0, p3) = match read_slot(s, p2) {
        Option::Some(t) => t,
        Option::None => {
            return None;
        },
    };
    let (r1, p4) = match read_slot(s, p3) {
        Option::Some(t) => t,
        Option::None => {
            return None;
        },
    };
    let (o0, p5) = match read_slot(s, p4) {
        Option::Some(t) => t,
        Option::None => {
            return None;
        },
    };
    let (o1, p6) = match read_slot(s, p5) {
        Option::Some(t) => t,
        Option::None => {
            return None;
        },
    };
    let (count, p7) = match read_u64(s, p6) {
        Option::Some(t) => t,
        Option::None => {
            return None;
        },
    };
    let (c, p8) = match read_bytes_list(s, p7, count) {
        Option::Some(t) => t,
        Option::None => {
            return None;
        },
    };
    let out = GateData {
        typ,
        wires: GateWires { l: (l0, l1), r: (r0, r1), o: (o0, o1) },
        c,
    };
    proof {
        assert forall|g: GateData| has_at(s@, pos as int, enc_gate(g))
            implies gate_data_eqv(out, g) && p8 == pos + enc_gate(g).len() by {
            assert(s@.subrange(pos as int, pos + 1)[0] == s@[pos as int]);
            assert(tag == gate_type_tag(g.typ));
        }
    }
    Some((out, p8))
}

/// The parts of a gate record sit one after the other.
#[verifier::rlimit(100)]
proof fn lemma_gate_parts(s: Seq<u8>, pos: int, g: GateData)
    requires
        has_at(s, pos, enc_gate(g)),
        s.len() <= usize::MAX,
    ensures
        has_at(s, pos, seq![gate_type_tag(g.typ)]),
        has_at(s, pos + 1, enc_u64(g.wires.l.0 as u64)),
        has_at(s, pos + 9, enc_u64(g.wires.l.1 as u64)),
        has_at(s, pos + 17, enc_u64(g.wires.r.0 as u64)),
        has_at(s, pos + 25, enc_u64(g.wires.r.1 as u64)),
        has_at(s, pos + 33, enc_u64(g.wires.o.0 as u64)),
        has_at(s, pos + 41, enc_u64(g.wires.o.1 as u64)),
        has_at(s, pos + 49, enc_u64(g.c@.len() as u64)),
        has_at(s, pos + 57, enc_bytes_list(g.c@)),
        (g.c@.len() as u64) as nat == g.c@.len(),
        enc_gate(g).len() == 57 + enc_bytes_list(g.c@).len(),
{
    let a = seq![gate_type_tag(g.typ)];
    let b = enc_u64(g.wires.l.0 as u64);
    let c = enc_u64(g.wires.l.1 as u64);
    let d = enc_u64(g.wires.r.0 as u64);
    let e = enc_u64(g.wires.r.1 as u64);
    let f = enc_u64(g.wires.o.0 as u64);
    let h = enc_u64(g.wires.o.1 as u64);
    let i = enc_u64(g.c@.len() as u64);
    let j = enc_bytes_list(g.c@);
    lemma_has_at_split(s, pos, a + b + c + d + e + f + h + i, j);
    lemma_has_at_split(s, pos, a + b + c + d + e + f + h, i);
    lemma_has_at_split(s, pos, a + b + c + d + e + f, h);
    lemma_has_at_split(s, pos, a + b + c + d + e, f);
    lemma_has_at_split(s, pos, a + b + c + d, e);
    lemma_has_at_split(s, pos, a + b + c, d);
    lemma_has_at_split(s, pos, a + b, c);
    lemma_has_at_split(s, pos, a, b);
    lemma_enc_bytes_list_len(g.c@);
}

/// Reads `count` gate records.
fn read_gate_list(s: &Vec<u8>, pos: usize, count: u64) -> (r: Option<(Vec<GateData>, usize)>)
    ensures
        forall|l: Seq<GateData>| l.len() == count && has_at(s@, pos as int, enc_gate_list(l))
            ==> match r {
                Option::Some(p) => {
                    &&& p.0@.len() == l.len()
                    &&& forall|i: int| 0 <= i < l.len() ==> gate_data_eqv(#[trigger] p.0@[i],
                        l[i])
                    &&& p.1 == pos + enc_gate_list(l).len()
                },
                Option::None => false,
            },
    decreases count,
{
    if count == 0 {
        let out: Vec<GateData> = Vec::new();
        proof {
            assert forall|l: Seq<GateData>| l.len() == count
                && has_at(s@, pos as int, enc_gate_list(l)) implies out@.len() == l.len()
                && pos == pos + enc_gate_list(l).len() by {
                assert(enc_gate_list(l).len() == 0);
            }
        }
        return Some((out, pos));
    }
    let (g0, p1) = match read_gate(s, pos) {
        Option::Some(t) => t,
        Option::None => {
            proof {
                assert forall|l: Seq<GateData>| l.len() == count
                    && has_at(s@, pos as int, enc_gate_list(l)) implies false by {
                    lemma_has_at_split(s@, pos as int, enc_gate(l[0]), enc_gate_list(l.skip(1)));
                }
            }
            return None;
        },
    };
    let (rest, p2) = match read_gate_list(s, p1, count - 1) {
        Option::Some(t) => t,
        Option::None => {
            proof {
                assert forall|l: Seq<GateData>| l.len() == count
                    && has_at(s@, pos as int, enc_gate_list(l)) implies false by {
                    lemma_has_at_split(s@, pos as int, enc_gate(l[0]), enc_gate_list(l.skip(1)));
                    assert(l.skip(1).len() == count - 1);
                }
            }
            return None;
        },
    };
    let mut out = rest;
    out.insert(0, g0);
    proof {
        assert forall|l: Seq<GateData>| l.len() == count
            && has_at(s@, pos as int, enc_gate_list(l)) implies out@.len() == l.len()
            && (forall|i: int| 0 <= i < l.len() ==> gate_data_eqv(#[trigger] out@[i], l[i]))
            && p2 == pos + enc_gate_list(l).len() by {
            lemma_has_at_split(s@, pos as int, enc_gate(l[0]), enc_gate_list(l.skip(1)));
            assert(l.skip(1).len() == count - 1);
            assert(gate_data_eqv(g0, l[0]));
            assert(p1 == pos + enc_gate(l[0]).len());
            assert forall|i: int| 0 <= i < l.len() implies gate_data_eqv(
                #[trigger] out@[i], l[i]) by {
                if i == 0 {
                    assert(out@[0] == g0);
                } else {
                    assert(out@[i] == rest@[i - 1]);
                    assert(gate_data_eqv(rest@[i - 1], l.skip(1)[i - 1]));
                    assert(l.skip(1)[i - 1] == l[i]);
                }
            }
        }
    }
    Some((out, p2))
}

/// Reads back a persisted index core.  The round trip holds: for any
/// index `m`, reading the exact byte string `index_write` produces for
/// `m` yields an index with the same content; trailing bytes or a
/// malformed buffer are rejected.
pub fn index_read(s: &Vec<u8>) -> (r: Option<IndexData>)
    ensures
        forall|m: IndexData| s@ == enc_index(m)
            ==> match r {
                Option::Some(d) => index_eqv(d, m),
                Option::None => false,
            },
{
    proof {
        assert(vstd::std_specs::vec::spec_vec_len(s) == s@.len());
        assert forall|m: IndexData| s@ == enc_index(m) implies {
            &&& has_at(s@, 0, enc_u64(m.d1_size))
            &&& has_at(s@, 8, enc_u64(m.public))
            &&& has_at(s@, 16, enc_u64(m.gates@.len() as u64))
            &&& has_at(s@, 24, enc_gate_list(m.gates@))
            &&& s@.len() == 24 + enc_gate_list(m.gates@).len()
            &&& (m.gates@.len() as u64) as nat == m.gates@.len()
        } by {
            lemma_index_parts(s@, m);
        }
    }
    let (d1_size, p1) = match read_u64(s, 0) {
        Option::Some(t) => t,
        Option::None => {
            return None;
        },
    };
    let (public, p2) = match read_u64(s, p1) {
        Option::Some(t) => t,
        Option::None => {
            return None;
        },
    };
    let (count, p3) = match read_u64(s, p2) {
        Option::Some(t) => t,
        Option::None => {
            return None;
        },
    };
    let (gates, p4) = match read_gate_list(s, p3, count) {
        Option::Some(t) => t,
        Option::None => {
            return None;
        },
    };
    if p4 != s.len() {
        return None;
    }
    Some(IndexData { d1_size, public, gates })
}

/// The parts of a persisted index core sit one after the other.
proof fn lemma_index_parts(s: Seq<u8>, m: IndexData)
    requires
        s == enc_index(m),
        s.len() <= usize::MAX,
    ensures
        has_at(s, 0, enc_u64(m.d1_size)),
        has_at(s, 8, enc_u64(m.public)),
        has_at(s, 16, enc_u64(m.gates@.len() as u64)),
        has_at(s, 24, enc_gate_list(m.gates@)),
        s.len() == 24 + enc_gate_list(m.gates@).len(),
        (m.gates@.len() as u64) as nat == m.gates@.len(),
{
    let a = enc_u64(m.d1_size);
    let b = enc_u64(m.public);
    let c = enc_u64(m.gates@.len() as u64);
    let d = enc_gate_list(m.gates@);
    assert(s.subrange(0, s.len() as int) =~= s);
    assert(has_at(s, 0, a + b + c + d));
    lemma_has_at_split(s, 0, a + b + c, d);
    lemma_has_at_split(s, 0, a + b, c);
    lemma_has_at_split(s, 0, a, b);
    lemma_enc_gate_list_len(m.gates@);
}

/// Every gate record costs at least its fixed header.
proof fn lemma_enc_gate_list_len(l: Seq<GateData>)
    ensures
        enc_gate_list(l).len() >= 57 * l.len(),
    decreases l.len(),
{
    if l.len() > 0 {
        lemma_enc_gate_list_len(l.skip(1));
        assert(enc_gate(l[0]).len() >= 57) by {
            lemma_enc_bytes_list_len(l[0].c@);
        }
    }
}

} // verus!
