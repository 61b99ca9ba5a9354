//! Security identifiers: binary form, canonical text, and the relative
//! identifier that ends them.

use vstd::prelude::*;
use crate::bytes::{u32_le, u48_be, le32_bytes, be48_bytes, read_u32_le, read_u48_be,
    lemma_u32_round_trip, lemma_u48_round_trip};
use crate::error::DecodeError;
use crate::text::{decimal, push_decimal};

verus! {

/// A security identifier.
#[derive(Clone, Debug, PartialEq, Eq)]
pub struct Sid {
    pub revision: u8,
    /// The identifier authority, a 48-bit value.
    pub authority: u64,
    pub sub_authorities: Vec<u32>,
}

impl View for Sid {
    type V = (u8, u64, Seq<u32>);

    open spec fn view(&self) -> (u8, u64, Seq<u32>) {
        (self.revision, self.authority, self.sub_authorities@)
    }
}

impl Sid {
    /// The authority fits in 48 bits and the count of sub-authorities in a byte.
    pub open spec fn wf(&self) -> bool {
        self.authority < 0x1_0000_0000_0000 && self.sub_authorities@.len() <= 255
    }
}

/// Whether a whole binary identifier starts at `p`.
pub open spec fn sid_fits(b: Seq<u8>, p: int) -> bool {
    0 <= p && p + 8 <= b.len() && p + 8 + 4 * (b[p + 1] as int) <= b.len()
}

/// The length in bytes of the binary identifier at `p`.
pub open spec fn sid_size(b: Seq<u8>, p: int) -> int {
    8 + 4 * (b[p + 1] as int)
}

/// The identifier that the bytes at `p` encode.
pub open spec fn sid_at(b: Seq<u8>, p: int) -> (u8, u64, Seq<u32>) {
    (b[p], u48_be(b, p + 2), Seq::new(b[p + 1] as nat, |j: int| u32_le(b, p + 8 + 4 * j)))
}

/// The little-endian bytes of each sub-authority, in order.
pub open spec fn subs_bytes(s: Seq<u32>) -> Seq<u8>
    decreases s.len(),
{
    if s.len() == 0 {
        Seq::empty()
    } else {
        subs_bytes(s.drop_last()) + le32_bytes(s.last())
    }
}

/// The binary form of an identifier.
pub open spec fn sid_encoding(v: (u8, u64, Seq<u32>)) -> Seq<u8> {
    seq![v.0, v.2.len() as u8] + be48_bytes(v.1) + subs_bytes(v.2)
}

/// The text after the authority: `-sub` for each sub-authority, in order.
pub open spec fn subs_text(s: Seq<u32>) -> Seq<char>
    decreases s.len(),
{
    if s.len() == 0 {
        Seq::empty()
    } else {
        subs_text(s.drop_last()) + seq!['-'] + decimal(s.last() as nat)
    }
}

/// The canonical text `S-<revision>-<authority>-<sub1>-...-<subN>`.
pub open spec fn sid_text(v: (u8, u64, Seq<u32>)) -> Seq<char> {
    seq!['S', '-'] + decimal(v.0 as nat) + seq!['-'] + decimal(v.1 as nat) + subs_text(v.2)
}

/// The text under which a principal appears: short, well-known identifiers
/// are prefixed by the domain label.
pub open spec fn qualified_text(domain: Seq<char>, t: Seq<char>) -> Seq<char> {
    if t.len() <= 16 {
        domain + seq!['-'] + t
    } else {
        t
    }
}

/// The relative identifier: the last sub-authority, if there is one.
pub open spec fn rid_of(v: (u8, u64, Seq<u32>)) -> Option<u32> {
    if v.2.len() == 0 {
        None
    } else {
        Some(v.2.last())
    }
}

proof fn lemma_subs_bytes(s: Seq<u32>, j: int)
    requires
        0 <= j < s.len(),
    ensures
        subs_bytes(s).len() == 4 * s.len(),
        subs_bytes(s).subrange(4 * j, 4 * j + 4) == le32_bytes(s[j]),
    decreases s.len(),
{
    lemma_subs_bytes_len(s);
    let init = s.drop_last();
    lemma_subs_bytes_len(init);
    if j < s.len() - 1 {
        lemma_subs_bytes(init, j);
        assert(subs_bytes(s).subrange(4 * j, 4 * j + 4) =~= subs_bytes(init).subrange(
            4 * j,
            4 * j + 4,
        ));
    } else {
        assert(subs_bytes(s).subrange(4 * j, 4 * j + 4) =~= le32_bytes(s[j]));
    }
}

proof fn lemma_subs_bytes_len(s: Seq<u32>)
    ensures
        subs_bytes(s).len() == 4 * s.len(),
    decreases s.len(),
{
    if s.len() > 0 {
        lemma_subs_bytes_len(s.drop_last());
    }
}

/// Decoding the binary form of a well-formed identifier gives the identifier
/// back, and reads exactly the bytes of that form.
pub proof fn lemma_sid_round_trip(sid: Sid)
    requires
        sid.wf(),
    ensures
        sid_fits(sid_encoding(sid@), 0),
        sid_size(sid_encoding(sid@), 0) == sid_encoding(sid@).len(),
        sid_at(sid_encoding(sid@), 0) == sid@,
{
    let v = sid@;
    let b = sid_encoding(v);
    lemma_subs_bytes_len(v.2);
    assert(b[1] == v.2.len() as u8);
    assert(b.subrange(2, 8) =~= be48_bytes(v.1));
    lemma_u48_round_trip(v.1, b, 2);
    assert forall|j: int| 0 <= j < v.2.len() implies u32_le(b, 8 + 4 * j) == v.2[j] by {
        lemma_subs_bytes(v.2, j);
        assert(b.subrange(8 + 4 * j, 8 + 4 * j + 4) =~= subs_bytes(v.2).subrange(
            4 * j,
            4 * j + 4,
        ));
        lemma_u32_round_trip(v.2[j], b, 8 + 4 * j);
    }
    assert(sid_at(b, 0).2 =~= v.2);
}

/// Decodes the binary identifier at `p`; gives it with its length in bytes.
pub fn decode_sid(b: &[u8], p: usize) -> (r: Result<(Sid, usize), DecodeError>)
    ensures
        sid_fits(b@, p as int) <==> r is Ok,
        r is Err ==> r == Err::<(Sid, usize), DecodeError>(DecodeError::MalformedBuffer),
        r matches Ok((sid, n)) ==> sid@ == sid_at(b@, p as int) && n == sid_size(b@, p as int)
            && sid.wf(),
{
    if p > b.len() || b.len() - p < 8 {
        return Err(DecodeError::MalformedBuffer);
    }
    let count = b[p + 1] as usize;
    if (b.len() - p - 8) / 4 < count {
        return Err(DecodeError::MalformedBuffer);
    }
    let revision = b[p];
    let authority = read_u48_be(b, p + 2);
    let mut subs: Vec<u32> = Vec::new();
    let mut i: usize = 0;
    let mut q: usize = p + 8;
    while i < count
        invariant
            q == p + 8 + 4 * i,
            b@.len() <= usize::MAX,
            sid_fits(b@, p as int),
            count == b@[p + 1],
            p + 8 + 4 * count <= b@.len(),
            i <= count,
            subs@ == Seq::new(i as nat, |j: int| u32_le(b@, p + 8 + 4 * j)),
        decreases count - i,
    {
        let x = read_u32_le(b, q);
        subs.push(x);
        i = i + 1;
        q = q + 4;
        assert(subs@ =~= Seq::new(i as nat, |j: int| u32_le(b@, p + 8 + 4 * j)));
    }
    assert(authority < 0x1_0000_0000_0000) by {
        let b0 = b@[p + 2];
        let b1 = b@[p + 3];
        let b2 = b@[p + 4];
        let b3 = b@[p + 5];
        let b4 = b@[p + 6];
        let b5 = b@[p + 7];
        assert(((b0 as u64) << 40u64) | ((b1 as u64) << 32u64) | ((b2 as u64) << 24u64) | ((b3
            as u64) << 16u64) | ((b4 as u64) << 8u64) | (b5 as u64) < 0x1_0000_0000_0000)
            by (bit_vector);
    }
    Ok((Sid { revision, authority, sub_authorities: subs }, 8 + 4 * count))
}

impl Sid {
    /// The binary form: revision, count, big-endian authority, little-endian sub-authorities.
    pub fn encode(&self) -> (r: Vec<u8>)
        requires
            self.wf(),
        ensures
            r@ == sid_encoding(self@),
    {
        let mut r: Vec<u8> = Vec::new();
        r.push(self.revision);
        r.push(self.sub_authorities.len() as u8);
        let a = self.authority;
        r.push(((a >> 40u64) & 0xff) as u8);
        r.push(((a >> 32u64) & 0xff) as u8);
        r.push(((a >> 24u64) & 0xff) as u8);
        r.push(((a >> 16u64) & 0xff) as u8);
        r.push(((a >> 8u64) & 0xff) as u8);
        r.push((a & 0xff) as u8);
        assert(r@ =~= seq![self.revision, self.sub_authorities@.len() as u8] + be48_bytes(a));
        let ghost head = r@;
        let mut i: usize = 0;
        while i < self.sub_authorities.len()
            invariant
                i <= self.sub_authorities@.len(),
                r@ == head + subs_bytes(self.sub_authorities@.subrange(0, i as int)),
            decreases self.sub_authorities@.len() - i,
        {
            let x = self.sub_authorities[i];
            r.push((x & 0xff) as u8);
            r.push(((x >> 8u32) & 0xff) as u8);
            r.push(((x >> 16u32) & 0xff) as u8);
            r.push(((x >> 24u32) & 0xff) as u8);
            proof {
                let s = self.sub_authorities@.subrange(0, i as int + 1);
                assert(s.drop_last() =~= self.sub_authorities@.subrange(0, i as int));
                assert(r@ =~= head + subs_bytes(s));
            }
            i = i + 1;
        }
        assert(self.sub_authorities@.subrange(0, i as int) =~= self.sub_authorities@);
        r
    }

    /// The canonical text `S-<revision>-<authority>-<sub1>-...-<subN>`.
    pub fn to_text(&self) -> (r: String)
        ensures
            r@ == sid_text(self@),
    {
        let mut r = String::from_str("S-");
        proof { reveal_strlit("S-"); }
        push_decimal(&mut r, self.revision as u64);
        r.append("-");
        proof { reveal_strlit("-"); }
        push_decimal(&mut r, self.authority);
        let ghost head = r@;
        let mut i: usize = 0;
        while i < self.sub_authorities.len()
            invariant
                i <= self.sub_authorities@.len(),
                r@ == head + subs_text(self.sub_authorities@.subrange(0, i as int)),
            decreases self.sub_authorities@.len() - i,
        {
            r.append("-");
            proof { reveal_strlit("-"); }
            push_decimal(&mut r, self.sub_authorities[i] as u64);
            proof {
                let s = self.sub_authorities@.subrange(0, i as int + 1);
                assert(s.drop_last() =~= self.sub_authorities@.subrange(0, i as int));
                assert(r@ =~= head + subs_text(s));
            }
            i = i + 1;
        }
        assert(self.sub_authorities@.subrange(0, i as int) =~= self.sub_authorities@);
        assert(r@ =~= sid_text(self@));
        r
    }

    /// The text under which the principal appears for `domain`: the canonical
    /// text, prefixed by `domain` and `-` when it is at most sixteen characters long.
    pub fn qualified(&self, domain: &str) -> (r: String)
        ensures
            r@ == qualified_text(domain@, sid_text(self@)),
    {
        let t = self.to_text();
        if t.unicode_len() <= 16 {
            let mut r = String::from_str(domain);
            r.append("-");
            proof { reveal_strlit("-"); }
            r.append(t.as_str());
            assert(r@ =~= qualified_text(domain@, sid_text(self@)));
            r
        } else {
            t
        }
    }

    /// The last sub-authority, if there is one.
    pub fn rid(&self) -> (r: Option<u32>)
        ensures
            r == rid_of(self@),
    {
        let n = self.sub_authorities.len();
        if n == 0 {
            None
        } else {
            Some(self.sub_authorities[n - 1])
        }
    }
}

} // verus!
