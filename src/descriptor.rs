//! Self-relative security descriptors, their discretionary access control
//! list, and the access control entries in it.

use vstd::prelude::*;
use crate::bytes::{u16_le, u32_le, read_u16_le, read_u32_le};
use crate::error::DecodeError;
use crate::guid::{decode_guid_le, guid_text};
use crate::sid::{Sid, decode_sid, sid_at, sid_fits, sid_size};

verus! {

/// Length of the fixed descriptor header.
pub const HEADER_LEN: usize = 20;
/// Control bit: the discretionary list does not inherit from parents.
pub const SE_DACL_PROTECTED: u16 = 0x1000;
/// Control bit: the system list does not inherit from parents.
pub const SE_SACL_PROTECTED: u16 = 0x2000;
/// Entry flag: the entry was inherited from a parent object.
pub const INHERITED_ACE: u8 = 0x10;
/// Object entry flag: an object type GUID follows.
pub const ACE_OBJECT_TYPE_PRESENT: u32 = 0x1;
/// Object entry flag: an inherited object type GUID follows.
pub const ACE_INHERITED_OBJECT_TYPE_PRESENT: u32 = 0x2;

/// The fixed header of a self-relative security descriptor.
#[derive(Clone, Copy, Debug, PartialEq, Eq)]
pub struct SecurityDescriptor {
    pub revision: u8,
    pub control: u16,
    /// Offsets from the start of the buffer; zero when the part is absent.
    pub offset_owner: u32,
    pub offset_group: u32,
    pub offset_sacl: u32,
    pub offset_dacl: u32,
}

/// The header read from the first twenty bytes.
pub open spec fn header_matches(d: SecurityDescriptor, b: Seq<u8>) -> bool {
    &&& d.revision == b[0]
    &&& d.control == u16_le(b, 2)
    &&& d.offset_owner == u32_le(b, 4)
    &&& d.offset_group == u32_le(b, 8)
    &&& d.offset_sacl == u32_le(b, 12)
    &&& d.offset_dacl == u32_le(b, 16)
}

impl SecurityDescriptor {
    /// Reads the fixed header; fails when the buffer is shorter than it.
    pub fn parse(b: &[u8]) -> (r: Result<SecurityDescriptor, DecodeError>)
        ensures
            b@.len() < 20 <==> r is Err,
            r is Err ==> r == Err::<SecurityDescriptor, DecodeError>(DecodeError::MalformedBuffer),
            r matches Ok(d) ==> header_matches(d, b@),
    {
        if b.len() < HEADER_LEN {
            return Err(DecodeError::MalformedBuffer);
        }
        Ok(SecurityDescriptor {
            revision: b[0],
            control: read_u16_le(b, 2),
            offset_owner: read_u32_le(b, 4),
            offset_group: read_u32_le(b, 8),
            offset_sacl: read_u32_le(b, 12),
            offset_dacl: read_u32_le(b, 16),
        })
    }

    /// Whether the discretionary list is protected from inheritance.
    pub fn is_dacl_protected(&self) -> (r: bool)
        ensures
            r == (self.control & SE_DACL_PROTECTED != 0),
    {
        self.control & SE_DACL_PROTECTED != 0
    }

    /// Whether the system list is protected from inheritance.
    pub fn is_sacl_protected(&self) -> (r: bool)
        ensures
            r == (self.control & SE_SACL_PROTECTED != 0),
    {
        self.control & SE_SACL_PROTECTED != 0
    }
}

/// The kinds of entry that are understood.
#[derive(Clone, Copy, Debug, PartialEq, Eq)]
pub enum AceKind {
    Allow,
    Deny,
    Audit,
    AllowObject,
    DenyObject,
}

/// The kind that a type tag names, if it is understood.
pub open spec fn kind_of(t: u8) -> Option<AceKind> {
    if t == 0 {
        Some(AceKind::Allow)
    } else if t == 1 {
        Some(AceKind::Deny)
    } else if t == 2 {
        Some(AceKind::Audit)
    } else if t == 5 {
        Some(AceKind::AllowObject)
    } else if t == 6 {
        Some(AceKind::DenyObject)
    } else {
        None
    }
}

pub open spec fn is_object_tag(t: u8) -> bool {
    t == 5 || t == 6
}

/// The object flags of an object entry at `pos`.
pub open spec fn object_flags(b: Seq<u8>, pos: int) -> u32 {
    u32_le(b, pos + 8)
}

pub open spec fn has_object_type(b: Seq<u8>, pos: int) -> bool {
    is_object_tag(b[pos]) && object_flags(b, pos) & ACE_OBJECT_TYPE_PRESENT != 0
}

pub open spec fn has_inherited_object_type(b: Seq<u8>, pos: int) -> bool {
    is_object_tag(b[pos]) && object_flags(b, pos) & ACE_INHERITED_OBJECT_TYPE_PRESENT != 0
}

/// Where the inherited object type GUID of an object entry starts.
pub open spec fn inherited_guid_pos(b: Seq<u8>, pos: int) -> int {
    pos + 12 + if has_object_type(b, pos) { 16int } else { 0int }
}

/// Where the trustee of the entry at `pos` starts.
pub open spec fn trustee_pos(b: Seq<u8>, pos: int) -> int {
    if is_object_tag(b[pos]) {
        inherited_guid_pos(b, pos) + if has_inherited_object_type(b, pos) { 16int } else { 0int }
    } else {
        pos + 8
    }
}

/// Why the entry of `sz` bytes at `pos` cannot be decoded, if it cannot.
pub open spec fn ace_error(b: Seq<u8>, pos: int, sz: int) -> Option<DecodeError> {
    let tp = trustee_pos(b, pos);
    if kind_of(b[pos]) is None {
        Some(DecodeError::UnsupportedAceType)
    } else if sz < 8 {
        Some(DecodeError::MissingMask)
    } else if is_object_tag(b[pos]) && sz < 12 {
        Some(DecodeError::MalformedBuffer)
    } else if !(sid_fits(b, tp) && tp + sid_size(b, tp) <= pos + sz) {
        Some(DecodeError::MalformedBuffer)
    } else {
        None
    }
}

/// One decoded access control entry.
#[derive(Clone, Debug)]
pub struct Ace {
    pub kind: AceKind,
    pub flags: u8,
    pub mask: u32,
    pub object_type: Option<String>,
    pub inherited_object_type: Option<String>,
    pub trustee: Sid,
}

/// `a` holds what the well-formed entry at `pos` encodes.
pub open spec fn ace_matches(a: Ace, b: Seq<u8>, pos: int) -> bool {
    &&& kind_of(b[pos]) == Some(a.kind)
    &&& a.flags == b[pos + 1]
    &&& a.mask == u32_le(b, pos + 4)
    &&& a.trustee@ == sid_at(b, trustee_pos(b, pos))
    &&& a.trustee.wf()
    &&& match a.object_type {
        Some(g) => has_object_type(b, pos) && g@ == guid_text(b.subrange(pos + 12, pos + 28)),
        None => !has_object_type(b, pos),
    }
    &&& match a.inherited_object_type {
        Some(g) => has_inherited_object_type(b, pos) && g@ == guid_text(
            b.subrange(inherited_guid_pos(b, pos), inherited_guid_pos(b, pos) + 16),
        ),
        None => !has_inherited_object_type(b, pos),
    }
}

/// `r` is the outcome of decoding the entry of `sz` bytes at `pos`.
pub open spec fn ace_outcome(r: Result<Ace, DecodeError>, b: Seq<u8>, pos: int, sz: int) -> bool {
    match ace_error(b, pos, sz) {
        Some(e) => r == Err::<Ace, DecodeError>(e),
        None => r matches Ok(a) && ace_matches(a, b, pos),
    }
}

fn guid_at(b: &[u8], q: usize) -> (r: String)
    requires
        q + 16 <= b@.len(),
    ensures
        r@ == guid_text(b@.subrange(q as int, q + 16)),
{
    let end: usize = if b.len() - q > 16 { q + 16 } else { b.len() };
    match decode_guid_le(&b[q..end]) {
        Ok(s) => s,
        Err(_) => String::new(),
    }
}

/// Decodes the entry of `sz` bytes at `pos`: its header, its rights mask, the
/// object GUIDs of an object entry, and its trustee.
/// A range that does not lie in the buffer, or is shorter than an entry
/// header, is a malformed buffer.
pub fn decode_ace(b: &[u8], pos: usize, sz: usize) -> (r: Result<Ace, DecodeError>)
    ensures
        4 <= sz && pos + sz <= b@.len() ==> ace_outcome(r, b@, pos as int, sz as int),
        !(4 <= sz && pos + sz <= b@.len()) ==> r == Err::<Ace, DecodeError>(DecodeError::MalformedBuffer),
{
    if sz < 4 || pos > b.len() || sz > b.len() - pos {
        return Err(DecodeError::MalformedBuffer);
    }
    let t = b[pos];
    let kind = if t == 0 {
        AceKind::Allow
    } else if t == 1 {
        AceKind::Deny
    } else if t == 2 {
        AceKind::Audit
    } else if t == 5 {
        AceKind::AllowObject
    } else if t == 6 {
        AceKind::DenyObject
    } else {
        return Err(DecodeError::UnsupportedAceType);
    };
    if sz < 8 {
        return Err(DecodeError::MissingMask);
    }
    let mask = read_u32_le(b, pos + 4);
    let end = pos + sz;
    let mut q: usize = pos + 8;
    let mut object_type: Option<String> = None;
    let mut inherited_object_type: Option<String> = None;
    if t == 5 || t == 6 {
        if sz < 12 {
            return Err(DecodeError::MalformedBuffer);
        }
        let f = read_u32_le(b, pos + 8);
        q = pos + 12;
        if f & ACE_OBJECT_TYPE_PRESENT != 0 {
            if end - q < 16 {
                return Err(DecodeError::MalformedBuffer);
            }
            object_type = Some(guid_at(b, q));
            q = q + 16;
        }
        assert(q == inherited_guid_pos(b@, pos as int));
        if f & ACE_INHERITED_OBJECT_TYPE_PRESENT != 0 {
            if end - q < 16 {
                return Err(DecodeError::MalformedBuffer);
            }
            inherited_object_type = Some(guid_at(b, q));
            q = q + 16;
        }
    }
    assert(q == trustee_pos(b@, pos as int));
    match decode_sid(b, q) {
        Err(_) => Err(DecodeError::MalformedBuffer),
        Ok((trustee, n)) => {
            if n > end - q {
                Err(DecodeError::MalformedBuffer)
            } else {
                Ok(Ace { kind, flags: b[pos + 1], mask, object_type, inherited_object_type, trustee })
            }
        },
    }
}

/// The entries of an access control list: at most `left` of them from `pos`,
/// each as its offset and self-declared length, stopping at the first whose
/// header or declared length does not fit before `end`.
pub open spec fn ace_slices(b: Seq<u8>, pos: int, end: int, left: nat) -> Seq<(int, int)>
    decreases left,
{
    if left == 0 || pos + 4 > end {
        Seq::empty()
    } else {
        let sz = u16_le(b, pos + 2) as int;
        if sz < 4 || pos + sz > end {
            Seq::empty()
        } else {
            seq![(pos, sz)] + ace_slices(b, pos + sz, end, (left - 1) as nat)
        }
    }
}

/// Where the entries of the list at `off` end: its declared end, or the
/// buffer's end if that comes first.
pub open spec fn acl_end(b: Seq<u8>, off: int) -> int {
    let declared = off + u16_le(b, off + 2) as int;
    if declared < b.len() { declared } else { b.len() as int }
}

/// The entries of the list whose header is at `off`.
pub open spec fn acl_slices(b: Seq<u8>, off: int) -> Seq<(int, int)> {
    ace_slices(b, off + 8, acl_end(b, off), u16_le(b, off + 4) as nat)
}

/// An access control list: its header and the outcome of decoding each entry,
/// in stored order.
#[derive(Clone, Debug)]
pub struct Acl {
    pub revision: u8,
    pub size: u16,
    pub ace_count: u16,
    pub entries: Vec<Result<Ace, DecodeError>>,
}

/// `entries` holds the outcome of decoding each of `slices`, in order.
pub open spec fn entries_match(entries: Seq<Result<Ace, DecodeError>>, b: Seq<u8>, slices: Seq<(int, int)>) -> bool {
    &&& entries.len() == slices.len()
    &&& forall|k: int| 0 <= k < slices.len() ==> ace_outcome(#[trigger] entries[k], b, slices[k].0, slices[k].1)
        && 0 <= slices[k].0 && 4 <= slices[k].1 && slices[k].0 + slices[k].1 <= b.len()
}

pub(crate) proof fn lemma_ace_slices_bounds(b: Seq<u8>, pos: int, end: int, left: nat)
    requires
        0 <= pos,
        end <= b.len(),
    ensures
        forall|k: int| 0 <= k < ace_slices(b, pos, end, left).len() ==> {
            let s = #[trigger] ace_slices(b, pos, end, left)[k];
            pos <= s.0 && 4 <= s.1 && s.0 + s.1 <= end
        },
    decreases left,
{
    if left > 0 && pos + 4 <= end {
        let sz = u16_le(b, pos + 2) as int;
        if sz >= 4 && pos + sz <= end {
            lemma_ace_slices_bounds(b, pos + sz, end, (left - 1) as nat);
            let rest = ace_slices(b, pos + sz, end, (left - 1) as nat);
            assert forall|k: int| 0 <= k < ace_slices(b, pos, end, left).len() implies {
                let s = #[trigger] ace_slices(b, pos, end, left)[k];
                pos <= s.0 && 4 <= s.1 && s.0 + s.1 <= end
            } by {
                if k > 0 {
                    assert(ace_slices(b, pos, end, left)[k] == rest[k - 1]);
                }
            }
        }
    }
}

impl Acl {
    /// Reads the list whose header is at `off`, then decodes up to the declared
    /// number of entries, each over its own declared length. An entry that
    /// cannot be decoded is recorded as such and the next one is read; the
    /// walk stops at an entry that would run past the list's end.
    pub fn parse(b: &[u8], off: usize) -> (r: Result<Acl, DecodeError>)
        ensures
            off + 8 > b@.len() <==> r is Err,
            r is Err ==> r == Err::<Acl, DecodeError>(DecodeError::MalformedBuffer),
            r matches Ok(acl) ==> {
                &&& acl.revision == b@[off as int]
                &&& acl.size == u16_le(b@, off + 2)
                &&& acl.ace_count == u16_le(b@, off + 4)
                &&& entries_match(acl.entries@, b@, acl_slices(b@, off as int))
            },
    {
        if off > b.len() || b.len() - off < 8 {
            return Err(DecodeError::MalformedBuffer);
        }
        let revision = b[off];
        let size = read_u16_le(b, off + 2);
        let ace_count = read_u16_le(b, off + 4);
        let end: usize = if (size as usize) < b.len() - off { off + size as usize } else { b.len() };
        assert(end == acl_end(b@, off as int));
        let ghost all = acl_slices(b@, off as int);
        let mut entries: Vec<Result<Ace, DecodeError>> = Vec::new();
        let mut pos: usize = off + 8;
        let mut k: u16 = 0;
        let ghost done: Seq<(int, int)> = Seq::empty();
        proof {
            lemma_ace_slices_bounds(b@, off + 8, end as int, ace_count as nat);
        }
        while k < ace_count
            invariant
                end <= b@.len(),
                k <= ace_count,
                all == done + ace_slices(b@, pos as int, end as int, (ace_count - k) as nat),
                entries_match(entries@, b@, done),
                off + 8 <= pos <= end || ace_slices(b@, pos as int, end as int, (ace_count - k) as nat) == Seq::<(int, int)>::empty(),
            ensures
                ace_slices(b@, pos as int, end as int, (ace_count - k) as nat) == Seq::<(int, int)>::empty(),
                entries_match(entries@, b@, done),
                all == done + ace_slices(b@, pos as int, end as int, (ace_count - k) as nat),
            decreases ace_count - k,
        {
            if pos > end || end - pos < 4 {
                break;
            }
            let sz = read_u16_le(b, pos + 2) as usize;
            if sz < 4 || sz > end - pos {
                break;
            }
            let e = decode_ace(b, pos, sz);
            let ghost prev = entries@;
            entries.push(e);
            proof {
                let left = (ace_count - k) as nat;
                assert(ace_slices(b@, pos as int, end as int, left) == seq![(pos as int, sz as int)]
                    + ace_slices(b@, pos + sz, end as int, (left - 1) as nat));
                let nd = done.push((pos as int, sz as int));
                assert(all =~= nd + ace_slices(b@, pos + sz, end as int, (left - 1) as nat));
                assert forall|j: int| 0 <= j < nd.len() implies ace_outcome(
                    #[trigger] entries@[j], b@, nd[j].0, nd[j].1)
                    && 0 <= nd[j].0 && 4 <= nd[j].1 && nd[j].0 + nd[j].1 <= b@.len() by {
                    if j < done.len() {
                        assert(entries@[j] == prev[j]);
                    }
                }
                done = nd;
            }
            pos = pos + sz;
            k = k + 1;
        }
        assert(all =~= done);
        Ok(Acl { revision, size, ace_count, entries })
    }
}

/// The walk over a list goes past every entry whose declared length fits,
/// whatever that entry holds: an entry that cannot be decoded keeps its place
/// and the entries after it are read from where its declared length ends.
pub proof fn lemma_walk_continues(b: Seq<u8>, pos: int, end: int, left: nat)
    requires
        left > 0,
        pos + 4 <= end,
        4 <= u16_le(b, pos + 2),
        pos + u16_le(b, pos + 2) <= end,
    ensures
        ace_slices(b, pos, end, left) == seq![(pos, u16_le(b, pos + 2) as int)] + ace_slices(
            b,
            pos + u16_le(b, pos + 2),
            end,
            (left - 1) as nat,
        ),
{
}

pub(crate) proof fn lemma_ace_slices_ordered(b: Seq<u8>, pos: int, end: int, left: nat)
    requires
        0 <= pos,
        end <= b.len(),
    ensures
        forall|i: int, k: int| 0 <= i < k < ace_slices(b, pos, end, left).len() ==>
            #[trigger] ace_slices(b, pos, end, left)[i].0 + ace_slices(b, pos, end, left)[i].1
                <= #[trigger] ace_slices(b, pos, end, left)[k].0,
    decreases left,
{
    if left > 0 && pos + 4 <= end {
        let sz = u16_le(b, pos + 2) as int;
        if sz >= 4 && pos + sz <= end {
            let all = ace_slices(b, pos, end, left);
            let rest = ace_slices(b, pos + sz, end, (left - 1) as nat);
            lemma_ace_slices_ordered(b, pos + sz, end, (left - 1) as nat);
            lemma_ace_slices_bounds(b, pos + sz, end, (left - 1) as nat);
            assert forall|i: int, k: int| 0 <= i < k < all.len() implies
                #[trigger] all[i].0 + all[i].1 <= #[trigger] all[k].0 by {
                assert(all[k] == rest[k - 1]);
                if i > 0 {
                    assert(all[i] == rest[i - 1]);
                } else {
                    let s = rest[k - 1];
                    assert(pos + sz <= s.0);
                }
            }
        }
    }
}

} // verus!
