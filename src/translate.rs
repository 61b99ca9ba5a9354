//! From a security descriptor to access-control edges, to the Certificate
//! Authority rights among them, and to the computer that hosts the authority.

use vstd::prelude::*;
use crate::bytes::{u16_le, u32_le, u48_be};
use crate::descriptor::{Ace, AceKind, Acl, SecurityDescriptor, INHERITED_ACE, SE_DACL_PROTECTED,
    acl_end, acl_slices, ace_error, ace_outcome, entries_match, has_object_type, is_object_tag, kind_of,
    lemma_ace_slices_bounds, lemma_ace_slices_ordered, trustee_pos};
use crate::error::DecodeError;
use crate::guid::guid_text;
use crate::rights::{Right, MANAGE_CERTIFICATES, contains_all, entry_rights, holds, is_ca_right,
    rights_for_entry};
use crate::sid::{qualified_text, rid_of, sid_at, sid_fits, sid_size, sid_text};

verus! {

/// One access-control edge: a principal holds (or is denied) a set of rights.
#[derive(Clone, Debug)]
pub struct AccessEdge {
    /// The trustee, as its domain-qualified identifier text.
    pub principal: String,
    pub rights: Vec<Right>,
    pub inherited: bool,
    /// The position of the entry in the discretionary list.
    pub ordinal: usize,
    /// An allow entry rather than a deny entry.
    pub granted: bool,
    /// The kind of the object that the descriptor protects.
    pub object_kind: String,
}

/// The plain values of an edge.
pub struct EdgeModel {
    pub principal: Seq<char>,
    pub rights: Seq<Right>,
    pub inherited: bool,
    pub ordinal: int,
    pub granted: bool,
    pub object_kind: Seq<char>,
}

impl View for AccessEdge {
    type V = EdgeModel;

    open spec fn view(&self) -> EdgeModel {
        EdgeModel {
            principal: self.principal@,
            rights: self.rights@,
            inherited: self.inherited,
            ordinal: self.ordinal as int,
            granted: self.granted,
            object_kind: self.object_kind@,
        }
    }
}

pub open spec fn edges_view(v: Seq<AccessEdge>) -> Seq<EdgeModel> {
    v.map_values(|e: AccessEdge| e@)
}

/// Whether the descriptor names a discretionary list that has a header in the buffer.
pub open spec fn has_dacl(b: Seq<u8>) -> bool {
    b.len() >= 20 && u32_le(b, 16) != 0 && u32_le(b, 16) + 8 <= b.len()
}

/// The entries of the descriptor's discretionary list; none when it has none.
pub open spec fn dacl_slices(b: Seq<u8>) -> Seq<(int, int)> {
    if has_dacl(b) {
        acl_slices(b, u32_le(b, 16) as int)
    } else {
        Seq::empty()
    }
}

/// The discretionary list is protected from inheritance.
pub open spec fn acl_protected(b: Seq<u8>) -> bool {
    u16_le(b, 2) & SE_DACL_PROTECTED != 0
}

/// Reads the outcome of decoding each entry of the discretionary list, in
/// order; nothing when the header is short or the list is absent or out of range.
pub fn dacl_entries(b: &[u8]) -> (r: Vec<Result<Ace, DecodeError>>)
    ensures
        entries_match(r@, b@, dacl_slices(b@)),
{
    let d = match SecurityDescriptor::parse(b) {
        Ok(d) => d,
        Err(_) => return Vec::new(),
    };
    if d.offset_dacl == 0 {
        return Vec::new();
    }
    match Acl::parse(b, d.offset_dacl as usize) {
        Ok(acl) => acl.entries,
        Err(_) => Vec::new(),
    }
}

/// Allow and deny entries become edges; audit entries do not.
pub open spec fn is_edge_tag(t: u8) -> bool {
    t == 0 || t == 1 || t == 5 || t == 6
}

pub open spec fn is_allow_tag(t: u8) -> bool {
    t == 0 || t == 5
}

/// The object type of the entry at `pos`, as text, if it has one.
pub open spec fn object_type_at(b: Seq<u8>, pos: int) -> Option<Seq<char>> {
    if has_object_type(b, pos) {
        Some(guid_text(b.subrange(pos + 12, pos + 28)))
    } else {
        None
    }
}

/// The edge that the well-formed entry at `pos`, the `ordinal`-th of the list, gives.
pub open spec fn edge_at(b: Seq<u8>, domain: Seq<char>, kind: Seq<char>, pos: int, ordinal: int) -> EdgeModel {
    EdgeModel {
        principal: qualified_text(domain, sid_text(sid_at(b, trustee_pos(b, pos)))),
        rights: entry_rights(u32_le(b, pos + 4), object_type_at(b, pos)),
        inherited: b[pos + 1] & INHERITED_ACE != 0,
        ordinal,
        granted: is_allow_tag(b[pos]),
        object_kind: kind,
    }
}

/// The edges of the entries `slices`, in order, each tagged with its position.
pub open spec fn edges_of(b: Seq<u8>, domain: Seq<char>, kind: Seq<char>, slices: Seq<(int, int)>) -> Seq<EdgeModel>
    decreases slices.len(),
{
    if slices.len() == 0 {
        Seq::empty()
    } else {
        let init = edges_of(b, domain, kind, slices.drop_last());
        let s = slices.last();
        if ace_error(b, s.0, s.1) is None && is_edge_tag(b[s.0]) {
            init.push(edge_at(b, domain, kind, s.0, slices.len() - 1))
        } else {
            init
        }
    }
}

/// The edges of a descriptor together with its protection flag.
#[derive(Clone, Debug)]
pub struct Translation {
    pub edges: Vec<AccessEdge>,
    pub acl_protected: bool,
}

/// The edge of a decoded allow or deny entry at position `ordinal`.
fn edge_from_ace(a: &Ace, ordinal: usize, domain: &str, object_kind: &str) -> (e: AccessEdge)
    ensures
        e.principal@ == qualified_text(domain@, sid_text(a.trustee@)),
        e.rights@ == entry_rights(a.mask, match a.object_type {
            Some(g) => Some(g@),
            None => None,
        }),
        e.inherited == (a.flags & INHERITED_ACE != 0),
        e.ordinal == ordinal,
        e.granted == (a.kind == AceKind::Allow || a.kind == AceKind::AllowObject),
        e.object_kind@ == object_kind@,
{
    AccessEdge {
        principal: a.trustee.qualified(domain),
        rights: rights_for_entry(a.mask, &a.object_type),
        inherited: a.flags & INHERITED_ACE != 0,
        ordinal,
        granted: match a.kind {
            AceKind::Allow | AceKind::AllowObject => true,
            _ => false,
        },
        object_kind: String::from_str(object_kind),
    }
}

/// Turns a security descriptor into the ordered edges of its discretionary
/// list, and reports whether that list is protected. Only a buffer too short
/// for the descriptor header fails; an absent or unreadable list gives no edges.
pub fn translate(b: &[u8], domain: &str, object_kind: &str) -> (r: Result<Translation, DecodeError>)
    ensures
        b@.len() < 20 <==> r is Err,
        r is Err ==> r == Err::<Translation, DecodeError>(DecodeError::MalformedBuffer),
        r matches Ok(t) ==> {
            &&& edges_view(t.edges@) == edges_of(b@, domain@, object_kind@, dacl_slices(b@))
            &&& t.acl_protected == acl_protected(b@)
        },
{
    let d = match SecurityDescriptor::parse(b) {
        Ok(d) => d,
        Err(e) => return Err(e),
    };
    let entries = dacl_entries(b);
    let ghost slices = dacl_slices(b@);
    let mut edges: Vec<AccessEdge> = Vec::new();
    let mut k: usize = 0;
    while k < entries.len()
        invariant
            k <= entries@.len(),
            entries_match(entries@, b@, slices),
            edges_view(edges@) == edges_of(b@, domain@, object_kind@, slices.subrange(0, k as int)),
        decreases entries@.len() - k,
    {
        let ghost s = slices[k as int];
        proof {
            let p = slices.subrange(0, k as int + 1);
            assert(p.drop_last() =~= slices.subrange(0, k as int));
            assert(p.last() == s);
            assert(ace_outcome(entries@[k as int], b@, s.0, s.1));
        }
        let ghost before = edges@;
        match &entries[k] {
            Ok(a) => {
                let is_edge = match a.kind {
                    AceKind::Audit => false,
                    _ => true,
                };
                if is_edge {
                    let e = edge_from_ace(a, k, domain, object_kind);
                    edges.push(e);
                    proof {
                        assert(ace_error(b@, s.0, s.1) is None);
                        assert(e@ == edge_at(b@, domain@, object_kind@, s.0, k as int));
                        assert(is_edge_tag(b@[s.0]));
                        assert(edges@ == before.push(e));
                        assert(edges_view(edges@) =~= edges_view(before).push(e@));
                        assert(edges_view(edges@) =~= edges_of(b@, domain@, object_kind@, slices.subrange(0, k as int + 1)));
                    }
                } else {
                    assert(edges_view(edges@) =~= edges_of(b@, domain@, object_kind@, slices.subrange(0, k as int + 1)));
                }
            },
            Err(_) => {
                assert(edges_view(edges@) =~= edges_of(b@, domain@, object_kind@, slices.subrange(0, k as int + 1)));
            },
        }
        k = k + 1;
    }
    assert(slices.subrange(0, entries@.len() as int) =~= slices);
    Ok(Translation { edges, acl_protected: d.is_dacl_protected() })
}

/// The relative identifiers of Administrators, Enterprise Admins and Domain
/// Admins: groups that hold certificate management without hosting the service.
pub open spec fn is_blacklisted(rid: Option<u32>) -> bool {
    rid == Some(544u32) || rid == Some(519u32) || rid == Some(512u32)
}

/// The entry `s` allows certificate management to a principal that is not blacklisted.
pub open spec fn hosts(b: Seq<u8>, s: (int, int)) -> bool {
    &&& ace_error(b, s.0, s.1) is None
    &&& b[s.0] == 0
    &&& holds(u32_le(b, s.0 + 4), MANAGE_CERTIFICATES)
    &&& !is_blacklisted(rid_of(sid_at(b, trustee_pos(b, s.0))))
}

/// The value that stands for "no hosting computer".
pub open spec fn not_found() -> Seq<char> {
    "Not found"@
}

/// The principal of the first entry, in stored order, that `hosts`; the
/// sentinel when there is none.
pub open spec fn hosting_of(b: Seq<u8>, domain: Seq<char>, slices: Seq<(int, int)>) -> Seq<char>
    decreases slices.len(),
{
    if slices.len() == 0 {
        not_found()
    } else if hosts(b, slices[0]) {
        qualified_text(domain, sid_text(sid_at(b, trustee_pos(b, slices[0].0))))
    } else {
        hosting_of(b, domain, slices.drop_first())
    }
}

fn is_blacklisted_sid(rid: Option<u32>) -> (r: bool)
    ensures
        r == is_blacklisted(rid),
{
    match rid {
        Some(x) => x == 544 || x == 519 || x == 512,
        None => false,
    }
}

/// The computer that most likely hosts the authority: the trustee of the first
/// allow entry, in stored order, that grants certificate management to a
/// principal outside the blacklist; "Not found" when no entry does.
pub fn hosting_computer(b: &[u8], domain: &str) -> (r: String)
    ensures
        r@ == hosting_of(b@, domain@, dacl_slices(b@)),
{
    let entries = dacl_entries(b);
    let ghost slices = dacl_slices(b@);
    let mut k: usize = 0;
    assert(slices.subrange(0, slices.len() as int) =~= slices);
    while k < entries.len()
        invariant
            k <= entries@.len(),
            entries_match(entries@, b@, slices),
            slices == dacl_slices(b@),
            hosting_of(b@, domain@, slices) == hosting_of(b@, domain@, slices.subrange(k as int, slices.len() as int)),
        decreases entries@.len() - k,
    {
        let ghost rest = slices.subrange(k as int, slices.len() as int);
        let ghost s = slices[k as int];
        proof {
            assert(rest[0] == s);
            assert(rest.drop_first() =~= slices.subrange(k as int + 1, slices.len() as int));
            assert(ace_outcome(entries@[k as int], b@, s.0, s.1));
        }
        if let Ok(a) = &entries[k] {
            let is_allow = match a.kind {
                AceKind::Allow => true,
                _ => false,
            };
            if is_allow && contains_all(a.mask, MANAGE_CERTIFICATES) && !is_blacklisted_sid(a.trustee.rid()) {
                assert(hosts(b@, s));
                let r = a.trustee.qualified(domain);
                assert(rest.len() > 0);
                assert(r@ == hosting_of(b@, domain@, rest));
                return r;
            }
        }
        k = k + 1;
    }
    proof { reveal_strlit("Not found"); }
    String::from_str("Not found")
}

/// Keeps the rights of Certificate Authority security.
pub open spec fn ca_rights(rs: Seq<Right>) -> Seq<Right> {
    rs.filter(|r: Right| is_ca_right(r))
}

/// The edges that carry a Certificate Authority right, each restricted to those rights.
pub open spec fn ca_edges(edges: Seq<EdgeModel>) -> Seq<EdgeModel>
    decreases edges.len(),
{
    if edges.len() == 0 {
        Seq::empty()
    } else {
        let init = ca_edges(edges.drop_last());
        let e = edges.last();
        if ca_rights(e.rights).len() > 0 {
            init.push(EdgeModel {
                principal: e.principal,
                rights: ca_rights(e.rights),
                inherited: e.inherited,
                ordinal: e.ordinal,
                granted: e.granted,
                object_kind: e.object_kind,
            })
        } else {
            init
        }
    }
}

fn is_ca_right_exec(r: Right) -> (b: bool)
    ensures
        b == is_ca_right(r),
{
    match r {
        Right::ManageCa | Right::ManageCertificates | Right::Enroll | Right::AutoEnroll => true,
        _ => false,
    }
}

fn ca_rights_of(rs: &Vec<Right>) -> (v: Vec<Right>)
    ensures
        v@ == ca_rights(rs@),
{
    let mut v: Vec<Right> = Vec::new();
    let mut i: usize = 0;
    while i < rs.len()
        invariant
            i <= rs@.len(),
            v@ == ca_rights(rs@.subrange(0, i as int)),
        decreases rs@.len() - i,
    {
        proof {
            let p = rs@.subrange(0, i as int + 1);
            assert(p.drop_last() =~= rs@.subrange(0, i as int));
            reveal(Seq::filter);
        }
        if is_ca_right_exec(rs[i]) {
            v.push(rs[i]);
        }
        i = i + 1;
    }
    assert(rs@.subrange(0, i as int) =~= rs@);
    v
}

/// The edges of the descriptor that carry Certificate Authority rights
/// (manage the authority, manage certificates, enroll, auto-enroll), each
/// restricted to those rights, in stored order.
pub fn ca_security_edges(b: &[u8], domain: &str, object_kind: &str) -> (r: Vec<AccessEdge>)
    ensures
        edges_view(r@) == ca_edges(edges_of(b@, domain@, object_kind@, dacl_slices(b@))),
{
    let all = match translate(b, domain, object_kind) {
        Ok(t) => t.edges,
        Err(_) => Vec::new(),
    };
    let ghost model = edges_of(b@, domain@, object_kind@, dacl_slices(b@));
    assert(edges_view(all@) == model) by {
        if b@.len() < 20 {
            assert(dacl_slices(b@) =~= Seq::<(int, int)>::empty());
            assert(edges_view(all@) =~= Seq::<EdgeModel>::empty());
        }
    }
    let mut r: Vec<AccessEdge> = Vec::new();
    let mut i: usize = 0;
    while i < all.len()
        invariant
            i <= all@.len(),
            edges_view(all@) == model,
            edges_view(r@) == ca_edges(model.subrange(0, i as int)),
        decreases all@.len() - i,
    {
        proof {
            let p = model.subrange(0, i as int + 1);
            assert(p.drop_last() =~= model.subrange(0, i as int));
            assert(p.last() == all@[i as int]@);
        }
        let e = &all[i];
        let rights = ca_rights_of(&e.rights);
        if rights.len() > 0 {
            let ghost before = r@;
            r.push(AccessEdge {
                principal: e.principal.clone(),
                rights,
                inherited: e.inherited,
                ordinal: e.ordinal,
                granted: e.granted,
                object_kind: e.object_kind.clone(),
            });
            assert(edges_view(r@) =~= edges_view(before).push(r@.last()@));
        }
        assert(edges_view(r@) =~= ca_edges(model.subrange(0, i as int + 1)));
        i = i + 1;
    }
    assert(model.subrange(0, i as int) =~= model);
    r
}

proof fn lemma_no_host_in(b: Seq<u8>, domain: Seq<char>, slices: Seq<(int, int)>)
    requires
        forall|k: int| 0 <= k < slices.len() ==> !hosts(b, #[trigger] slices[k]),
    ensures
        hosting_of(b, domain, slices) == not_found(),
    decreases slices.len(),
{
    if slices.len() > 0 {
        let rest = slices.drop_first();
        assert forall|k: int| 0 <= k < rest.len() implies !hosts(b, #[trigger] rest[k]) by {
            assert(rest[k] == slices[k + 1]);
        }
        lemma_no_host_in(b, domain, rest);
    }
}

/// When no entry of the discretionary list allows certificate management to
/// a principal outside the blacklist (none grants it, or every grantee is
/// blacklisted), the hosting computer is the "Not found" sentinel.
pub proof fn lemma_no_candidate_not_found(b: Seq<u8>, domain: Seq<char>)
    requires
        forall|k: int| 0 <= k < dacl_slices(b).len() ==> !hosts(b, #[trigger] dacl_slices(b)[k]),
    ensures
        hosting_of(b, domain, dacl_slices(b)) == not_found(),
{
    lemma_no_host_in(b, domain, dacl_slices(b));
}

/// A descriptor whose discretionary list offset is zero has no entries, so
/// it gives no edges and no Certificate Authority rights.
pub proof fn lemma_no_dacl_no_edges(b: Seq<u8>, domain: Seq<char>, kind: Seq<char>)
    requires
        b.len() < 20 || u32_le(b, 16) == 0,
    ensures
        edges_of(b, domain, kind, dacl_slices(b)).len() == 0,
        ca_edges(edges_of(b, domain, kind, dacl_slices(b))).len() == 0,
{
    assert(dacl_slices(b).len() == 0);
    assert(edges_of(b, domain, kind, dacl_slices(b)).len() == 0);
}

proof fn lemma_entry_local(b1: Seq<u8>, b2: Seq<u8>, domain: Seq<char>, kind: Seq<char>, pos: int, sz: int, ordinal: int)
    requires
        b1.len() == b2.len(),
        0 <= pos,
        4 <= sz,
        pos + sz <= b1.len(),
        forall|i: int| pos <= i < pos + sz ==> b1[i] == b2[i],
    ensures
        ace_error(b1, pos, sz) == ace_error(b2, pos, sz),
        is_edge_tag(b1[pos]) == is_edge_tag(b2[pos]),
        ace_error(b1, pos, sz) is None ==> edge_at(b1, domain, kind, pos, ordinal) == edge_at(b2, domain, kind, pos, ordinal),
{
    assert(b1[pos] == b2[pos]);
    if kind_of(b1[pos]) is Some && sz >= 8 && !(is_object_tag(b1[pos]) && sz < 12) {
        assert(u32_le(b1, pos + 4) == u32_le(b2, pos + 4));
        assert(b1[pos + 1] == b2[pos + 1]);
        if is_object_tag(b1[pos]) {
            assert(u32_le(b1, pos + 8) == u32_le(b2, pos + 8));
        }
        let tp = trustee_pos(b1, pos);
        assert(tp == trustee_pos(b2, pos));
        if tp + 8 <= pos + sz {
            assert(b1[tp + 1] == b2[tp + 1]);
            if sid_fits(b1, tp) && tp + sid_size(b1, tp) <= pos + sz {
                assert(b1[tp] == b2[tp]);
                assert(u48_be(b1, tp + 2) == u48_be(b2, tp + 2));
                assert forall|q: int| 0 <= q < b1[tp + 1] implies
                    #[trigger] u32_le(b1, tp + 8 + 4 * q) == u32_le(b2, tp + 8 + 4 * q) by {
                    assert(tp + 8 + 4 * q + 4 <= tp + sid_size(b1, tp));
                }
                assert(sid_at(b1, tp).2 =~= sid_at(b2, tp).2);
                if has_object_type(b1, pos) {
                    assert(b1.subrange(pos + 12, pos + 28) =~= b2.subrange(pos + 12, pos + 28));
                }
            }
        }
    }
}

proof fn lemma_edges_local(b1: Seq<u8>, b2: Seq<u8>, domain: Seq<char>, kind: Seq<char>, sl: Seq<(int, int)>, j: int)
    requires
        b1.len() == b2.len(),
        forall|k: int| 0 <= k < sl.len() ==> 0 <= (#[trigger] sl[k]).0 && 4 <= sl[k].1 && sl[k].0 + sl[k].1 <= b1.len(),
        forall|k: int, i: int| 0 <= k < sl.len() && k != j && (#[trigger] sl[k]).0 <= i < sl[k].0 + sl[k].1
            ==> #[trigger] b1[i] == b2[i],
        0 <= j < sl.len() ==> !(ace_error(b1, sl[j].0, sl[j].1) is None && is_edge_tag(b1[sl[j].0])),
        0 <= j < sl.len() ==> !(ace_error(b2, sl[j].0, sl[j].1) is None && is_edge_tag(b2[sl[j].0])),
    ensures
        edges_of(b1, domain, kind, sl) == edges_of(b2, domain, kind, sl),
    decreases sl.len(),
{
    if sl.len() > 0 {
        let init = sl.drop_last();
        let n = sl.len() - 1;
        assert forall|k: int| 0 <= k < init.len() implies 0 <= (#[trigger] init[k]).0 && 4 <= init[k].1
            && init[k].0 + init[k].1 <= b1.len() by {
            assert(init[k] == sl[k]);
        }
        assert forall|k: int, i: int| 0 <= k < init.len() && k != j && (#[trigger] init[k]).0 <= i < init[k].0 + init[k].1
            implies #[trigger] b1[i] == b2[i] by {
            assert(init[k] == sl[k]);
        }
        if 0 <= j < init.len() {
            assert(init[j] == sl[j]);
        }
        lemma_edges_local(b1, b2, domain, kind, init, j);
        let s = sl[n];
        assert(sl.last() == s);
        if n != j {
            assert forall|i: int| s.0 <= i < s.0 + s.1 implies b1[i] == b2[i] by {
                assert(sl[n] == s);
            }
            lemma_entry_local(b1, b2, domain, kind, s.0, s.1, n);
        }
    }
}

/// One entry that cannot be decoded hides nothing else: the edges of a
/// descriptor whose entry `j` is corrupted equal those of the same descriptor
/// with that entry replaced by a well-formed entry of the same size that
/// gives no edge (such as an audit entry), entry for entry and in order.
pub proof fn lemma_corrupted_entry_isolated(b1: Seq<u8>, b2: Seq<u8>, domain: Seq<char>, kind: Seq<char>, j: int)
    requires
        b1.len() == b2.len(),
        dacl_slices(b1) == dacl_slices(b2),
        0 <= j < dacl_slices(b1).len(),
        forall|i: int| 0 <= i < b1.len() && !(dacl_slices(b1)[j].0 <= i < dacl_slices(b1)[j].0 + dacl_slices(b1)[j].1)
            ==> b1[i] == b2[i],
        ace_error(b1, dacl_slices(b1)[j].0, dacl_slices(b1)[j].1) is Some,
        ace_error(b2, dacl_slices(b1)[j].0, dacl_slices(b1)[j].1) is None,
        !is_edge_tag(b2[dacl_slices(b1)[j].0]),
    ensures
        edges_of(b1, domain, kind, dacl_slices(b1)) == edges_of(b2, domain, kind, dacl_slices(b2)),
{
    let sl = dacl_slices(b1);
    let off = u32_le(b1, 16) as int;
    lemma_ace_slices_bounds(b1, off + 8, acl_end(b1, off), u16_le(b1, off + 4) as nat);
    lemma_ace_slices_ordered(b1, off + 8, acl_end(b1, off), u16_le(b1, off + 4) as nat);
    let sj = sl[j];
    assert forall|k: int, i: int| 0 <= k < sl.len() && k != j && (#[trigger] sl[k]).0 <= i < sl[k].0 + sl[k].1
        implies #[trigger] b1[i] == b2[i] by {
        if k < j {
            assert(sl[k].0 + sl[k].1 <= sj.0);
        } else {
            assert(sj.0 + sj.1 <= sl[k].0);
        }
    }
    lemma_edges_local(b1, b2, domain, kind, sl, j);
}

} // verus!
