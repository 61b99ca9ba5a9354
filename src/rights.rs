//! The access-right bits that matter for directory and Certificate Authority
//! security, and the containment test between masks.

use vstd::prelude::*;

verus! {

/// Full control over a directory object.
pub const FULL_CONTROL: u32 = 0x000F_01FF;
/// Generic all.
pub const GENERIC_ALL: u32 = 0x1000_0000;
/// Generic write.
pub const GENERIC_WRITE: u32 = 0x4000_0000;
/// Write of the discretionary access control list.
pub const WRITE_DACL: u32 = 0x0004_0000;
/// Change of the owner.
pub const WRITE_OWNER: u32 = 0x0008_0000;
/// Management of the Certificate Authority.
pub const MANAGE_CA: u32 = 0x0000_0001;
/// Management of certificates (certificate officer).
pub const MANAGE_CERTIFICATES: u32 = 0x0000_0002;
/// Enrollment.
pub const ENROLL: u32 = 0x0000_0200;
/// Control access, the bit that carries extended rights such as auto-enrollment.
pub const CONTROL_ACCESS: u32 = 0x0000_0100;

/// A right is held when every bit of `required` is set in `observed`.
pub open spec fn holds(observed: u32, required: u32) -> bool {
    observed | required == observed
}

/// The containment test: `observed | required == observed`.
pub fn contains_all(observed: u32, required: u32) -> (r: bool)
    ensures
        r == holds(observed, required),
{
    (observed | required) == observed
}

/// The containment test agrees with the test that every required bit survives a mask.
pub proof fn lemma_holds_iff_and(observed: u32, required: u32)
    ensures
        holds(observed, required) <==> (observed & required == required),
{
    assert((observed | required == observed) <==> (observed & required == required))
        by (bit_vector);
}

/// A named right.
#[derive(Clone, Copy, Debug, PartialEq, Eq)]
pub enum Right {
    FullControl,
    GenericAll,
    GenericWrite,
    WriteDacl,
    WriteOwner,
    ManageCa,
    ManageCertificates,
    Enroll,
    AutoEnroll,
}

/// The mask bits that grant a right.
pub open spec fn right_mask(r: Right) -> u32 {
    match r {
        Right::FullControl => FULL_CONTROL,
        Right::GenericAll => GENERIC_ALL,
        Right::GenericWrite => GENERIC_WRITE,
        Right::WriteDacl => WRITE_DACL,
        Right::WriteOwner => WRITE_OWNER,
        Right::ManageCa => MANAGE_CA,
        Right::ManageCertificates => MANAGE_CERTIFICATES,
        Right::Enroll => ENROLL,
        Right::AutoEnroll => CONTROL_ACCESS,
    }
}

impl Right {
    /// The mask bits that grant this right.
    pub fn mask(&self) -> (m: u32)
        ensures
            m == right_mask(*self),
    {
        match self {
            Right::FullControl => FULL_CONTROL,
            Right::GenericAll => GENERIC_ALL,
            Right::GenericWrite => GENERIC_WRITE,
            Right::WriteDacl => WRITE_DACL,
            Right::WriteOwner => WRITE_OWNER,
            Right::ManageCa => MANAGE_CA,
            Right::ManageCertificates => MANAGE_CERTIFICATES,
            Right::Enroll => ENROLL,
            Right::AutoEnroll => CONTROL_ACCESS,
        }
    }

    /// The name under which the right appears on an edge.
    pub fn name(&self) -> (s: String)
        ensures
            s@ == right_name(*self),
    {
        match self {
            Right::FullControl => String::from_str("FullControl"),
            Right::GenericAll => String::from_str("GenericAll"),
            Right::GenericWrite => String::from_str("GenericWrite"),
            Right::WriteDacl => String::from_str("WriteDacl"),
            Right::WriteOwner => String::from_str("WriteOwner"),
            Right::ManageCa => String::from_str("ManageCA"),
            Right::ManageCertificates => String::from_str("ManageCertificates"),
            Right::Enroll => String::from_str("Enroll"),
            Right::AutoEnroll => String::from_str("AutoEnroll"),
        }
    }
}

/// The name under which a right appears on an edge.
pub open spec fn right_name(r: Right) -> Seq<char> {
    match r {
        Right::FullControl => "FullControl"@,
        Right::GenericAll => "GenericAll"@,
        Right::GenericWrite => "GenericWrite"@,
        Right::WriteDacl => "WriteDacl"@,
        Right::WriteOwner => "WriteOwner"@,
        Right::ManageCa => "ManageCA"@,
        Right::ManageCertificates => "ManageCertificates"@,
        Right::Enroll => "Enroll"@,
        Right::AutoEnroll => "AutoEnroll"@,
    }
}

/// Every right that a mask grants alone, in the order in which an edge lists them.
pub open spec fn all_rights() -> Seq<Right> {
    seq![
        Right::FullControl, Right::GenericAll, Right::GenericWrite, Right::WriteDacl,
        Right::WriteOwner, Right::ManageCa, Right::ManageCertificates, Right::Enroll,
    ]
}

/// The rights that belong to Certificate Authority security.
pub open spec fn is_ca_right(r: Right) -> bool {
    r == Right::ManageCa || r == Right::ManageCertificates || r == Right::Enroll
        || r == Right::AutoEnroll
}

/// The named rights held under `mask`, in the order of `all_rights`.
pub open spec fn rights_of(mask: u32) -> Seq<Right> {
    all_rights().filter(|r: Right| holds(mask, right_mask(r)))
}

/// The named rights that `mask` grants alone, in a fixed order.
pub fn rights_from_mask(mask: u32) -> (v: Vec<Right>)
    ensures
        v@ == rights_of(mask),
{
    let all = vec![
        Right::FullControl, Right::GenericAll, Right::GenericWrite, Right::WriteDacl,
        Right::WriteOwner, Right::ManageCa, Right::ManageCertificates, Right::Enroll,
    ];
    assert(all@ =~= all_rights());
    let mut v: Vec<Right> = Vec::new();
    let mut i: usize = 0;
    while i < all.len()
        invariant
            all@ == all_rights(),
            i <= all@.len(),
            v@ == all_rights().subrange(0, i as int).filter(|r: Right| holds(mask, right_mask(r))),
        decreases all@.len() - i,
    {
        let r = all[i];
        proof {
            let p = all_rights().subrange(0, i as int + 1);
            assert(p.drop_last() =~= all_rights().subrange(0, i as int));
            reveal(Seq::filter);
        }
        if contains_all(mask, r.mask()) {
            v.push(r);
        }
        i = i + 1;
    }
    assert(all_rights().subrange(0, all@.len() as int) =~= all_rights());
    v
}

/// The extended right that enrolls a certificate automatically.
pub open spec fn auto_enroll_guid() -> Seq<char> {
    "A05B8CC2-17BC-4802-A710-E7C15AB866A2"@
}

/// The rights that an entry grants: those of its mask, then auto-enrollment
/// when the mask carries control access for the auto-enrollment object type.
pub open spec fn entry_rights(mask: u32, object_type: Option<Seq<char>>) -> Seq<Right> {
    if holds(mask, CONTROL_ACCESS) && object_type == Some(auto_enroll_guid()) {
        rights_of(mask).push(Right::AutoEnroll)
    } else {
        rights_of(mask)
    }
}

/// The rights that an entry with this mask and object type grants.
pub fn rights_for_entry(mask: u32, object_type: &Option<String>) -> (v: Vec<Right>)
    ensures
        v@ == entry_rights(mask, match object_type {
            Some(g) => Some(g@),
            None => None,
        }),
{
    let mut v = rights_from_mask(mask);
    if contains_all(mask, CONTROL_ACCESS) {
        if let Some(g) = object_type {
            let auto = String::from_str("A05B8CC2-17BC-4802-A710-E7C15AB866A2");
            proof { reveal_strlit("A05B8CC2-17BC-4802-A710-E7C15AB866A2"); }
            if *g == auto {
                v.push(Right::AutoEnroll);
            }
        }
    }
    v
}

} // verus!
