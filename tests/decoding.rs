use adcs_acl::cert::{basic_constraints_from, read_basic_constraints, thumbprint};
use adcs_acl::descriptor::{decode_ace, Acl, AceKind, SecurityDescriptor};
use adcs_acl::enterpriseca::{ca_name, CASecurity, CaEntry, EnterpriseCA};
use adcs_acl::error::DecodeError;
use adcs_acl::guid::decode_guid_le;
use adcs_acl::rights::{contains_all, rights_from_mask, Right, FULL_CONTROL, MANAGE_CERTIFICATES};
use adcs_acl::sid::{decode_sid, Sid};
use adcs_acl::text::hex_upper;
use adcs_acl::translate::{ca_security_edges, hosting_computer, translate};

fn sid_bytes(auth: u8, subs: &[u32]) -> Vec<u8> {
    let mut v = vec![1u8, subs.len() as u8, 0, 0, 0, 0, 0, auth];
    for s in subs {
        v.extend_from_slice(&s.to_le_bytes());
    }
    v
}

fn domain_sid(rid: u32) -> Vec<u8> {
    sid_bytes(5, &[21, 1, 2, 3, rid])
}

fn ace(ace_type: u8, flags: u8, mask: u32, sid: &[u8]) -> Vec<u8> {
    let size = (8 + sid.len()) as u16;
    let mut v = vec![ace_type, flags];
    v.extend_from_slice(&size.to_le_bytes());
    v.extend_from_slice(&mask.to_le_bytes());
    v.extend_from_slice(sid);
    v
}

fn descriptor(control: u16, aces: &[Vec<u8>]) -> Vec<u8> {
    let body: Vec<u8> = aces.concat();
    let mut v = vec![1u8, 0];
    v.extend_from_slice(&control.to_le_bytes());
    v.extend_from_slice(&0u32.to_le_bytes());
    v.extend_from_slice(&0u32.to_le_bytes());
    v.extend_from_slice(&0u32.to_le_bytes());
    v.extend_from_slice(&20u32.to_le_bytes());
    let acl_size = (8 + body.len()) as u16;
    v.extend_from_slice(&[2, 0]);
    v.extend_from_slice(&acl_size.to_le_bytes());
    v.extend_from_slice(&(aces.len() as u16).to_le_bytes());
    v.extend_from_slice(&[0, 0]);
    v.extend_from_slice(&body);
    v
}

#[test]
fn sid_round_trip_and_text() {
    let sid = Sid { revision: 1, authority: 5, sub_authorities: vec![21, 1, 2, 3, 1105] };
    let bytes = sid.encode();
    assert_eq!(bytes, domain_sid(1105));
    let (back, n) = decode_sid(&bytes, 0).unwrap();
    assert_eq!(back, sid);
    assert_eq!(n, bytes.len());
    assert_eq!(back.to_text(), "S-1-5-21-1-2-3-1105");
}

#[test]
fn sid_large_authority_round_trip() {
    let sid = Sid { revision: 1, authority: 0x0000_1234_5678_9ABC, sub_authorities: vec![] };
    let bytes = sid.encode();
    assert_eq!(bytes, vec![1, 0, 0x12, 0x34, 0x56, 0x78, 0x9A, 0xBC]);
    assert_eq!(decode_sid(&bytes, 0).unwrap().0, sid);
    assert_eq!(sid.to_text(), "S-1-20015998343868");
}

#[test]
fn sid_truncated_is_malformed() {
    let mut bytes = domain_sid(512);
    bytes.pop();
    assert_eq!(decode_sid(&bytes, 0), Err(DecodeError::MalformedBuffer));
    assert_eq!(decode_sid(&[1, 0, 0], 0), Err(DecodeError::MalformedBuffer));
}

#[test]
fn sid_qualified_only_when_short() {
    let builtin = Sid { revision: 1, authority: 5, sub_authorities: vec![32, 544] };
    assert_eq!(builtin.qualified("CORP.LOCAL"), "CORP.LOCAL-S-1-5-32-544");
    let user = Sid { revision: 1, authority: 5, sub_authorities: vec![21, 1, 2, 3, 1105] };
    assert_eq!(user.qualified("CORP.LOCAL"), "S-1-5-21-1-2-3-1105");
    assert_eq!(user.rid(), Some(1105));
}

#[test]
fn guid_of_zero_bytes() {
    assert_eq!(decode_guid_le(&[0u8; 16]).unwrap(), "00000000-0000-0000-0000-000000000000");
}

#[test]
fn guid_little_endian_groups() {
    let b: Vec<u8> = (0u8..16).collect();
    assert_eq!(decode_guid_le(&b).unwrap(), "03020100-0504-0706-0809-0A0B0C0D0E0F");
    assert_eq!(decode_guid_le(&b[..15]), Err(DecodeError::MalformedBuffer));
}

#[test]
fn containment_test() {
    assert!(contains_all(0b0011, 0b0001));
    assert!(!contains_all(0b0011, 0b0100));
    assert!(contains_all(0b0011, 0));
    assert!(!contains_all(0b0001, 0b0011));
}

#[test]
fn rights_of_full_control() {
    let r = rights_from_mask(FULL_CONTROL);
    assert_eq!(r, vec![Right::FullControl, Right::WriteDacl, Right::WriteOwner, Right::ManageCa, Right::ManageCertificates]);
    assert_eq!(rights_from_mask(0x200), vec![Right::Enroll]);
    assert!(rights_from_mask(0).is_empty());
}

#[test]
fn basic_constraints_cases() {
    assert_eq!(basic_constraints_from(&vec![]), (false, 0));
    assert_eq!(basic_constraints_from(&vec![None]), (false, 0));
    assert_eq!(basic_constraints_from(&vec![Some(Some(0))]), (false, 0));
    assert_eq!(basic_constraints_from(&vec![Some(None)]), (false, 0));
    assert_eq!(basic_constraints_from(&vec![None, Some(Some(3)), None]), (true, 3));
}

#[test]
fn certificate_that_does_not_parse() {
    assert_eq!(read_basic_constraints(&[1, 2, 3]), Err(DecodeError::CertificateDecodeError));
}

#[test]
fn thumbprint_is_upper_hex_sha1() {
    assert_eq!(thumbprint(&[]), "DA39A3EE5E6B4B0D3255BFEF95601890AFD80709");
    assert_eq!(thumbprint(b"abc"), "A9993E364706816ABA3E25717850C26C9CD0D89D");
    assert_eq!(hex_upper(&[0x0f, 0xa0]), "0FA0");
}

#[test]
fn hosting_skips_blacklisted_in_either_order() {
    let machine = ace(0, 0, MANAGE_CERTIFICATES, &domain_sid(1105));
    let admins = ace(0, 0, FULL_CONTROL, &domain_sid(512));
    let first = descriptor(0x8004, &[machine.clone(), admins.clone()]);
    assert_eq!(hosting_computer(&first, "CORP.LOCAL"), "S-1-5-21-1-2-3-1105");
    let second = descriptor(0x8004, &[admins, machine]);
    assert_eq!(hosting_computer(&second, "CORP.LOCAL"), "S-1-5-21-1-2-3-1105");
}

#[test]
fn hosting_not_found_when_only_blacklisted_or_none() {
    let blacklisted = descriptor(0x8004, &[
        ace(0, 0, FULL_CONTROL, &domain_sid(512)),
        ace(0, 0, FULL_CONTROL, &domain_sid(519)),
        ace(0, 0, MANAGE_CERTIFICATES, &sid_bytes(5, &[32, 544])),
    ]);
    assert_eq!(hosting_computer(&blacklisted, "CORP.LOCAL"), "Not found");
    let none = descriptor(0x8004, &[ace(0, 0, 0x200, &domain_sid(1105)), ace(1, 0, 0x2, &domain_sid(1106))]);
    assert_eq!(hosting_computer(&none, "CORP.LOCAL"), "Not found");
    assert_eq!(hosting_computer(&[1, 2, 3], "CORP.LOCAL"), "Not found");
}

#[test]
fn dacl_offset_zero_collects_nothing() {
    let mut sd = descriptor(0x8004, &[ace(0, 0, 0x2, &domain_sid(1105))]);
    sd[16..20].copy_from_slice(&0u32.to_le_bytes());
    let s = CASecurity::from_descriptor(&sd, "CORP.LOCAL");
    assert!(s.data.is_empty());
    assert!(!s.collected);
    assert_eq!(s.failure_reason.as_deref(), Some("Failed to get CASecurity!"));
    let t = translate(&sd, "CORP.LOCAL", "EnterpriseCA").unwrap();
    assert!(t.edges.is_empty());
}

#[test]
fn corrupted_entry_in_the_middle() {
    let good1 = ace(0, 0x10, 0x200, &domain_sid(1105));
    let mut bad = ace(0, 0, 0x2, &domain_sid(1106));
    bad[9] = 200; // sub-authority count beyond the entry
    let good2 = ace(1, 0, 0x1, &domain_sid(1107));
    let sd = descriptor(0x9004, &[good1, bad, good2]);
    let t = translate(&sd, "CORP.LOCAL", "EnterpriseCA").unwrap();
    assert!(t.acl_protected);
    assert_eq!(t.edges.len(), 2);
    assert_eq!(t.edges[0].principal, "S-1-5-21-1-2-3-1105");
    assert_eq!(t.edges[0].ordinal, 0);
    assert!(t.edges[0].granted && t.edges[0].inherited);
    assert_eq!(t.edges[0].rights, vec![Right::Enroll]);
    assert_eq!(t.edges[1].principal, "S-1-5-21-1-2-3-1107");
    assert_eq!(t.edges[1].ordinal, 2);
    assert!(!t.edges[1].granted && !t.edges[1].inherited);
    assert_eq!(t.edges[1].object_kind, "EnterpriseCA");
}

#[test]
fn entry_errors() {
    let unknown = ace(9, 0, 0x2, &domain_sid(1105));
    assert_eq!(decode_ace(&unknown, 0, unknown.len()).unwrap_err(), DecodeError::UnsupportedAceType);
    let short = vec![0u8, 0, 4, 0];
    assert_eq!(decode_ace(&short, 0, 4).unwrap_err(), DecodeError::MissingMask);
    let object_too_short = vec![5u8, 0, 10, 0, 0, 1, 0, 0, 0, 0];
    assert_eq!(decode_ace(&object_too_short, 0, 10).unwrap_err(), DecodeError::MalformedBuffer);
    let ok = ace(1, 2, 0x40000, &domain_sid(7));
    let d = decode_ace(&ok, 0, ok.len()).unwrap();
    assert_eq!(d.kind, AceKind::Deny);
    assert_eq!(d.flags, 2);
    assert_eq!(d.mask, 0x40000);
    assert_eq!(d.trustee.to_text(), "S-1-5-21-1-2-3-7");
}

#[test]
fn object_entry_with_auto_enroll() {
    let guid: [u8; 16] = [0xc2, 0x8c, 0x5b, 0xa0, 0xbc, 0x17, 0x02, 0x48, 0xa7, 0x10, 0xe7, 0xc1, 0x5a, 0xb8, 0x66, 0xa2];
    let sid = domain_sid(1105);
    let size = (12 + 16 + sid.len()) as u16;
    let mut e = vec![5u8, 0];
    e.extend_from_slice(&size.to_le_bytes());
    e.extend_from_slice(&0x100u32.to_le_bytes());
    e.extend_from_slice(&1u32.to_le_bytes());
    e.extend_from_slice(&guid);
    e.extend_from_slice(&sid);
    let d = decode_ace(&e, 0, e.len()).unwrap();
    assert_eq!(d.object_type.as_deref(), Some("A05B8CC2-17BC-4802-A710-E7C15AB866A2"));
    assert!(d.inherited_object_type.is_none());
    let sd = descriptor(0x8004, &[e, ace(0, 0, 0x40000, &domain_sid(1106))]);
    let edges = ca_security_edges(&sd, "CORP.LOCAL", "EnterpriseCA");
    assert_eq!(edges.len(), 1);
    assert_eq!(edges[0].rights, vec![Right::AutoEnroll]);
}

#[test]
fn descriptor_header_and_acl() {
    let sd = descriptor(0x9004, &[ace(0, 0, 0x2, &domain_sid(1105))]);
    let h = SecurityDescriptor::parse(&sd).unwrap();
    assert_eq!(h.offset_dacl, 20);
    assert!(h.is_dacl_protected());
    assert!(!h.is_sacl_protected());
    let acl = Acl::parse(&sd, 20).unwrap();
    assert_eq!(acl.ace_count, 1);
    assert_eq!(acl.entries.len(), 1);
    assert_eq!(SecurityDescriptor::parse(&sd[..19]).unwrap_err(), DecodeError::MalformedBuffer);
    assert!(translate(&sd[..19], "CORP.LOCAL", "EnterpriseCA").is_err());
    assert_eq!(Acl::parse(&sd, sd.len() - 4).unwrap_err(), DecodeError::MalformedBuffer);
}

#[test]
fn acl_walk_stops_at_overlong_entry() {
    let mut sd = descriptor(0x8004, &[ace(0, 0, 0x2, &domain_sid(1105)), ace(0, 0, 0x2, &domain_sid(1106))]);
    let second = 20 + 8 + 36;
    sd[second + 2] = 0xff;
    let acl = Acl::parse(&sd, 20).unwrap();
    assert_eq!(acl.entries.len(), 1);
    assert!(acl.entries[0].is_ok());
}

#[test]
fn ca_name_from_dn() {
    assert_eq!(ca_name("CN=CORP-CA,CN=Enrollment Services,DC=corp"), "CORP-CA");
    assert_eq!(ca_name("nothing"), "");
}

#[test]
fn enterprise_ca_parse() {
    let sd = descriptor(0x9004, &[
        ace(0, 0, FULL_CONTROL, &domain_sid(512)),
        ace(0, 0, MANAGE_CERTIFICATES | 0x200, &domain_sid(1105)),
    ]);
    let entry = CaEntry {
        dn: "CN=corp-CA,CN=Enrollment Services,DC=corp".to_string(),
        name: Some("corp-CA".to_string()),
        description: None,
        dns_host_name: Some("ca.corp.local".to_string()),
        certificate_templates: Some(vec!["User".to_string(), "Machine".to_string()]),
        when_created: Some(1700000000),
        is_deleted: false,
        object_guid: Some(vec![0u8; 16]),
        security_descriptor: Some(sd),
        ca_certificate: None,
    };
    let mut ca = EnterpriseCA::new();
    assert!(ca.parse(&entry, "corp.local", "S-1-5-21-1-2-3").is_ok());
    assert_eq!(ca.properties.name, "CORP-CA@CORP.LOCAL");
    assert_eq!(ca.properties.domain, "CORP.LOCAL");
    assert_eq!(ca.properties.caname, "CORP-CA");
    assert_eq!(ca.properties.whencreated, 1700000000);
    assert_eq!(ca.enabled_cert_templates().len(), 2);
    assert_eq!(ca.enabled_cert_templates()[1].object_type, "CertTemplate");
    assert_eq!(ca.object_identifier, "00000000-0000-0000-0000-000000000000");
    assert_eq!(ca.hosting_computer, "S-1-5-21-1-2-3-1105");
    assert!(ca.is_acl_protected && ca.properties.isaclprotected);
    assert_eq!(ca.aces.len(), 2);
    assert!(ca.properties.casecuritycollected);
    assert_eq!(ca.ca_registry_data.ca_security.data.len(), 2);
    assert_eq!(ca.ca_registry_data.ca_security.data[1].rights, vec![Right::ManageCertificates, Right::Enroll]);
    let (dn, id) = ca.directory_entry().unwrap();
    assert_eq!(dn, "CN=CORP-CA,CN=ENROLLMENT SERVICES,DC=CORP");
    assert_eq!(id, "00000000-0000-0000-0000-000000000000");
}

#[test]
fn enterprise_ca_short_descriptor_fails() {
    let entry = CaEntry {
        dn: "CN=x".to_string(),
        name: None,
        description: None,
        dns_host_name: None,
        certificate_templates: None,
        when_created: Some(-5),
        is_deleted: true,
        object_guid: None,
        security_descriptor: Some(vec![1, 0, 4]),
        ca_certificate: Some(vec![1, 2, 3]),
    };
    let mut ca = EnterpriseCA::new();
    assert_eq!(ca.parse(&entry, "corp.local", "S-1"), Err(DecodeError::MalformedBuffer));
    assert_eq!(ca.properties.whencreated, -1);
    assert!(ca.is_deleted);
    assert_eq!(ca.hosting_computer, "Not found");
    assert!(!ca.ca_registry_data.ca_security.collected);
    assert_eq!(ca.properties.certthumbprint, thumbprint(&[1, 2, 3]));
    assert_eq!(ca.properties.certchain.len(), 1);
    assert!(!ca.properties.hasbasicconstraints);
}

#[test]
fn entry_range_outside_buffer() {
    let ok = ace(0, 0, 0x2, &domain_sid(7));
    assert_eq!(decode_ace(&ok, 0, ok.len() + 1).unwrap_err(), DecodeError::MalformedBuffer);
    assert_eq!(decode_ace(&ok, 0, 3).unwrap_err(), DecodeError::MalformedBuffer);
    assert_eq!(decode_ace(&ok, ok.len() + 5, 4).unwrap_err(), DecodeError::MalformedBuffer);
}

#[test]
fn enterprise_ca_accessors() {
    let mut ca = EnterpriseCA::new();
    assert_eq!(ca.get_object_identifier(), "");
    assert!(!ca.get_haslaps());
    ca.enabled_cert_templates_mut().push(adcs_acl::enterpriseca::Member {
        object_identifier: "User".to_string(),
        object_type: "CertTemplate".to_string(),
    });
    assert_eq!(ca.enabled_cert_templates().len(), 1);
    ca.set_is_acl_protected(true);
    assert!(*ca.get_is_acl_protected());
    assert!(ca.properties.isaclprotected);
    ca.set_aces(vec![]);
    assert!(ca.get_aces().is_empty());
    ca.set_contained_by(None);
    assert!(ca.get_contained_by().is_none());
    assert_eq!(ca.directory_entry().unwrap().1, "");
}

#[test]
fn new_object_is_at_defaults() {
    let ca = EnterpriseCA::new();
    assert_eq!(ca.properties.basicconstraintpathlength, 0);
    assert_eq!(ca.properties.domain, "");
    assert!(ca.properties.description.is_none());
    assert!(!ca.properties.casecuritycollected);
    assert!(ca.ca_registry_data.ca_security.data.is_empty());
    assert!(ca.ca_registry_data.ca_security.collected);
    assert!(ca.ca_registry_data.ca_security.failure_reason.is_none());
    assert!(ca.ca_registry_data.enrollment_agent_restrictions.collected);
}

#[test]
fn parse_records_failure_reason_without_dacl() {
    let mut sd = vec![1u8, 0, 0x04, 0x80];
    sd.extend_from_slice(&[0u8; 16]);
    let entry = CaEntry {
        dn: "CN=x".to_string(),
        name: None,
        description: None,
        dns_host_name: None,
        certificate_templates: None,
        when_created: None,
        is_deleted: false,
        object_guid: None,
        security_descriptor: Some(sd),
        ca_certificate: Some(vec![0u8; 4]),
    };
    let mut ca = EnterpriseCA::new();
    assert!(ca.parse(&entry, "corp.local", "S-1").is_ok());
    let cs = &ca.ca_registry_data.ca_security;
    assert!(!cs.collected && cs.data.is_empty());
    assert_eq!(cs.failure_reason.as_deref(), Some("Failed to get CASecurity!"));
    assert_eq!(ca.properties.basicconstraintpathlength, 0);
    assert!(!ca.properties.hasbasicconstraints);
}

#[test]
fn corrupted_entry_equals_audit_replacement() {
    let good1 = ace(0, 0x10, 0x200, &domain_sid(1105));
    let mut bad = ace(0, 0, 0x2, &domain_sid(1106));
    bad[9] = 200;
    let mut audit = ace(0, 0, 0x2, &domain_sid(1106));
    audit[0] = 2;
    let good2 = ace(1, 0, 0x1, &domain_sid(1107));
    let corrupted = descriptor(0x8004, &[good1.clone(), bad, good2.clone()]);
    let replaced = descriptor(0x8004, &[good1, audit, good2]);
    let a = translate(&corrupted, "CORP.LOCAL", "EnterpriseCA").unwrap().edges;
    let b = translate(&replaced, "CORP.LOCAL", "EnterpriseCA").unwrap().edges;
    assert_eq!(a.len(), b.len());
    for (x, y) in a.iter().zip(b.iter()) {
        assert_eq!(x.principal, y.principal);
        assert_eq!(x.rights, y.rights);
        assert_eq!(x.inherited, y.inherited);
        assert_eq!(x.ordinal, y.ordinal);
    }
}
