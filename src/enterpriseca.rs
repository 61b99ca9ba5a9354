//! The Enterprise Certificate Authority object: its properties, the rights
//! over it, the computer that hosts it, and its certificate.

use vstd::prelude::*;
use crate::cert::{extensions_of, constraints_of, read_basic_constraints, sha1_of, thumbprint};
use crate::error::DecodeError;
use crate::guid::{decode_guid_le, guid_text};
use crate::text::hex_bytes;
use crate::translate::{AccessEdge, EdgeModel, acl_protected, ca_edges, ca_security_edges,
    dacl_slices, edges_of, edges_view, hosting_computer, hosting_of, translate};

verus! {

/// A reference to another directory object.
#[derive(Clone, Debug)]
pub struct Member {
    pub object_identifier: String,
    pub object_type: String,
}

/// The properties of an Enterprise CA.
#[derive(Clone, Debug)]
pub struct EnterpriseCAProperties {
    pub domain: String,
    pub name: String,
    pub distinguishedname: String,
    pub domainsid: String,
    pub isaclprotected: bool,
    pub description: Option<String>,
    pub whencreated: i64,
    pub flags: String,
    pub caname: String,
    pub dnshostname: String,
    pub certthumbprint: String,
    pub certname: String,
    pub certchain: Vec<String>,
    pub hasbasicconstraints: bool,
    pub basicconstraintpathlength: u32,
    pub unresolvedpublishedtemplates: Vec<String>,
    pub casecuritycollected: bool,
    pub enrollmentagentrestrictionscollected: bool,
    pub isuserspecifiessanenabledcollected: bool,
    pub roleseparationenabledcollected: bool,
}

/// Every property is at its default: empty text and lists, no description,
/// creation time -1, and every flag false.
pub open spec fn properties_default(p: EnterpriseCAProperties) -> bool {
    &&& p.domain@.len() == 0 && p.name@.len() == 0 && p.distinguishedname@.len() == 0
    &&& p.domainsid@.len() == 0 && p.flags@.len() == 0 && p.caname@.len() == 0
    &&& p.dnshostname@.len() == 0 && p.certthumbprint@.len() == 0 && p.certname@.len() == 0
    &&& !p.isaclprotected && p.description is None && p.whencreated == -1
    &&& p.certchain@.len() == 0 && p.unresolvedpublishedtemplates@.len() == 0
    &&& !p.hasbasicconstraints && p.basicconstraintpathlength == 0
    &&& !p.casecuritycollected && !p.enrollmentagentrestrictionscollected
    &&& !p.isuserspecifiessanenabledcollected && !p.roleseparationenabledcollected
}

impl Default for EnterpriseCAProperties {
    fn default() -> (p: EnterpriseCAProperties)
        ensures
            properties_default(p),
    {
        EnterpriseCAProperties {
            domain: String::new(),
            name: String::new(),
            distinguishedname: String::new(),
            domainsid: String::new(),
            isaclprotected: false,
            description: None,
            whencreated: -1,
            flags: String::new(),
            caname: String::new(),
            dnshostname: String::new(),
            certthumbprint: String::new(),
            certname: String::new(),
            certchain: Vec::new(),
            hasbasicconstraints: false,
            basicconstraintpathlength: 0,
            unresolvedpublishedtemplates: Vec::new(),
            casecuritycollected: false,
            enrollmentagentrestrictionscollected: false,
            isuserspecifiessanenabledcollected: false,
            roleseparationenabledcollected: false,
        }
    }
}

/// The rights over the authority, as far as they could be collected.
#[derive(Clone, Debug)]
pub struct CASecurity {
    pub data: Vec<AccessEdge>,
    pub collected: bool,
    pub failure_reason: Option<String>,
}

impl Default for CASecurity {
    fn default() -> (s: CASecurity)
        ensures
            s.data@.len() == 0 && s.collected && s.failure_reason is None,
    {
        CASecurity { data: Vec::new(), collected: true, failure_reason: None }
    }
}

/// The reason recorded when no rights over the authority were collected.
pub open spec fn ca_security_failure() -> Seq<char> {
    "Failed to get CASecurity!"@
}

impl CASecurity {
    /// The Certificate Authority rights of a security descriptor. When there
    /// are none (no discretionary list, an unreadable one, or no such right
    /// in it) nothing is collected and the reason is recorded.
    pub fn from_descriptor(b: &[u8], domain: &str) -> (s: CASecurity)
        ensures
            edges_view(s.data@) == ca_edges(edges_of(b@, domain@, "EnterpriseCA"@, dacl_slices(b@))),
            s.collected == (s.data@.len() > 0),
            s.collected ==> s.failure_reason is None,
            !s.collected ==> (s.failure_reason matches Some(m) && m@ == ca_security_failure()),
    {
        proof { reveal_strlit("EnterpriseCA"); }
        let data = ca_security_edges(b, domain, "EnterpriseCA");
        if data.len() > 0 {
            CASecurity { data, collected: true, failure_reason: None }
        } else {
            proof { reveal_strlit("Failed to get CASecurity!"); }
            CASecurity {
                data: Vec::new(),
                collected: false,
                failure_reason: Some(String::from_str("Failed to get CASecurity!")),
            }
        }
    }
}

/// Enrollment agent restrictions of the authority.
#[derive(Clone, Debug)]
pub struct EnrollmentAgentRestrictions {
    pub restrictions: Vec<String>,
    pub collected: bool,
    pub failure_reason: Option<String>,
}

impl Default for EnrollmentAgentRestrictions {
    fn default() -> (s: EnrollmentAgentRestrictions)
        ensures
            s.restrictions@.len() == 0 && s.collected && s.failure_reason is None,
    {
        EnrollmentAgentRestrictions { restrictions: Vec::new(), collected: true, failure_reason: None }
    }
}

/// Whether requesters may name the subject alternative name.
#[derive(Clone, Debug)]
pub struct IsUserSpecifiesSanEnabled {
    pub value: bool,
    pub collected: bool,
    pub failure_reason: Option<String>,
}

impl Default for IsUserSpecifiesSanEnabled {
    fn default() -> (s: IsUserSpecifiesSanEnabled)
        ensures
            !s.value && s.collected && s.failure_reason is None,
    {
        IsUserSpecifiesSanEnabled { value: false, collected: true, failure_reason: None }
    }
}

/// Whether role separation is enforced.
#[derive(Clone, Debug)]
pub struct RoleSeparationEnabled {
    pub value: bool,
    pub collected: bool,
    pub failure_reason: Option<String>,
}

impl Default for RoleSeparationEnabled {
    fn default() -> (s: RoleSeparationEnabled)
        ensures
            !s.value && s.collected && s.failure_reason is None,
    {
        RoleSeparationEnabled { value: false, collected: true, failure_reason: None }
    }
}

/// The registry-held data of the authority.
#[derive(Clone, Debug)]
pub struct CARegistryData {
    pub ca_security: CASecurity,
    pub enrollment_agent_restrictions: EnrollmentAgentRestrictions,
    pub is_user_specifies_san_enabled: IsUserSpecifiesSanEnabled,
    pub role_separation_enabled: RoleSeparationEnabled,
}

/// The parts of registry data that `CARegistryData::new` does not take are at their defaults.
pub open spec fn registry_defaults(d: CARegistryData) -> bool {
    &&& d.enrollment_agent_restrictions.restrictions@.len() == 0
    &&& d.enrollment_agent_restrictions.collected
    &&& d.enrollment_agent_restrictions.failure_reason is None
    &&& !d.is_user_specifies_san_enabled.value && d.is_user_specifies_san_enabled.collected
    &&& d.is_user_specifies_san_enabled.failure_reason is None
    &&& !d.role_separation_enabled.value && d.role_separation_enabled.collected
    &&& d.role_separation_enabled.failure_reason is None
}

impl CARegistryData {
    pub fn new(ca_security: CASecurity) -> (d: CARegistryData)
        ensures
            d.ca_security == ca_security,
            registry_defaults(d),
    {
        CARegistryData {
            ca_security,
            enrollment_agent_restrictions: EnrollmentAgentRestrictions::default(),
            is_user_specifies_san_enabled: IsUserSpecifiesSanEnabled::default(),
            role_separation_enabled: RoleSeparationEnabled::default(),
        }
    }
}

impl Default for CARegistryData {
    fn default() -> (d: CARegistryData)
        ensures
            d.ca_security.data@.len() == 0 && d.ca_security.collected,
            d.ca_security.failure_reason is None,
            registry_defaults(d),
    {
        CARegistryData::new(CASecurity::default())
    }
}

/// Upper-case text of a string, as std's Unicode case mapping gives it.
pub uninterp spec fn upper_of(s: Seq<char>) -> Seq<char>;

/// Relies on str::to_uppercase: the result depends on the characters alone.
#[verifier::external_body]
fn to_upper(s: &str) -> (r: String)
    ensures
        r@ == upper_of(s@),
{
    s.to_uppercase()
}

/// The text from the start up to the first '=' or ','.
pub open spec fn up_to_delimiter(s: Seq<char>) -> Seq<char>
    decreases s.len(),
{
    if s.len() == 0 || s[0] == ',' || s[0] == '=' {
        Seq::empty()
    } else {
        seq![s[0]] + up_to_delimiter(s.drop_first())
    }
}

/// The value of the first relative name of a distinguished name: the text
/// after its first '=' up to the next '=' or ','; empty when the first
/// component holds no '='.
pub open spec fn ca_name_of(dn: Seq<char>) -> Seq<char>
    decreases dn.len(),
{
    if dn.len() == 0 || dn[0] == ',' {
        Seq::empty()
    } else if dn[0] == '=' {
        up_to_delimiter(dn.drop_first())
    } else {
        ca_name_of(dn.drop_first())
    }
}

proof fn lemma_up_to_delimiter(s: Seq<char>, i: int, j: int)
    requires
        0 <= i <= j <= s.len(),
        forall|k: int| i <= k < j ==> s[k] != ',' && s[k] != '=',
        j == s.len() || s[j] == ',' || s[j] == '=',
    ensures
        up_to_delimiter(s.subrange(i, s.len() as int)) == s.subrange(i, j),
    decreases j - i,
{
    let t = s.subrange(i, s.len() as int);
    if i < j {
        assert(t.drop_first() =~= s.subrange(i + 1, s.len() as int));
        lemma_up_to_delimiter(s, i + 1, j);
        assert(s.subrange(i, j) =~= seq![s[i]] + s.subrange(i + 1, j));
    } else {
        assert(s.subrange(i, j) =~= Seq::<char>::empty());
    }
}

/// The name of the authority, read from its distinguished name.
pub fn ca_name(dn: &str) -> (r: String)
    ensures
        r@ == ca_name_of(dn@),
{
    let n = dn.unicode_len();
    let mut i: usize = 0;
    assert(dn@.subrange(0, n as int) =~= dn@);
    while i < n
        invariant
            n == dn@.len(),
            i <= n,
            ca_name_of(dn@) == ca_name_of(dn@.subrange(i as int, n as int)),
        decreases n - i,
    {
        let c = dn.get_char(i);
        let ghost t = dn@.subrange(i as int, n as int);
        assert(t[0] == c);
        assert(t.drop_first() =~= dn@.subrange(i + 1, n as int));
        if c == ',' {
            return String::new();
        }
        if c == '=' {
            let start = i + 1;
            let mut j: usize = start;
            while j < n
                invariant
                    n == dn@.len(),
                    start <= j <= n,
                    forall|k: int| start <= k < j ==> dn@[k] != ',' && dn@[k] != '=',
                ensures
                    start <= j <= n,
                    forall|k: int| start <= k < j ==> dn@[k] != ',' && dn@[k] != '=',
                    j == n || dn@[j as int] == ',' || dn@[j as int] == '=',
                decreases n - j,
            {
                let d = dn.get_char(j);
                if d == ',' || d == '=' {
                    break;
                }
                j = j + 1;
            }
            proof {
                lemma_up_to_delimiter(dn@, start as int, j as int);
            }
            let r = dn.substring_char(start, j);
            return r.to_string();
        }
        i = i + 1;
    }
    assert(dn@.subrange(n as int, n as int) =~= Seq::<char>::empty());
    String::new()
}

/// The attribute values of one directory entry of an Enterprise CA, as the
/// directory returned them (the creation time already as seconds since the epoch).
#[derive(Clone, Debug)]
pub struct CaEntry {
    pub dn: String,
    pub name: Option<String>,
    pub description: Option<String>,
    pub dns_host_name: Option<String>,
    pub certificate_templates: Option<Vec<String>>,
    pub when_created: Option<i64>,
    pub is_deleted: bool,
    pub object_guid: Option<Vec<u8>>,
    pub security_descriptor: Option<Vec<u8>>,
    pub ca_certificate: Option<Vec<u8>>,
}

/// An Enterprise Certificate Authority.
#[derive(Clone, Debug)]
pub struct EnterpriseCA {
    pub properties: EnterpriseCAProperties,
    pub hosting_computer: String,
    pub ca_registry_data: CARegistryData,
    pub enabled_cert_templates: Vec<Member>,
    pub aces: Vec<AccessEdge>,
    pub object_identifier: String,
    pub is_deleted: bool,
    pub is_acl_protected: bool,
    pub contained_by: Option<Member>,
}

/// `members` names each template of `names`, in order, as a certificate template.
pub open spec fn template_members(members: Seq<Member>, names: Seq<String>) -> bool {
    &&& members.len() == names.len()
    &&& forall|k: int| 0 <= k < names.len() ==> (#[trigger] members[k]).object_identifier@ == names[k]@
        && members[k].object_type@ == "CertTemplate"@
}

fn templates_to_members(names: &Vec<String>) -> (r: Vec<Member>)
    ensures
        template_members(r@, names@),
{
    let mut r: Vec<Member> = Vec::new();
    let mut i: usize = 0;
    while i < names.len()
        invariant
            i <= names@.len(),
            r@.len() == i,
            forall|k: int| 0 <= k < i ==> (#[trigger] r@[k]).object_identifier@ == names@[k]@
                && r@[k].object_type@ == "CertTemplate"@,
        decreases names@.len() - i,
    {
        proof { reveal_strlit("CertTemplate"); }
        r.push(Member {
            object_identifier: names[i].clone(),
            object_type: String::from_str("CertTemplate"),
        });
        i = i + 1;
    }
    r
}

impl EnterpriseCA {
    /// An authority with every property at its default.
    pub fn new() -> (ca: EnterpriseCA)
        ensures
            ca.hosting_computer@.len() == 0,
            ca.enabled_cert_templates@.len() == 0,
            ca.aces@.len() == 0,
            ca.object_identifier@.len() == 0,
            !ca.is_deleted && !ca.is_acl_protected && ca.contained_by is None,
            properties_default(ca.properties),
            ca.ca_registry_data.ca_security.data@.len() == 0,
            ca.ca_registry_data.ca_security.collected,
            ca.ca_registry_data.ca_security.failure_reason is None,
            registry_defaults(ca.ca_registry_data),
    {
        EnterpriseCA {
            properties: EnterpriseCAProperties::default(),
            hosting_computer: String::new(),
            ca_registry_data: CARegistryData::default(),
            enabled_cert_templates: Vec::new(),
            aces: Vec::new(),
            object_identifier: String::new(),
            is_deleted: false,
            is_acl_protected: false,
            contained_by: None,
        }
    }

    /// The enabled certificate templates.
    pub fn enabled_cert_templates(&self) -> (r: &Vec<Member>)
        ensures
            r == &self.enabled_cert_templates,
    {
        &self.enabled_cert_templates
    }

    /// The enabled certificate templates, for change.
    pub fn enabled_cert_templates_mut(&mut self) -> (r: &mut Vec<Member>)
        ensures
            *r == old(self).enabled_cert_templates,
            final(self).enabled_cert_templates == *final(r),
    {
        &mut self.enabled_cert_templates
    }

    /// The hosting computer of a security descriptor (see `hosting_computer`).
    fn get_hosting_computer(nt: &[u8], domain: &str) -> (r: String)
        ensures
            r@ == hosting_of(nt@, domain@, dacl_slices(nt@)),
    {
        hosting_computer(nt, domain)
    }

    /// Fills the properties that the entry's text attributes feed.
    #[verifier::rlimit(50)]
    fn apply_attributes(&mut self, entry: &CaEntry, domain: &str, domain_sid: &str)
        ensures
            final(self).properties.domain@ == upper_of(domain@),
            final(self).properties.distinguishedname@ == upper_of(entry.dn@),
            final(self).properties.domainsid@ == domain_sid@,
            final(self).properties.caname@ == ca_name_of(upper_of(entry.dn@)),
            match entry.name {
                Some(n) => final(self).properties.name@ == upper_of(n@ + "@"@ + domain@),
                None => final(self).properties.name == old(self).properties.name,
            },
            match entry.description {
                Some(d) => final(self).properties.description matches Some(e) && e@ == d@,
                None => final(self).properties.description == old(self).properties.description,
            },
            match entry.dns_host_name {
                Some(h) => final(self).properties.dnshostname@ == h@,
                None => final(self).properties.dnshostname == old(self).properties.dnshostname,
            },
            match entry.certificate_templates {
                Some(v) if v@.len() > 0 => template_members(final(self).enabled_cert_templates@, v@),
                _ => final(self).enabled_cert_templates == old(self).enabled_cert_templates,
            },
            match entry.when_created {
                Some(t) if t > 0 => final(self).properties.whencreated == t,
                _ => final(self).properties.whencreated == old(self).properties.whencreated,
            },
            final(self).is_deleted == (old(self).is_deleted || entry.is_deleted),
            match entry.object_guid {
                Some(g) if g@.len() >= 16 => final(self).object_identifier@ == guid_text(g@),
                _ => final(self).object_identifier == old(self).object_identifier,
            },
            final(self).aces == old(self).aces,
            final(self).hosting_computer == old(self).hosting_computer,
            final(self).ca_registry_data == old(self).ca_registry_data,
            final(self).is_acl_protected == old(self).is_acl_protected,
            final(self).contained_by == old(self).contained_by,
            final(self).properties.isaclprotected == old(self).properties.isaclprotected,
            final(self).properties.casecuritycollected == old(self).properties.casecuritycollected,
            final(self).properties.certthumbprint == old(self).properties.certthumbprint,
            final(self).properties.certname == old(self).properties.certname,
            final(self).properties.certchain == old(self).properties.certchain,
            final(self).properties.hasbasicconstraints == old(self).properties.hasbasicconstraints,
            final(self).properties.basicconstraintpathlength == old(self).properties.basicconstraintpathlength,
            final(self).properties.flags == old(self).properties.flags,
            final(self).properties.unresolvedpublishedtemplates == old(self).properties.unresolvedpublishedtemplates,
            final(self).properties.enrollmentagentrestrictionscollected == old(self).properties.enrollmentagentrestrictionscollected,
            final(self).properties.isuserspecifiessanenabledcollected == old(self).properties.isuserspecifiessanenabledcollected,
            final(self).properties.roleseparationenabledcollected == old(self).properties.roleseparationenabledcollected,
    {
        proof { reveal_strlit("@"); }
        let dn = to_upper(entry.dn.as_str());
        self.properties.domain = to_upper(domain);
        self.properties.caname = ca_name(dn.as_str());
        self.properties.distinguishedname = dn;
        self.properties.domainsid = String::from_str(domain_sid);
        if let Some(n) = &entry.name {
            let mut full = n.clone();
            full.append("@");
            full.append(domain);
            self.properties.name = to_upper(full.as_str());
        }
        if let Some(d) = &entry.description {
            self.properties.description = Some(d.clone());
        }
        if let Some(h) = &entry.dns_host_name {
            self.properties.dnshostname = h.clone();
        }
        if let Some(v) = &entry.certificate_templates {
            if v.len() > 0 {
                self.enabled_cert_templates = templates_to_members(v);
            }
        }
        if let Some(t) = entry.when_created {
            if t > 0 {
                self.properties.whencreated = t;
            }
        }
        if entry.is_deleted {
            self.is_deleted = true;
        }
        if let Some(g) = &entry.object_guid {
            if let Ok(id) = decode_guid_le(g.as_slice()) {
                self.object_identifier = id;
            }
        }
    }

    /// Fills the edges, the protection flag, the hosting computer and the
    /// Certificate Authority rights from a security descriptor; fails only on
    /// a descriptor too short for its header.
    fn apply_descriptor(&mut self, sd: &[u8], domain: &str) -> (r: Result<(), DecodeError>)
        ensures
            edges_view(final(self).aces@) == edges_of(sd@, domain@, "EnterpriseCA"@, dacl_slices(sd@)),
            final(self).is_acl_protected == (sd@.len() >= 20 && acl_protected(sd@)),
            final(self).properties.isaclprotected == final(self).is_acl_protected,
            final(self).hosting_computer@ == hosting_of(sd@, domain@, dacl_slices(sd@)),
            edges_view(final(self).ca_registry_data.ca_security.data@) == ca_edges(
                edges_of(sd@, domain@, "EnterpriseCA"@, dacl_slices(sd@))),
            final(self).ca_registry_data.ca_security.collected == (final(self).ca_registry_data.ca_security.data@.len() > 0),
            final(self).properties.casecuritycollected == final(self).ca_registry_data.ca_security.collected,
            final(self).ca_registry_data.ca_security.collected
                ==> final(self).ca_registry_data.ca_security.failure_reason is None,
            !final(self).ca_registry_data.ca_security.collected
                ==> (final(self).ca_registry_data.ca_security.failure_reason matches Some(m)
                    && m@ == ca_security_failure()),
            registry_defaults(final(self).ca_registry_data),
            sd@.len() < 20 <==> r is Err,
            r is Err ==> r == Err::<(), DecodeError>(DecodeError::MalformedBuffer),
            final(self).properties == (EnterpriseCAProperties {
                isaclprotected: final(self).properties.isaclprotected,
                casecuritycollected: final(self).properties.casecuritycollected,
                ..old(self).properties
            }),
            final(self).enabled_cert_templates == old(self).enabled_cert_templates,
            final(self).object_identifier == old(self).object_identifier,
            final(self).is_deleted == old(self).is_deleted,
            final(self).contained_by == old(self).contained_by,
    {
        proof { reveal_strlit("EnterpriseCA"); }
        let mut result: Result<(), DecodeError> = Ok(());
        match translate(sd, domain, "EnterpriseCA") {
            Ok(t) => {
                self.aces = t.edges;
                self.is_acl_protected = t.acl_protected;
                self.properties.isaclprotected = t.acl_protected;
            },
            Err(e) => {
                self.aces = Vec::new();
                self.is_acl_protected = false;
                self.properties.isaclprotected = false;
                assert(dacl_slices(sd@) =~= Seq::<(int, int)>::empty());
                assert(edges_view(self.aces@) =~= Seq::<EdgeModel>::empty());
                result = Err(e);
            },
        }
        self.hosting_computer = Self::get_hosting_computer(sd, domain);
        let ca_security = CASecurity::from_descriptor(sd, domain);
        self.properties.casecuritycollected = ca_security.collected;
        self.ca_registry_data = CARegistryData::new(ca_security);
        result
    }

    /// Fills the thumbprint, the chain and the Basic Constraints pair from a
    /// DER certificate; the pair stays as it was when the certificate does not parse.
    fn apply_certificate(p: &mut EnterpriseCAProperties, c: &[u8])
        ensures
            final(p).certthumbprint@ == hex_bytes(sha1_of(c@), true),
            final(p).certname@ == hex_bytes(sha1_of(c@), true),
            final(p).certchain@.len() == 1,
            final(p).certchain@[0]@ == hex_bytes(sha1_of(c@), true),
            match extensions_of(c@) {
                Some(exts) => (final(p).hasbasicconstraints, final(p).basicconstraintpathlength)
                    == constraints_of(exts),
                None => final(p).hasbasicconstraints == old(p).hasbasicconstraints
                    && final(p).basicconstraintpathlength == old(p).basicconstraintpathlength,
            },
            *final(p) == (EnterpriseCAProperties {
                certthumbprint: final(p).certthumbprint,
                certname: final(p).certname,
                certchain: final(p).certchain,
                hasbasicconstraints: final(p).hasbasicconstraints,
                basicconstraintpathlength: final(p).basicconstraintpathlength,
                ..*old(p)
            }),
    {
        let thumb = thumbprint(c);
        p.certthumbprint = thumb.clone();
        p.certname = thumb.clone();
        let mut chain: Vec<String> = Vec::new();
        chain.push(thumb);
        p.certchain = chain;
        if let Ok((has, len)) = read_basic_constraints(c) {
            p.hasbasicconstraints = has;
            p.basicconstraintpathlength = len;
        }
    }

    /// Fills the authority from the attribute values of its directory entry.
    /// Every value that is present replaces the property it feeds; the one
    /// failure is a security descriptor too short for its header, reported
    /// after everything else has been filled in.
    #[verifier::rlimit(50)]
    pub fn parse(&mut self, entry: &CaEntry, domain: &str, domain_sid: &str) -> (r: Result<(), DecodeError>)
        ensures
            final(self).properties.domain@ == upper_of(domain@),
            final(self).properties.distinguishedname@ == upper_of(entry.dn@),
            final(self).properties.domainsid@ == domain_sid@,
            final(self).properties.caname@ == ca_name_of(upper_of(entry.dn@)),
            match entry.name {
                Some(n) => final(self).properties.name@ == upper_of(n@ + "@"@ + domain@),
                None => final(self).properties.name == old(self).properties.name,
            },
            match entry.description {
                Some(d) => final(self).properties.description matches Some(e) && e@ == d@,
                None => final(self).properties.description == old(self).properties.description,
            },
            match entry.dns_host_name {
                Some(h) => final(self).properties.dnshostname@ == h@,
                None => final(self).properties.dnshostname == old(self).properties.dnshostname,
            },
            match entry.certificate_templates {
                Some(v) if v@.len() > 0 => template_members(final(self).enabled_cert_templates@, v@),
                _ => final(self).enabled_cert_templates == old(self).enabled_cert_templates,
            },
            match entry.when_created {
                Some(t) if t > 0 => final(self).properties.whencreated == t,
                _ => final(self).properties.whencreated == old(self).properties.whencreated,
            },
            final(self).is_deleted == (old(self).is_deleted || entry.is_deleted),
            match entry.object_guid {
                Some(g) if g@.len() >= 16 => final(self).object_identifier@ == guid_text(g@),
                _ => final(self).object_identifier == old(self).object_identifier,
            },
            match entry.security_descriptor {
                Some(sd) => {
                    &&& edges_view(final(self).aces@) == edges_of(sd@, domain@, "EnterpriseCA"@, dacl_slices(sd@))
                    &&& final(self).is_acl_protected == (sd@.len() >= 20 && acl_protected(sd@))
                    &&& final(self).properties.isaclprotected == final(self).is_acl_protected
                    &&& final(self).hosting_computer@ == hosting_of(sd@, domain@, dacl_slices(sd@))
                    &&& edges_view(final(self).ca_registry_data.ca_security.data@) == ca_edges(
                        edges_of(sd@, domain@, "EnterpriseCA"@, dacl_slices(sd@)))
                    &&& final(self).ca_registry_data.ca_security.collected == (final(self).ca_registry_data.ca_security.data@.len() > 0)
                    &&& final(self).properties.casecuritycollected == final(self).ca_registry_data.ca_security.collected
                    &&& (final(self).ca_registry_data.ca_security.collected
                        ==> final(self).ca_registry_data.ca_security.failure_reason is None)
                    &&& (!final(self).ca_registry_data.ca_security.collected
                        ==> (final(self).ca_registry_data.ca_security.failure_reason matches Some(m)
                            && m@ == ca_security_failure()))
                    &&& registry_defaults(final(self).ca_registry_data)
                    &&& (sd@.len() < 20 <==> r is Err)
                },
                None => {
                    &&& final(self).aces == old(self).aces
                    &&& final(self).hosting_computer == old(self).hosting_computer
                    &&& final(self).is_acl_protected == old(self).is_acl_protected
                    &&& final(self).properties.isaclprotected == old(self).properties.isaclprotected
                    &&& final(self).ca_registry_data == old(self).ca_registry_data
                    &&& final(self).properties.casecuritycollected == old(self).properties.casecuritycollected
                    &&& r is Ok
                },
            },
            r is Err ==> r == Err::<(), DecodeError>(DecodeError::MalformedBuffer),
            match entry.ca_certificate {
                Some(c) => {
                    &&& final(self).properties.certthumbprint@ == hex_bytes(sha1_of(c@), true)
                    &&& final(self).properties.certname@ == hex_bytes(sha1_of(c@), true)
                    &&& final(self).properties.certchain@.len() == 1
                    &&& final(self).properties.certchain@[0]@ == hex_bytes(sha1_of(c@), true)
                    &&& match extensions_of(c@) {
                        Some(exts) => (final(self).properties.hasbasicconstraints,
                            final(self).properties.basicconstraintpathlength) == constraints_of(exts),
                        None => final(self).properties.hasbasicconstraints == old(self).properties.hasbasicconstraints
                            && final(self).properties.basicconstraintpathlength == old(self).properties.basicconstraintpathlength,
                    }
                },
                None => {
                    &&& final(self).properties.certthumbprint == old(self).properties.certthumbprint
                    &&& final(self).properties.certname == old(self).properties.certname
                    &&& final(self).properties.certchain == old(self).properties.certchain
                    &&& final(self).properties.hasbasicconstraints == old(self).properties.hasbasicconstraints
                    &&& final(self).properties.basicconstraintpathlength == old(self).properties.basicconstraintpathlength
                },
            },
            final(self).properties.flags == old(self).properties.flags,
            final(self).properties.unresolvedpublishedtemplates == old(self).properties.unresolvedpublishedtemplates,
            final(self).properties.enrollmentagentrestrictionscollected == old(self).properties.enrollmentagentrestrictionscollected,
            final(self).properties.isuserspecifiessanenabledcollected == old(self).properties.isuserspecifiessanenabledcollected,
            final(self).properties.roleseparationenabledcollected == old(self).properties.roleseparationenabledcollected,
            final(self).contained_by == old(self).contained_by,
    {
        self.apply_attributes(entry, domain, domain_sid);
        let mut result: Result<(), DecodeError> = Ok(());
        if let Some(sd) = &entry.security_descriptor {
            result = self.apply_descriptor(sd.as_slice(), domain);
        }
        if let Some(c) = &entry.ca_certificate {
            Self::apply_certificate(&mut self.properties, c.as_slice());
        }
        result
    }

    /// The pair (distinguished name, identifier) under which the authority is
    /// known to the rest of the scan, unless its identifier is still the
    /// placeholder "SID".
    pub fn directory_entry(&self) -> (r: Option<(String, String)>)
        ensures
            self.object_identifier@ == "SID"@ <==> r is None,
            r matches Some(p) ==> p.0@ == self.properties.distinguishedname@ && p.1@ == self.object_identifier@,
    {
        proof { reveal_strlit("SID"); }
        let placeholder = String::from_str("SID");
        if self.object_identifier == placeholder {
            None
        } else {
            Some((self.properties.distinguishedname.clone(), self.object_identifier.clone()))
        }
    }
}

impl EnterpriseCA {
    pub fn get_object_identifier(&self) -> (r: &String)
        ensures
            r == &self.object_identifier,
    {
        &self.object_identifier
    }

    pub fn get_is_acl_protected(&self) -> (r: &bool)
        ensures
            *r == self.is_acl_protected,
    {
        &self.is_acl_protected
    }

    pub fn get_aces(&self) -> (r: &Vec<AccessEdge>)
        ensures
            r == &self.aces,
    {
        &self.aces
    }

    pub fn get_contained_by(&self) -> (r: &Option<Member>)
        ensures
            r == &self.contained_by,
    {
        &self.contained_by
    }

    /// An authority is never a computer with a local administrator password solution.
    pub fn get_haslaps(&self) -> (r: bool)
        ensures
            !r,
    {
        false
    }

    /// Sets the protection flag of the object and of its properties together.
    pub fn set_is_acl_protected(&mut self, is_acl_protected: bool)
        ensures
            *final(self) == (EnterpriseCA {
                is_acl_protected,
                properties: EnterpriseCAProperties { isaclprotected: is_acl_protected, ..old(self).properties },
                ..*old(self)
            }),
    {
        self.is_acl_protected = is_acl_protected;
        self.properties.isaclprotected = is_acl_protected;
    }

    pub fn set_aces(&mut self, aces: Vec<AccessEdge>)
        ensures
            *final(self) == (EnterpriseCA { aces, ..*old(self) }),
    {
        self.aces = aces;
    }

    pub fn set_contained_by(&mut self, contained_by: Option<Member>)
        ensures
            *final(self) == (EnterpriseCA { contained_by, ..*old(self) }),
    {
        self.contained_by = contained_by;
    }
}

} // verus!
