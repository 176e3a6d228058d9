//! Certificates and keys: what goes into a root or a leaf certificate, and
//! the `rcgen` and `rustls` calls that make them.

use vstd::prelude::*;
use vstd::string::*;
use vstd::utf8::*;

verus! {

pub const CA_COMMON_NAME: &'static str = "httpmate Root CA";

pub const CA_ORGANIZATION: &'static str = "httpmate";

/// Apple rejects TLS leaf certs valid for more than 825 days; stay under.
pub const LEAF_VALIDITY_DAYS: i64 = 820;

pub const ROOT_VALIDITY_DAYS: i64 = 3650;

/// A certificate is valid from that many days before it is made, in case the
/// clocks of its readers are behind.
pub const BACKDATED_DAYS: i64 = 1;

pub const SECONDS_PER_DAY: i64 = 86_400;

/// A private key of the `rcgen` crate.
#[verifier::external_type_specification]
#[verifier::external_body]
pub struct ExKeyPair(rcgen::KeyPair);

/// The parameters of a certificate of the `rcgen` crate.
#[verifier::external_type_specification]
#[verifier::external_body]
pub struct ExCertificateParams(rcgen::CertificateParams);

/// A certificate of the `rcgen` crate.
#[verifier::external_type_specification]
#[verifier::external_body]
pub struct ExCertificate(rcgen::Certificate);

/// What the key of a certificate may be used for.
#[derive(Debug, Clone, Copy, PartialEq, Eq, Structural)]
pub enum KeyUsage {
    DigitalSignature,
    CertSign,
    CrlSign,
}

/// What a certificate says of whether it may issue others.
#[derive(Debug, Clone, Copy, PartialEq, Eq, Structural)]
pub enum Authority {
    /// It does not say.
    Unstated,
    /// It may not.
    Denied,
    /// It may, and so may those that it issues.
    Unbounded,
    /// It may, and a chain from it has at most so many issuers more.
    Bounded(u8),
}

/// What a certificate is for.
#[derive(Debug, Clone, Copy, PartialEq, Eq, Structural)]
pub enum Purpose {
    /// TLS servers.
    ServerAuth,
}

/// The algorithm of a key.
#[derive(Debug, Clone, Copy, PartialEq, Eq, Structural)]
pub enum KeyKind {
    EcdsaP256,
    Other,
}

/// What goes into a certificate.
#[derive(Debug)]
pub struct CertPlan {
    /// The hosts that it is for.
    pub names: Vec<String>,
    pub common_name: String,
    pub organization: String,
    pub authority: Authority,
    pub usages: Vec<KeyUsage>,
    pub purposes: Vec<Purpose>,
    /// Unix seconds.
    pub not_before: i64,
    /// Unix seconds.
    pub not_after: i64,
    pub serial: u64,
}

/// An alternative name of a certificate: what it is for.
pub enum AltName {
    Dns(Seq<char>),
    /// An IP address, as it is commonly written.
    Ip(Seq<char>),
}

/// The alternative name for a host.
pub open spec fn alt_name(host: Seq<char>) -> AltName {
    match ip_address(host) {
        Some(address) => AltName::Ip(address),
        None => AltName::Dns(host),
    }
}

/// The alternative names for some hosts.
pub open spec fn alt_names(hosts: Seq<Seq<char>>) -> Seq<AltName> {
    hosts.map_values(|host: Seq<char>| alt_name(host))
}

/// What goes into a certificate.
pub struct PlanView {
    pub names: Seq<AltName>,
    pub common_name: Seq<char>,
    pub organization: Seq<char>,
    pub authority: Authority,
    pub usages: Seq<KeyUsage>,
    pub purposes: Seq<Purpose>,
    pub not_before: int,
    pub not_after: int,
    /// The serial number; the crate picks one where none is given.
    pub serial: Option<nat>,
}

impl View for CertPlan {
    type V = PlanView;

    open spec fn view(&self) -> PlanView {
        PlanView {
            names: alt_names(crate::text::texts(self.names@)),
            common_name: self.common_name@,
            organization: self.organization@,
            authority: self.authority,
            usages: self.usages@,
            purposes: self.purposes@,
            not_before: self.not_before as int,
            not_after: self.not_after as int,
            serial: Some(self.serial as nat),
        }
    }
}

/// Whole seconds of a time in nanoseconds.
pub open spec fn seconds_of(now_ns: u64) -> int {
    now_ns as int / 1_000_000_000
}

/// The plan of the root certificate.
pub open spec fn root_view(now_ns: u64) -> PlanView {
    PlanView {
        names: Seq::empty(),
        common_name: CA_COMMON_NAME@,
        organization: CA_ORGANIZATION@,
        authority: Authority::Unbounded,
        usages: seq![KeyUsage::CertSign, KeyUsage::CrlSign],
        purposes: Seq::empty(),
        not_before: seconds_of(now_ns) - BACKDATED_DAYS * SECONDS_PER_DAY,
        not_after: seconds_of(now_ns) + ROOT_VALIDITY_DAYS * SECONDS_PER_DAY,
        serial: Some(now_ns as nat),
    }
}

/// The plan of a leaf certificate for a host.
pub open spec fn leaf_view(host: Seq<char>, now_ns: u64) -> PlanView {
    PlanView {
        names: seq![alt_name(host)],
        common_name: host,
        organization: CA_ORGANIZATION@,
        authority: Authority::Denied,
        usages: seq![KeyUsage::DigitalSignature],
        purposes: seq![Purpose::ServerAuth],
        not_before: seconds_of(now_ns) - BACKDATED_DAYS * SECONDS_PER_DAY,
        not_after: seconds_of(now_ns) + LEAF_VALIDITY_DAYS * SECONDS_PER_DAY,
        serial: Some(now_ns as nat),
    }
}

/// Validity that X.509 can express: from 1950 to the year 9999.
pub open spec fn in_calendar(plan: PlanView) -> bool {
    -631_152_000 <= plan.not_before <= plan.not_after <= 253_402_300_799
}

/// The plan of the root certificate. The time is also its serial number:
/// two certificates of one issuer must not share one.
pub fn root_plan(now_ns: u64) -> (r: CertPlan)
    ensures
        r@ == root_view(now_ns),
        r.names@.len() == 0,
        in_calendar(r@),
{
    let now: i64 = (now_ns / 1_000_000_000) as i64;
    let mut usages: Vec<KeyUsage> = Vec::new();
    usages.push(KeyUsage::CertSign);
    usages.push(KeyUsage::CrlSign);
    let r = CertPlan {
        names: Vec::new(),
        common_name: CA_COMMON_NAME.to_owned(),
        organization: CA_ORGANIZATION.to_owned(),
        authority: Authority::Unbounded,
        usages,
        purposes: Vec::new(),
        not_before: now - BACKDATED_DAYS * SECONDS_PER_DAY,
        not_after: now + ROOT_VALIDITY_DAYS * SECONDS_PER_DAY,
        serial: now_ns,
    };
    proof {
        assert(r@.names =~= Seq::<AltName>::empty());
        assert(r@.usages =~= seq![KeyUsage::CertSign, KeyUsage::CrlSign]);
        assert(r@.purposes =~= Seq::<Purpose>::empty());
    }
    r
}

/// The plan of a leaf certificate for a host. The time is also its serial
/// number: two certificates of one issuer must not share one.
pub fn leaf_plan(host: &str, now_ns: u64) -> (r: CertPlan)
    ensures
        r@ == leaf_view(host@, now_ns),
        crate::text::texts(r.names@) == seq![host@],
        in_calendar(r@),
{
    let now: i64 = (now_ns / 1_000_000_000) as i64;
    let mut names: Vec<String> = Vec::new();
    names.push(host.to_owned());
    let mut usages: Vec<KeyUsage> = Vec::new();
    usages.push(KeyUsage::DigitalSignature);
    let mut purposes: Vec<Purpose> = Vec::new();
    purposes.push(Purpose::ServerAuth);
    let r = CertPlan {
        names,
        common_name: host.to_owned(),
        organization: CA_ORGANIZATION.to_owned(),
        authority: Authority::Denied,
        usages,
        purposes,
        not_before: now - BACKDATED_DAYS * SECONDS_PER_DAY,
        not_after: now + LEAF_VALIDITY_DAYS * SECONDS_PER_DAY,
        serial: now_ns,
    };
    proof {
        assert(crate::text::texts(r.names@) =~= seq![host@]);
        assert(r@.names =~= seq![alt_name(host@)]);
        assert(r@.usages =~= seq![KeyUsage::DigitalSignature]);
        assert(r@.purposes =~= seq![Purpose::ServerAuth]);
    }
    r
}

/// Leaf certificates are valid when they are made, and for less than the 825
/// days that Apple allows.
pub proof fn law_leaf_validity(host: Seq<char>, now_ns: u64)
    ensures
        leaf_view(host, now_ns).not_before < seconds_of(now_ns) < leaf_view(host, now_ns).not_after,
        leaf_view(host, now_ns).not_after - leaf_view(host, now_ns).not_before < 825
            * SECONDS_PER_DAY,
{
}

/// Certificates that are made at different times have different serial
/// numbers.
pub proof fn law_serials_differ(host: Seq<char>, host2: Seq<char>, now_ns: u64, later_ns: u64)
    requires
        now_ns != later_ns,
    ensures
        leaf_view(host, now_ns).serial != leaf_view(host2, later_ns).serial,
        leaf_view(host, now_ns).serial != root_view(later_ns).serial,
{
}

/// The PKCS#8 form of a private key; none where the key is held elsewhere
/// and can only be asked to sign.
pub uninterp spec fn key_der(key: rcgen::KeyPair) -> Option<Seq<u8>>;

/// Whether `pem` is a PEM text of the private key `der` in PKCS#8 form.
pub uninterp spec fn is_private_key_pem(pem: Seq<char>, der: Seq<u8>) -> bool;

/// The algorithm of a private key in PKCS#8 form.
pub uninterp spec fn key_kind(der: Seq<u8>) -> KeyKind;

/// The attributes of a subject: of each its type, where it is none that the
/// crate has a variant for, and its text, where that is a `PrintableString`.
pub type Subject = Seq<(Option<Seq<u64>>, Option<Seq<char>>)>;

/// The subject of a certificate's parameters.
pub uninterp spec fn params_subject(params: rcgen::CertificateParams) -> Subject;

/// The subject of a certificate.
pub uninterp spec fn issued_subject(certificate: rcgen::Certificate) -> Subject;

/// Whether parameters hold, beside their subject, nothing that cannot be
/// written: no object identifier that the crate has no variant for, no name
/// constraint, and times in UTC from 1950 to the year 9999.
pub uninterp spec fn is_plain(params: rcgen::CertificateParams) -> bool;

/// An object identifier that has a DER form.
pub open spec fn writable_type(oid: Seq<u64>) -> bool {
    &&& oid.len() >= 2
    &&& oid[0] < 3
    &&& oid[1] < 18_446_744_073_709_551_535
    &&& oid[0] >= 2 || oid[1] < 40
}

/// A character that the writer of a `PrintableString` takes. It takes no
/// question mark, which its reader does.
pub open spec fn writable_char(c: char) -> bool {
    ||| c == ' '
    ||| '\'' <= c && c <= ':' && c != '*'
    ||| c == '='
    ||| 'A' <= c && c <= 'Z'
    ||| 'a' <= c && c <= 'z'
}

/// Text that the writer of a `PrintableString` takes.
pub open spec fn writable_text(s: Seq<char>) -> bool {
    forall|i: int| 0 <= i < s.len() ==> writable_char(#[trigger] s[i])
}

/// One attribute of a subject that can be written.
pub open spec fn writable_attribute(a: (Option<Seq<u64>>, Option<Seq<char>>)) -> bool {
    &&& a.0 is Some ==> writable_type(a.0->0)
    &&& a.1 is Some ==> writable_text(a.1->0)
}

/// A subject that can be written.
pub open spec fn writable(subject: Subject) -> bool {
    forall|i: int| 0 <= i < subject.len() ==> writable_attribute(#[trigger] subject[i])
}

/// The parameters of a certificate, as far as a plan knows of them.
pub uninterp spec fn params_plan(params: rcgen::CertificateParams) -> PlanView;

/// The parameters that a certificate was made with, as far as a plan knows of
/// them.
pub uninterp spec fn issued_plan(certificate: rcgen::Certificate) -> PlanView;

/// The DER form of a certificate.
pub uninterp spec fn certificate_der(certificate: rcgen::Certificate) -> Seq<u8>;

/// Whether `pem` is a PEM text of the certificate `der`.
pub uninterp spec fn is_certificate_pem(pem: Seq<char>, der: Seq<u8>) -> bool;

/// Whether `der` is a certificate that holds what `plan` says and the public
/// half of `subject_key`, is issued in the name that `issuer` has as its
/// subject, and is signed with `issuer_key`. Keys are in PKCS#8 form.
pub uninterp spec fn is_signed(
    plan: PlanView,
    subject_key: Seq<u8>,
    issuer: PlanView,
    issuer_key: Seq<u8>,
    der: Seq<u8>,
) -> bool;

/// The IP address that a text is, as it is commonly written, if it is one.
pub uninterp spec fn ip_address(text: Seq<char>) -> Option<Seq<char>>;

/// Whether a certificate by a plan has extensions, without which it does not
/// say what its key may be used for.
pub open spec fn has_extensions(plan: PlanView) -> bool {
    plan.names.len() > 0 || plan.purposes.len() > 0 || !(plan.authority is Unstated)
}

/// What is said of hosts that no certificate can be made for.
pub uninterp spec fn names_error(names: Seq<Seq<char>>) -> Seq<char>;

/// What is said of bytes that are not UTF-8.
pub uninterp spec fn utf8_error(bytes: Seq<u8>) -> Seq<char>;

/// Whether a text is ASCII.
pub open spec fn ascii_only(s: Seq<char>) -> bool {
    forall|i: int| 0 <= i < s.len() ==> #[trigger] s[i] <= '\u{7f}'
}

/// `KeyPair::generate`: a new random ECDSA P-256 key, held here. It fails
/// where the system has no randomness to give.
#[verifier::external_body]
pub(crate) fn generate_key() -> (r: Result<rcgen::KeyPair, String>)
    ensures
        r is Ok ==> key_der(r->Ok_0) is Some && key_kind(key_der(r->Ok_0)->0) is EcdsaP256,
{
    rcgen::KeyPair::generate().map_err(|e| e.to_string())
}

/// `KeyPair::serialize_der`: the PKCS#8 form of a key that is held here.
#[verifier::external_body]
pub(crate) fn key_bytes(key: &rcgen::KeyPair) -> (r: Vec<u8>)
    requires
        key_der(*key) is Some,
    ensures
        key_der(*key) == Some(r@),
{
    key.serialize_der()
}

/// `KeyPair::serialize_pem`: a PEM text of the PKCS#8 form of a key that is
/// held here.
#[verifier::external_body]
pub(crate) fn key_text(key: &rcgen::KeyPair) -> (r: String)
    requires
        key_der(*key) is Some,
    ensures
        is_private_key_pem(r@, key_der(*key)->0),
{
    key.serialize_pem()
}

/// `KeyPair::from_pem`: a key that is read is held here, and it is the key
/// that the text was written from. Which texts are read is left to the crate.
#[verifier::external_body]
pub(crate) fn read_key(pem: &str) -> (r: Result<rcgen::KeyPair, String>)
    ensures
        r is Ok ==> key_der(r->Ok_0) is Some,
        r is Ok ==> forall|der: Seq<u8>| #[trigger]
            is_private_key_pem(pem@, der) ==> key_der(r->Ok_0) == Some(der),
{
    rcgen::KeyPair::from_pem(pem).map_err(|e| e.to_string())
}

/// `CertificateParams::new`: parameters for certain hosts, which are names or
/// IP addresses. Every host is accepted that is ASCII. IPv6 addresses can be
/// written in more than one way; a host that holds no colon is none, and is
/// carried as it is, be it an IPv4 address or a name. The subject that the
/// crate fills in can be written.
#[verifier::external_body]
pub(crate) fn params_for(names: &Vec<String>) -> (r: Result<rcgen::CertificateParams, String>)
    ensures
        r is Ok <==> forall|i: int| 0 <= i < names@.len() ==> ascii_only((#[trigger] names@[i])@),
        r is Ok ==> params_plan(r->Ok_0).names == alt_names(crate::text::texts(names@)),
        r is Ok ==> forall|i: int|
            0 <= i < names@.len() ==> (params_plan(r->Ok_0).names[i] is Ip <==> ip_address(
                (#[trigger] names@[i])@,
            ) is Some),
        r is Ok ==> forall|i: int|
            0 <= i < names@.len() && !(#[trigger] names@[i])@.contains(':') ==> {
                ||| params_plan(r->Ok_0).names[i] == AltName::Dns(names@[i]@)
                ||| params_plan(r->Ok_0).names[i] == AltName::Ip(names@[i]@)
            },
        r is Ok ==> is_plain(r->Ok_0) && writable(params_subject(r->Ok_0)),
        r is Err ==> r->Err_0@ == names_error(crate::text::texts(names@)),
{
    rcgen::CertificateParams::new(names.clone()).map_err(|e| e.to_string())
}

/// The subject in `CertificateParams`: its common name and organization, which
/// are written as UTF-8.
#[verifier::external_body]
pub(crate) fn set_subject(params: &mut rcgen::CertificateParams, plan: &CertPlan)
    ensures
        params_plan(*final(params)) == (PlanView {
            common_name: plan@.common_name,
            organization: plan@.organization,
            ..params_plan(*old(params))
        }),
        is_plain(*final(params)) == is_plain(*old(params)),
        writable(params_subject(*old(params))) ==> writable(params_subject(*final(params))),
{
    params.distinguished_name.push(rcgen::DnType::CommonName, plan.common_name.as_str());
    params.distinguished_name.push(rcgen::DnType::OrganizationName, plan.organization.as_str());
}

/// The fields of `CertificateParams` that say what the certificate is for.
#[verifier::external_body]
pub(crate) fn set_usage(params: &mut rcgen::CertificateParams, plan: &CertPlan)
    ensures
        params_plan(*final(params)) == (PlanView {
            authority: plan@.authority,
            usages: plan@.usages,
            purposes: plan@.purposes,
            ..params_plan(*old(params))
        }),
        is_plain(*old(params)) ==> is_plain(*final(params)),
        params_subject(*final(params)) == params_subject(*old(params)),
{
    params.is_ca = match plan.authority {
        Authority::Unstated => rcgen::IsCa::NoCa,
        Authority::Denied => rcgen::IsCa::ExplicitNoCa,
        Authority::Unbounded => rcgen::IsCa::Ca(rcgen::BasicConstraints::Unconstrained),
        Authority::Bounded(n) => rcgen::IsCa::Ca(rcgen::BasicConstraints::Constrained(n)),
    };
    params.key_usages = plan.usages.iter().map(|usage| match usage {
        KeyUsage::DigitalSignature => rcgen::KeyUsagePurpose::DigitalSignature,
        KeyUsage::CertSign => rcgen::KeyUsagePurpose::KeyCertSign,
        KeyUsage::CrlSign => rcgen::KeyUsagePurpose::CrlSign,
    }).collect();
    params.extended_key_usages = plan.purposes.iter().map(|purpose| match purpose {
        Purpose::ServerAuth => rcgen::ExtendedKeyUsagePurpose::ServerAuth,
    }).collect();
}

/// The fields of `CertificateParams` that say when the certificate is valid,
/// which `OffsetDateTime::from_unix_timestamp` of the `time` crate makes of
/// Unix seconds, and its serial number.
#[verifier::external_body]
pub(crate) fn set_validity(params: &mut rcgen::CertificateParams, plan: &CertPlan)
    requires
        in_calendar(plan@),
    ensures
        params_plan(*final(params)) == (PlanView {
            not_before: plan@.not_before,
            not_after: plan@.not_after,
            serial: plan@.serial,
            ..params_plan(*old(params))
        }),
        is_plain(*old(params)) ==> is_plain(*final(params)),
        params_subject(*final(params)) == params_subject(*old(params)),
{
    params.not_before = time::OffsetDateTime::from_unix_timestamp(plan.not_before).unwrap();
    params.not_after = time::OffsetDateTime::from_unix_timestamp(plan.not_after).unwrap();
    params.serial_number = Some(plan.serial.into());
}

/// `CertificateParams::from_ca_cert_pem`: the parameters of a certificate,
/// to issue in its name. The name is the subject of the certificate that the
/// text was written from. Which texts are read is left to the crate.
#[verifier::external_body]
pub(crate) fn read_ca_params(pem: &str) -> (r: Result<rcgen::CertificateParams, String>)
    ensures
        r is Ok ==> forall|
            plan: PlanView,
            subject_key: Seq<u8>,
            issuer: PlanView,
            issuer_key: Seq<u8>,
            der: Seq<u8>,
        |
            #[trigger] is_signed(plan, subject_key, issuer, issuer_key, der)
                && is_certificate_pem(pem@, der) ==> {
                &&& params_plan(r->Ok_0).common_name == plan.common_name
                &&& params_plan(r->Ok_0).organization == plan.organization
            },
{
    rcgen::CertificateParams::from_ca_cert_pem(pem).map_err(|e| e.to_string())
}

/// The view of one attribute of a subject.
pub open spec fn attribute_view(a: (Option<Vec<u64>>, Option<String>)) -> (
    Option<Seq<u64>>,
    Option<Seq<char>>,
) {
    (
        match a.0 {
            Some(oid) => Some(oid@),
            None => None,
        },
        match a.1 {
            Some(text) => Some(text@),
            None => None,
        },
    )
}

/// The views of the attributes of a subject.
pub open spec fn subject_view(attributes: Seq<(Option<Vec<u64>>, Option<String>)>) -> Subject {
    attributes.map_values(|a: (Option<Vec<u64>>, Option<String>)| attribute_view(a))
}

/// `DistinguishedName::iter` on the subject of `CertificateParams`: of each
/// attribute its type, where that is a custom one, and its text, where that is
/// a `PrintableString`.
#[verifier::external_body]
pub(crate) fn subject_of(params: &rcgen::CertificateParams) -> (r: Vec<
    (Option<Vec<u64>>, Option<String>),
>)
    ensures
        subject_view(r@) == params_subject(*params),
{
    params.distinguished_name.iter().map(|(ty, value)| (
        match ty {
            rcgen::DnType::CustomDnType(oid) => Some(oid.clone()),
            _ => None,
        },
        match value {
            rcgen::DnValue::PrintableString(text) => Some(text.as_str().to_string()),
            _ => None,
        },
    )).collect()
}

/// Whether an object identifier has a DER form.
pub fn can_write_type(oid: &Vec<u64>) -> (r: bool)
    ensures
        r == writable_type(oid@),
{
    oid.len() >= 2 && oid[0] < 3 && oid[1] < 18_446_744_073_709_551_535 && (oid[0] >= 2 || oid[1]
        < 40)
}

/// Whether the writer of a `PrintableString` takes a text.
pub fn can_write_text(s: &str) -> (r: bool)
    ensures
        r == writable_text(s@),
{
    let chars = crate::text::chars_of(s);
    let mut i: usize = 0;
    while i < chars.len()
        invariant
            chars@ == s@,
            i <= chars@.len(),
            forall|j: int| 0 <= j < i ==> writable_char(#[trigger] s@[j]),
        decreases chars@.len() - i,
    {
        let c: char = chars[i];
        if !(c == ' ' || ('\'' <= c && c <= ':' && c != '*') || c == '=' || ('A' <= c && c <= 'Z')
            || ('a' <= c && c <= 'z')) {
            return false;
        }
        i += 1;
    }
    true
}

/// Whether a subject can be written.
pub fn can_write_subject(subject: &Vec<(Option<Vec<u64>>, Option<String>)>) -> (r: bool)
    ensures
        r == writable(subject_view(subject@)),
{
    let ghost all = subject_view(subject@);
    let mut i: usize = 0;
    while i < subject.len()
        invariant
            i <= subject@.len(),
            all == subject_view(subject@),
            forall|j: int| 0 <= j < i ==> writable_attribute(#[trigger] all[j]),
        decreases subject@.len() - i,
    {
        proof {
            assert(all[i as int] == attribute_view(subject@[i as int]));
        }
        if let Some(oid) = &subject[i].0 {
            if !can_write_type(oid) {
                return false;
            }
        }
        if let Some(text) = &subject[i].1 {
            if !can_write_text(text.as_str()) {
                return false;
            }
        }
        i += 1;
    }
    true
}

/// The fields of `CertificateParams` by which certificates are issued: its
/// subject and its key identifier are those of other parameters.
#[verifier::external_body]
pub(crate) fn take_issuer(params: &mut rcgen::CertificateParams, issuer: rcgen::CertificateParams)
    ensures
        params_plan(*final(params)) == (PlanView {
            common_name: params_plan(issuer).common_name,
            organization: params_plan(issuer).organization,
            ..params_plan(*old(params))
        }),
        is_plain(*final(params)) == is_plain(*old(params)),
        params_subject(*final(params)) == params_subject(issuer),
{
    params.distinguished_name = issuer.distinguished_name;
    params.key_identifier_method = issuer.key_identifier_method;
}

/// `CertificateParams::self_signed`: a certificate with these parameters for
/// the key, issued in its own name and signed with the key itself. It fails
/// where signing does. The subject has to be one that can be written, and so
/// has everything else. Without a serial number or extensions the certificate
/// would hold what the parameters do not say, or not all that they say.
#[verifier::external_body]
pub(crate) fn self_sign(params: rcgen::CertificateParams, key: &rcgen::KeyPair) -> (r: Result<
    rcgen::Certificate,
    String,
>)
    requires
        key_der(*key) is Some,
        is_plain(params),
        writable(params_subject(params)),
        params_plan(params).serial is Some,
        has_extensions(params_plan(params)),
    ensures
        r is Ok ==> issued_plan(r->Ok_0) == params_plan(params),
        r is Ok ==> issued_subject(r->Ok_0) == params_subject(params),
        r is Ok ==> is_signed(
            params_plan(params),
            key_der(*key)->0,
            params_plan(params),
            key_der(*key)->0,
            certificate_der(r->Ok_0),
        ),
{
    params.self_signed(key).map_err(|e| e.to_string())
}

/// `CertificateParams::signed_by`: a certificate with these parameters for
/// the key, issued in the name of another certificate and signed with the
/// other key. It fails where signing does. Both subjects have to be such that
/// can be written, and so has everything else. Without a serial number or
/// extensions the certificate would hold what the parameters do not say, or
/// not all that they say.
#[verifier::external_body]
pub(crate) fn sign(
    params: rcgen::CertificateParams,
    key: &rcgen::KeyPair,
    issuer: &rcgen::Certificate,
    issuer_key: &rcgen::KeyPair,
) -> (r: Result<rcgen::Certificate, String>)
    requires
        key_der(*key) is Some,
        key_der(*issuer_key) is Some,
        is_plain(params),
        writable(params_subject(params)),
        params_plan(params).serial is Some,
        has_extensions(params_plan(params)),
        writable(issued_subject(*issuer)),
    ensures
        r is Ok ==> issued_plan(r->Ok_0) == params_plan(params),
        r is Ok ==> issued_subject(r->Ok_0) == params_subject(params),
        r is Ok ==> is_signed(
            params_plan(params),
            key_der(*key)->0,
            issued_plan(*issuer),
            key_der(*issuer_key)->0,
            certificate_der(r->Ok_0),
        ),
{
    params.signed_by(key, issuer, issuer_key).map_err(|e| e.to_string())
}

/// `Certificate::der`.
#[verifier::external_body]
pub(crate) fn certificate_bytes(certificate: &rcgen::Certificate) -> (r: Vec<u8>)
    ensures
        r@ == certificate_der(*certificate),
{
    certificate.der().to_vec()
}

/// `Certificate::pem`.
#[verifier::external_body]
pub(crate) fn certificate_text(certificate: &rcgen::Certificate) -> (r: String)
    ensures
        is_certificate_pem(r@, certificate_der(*certificate)),
{
    certificate.pem()
}

/// `any_supported_type` of `rustls` with `ring`: whether TLS can be served
/// with a private key in PKCS#8 form; what is wrong with it if not. It draws
/// randomness, so nothing is claimed of the outcome.
#[verifier::external_body]
pub(crate) fn check_signing_key(der: &Vec<u8>) -> (r: Result<(), String>)
{
    let key = rustls::pki_types::PrivatePkcs8KeyDer::from(der.as_slice());
    rustls::crypto::ring::sign::any_supported_type(&key.into())
        .map(|_| ())
        .map_err(|e| e.to_string())
}

/// `std::str::from_utf8`: the text of bytes that are UTF-8.
#[verifier::external_body]
pub(crate) fn utf8_text(bytes: &Vec<u8>) -> (r: Result<String, String>)
    ensures
        r is Ok <==> valid_utf8(bytes@),
        r is Ok ==> r->Ok_0@ == decode_utf8(bytes@),
        r is Err ==> r->Err_0@ == utf8_error(bytes@),
{
    std::str::from_utf8(bytes).map(|s| s.to_string()).map_err(|e| e.to_string())
}

/// A leaf certificate is for its host alone: it names the host and no other,
/// may serve TLS and sign, and may not issue certificates. It is valid from a
/// day before it is made for 820 days after that, and has the time as its
/// serial number.
pub proof fn law_leaf_is_for_its_host(host: &str, now_ns: u64, r: CertPlan)
    requires
        call_ensures(leaf_plan, (host, now_ns), r),
    ensures
        r.names@.len() == 1,
        r.names@[0]@ == host@,
        r.common_name@ == host@,
        r.organization@ == "httpmate"@,
        r.authority is Denied,
        r.usages@ == seq![KeyUsage::DigitalSignature],
        r.purposes@ == seq![Purpose::ServerAuth],
        r.not_before == now_ns as int / 1_000_000_000 - 86_400,
        r.not_after == now_ns as int / 1_000_000_000 + 820 * 86_400,
        r.serial == now_ns,
        r.not_after - r.not_before < 825 * 86_400,
{
    let names = crate::text::texts(r.names@);
    assert(names.len() == 1);
    assert(names[0] == host@);
}

/// The root certificate may issue certificates and revocation lists, and is
/// for no host and no other purpose. It is valid from a day before it is made
/// for 3650 days after that, and has the time as its serial number.
pub proof fn law_root_is_an_issuer(now_ns: u64, r: CertPlan)
    requires
        call_ensures(root_plan, (now_ns,), r),
    ensures
        r.names@.len() == 0,
        r.common_name@ == "httpmate Root CA"@,
        r.organization@ == "httpmate"@,
        r.authority is Unbounded,
        r.usages@ == seq![KeyUsage::CertSign, KeyUsage::CrlSign],
        r.purposes@.len() == 0,
        r.not_before == now_ns as int / 1_000_000_000 - 86_400,
        r.not_after == now_ns as int / 1_000_000_000 + 3650 * 86_400,
        r.serial == now_ns,
{
}

/// What a plan holds is what goes into the certificate, field by field.
pub proof fn law_plan_is_what_it_holds(plan: CertPlan, i: int)
    ensures
        plan@.names.len() == plan.names@.len(),
        0 <= i < plan.names@.len() && ip_address(plan.names@[i]@) is None ==> plan@.names[i]
            == AltName::Dns(plan.names@[i]@),
        0 <= i < plan.names@.len() && ip_address(plan.names@[i]@) is Some ==> plan@.names[i]
            == AltName::Ip(ip_address(plan.names@[i]@)->0),
        plan@.common_name == plan.common_name@,
        plan@.organization == plan.organization@,
        plan@.authority == plan.authority,
        plan@.usages == plan.usages@,
        plan@.purposes == plan.purposes@,
        plan@.not_before == plan.not_before,
        plan@.not_after == plan.not_after,
        plan@.serial == Some(plan.serial as nat),
{
}

/// The characters that the writer of a `PrintableString` takes: letters,
/// digits, the space and a few marks.
pub proof fn law_printable_characters(c: char)
    ensures
        writable_char(c) <==> {
            ||| 'a' <= c && c <= 'z'
            ||| 'A' <= c && c <= 'Z'
            ||| '0' <= c && c <= '9'
            ||| " '()+,-./:="@.contains(c)
        },
{
    reveal_strlit(" '()+,-./:=");
    let marks = " '()+,-./:="@;
    assert(marks[0] == ' ' && marks[1] == '\'' && marks[2] == '(' && marks[3] == ')');
    assert(marks[4] == '+' && marks[5] == ',' && marks[6] == '-' && marks[7] == '.');
    assert(marks[8] == '/' && marks[9] == ':' && marks[10] == '=');
    assert(marks.len() == 11);
    if marks.contains(c) {
        let i = choose|i: int| 0 <= i < marks.len() && marks[i] == c;
        assert(i == 0 || i == 1 || i == 2 || i == 3 || i == 4 || i == 5 || i == 6 || i == 7 || i
            == 8 || i == 9 || i == 10);
    }
}

/// An object identifier has a DER form if it has two numbers or more, the
/// first is at most two, and the second is below forty unless the first is two.
pub proof fn law_object_identifiers_with_a_form(oid: Seq<u64>)
    ensures
        oid.len() < 2 ==> !writable_type(oid),
        oid.len() >= 2 && oid[0] > 2 ==> !writable_type(oid),
        oid.len() >= 2 && oid[0] <= 1 ==> (writable_type(oid) <==> oid[1] < 40),
        oid.len() >= 2 && oid[0] == 2 ==> (writable_type(oid) <==> oid[1] + 80 < u64::MAX),
{
}

} // verus!
