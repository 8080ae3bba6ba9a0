//! On-the-fly certificate authority used to terminate TLS for proxied requests.
//!
//! A forward proxy only sees `CONNECT host:443` for HTTPS traffic, so the bodies are opaque
//! unless the connection is decrypted. A CA is generated per run, handed to the toolchains via
//! their trust-store environment variables, and used to mint a leaf certificate for every host
//! that is connected to.

use crate::{digest, numbers, text, wire};
use dashmap::DashMap;
use rcgen::{
    BasicConstraints, Certificate, CertificateParams, DistinguishedName, DnType,
    ExtendedKeyUsagePurpose, IsCa, KeyPair, KeyUsagePurpose,
};
use rustls::pki_types::{CertificateDer, PrivateKeyDer, PrivatePkcs8KeyDer};
use rustls::ServerConfig;
use std::sync::Arc;
use time::OffsetDateTime;
use vstd::prelude::*;
use vstd::utf8::encode_utf8;

verus! {

/// `rcgen::Certificate`, carried from where it is made to where it signs.
#[verifier::external_type_specification]
#[verifier::external_body]
pub struct ExCertificate(Certificate);

/// `rcgen::CertificateParams`, carried from where they are made to where they are signed.
#[verifier::external_type_specification]
#[verifier::external_body]
pub struct ExCertificateParams(CertificateParams);

/// `rcgen::KeyPair`, carried from where it is made to where it signs.
#[verifier::external_type_specification]
#[verifier::external_body]
pub struct ExKeyPair(KeyPair);

/// `rustls::ServerConfig`, handed to whoever accepts connections.
#[verifier::external_type_specification]
#[verifier::external_body]
pub struct ExServerConfig(ServerConfig);

/// `dashmap::DashMap`.
#[verifier::external_type_specification]
#[verifier::external_body]
#[verifier::reject_recursive_types(K)]
#[verifier::reject_recursive_types(V)]
#[verifier::reject_recursive_types(S)]
pub struct ExDashMap<K, V, S>(DashMap<K, V, S>);

/// The configurations that a map holds, under the hosts that they are for.
pub uninterp spec fn configs_of(m: DashMap<String, Arc<ServerConfig>>) -> Map<
    Seq<char>,
    Arc<ServerConfig>,
>;

/// `DashMap::new` makes a map without configurations.
#[verifier::external_body]
fn no_configs() -> (out: DashMap<String, Arc<ServerConfig>>)
    ensures
        configs_of(out).dom().is_empty(),
{
    DashMap::new()
}

/// `DashMap::get` finds the configuration of a host.
#[verifier::external_body]
fn kept_config(m: &DashMap<String, Arc<ServerConfig>>, host: &str) -> (out: Option<
    Arc<ServerConfig>,
>)
    ensures
        out is Some == configs_of(*m).contains_key(host@),
        out matches Some(c) ==> c == configs_of(*m)[host@],
{
    m.get(host).map(|c| c.clone())
}

/// `DashMap::insert` keeps a configuration for a host.
#[verifier::external_body]
fn keep_config(
    m: &mut DashMap<String, Arc<ServerConfig>>,
    host: String,
    config: &Arc<ServerConfig>,
)
    ensures
        configs_of(*final(m)) == configs_of(*old(m)).insert(host@, *config),
{
    m.insert(host, config.clone());
}

/// What a key may be used for.
#[derive(Debug, Clone, Copy, PartialEq, Eq, Structural)]
pub enum KeyUsage {
    KeyCertSign,
    CrlSign,
    DigitalSignature,
    KeyEncipherment,
}

/// What a certificate is for.
#[derive(Debug, Clone, Copy, PartialEq, Eq, Structural)]
pub enum Role {
    /// Signing other certificates.
    Authority,
    /// Being presented by a server.
    Server,
}

/// What a certificate may be presented for.
#[derive(Debug, Clone, Copy, PartialEq, Eq, Structural)]
pub enum Purpose {
    ServerAuth,
}

/// What a certificate states.
#[derive(Debug)]
pub struct Profile {
    pub common_name: String,
    pub organization: Option<String>,
    /// The hosts that it stands for.
    pub names: Vec<String>,
    pub role: Role,
    pub authority_key_identifier: bool,
    pub key_usages: Vec<KeyUsage>,
    /// What it may be presented for; anything where there is nothing.
    pub purposes: Vec<Purpose>,
    /// The moments from which and until which it is valid, in seconds since the Unix epoch.
    pub not_before: i64,
    pub not_after: i64,
}

/// What a certificate stands for.
pub enum AltName {
    /// A host of that name.
    Dns(Seq<char>),
    /// The host at that address, of four or sixteen bytes.
    Address(Seq<u8>),
}

/// Whether a text is made of the characters that addresses are made of.
pub open spec fn address_like(text: Seq<char>) -> bool {
    forall|i: int|
        0 <= i < text.len() ==> {
            ||| '0' <= #[trigger] text[i] && text[i] <= '9'
            ||| 'a' <= text[i] && text[i] <= 'f'
            ||| 'A' <= text[i] && text[i] <= 'F'
            ||| text[i] == '.' || text[i] == ':'
        }
}

/// What `rcgen` takes a text for that is made of the characters that addresses are made of: an
/// address where it reads as one, and a host name where it does not.
pub uninterp spec fn resembling(text: Seq<char>) -> AltName;

/// What a certificate for a text stands for.
pub open spec fn alt_name(text: Seq<char>) -> AltName {
    if address_like(text) {
        resembling(text)
    } else {
        AltName::Dns(text)
    }
}

/// What a [`Profile`] has a certificate state.
pub struct ProfileModel {
    pub common_name: Seq<char>,
    pub organization: Option<Seq<char>>,
    pub names: Seq<AltName>,
    pub role: Role,
    pub authority_key_identifier: bool,
    pub key_usages: Set<KeyUsage>,
    pub purposes: Seq<Purpose>,
    pub not_before: int,
    pub not_after: int,
}

impl Profile {
    /// What the profile has a certificate state.
    pub open spec fn view(&self) -> ProfileModel {
        ProfileModel {
            common_name: self.common_name@,
            organization: text::optional_string(self.organization),
            names: self.names@.map_values(|name: String| alt_name(name@)),
            role: self.role,
            authority_key_identifier: self.authority_key_identifier,
            key_usages: self.key_usages@.to_set(),
            purposes: self.purposes@,
            not_before: self.not_before as int,
            not_after: self.not_after as int,
        }
    }
}

/// The first moment of the year 0 and the last of the year 9999, in seconds since the Unix epoch.
pub const EARLIEST: i64 = -62_167_219_200;

pub const LATEST: i64 = 253_402_300_799;

/// Whether a certificate can state a moment.
pub open spec fn datable(t: int) -> bool {
    EARLIEST <= t <= LATEST
}

/// The beginning of a day in UTC, in seconds since the Unix epoch. Years are counted from the first
/// of March, which puts the day that only some of them have at their end.
pub open spec fn midnight(year: int, month: int, day: int) -> int {
    let y = if month <= 2 {
        year - 1
    } else {
        year
    };
    let m = (month + 9) % 12;
    (365 * y + y / 4 - y / 100 + y / 400 + (153 * m + 2) / 5 + day - 1 - 719_468) * 86_400
}

/// `rcgen::date_time_ymd` is the moment at which a day begins in UTC. It panics on a day that the
/// calendar does not have.
#[verifier::external_body]
fn midnight_of(year: i32, month: u8, day: u8) -> (out: i64)
    requires
        0 <= year <= 9999,
        1 <= month <= 12,
        1 <= day <= 28,
    ensures
        out == midnight(year as int, month as int, day as int),
{
    rcgen::date_time_ymd(year, month, day).unix_timestamp()
}

/// `time::OffsetDateTime::now_utc`, in seconds since the Unix epoch. Nothing is promised of the
/// result.
#[verifier::external_body]
fn utc_now() -> (out: i64) {
    OffsetDateTime::now_utc().unix_timestamp()
}

/// The public half of a key, in DER form.
pub uninterp spec fn public_key(key: KeyPair) -> Seq<u8>;

/// The public half of a private key in PKCS #8 form, in DER form.
pub uninterp spec fn public_half(private: Seq<u8>) -> Seq<u8>;

/// `rcgen::KeyPair::generate` makes a random key; with it comes its PKCS #8 form, which is what
/// `rcgen::KeyPair::serialize_der` gives. Which key it is, and whether there is one, is left open.
#[verifier::external_body]
fn generate_key() -> (out: Result<(KeyPair, Vec<u8>), String>)
    ensures
        out matches Ok(made) ==> public_half(made.1@) == public_key(made.0),
{
    let key = KeyPair::generate().map_err(|e| e.to_string())?;
    let der = key.serialize_der();
    Ok((key, der))
}

/// What the parameters of a certificate have it state.
pub uninterp spec fn stated(c: CertificateParams) -> ProfileModel;

/// Whether a certificate can stand for a name.
pub open spec fn nameable(name: Seq<char>) -> bool {
    vstd::utf8::is_ascii_chars(name)
}

/// `rcgen::CertificateParams::new` for some names, which may be any ASCII texts, with a
/// `rcgen::DistinguishedName` onto which the common name is pushed. A name that reads as an IP address
/// stands for that address, and any other for the host of that name. The words of an error are its
/// `Display` form, and left open.
#[verifier::external_body]
fn params_named(names: &Vec<String>, common_name: &str) -> (out: Result<CertificateParams, String>)
    ensures
        out is Ok == (forall|i: int| 0 <= i < names@.len() ==> nameable(#[trigger] names@[i]@)),
        out matches Ok(c) ==> stated(c).common_name == common_name@ && stated(c).organization is None,
        out matches Ok(c) ==> stated(c).names.len() == names@.len(),
        out matches Ok(c) ==> forall|i: int|
            0 <= i < names@.len() && address_like(names@[i]@) ==> #[trigger] stated(c).names[i]
                == resembling(names@[i]@),
        out matches Ok(c) ==> forall|i: int|
            0 <= i < names@.len() && !address_like(names@[i]@) ==> #[trigger] stated(c).names[i]
                == AltName::Dns(names@[i]@),
{
    let mut c = CertificateParams::new(names.clone()).map_err(|e| e.to_string())?;
    c.distinguished_name = DistinguishedName::new();
    c.distinguished_name.push(DnType::CommonName, common_name);
    Ok(c)
}

/// A profile with an organization.
pub open spec fn of_organization(p: ProfileModel, organization: Seq<char>) -> ProfileModel {
    ProfileModel { organization: Some(organization), ..p }
}

/// `rcgen::DistinguishedName::push` of an organization, in place of the one that was pushed before.
#[verifier::external_body]
fn set_organization(c: &mut CertificateParams, organization: &str)
    ensures
        stated(*final(c)) == of_organization(stated(*old(c)), organization@),
{
    c.distinguished_name.push(DnType::OrganizationName, organization);
}

/// A profile with another role and other purposes.
pub open spec fn in_role(p: ProfileModel, role: Role, purposes: Seq<Purpose>) -> ProfileModel {
    ProfileModel { role, purposes, ..p }
}

/// Sets the fields `is_ca` and `extended_key_usages` of `rcgen::CertificateParams`. An authority is
/// one without constraints.
#[verifier::external_body]
fn set_role(c: &mut CertificateParams, role: Role, purposes: &[Purpose])
    ensures
        stated(*final(c)) == in_role(stated(*old(c)), role, purposes@),
{
    c.is_ca = match role {
        Role::Authority => IsCa::Ca(BasicConstraints::Unconstrained),
        Role::Server => IsCa::NoCa,
    };
    c.extended_key_usages = purposes
        .iter()
        .map(|purpose| match purpose {
            Purpose::ServerAuth => ExtendedKeyUsagePurpose::ServerAuth,
        })
        .collect();
}

/// A profile with other uses of its key.
pub open spec fn with_usages(p: ProfileModel, key_usages: Set<KeyUsage>) -> ProfileModel {
    ProfileModel { key_usages, ..p }
}

/// Sets the field `key_usages` of `rcgen::CertificateParams`.
#[verifier::external_body]
fn set_key_usages(c: &mut CertificateParams, usages: &[KeyUsage])
    ensures
        stated(*final(c)) == with_usages(stated(*old(c)), usages@.to_set()),
{
    c.key_usages = usages
        .iter()
        .map(|usage| match usage {
            KeyUsage::KeyCertSign => KeyUsagePurpose::KeyCertSign,
            KeyUsage::CrlSign => KeyUsagePurpose::CrlSign,
            KeyUsage::DigitalSignature => KeyUsagePurpose::DigitalSignature,
            KeyUsage::KeyEncipherment => KeyUsagePurpose::KeyEncipherment,
        })
        .collect();
}

/// A profile with another validity, which names the key that signs it or not.
pub open spec fn dated(p: ProfileModel, identified: bool, from: int, to: int) -> ProfileModel {
    ProfileModel { authority_key_identifier: identified, not_before: from, not_after: to, ..p }
}

/// Sets the fields `use_authority_key_identifier_extension`, `not_before` and `not_after` of
/// `rcgen::CertificateParams`. A moment that no certificate can state would make `rcgen` panic when
/// the certificate is signed.
#[verifier::external_body]
fn set_validity(c: &mut CertificateParams, identified: bool, from: i64, to: i64)
    requires
        datable(from as int),
        datable(to as int),
    ensures
        stated(*final(c)) == dated(stated(*old(c)), identified, from as int, to as int),
{
    c.use_authority_key_identifier_extension = identified;
    c.not_before = OffsetDateTime::from_unix_timestamp(from).unwrap();
    c.not_after = OffsetDateTime::from_unix_timestamp(to).unwrap();
}

/// The parameters of a certificate that states a profile, or why there are none: a certificate
/// cannot stand for one of the names.
pub fn certificate_params(p: &Profile) -> (out: Result<CertificateParams, String>)
    requires
        datable(p.not_before as int),
        datable(p.not_after as int),
    ensures
        out is Ok == (forall|i: int|
            0 <= i < p.names@.len() ==> nameable(#[trigger] p.names@[i]@)),
        out matches Ok(c) ==> stated(c) == p@,
{
    let mut c = match params_named(&p.names, p.common_name.as_str()) {
        Ok(c) => c,
        Err(e) => return Err(e),
    };
    assert(stated(c).names =~= p@.names);
    if let Some(organization) = &p.organization {
        set_organization(&mut c, organization.as_str());
    }
    set_role(&mut c, p.role, p.purposes.as_slice());
    set_key_usages(&mut c, p.key_usages.as_slice());
    set_validity(&mut c, p.authority_key_identifier, p.not_before, p.not_after);
    Ok(c)
}

/// The DER form of a certificate.
pub uninterp spec fn der_of(cert: Certificate) -> Seq<u8>;

/// What a certificate in DER form states of the one that it is for.
pub uninterp spec fn certifies(der: Seq<u8>) -> ProfileModel;

/// The public key that a certificate in DER form is for, in DER form.
pub uninterp spec fn certified_key(der: Seq<u8>) -> Seq<u8>;

/// The one whom a certificate in DER form names as its issuer.
pub uninterp spec fn issuer_of(der: Seq<u8>) -> Subject;

/// Whether a certificate in DER form bears a signature that a public key verifies.
pub uninterp spec fn signed_under(der: Seq<u8>, key: Seq<u8>) -> bool;

/// The one whom a certificate is for, by name.
pub struct Subject {
    pub common_name: Seq<char>,
    pub organization: Option<Seq<char>>,
}

/// The one whom a certificate with a profile is for.
pub open spec fn subject(p: ProfileModel) -> Subject {
    Subject { common_name: p.common_name, organization: p.organization }
}

/// Whether a certificate with a profile has extensions, in which it states more than a subject and a
/// validity.
pub open spec fn extended(p: ProfileModel) -> bool {
    p.role is Authority || p.authority_key_identifier || p.names.len() > 0 || p.purposes.len() > 0
}

/// A text without carriage returns.
pub open spec fn sans_cr(s: Seq<char>) -> Seq<char> {
    s.filter(|c: char| c != '\r')
}

/// `rcgen::CertificateParams::self_signed` makes a certificate for a key that the same key signs, and
/// that states what its parameters have it state, where that includes anything for extensions. It
/// names its subject as its issuer. With it come its DER and PEM forms, which are what
/// `rcgen::Certificate::der` and `rcgen::Certificate::pem` give; how the lines of the latter end
/// depends on the machine. Which signature it bears, and whether there is one, is left open. It
/// panics on a moment that no certificate can state.
#[verifier::external_body]
fn self_signed(params: CertificateParams, key: &KeyPair) -> (out: Result<
    (Certificate, Vec<u8>, String),
    String,
>)
    requires
        datable(stated(params).not_before),
        datable(stated(params).not_after),
    ensures
        out matches Ok(made) ==> made.1@ == der_of(made.0),
        out matches Ok(made) ==> (extended(stated(params)) ==> certifies(made.1@) == stated(params)),
        out matches Ok(made) ==> issuer_of(made.1@) == subject(stated(params)),
        out matches Ok(made) ==> certified_key(made.1@) == public_key(*key),
        out matches Ok(made) ==> signed_under(made.1@, public_key(*key)),
        out matches Ok(made) ==> sans_cr(made.2@) == pem(made.1@),
{
    let cert = params.self_signed(key).map_err(|e| e.to_string())?;
    let der = cert.der().to_vec();
    let pem = cert.pem();
    Ok((cert, der, pem))
}

/// `rcgen::CertificateParams::signed_by` makes a certificate for a key that another key signs, in
/// DER form. It states what its parameters have it state, where that includes anything for
/// extensions, and names the subject of the issuer's certificate as its issuer. Which signature it
/// bears, and whether there is one, is left open. It panics on a moment that no certificate can
/// state.
#[verifier::external_body]
fn signed_by(
    params: CertificateParams,
    key: &KeyPair,
    issuer: &Certificate,
    issuer_key: &KeyPair,
) -> (out: Result<Vec<u8>, String>)
    requires
        datable(stated(params).not_before),
        datable(stated(params).not_after),
    ensures
        out matches Ok(der) ==> (extended(stated(params)) ==> certifies(der@) == stated(params)),
        out matches Ok(der) ==> issuer_of(der@) == subject(certifies(der_of(*issuer))),
        out matches Ok(der) ==> certified_key(der@) == public_key(*key),
        out matches Ok(der) ==> signed_under(der@, public_key(*issuer_key)),
{
    let cert = params.signed_by(key, issuer, issuer_key).map_err(|e| e.to_string())?;
    Ok(cert.der().to_vec())
}

/// The certificates that a server presents, in DER form, its own first.
pub uninterp spec fn presented(config: ServerConfig) -> Seq<Seq<u8>>;

/// The protocols that a server speaks.
pub uninterp spec fn spoken(config: ServerConfig) -> Seq<Seq<u8>>;

/// The public half of the key that a server signs with, in DER form.
pub uninterp spec fn held_key(config: ServerConfig) -> Seq<u8>;

/// `rustls::ServerConfig` of a server that presents a chain of certificates, signs with a key and
/// speaks some protocols, without client authentication: `with_single_cert` of its builder, and its
/// field `alpn_protocols`. There is none where the key is not the one that the first certificate is
/// for. When else there is none is left open: loading a key asks the machine for random bytes, and
/// fails where it has none to give.
#[verifier::external_body]
fn tls_config(chain: Vec<Vec<u8>>, key: Vec<u8>, protocols: Vec<Vec<u8>>) -> (out: Result<
    Arc<ServerConfig>,
    String,
>)
    ensures
        out is Ok ==> chain@.len() > 0 && certified_key(chain@[0]@) == public_half(key@),
        out matches Ok(c) ==> presented(*c) == wire::byte_runs(chain@),
        out matches Ok(c) ==> spoken(*c) == wire::byte_runs(protocols@),
        out matches Ok(c) ==> held_key(*c) == public_half(key@),
{
    let provider = Arc::new(rustls::crypto::ring::default_provider());
    let chain = chain.into_iter().map(CertificateDer::from).collect();
    let key = PrivateKeyDer::Pkcs8(PrivatePkcs8KeyDer::from(key));
    let mut config = ServerConfig::builder_with_provider(provider)
        .with_safe_default_protocol_versions()
        .map_err(|e| e.to_string())?
        .with_no_client_auth()
        .with_single_cert(chain, key)
        .map_err(|e| e.to_string())?;
    config.alpn_protocols = protocols;
    Ok(Arc::new(config))
}

/// A day in seconds.
pub const DAY: i64 = 86_400;

/// Subject of the generated CA, used to find it again in the macOS keychain.
pub open spec fn authority_name() -> Seq<char> {
    "cicache local CA"@
}

/// What the CA's certificate states.
pub open spec fn authority() -> ProfileModel {
    ProfileModel {
        common_name: authority_name(),
        organization: Some("cicache"@),
        names: Seq::empty(),
        role: Role::Authority,
        authority_key_identifier: false,
        key_usages: set![KeyUsage::KeyCertSign, KeyUsage::CrlSign, KeyUsage::DigitalSignature],
        purposes: Seq::empty(),
        not_before: midnight(2020, 1, 1),
        not_after: midnight(2035, 1, 1),
    }
}

/// What the certificate of a host states that is minted at some moment.
///
/// Apple rejects server certificates whose validity exceeds 398 days as "not standards
/// compliant", which takes down anything on macOS that verifies through the platform, rustup among
/// them. Browsers enforce the same limit.
pub open spec fn leaf(host: Seq<char>, now: int) -> ProfileModel {
    ProfileModel {
        common_name: host,
        organization: None,
        names: seq![alt_name(host)],
        role: Role::Server,
        authority_key_identifier: true,
        key_usages: set![KeyUsage::DigitalSignature, KeyUsage::KeyEncipherment],
        purposes: seq![Purpose::ServerAuth],
        not_before: now - DAY,
        not_after: now + 300 * DAY,
    }
}

/// Subject of the generated CA.
pub fn ca_common_name() -> (out: &'static str)
    ensures
        out@ == authority_name(),
{
    "cicache local CA"
}

/// The elements of a list of three.
proof fn lemma_usages_of_three(list: Seq<KeyUsage>)
    requires
        list.len() == 3,
    ensures
        list.to_set() == set![list[0], list[1], list[2]],
{
    assert forall|u: KeyUsage| #[trigger] list.to_set().contains(u) == set![
        list[0],
        list[1],
        list[2],
    ].contains(u) by {
        if u == list[0] || u == list[1] || u == list[2] {
            assert(list.contains(u));
        }
    }
    assert(list.to_set() =~= set![list[0], list[1], list[2]]);
}

/// The elements of a list of two.
proof fn lemma_usages_of_two(list: Seq<KeyUsage>)
    requires
        list.len() == 2,
    ensures
        list.to_set() == set![list[0], list[1]],
{
    assert forall|u: KeyUsage| #[trigger] list.to_set().contains(u) == set![
        list[0],
        list[1],
    ].contains(u) by {
        if u == list[0] || u == list[1] {
            assert(list.contains(u));
        }
    }
    assert(list.to_set() =~= set![list[0], list[1]]);
}

/// What the CA's certificate states.
pub fn authority_profile() -> (out: Profile)
    ensures
        out@ == authority(),
        datable(out.not_before as int),
        datable(out.not_after as int),
{
    let names: Vec<String> = Vec::new();
    let key_usages: Vec<KeyUsage> = vec![
        KeyUsage::KeyCertSign,
        KeyUsage::CrlSign,
        KeyUsage::DigitalSignature,
    ];
    let purposes: Vec<Purpose> = Vec::new();
    assert(key_usages@.to_set() =~= authority().key_usages) by {
        lemma_usages_of_three(key_usages@);
    }
    assert(purposes@ =~= Seq::empty());
    let ghost none = names@.map_values(|name: String| alt_name(name@));
    assert(none =~= Seq::empty());
    Profile {
        common_name: ca_common_name().to_string(),
        organization: Some("cicache".to_string()),
        names,
        role: Role::Authority,
        authority_key_identifier: false,
        key_usages,
        purposes,
        not_before: midnight_of(2020, 1, 1),
        not_after: midnight_of(2035, 1, 1),
    }
}

/// What the certificate of a host states that is minted at some moment.
pub fn leaf_profile(host: &str, now: i64) -> (out: Profile)
    requires
        datable(now - DAY),
        datable(now + 300 * DAY),
    ensures
        out@ == leaf(host@, now as int),
        text::texts(out.names@) == seq![host@],
{
    let names: Vec<String> = vec![host.to_string()];
    let key_usages: Vec<KeyUsage> = vec![KeyUsage::DigitalSignature, KeyUsage::KeyEncipherment];
    let purposes: Vec<Purpose> = vec![Purpose::ServerAuth];
    let ghost stands_for = names@.map_values(|name: String| alt_name(name@));
    assert(stands_for =~= seq![alt_name(host@)]);
    assert(text::texts(names@) =~= seq![host@]);
    assert(key_usages@.to_set() =~= leaf(host@, now as int).key_usages) by {
        lemma_usages_of_two(key_usages@);
    }
    assert(purposes@ =~= seq![Purpose::ServerAuth]);
    Profile {
        common_name: host.to_string(),
        organization: None,
        names,
        role: Role::Server,
        authority_key_identifier: true,
        key_usages,
        purposes,
        not_before: now - DAY,
        not_after: now + 300 * DAY,
    }
}

/// The parameters of the certificate of a host that is minted at some moment, or why there are none:
/// no certificate can state the moment, or none can stand for the host.
pub fn leaf_params(host: &str, now: i64) -> (out: Result<CertificateParams, String>)
    ensures
        out is Ok == (mintable(now as int) && nameable(host@)),
        out matches Ok(c) ==> stated(c) == leaf(host@, now as int),
        out matches Err(e) ==> is_params_error(e@, now as int),
{
    proof {
        lemma_prefix();
    }
    if now < EARLIEST + DAY || now > LATEST - 300 * DAY {
        return Err("building leaf params: the clock is out of range".to_string());
    }
    let profile = leaf_profile(host, now);
    proof {
        assert(profile.names@.len() == text::texts(profile.names@).len());
        assert(text::texts(profile.names@)[0] == profile.names@[0]@);
    }
    match certificate_params(&profile) {
        Ok(params) => Ok(params),
        Err(e) => Err(text::concat("building leaf params: ", e.as_str())),
    }
}

/// A host's certificate is valid when it is minted, stands for that host alone, cannot sign others,
/// and is not valid for longer than 398 days.
pub proof fn law_leaves_are_standards_compliant(host: Seq<char>, now: int)
    ensures
        leaf(host, now).not_before <= now <= leaf(host, now).not_after,
        leaf(host, now).not_after - leaf(host, now).not_before <= 398 * DAY,
        leaf(host, now).names == seq![alt_name(host)],
        leaf(host, now).role is Server,
        !leaf(host, now).key_usages.contains(KeyUsage::KeyCertSign),
{
}

/// A text in lines of 64 characters.
pub open spec fn wrapped(s: Seq<char>) -> Seq<char>
    decreases s.len(),
{
    if s.len() == 0 {
        Seq::empty()
    } else if s.len() <= 64 {
        s + "\n"@
    } else {
        s.take(64) + "\n"@ + wrapped(s.skip(64))
    }
}

/// A DER certificate as a PEM block.
pub open spec fn pem(der: Seq<u8>) -> Seq<char> {
    "-----BEGIN CERTIFICATE-----\n"@ + wrapped(digest::base64(der)) + "-----END CERTIFICATE-----\n"@
}

/// DER certificate as a PEM block.
pub fn pem_encode(der: &[u8]) -> (out: String)
    requires
        der@.len() <= usize::MAX / 4,
    ensures
        out@ == pem(der@),
{
    let encoded = digest::base64_of(der);
    let body = wrap(encoded.as_str());
    text::concat3("-----BEGIN CERTIFICATE-----\n", body.as_str(), "-----END CERTIFICATE-----\n")
}

/// A text in lines of 64 characters.
pub fn wrap(s: &str) -> (out: String)
    ensures
        out@ == wrapped(s@),
{
    let chars = text::to_chars(s);
    let mut out = String::new();
    let mut at: usize = 0;
    assert(out@ + wrapped(chars@.skip(0)) =~= wrapped(chars@)) by {
        assert(chars@.skip(0) =~= chars@);
    }
    while at < chars.len()
        invariant
            at <= chars.len(),
            out@ + wrapped(chars@.skip(at as int)) == wrapped(chars@),
        decreases chars.len() - at,
    {
        let ghost left = chars@.skip(at as int);
        let ghost had = out@;
        let end: usize = if chars.len() - at <= 64 {
            chars.len()
        } else {
            at + 64
        };
        let line = text::from_chars(vstd::slice::slice_subrange(chars.as_slice(), at, end));
        out.append(line.as_str());
        out.append("\n");
        proof {
            if left.len() <= 64 {
                assert(line@ =~= left);
                assert(chars@.skip(end as int) =~= Seq::empty());
            } else {
                assert(line@ =~= left.take(64));
                assert(left.skip(64) =~= chars@.skip(end as int));
            }
            assert(out@ + wrapped(chars@.skip(end as int)) =~= had + wrapped(left));
        }
        at = end;
    }
    assert(chars@.skip(at as int) =~= Seq::empty());
    assert(out@ + Seq::<char>::empty() =~= out@);
    out
}

/// The certificates of a list as PEM blocks, one behind the other.
pub open spec fn pems(ders: Seq<Seq<u8>>) -> Seq<char>
    decreases ders.len(),
{
    if ders.len() == 0 {
        Seq::empty()
    } else {
        pems(ders.drop_last()) + pem(ders.last())
    }
}

/// A text that ends in a line feed.
pub open spec fn ended(s: Seq<char>) -> Seq<char> {
    if s.last() == '\n' {
        s
    } else {
        s + "\n"@
    }
}

/// The real roots: those of the platform's store, or else what a bundle of the system holds that is
/// not blank.
pub open spec fn roots(native: Seq<Seq<u8>>, system: Option<Seq<char>>) -> Seq<char> {
    if native.len() > 0 {
        pems(native)
    } else {
        match system {
            Some(contents) if !text::blank(contents) => ended(contents),
            _ => Seq::empty(),
        }
    }
}

/// A list of certificates that is not empty is not nothing.
proof fn lemma_pems_nonempty(ders: Seq<Seq<u8>>)
    requires
        ders.len() > 0,
    ensures
        pems(ders).len() > 0,
{
    reveal_strlit("-----BEGIN CERTIFICATE-----\n");
}

pub struct Ca {
    cert: Certificate,
    key: KeyPair,
    ca_der: Vec<u8>,
    ca_pem: String,
    /// Minting a leaf costs a keygen and a signature, so each host's finished `ServerConfig` is
    /// kept for the lifetime of the run.
    configs: DashMap<String, Arc<ServerConfig>>,
}

/// What a [`Ca`] shows: its certificate in PEM and in DER form, and the configurations that it has
/// made.
pub struct CaModel {
    pub pem: Seq<char>,
    pub der: Seq<u8>,
    pub configs: Map<Seq<char>, Arc<ServerConfig>>,
}

/// Whether a server with a configuration presents a certificate for a host that a CA minted at a
/// moment, and speaks HTTP/1.1 alone: its own certificate states the profile of such a leaf, is
/// issued and signed by the CA, and is for the key that the server signs with; behind it comes the
/// CA's.
pub open spec fn serves(config: ServerConfig, host: Seq<char>, now: i64, ca: Seq<u8>) -> bool {
    &&& presented(config).len() == 2
    &&& presented(config)[1] == ca
    &&& certifies(presented(config)[0]) == leaf(host, now as int)
    &&& issuer_of(presented(config)[0]) == subject(certifies(ca))
    &&& signed_under(presented(config)[0], certified_key(ca))
    &&& certified_key(presented(config)[0]) == held_key(config)
    &&& spoken(config) == seq![encode_utf8("http/1.1"@)]
}

/// Whether a server with a configuration presents a certificate for a host that a CA minted at some
/// moment.
pub open spec fn is_for(config: ServerConfig, host: Seq<char>, ca: Seq<u8>) -> bool {
    exists|now: i64| #[trigger] serves(config, host, now, ca)
}

impl CaModel {
    /// Whether the certificate is that of an authority, issued and signed by itself, the PEM form is
    /// that of the DER form, and each configuration is for its host.
    pub open spec fn sound(self) -> bool {
        &&& certifies(self.der) == authority()
        &&& issuer_of(self.der) == subject(authority())
        &&& signed_under(self.der, certified_key(self.der))
        &&& sans_cr(self.pem) == pem(self.der)
        &&& forall|host: Seq<char>| #[trigger]
            self.configs.contains_key(host) ==> is_for(*self.configs[host], host, self.der)
    }
}

impl Ca {
    /// What the CA shows.
    pub closed spec fn view(&self) -> CaModel {
        CaModel { pem: self.ca_pem@, der: self.ca_der@, configs: configs_of(self.configs) }
    }

    /// Whether the CA holds the certificate that it shows, and the key that it is for.
    pub closed spec fn wf(&self) -> bool {
        &&& self@.sound()
        &&& der_of(self.cert) == self.ca_der@
        &&& public_key(self.key) == certified_key(self.ca_der@)
    }

    /// Makes a CA with a random key, which has made no configurations yet.
    pub fn generate() -> (out: Result<Self, String>)
        ensures
            out matches Ok(ca) ==> ca.wf() && ca@.sound(),
            out matches Ok(ca) ==> ca@.configs == Map::<Seq<char>, Arc<ServerConfig>>::empty(),
            out matches Err(e) ==> "generating CA key: "@.is_prefix_of(e@)
                || "self-signing CA: "@.is_prefix_of(e@),
    {
        proof {
            lemma_prefix();
        }
        let (key, _) = match generate_key() {
            Ok(made) => made,
            Err(e) => return Err(text::concat("generating CA key: ", e.as_str())),
        };
        let profile = authority_profile();
        let params = match certificate_params(&profile) {
            Ok(params) => params,
            Err(e) => return Err(text::concat("self-signing CA: ", e.as_str())),
        };
        match self_signed(params, &key) {
            Ok((cert, ca_der, ca_pem)) => {
                let ca = Ca { cert, key, ca_der, ca_pem, configs: no_configs() };
                assert(ca@.configs =~= Map::empty());
                Ok(ca)
            },
            Err(e) => Err(text::concat("self-signing CA: ", e.as_str())),
        }
    }

    /// The CA's certificate in PEM form.
    pub fn ca_pem(&self) -> (out: &str)
        ensures
            out@ == self@.pem,
    {
        self.ca_pem.as_str()
    }

    /// Concatenation of the real roots and the generated CA, for tools whose CA-bundle variable
    /// replaces the trust store rather than extending it. `native` holds the certificates of the
    /// platform's store, `errors` how often reading it failed, and `system` the contents of the
    /// first of the system's bundles that could be read.
    ///
    /// Emitting the CA on its own would be actively harmful: those variables would then point at a
    /// bundle with no real roots, breaking every connection that bypasses the proxy.
    pub fn trust_bundle(&self, native: &[Vec<u8>], errors: usize, system: Option<&str>) -> (out:
        Result<String, String>)
        requires
            forall|i: int| 0 <= i < native@.len() ==> (#[trigger] native@[i])@.len() <= usize::MAX
                / 4,
        ensures
            ({
                let trusted = roots(wire::byte_runs(native@), text::optional(system));
                match out {
                    Ok(bundle) => trusted.len() > 0 && bundle@ == trusted + self@.pem,
                    Err(e) => trusted.len() == 0 && e@ == "no system trust roots found ("@
                        + numbers::decimal(errors as nat)
                        + " error(s) reading the platform store); refusing to emit a bundle containing only the generated CA"@,
                }
            }),
    {
        let mut bundle = String::new();
        let mut i: usize = 0;
        let ghost ders = wire::byte_runs(native@);
        assert(bundle@ =~= pems(ders.take(0)));
        while i < native.len()
            invariant
                i <= native.len(),
                ders == wire::byte_runs(native@),
                bundle@ == pems(ders.take(i as int)),
                forall|j: int| 0 <= j < native@.len() ==> (#[trigger] native@[j])@.len()
                    <= usize::MAX / 4,
            decreases native.len() - i,
        {
            let block = pem_encode(native[i].as_slice());
            bundle.append(block.as_str());
            assert(ders.take(i + 1).drop_last() =~= ders.take(i as int));
            assert(ders.take(i + 1).last() == native@[i as int]@);
            i += 1;
        }
        assert(ders.take(i as int) =~= ders);
        if native.len() > 0 {
            proof {
                lemma_pems_nonempty(ders);
            }
            bundle.append(self.ca_pem.as_str());
            return Ok(bundle);
        }
        if let Some(contents) = system {
            let chars = text::to_chars(contents);
            if !text::is_blank(chars.as_slice()) {
                bundle.append(contents);
                assert(bundle@ =~= contents@);
                let len = chars.len();
                if chars[len - 1] != '\n' {
                    bundle.append("\n");
                }
                bundle.append(self.ca_pem.as_str());
                return Ok(bundle);
            }
        }
        let mut message = "no system trust roots found (".to_string();
        numbers::push_decimal(&mut message, errors as u128);
        message.append(
            " error(s) reading the platform store); refusing to emit a bundle containing only the generated CA",
        );
        Err(message)
    }

    /// TLS server configuration presenting a freshly minted certificate for `host`, or the one that
    /// was made for it before.
    pub fn server_config(&mut self, host: &str) -> (out: Result<Arc<ServerConfig>, String>)
        requires
            old(self).wf(),
        ensures
            final(self).wf() && final(self)@.sound(),
            final(self)@.pem == old(self)@.pem,
            final(self)@.der == old(self)@.der,
            out matches Ok(config) ==> is_for(*config, host@, old(self)@.der),
            old(self)@.configs.contains_key(host@) ==> out == Ok::<Arc<ServerConfig>, String>(
                old(self)@.configs[host@],
            ) && final(self)@.configs == old(self)@.configs,
            !old(self)@.configs.contains_key(host@) ==> match out {
                Ok(config) => final(self)@.configs == old(self)@.configs.insert(host@, config),
                Err(_) => final(self)@.configs == old(self)@.configs,
            },
            !old(self)@.configs.contains_key(host@) ==> exists|now: i64| #[trigger]
                minted(host@, now, old(self)@.der, out),
    {
        if let Some(existing) = kept_config(&self.configs, host) {
            assert(self@.configs.contains_key(host@));
            return Ok(existing);
        }
        let now = utc_now();
        let config = self.mint(host, now);
        if let Ok(config) = &config {
            keep_config(&mut self.configs, host.to_string(), config);
            proof {
                assert(serves(**config, host@, now, self@.der));
                let before = old(self)@.configs;
                assert forall|h: Seq<char>| #[trigger] self@.configs.contains_key(h) implies is_for(
                    *self@.configs[h],
                    h,
                    self@.der,
                ) by {
                    if h != host@ {
                        assert(before.contains_key(h));
                    }
                }
            }
        }
        config
    }

    /// A configuration for `host` with a certificate that is minted at the moment `now`.
    fn mint(&self, host: &str, now: i64) -> (out: Result<Arc<ServerConfig>, String>)
        requires
            self.wf(),
        ensures
            minted(host@, now, self@.der, out),
    {
        proof {
            lemma_prefix();
        }
        let params = match leaf_params(host, now) {
            Ok(params) => params,
            Err(e) => return Err(e),
        };
        let (leaf_key, key_der) = match generate_key() {
            Ok(made) => made,
            Err(e) => return Err(text::concat("generating leaf key: ", e.as_str())),
        };
        let leaf_der = match signed_by(params, &leaf_key, &self.cert, &self.key) {
            Ok(der) => der,
            Err(e) => {
                let context = text::concat3("signing leaf certificate for ", host, ": ");
                return Err(text::concat(context.as_str(), e.as_str()));
            },
        };
        let chain: Vec<Vec<u8>> = vec![leaf_der, self.ca_der.clone()];
        match tls_config(chain, key_der, protocols()) {
            Ok(config) => Ok(config),
            Err(e) => Err(text::concat("building rustls server config: ", e.as_str())),
        }
    }
}

/// Whether a certificate can be minted at a moment.
pub open spec fn mintable(now: int) -> bool {
    datable(now - DAY) && datable(now + 300 * DAY)
}

/// Whether an error is why there are no parameters of a certificate that is minted at a moment.
pub open spec fn is_params_error(e: Seq<char>, now: int) -> bool {
    if mintable(now) {
        "building leaf params: "@.is_prefix_of(e)
    } else {
        e == "building leaf params: the clock is out of range"@
    }
}

/// Whether a configuration, or an error, is what comes of minting a certificate for a host at a
/// moment. Where no certificate can state the moment or stand for the host there is none, and that is
/// what is said; otherwise a key, a signature or a configuration may fail to be made.
pub open spec fn minted(
    host: Seq<char>,
    now: i64,
    ca: Seq<u8>,
    out: Result<Arc<ServerConfig>, String>,
) -> bool {
    match out {
        Ok(config) => mintable(now as int) && nameable(host) && serves(*config, host, now, ca),
        Err(e) => if !mintable(now as int) || !nameable(host) {
            is_params_error(e@, now as int)
        } else {
            ||| "generating leaf key: "@.is_prefix_of(e@)
            ||| ("signing leaf certificate for "@ + host + ": "@).is_prefix_of(e@)
            ||| "building rustls server config: "@.is_prefix_of(e@)
        },
    }
}

/// What stands first is a prefix.
proof fn lemma_prefix()
    ensures
        forall|a: Seq<char>, b: Seq<char>| a.is_prefix_of(#[trigger] (a + b)),
{
    assert forall|a: Seq<char>, b: Seq<char>| a.is_prefix_of(#[trigger] (a + b)) by {
        assert((a + b).subrange(0, a.len() as int) =~= a);
    }
}

/// The protocols that the client-facing half speaks. Upstream requests are re-originated over
/// whatever the origin supports; this half stays on HTTP/1.1 so the proxy only has to speak one
/// protocol inward.
pub fn protocols() -> (out: Vec<Vec<u8>>)
    ensures
        wire::byte_runs(out@) == seq![encode_utf8("http/1.1"@)],
{
    let mut name: Vec<u8> = Vec::new();
    name.extend_from_slice("http/1.1".as_bytes());
    let mut out: Vec<Vec<u8>> = Vec::new();
    assert(name@ =~= encode_utf8("http/1.1"@));
    out.push(name);
    assert(wire::byte_runs(out@) =~= seq![encode_utf8("http/1.1"@)]);
    out
}

/// What a CA makes is a server that presents a certificate of its own for the host, issued and signed
/// by the CA: valid when it was minted, for no longer than 398 days, and not for signing others.
pub proof fn law_servers_present_a_leaf_of_the_ca(
    ca: CaModel,
    config: ServerConfig,
    host: Seq<char>,
    now: i64,
)
    requires
        ca.sound(),
        serves(config, host, now, ca.der),
    ensures
        ({
            let own = certifies(presented(config)[0]);
            &&& own.names == seq![alt_name(host)]
            &&& own.common_name == host
            &&& own.role is Server
            &&& !own.key_usages.contains(KeyUsage::KeyCertSign)
            &&& own.not_before <= now <= own.not_after
            &&& own.not_after - own.not_before <= 398 * DAY
        }),
        issuer_of(presented(config)[0]).common_name == authority_name(),
        signed_under(presented(config)[0], certified_key(ca.der)),
        certifies(ca.der).role is Authority,
        certifies(ca.der).key_usages.contains(KeyUsage::KeyCertSign),
        presented(config) == seq![presented(config)[0], ca.der],
{
    law_leaves_are_standards_compliant(host, now as int);
    assert(presented(config) =~= seq![presented(config)[0], ca.der]);
}

/// Trust bundles shipped by the Linux distributions used for CI runners. Only consulted if the
/// platform trust store cannot be read, since reading the store covers macOS and Windows too.
pub open spec fn system_bundles() -> Seq<Seq<char>> {
    seq![
        "/etc/ssl/certs/ca-certificates.crt"@,
        "/etc/pki/tls/certs/ca-bundle.crt"@,
        "/etc/ssl/ca-bundle.pem"@,
    ]
}

/// Where the bundles of the system may be, in the order in which they are tried.
pub fn system_bundle_paths() -> (out: Vec<&'static str>)
    ensures
        text::words(out@) == system_bundles(),
{
    let out: Vec<&'static str> = vec![
        "/etc/ssl/certs/ca-certificates.crt",
        "/etc/pki/tls/certs/ca-bundle.crt",
        "/etc/ssl/ca-bundle.pem",
    ];
    assert(text::words(out@) =~= system_bundles());
    out
}

/// A bundle never holds the generated CA alone: it ends with the CA, and before that stand the real
/// roots, among them every certificate of the platform's store.
pub proof fn law_bundles_hold_the_real_roots(
    native: Seq<Seq<u8>>,
    system: Option<Seq<char>>,
    ca: Seq<char>,
    i: int,
)
    requires
        roots(native, system).len() > 0,
        0 <= i < native.len(),
    ensures
        (roots(native, system) + ca).len() > ca.len(),
        text::occurs(pem(native[i]), roots(native, system) + ca),
{
    lemma_pem_occurs(native, i);
    let at = choose|at: int|
        0 <= at <= pems(native).len() - pem(native[i]).len() && #[trigger] pems(native).subrange(
            at,
            at + pem(native[i]).len(),
        ) == pem(native[i]);
    let whole = pems(native) + ca;
    assert(whole.subrange(at, at + pem(native[i]).len()) =~= pem(native[i]));
}

/// Each certificate of a list is among the blocks of the list.
proof fn lemma_pem_occurs(ders: Seq<Seq<u8>>, i: int)
    requires
        0 <= i < ders.len(),
    ensures
        text::occurs(pem(ders[i]), pems(ders)),
    decreases ders.len(),
{
    let block = pem(ders[i]);
    let front = pems(ders.drop_last());
    if i == ders.len() - 1 {
        let at = front.len() as int;
        assert(pems(ders).subrange(at, at + block.len()) =~= block);
    } else {
        lemma_pem_occurs(ders.drop_last(), i);
        assert(ders.drop_last()[i] == ders[i]);
        let at = choose|at: int|
            0 <= at <= front.len() - block.len() && #[trigger] front.subrange(
                at,
                at + block.len(),
            ) == block;
        assert(pems(ders).subrange(at, at + block.len()) =~= block);
    }
}

/// The CA's certificate is that of an authority, which may sign certificates and lists of revoked ones,
/// and is valid from the beginning of 2020 to that of 2035.
pub proof fn law_the_authority()
    ensures
        authority().common_name == "cicache local CA"@,
        authority().organization == Some("cicache"@),
        authority().names.len() == 0,
        authority().role is Authority,
        authority().key_usages == set![
            KeyUsage::KeyCertSign,
            KeyUsage::CrlSign,
            KeyUsage::DigitalSignature,
        ],
        authority().purposes.len() == 0,
        authority().not_before == 1_577_836_800,
        authority().not_after == 2_051_222_400,
{
}

/// The certificate of a host names it, as an address where it reads as one, is for servers alone, names
/// the key that signed it, and is valid from a day before it is made to 300 days after.
pub proof fn law_leaves(host: Seq<char>, now: int)
    ensures
        leaf(host, now).common_name == host,
        leaf(host, now).organization is None,
        leaf(host, now).names.len() == 1,
        (exists|i: int|
            0 <= i < host.len() && !('0' <= #[trigger] host[i] && host[i] <= '9') && !('a' <= host[i]
                && host[i] <= 'f') && !('A' <= host[i] && host[i] <= 'F') && host[i] != '.'
                && host[i] != ':') ==> leaf(host, now).names[0] == AltName::Dns(host),
        (forall|i: int|
            0 <= i < host.len() ==> ('0' <= #[trigger] host[i] && host[i] <= '9') || ('a' <= host[i]
                && host[i] <= 'f') || ('A' <= host[i] && host[i] <= 'F') || host[i] == '.' || host[i]
                == ':') ==> leaf(host, now).names[0] == resembling(host),
        leaf(host, now).role is Server,
        leaf(host, now).authority_key_identifier,
        leaf(host, now).key_usages == set![KeyUsage::DigitalSignature, KeyUsage::KeyEncipherment],
        leaf(host, now).purposes == seq![Purpose::ServerAuth],
        leaf(host, now).not_before == now - 24 * 60 * 60,
        leaf(host, now).not_after == now + 300 * 24 * 60 * 60,
        mintable(now) <==> -62_167_219_200 <= now - 24 * 60 * 60 && now + 300 * 24 * 60 * 60
            <= 253_402_300_799,
{
}

/// A text is wrapped at every 64th character, and a line feed ends each line; without a character
/// there is no line.
pub proof fn law_lines_of_64(line: Seq<char>, rest: Seq<char>)
    ensures
        wrapped(Seq::empty()).len() == 0,
        0 < line.len() <= 64 ==> wrapped(line) == line.push('\n'),
        line.len() == 64 ==> wrapped(line + rest) == line.push('\n') + wrapped(rest),
{
    reveal_strlit("\n");
    assert(line + "\n"@ =~= line.push('\n'));
    if line.len() == 64 {
        let whole = line + rest;
        if rest.len() > 0 {
            assert(whole.take(64) =~= line);
            assert(whole.skip(64) =~= rest);
        } else {
            assert(whole =~= line);
            assert(wrapped(whole) =~= line.push('\n') + wrapped(rest));
        }
    }
}

/// A certificate in PEM form is its base64 in lines between two that say what it is; several stand one
/// behind the other.
pub proof fn law_certificates_in_pem_form(der: Seq<u8>, ders: Seq<Seq<u8>>)
    ensures
        pem(der) == "-----BEGIN CERTIFICATE-----\n"@ + wrapped(digest::base64(der))
            + "-----END CERTIFICATE-----\n"@,
        pems(Seq::empty()).len() == 0,
        pems(ders.push(der)) == pems(ders) + pem(der),
{
    assert(ders.push(der).drop_last() =~= ders);
}

/// The real roots are the certificates of the platform's store, where it has any; otherwise they are
/// what a bundle of the system holds, its last line ended, unless it is blank; otherwise there are none.
pub proof fn law_the_real_roots(native: Seq<Seq<u8>>, contents: Seq<char>)
    ensures
        native.len() > 0 ==> roots(native, Some(contents)) == pems(native) && roots(native, None)
            == pems(native),
        native.len() == 0 ==> roots(native, None).len() == 0,
        native.len() == 0 && text::blank(contents) ==> roots(
            native,
            Some(contents),
        ).len() == 0,
        native.len() == 0 && !text::blank(contents) && contents.last() == '\n' ==> roots(
            native,
            Some(contents),
        ) == contents,
        native.len() == 0 && !text::blank(contents) && contents.last() != '\n' ==> roots(
            native,
            Some(contents),
        ) == contents.push('\n'),
{
    reveal_strlit("\n");
    assert(contents + "\n"@ =~= contents.push('\n'));
}

/// A bundle is the real roots and then the CA, and there is none without real roots: the words say how
/// often reading the platform's store failed.
pub proof fn law_bundles(
    ca: &Ca,
    native: &[Vec<u8>],
    errors: usize,
    system: Option<&str>,
    out: Result<String, String>,
    trusted: Seq<char>,
)
    requires
        call_ensures(Ca::trust_bundle, (ca, native, errors, system), out),
        trusted == roots(
            native@.map_values(|der: Vec<u8>| der@),
            match system {
                Some(s) => Some(s@),
                None => None,
            },
        ),
    ensures
        trusted.len() > 0 ==> (out matches Ok(bundle) && bundle@ == trusted + ca@.pem),
        trusted.len() == 0 ==> (out matches Err(e) && e@ == "no system trust roots found ("@
            + numbers::decimal(errors as nat)
            + " error(s) reading the platform store); refusing to emit a bundle containing only the generated CA"@),
{
    assert(wire::byte_runs(native@) =~= native@.map_values(|der: Vec<u8>| der@));
}

/// The bundles of the system are tried in this order, and the client-facing half speaks HTTP/1.1 alone.
pub proof fn law_bundles_and_protocols(paths: Vec<&'static str>, spoken_ones: Vec<Vec<u8>>)
    requires
        call_ensures(system_bundle_paths, (), paths),
        call_ensures(protocols, (), spoken_ones),
    ensures
        text::words(paths@) == seq![
            "/etc/ssl/certs/ca-certificates.crt"@,
            "/etc/pki/tls/certs/ca-bundle.crt"@,
            "/etc/ssl/ca-bundle.pem"@,
        ],
        wire::byte_runs(spoken_ones@) == seq![encode_utf8("http/1.1"@)],
{
}

/// A server presents the certificate of its host, which the CA issued and signed, and behind it the
/// CA's; it holds the key that its own is for, and speaks HTTP/1.1 alone.
pub proof fn law_what_servers_present(
    config: ServerConfig,
    host: Seq<char>,
    now: i64,
    ca: Seq<u8>,
)
    requires
        serves(config, host, now, ca),
    ensures
        presented(config).len() == 2,
        presented(config)[1] == ca,
        certifies(presented(config)[0]) == leaf(host, now as int),
        issuer_of(presented(config)[0]) == subject(certifies(ca)),
        signed_under(presented(config)[0], certified_key(ca)),
        certified_key(presented(config)[0]) == held_key(config),
        spoken(config) == seq![encode_utf8("http/1.1"@)],
{
}

/// There is a configuration only where a certificate can state the moment and stand for the host;
/// where it cannot, that is what is said. What else is said names what failed.
pub proof fn law_what_minting_comes_to(
    host: Seq<char>,
    now: i64,
    ca: Seq<u8>,
    out: Result<Arc<ServerConfig>, String>,
)
    requires
        minted(host, now, ca, out),
    ensures
        out matches Ok(config) ==> mintable(now as int) && vstd::utf8::is_ascii_chars(host)
            && serves(*config, host, now, ca),
        out matches Err(e) ==> (!mintable(now as int) ==> e@
            == "building leaf params: the clock is out of range"@),
        out matches Err(e) ==> (mintable(now as int) && !vstd::utf8::is_ascii_chars(host)
            ==> "building leaf params: "@.is_prefix_of(e@)),
        out matches Err(e) ==> (mintable(now as int) && vstd::utf8::is_ascii_chars(host)
            ==> "generating leaf key: "@.is_prefix_of(e@) || ("signing leaf certificate for "@ + host
            + ": "@).is_prefix_of(e@) || "building rustls server config: "@.is_prefix_of(e@)),
{
}

/// Certificates and their parameters are made as stated.
pub proof fn law_certificates_are_made(
    der: &[u8],
    block: String,
    s: &str,
    lines: String,
    host: &str,
    now: i64,
    params: Result<CertificateParams, String>,
    profile: &Profile,
    made: Result<CertificateParams, String>,
    own: Profile,
    name: &'static str,
)
    requires
        call_ensures(pem_encode, (der,), block),
        call_ensures(wrap, (s,), lines),
        call_ensures(leaf_params, (host, now), params),
        call_ensures(certificate_params, (profile,), made),
        call_ensures(authority_profile, (), own),
        call_ensures(ca_common_name, (), name),
    ensures
        block@ == pem(der@),
        lines@ == wrapped(s@),
        params is Ok <==> mintable(now as int) && vstd::utf8::is_ascii_chars(host@),
        params matches Ok(c) ==> stated(c) == leaf(host@, now as int),
        params matches Err(e) ==> (!mintable(now as int) ==> e@
            == "building leaf params: the clock is out of range"@),
        params matches Err(e) ==> "building leaf params: "@.is_prefix_of(e@),
        made is Ok <==> forall|i: int|
            0 <= i < profile.names@.len() ==> vstd::utf8::is_ascii_chars(
                (#[trigger] profile.names@[i])@,
            ),
        made matches Ok(c) ==> stated(c) == profile@,
        own@ == authority(),
        name@ == "cicache local CA"@,
{
    reveal_strlit("building leaf params: the clock is out of range");
    reveal_strlit("building leaf params: ");
    let words = "building leaf params: the clock is out of range"@;
    assert(words.subrange(0, 22) =~= "building leaf params: "@);
    assert(forall|i: int|
        0 <= i < profile.names@.len() ==> nameable((#[trigger] profile.names@[i])@)
            == vstd::utf8::is_ascii_chars(profile.names@[i]@));
}

/// The host's own profile is the one of its certificate.
pub proof fn law_the_profile_of_a_host(host: &str, now: i64, out: Profile)
    requires
        mintable(now as int),
        call_ensures(leaf_profile, (host, now), out),
    ensures
        out@ == leaf(host@, now as int),
        out.names@.len() == 1,
        out.names@[0]@ == host@,
{
    assert(text::texts(out.names@).len() == out.names@.len());
    assert(text::texts(out.names@)[0] == out.names@[0]@);
}

/// What a profile shows is what it holds.
pub proof fn law_profiles_show_their_parts(p: Profile, i: int)
    ensures
        p@.common_name == p.common_name@,
        p@.organization == match p.organization {
            Some(s) => Some(s@),
            None => None,
        },
        p@.names.len() == p.names@.len(),
        0 <= i < p.names@.len() ==> p@.names[i] == alt_name(p.names@[i]@),
        p@.role == p.role,
        p@.authority_key_identifier == p.authority_key_identifier,
        p@.purposes == p.purposes@,
        p@.not_before == p.not_before,
        p@.not_after == p.not_after,
        0 <= i < p.key_usages@.len() ==> p@.key_usages.contains(p.key_usages@[i]),
        forall|usage: KeyUsage| #[trigger]
            p@.key_usages.contains(usage) ==> p.key_usages@.contains(usage),
{
}

/// A CA is made sound and stays so; it gives each host one configuration, for that host, and keeps its
/// own certificate. What it shows is that certificate.
pub proof fn law_authorities_keep_what_they_made(
    made: Result<Ca, String>,
    ca: &mut Ca,
    host: &str,
    out: Result<Arc<ServerConfig>, String>,
    shown: &Ca,
    text: &str,
)
    requires
        call_ensures(Ca::generate, (), made),
        call_ensures(Ca::server_config, (ca, host), out),
        call_ensures(Ca::ca_pem, (shown,), text),
    ensures
        made matches Ok(c) ==> c.wf() && c@.sound() && forall|h: Seq<char>|
            !(#[trigger] c@.configs.contains_key(h)),
        made matches Err(e) ==> "generating CA key: "@.is_prefix_of(e@)
            || "self-signing CA: "@.is_prefix_of(e@),
        final(ca)@.sound(),
        final(ca)@.pem == old(ca)@.pem,
        final(ca)@.der == old(ca)@.der,
        old(ca)@.configs.contains_key(host@) ==> out == Ok::<Arc<ServerConfig>, String>(
            old(ca)@.configs[host@],
        ) && final(ca)@.configs == old(ca)@.configs,
        !old(ca)@.configs.contains_key(host@) ==> (out matches Ok(config) ==> final(ca)@.configs
            == old(ca)@.configs.insert(host@, config)),
        !old(ca)@.configs.contains_key(host@) ==> (out is Err ==> final(ca)@.configs
            == old(ca)@.configs),
        out matches Ok(config) ==> exists|now: i64| #[trigger]
            serves(*config, host@, now, old(ca)@.der),
        !old(ca)@.configs.contains_key(host@) ==> exists|now: i64| #[trigger]
            minted(host@, now, old(ca)@.der, out),
        text@ == shown@.pem,
{
    if out is Ok {
        assert(is_for(*out.unwrap(), host@, old(ca)@.der));
    }
}

/// A sound CA is an authority that issued and signed its own certificate, whose PEM form is that of its
/// DER form, and has made each configuration for its host.
pub proof fn law_what_soundness_is(ca: CaModel, host: Seq<char>)
    requires
        ca.sound(),
    ensures
        certifies(ca.der) == authority(),
        issuer_of(ca.der) == subject(authority()),
        signed_under(ca.der, certified_key(ca.der)),
        sans_cr(ca.pem) == pem(ca.der),
        ca.configs.contains_key(host) ==> exists|now: i64| #[trigger]
            serves(*ca.configs[host], host, now, ca.der),
        subject(authority()).common_name == "cicache local CA"@,
{
    if ca.configs.contains_key(host) {
        assert(is_for(*ca.configs[host], host, ca.der));
    }
}

} // verus!
