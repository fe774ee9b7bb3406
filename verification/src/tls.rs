//! The certificates that the proxy shows to its clients: an authority of its own, and a
//! certificate of that authority for each host.
use crate::seqs;
use crate::text;
use std::sync::Arc;
use vstd::hash_map::StringHashMap;
use vstd::prelude::*;

verus! {

// ---- the outside crates ----

/// `rcgen::KeyPair`: a private key.
#[verifier::external_type_specification]
#[verifier::external_body]
pub struct ExKeyPair(rcgen::KeyPair);

/// `rcgen::CertificateParams`: what a certificate is going to say.
#[verifier::external_type_specification]
#[verifier::external_body]
pub struct ExCertificateParams(rcgen::CertificateParams);

/// `rcgen::Certificate`: a certificate.
#[verifier::external_type_specification]
#[verifier::external_body]
pub struct ExCertificate(rcgen::Certificate);

/// `rcgen::Error`: why a certificate or a key could not be made.
#[verifier::external_type_specification]
#[verifier::external_body]
pub struct ExRcgenError(rcgen::Error);

/// `rustls::ServerConfig`: what a server offers to its clients.
#[verifier::external_type_specification]
#[verifier::external_body]
pub struct ExServerConfig(rustls::ServerConfig);

/// `rustls::Error`: why a server cannot offer something.
#[verifier::external_type_specification]
#[verifier::external_body]
pub struct ExRustlsError(rustls::Error);

/// A host as a certificate names it.
pub enum Host {
    Name(Seq<char>),
    /// The bytes of an address. However it was written, it is one host.
    Address(Seq<u8>),
}

/// What the owner of a certificate is.
pub enum Rank {
    /// No authority.
    Owner,
    /// An authority, whose chains have this length at most where there is a limit.
    Authority(Option<u8>),
}

/// What a certificate says of its owner.
pub struct Subject {
    pub hosts: Seq<Host>,
    pub common_name: Seq<char>,
    pub organization: Option<Seq<char>>,
    pub rank: Rank,
    pub uses: Seq<KeyUse>,
}

/// What the key of a certificate may be used for.
#[derive(Debug, PartialEq, Eq, Structural, Clone, Copy)]
pub enum KeyUse {
    SignCertificates,
    SignRevocations,
    SignData,
}

/// How a certificate was made.
pub struct Issuance {
    /// What the authority says of itself.
    pub issuer: Subject,
    /// The private key that signed the certificate.
    pub issuer_key: Option<Seq<u8>>,
    /// The private key of the certificate's owner.
    pub key: Option<Seq<u8>>,
}

/// What a server offers.
pub struct Offer {
    /// The certificates from the server's own up to the authority's.
    pub chain: Seq<Seq<u8>>,
    /// The private key of the server.
    pub key: Seq<u8>,
    /// The protocols, the most preferred first.
    pub protocols: Seq<Seq<u8>>,
}

/// A piece of a certificate that is written as it stands.
#[derive(Debug)]
pub enum Piece {
    /// An object identifier, by its numbers.
    Type(Vec<u64>),
    /// A text that is written in ASCII.
    Plain(String),
    /// A text that is written as a printable string.
    Printable(String),
    /// Anything else. It can always be written.
    Other,
}

/// A piece of a certificate that is written as it stands.
pub enum PieceModel {
    Type(Seq<u64>),
    Plain(Seq<char>),
    Printable(Seq<char>),
    Other,
}

impl View for Piece {
    type V = PieceModel;

    open spec fn view(&self) -> PieceModel {
        match *self {
            Piece::Type(t) => PieceModel::Type(t@),
            Piece::Plain(s) => PieceModel::Plain(s@),
            Piece::Printable(s) => PieceModel::Printable(s@),
            Piece::Other => PieceModel::Other,
        }
    }
}

/// The contents of a list of pieces.
pub open spec fn pieces(v: Seq<Piece>) -> Seq<PieceModel> {
    Seq::new(v.len(), |i: int| v[i]@)
}

/// The contents of the entries of a name: the type and the value of each.
pub open spec fn entries(v: Seq<(Piece, Piece)>) -> Seq<(PieceModel, PieceModel)> {
    Seq::new(v.len(), |i: int| (v[i].0@, v[i].1@))
}

/// The contents of a list of names.
pub open spec fn entry_lists(v: Seq<Vec<(Piece, Piece)>>) -> Seq<Seq<(PieceModel, PieceModel)>> {
    Seq::new(v.len(), |i: int| entries(v[i]@))
}

/// What is written of the parameters of a certificate.
pub struct Contents {
    /// The entries of the owner's name.
    pub owner: Seq<(PieceModel, PieceModel)>,
    /// The other names, the uses, the further extensions and where revocations are listed.
    pub extensions: Seq<PieceModel>,
    /// The hosts and mail addresses that the owner may vouch for, and those that it may not.
    pub constraint_texts: Seq<PieceModel>,
    /// The names that the owner may vouch for, and those that it may not.
    pub constraint_names: Seq<Seq<(PieceModel, PieceModel)>>,
    /// When the certificate begins and ends to hold: the seconds since 1970, and the year on the
    /// calendar of the time zone that the date is in.
    pub dates: Seq<(i64, i32)>,
}

/// The numbers make an object identifier.
pub open spec fn is_identifier(t: Seq<u64>) -> bool {
    &&& t.len() >= 2
    &&& t[0] < 3
    &&& t[1] < 18446744073709551535
    &&& t[0] == 2 || t[1] < 40
}

/// A piece can be written: identifiers are such, texts in ASCII are, and printable strings are
/// without a question mark.
pub open spec fn is_sound(p: PieceModel) -> bool {
    match p {
        PieceModel::Type(t) => is_identifier(t),
        PieceModel::Plain(s) => is_ascii(s),
        PieceModel::Printable(s) => seqs::lacks(s, '?'),
        PieceModel::Other => true,
    }
}

/// All pieces can be written.
pub open spec fn are_sound(list: Seq<PieceModel>) -> bool {
    forall|i: int| 0 <= i < list.len() ==> is_sound(#[trigger] list[i])
}

/// A name can be written.
pub open spec fn is_sound_name(name: Seq<(PieceModel, PieceModel)>) -> bool {
    forall|i: int|
        0 <= i < name.len() ==> is_sound((#[trigger] name[i]).0) && is_sound(name[i].1)
}

/// A date can be written: it lies in the years 0 to 9999, and one of the years 1950 to 2049 does so
/// on the calendar of its time zone and on that of UTC alike.
pub open spec fn is_sound_date(seconds: i64, year: i32) -> bool {
    &&& -62167219200 <= seconds < 253402300800
    &&& 1950 <= year < 2050 ==> -631152000 <= seconds < 2524608000
}

/// A certificate can be written with these contents.
pub open spec fn can_be_written(c: Contents) -> bool {
    &&& is_sound_name(c.owner)
    &&& are_sound(c.extensions)
    &&& are_sound(c.constraint_texts)
    &&& forall|i: int|
        0 <= i < c.constraint_names.len() ==> is_sound_name(#[trigger] c.constraint_names[i])
    &&& forall|i: int|
        0 <= i < c.dates.len() ==> is_sound_date((#[trigger] c.dates[i]).0, c.dates[i].1)
}

/// What is written of the parameters.
pub uninterp spec fn params_contents(params: rcgen::CertificateParams) -> Contents;

/// What was written of a certificate's parameters.
pub uninterp spec fn cert_contents(cert: rcgen::Certificate) -> Contents;

/// What is written of the certificate of an authority in PEM, where the text is one.
pub uninterp spec fn pem_contents(pem: Seq<char>) -> Contents;

/// The `distinguished_name` of `CertificateParams`, through `DistinguishedName::iter`: the types of
/// its entries that are not among those that rcgen knows, and the values that are printable
/// strings. Types that rcgen knows and values of other kinds can always be written.
#[verifier::external_body]
fn owner_entries(params: &rcgen::CertificateParams) -> (r: Vec<(Piece, Piece)>)
    ensures
        entries(r@) == params_contents(*params).owner,
{
    params.distinguished_name.iter().map(|e| (
        match e.0 {
            rcgen::DnType::CustomDnType(t) => Piece::Type(t.clone()),
            _ => Piece::Other,
        },
        match e.1 {
            rcgen::DnValue::PrintableString(s) => Piece::Printable(s.as_str().to_string()),
            _ => Piece::Other,
        },
    )).collect()
}

/// The `subject_alt_names`, `extended_key_usages`, `custom_extensions` and
/// `crl_distribution_points` of `CertificateParams`: the identifiers that are not among those that
/// rcgen knows, and the addresses of the lists. Everything else can always be written.
#[verifier::external_body]
fn extension_pieces(params: &rcgen::CertificateParams) -> (r: Vec<Piece>)
    ensures
        pieces(r@) == params_contents(*params).extensions,
{
    params.subject_alt_names.iter().map(|n| match n {
        rcgen::SanType::OtherName((t, _)) => Piece::Type(t.clone()),
        _ => Piece::Other,
    }).chain(params.extended_key_usages.iter().map(|u| match u {
        rcgen::ExtendedKeyUsagePurpose::Other(t) => Piece::Type(t.clone()),
        _ => Piece::Other,
    })).chain(params.custom_extensions.iter().map(|e| Piece::Type(e.oid_components().collect())))
    .chain(params.crl_distribution_points.iter().flat_map(|p| &p.uris).map(|u| Piece::Plain(
        u.clone(),
    ))).collect()
}

/// The `name_constraints` of `CertificateParams`: the texts of mail addresses and hosts.
#[verifier::external_body]
fn constraint_texts(params: &rcgen::CertificateParams) -> (r: Vec<Piece>)
    ensures
        pieces(r@) == params_contents(*params).constraint_texts,
{
    let all = params.name_constraints.iter();
    all.flat_map(|c| c.permitted_subtrees.iter().chain(&c.excluded_subtrees)).map(|t| match t {
        rcgen::GeneralSubtree::Rfc822Name(s) => Piece::Plain(s.clone()),
        rcgen::GeneralSubtree::DnsName(s) => Piece::Plain(s.clone()),
        _ => Piece::Other,
    }).collect()
}

/// The `name_constraints` of `CertificateParams`: the entries of directory names, as in
/// `owner_entries`. Addresses can always be written.
#[verifier::external_body]
fn constraint_names(params: &rcgen::CertificateParams) -> (r: Vec<Vec<(Piece, Piece)>>)
    ensures
        entry_lists(r@) == params_contents(*params).constraint_names,
{
    let all = params.name_constraints.iter();
    all.flat_map(|c| c.permitted_subtrees.iter().chain(&c.excluded_subtrees)).map(|t| match t {
        rcgen::GeneralSubtree::DirectoryName(n) => n.iter().map(|e| (match e.0 {
            rcgen::DnType::CustomDnType(t) => Piece::Type(t.clone()),
            _ => Piece::Other,
        }, match e.1 {
            rcgen::DnValue::PrintableString(s) => Piece::Printable(s.as_str().to_string()),
            _ => Piece::Other,
        })).collect(),
        _ => Vec::new(),
    }).collect()
}

/// The `not_before` and `not_after` of `CertificateParams`, through `unix_timestamp` and `year` of
/// their type.
#[verifier::external_body]
fn dates(params: &rcgen::CertificateParams) -> (r: Vec<(i64, i32)>)
    ensures
        r@ == params_contents(*params).dates,
{
    vec![
        (params.not_before.unix_timestamp(), params.not_before.year()),
        (params.not_after.unix_timestamp(), params.not_after.year()),
    ]
}

/// What the parameters say of the certificate's owner.
pub uninterp spec fn params_subject(params: rcgen::CertificateParams) -> Subject;

/// What a certificate says of its owner.
pub uninterp spec fn cert_subject(cert: rcgen::Certificate) -> Subject;

/// How a certificate was made.
pub uninterp spec fn cert_issuance(cert: rcgen::Certificate) -> Issuance;

/// A certificate in DER.
pub uninterp spec fn cert_bytes(cert: rcgen::Certificate) -> Seq<u8>;

/// A private key in DER, where it is held here.
pub uninterp spec fn key_bytes(key: rcgen::KeyPair) -> Option<Seq<u8>>;

/// A certificate in PEM, by its bytes.
pub uninterp spec fn certificate_pem(der: Seq<u8>) -> Seq<char>;

/// A private key in PEM, by its bytes.
pub uninterp spec fn private_key_pem(der: Seq<u8>) -> Seq<char>;

/// What the certificate of an authority in PEM says of its owner; `None` where the text is no
/// such certificate.
pub uninterp spec fn pem_subject(pem: Seq<char>) -> Option<Subject>;

/// The bytes of a private key in PEM; `None` where the text holds no key.
pub uninterp spec fn pem_key(pem: Seq<char>) -> Option<Seq<u8>>;

/// What a server offers.
pub uninterp spec fn config_offer(config: rustls::ServerConfig) -> Offer;

/// A text of ASCII characters.
pub open spec fn is_ascii(s: Seq<char>) -> bool {
    forall|i: int| 0 <= i < s.len() ==> #[trigger] s[i] <= '\u{7f}'
}

/// The host that a text names: an address where the text writes one, else the text.
pub uninterp spec fn host_named(text: Seq<char>) -> Host;

/// A text may write an address: it has a colon, or it is made of digits and dots.
pub open spec fn may_be_address(s: Seq<char>) -> bool {
    ||| s.contains(':')
    ||| forall|i: int| 0 <= i < s.len() ==> '0' <= #[trigger] s[i] <= '9' || s[i] == '.'
}

/// `CertificateParams::new`: the certificate names the hosts that the texts do, its owner has the
/// common name that rcgen gives by default, belongs to no organization and is no authority. Which
/// host a text names depends on the text alone, and a text that cannot be an address is a name.
/// Texts are refused where one of them is not ASCII. Which address a text writes is left to the
/// name. The certificate can be written.
#[verifier::external_body]
fn new_params(hosts: Vec<String>) -> (r: Result<rcgen::CertificateParams, rcgen::Error>)
    ensures
        r is Ok == forall|i: int| 0 <= i < hosts@.len() ==> is_ascii(#[trigger] hosts@[i]@),
        r matches Ok(p) ==> params_subject(p) == (Subject {
            hosts: Seq::new(hosts@.len(), |i: int| host_named(hosts@[i]@)),
            common_name: "rcgen self signed cert"@,
            organization: None,
            rank: Rank::Owner,
            uses: seq![],
        }),
        r matches Ok(p) ==> forall|i: int|
            0 <= i < hosts@.len() && !may_be_address(#[trigger] hosts@[i]@) ==> params_subject(
                p,
            ).hosts[i] == Host::Name(hosts@[i]@),
        r matches Ok(p) ==> can_be_written(params_contents(p)),
{
    rcgen::CertificateParams::new(hosts)
}

/// `DistinguishedName::push` with the common name: it takes the place of the one before. It is of
/// a type that rcgen knows and no printable string, so what could be written still can.
#[verifier::external_body]
fn name_owner(params: &mut rcgen::CertificateParams, name: &str)
    ensures
        params_subject(*final(params)) == (Subject {
            common_name: name@,
            ..params_subject(*old(params))
        }),
        can_be_written(params_contents(*old(params))) ==> can_be_written(
            params_contents(*final(params)),
        ),
{
    params.distinguished_name.push(rcgen::DnType::CommonName, name);
}

/// `DistinguishedName::push` with the organization: it takes the place of the one before. It is of
/// a type that rcgen knows and no printable string, so what could be written still can.
#[verifier::external_body]
fn name_organization(params: &mut rcgen::CertificateParams, name: &str)
    ensures
        params_subject(*final(params)) == (Subject {
            organization: Some(name@),
            ..params_subject(*old(params))
        }),
        can_be_written(params_contents(*old(params))) ==> can_be_written(
            params_contents(*final(params)),
        ),
{
    params.distinguished_name.push(rcgen::DnType::OrganizationName, name);
}

/// The `is_ca` and `key_usages` of `CertificateParams`: the owner is an authority, with this limit
/// on the length of its chains or none, whose key has these uses. Nothing else changes.
#[verifier::external_body]
fn make_authority(params: &mut rcgen::CertificateParams, limit: Option<u8>, uses: Vec<KeyUse>)
    ensures
        params_subject(*final(params)) == (Subject {
            rank: Rank::Authority(limit),
            uses: uses@,
            ..params_subject(*old(params))
        }),
        params_contents(*final(params)) == params_contents(*old(params)),
{
    params.is_ca = rcgen::IsCa::Ca(match limit {
        Some(n) => rcgen::BasicConstraints::Constrained(n),
        None => rcgen::BasicConstraints::Unconstrained,
    });
    params.key_usages = uses.into_iter().map(|u| match u {
        KeyUse::SignCertificates => rcgen::KeyUsagePurpose::KeyCertSign,
        KeyUse::SignRevocations => rcgen::KeyUsagePurpose::CrlSign,
        KeyUse::SignData => rcgen::KeyUsagePurpose::DigitalSignature,
    }).collect();
}

/// `CertificateParams::from_ca_cert_pem`: what the certificate of an authority says. Whether the
/// text is one, and what it says, depends on the text alone.
#[verifier::external_body]
fn read_params(pem: &str) -> (r: Result<rcgen::CertificateParams, rcgen::Error>)
    ensures
        match r {
            Ok(p) => pem_subject(pem@) == Some(params_subject(p)) && pem_contents(pem@)
                == params_contents(p),
            Err(_) => pem_subject(pem@) is None,
        },
{
    rcgen::CertificateParams::from_ca_cert_pem(pem)
}

/// `KeyPair::generate`: a new key, which is held here. Which one is left to chance, and it fails
/// where the system has no random numbers to give.
#[verifier::external_body]
fn new_key() -> (r: Result<rcgen::KeyPair, rcgen::Error>)
    ensures
        r matches Ok(k) ==> key_bytes(k) is Some,
{
    rcgen::KeyPair::generate()
}

/// `KeyPair::from_pem`: the key in a text, which is held here. Which one depends on the text alone,
/// and a text without a key is refused. That it succeeds on the others is not promised: a key may
/// need random numbers from the system.
#[verifier::external_body]
fn read_key(pem: &str) -> (r: Result<rcgen::KeyPair, rcgen::Error>)
    ensures
        r matches Ok(k) ==> key_bytes(k) is Some && pem_key(pem@) == key_bytes(k),
{
    rcgen::KeyPair::from_pem(pem)
}

/// `KeyPair::serialize_der`: the key in DER. It panics where the key is not held here.
#[verifier::external_body]
fn key_der(key: &rcgen::KeyPair) -> (r: Vec<u8>)
    requires
        key_bytes(*key) is Some,
    ensures
        key_bytes(*key) == Some(r@),
{
    key.serialize_der()
}

/// `KeyPair::serialize_pem`: the key in PEM, from which `KeyPair::from_pem` reads the same key. It
/// panics where the key is not held here.
#[verifier::external_body]
fn key_pem_of(key: &rcgen::KeyPair) -> (r: String)
    requires
        key_bytes(*key) is Some,
    ensures
        r@ == private_key_pem(key_bytes(*key)->0),
        pem_key(r@) == key_bytes(*key),
{
    key.serialize_pem()
}

/// `CertificateParams::self_signed`: the certificate says what the parameters say, and its owner
/// and authority are one. Its signature is left to chance, and so is success: signing may need
/// random numbers from the system. Writing panics on contents that cannot be written, and a key
/// that is held elsewhere may do anything.
#[verifier::external_body]
fn self_sign(params: rcgen::CertificateParams, key: &rcgen::KeyPair) -> (r: Result<
    rcgen::Certificate,
    rcgen::Error,
>)
    requires
        can_be_written(params_contents(params)),
        key_bytes(*key) is Some,
    ensures
        r matches Ok(c) ==> cert_subject(c) == params_subject(params) && cert_contents(c)
            == params_contents(params) && cert_issuance(c) == (Issuance {
            issuer: params_subject(params),
            issuer_key: key_bytes(*key),
            key: key_bytes(*key),
        }),
{
    params.self_signed(key)
}

/// `CertificateParams::signed_by`: the certificate says what the parameters say, and the issuer
/// has signed it. Its signature is left to chance, and so is success: signing may need random
/// numbers from the system. Writing panics on contents and on a name of the issuer that cannot be
/// written, and a key that is held elsewhere may do anything.
#[verifier::external_body]
fn sign(
    params: rcgen::CertificateParams,
    key: &rcgen::KeyPair,
    issuer: &rcgen::Certificate,
    issuer_key: &rcgen::KeyPair,
) -> (r: Result<rcgen::Certificate, rcgen::Error>)
    requires
        can_be_written(params_contents(params)),
        is_sound_name(cert_contents(*issuer).owner),
        key_bytes(*key) is Some,
        key_bytes(*issuer_key) is Some,
    ensures
        r matches Ok(c) ==> cert_subject(c) == params_subject(params) && cert_contents(c)
            == params_contents(params) && cert_issuance(c) == (Issuance {
            issuer: cert_subject(*issuer),
            issuer_key: key_bytes(*issuer_key),
            key: key_bytes(*key),
        }),
{
    params.signed_by(key, issuer, issuer_key)
}

/// `Certificate::der`: the certificate in DER.
#[verifier::external_body]
fn cert_der(cert: &rcgen::Certificate) -> (r: Vec<u8>)
    ensures
        r@ == cert_bytes(*cert),
{
    cert.der().to_vec()
}

/// `Certificate::pem`: the certificate in PEM.
#[verifier::external_body]
fn cert_pem(cert: &rcgen::Certificate) -> (r: String)
    ensures
        r@ == certificate_pem(cert_bytes(*cert)),
{
    cert.pem()
}

/// `ConfigBuilder::with_single_cert` of rustls, with the ring provider and no client
/// certificates, and `alpn_protocols`: the server has this chain, key and protocols. A key
/// that does not fit the chain is refused.
#[verifier::external_body]
fn server_config(chain: Vec<Vec<u8>>, key: Vec<u8>, protocols: Vec<Vec<u8>>) -> (r: Result<
    rustls::ServerConfig,
    rustls::Error,
>)
    ensures
        r matches Ok(c) ==> config_offer(c) == (Offer {
            chain: byte_lists(chain@),
            key: key@,
            protocols: byte_lists(protocols@),
        }),
{
    let chain = chain.into_iter().map(rustls::pki_types::CertificateDer::from).collect();
    let key = rustls::pki_types::PrivateKeyDer::try_from(key)
        .map_err(|e| rustls::Error::General(e.to_string()))?;
    let provider = Arc::new(rustls::crypto::ring::default_provider());
    let mut config = rustls::ServerConfig::builder_with_provider(provider)
        .with_safe_default_protocol_versions()?
        .with_no_client_auth()
        .with_single_cert(chain, key)?;
    config.alpn_protocols = protocols;
    Ok(config)
}

/// `Arc::clone` of std: another handle on the same value.
#[verifier::external_body]
fn share(config: &Arc<rustls::ServerConfig>) -> (r: Arc<rustls::ServerConfig>)
    ensures
        r == *config,
{
    config.clone()
}

/// The contents of a list of byte strings.
pub open spec fn byte_lists(v: Seq<Vec<u8>>) -> Seq<Seq<u8>> {
    Seq::new(v.len(), |i: int| v[i]@)
}

// ---- the authority ----

/// Why a certificate could not be made.
#[derive(Debug)]
pub enum TlsError {
    Rcgen(rcgen::Error),
    Rustls(rustls::Error),
    /// The certificate of an authority says what cannot be written in one.
    Unwritable,
}

/// An authority, with the configurations that it has made for hosts.
pub struct CertAuthority {
    issuer_key: rcgen::KeyPair,
    issuer_cert: rcgen::Certificate,
    ca_pem: String,
    http2: bool,
    cache: StringHashMap<Arc<rustls::ServerConfig>>,
}

/// What an authority holds.
pub struct AuthorityModel {
    /// What its certificate says of it.
    pub subject: Subject,
    /// Its certificate in DER.
    pub der: Seq<u8>,
    /// Its certificate as it is handed out, in PEM.
    pub pem: Seq<char>,
    /// Its private key.
    pub key: Option<Seq<u8>>,
    /// Clients are offered HTTP/2.
    pub http2: bool,
    /// The configurations by host.
    pub cache: Map<Seq<char>, Arc<rustls::ServerConfig>>,
}

impl View for CertAuthority {
    type V = AuthorityModel;

    closed spec fn view(&self) -> AuthorityModel {
        AuthorityModel {
            subject: cert_subject(self.issuer_cert),
            der: cert_bytes(self.issuer_cert),
            pem: self.ca_pem@,
            key: key_bytes(self.issuer_key),
            http2: self.http2,
            cache: self.cache@,
        }
    }
}

/// What the certificate of the authority says.
pub open spec fn authority_subject() -> Subject {
    Subject {
        hosts: seq![],
        common_name: "whistle-rs Root CA"@,
        organization: Some("whistle-rs"@),
        rank: Rank::Authority(None),
        uses: seq![KeyUse::SignCertificates, KeyUse::SignRevocations, KeyUse::SignData],
    }
}

/// What the certificate of a host says.
pub open spec fn host_subject(host: Seq<char>) -> Subject {
    Subject {
        hosts: seq![host_named(host)],
        common_name: host,
        organization: None,
        rank: Rank::Owner,
        uses: seq![],
    }
}

/// The protocols that clients are offered: HTTP/2 first where it is wanted, and HTTP/1.1.
pub open spec fn protocols(http2: bool) -> Seq<Seq<u8>> {
    let plain = seq![104u8, 116, 116, 112, 47, 49, 46, 49];
    if http2 {
        seq![seq![104u8, 50], plain]
    } else {
        seq![plain]
    }
}

/// A configuration is one for a host: the host's name is ASCII, and the configuration shows a
/// certificate that names it and that the authority has signed, and behind it that of the
/// authority.
pub open spec fn is_for(
    config: rustls::ServerConfig,
    host: Seq<char>,
    authority: AuthorityModel,
) -> bool {
    &&& is_ascii(host)
    &&& !may_be_address(host) ==> host_named(host) == Host::Name(host)
    &&& config_offer(config).protocols == protocols(authority.http2)
    &&& exists|leaf: rcgen::Certificate|
        cert_subject(leaf) == host_subject(host) && cert_issuance(leaf) == (Issuance {
            issuer: authority.subject,
            issuer_key: authority.key,
            key: Some(config_offer(config).key),
        }) && config_offer(config).chain == seq![#[trigger] cert_bytes(leaf), authority.der]
}

fn protocol_list(http2: bool) -> (r: Vec<Vec<u8>>)
    ensures
        byte_lists(r@) == protocols(http2),
{
    let plain: Vec<u8> = vec![104, 116, 116, 112, 47, 49, 46, 49];
    proof {
        assert(plain@ =~= seq![104u8, 116, 116, 112, 47, 49, 46, 49]);
    }
    if http2 {
        let second: Vec<u8> = vec![104, 50];
        proof {
            assert(second@ =~= seq![104u8, 50]);
        }
        let r = vec![second, plain];
        proof {
            assert(byte_lists(r@) =~= protocols(http2));
        }
        r
    } else {
        let r = vec![plain];
        proof {
            assert(byte_lists(r@) =~= protocols(http2));
        }
        r
    }
}

// ---- what can be written ----

fn ascii(s: &str) -> (r: bool)
    ensures
        r == is_ascii(s@),
{
    let chars = text::chars_of(s);
    let mut i: usize = 0;
    while i < chars.len()
        invariant
            i <= chars.len(),
            chars@ == s@,
            forall|k: int| 0 <= k < i ==> #[trigger] s@[k] <= '\u{7f}',
        decreases chars.len() - i,
    {
        if chars[i] > '\u{7f}' {
            return false;
        }
        i += 1;
    }
    true
}

fn sound(p: &Piece) -> (r: bool)
    ensures
        r == is_sound(p@),
{
    match p {
        Piece::Type(t) => t.len() >= 2 && t[0] < 3 && t[1] < 18446744073709551535 && (t[0] == 2
            || t[1] < 40),
        Piece::Plain(s) => ascii(s.as_str()),
        Piece::Printable(s) => {
            proof {
                reveal_strlit("?");
                assert("?"@ =~= seq!['?']);
                seqs::lemma_before_lacks(s@, '?');
            }
            !text::contains(s.as_str(), "?")
        },
        Piece::Other => true,
    }
}

fn all_sound(list: &Vec<Piece>) -> (r: bool)
    ensures
        r == are_sound(pieces(list@)),
{
    let ghost all = pieces(list@);
    let mut i: usize = 0;
    while i < list.len()
        invariant
            i <= list.len(),
            all == pieces(list@),
            forall|k: int| 0 <= k < i ==> is_sound(#[trigger] all[k]),
        decreases list.len() - i,
    {
        proof {
            assert(all[i as int] == list@[i as int]@);
        }
        if !sound(&list[i]) {
            return false;
        }
        i += 1;
    }
    true
}

fn sound_name(name: &Vec<(Piece, Piece)>) -> (r: bool)
    ensures
        r == is_sound_name(entries(name@)),
{
    let ghost all = entries(name@);
    let mut i: usize = 0;
    while i < name.len()
        invariant
            i <= name.len(),
            all == entries(name@),
            forall|k: int| 0 <= k < i ==> is_sound((#[trigger] all[k]).0) && is_sound(all[k].1),
        decreases name.len() - i,
    {
        proof {
            assert(all[i as int] == (name@[i as int].0@, name@[i as int].1@));
        }
        if !sound(&name[i].0) || !sound(&name[i].1) {
            return false;
        }
        i += 1;
    }
    true
}

/// Whether a certificate can be written with these parameters.
pub fn writable(params: &rcgen::CertificateParams) -> (r: bool)
    ensures
        r == can_be_written(params_contents(*params)),
{
    let ghost c = params_contents(*params);
    let owner = owner_entries(params);
    if !sound_name(&owner) {
        return false;
    }
    let extensions = extension_pieces(params);
    let texts = constraint_texts(params);
    if !all_sound(&extensions) || !all_sound(&texts) {
        return false;
    }
    let names = constraint_names(params);
    let mut j: usize = 0;
    while j < names.len()
        invariant
            j <= names.len(),
            c == params_contents(*params),
            c.constraint_names == entry_lists(names@),
            forall|k: int| 0 <= k < j ==> is_sound_name(#[trigger] c.constraint_names[k]),
        decreases names.len() - j,
    {
        proof {
            assert(c.constraint_names[j as int] == entries(names@[j as int]@));
        }
        if !sound_name(&names[j]) {
            return false;
        }
        j += 1;
    }
    let days = dates(params);
    let mut d: usize = 0;
    while d < days.len()
        invariant
            d <= days.len(),
            c == params_contents(*params),
            c.dates == days@,
            forall|k: int|
                0 <= k < d ==> is_sound_date((#[trigger] c.dates[k]).0, c.dates[k].1),
        decreases days.len() - d,
    {
        proof {
            assert(c.dates[d as int] == days@[d as int]);
        }
        let (seconds, year) = days[d];
        let possible = -62167219200 <= seconds && seconds < 253402300800;
        let short = 1950 <= year && year < 2050;
        if !possible || (short && !(-631152000 <= seconds && seconds < 2524608000)) {
            return false;
        }
        d += 1;
    }
    true
}

/// What the certificate of the authority is going to say.
fn authority_params() -> (r: Result<rcgen::CertificateParams, rcgen::Error>)
    ensures
        r matches Ok(p) && params_subject(p) == authority_subject() && can_be_written(
            params_contents(p),
        ),
{
    let hosts: Vec<String> = Vec::new();
    let mut params = match new_params(hosts) {
        Ok(p) => p,
        Err(e) => return Err(e),
    };
    proof {
        assert(params_subject(params).hosts =~= seq![]);
    }
    name_owner(&mut params, "whistle-rs Root CA");
    name_organization(&mut params, "whistle-rs");
    let uses: Vec<KeyUse> = vec![
        KeyUse::SignCertificates,
        KeyUse::SignRevocations,
        KeyUse::SignData,
    ];
    proof {
        assert(uses@ =~= authority_subject().uses);
    }
    make_authority(&mut params, None, uses);
    Ok(params)
}

/// What the certificate of a host is going to say. A name that is not ASCII is refused.
fn host_params(host: &str) -> (r: Result<rcgen::CertificateParams, rcgen::Error>)
    ensures
        match r {
            Ok(p) => {
                &&& is_ascii(host@)
                &&& params_subject(p) == host_subject(host@)
                &&& can_be_written(params_contents(p))
                &&& !may_be_address(host@) ==> host_named(host@) == Host::Name(host@)
            },
            Err(_) => !is_ascii(host@),
        },
{
    let hosts: Vec<String> = vec![host.to_string()];
    proof {
        assert(hosts@[0]@ == host@);
    }
    let mut params = match new_params(hosts) {
        Ok(p) => p,
        Err(e) => return Err(e),
    };
    proof {
        assert(params_subject(params).hosts =~= seq![host_named(host@)]);
        if !may_be_address(host@) {
            assert(params_subject(params).hosts[0] == Host::Name(hosts@[0]@));
        }
    }
    name_owner(&mut params, host);
    Ok(params)
}

/// A certificate was made by its own owner, who has this key.
pub open spec fn is_own(cert: rcgen::Certificate, key: rcgen::KeyPair) -> bool {
    cert_issuance(cert) == (Issuance {
        issuer: cert_subject(cert),
        issuer_key: key_bytes(key),
        key: key_bytes(key),
    })
}

/// A key and the certificate that was asked for it, or why there is none.
pub fn certified(key: rcgen::KeyPair, cert: Result<rcgen::Certificate, rcgen::Error>) -> (r: Result<
    (rcgen::KeyPair, rcgen::Certificate),
    rcgen::Error,
>)
    ensures
        r == match cert {
            Ok(c) => Ok::<(rcgen::KeyPair, rcgen::Certificate), rcgen::Error>((key, c)),
            Err(e) => Err(e),
        },
{
    match cert {
        Ok(c) => Ok((key, c)),
        Err(e) => Err(e),
    }
}

/// A key that was asked for, with a certificate that it signs itself. Without the key there is no
/// certificate either.
pub fn self_issued(params: rcgen::CertificateParams, key: Result<rcgen::KeyPair,
    rcgen::Error>) -> (r:
    Result<(rcgen::KeyPair, rcgen::Certificate), rcgen::Error>)
    requires
        can_be_written(params_contents(params)),
        key matches Ok(k) ==> key_bytes(k) is Some,
    ensures
        match key {
            Ok(k) => r matches Ok((own, cert)) ==> own == k && cert_subject(cert) == params_subject(
                params,
            ) && cert_contents(cert) == params_contents(params) && is_own(cert, k),
            Err(e) => r == Err::<(rcgen::KeyPair, rcgen::Certificate), rcgen::Error>(e),
        },
{
    match key {
        Ok(k) => {
            let cert = self_sign(params, &k);
            certified(k, cert)
        },
        Err(e) => Err(e),
    }
}

/// Makes a key and a certificate for an authority. It fails only where the key cannot be made or
/// the certificate cannot be signed.
fn generate_ca() -> (r: Result<(rcgen::KeyPair, rcgen::Certificate), TlsError>)
    ensures
        r matches Ok((key, cert)) ==> key_bytes(key) is Some && cert_subject(cert)
            == authority_subject() && can_be_written(cert_contents(cert)) && is_own(cert, key),
        r matches Err(e) ==> e is Rcgen,
{
    match authority_params() {
        Ok(params) => made_of(self_issued(params, new_key())),
        Err(e) => Err(TlsError::Rcgen(e)),
    }
}

/// A key and a certificate that were asked of rcgen, or why there are none.
pub fn made_of(made: Result<(rcgen::KeyPair, rcgen::Certificate), rcgen::Error>) -> (r: Result<
    (rcgen::KeyPair, rcgen::Certificate),
    TlsError,
>)
    ensures
        r == match made {
            Ok(m) => Ok::<(rcgen::KeyPair, rcgen::Certificate), TlsError>(m),
            Err(e) => Err(TlsError::Rcgen(e)),
        },
{
    match made {
        Ok(m) => Ok(m),
        Err(e) => Err(TlsError::Rcgen(e)),
    }
}

/// The authority with a certificate in PEM and a key that was asked for. Where both are bad, the
/// key is what it fails of. A certificate that says what cannot be written is refused.
pub fn read_ca(cert: &str, key: Result<rcgen::KeyPair, rcgen::Error>) -> (r: Result<
    (rcgen::KeyPair, rcgen::Certificate),
    TlsError,
>)
    requires
        key matches Ok(k) ==> key_bytes(k) is Some,
    ensures
        match key {
            Ok(k) => {
                &&& r matches Ok((own, c)) ==> own == k && pem_subject(cert@) == Some(
                    cert_subject(c),
                ) && cert_contents(c) == pem_contents(cert@) && is_own(c, k)
                &&& pem_subject(cert@) is None ==> r is Err && r->Err_0 is Rcgen
                &&& pem_subject(cert@) is Some ==> (r is Err && r->Err_0 is Unwritable)
                    == !can_be_written(pem_contents(cert@))
            },
            Err(e) => r == Err::<(rcgen::KeyPair, rcgen::Certificate), TlsError>(
                TlsError::Rcgen(e),
            ),
        },
        r matches Err(e) ==> e is Rcgen || e is Unwritable,
{
    match key {
        Ok(k) => match read_params(cert) {
            Ok(params) => if writable(&params) {
                made_of(self_issued(params, Ok(k)))
            } else {
                Err(TlsError::Unwritable)
            },
            Err(e) => Err(TlsError::Rcgen(e)),
        },
        Err(e) => Err(TlsError::Rcgen(e)),
    }
}

/// The configuration that was asked for, or why there is none.
pub fn configured(config: Result<rustls::ServerConfig, rustls::Error>) -> (r: Result<
    rustls::ServerConfig,
    TlsError,
>)
    ensures
        r == match config {
            Ok(c) => Ok::<rustls::ServerConfig, TlsError>(c),
            Err(e) => Err(TlsError::Rustls(e)),
        },
{
    match config {
        Ok(c) => Ok(c),
        Err(e) => Err(TlsError::Rustls(e)),
    }
}

impl CertAuthority {
    /// The configurations are for their hosts, the key is held here, and the authority's name can
    /// be written.
    pub closed spec fn wf(&self) -> bool {
        &&& key_bytes(self.issuer_key) is Some
        &&& is_sound_name(cert_contents(self.issuer_cert).owner)
        &&& forall|h: Seq<char>| #[trigger]
            self.cache@.contains_key(h) ==> is_for(*self.cache@[h], h, self@)
    }

    /// The authority with a key and a certificate that were asked for, or why there is none. The
    /// certificate is handed out as `pem`, or in PEM of its own where that is `None`.
    pub fn of(
        made: Result<(rcgen::KeyPair, rcgen::Certificate), TlsError>,
        pem: Option<String>,
        http2: bool,
    ) -> (r: Result<CertAuthority, TlsError>)
        ensures
            match made {
                Ok((key, cert)) => {
                    &&& r matches Ok(ca)
                    &&& ca@ == (AuthorityModel {
                        subject: cert_subject(cert),
                        der: cert_bytes(cert),
                        pem: match pem {
                            Some(p) => p@,
                            None => certificate_pem(cert_bytes(cert)),
                        },
                        key: key_bytes(key),
                        http2,
                        cache: Map::empty(),
                    })
                    &&& key_bytes(key) is Some && is_sound_name(cert_contents(cert).owner)
                        ==> ca.wf()
                },
                Err(e) => r == Err::<CertAuthority, TlsError>(e),
            },
    {
        match made {
            Ok((issuer_key, issuer_cert)) => {
                let ca_pem: String = match pem {
                    Some(p) => p,
                    None => cert_pem(&issuer_cert),
                };
                Ok(
                    CertAuthority {
                        issuer_key,
                        issuer_cert,
                        ca_pem,
                        http2,
                        cache: StringHashMap::new(),
                    },
                )
            },
            Err(e) => Err(e),
        }
    }

    /// The authority with this certificate and key in PEM, or a new one where there is none. A
    /// text that holds no certificate or no key is refused, and so is a certificate that says what
    /// cannot be written. Otherwise it fails only where a key cannot be made or read, or a
    /// certificate cannot be signed.
    pub fn load_or_generate(stored: Option<(String, String)>, http2: bool) -> (r: Result<
        CertAuthority,
        TlsError,
    >)
        ensures
            r matches Ok(ca) ==> ca.wf() && ca@.http2 == http2 && ca@.cache == Map::<
                Seq<char>,
                Arc<rustls::ServerConfig>,
            >::empty() && match stored {
                Some((cert, key)) => ca@.pem == cert@ && ca@.key is Some && ca@.key == pem_key(key@)
                    && pem_subject(cert@) == Some(ca@.subject),
                None => ca@.pem == certificate_pem(ca@.der) && ca@.key is Some && ca@.subject
                    == authority_subject(),
            },
            r matches Err(e) ==> e is Rcgen || e is Unwritable,
            r matches Err(TlsError::Unwritable) ==> stored matches Some((cert, key)) && pem_subject(
                cert@,
            ) is Some && !can_be_written(pem_contents(cert@)),
            stored matches Some((cert, key)) && (pem_subject(cert@) is None || pem_key(key@) is None
                || !can_be_written(pem_contents(cert@))) ==> r is Err,
    {
        match stored {
            Some((cert, key)) => {
                let made = read_ca(cert.as_str(), read_key(key.as_str()));
                CertAuthority::of(made, Some(cert), http2)
            },
            None => CertAuthority::of(generate_ca(), None, http2),
        }
    }

    /// The authority's certificate in PEM.
    pub fn ca_pem(&self) -> (r: &str)
        ensures
            r@ == self@.pem,
    {
        self.ca_pem.as_str()
    }

    /// The authority's private key in PEM. An authority that is loaded with this text has the same
    /// key.
    pub fn key_pem(&self) -> (r: String)
        requires
            self.wf(),
        ensures
            self@.key matches Some(k) && r@ == private_key_pem(k) && pem_key(r@) == Some(k),
    {
        key_pem_of(&self.issuer_key)
    }

    /// The configuration for a host. It is made once, and is the same from then on.
    pub fn server_config_for(&mut self, host: &str) -> (r: Result<
        Arc<rustls::ServerConfig>,
        TlsError,
    >)
        requires
            old(self).wf(),
        ensures
            final(self).wf(),
            match r {
                Ok(config) => is_for(*config, host@, old(self)@) && final(self)@ == if old(
                    self,
                )@.cache.contains_key(host@) {
                    old(self)@
                } else {
                    AuthorityModel { cache: old(self)@.cache.insert(host@, config), ..old(self)@ }
                } && final(self)@.cache[host@] == config,
                Err(_) => !old(self)@.cache.contains_key(host@) && final(self)@ == old(self)@,
            },
    {
        if let Some(config) = self.cache.get(host) {
            return Ok(share(config));
        }
        let config = match self.build_server_config(host) {
            Ok(c) => Arc::new(c),
            Err(e) => return Err(e),
        };
        let kept = share(&config);
        self.cache.insert(host.to_string(), kept);
        Ok(config)
    }

    /// A key that was asked for, with a certificate that the authority signs. Without the key there
    /// is no certificate either.
    pub fn issued(&self, params: rcgen::CertificateParams, key: Result<
        rcgen::KeyPair,
        rcgen::Error,
    >) -> (r: Result<(rcgen::KeyPair, rcgen::Certificate), rcgen::Error>)
        requires
            self.wf(),
            can_be_written(params_contents(params)),
            key matches Ok(k) ==> key_bytes(k) is Some,
        ensures
            match key {
                Ok(k) => r matches Ok((own, cert)) ==> own == k && cert_subject(cert)
                    == params_subject(params) && cert_issuance(cert) == (Issuance {
                    issuer: self@.subject,
                    issuer_key: self@.key,
                    key: key_bytes(k),
                }),
                Err(e) => r == Err::<(rcgen::KeyPair, rcgen::Certificate), rcgen::Error>(e),
            },
    {
        match key {
            Ok(k) => {
                let cert = sign(params, &k, &self.issuer_cert, &self.issuer_key);
                certified(k, cert)
            },
            Err(e) => Err(e),
        }
    }

    /// What a server offers that has a key and a certificate of the authority: its certificate and
    /// that of the authority, its key, and the protocols. It is why there is none, where they could
    /// not be had.
    fn offered(&self, made: Result<(rcgen::KeyPair, rcgen::Certificate),
        rcgen::Error>) -> (r: Result<
        (Vec<Vec<u8>>, Vec<u8>, Vec<Vec<u8>>),
        TlsError,
    >)
        requires
            made matches Ok((key, _)) ==> key_bytes(key) is Some,
        ensures
            match made {
                Ok((key, leaf)) => r matches Ok((chain, der, list)) && byte_lists(chain@) == seq![
                    cert_bytes(leaf),
                    self@.der,
                ] && key_bytes(key) == Some(der@) && byte_lists(list@) == protocols(self@.http2),
                Err(e) => r == Err::<(Vec<Vec<u8>>, Vec<u8>, Vec<Vec<u8>>), TlsError>(
                    TlsError::Rcgen(e),
                ),
            },
    {
        match made {
            Ok((key, leaf)) => {
                let chain = vec![cert_der(&leaf), cert_der(&self.issuer_cert)];
                proof {
                    assert(byte_lists(chain@) =~= seq![
                        cert_bytes(leaf),
                        cert_bytes(self.issuer_cert),
                    ]);
                }
                Ok((chain, key_der(&key), protocol_list(self.http2)))
            },
            Err(e) => Err(TlsError::Rcgen(e)),
        }
    }

    /// Makes the configuration for a host. A name that is not ASCII is refused. Otherwise it fails
    /// only where a key cannot be made, a certificate cannot be signed, or rustls refuses them.
    fn build_server_config(&self, host: &str) -> (r: Result<rustls::ServerConfig, TlsError>)
        requires
            self.wf(),
        ensures
            r matches Ok(config) ==> is_for(config, host@, self@),
            !is_ascii(host@) ==> r matches Err(TlsError::Rcgen(_)),
    {
        let made = match host_params(host) {
            Ok(params) => self.issued(params, new_key()),
            Err(e) => Err(e),
        };
        let ghost leaf = made->Ok_0.1;
        match self.offered(made) {
            Ok((chain, key, list)) => {
                let config = configured(server_config(chain, key, list));
                proof {
                    if config is Ok {
                        assert(config_offer(config->Ok_0).chain == seq![
                            cert_bytes(leaf),
                            self@.der,
                        ]);
                    }
                }
                config
            },
            Err(e) => Err(e),
        }
    }
}

// ---- laws ----

/// A server offers HTTP/1.1, and where it is asked to, HTTP/2 before it.
pub proof fn law_protocols_are_offered_by_name()
    ensures
        protocols(false) == seq![vstd::utf8::encode_utf8("http/1.1"@)],
        protocols(true) == seq![vstd::utf8::encode_utf8("h2"@)] + protocols(false),
{
    reveal_strlit("http/1.1");
    reveal_strlit("h2");
    vstd::utf8::is_ascii_chars_encode_utf8("http/1.1"@);
    vstd::utf8::is_ascii_chars_encode_utf8("h2"@);
    let plain = seq![104u8, 116, 116, 112, 47, 49, 46, 49];
    assert(vstd::utf8::encode_utf8("http/1.1"@) =~= plain);
    assert(vstd::utf8::encode_utf8("h2"@) =~= seq![104u8, 50]);
    assert(protocols(true) =~= seq![vstd::utf8::encode_utf8("h2"@)] + protocols(false));
}

/// The certificate for a host is one for that host and no other, under its own name, and signs no
/// certificates. That of the authority does.
pub proof fn law_certificates_are_for_their_owner(host: Seq<char>)
    ensures
        host_subject(host).hosts == seq![host_named(host)],
        host_subject(host).common_name == host,
        host_subject(host).rank is Owner,
        authority_subject().common_name == "whistle-rs Root CA"@,
        authority_subject().rank is Authority,
        authority_subject().uses.contains(KeyUse::SignCertificates),
        authority_subject().hosts.len() == 0,
{
    assert(authority_subject().uses[0] == KeyUse::SignCertificates);
}

/// A server that is made for a host shows a certificate for that host before that of the authority,
/// signed by the authority, and offers the protocols that the authority does.
pub proof fn law_servers_show_the_chain(
    config: rustls::ServerConfig,
    host: Seq<char>,
    authority: AuthorityModel,
)
    requires
        is_for(config, host, authority),
    ensures
        config_offer(config).chain.len() == 2,
        config_offer(config).chain[1] == authority.der,
        exists|leaf: rcgen::Certificate|
            #[trigger] cert_bytes(leaf) == config_offer(config).chain[0] && cert_subject(
                leaf,
            ).common_name == host && cert_issuance(leaf).issuer == authority.subject
                && cert_issuance(leaf).issuer_key == authority.key,
        config_offer(config).protocols == protocols(authority.http2),
{
    let leaf = choose|leaf: rcgen::Certificate|
        cert_subject(leaf) == host_subject(host) && cert_issuance(leaf) == (Issuance {
            issuer: authority.subject,
            issuer_key: authority.key,
            key: Some(config_offer(config).key),
        }) && config_offer(config).chain == seq![#[trigger] cert_bytes(leaf), authority.der];
    assert(cert_bytes(leaf) == config_offer(config).chain[0]);
}

} // verus!
