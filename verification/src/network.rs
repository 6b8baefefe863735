//! Identity-bound TLS sessions: the binding between a device identity and
//! its TLS certificate, trusted-peer pins, and the decisions of the session
//! handshake that runs once TLS is up.  Sockets, TLS configuration and the
//! timing of each step belong to the caller; every step that decides
//! something is here.
use crate::bytes::{be_u16, bytes_equal, bytes_less, copy_range, lex_less, push_be_u16, push_bytes};
use crate::crypto::{blake3_digest, blake3_hash};
use crate::identity::{
    device_id_for_public_key, device_id_of, domain_message_of, verification_result, DeviceIdentity,
    DevicePublicIdentity, IdentityError,
};
use crate::protocol::{
    protocol_preface, protocol_preface_bytes, Auth, ControlMessage, Hello, ProtocolError, CHUNK_KIND,
    CONTROL_KIND, MAX_CHUNK_PAYLOAD, MAX_CONTROL_PAYLOAD, PROTOCOL_VERSION,
};
use crate::text::{hex_decode, hex_decoded, hex_encode, hex_lower, chars_of, str_equal, string_from_chars};
use vstd::prelude::*;

verus! {

/// Seconds that each step of session establishment may take.
pub const SESSION_TIMEOUT_SECS: u64 = 10;

/// Length of the identity binding carried in the certificate extension: the
/// 32-byte identity key followed by its 64-byte signature.
pub const BINDING_EXTENSION_LEN: usize = 96;

/// The arcs of the certificate extension that carries the identity binding,
/// `1.3.6.1.4.1.57264.1.1`.
pub open spec fn binding_oid_arcs() -> Seq<u64> {
    seq![1u64, 3, 6, 1, 4, 1, 57264, 1, 1]
}

fn binding_oid_arcs_vec() -> (v: Vec<u64>)
    ensures
        v@ == binding_oid_arcs(),
{
    let v = vec![1u64, 3, 6, 1, 4, 1, 57264, 1, 1];
    assert(v@ =~= binding_oid_arcs());
    v
}

/// `fileporter/tls-binding/v1`: the signing domain of the binding signature.
pub open spec fn binding_domain() -> Seq<u8> {
    seq![102u8, 105, 108, 101, 112, 111, 114, 116, 101, 114, 47, 116, 108, 115, 45, 98, 105, 110, 100, 105, 110, 103, 47, 118, 49]
}

fn binding_domain_bytes() -> (v: Vec<u8>)
    ensures
        v@ == binding_domain(),
{
    let v = vec![102u8, 105, 108, 101, 112, 111, 114, 116, 101, 114, 47, 116, 108, 115, 45, 98, 105, 110, 100, 105, 110, 103, 47, 118, 49];
    assert(v@ =~= binding_domain());
    v
}

/// `fileporter/session-auth/v1`: the signing domain of the session proof.
pub open spec fn auth_domain() -> Seq<u8> {
    seq![102u8, 105, 108, 101, 112, 111, 114, 116, 101, 114, 47, 115, 101, 115, 115, 105, 111, 110, 45, 97, 117, 116, 104, 47, 118, 49]
}

fn auth_domain_bytes() -> (v: Vec<u8>)
    ensures
        v@ == auth_domain(),
{
    let v = vec![102u8, 105, 108, 101, 112, 111, 114, 116, 101, 114, 47, 115, 101, 115, 115, 105, 111, 110, 45, 97, 117, 116, 104, 47, 118, 49];
    assert(v@ =~= auth_domain());
    v
}

/// `fileporter/session-auth-transcript/v1`: the first bytes of every session
/// transcript.
pub open spec fn session_transcript_label() -> Seq<u8> {
    seq![102u8, 105, 108, 101, 112, 111, 114, 116, 101, 114, 47, 115, 101, 115, 115, 105, 111, 110, 45, 97, 117, 116, 104, 45, 116, 114, 97, 110, 115, 99, 114, 105, 112, 116, 47, 118, 49]
}

fn session_transcript_label_bytes() -> (v: Vec<u8>)
    ensures
        v@ == session_transcript_label(),
{
    let v = vec![102u8, 105, 108, 101, 112, 111, 114, 116, 101, 114, 47, 115, 101, 115, 115, 105, 111, 110, 45, 97, 117, 116, 104, 45, 116, 114, 97, 110, 115, 99, 114, 105, 112, 116, 47, 118, 49];
    assert(v@ =~= session_transcript_label());
    v
}

/// What is wrong with a certificate or with the identity binding it carries.
#[derive(Debug, Clone, PartialEq, Eq)]
pub enum CertificateProblem {
    InvalidDer,
    InvalidBindingOid,
    MissingIdentityBinding,
    InvalidBindingLength,
    ForeignIdentity,
    InvalidCertificate,
    KeyMismatch,
    MissingPeerCertificate,
    MissingClientCertificate,
    InvalidServerName,
    /// A failure reported by the certificate or key library, with its text.
    External(String),
}

/// The description of each `CertificateProblem`.
pub open spec fn certificate_problem_text(problem: CertificateProblem) -> Seq<char> {
    match problem {
        CertificateProblem::InvalidDer => "invalid DER"@,
        CertificateProblem::InvalidBindingOid => "invalid binding OID"@,
        CertificateProblem::MissingIdentityBinding => "missing identity binding"@,
        CertificateProblem::InvalidBindingLength => "invalid identity binding length"@,
        CertificateProblem::ForeignIdentity => "certificate belongs to another identity"@,
        CertificateProblem::InvalidCertificate => "invalid certificate"@,
        CertificateProblem::KeyMismatch => "private key does not match certificate"@,
        CertificateProblem::MissingPeerCertificate => "missing peer certificate"@,
        CertificateProblem::MissingClientCertificate => "missing client certificate"@,
        CertificateProblem::InvalidServerName => "invalid server name"@,
        CertificateProblem::External(text) => text@,
    }
}

impl CertificateProblem {
    /// The problem's message text.
    pub fn message(&self) -> (text: String)
        ensures
            text@ == certificate_problem_text(*self),
    {
        match self {
            CertificateProblem::InvalidDer => "invalid DER".to_owned(),
            CertificateProblem::InvalidBindingOid => "invalid binding OID".to_owned(),
            CertificateProblem::MissingIdentityBinding => "missing identity binding".to_owned(),
            CertificateProblem::InvalidBindingLength => "invalid identity binding length".to_owned(),
            CertificateProblem::ForeignIdentity => "certificate belongs to another identity".to_owned(),
            CertificateProblem::InvalidCertificate => "invalid certificate".to_owned(),
            CertificateProblem::KeyMismatch => "private key does not match certificate".to_owned(),
            CertificateProblem::MissingPeerCertificate => "missing peer certificate".to_owned(),
            CertificateProblem::MissingClientCertificate => "missing client certificate".to_owned(),
            CertificateProblem::InvalidServerName => "invalid server name".to_owned(),
            CertificateProblem::External(text) => text.clone(),
        }
    }
}

/// Why a session could not be established.  `Io` and `Tls` carry the text of
/// the transport's own error.
#[derive(Debug, Clone, PartialEq, Eq)]
pub enum NetworkError {
    Io(String),
    Tls(String),
    Protocol(ProtocolError),
    Identity(IdentityError),
    Certificate(CertificateProblem),
    Timeout,
    PinMismatch,
    ProtocolMismatch,
    UnexpectedMessage,
}

/// The text of each `NetworkError`.
pub open spec fn network_error_text(value: NetworkError) -> &'static str {
    match value {
        NetworkError::Io(_) => "network I/O failed",
        NetworkError::Tls(_) => "TLS authentication failed",
        NetworkError::Protocol(_) => "protocol framing failed",
        NetworkError::Identity(_) => "identity verification failed",
        NetworkError::Certificate(_) => "certificate binding failed",
        NetworkError::Timeout => "session timed out",
        NetworkError::PinMismatch => "trusted peer pin mismatch",
        NetworkError::ProtocolMismatch => "protocol version mismatch",
        NetworkError::UnexpectedMessage => "unexpected session message",
    }
}

impl NetworkError {
    /// The error's message text.
    pub fn message(&self) -> (text: &'static str)
        ensures
            text == network_error_text(*self),
    {
        match self {
            NetworkError::Io(_) => "network I/O failed",
            NetworkError::Tls(_) => "TLS authentication failed",
            NetworkError::Protocol(_) => "protocol framing failed",
            NetworkError::Identity(_) => "identity verification failed",
            NetworkError::Certificate(_) => "certificate binding failed",
            NetworkError::Timeout => "session timed out",
            NetworkError::PinMismatch => "trusted peer pin mismatch",
            NetworkError::ProtocolMismatch => "protocol version mismatch",
            NetworkError::UnexpectedMessage => "unexpected session message",
        }
    }
}

/// The identity a peer's certificate is bound to.
#[derive(Debug, Clone, PartialEq, Eq)]
pub struct PeerBinding {
    pub identity: DevicePublicIdentity,
    pub device_id: String,
    pub certificate_fingerprint: [u8; 32],
}

/// What a device remembers of a trusted peer.
#[derive(Debug, Clone, PartialEq, Eq)]
pub struct TrustedPeerPin {
    pub device_id: String,
    pub public_key: [u8; 32],
    pub certificate_fingerprint: [u8; 32],
}

/// Whether `pin` names exactly the identity, key and certificate of `binding`.
pub open spec fn pin_matches(pin: TrustedPeerPin, binding: PeerBinding) -> bool {
    &&& pin.device_id@ == binding.device_id@
    &&& pin.public_key@ == binding.identity.public_key@
    &&& pin.certificate_fingerprint@ == binding.certificate_fingerprint@
}

impl TrustedPeerPin {
    /// The pin that remembers `binding`.
    pub fn from_binding(binding: &PeerBinding) -> (pin: Self)
        ensures
            pin.device_id@ == binding.device_id@,
            pin.public_key@ == binding.identity.public_key@,
            pin.certificate_fingerprint@ == binding.certificate_fingerprint@,
            pin_matches(pin, *binding),
    {
        TrustedPeerPin {
            device_id: binding.device_id.clone(),
            public_key: binding.identity.public_key,
            certificate_fingerprint: binding.certificate_fingerprint,
        }
    }

    /// Whether this pin names exactly `binding`.
    pub fn matches(&self, binding: &PeerBinding) -> (matched: bool)
        ensures
            matched == pin_matches(*self, *binding),
    {
        str_equal(self.device_id.as_str(), binding.device_id.as_str())
            && bytes_equal(&self.public_key, &binding.identity.public_key)
            && bytes_equal(&self.certificate_fingerprint, &binding.certificate_fingerprint)
    }
}

/// How a client treats the server it connects to.
#[derive(Debug, Clone, PartialEq, Eq)]
pub enum TrustMode {
    Pairing,
    Trusted(TrustedPeerPin),
}

/// What an established session may be used for.
#[derive(Debug, Copy, Clone, PartialEq, Eq, Structural)]
pub enum SessionAuthorization {
    PairingOnly,
    Trusted,
}

/// An established session: who the peer is and what the session permits.
#[derive(Debug, Clone)]
pub struct AuthenticatedSession {
    pub peer: PeerBinding,
    pub authorization: SessionAuthorization,
}

/// The message the identity key signs to bind a TLS key: the domain's length
/// as a big-endian `u16`, the domain, the identity key, the TLS key's length
/// as a big-endian `u16`, and the TLS key.
pub open spec fn binding_message_of(identity: Seq<u8>, tls_public: Seq<u8>) -> Seq<u8> {
    be_u16(binding_domain().len() as u16) + binding_domain() + identity + be_u16(
        tls_public.len() as u16,
    ) + tls_public
}

pub fn binding_message(identity: &[u8; 32], tls_public: &[u8]) -> (bytes: Vec<u8>)
    ensures
        bytes@ == binding_message_of(identity@, tls_public@),
{
    let domain = binding_domain_bytes();
    let mut bytes: Vec<u8> = Vec::new();
    push_be_u16(&mut bytes, domain.len() as u16);
    push_bytes(&mut bytes, domain.as_slice());
    push_bytes(&mut bytes, identity);
    push_be_u16(&mut bytes, tls_public.len() as u16);
    push_bytes(&mut bytes, tls_public);
    assert(bytes@ =~= binding_message_of(identity@, tls_public@));
    bytes
}

/// What checking a binding signature reports: the key must be an Ed25519
/// point and the signature must hold over the binding message in the
/// binding domain.
pub open spec fn binding_signature_result(public_key: Seq<u8>, signature: Seq<u8>, tls_public: Seq<u8>) -> Result<(), IdentityError> {
    verification_result(
        public_key,
        domain_message_of(binding_domain(), binding_message_of(public_key, tls_public)),
        signature,
    )
}

/// Checks that `signature` binds the identity `public_key` to `tls_public`.
pub fn verify_binding_signature(public_key: [u8; 32], signature: [u8; 64], tls_public: &[u8]) -> (result: Result<DevicePublicIdentity, NetworkError>)
    ensures
        match result {
            Ok(identity) => binding_signature_result(public_key@, signature@, tls_public@) is Ok
                && identity.public_key == public_key,
            Err(e) => binding_signature_result(public_key@, signature@, tls_public@) matches Err(i)
                && e == NetworkError::Identity(i),
        },
{
    let identity = match DevicePublicIdentity::from_public_key(public_key) {
        Ok(identity) => identity,
        Err(e) => return Err(NetworkError::Identity(e)),
    };
    let domain = binding_domain_bytes();
    let message = binding_message(&public_key, tls_public);
    match identity.verify_domain_separated(domain.as_slice(), message.as_slice(), &signature) {
        Ok(()) => Ok(identity),
        Err(e) => Err(NetworkError::Identity(e)),
    }
}

/// What an X.509 parser reads from the DER certificate `der`: each extension
/// as its OID's content bytes and its raw value, in certificate order, and
/// the bits of the subject public key; `None` when `der` is not a
/// certificate.
pub uninterp spec fn x509_parts(der: Seq<u8>) -> Option<(Seq<(Seq<u8>, Seq<u8>)>, Seq<u8>)>;

/// The DER content bytes of the object identifier with the given arcs;
/// `None` when the arcs do not form an identifier.
pub uninterp spec fn oid_content(arcs: Seq<u64>) -> Option<Seq<u8>>;

/// A parsed certificate, reduced to what the binding is read from.
pub struct CertificateParts {
    pub extensions: Vec<(Vec<u8>, Vec<u8>)>,
    pub subject_public_key: Vec<u8>,
}

pub open spec fn extension_views(extensions: Seq<(Vec<u8>, Vec<u8>)>) -> Seq<(Seq<u8>, Seq<u8>)> {
    extensions.map_values(|e: (Vec<u8>, Vec<u8>)| (e.0@, e.1@))
}

/// `x509_parser::parse_x509_certificate`, reduced to the extensions and the
/// subject public key.  What it reads is a function of the bytes alone.
#[verifier::external_body]
fn parse_certificate(der: &[u8]) -> (parts: Option<CertificateParts>)
    ensures
        match parts {
            Some(p) => x509_parts(der@) == Some((extension_views(p.extensions@), p.subject_public_key@)),
            None => x509_parts(der@) is None,
        },
{
    match x509_parser::prelude::parse_x509_certificate(der) {
        Ok((_, certificate)) => Some(CertificateParts {
            extensions: certificate.extensions().iter().map(
                |e| (e.oid.as_bytes().to_vec(), e.value.to_vec()),
            ).collect(),
            subject_public_key: certificate.tbs_certificate.subject_pki.subject_public_key.data.to_vec(),
        }),
        Err(_) => None,
    }
}

/// `asn1_rs::Oid::from`, reduced to the identifier's content bytes.  They
/// are a function of the arcs alone.
#[verifier::external_body]
fn oid_from_arcs(arcs: &[u64]) -> (encoded: Option<Vec<u8>>)
    ensures
        match encoded {
            Some(v) => oid_content(arcs@) == Some(v@),
            None => oid_content(arcs@) is None,
        },
{
    match x509_parser::oid_registry::Oid::from(arcs) {
        Ok(oid) => Some(oid.as_bytes().to_vec()),
        Err(_) => None,
    }
}

/// The value of the first extension whose OID is `oid`.
pub open spec fn find_extension(extensions: Seq<(Seq<u8>, Seq<u8>)>, oid: Seq<u8>) -> Option<Seq<u8>>
    decreases extensions.len(),
{
    if extensions.len() == 0 {
        None
    } else if extensions[0].0 == oid {
        Some(extensions[0].1)
    } else {
        find_extension(extensions.drop_first(), oid)
    }
}

/// What reading the identity binding from the certificate `der` gives: the
/// bound identity key, or why there is none.
pub open spec fn binding_key_result(der: Seq<u8>) -> Result<Seq<u8>, NetworkError> {
    match x509_parts(der) {
        None => Err(NetworkError::Certificate(CertificateProblem::InvalidDer)),
        Some(parts) => match oid_content(binding_oid_arcs()) {
            None => Err(NetworkError::Certificate(CertificateProblem::InvalidBindingOid)),
            Some(oid) => match find_extension(parts.0, oid) {
                None => Err(NetworkError::Certificate(CertificateProblem::MissingIdentityBinding)),
                Some(value) => if value.len() != 96 {
                    Err(NetworkError::Certificate(CertificateProblem::InvalidBindingLength))
                } else {
                    match binding_signature_result(value.subrange(0, 32), value.subrange(32, 96), parts.1) {
                        Err(e) => Err(NetworkError::Identity(e)),
                        Ok(()) => Ok(value.subrange(0, 32)),
                    }
                },
            },
        },
    }
}

/// The value of the first extension whose OID is `oid`, computed.
fn first_extension(extensions: &Vec<(Vec<u8>, Vec<u8>)>, oid: &Vec<u8>) -> (value: Option<Vec<u8>>)
    ensures
        match value {
            Some(v) => find_extension(extension_views(extensions@), oid@) == Some(v@),
            None => find_extension(extension_views(extensions@), oid@) is None,
        },
{
    let ghost all = extension_views(extensions@);
    assert(all.subrange(0, all.len() as int) =~= all);
    let mut i: usize = 0;
    while i < extensions.len()
        invariant
            i <= extensions@.len(),
            all == extension_views(extensions@),
            find_extension(all, oid@) == find_extension(all.subrange(i as int, all.len() as int), oid@),
        decreases extensions@.len() - i,
    {
        let ghost rest = all.subrange(i as int, all.len() as int);
        assert(rest.drop_first() =~= all.subrange(i + 1, all.len() as int));
        assert(rest[0] == (extensions@[i as int].0@, extensions@[i as int].1@));
        if bytes_equal(extensions[i].0.as_slice(), oid.as_slice()) {
            return Some(copy_range(extensions[i].1.as_slice(), 0, extensions[i].1.len()));
        }
        i = i + 1;
    }
    None
}

/// Reads and checks the identity binding of the DER certificate
/// `certificate`: the binding extension must hold an identity key and that
/// key's signature over the certificate's TLS key.
pub fn parse_binding(certificate: &[u8]) -> (result: Result<PeerBinding, NetworkError>)
    ensures
        match result {
            Ok(binding) => binding_key_result(certificate@) == Ok::<Seq<u8>, NetworkError>(binding.identity.public_key@)
                && binding.device_id@ == device_id_of(binding.identity.public_key@)
                && binding.certificate_fingerprint@ == blake3_digest(certificate@),
            Err(e) => binding_key_result(certificate@) == Err::<Seq<u8>, NetworkError>(e),
        },
{
    let parts = match parse_certificate(certificate) {
        Some(parts) => parts,
        None => return Err(NetworkError::Certificate(CertificateProblem::InvalidDer)),
    };
    let arcs = binding_oid_arcs_vec();
    let oid = match oid_from_arcs(arcs.as_slice()) {
        Some(oid) => oid,
        None => return Err(NetworkError::Certificate(CertificateProblem::InvalidBindingOid)),
    };
    let value = match first_extension(&parts.extensions, &oid) {
        Some(value) => value,
        None => return Err(NetworkError::Certificate(CertificateProblem::MissingIdentityBinding)),
    };
    if value.len() != BINDING_EXTENSION_LEN {
        return Err(NetworkError::Certificate(CertificateProblem::InvalidBindingLength));
    }
    let mut public_key = [0u8; 32];
    let mut k: usize = 0;
    while k < 32
        invariant
            k <= 32,
            value@.len() == 96,
            forall|j: int| 0 <= j < k ==> public_key@[j] == value@[j],
        decreases 32 - k,
    {
        public_key[k] = value[k];
        k = k + 1;
    }
    let mut signature = [0u8; 64];
    let mut s: usize = 0;
    while s < 64
        invariant
            s <= 64,
            value@.len() == 96,
            forall|j: int| 0 <= j < s ==> signature@[j] == value@[32 + j],
        decreases 64 - s,
    {
        signature[s] = value[32 + s];
        s = s + 1;
    }
    assert(public_key@ =~= value@.subrange(0, 32));
    assert(signature@ =~= value@.subrange(32, 96));
    let identity = verify_binding_signature(public_key, signature, parts.subject_public_key.as_slice())?;
    Ok(PeerBinding {
        device_id: device_id_for_public_key(&public_key),
        identity,
        certificate_fingerprint: blake3_hash(certificate),
    })
}


/// What a client grants a server whose certificate carries `peer`: a pairing
/// session in pairing mode; a trusted session when the pin names the peer.
pub open spec fn client_authorization_result(mode: TrustMode, peer: PeerBinding) -> Result<SessionAuthorization, NetworkError> {
    match mode {
        TrustMode::Pairing => Ok(SessionAuthorization::PairingOnly),
        TrustMode::Trusted(pin) => if pin_matches(pin, peer) {
            Ok(SessionAuthorization::Trusted)
        } else {
            Err(NetworkError::PinMismatch)
        },
    }
}

/// The authorization a client grants the server it connected to.
pub fn client_authorization(mode: &TrustMode, peer: &PeerBinding) -> (result: Result<SessionAuthorization, NetworkError>)
    ensures
        result == client_authorization_result(*mode, *peer),
{
    match mode {
        TrustMode::Pairing => Ok(SessionAuthorization::PairingOnly),
        TrustMode::Trusted(pin) => if pin.matches(peer) {
            Ok(SessionAuthorization::Trusted)
        } else {
            Err(NetworkError::PinMismatch)
        },
    }
}

/// The authorization a server grants a client it expects: a trusted session
/// exactly when the expected pin names the client.
pub fn server_authorization(expected: &TrustedPeerPin, peer: &PeerBinding) -> (result: Result<SessionAuthorization, NetworkError>)
    ensures
        pin_matches(*expected, *peer) ==> result == Ok::<SessionAuthorization, NetworkError>(SessionAuthorization::Trusted),
        !pin_matches(*expected, *peer) ==> result == Err::<SessionAuthorization, NetworkError>(NetworkError::PinMismatch),
{
    if expected.matches(peer) {
        Ok(SessionAuthorization::Trusted)
    } else {
        Err(NetworkError::PinMismatch)
    }
}

/// The certificate check a client applies while TLS runs: the certificate
/// must carry a valid identity binding, and in trusted mode the pin must
/// name it.
pub fn admit_server_certificate(mode: &TrustMode, certificate: &[u8]) -> (result: Result<PeerBinding, NetworkError>)
    ensures
        match result {
            Ok(binding) => binding_key_result(certificate@) == Ok::<Seq<u8>, NetworkError>(binding.identity.public_key@)
                && binding.device_id@ == device_id_of(binding.identity.public_key@)
                && binding.certificate_fingerprint@ == blake3_digest(certificate@)
                && (*mode matches TrustMode::Trusted(pin) ==> pin_matches(pin, binding)),
            Err(e) => binding_key_result(certificate@) == Err::<Seq<u8>, NetworkError>(e)
                || (binding_key_result(certificate@) is Ok && e == NetworkError::PinMismatch
                    && mode is Trusted),
        },
{
    let binding = parse_binding(certificate)?;
    match mode {
        TrustMode::Pairing => Ok(binding),
        TrustMode::Trusted(pin) => if pin.matches(&binding) {
            Ok(binding)
        } else {
            Err(NetworkError::PinMismatch)
        },
    }
}

/// Checks the 13 bytes the peer sent first.
pub fn check_preface(received: &[u8]) -> (result: Result<(), NetworkError>)
    ensures
        result is Ok <==> received@ == protocol_preface(),
        result is Err ==> result == Err::<(), NetworkError>(NetworkError::ProtocolMismatch),
{
    let expected = protocol_preface_bytes();
    if bytes_equal(received, expected.as_slice()) {
        Ok(())
    } else {
        Err(NetworkError::ProtocolMismatch)
    }
}

fn string_of_hex(bytes: &[u8]) -> (text: String)
    ensures
        text@ == hex_lower(bytes@),
{
    let chars = hex_encode(bytes);
    string_from_chars(&chars)
}

/// The hello a device sends: protocol version 1 at both ends of its range,
/// its device ID, the display name `Fileporter`, its session nonce in
/// lower-case hexadecimal, and the capabilities `pairing` and `transfer`.
pub fn local_hello(device_id: &String, nonce: &[u8; 32]) -> (message: ControlMessage)
    ensures
        message matches ControlMessage::Hello(h) && h.protocol_min == PROTOCOL_VERSION
            && h.protocol_max == PROTOCOL_VERSION && h.device_id@ == device_id@
            && h.display_name@ == "Fileporter"@ && h.session_nonce@ == hex_lower(nonce@)
            && h.capabilities@.len() == 2 && h.capabilities@[0]@ == "pairing"@
            && h.capabilities@[1]@ == "transfer"@,
{
    ControlMessage::Hello(Hello {
        protocol_min: PROTOCOL_VERSION,
        protocol_max: PROTOCOL_VERSION,
        device_id: device_id.clone(),
        display_name: "Fileporter".to_owned(),
        session_nonce: string_of_hex(nonce),
        capabilities: vec!["pairing".to_owned(), "transfer".to_owned()],
    })
}

/// What a peer's hello gives: its session nonce, when the hello admits
/// protocol version 1, names the device the certificate is bound to, and
/// carries 32 bytes of hexadecimal nonce.
pub open spec fn remote_nonce_result(message: ControlMessage, peer_device_id: Seq<char>) -> Result<Seq<u8>, NetworkError> {
    match message {
        ControlMessage::Hello(h) => if h.protocol_min <= PROTOCOL_VERSION && h.protocol_max
            >= PROTOCOL_VERSION && h.device_id@ == peer_device_id {
            match hex_decoded(h.session_nonce@) {
                Some(nonce) => if nonce.len() == 32 {
                    Ok(nonce)
                } else {
                    Err(NetworkError::ProtocolMismatch)
                },
                None => Err(NetworkError::ProtocolMismatch),
            }
        } else {
            Err(NetworkError::ProtocolMismatch)
        },
        _ => Err(NetworkError::ProtocolMismatch),
    }
}

fn array32(v: &Vec<u8>) -> (a: [u8; 32])
    requires
        v@.len() == 32,
    ensures
        a@ == v@,
{
    let mut a = [0u8; 32];
    let mut i: usize = 0;
    while i < 32
        invariant
            i <= 32,
            v@.len() == 32,
            forall|j: int| 0 <= j < i ==> a@[j] == v@[j],
        decreases 32 - i,
    {
        a[i] = v[i];
        i = i + 1;
    }
    assert(a@ =~= v@);
    a
}

fn array64(v: &Vec<u8>) -> (a: [u8; 64])
    requires
        v@.len() == 64,
    ensures
        a@ == v@,
{
    let mut a = [0u8; 64];
    let mut i: usize = 0;
    while i < 64
        invariant
            i <= 64,
            v@.len() == 64,
            forall|j: int| 0 <= j < i ==> a@[j] == v@[j],
        decreases 64 - i,
    {
        a[i] = v[i];
        i = i + 1;
    }
    assert(a@ =~= v@);
    a
}

/// The session nonce of the peer's hello, checked against the peer's binding.
pub fn remote_nonce(message: &ControlMessage, peer: &PeerBinding) -> (result: Result<[u8; 32], NetworkError>)
    ensures
        match result {
            Ok(nonce) => remote_nonce_result(*message, peer.device_id@) == Ok::<Seq<u8>, NetworkError>(nonce@),
            Err(e) => remote_nonce_result(*message, peer.device_id@) == Err::<Seq<u8>, NetworkError>(e),
        },
{
    match message {
        ControlMessage::Hello(h) => {
            if h.protocol_min <= PROTOCOL_VERSION && h.protocol_max >= PROTOCOL_VERSION
                && str_equal(h.device_id.as_str(), peer.device_id.as_str()) {
                let chars = chars_of(h.session_nonce.as_str());
                match hex_decode(&chars) {
                    Some(bytes) => if bytes.len() == 32 {
                        Ok(array32(&bytes))
                    } else {
                        Err(NetworkError::ProtocolMismatch)
                    },
                    None => Err(NetworkError::ProtocolMismatch),
                }
            } else {
                Err(NetworkError::ProtocolMismatch)
            }
        },
        _ => Err(NetworkError::ProtocolMismatch),
    }
}

/// The bytes both ends of a session sign: the transcript label, then each
/// identity key followed by its nonce, the lexicographically smaller key
/// first (the left one when the keys are equal).
pub open spec fn session_transcript_of(left: Seq<u8>, right: Seq<u8>, left_nonce: Seq<u8>, right_nonce: Seq<u8>) -> Seq<u8> {
    if lex_less(right, left) {
        session_transcript_label() + right + right_nonce + left + left_nonce
    } else {
        session_transcript_label() + left + left_nonce + right + right_nonce
    }
}

pub fn session_transcript(left: &[u8; 32], right: &[u8; 32], left_nonce: &[u8; 32], right_nonce: &[u8; 32]) -> (bytes: Vec<u8>)
    ensures
        bytes@ == session_transcript_of(left@, right@, left_nonce@, right_nonce@),
{
    let mut bytes = session_transcript_label_bytes();
    if bytes_less(right, left) {
        push_bytes(&mut bytes, right);
        push_bytes(&mut bytes, right_nonce);
        push_bytes(&mut bytes, left);
        push_bytes(&mut bytes, left_nonce);
    } else {
        push_bytes(&mut bytes, left);
        push_bytes(&mut bytes, left_nonce);
        push_bytes(&mut bytes, right);
        push_bytes(&mut bytes, right_nonce);
    }
    bytes
}

/// Both ends of a session compute the same transcript: each puts its own
/// key and nonce on the left, and the order of the records depends only on
/// the keys.  Distinct keys are needed: with one key on both sides the left
/// record comes first at each end.
pub proof fn lemma_session_transcript_agrees(a: Seq<u8>, b: Seq<u8>, a_nonce: Seq<u8>, b_nonce: Seq<u8>)
    requires
        a.len() == 32,
        b.len() == 32,
        a != b,
    ensures
        session_transcript_of(a, b, a_nonce, b_nonce) == session_transcript_of(b, a, b_nonce, a_nonce),
{
    crate::identity::lemma_lex_total(a, b);
}

/// The proof a device sends: the transcript in hexadecimal and its signature
/// over the transcript in the session-auth domain, in hexadecimal.
pub fn local_auth(identity: &DeviceIdentity, transcript: &[u8]) -> (message: ControlMessage)
    ensures
        message matches ControlMessage::Auth(a) && a.transcript@ == hex_lower(transcript@)
            && a.signature@ == hex_lower(
            crate::crypto::ed25519_signature(identity@, domain_message_of(auth_domain(), transcript@)),
        ),
{
    let domain = auth_domain_bytes();
    let signature = identity.sign_domain_separated(domain.as_slice(), transcript);
    ControlMessage::Auth(Auth {
        transcript: string_of_hex(transcript),
        signature: string_of_hex(&signature),
    })
}

/// What a peer's proof gives: accepted when it is a proof over this
/// session's transcript whose signature verifies under the peer's identity
/// key in the session-auth domain.
pub open spec fn remote_auth_result(message: ControlMessage, transcript: Seq<u8>, peer_key: Seq<u8>) -> Result<(), NetworkError> {
    match message {
        ControlMessage::Auth(a) => if a.transcript@ == hex_lower(transcript) {
            match hex_decoded(a.signature@) {
                Some(signature) => if signature.len() == 64 {
                    match verification_result(peer_key, domain_message_of(auth_domain(), transcript), signature) {
                        Ok(()) => Ok(()),
                        Err(e) => Err(NetworkError::Identity(e)),
                    }
                } else {
                    Err(NetworkError::ProtocolMismatch)
                },
                None => Err(NetworkError::ProtocolMismatch),
            }
        } else {
            Err(NetworkError::UnexpectedMessage)
        },
        _ => Err(NetworkError::UnexpectedMessage),
    }
}

/// Checks the peer's proof over this session's transcript.
pub fn check_remote_auth(message: &ControlMessage, transcript: &[u8], peer: &PeerBinding) -> (result: Result<(), NetworkError>)
    ensures
        result == remote_auth_result(*message, transcript@, peer.identity.public_key@),
{
    match message {
        ControlMessage::Auth(a) => {
            let expected = string_of_hex(transcript);
            if str_equal(a.transcript.as_str(), expected.as_str()) {
                let chars = chars_of(a.signature.as_str());
                match hex_decode(&chars) {
                    Some(bytes) => if bytes.len() == 64 {
                        let signature = array64(&bytes);
                        let domain = auth_domain_bytes();
                        match peer.identity.verify_domain_separated(domain.as_slice(), transcript, &signature) {
                            Ok(()) => Ok(()),
                            Err(e) => Err(NetworkError::Identity(e)),
                        }
                    } else {
                        Err(NetworkError::ProtocolMismatch)
                    },
                    None => Err(NetworkError::ProtocolMismatch),
                }
            } else {
                Err(NetworkError::UnexpectedMessage)
            }
        },
        _ => Err(NetworkError::UnexpectedMessage),
    }
}

/// The payload length announced by a frame header, when its kind is known and
/// the length is within that kind's limit.
pub open spec fn header_length_result(header: Seq<u8>) -> Result<usize, NetworkError> {
    let length = crate::bytes::u32_of_be(header.subrange(1, 5)) as usize;
    if header[0] == CONTROL_KIND {
        if length > MAX_CONTROL_PAYLOAD {
            Err(NetworkError::Protocol(ProtocolError::OversizedFrame { actual: length, limit: MAX_CONTROL_PAYLOAD }))
        } else {
            Ok(length)
        }
    } else if header[0] == CHUNK_KIND {
        if length > MAX_CHUNK_PAYLOAD {
            Err(NetworkError::Protocol(ProtocolError::OversizedFrame { actual: length, limit: MAX_CHUNK_PAYLOAD }))
        } else {
            Ok(length)
        }
    } else {
        Err(NetworkError::Protocol(ProtocolError::UnknownFrameKind(header[0])))
    }
}

/// Reads a frame header before anything of the payload is allocated.
pub fn incoming_frame_length(header: &[u8; 5]) -> (result: Result<usize, NetworkError>)
    ensures
        result == header_length_result(header@),
{
    let length = crate::bytes::read_be_u32(header, 1) as usize;
    let kind = header[0];
    let limit = if kind == CONTROL_KIND {
        MAX_CONTROL_PAYLOAD
    } else if kind == CHUNK_KIND {
        MAX_CHUNK_PAYLOAD
    } else {
        return Err(NetworkError::Protocol(ProtocolError::UnknownFrameKind(kind)));
    };
    if length > limit {
        return Err(NetworkError::Protocol(ProtocolError::OversizedFrame { actual: length, limit }));
    }
    Ok(length)
}


/// The certificate extension that binds `identity` to the TLS key
/// `tls_public`: the identity key followed by its signature over the
/// binding message in the binding domain.
pub fn binding_extension(identity: &DeviceIdentity, tls_public: &[u8]) -> (extension: Vec<u8>)
    ensures
        extension@ == crate::crypto::ed25519_public_key(identity@) + crate::crypto::ed25519_signature(
            identity@,
            domain_message_of(binding_domain(), binding_message_of(crate::crypto::ed25519_public_key(identity@), tls_public@)),
        ),
        extension@.len() == BINDING_EXTENSION_LEN,
{
    let public = identity.public_identity();
    let message = binding_message(&public.public_key, tls_public);
    let domain = binding_domain_bytes();
    let signature = identity.sign_domain_separated(domain.as_slice(), message.as_slice());
    let mut extension: Vec<u8> = Vec::new();
    push_bytes(&mut extension, &public.public_key);
    push_bytes(&mut extension, &signature);
    extension
}

/// What restoring a stored certificate gives when the public key of its
/// stored private key is `key`: its binding, when the binding names
/// `identity` and `key` is the certificate's subject key.
pub open spec fn restored_binding_result(identity: Seq<u8>, certificate: Seq<u8>, key: Seq<u8>) -> Result<Seq<u8>, NetworkError> {
    match binding_key_result(certificate) {
        Err(e) => Err(e),
        Ok(bound) => if bound != crate::crypto::ed25519_public_key(identity) {
            Err(NetworkError::Certificate(CertificateProblem::ForeignIdentity))
        } else {
            match x509_parts(certificate) {
                None => Err(NetworkError::Certificate(CertificateProblem::InvalidCertificate)),
                Some(parts) => if parts.1 != key {
                    Err(NetworkError::Certificate(CertificateProblem::KeyMismatch))
                } else {
                    Ok(bound)
                },
            }
        },
    }
}

/// Checks a stored certificate against the identity it is restored for and
/// the public key of its stored private key (or the key library's reason
/// that key could not be read, which is reported once the binding has been
/// checked).
pub fn restore_binding(identity: &DeviceIdentity, certificate: &[u8], key_public: &Result<Vec<u8>, String>) -> (result: Result<PeerBinding, NetworkError>)
    ensures
        match key_public {
            Ok(key) => match result {
                Ok(binding) => restored_binding_result(identity@, certificate@, key@)
                    == Ok::<Seq<u8>, NetworkError>(binding.identity.public_key@)
                    && binding.device_id@ == device_id_of(binding.identity.public_key@)
                    && binding.certificate_fingerprint@ == blake3_digest(certificate@),
                Err(e) => restored_binding_result(identity@, certificate@, key@) == Err::<Seq<u8>, NetworkError>(e),
            },
            Err(text) => match binding_key_result(certificate@) {
                Err(b) => result == Err::<PeerBinding, NetworkError>(b),
                Ok(bound) => if bound != crate::crypto::ed25519_public_key(identity@) {
                    result == Err::<PeerBinding, NetworkError>(NetworkError::Certificate(CertificateProblem::ForeignIdentity))
                } else {
                    result matches Err(NetworkError::Certificate(CertificateProblem::External(t))) && t@ == text@
                },
            },
        },
{
    let binding = parse_binding(certificate)?;
    let own = identity.public_identity();
    if !bytes_equal(&binding.identity.public_key, &own.public_key) {
        return Err(NetworkError::Certificate(CertificateProblem::ForeignIdentity));
    }
    let key = match key_public {
        Ok(key) => key,
        Err(text) => return Err(NetworkError::Certificate(CertificateProblem::External(text.clone()))),
    };
    let parts = match parse_certificate(certificate) {
        Some(parts) => parts,
        None => return Err(NetworkError::Certificate(CertificateProblem::InvalidCertificate)),
    };
    if !bytes_equal(parts.subject_public_key.as_slice(), key.as_slice()) {
        return Err(NetworkError::Certificate(CertificateProblem::KeyMismatch));
    }
    Ok(binding)
}


/// The raw public key of the key pair that the PKCS#8 private key document
/// `der` holds, as the key library reads it.
pub uninterp spec fn pkcs8_public_key(der: Seq<u8>) -> Seq<u8>;

/// `rcgen::KeyPair::try_from` on a PKCS#8 document, then `public_key_raw`:
/// when a key pair is read, its public key is a function of the document's
/// bytes.  When none is read, the library's reason instead; for some key
/// kinds the read draws on the system's random source, so nothing is stated
/// of when that happens.
#[verifier::external_body]
fn key_pair_public(private_key_der: &[u8]) -> (public: Result<Vec<u8>, String>)
    ensures
        public matches Ok(key) ==> pkcs8_public_key(private_key_der@) == key@,
{
    match rcgen::KeyPair::try_from(private_key_der) {
        Ok(key) => Ok(key.public_key_raw().to_vec()),
        Err(error) => Err(error.to_string()),
    }
}

/// `rcgen::KeyPair::generate_for(&PKCS_ED25519)`, serialized with
/// `serialize_der`: a fresh Ed25519 key pair from the system's random
/// source as a PKCS#8 document, or the library's reason it could not make
/// one.  Nothing is known of the bytes.
#[verifier::external_body]
fn generate_key_pair() -> (der: Result<Vec<u8>, String>) {
    match rcgen::KeyPair::generate_for(&rcgen::PKCS_ED25519) {
        Ok(key) => Ok(key.serialize_der()),
        Err(error) => Err(error.to_string()),
    }
}

/// `rcgen::CertificateParams::self_signed`, with parameters for the one
/// subject name `name` and one custom extension (the OID `arcs`, the value
/// `content`), signed by the PKCS#8 key `private_key_der`: the
/// certificate's DER, or the library's reason it could not be made.
/// Nothing is stated of the DER; its binding is read back by the caller.
/// The OID writer panics unless there are at least two arcs, the first is
/// 0, 1 or 2, the second is below 40 when the first is 0 or 1, and the
/// second is below 18446744073709551535 (so that the first two combine into
/// one `u64`).
#[verifier::external_body]
fn self_signed_certificate(private_key_der: &[u8], name: &str, arcs: &[u64], content: &[u8]) -> (der: Result<Vec<u8>, String>)
    requires
        arcs@.len() >= 2,
        arcs@[0] <= 2,
        arcs@[0] < 2 ==> arcs@[1] < 40,
        arcs@[1] < 18446744073709551535,
{
    let key = rcgen::KeyPair::try_from(private_key_der).map_err(|error| error.to_string())?;
    let mut params = rcgen::CertificateParams::new(vec![name.to_string()]).map_err(|error| error.to_string())?;
    params.custom_extensions.push(rcgen::CustomExtension::from_oid_content(arcs, content.to_vec()));
    let certificate = params.self_signed(&key).map_err(|error| error.to_string())?;
    Ok(certificate.der().to_vec())
}

/// A certificate whose binding has been read: the binding names the key
/// the certificate's binding extension carries, the device ID of that key,
/// and the BLAKE3 digest of the certificate.
pub open spec fn binding_read_from(certificate: Seq<u8>, binding: PeerBinding) -> bool {
    &&& binding_key_result(certificate) == Ok::<Seq<u8>, NetworkError>(binding.identity.public_key@)
    &&& binding.device_id@ == device_id_of(binding.identity.public_key@)
    &&& binding.certificate_fingerprint@ == blake3_digest(certificate)
}

/// This device's TLS credential: a self-signed certificate that carries the
/// identity binding, its PKCS#8 private key, the binding read back from the
/// certificate, and the identity that signs pairing transcripts.
pub struct LocalCertificate {
    certificate: Vec<u8>,
    key: Vec<u8>,
    binding: PeerBinding,
    identity: DeviceIdentity,
}

impl LocalCertificate {
    #[verifier::type_invariant]
    spec fn well_formed(self) -> bool {
        &&& binding_read_from(self.certificate@, self.binding)
        &&& self.binding.identity.public_key@ == crate::crypto::ed25519_public_key(self.identity@)
    }

    /// The certificate's DER.
    pub closed spec fn certificate_bytes(self) -> Seq<u8> {
        self.certificate@
    }

    /// The PKCS#8 private key.
    pub closed spec fn key_bytes(self) -> Seq<u8> {
        self.key@
    }

    /// The binding read from the certificate.
    pub closed spec fn bound(self) -> PeerBinding {
        self.binding
    }

    /// The signing secret of the identity.
    pub closed spec fn identity_bytes(self) -> Seq<u8> {
        self.identity@
    }

    /// A new credential for `identity`: a fresh Ed25519 TLS key, and a
    /// certificate for `fileporter.local` self-signed by it that carries the
    /// binding extension `identity` signs over that key.  Whether the key
    /// and the certificate can be made is the key library's; the binding
    /// is read back from the certificate made and must name `identity`.
    pub fn generate(identity: &DeviceIdentity) -> (result: Result<LocalCertificate, NetworkError>)
        ensures
            result matches Ok(c) ==> {
                &&& binding_read_from(c.certificate_bytes(), c.bound())
                &&& c.bound().identity.public_key@ == crate::crypto::ed25519_public_key(identity@)
                &&& c.identity_bytes() == identity@
            },
            result matches Err(e) ==> {
                ||| e matches NetworkError::Certificate(CertificateProblem::External(_))
                ||| e == NetworkError::Certificate(CertificateProblem::ForeignIdentity)
                ||| exists|der: Seq<u8>| #[trigger] binding_key_result(der) == Err::<Seq<u8>, NetworkError>(e)
            },
    {
        let key = match generate_key_pair() {
            Ok(key) => key,
            Err(text) => return Err(NetworkError::Certificate(CertificateProblem::External(text))),
        };
        let tls_public = match key_pair_public(key.as_slice()) {
            Ok(public) => public,
            Err(text) => return Err(NetworkError::Certificate(CertificateProblem::External(text))),
        };
        let extension = binding_extension(identity, tls_public.as_slice());
        let arcs = binding_oid_arcs_vec();
        let certificate = match self_signed_certificate(key.as_slice(), "fileporter.local", arcs.as_slice(), extension.as_slice()) {
            Ok(certificate) => certificate,
            Err(text) => return Err(NetworkError::Certificate(CertificateProblem::External(text))),
        };
        let binding = match parse_binding(certificate.as_slice()) {
            Ok(binding) => binding,
            Err(e) => {
                assert(binding_key_result(certificate@) == Err::<Seq<u8>, NetworkError>(e));
                return Err(e);
            },
        };
        let own = identity.public_identity();
        if !bytes_equal(&binding.identity.public_key, &own.public_key) {
            return Err(NetworkError::Certificate(CertificateProblem::ForeignIdentity));
        }
        Ok(LocalCertificate { certificate, key, binding, identity: DeviceIdentity::from_secret_bytes(identity.export_secret_bytes()) })
    }

    /// Restores a stored credential for `identity`, as `restore_binding`
    /// checks it against the public key the key library reads from the
    /// stored private key.  The binding is checked first; when it names
    /// `identity` and the key library reads no key pair, the library's
    /// reason is the error.
    pub fn from_persisted_der(identity: &DeviceIdentity, certificate_der: Vec<u8>, private_key_der: Vec<u8>) -> (result: Result<LocalCertificate, NetworkError>)
        ensures
            match result {
                Ok(c) => {
                    &&& restored_binding_result(identity@, certificate_der@, pkcs8_public_key(private_key_der@))
                        == Ok::<Seq<u8>, NetworkError>(c.bound().identity.public_key@)
                    &&& binding_read_from(certificate_der@, c.bound())
                    &&& c.certificate_bytes() == certificate_der@
                    &&& c.key_bytes() == private_key_der@
                    &&& c.identity_bytes() == identity@
                },
                Err(e) => {
                    ||| restored_binding_result(identity@, certificate_der@, pkcs8_public_key(private_key_der@))
                        == Err::<Seq<u8>, NetworkError>(e)
                    ||| {
                        &&& e matches NetworkError::Certificate(CertificateProblem::External(_))
                        &&& binding_key_result(certificate_der@) == Ok::<Seq<u8>, NetworkError>(
                            crate::crypto::ed25519_public_key(identity@),
                        )
                    }
                },
            },
            binding_key_result(certificate_der@) matches Err(b) ==> (result matches Err(e) && e == b),
            (binding_key_result(certificate_der@) matches Ok(bound) && bound != crate::crypto::ed25519_public_key(identity@))
                ==> (result matches Err(e) && e == NetworkError::Certificate(CertificateProblem::ForeignIdentity)),
    {
        let key_public = key_pair_public(private_key_der.as_slice());
        let binding = restore_binding(identity, certificate_der.as_slice(), &key_public)?;
        Ok(LocalCertificate {
            certificate: certificate_der,
            key: private_key_der,
            binding,
            identity: DeviceIdentity::from_secret_bytes(identity.export_secret_bytes()),
        })
    }

    /// The certificate's DER.
    pub fn certificate_der(&self) -> (der: Vec<u8>)
        ensures
            der@ == self.certificate_bytes(),
    {
        copy_range(&self.certificate, 0, self.certificate.len())
    }

    /// The certificate and the private key, for the secret store.
    pub fn persisted_der(&self) -> (parts: (Vec<u8>, Vec<u8>))
        ensures
            parts.0@ == self.certificate_bytes(),
            parts.1@ == self.key_bytes(),
    {
        (copy_range(&self.certificate, 0, self.certificate.len()), copy_range(&self.key, 0, self.key.len()))
    }

    /// The BLAKE3 digest of the certificate.
    pub fn fingerprint(&self) -> (digest: [u8; 32])
        ensures
            digest@ == blake3_digest(self.certificate_bytes()),
    {
        blake3_hash(self.certificate.as_slice())
    }

    /// The binding read from the certificate.
    pub fn binding(&self) -> (binding: &PeerBinding)
        ensures
            *binding == self.bound(),
            binding_read_from(self.certificate_bytes(), *binding),
            binding.identity.public_key@ == crate::crypto::ed25519_public_key(self.identity_bytes()),
    {
        proof {
            use_type_invariant(self);
        }
        &self.binding
    }

    /// A copy of the identity, to sign a pairing transcript with.
    pub fn identity_for_pairing(&self) -> (identity: DeviceIdentity)
        ensures
            identity@ == self.identity_bytes(),
    {
        DeviceIdentity::from_secret_bytes(self.identity.export_secret_bytes())
    }
}

} // verus!
