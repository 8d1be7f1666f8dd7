//! Calls into the messaging-protocol library (`openmls`).
//!
//! The service relies on `openmls` for three things and nothing more: encoding
//! a basic credential from an identity, deriving an initial key-exchange key
//! pair, and validating the wire format of a published key package. Each call
//! stands behind one trusted item here; the delivery logic itself never looks
//! inside the produced or checked bytes.

use openmls::credentials::BasicCredential;
use openmls::credentials::Credential;
use openmls::prelude::tls_codec::Deserialize as TlsDeserialize;
use openmls::prelude::tls_codec::Serialize as TlsSerialize;
use openmls::prelude::Ciphersuite;
use openmls::prelude::KeyPackageIn;
use openmls::prelude::OpenMlsCrypto;
use openmls::prelude::OpenMlsProvider;
use openmls::prelude::OpenMlsRand;
use openmls::versions::ProtocolVersion;
use openmls_rust_crypto::OpenMlsRustCrypto;
use vstd::prelude::*;

verus! {

/// The serialized protocol credential of scheme "basic" built from an
/// identity: a function of the identity bytes alone.
pub uninterp spec fn basic_credential_bytes(identity: Seq<u8>) -> Seq<u8>;

/// Relies on `openmls::credentials::BasicCredential::new`, its conversion
/// into `Credential`, and `tls_codec::Serialize::tls_serialize_detached`: the
/// encoding is deterministic in the identity (a credential-type tag followed
/// by the identity as a length-prefixed vector), so the result is strictly
/// longer than the identity; serialization fails only for an identity too
/// large for a length prefix.
#[verifier::external_body]
pub(crate) fn encode_basic_credential(identity: &[u8]) -> (r: Option<Vec<u8>>)
    ensures
        r matches Some(b) ==> b@ == basic_credential_bytes(identity@)
            && b@.len() > identity@.len(),
{
    let basic = BasicCredential::new(identity.to_vec());
    let credential: Credential = basic.into();
    credential.tls_serialize_detached().ok()
}

/// Relies on `openmls_rust_crypto::OpenMlsRustCrypto`'s random provider
/// (`random_vec`) and crypto provider (`derive_hpke_keypair`): a fresh
/// key-exchange key pair from fresh randomness, of which the public part is
/// returned. The result depends on the drawn randomness, so nothing is
/// promised of it.
#[verifier::external_body]
pub(crate) fn fresh_init_key() -> Option<Vec<u8>> {
    let provider = OpenMlsRustCrypto::default();
    let ikm = provider.rand().random_vec(32).ok()?;
    let config = Ciphersuite::MLS_128_DHKEMX25519_AES128GCM_SHA256_Ed25519.hpke_config();
    let key_pair = provider.crypto().derive_hpke_keypair(config, &ikm).ok()?;
    Some(key_pair.public)
}

/// Relies on `openmls::prelude::KeyPackageIn`: `tls_deserialize` followed by
/// `validate` against protocol version 1.0. Validation checks signatures and
/// the key package's lifetime against the wall clock, so the outcome is not a
/// function of the bytes alone and nothing is promised of it.
#[verifier::external_body]
pub(crate) fn check_key_package(bytes: &[u8]) -> bool {
    let provider = OpenMlsRustCrypto::default();
    let key_package_in = match KeyPackageIn::tls_deserialize(&mut &bytes[..]) {
        Ok(kp) => kp,
        Err(_) => return false,
    };
    key_package_in.validate(provider.crypto(), ProtocolVersion::Mls10).is_ok()
}

} // verus!
