use vstd::prelude::*;

verus! {

/// The DER certificates that `rustls_pemfile::certs` reads from the PEM text
/// `pem` (other PEM sections are skipped), or `None` where it reports an error.
pub uninterp spec fn pem_certificates(pem: Seq<u8>) -> Option<Seq<Seq<u8>>>;

/// The DER keys that `rustls_pemfile::pkcs8_private_keys` reads from the PEM
/// text `pem` (other PEM sections are skipped), or `None` where it reports an
/// error.
pub uninterp spec fn pem_pkcs8_keys(pem: Seq<u8>) -> Option<Seq<Seq<u8>>>;

/// The views of a list of byte strings.
pub open spec fn byte_strings_view(v: Seq<Vec<u8>>) -> Seq<Seq<u8>> {
    v.map_values(|b: Vec<u8>| b@)
}

/// Calls `rustls_pemfile::certs` on the bytes of `pem`.
/// Trusted: the certificates it returns are the named result above, which
/// depends on the bytes alone; an error becomes `None`.
#[verifier::external_body]
pub(crate) fn read_pem_certificates(pem: &[u8]) -> (res: Option<Vec<Vec<u8>>>)
    ensures
        match res {
            Some(v) => pem_certificates(pem@) == Some(byte_strings_view(v@)),
            None => pem_certificates(pem@) is None,
        },
{
    let mut reader: &[u8] = pem;
    rustls_pemfile::certs(&mut reader).ok()
}

/// Calls `rustls_pemfile::pkcs8_private_keys` on the bytes of `pem`.
/// Trusted: the keys it returns are the named result above, which depends on
/// the bytes alone; an error becomes `None`.
#[verifier::external_body]
pub(crate) fn read_pem_pkcs8_keys(pem: &[u8]) -> (res: Option<Vec<Vec<u8>>>)
    ensures
        match res {
            Some(v) => pem_pkcs8_keys(pem@) == Some(byte_strings_view(v@)),
            None => pem_pkcs8_keys(pem@) is None,
        },
{
    let mut reader: &[u8] = pem;
    rustls_pemfile::pkcs8_private_keys(&mut reader).ok()
}

/// Why the QUIC server cannot take its certificate and key.
#[derive(Debug, Clone, Copy, PartialEq, Eq, Structural)]
pub enum IdentityError {
    /// The certificate file is not readable PEM: the server returns this error.
    InvalidCertificates,
    /// The key file is not readable PEM: the server returns this error.
    InvalidKeys,
    /// The key file holds no PKCS#8 key: the server does not start with it,
    /// and its task aborts.
    NoPrivateKey,
}

/// The certificate chain that the certificate file gives.
pub open spec fn certificates_of(cert_pem: Seq<u8>) -> Result<Seq<Seq<u8>>, IdentityError> {
    match pem_certificates(cert_pem) {
        None => Err(IdentityError::InvalidCertificates),
        Some(certs) => Ok(certs),
    }
}

/// The private key that the key file gives: its first PKCS#8 key.
pub open spec fn private_key_of(key_pem: Seq<u8>) -> Result<Seq<u8>, IdentityError> {
    match pem_pkcs8_keys(key_pem) {
        None => Err(IdentityError::InvalidKeys),
        Some(keys) => if keys.len() == 0 {
            Err(IdentityError::NoPrivateKey)
        } else {
            Ok(keys[0])
        },
    }
}

/// The certificates and key that the server presents, read from the
/// certificate file first and then from the key file.
pub open spec fn identity_of(cert_pem: Seq<u8>, key_pem: Seq<u8>) -> Result<(Seq<Seq<u8>>, Seq<u8>), IdentityError> {
    match certificates_of(cert_pem) {
        Err(e) => Err(e),
        Ok(certs) => match private_key_of(key_pem) {
            Err(e) => Err(e),
            Ok(key) => Ok((certs, key)),
        },
    }
}

/// Reads the certificate chain from the contents of the certificate file.
pub fn certificates_from_pem(cert_pem: &[u8]) -> (r: Result<Vec<Vec<u8>>, IdentityError>)
    ensures
        match r {
            Ok(certs) => certificates_of(cert_pem@) == Ok::<Seq<Seq<u8>>, IdentityError>(byte_strings_view(certs@)),
            Err(e) => certificates_of(cert_pem@) == Err::<Seq<Seq<u8>>, IdentityError>(e),
        },
{
    match read_pem_certificates(cert_pem) {
        None => Err(IdentityError::InvalidCertificates),
        Some(certs) => Ok(certs),
    }
}

/// Reads the private key, the first PKCS#8 key, from the contents of the key
/// file.
pub fn private_key_from_pem(key_pem: &[u8]) -> (r: Result<Vec<u8>, IdentityError>)
    ensures
        match r {
            Ok(key) => private_key_of(key_pem@) == Ok::<Seq<u8>, IdentityError>(key@),
            Err(e) => private_key_of(key_pem@) == Err::<Seq<u8>, IdentityError>(e),
        },
{
    match read_pem_pkcs8_keys(key_pem) {
        None => Err(IdentityError::InvalidKeys),
        Some(mut keys) => {
            if keys.len() == 0 {
                Err(IdentityError::NoPrivateKey)
            } else {
                let ghost all = keys@;
                let key = keys.remove(0);
                assert(key@ == byte_strings_view(all)[0]);
                Ok(key)
            }
        },
    }
}

/// The certificates and key that the QUIC server presents.
pub fn server_identity(cert_pem: &[u8], key_pem: &[u8]) -> (r: Result<(Vec<Vec<u8>>, Vec<u8>), IdentityError>)
    ensures
        match r {
            Ok((certs, key)) => identity_of(cert_pem@, key_pem@) == Ok::<(Seq<Seq<u8>>, Seq<u8>), IdentityError>(
                (byte_strings_view(certs@), key@),
            ),
            Err(e) => identity_of(cert_pem@, key_pem@) == Err::<(Seq<Seq<u8>>, Seq<u8>), IdentityError>(e),
        },
{
    let certs = match certificates_from_pem(cert_pem) {
        Ok(certs) => certs,
        Err(e) => return Err(e),
    };
    match private_key_from_pem(key_pem) {
        Ok(key) => Ok((certs, key)),
        Err(e) => Err(e),
    }
}

/// The chain is every certificate that the PEM reader finds in the
/// certificate file, in order, however many; the key is the first PKCS#8 key
/// of the key file; and the identity is that chain with that key, the
/// certificate file's error coming first.
pub proof fn identity_is_the_whole_chain_and_the_first_key(cert_pem: Seq<u8>, key_pem: Seq<u8>)
    ensures
        pem_certificates(cert_pem) matches Some(certs) ==> certificates_of(cert_pem) == Ok::<
            Seq<Seq<u8>>,
            IdentityError,
        >(certs),
        pem_certificates(cert_pem) is None ==> certificates_of(cert_pem) == Err::<Seq<Seq<u8>>, IdentityError>(
            IdentityError::InvalidCertificates,
        ),
        pem_pkcs8_keys(key_pem) matches Some(keys) ==> (keys.len() > 0 ==> private_key_of(key_pem) == Ok::<
            Seq<u8>,
            IdentityError,
        >(keys[0])) && (keys.len() == 0 ==> private_key_of(key_pem) == Err::<Seq<u8>, IdentityError>(
            IdentityError::NoPrivateKey,
        )),
        pem_pkcs8_keys(key_pem) is None ==> private_key_of(key_pem) == Err::<Seq<u8>, IdentityError>(
            IdentityError::InvalidKeys,
        ),
        (pem_certificates(cert_pem) matches Some(certs) && pem_pkcs8_keys(key_pem) matches Some(keys) && keys.len()
            > 0) ==> identity_of(cert_pem, key_pem) == Ok::<(Seq<Seq<u8>>, Seq<u8>), IdentityError>(
            (pem_certificates(cert_pem)->0, pem_pkcs8_keys(key_pem)->0[0]),
        ),
        pem_certificates(cert_pem) is None ==> identity_of(cert_pem, key_pem) == Err::<
            (Seq<Seq<u8>>, Seq<u8>),
            IdentityError,
        >(IdentityError::InvalidCertificates),
{
}

} // verus!
