//! Choosing the TLS material for the inbound listener. The decision —
//! provided paths, existing self-signed files, or fresh generation —
//! is made here from what the filesystem reported; reading and writing
//! the files is the server's work.

use crate::config::InboundTlsConfig;
use crate::text::trim_seq;
use vstd::prelude::*;

verus! {

#[derive(Debug, Clone, PartialEq, Eq)]
pub struct TlsPaths {
    pub cert_path: String,
    pub key_path: String,
}

#[derive(Debug, Clone, Copy, PartialEq, Eq, Structural)]
pub enum TlsMaterialSource {
    Provided,
    ExistingSelfSigned,
    GeneratedSelfSigned,
}

/// Which certificate and key serve the listener: configured paths win;
/// else the self-signed pair is used when both files exist, generated
/// when neither does, and refused when only one exists.
pub fn plan_tls_material(
    tls: &InboundTlsConfig,
    self_signed_cert_exists: bool,
    self_signed_key_exists: bool,
) -> (r: Result<(TlsPaths, TlsMaterialSource), String>)
    ensures
        match (tls.cert_path, tls.key_path) {
            (Some(cert), Some(key)) => r matches Ok((paths, source)) && paths.cert_path@ == cert@
                && paths.key_path@ == key@ && source == TlsMaterialSource::Provided,
            _ => {
                if self_signed_cert_exists && self_signed_key_exists {
                    r matches Ok((paths, source)) && paths.cert_path@ == trim_seq(
                        tls.self_signed_cert_path@,
                    ) && paths.key_path@ == trim_seq(tls.self_signed_key_path@) && source
                        == TlsMaterialSource::ExistingSelfSigned
                } else if self_signed_cert_exists != self_signed_key_exists {
                    r is Err
                } else {
                    r matches Ok((paths, source)) && paths.cert_path@ == trim_seq(
                        tls.self_signed_cert_path@,
                    ) && paths.key_path@ == trim_seq(tls.self_signed_key_path@) && source
                        == TlsMaterialSource::GeneratedSelfSigned
                }
            },
        },
{
    if let (Some(cert_path), Some(key_path)) = (&tls.cert_path, &tls.key_path) {
        return Ok(
            (
                TlsPaths { cert_path: cert_path.clone(), key_path: key_path.clone() },
                TlsMaterialSource::Provided,
            ),
        );
    }
    let cert_path = crate::text::trim(tls.self_signed_cert_path.as_str());
    let key_path = crate::text::trim(tls.self_signed_key_path.as_str());
    if self_signed_cert_exists && self_signed_key_exists {
        return Ok((TlsPaths { cert_path, key_path }, TlsMaterialSource::ExistingSelfSigned));
    }
    if self_signed_cert_exists != self_signed_key_exists {
        return Err(
            String::from_str("self-signed certificate and key must both exist or both be absent"),
        );
    }
    Ok((TlsPaths { cert_path, key_path }, TlsMaterialSource::GeneratedSelfSigned))
}

} // verus!
