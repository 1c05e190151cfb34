//! State transitions around the external threshold-signature authority.
//!
//! Every exchange with the authority is split in two: a `prepare_*` step
//! that validates input and assembles the outgoing request from the current
//! state, and a `complete_*` step that folds the authority's response back
//! in. The surrounding process performs the call itself and hands the
//! response back as a plain `Result`; each call is attempted exactly once
//! and never retried here.

use vstd::prelude::*;
use vstd::slice::slice_to_vec;
use crate::config::Config;
use crate::errors::SignerError;
use crate::keystore::lookup;
use crate::state::State;

verus! {

/// Reply carrying a derived public key.
#[derive(Debug)]
pub struct PublicKeyReply {
    pub public_key: Vec<u8>,
}

/// Reply carrying a signature.
#[derive(Debug)]
pub struct SignatureReply {
    pub signature: Vec<u8>,
}

/// One key-derivation request to the external authority: the signing-key
/// name from the configuration and the per-identity derivation path.
#[derive(Debug)]
pub struct DerivationRequest {
    pub key_name: String,
    pub derivation_path: Vec<u8>,
}

/// One signing request to the external authority, including the cycle
/// budget paid for the call.
#[derive(Debug)]
pub struct SignRequest {
    pub key_name: String,
    pub derivation_path: Vec<u8>,
    pub message_hash: Vec<u8>,
    pub cycles: u64,
}

/// First step of a key request: either the cached key, or the request to
/// send out.
#[derive(Debug)]
pub enum PublicKeyStep {
    Cached(PublicKeyReply),
    CallOut(DerivationRequest),
}

/// Read-only lookup of the caller's cached key; never calls out. An
/// identity never derived yields `NotFound`.
pub fn public_key_query(state: &State, caller: &Vec<u8>) -> (r: Result<
    PublicKeyReply,
    SignerError,
>)
    ensures
        match lookup(state.keys@, caller@) {
            Some(k) => r is Ok && r->Ok_0.public_key@ == k,
            None => r == Err::<PublicKeyReply, SignerError>(SignerError::NotFound),
        },
{
    match state.keys.get(caller) {
        Some(k) => Ok(PublicKeyReply { public_key: k }),
        None => Err(SignerError::NotFound),
    }
}

/// First step of a key request: a cached key is served as it is; only an
/// absent one leads to a derivation request, built from the caller's raw
/// bytes as derivation path and the configuration's key name.
pub fn prepare_public_key(state: &State, caller: &Vec<u8>) -> (r: PublicKeyStep)
    ensures
        match lookup(state.keys@, caller@) {
            Some(k) => r matches PublicKeyStep::Cached(reply) && reply.public_key@ == k,
            None => r matches PublicKeyStep::CallOut(req) && req.key_name@
                == state.config.key_name@ && req.derivation_path@ == caller@,
        },
{
    match state.keys.get(caller) {
        Some(k) => PublicKeyStep::Cached(PublicKeyReply { public_key: k }),
        None => PublicKeyStep::CallOut(
            DerivationRequest {
                key_name: state.config.key_name.clone(),
                derivation_path: slice_to_vec(caller.as_slice()),
            },
        ),
    }
}

/// Second step of a key request: fold the authority's response in.
///
/// Derivation policy (the store is shared across interleaved calls, so two
/// derivations for one identity can race): the first completed derivation
/// for an identity wins. A completion that finds a record already present
/// returns the stored key unchanged instead of overwriting it, so a cached
/// key can never change once stored. A failure from the authority is
/// surfaced with its cause and mutates nothing.
pub fn complete_public_key(
    state: &mut State,
    caller: &Vec<u8>,
    response: Result<Vec<u8>, String>,
) -> (r: Result<PublicKeyReply, SignerError>)
    requires
        old(state).wf(),
    ensures
        final(state).wf(),
        final(state).config == old(state).config,
        match response {
            Ok(k) => {
                &&& r is Ok
                &&& lookup(final(state).keys@, caller@) == Some(r->Ok_0.public_key@)
                &&& match lookup(old(state).keys@, caller@) {
                    Some(k0) => final(state).keys@ == old(state).keys@ && r->Ok_0.public_key@
                        == k0,
                    None => final(state).keys@ == old(state).keys@.push((caller@, k@))
                        && r->Ok_0.public_key@ == k@,
                }
                &&& forall|id2: Seq<u8>|
                    id2 != caller@ ==> lookup(final(state).keys@, id2) == lookup(
                        old(state).keys@,
                        id2,
                    )
            },
            Err(cause) => {
                &&& final(state).keys@ == old(state).keys@
                &&& r matches Err(SignerError::ExternalAuthorityFailure(c)) && c@ == cause@
            },
        },
{
    match response {
        Ok(k) => {
            match state.keys.get(caller) {
                Some(k0) => Ok(PublicKeyReply { public_key: k0 }),
                None => {
                    let reply_bytes = slice_to_vec(k.as_slice());
                    state.keys.put(slice_to_vec(caller.as_slice()), k);
                    Ok(PublicKeyReply { public_key: reply_bytes })
                },
            }
        },
        Err(cause) => Err(SignerError::ExternalAuthorityFailure(cause)),
    }
}

/// Validate the digest and assemble the signing request. A digest of any
/// length other than exactly 32 bytes yields `InvalidInput`, and no request
/// is produced, so no external call can follow. On a valid digest the
/// request carries the configuration's key name, the caller's raw bytes as
/// derivation path, the digest itself, and the configuration's cycle budget
/// as the cost paid for the call.
pub fn prepare_sign(config: &Config, caller: &Vec<u8>, message: &Vec<u8>) -> (r: Result<
    SignRequest,
    SignerError,
>)
    ensures
        r is Ok <==> message@.len() == 32,
        message@.len() != 32 ==> r == Err::<SignRequest, SignerError>(SignerError::InvalidInput),
        r matches Ok(req) ==> {
            &&& req.key_name@ == config.key_name@
            &&& req.derivation_path@ == caller@
            &&& req.message_hash@ == message@
            &&& req.cycles == config.sign_cycles
        },
{
    if message.len() != 32 {
        return Err(SignerError::InvalidInput);
    }
    Ok(
        SignRequest {
            key_name: config.key_name.clone(),
            derivation_path: slice_to_vec(caller.as_slice()),
            message_hash: slice_to_vec(message.as_slice()),
            cycles: config.sign_cycles,
        },
    )
}

/// Fold the authority's response to a signing request in: the outcome is
/// always either the signature or the authority's failure with its cause;
/// nothing is retried and no state is touched.
pub fn complete_sign(response: Result<Vec<u8>, String>) -> (r: Result<
    SignatureReply,
    SignerError,
>)
    ensures
        r is Ok || r matches Err(SignerError::ExternalAuthorityFailure(_)),
        match response {
            Ok(sig) => r is Ok && r->Ok_0.signature@ == sig@,
            Err(cause) => r matches Err(SignerError::ExternalAuthorityFailure(c)) && c@
                == cause@,
        },
{
    match response {
        Ok(sig) => Ok(SignatureReply { signature: sig }),
        Err(cause) => Err(SignerError::ExternalAuthorityFailure(cause)),
    }
}

} // verus!
