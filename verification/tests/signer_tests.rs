use signer::config::{Config, Environment};
use signer::errors::SignerError;
use signer::gateway::{
    complete_public_key, complete_sign, prepare_public_key, prepare_sign, public_key_query,
    PublicKeyStep,
};
use signer::keystore::KeyStore;
use signer::persist::{restore, snapshot};
use signer::state::State;

fn identity_a() -> Vec<u8> {
    vec![0x01, 0x02, 0x03, 0x04]
}

fn identity_b() -> Vec<u8> {
    vec![0xaa, 0xbb]
}

fn digest32() -> Vec<u8> {
    (0u8..32u8).collect()
}

#[test]
fn resolve_development_row() {
    let c = Config::resolve(Environment::Development);
    assert_eq!(c.env, Environment::Development);
    assert_eq!(c.key_name, "dfx_test_key");
    assert_eq!(c.sign_cycles, 0);
}

#[test]
fn resolve_staging_row() {
    let c = Config::resolve(Environment::Staging);
    assert_eq!(c.env, Environment::Staging);
    assert_eq!(c.key_name, "test_key_1");
    assert_eq!(c.sign_cycles, 10_000_000_000);
}

#[test]
fn resolve_production_row() {
    let c = Config::resolve(Environment::Production);
    assert_eq!(c.env, Environment::Production);
    assert_eq!(c.key_name, "key_1");
    assert_eq!(c.sign_cycles, 26_153_846_153);
}

#[test]
fn default_environment_is_development() {
    assert_eq!(Environment::default(), Environment::Development);
    let c = Config::default();
    assert_eq!(c.env, Environment::Development);
    assert_eq!(c.key_name, "dfx_test_key");
    assert_eq!(c.sign_cycles, 0);
}

#[test]
fn init_without_environment_keeps_development() {
    let mut state = State::new();
    state.init(None);
    assert_eq!(state.config.env, Environment::Development);
    assert_eq!(state.config.key_name, "dfx_test_key");
}

#[test]
fn init_with_environment_switches_config() {
    let mut state = State::new();
    state.init(Some(Environment::Production));
    assert_eq!(state.config.env, Environment::Production);
    assert_eq!(state.config.key_name, "key_1");
    assert_eq!(state.config.sign_cycles, 26_153_846_153);
}

#[test]
fn query_unseen_identity_is_not_found() {
    let mut state = State::new();
    state.init(None);
    let r = public_key_query(&state, &identity_a());
    assert_eq!(r.unwrap_err(), SignerError::NotFound);
}

#[test]
fn keystore_get_absent_and_put_overwrite() {
    let mut ks = KeyStore::new();
    assert!(ks.get(&identity_a()).is_none());
    ks.put(identity_a(), vec![1, 1]);
    assert_eq!(ks.get(&identity_a()).unwrap(), vec![1, 1]);
    ks.put(identity_a(), vec![2, 2]);
    assert_eq!(ks.get(&identity_a()).unwrap(), vec![2, 2]);
    assert_eq!(ks.len(), 1);
    assert!(ks.get(&identity_b()).is_none());
}

#[test]
fn derived_key_is_served_from_cache_afterwards() {
    let mut state = State::new();
    state.init(None);
    let step = prepare_public_key(&state, &identity_a());
    let request = match step {
        PublicKeyStep::CallOut(req) => req,
        PublicKeyStep::Cached(_) => panic!("no key was derived yet"),
    };
    assert_eq!(request.key_name, "dfx_test_key");
    assert_eq!(request.derivation_path, identity_a());

    let derived = vec![9, 9, 9];
    let reply = complete_public_key(&mut state, &identity_a(), Ok(derived.clone())).unwrap();
    assert_eq!(reply.public_key, derived);

    let cached = public_key_query(&state, &identity_a()).unwrap();
    assert_eq!(cached.public_key, derived);

    match prepare_public_key(&state, &identity_a()) {
        PublicKeyStep::Cached(r) => assert_eq!(r.public_key, derived),
        PublicKeyStep::CallOut(_) => panic!("a cached key must not be re-derived"),
    }
}

#[test]
fn failed_derivation_mutates_nothing() {
    let mut state = State::new();
    state.init(None);
    let r = complete_public_key(&mut state, &identity_a(), Err("rejected".to_string()));
    assert_eq!(
        r.unwrap_err(),
        SignerError::ExternalAuthorityFailure("rejected".to_string())
    );
    let q = public_key_query(&state, &identity_a());
    assert_eq!(q.unwrap_err(), SignerError::NotFound);
}

#[test]
fn first_completed_derivation_wins() {
    let mut state = State::new();
    state.init(None);
    let first = complete_public_key(&mut state, &identity_a(), Ok(vec![1])).unwrap();
    assert_eq!(first.public_key, vec![1]);
    let second = complete_public_key(&mut state, &identity_a(), Ok(vec![2])).unwrap();
    assert_eq!(second.public_key, vec![1]);
    let q = public_key_query(&state, &identity_a()).unwrap();
    assert_eq!(q.public_key, vec![1]);
}

#[test]
fn sign_request_carries_cost_and_derivation_path() {
    let mut state = State::new();
    state.init(Some(Environment::Staging));
    let req = prepare_sign(&state.config, &identity_a(), &digest32()).unwrap();
    assert_eq!(req.cycles, 10_000_000_000);
    assert_eq!(req.key_name, "test_key_1");
    assert_eq!(req.derivation_path, identity_a());
    assert_eq!(req.message_hash, digest32());

    let signature = vec![7u8; 64];
    let reply = complete_sign(Ok(signature.clone())).unwrap();
    assert_eq!(reply.signature, signature);
}

#[test]
fn sign_rejects_wrong_digest_lengths() {
    let state = State::new();
    for len in [0usize, 31, 33] {
        let digest = vec![0u8; len];
        let r = prepare_sign(&state.config, &identity_a(), &digest);
        assert_eq!(r.unwrap_err(), SignerError::InvalidInput);
    }
}

#[test]
fn sign_failure_carries_cause() {
    let r = complete_sign(Err("no consensus".to_string()));
    assert_eq!(
        r.unwrap_err(),
        SignerError::ExternalAuthorityFailure("no consensus".to_string())
    );
}

#[test]
fn snapshot_restore_round_trip_two_records() {
    let mut state = State::new();
    state.init(Some(Environment::Staging));
    complete_public_key(&mut state, &identity_a(), Ok(vec![1, 2, 3])).unwrap();
    complete_public_key(&mut state, &identity_b(), Ok(vec![4, 5])).unwrap();

    let blob = snapshot(&state);
    let restored = restore(&blob).unwrap();

    assert_eq!(restored.config.env, Environment::Staging);
    assert_eq!(restored.config.key_name, "test_key_1");
    assert_eq!(restored.config.sign_cycles, 10_000_000_000);
    let a = public_key_query(&restored, &identity_a()).unwrap();
    assert_eq!(a.public_key, vec![1, 2, 3]);
    let b = public_key_query(&restored, &identity_b()).unwrap();
    assert_eq!(b.public_key, vec![4, 5]);
    assert_eq!(restored.keys.len(), 2);
}

#[test]
fn snapshot_restore_round_trip_empty_state() {
    let state = State::new();
    let blob = snapshot(&state);
    let restored = restore(&blob).unwrap();
    assert_eq!(restored.config.env, Environment::Development);
    assert_eq!(restored.keys.len(), 0);
    let q = public_key_query(&restored, &identity_a());
    assert_eq!(q.unwrap_err(), SignerError::NotFound);
}

#[test]
fn snapshot_restore_keeps_production_config() {
    let mut state = State::new();
    state.init(Some(Environment::Production));
    let blob = snapshot(&state);
    let restored = restore(&blob).unwrap();
    assert_eq!(restored.config.env, Environment::Production);
    assert_eq!(restored.config.key_name, "key_1");
    assert_eq!(restored.config.sign_cycles, 26_153_846_153);
}

fn count_bytes(n: u64) -> Vec<u8> {
    n.to_le_bytes().to_vec()
}

fn run(bytes: &[u8]) -> Vec<u8> {
    let mut out = count_bytes(bytes.len() as u64);
    out.extend_from_slice(bytes);
    out
}

#[test]
fn restore_rejects_empty_blob() {
    let blob: Vec<u8> = Vec::new();
    assert_eq!(restore(&blob).unwrap_err(), SignerError::PersistenceFailure);
}

#[test]
fn restore_rejects_unknown_environment_tag() {
    let mut blob = vec![9u8];
    blob.extend_from_slice(&count_bytes(0));
    assert_eq!(restore(&blob).unwrap_err(), SignerError::PersistenceFailure);
}

#[test]
fn restore_rejects_truncated_blob() {
    let state = State::new();
    let mut blob = snapshot(&state);
    blob.pop();
    assert_eq!(restore(&blob).unwrap_err(), SignerError::PersistenceFailure);
}

#[test]
fn restore_rejects_trailing_bytes() {
    let state = State::new();
    let mut blob = snapshot(&state);
    blob.push(0);
    assert_eq!(restore(&blob).unwrap_err(), SignerError::PersistenceFailure);
}

#[test]
fn restore_rejects_duplicate_identities() {
    let mut blob = vec![0u8];
    blob.extend_from_slice(&count_bytes(2));
    for key in [[1u8, 1], [2u8, 2]] {
        blob.extend_from_slice(&run(&identity_a()));
        blob.extend_from_slice(&run(&key));
    }
    assert_eq!(restore(&blob).unwrap_err(), SignerError::PersistenceFailure);
}

#[test]
fn restore_rejects_record_count_beyond_blob() {
    let mut blob = vec![0u8];
    blob.extend_from_slice(&count_bytes(3));
    blob.extend_from_slice(&run(&identity_a()));
    blob.extend_from_slice(&run(&[5u8]));
    assert_eq!(restore(&blob).unwrap_err(), SignerError::PersistenceFailure);
}

#[test]
fn snapshot_layout_is_the_documented_one() {
    let mut state = State::new();
    state.init(Some(Environment::Staging));
    complete_public_key(&mut state, &identity_b(), Ok(vec![7])).unwrap();
    let blob = snapshot(&state);

    let mut expected = vec![1u8];
    expected.extend_from_slice(&count_bytes(1));
    expected.extend_from_slice(&run(&identity_b()));
    expected.extend_from_slice(&run(&[7u8]));
    assert_eq!(blob, expected);
}
