//! Snapshot/restore byte codec for the whole state.
//!
//! The durable form is a single versionless blob: one byte tagging the
//! environment, then the record count as eight little-endian bytes, then
//! each record as two length-prefixed byte runs (identity, then key). The
//! configuration's key name and cycle budget are not stored: a well-formed
//! configuration is exactly the table row of its environment tag, so the
//! tag determines them.
//!
//! `enc_*` and `dec_*` are the mathematical codec; `snapshot` and `restore`
//! are the executable functions proved against them, and
//! `lemma_state_round_trip` is the law that decoding an encoding gives the
//! state back.

use vstd::prelude::*;
use vstd::slice::{slice_subrange, slice_to_vec};
use crate::config::{Config, Environment};
use crate::errors::SignerError;
use crate::keystore::{distinct_identities, lemma_lookup_some_exists, KeyStore};
use crate::state::State;

verus! {

/// One more than the largest length a stored byte run may have: lengths
/// are serialized as eight bytes.
pub open spec fn len_bound() -> int {
    0x1_0000_0000_0000_0000
}

/// The byte that stands for `env` in the blob.
pub open spec fn env_tag(env: Environment) -> u8 {
    match env {
        Environment::Development => 0,
        Environment::Staging => 1,
        Environment::Production => 2,
    }
}

/// The environment a tag byte stands for, if any.
pub open spec fn tag_env(b: u8) -> Option<Environment> {
    if b == 0 {
        Some(Environment::Development)
    } else if b == 1 {
        Some(Environment::Staging)
    } else if b == 2 {
        Some(Environment::Production)
    } else {
        None
    }
}

/// Eight little-endian bytes of `x`.
pub open spec fn enc_u64(x: u64) -> Seq<u8> {
    seq![
        (x & 0xff) as u8,
        ((x >> 8) & 0xff) as u8,
        ((x >> 16) & 0xff) as u8,
        ((x >> 24) & 0xff) as u8,
        ((x >> 32) & 0xff) as u8,
        ((x >> 40) & 0xff) as u8,
        ((x >> 48) & 0xff) as u8,
        ((x >> 56) & 0xff) as u8,
    ]
}

/// The value of the first eight bytes of `s`, read little-endian.
#[verifier::opaque]
pub open spec fn dec_u64(s: Seq<u8>) -> u64
    recommends
        s.len() >= 8,
{
    (s[0] as u64) | ((s[1] as u64) << 8) | ((s[2] as u64) << 16) | ((s[3] as u64) << 24) | ((
    s[4] as u64) << 32) | ((s[5] as u64) << 40) | ((s[6] as u64) << 48) | ((s[7] as u64) << 56)
}

/// A length-prefixed byte run.
pub open spec fn enc_bytes(b: Seq<u8>) -> Seq<u8> {
    enc_u64(b.len() as u64) + b
}

/// One record: the identity's run, then the key's run.
pub open spec fn enc_record(r: (Seq<u8>, Seq<u8>)) -> Seq<u8> {
    enc_bytes(r.0) + enc_bytes(r.1)
}

/// All records, in store order.
pub open spec fn enc_records(rs: Seq<(Seq<u8>, Seq<u8>)>) -> Seq<u8>
    decreases rs.len(),
{
    if rs.len() == 0 {
        Seq::<u8>::empty()
    } else {
        enc_record(rs[0]) + enc_records(rs.drop_first())
    }
}

/// The whole blob: environment tag, record count, records.
pub open spec fn enc_state(env: Environment, rs: Seq<(Seq<u8>, Seq<u8>)>) -> Seq<u8> {
    seq![env_tag(env)] + enc_u64(rs.len() as u64) + enc_records(rs)
}

/// Read a count: the value and the remaining bytes.
pub open spec fn dec_u64_at(s: Seq<u8>) -> Option<(u64, Seq<u8>)> {
    if s.len() < 8 {
        None
    } else {
        Some((dec_u64(s), s.skip(8)))
    }
}

/// Read a length-prefixed byte run: the run and the remaining bytes.
pub open spec fn dec_bytes(s: Seq<u8>) -> Option<(Seq<u8>, Seq<u8>)> {
    match dec_u64_at(s) {
        None => None,
        Some((n, rest)) => if rest.len() < n as int {
            None
        } else {
            Some((rest.take(n as int), rest.skip(n as int)))
        },
    }
}

/// Read one record: identity run, then key run.
pub open spec fn dec_record(s: Seq<u8>) -> Option<((Seq<u8>, Seq<u8>), Seq<u8>)> {
    match dec_bytes(s) {
        None => None,
        Some((id, rest)) => match dec_bytes(rest) {
            None => None,
            Some((key, rest2)) => Some(((id, key), rest2)),
        },
    }
}

/// Read exactly `n` records.
pub open spec fn dec_records(s: Seq<u8>, n: nat) -> Option<(Seq<(Seq<u8>, Seq<u8>)>, Seq<u8>)>
    decreases n,
{
    if n == 0 {
        Some((Seq::<(Seq<u8>, Seq<u8>)>::empty(), s))
    } else {
        match dec_record(s) {
            None => None,
            Some((r, rest)) => match dec_records(rest, (n - 1) as nat) {
                None => None,
                Some((rs, rest2)) => Some((seq![r] + rs, rest2)),
            },
        }
    }
}

/// Read a whole blob; every byte must be consumed.
pub open spec fn dec_state(s: Seq<u8>) -> Option<(Environment, Seq<(Seq<u8>, Seq<u8>)>)> {
    if s.len() < 1 {
        None
    } else {
        match tag_env(s[0]) {
            None => None,
            Some(env) => match dec_u64_at(s.skip(1)) {
                None => None,
                Some((n, rest)) => match dec_records(rest, n as nat) {
                    None => None,
                    Some((rs, rest2)) => if rest2.len() == 0 {
                        Some((env, rs))
                    } else {
                        None
                    },
                },
            },
        }
    }
}

/// Every run in `rs` is short enough for its eight-byte length prefix.
pub open spec fn record_lens_ok(rs: Seq<(Seq<u8>, Seq<u8>)>) -> bool {
    forall|i: int|
        0 <= i < rs.len() ==> rs[i].0.len() < len_bound() && rs[i].1.len() < len_bound()
}

/// Little-endian recomposition inverts decomposition.
proof fn lemma_u64_round_trip(x: u64)
    ensures
        dec_u64(enc_u64(x)) == x,
{
    reveal(dec_u64);
    let s = enc_u64(x);
    assert(s[0] == (x & 0xff) as u8);
    assert(s[1] == ((x >> 8) & 0xff) as u8);
    assert(s[2] == ((x >> 16) & 0xff) as u8);
    assert(s[3] == ((x >> 24) & 0xff) as u8);
    assert(s[4] == ((x >> 32) & 0xff) as u8);
    assert(s[5] == ((x >> 40) & 0xff) as u8);
    assert(s[6] == ((x >> 48) & 0xff) as u8);
    assert(s[7] == ((x >> 56) & 0xff) as u8);
    assert((((x & 0xff) as u8) as u64) | ((((x >> 8) & 0xff) as u8) as u64) << 8 | ((((x >> 16)
        & 0xff) as u8) as u64) << 16 | ((((x >> 24) & 0xff) as u8) as u64) << 24 | ((((x >> 32)
        & 0xff) as u8) as u64) << 32 | ((((x >> 40) & 0xff) as u8) as u64) << 40 | ((((x >> 48)
        & 0xff) as u8) as u64) << 48 | ((((x >> 56) & 0xff) as u8) as u64) << 56 == x)
        by (bit_vector);
}

/// A count followed by anything decodes to that count.
proof fn lemma_dec_u64_at(x: u64, rest: Seq<u8>)
    ensures
        dec_u64_at(enc_u64(x) + rest) == Some((x, rest)),
{
    let s = enc_u64(x) + rest;
    assert(forall|k: int| 0 <= k < 8 ==> s[k] == enc_u64(x)[k]);
    lemma_u64_round_trip(x);
    assert(dec_u64(s) == dec_u64(enc_u64(x))) by {
        reveal(dec_u64);
    }
    assert(s.skip(8) =~= rest);
}

/// A length-prefixed run followed by anything decodes to that run.
proof fn lemma_dec_bytes(b: Seq<u8>, rest: Seq<u8>)
    requires
        b.len() < len_bound(),
    ensures
        dec_bytes(enc_bytes(b) + rest) == Some((b, rest)),
{
    let s = enc_bytes(b) + rest;
    assert(s =~= enc_u64(b.len() as u64) + (b + rest));
    lemma_dec_u64_at(b.len() as u64, b + rest);
    let n = b.len() as u64;
    assert(n as int == b.len());
    assert((b + rest).take(n as int) =~= b);
    assert((b + rest).skip(n as int) =~= rest);
}

/// One record followed by anything decodes to that record.
proof fn lemma_dec_record(r: (Seq<u8>, Seq<u8>), rest: Seq<u8>)
    requires
        r.0.len() < len_bound(),
        r.1.len() < len_bound(),
    ensures
        dec_record(enc_record(r) + rest) == Some((r, rest)),
{
    assert(enc_record(r) + rest =~= enc_bytes(r.0) + (enc_bytes(r.1) + rest));
    lemma_dec_bytes(r.0, enc_bytes(r.1) + rest);
    lemma_dec_bytes(r.1, rest);
}

/// A record sequence followed by anything decodes to that sequence.
#[verifier::rlimit(100)]
proof fn lemma_dec_records(rs: Seq<(Seq<u8>, Seq<u8>)>, rest: Seq<u8>)
    requires
        record_lens_ok(rs),
    ensures
        dec_records(enc_records(rs) + rest, rs.len()) == Some((rs, rest)),
    decreases rs.len(),
{
    let s = enc_records(rs) + rest;
    if rs.len() == 0 {
        assert(s =~= rest);
        assert(rs =~= Seq::<(Seq<u8>, Seq<u8>)>::empty());
        assert(dec_records(s, 0) == Some((Seq::<(Seq<u8>, Seq<u8>)>::empty(), s)));
    } else {
        let tail = rs.drop_first();
        assert(s =~= enc_record(rs[0]) + (enc_records(tail) + rest));
        lemma_dec_record(rs[0], enc_records(tail) + rest);
        assert(dec_record(s) == Some((rs[0], enc_records(tail) + rest)));
        assert(forall|i: int| 0 <= i < tail.len() ==> tail[i] == rs[i + 1]);
        assert(record_lens_ok(tail));
        lemma_dec_records(tail, rest);
        assert(dec_records(enc_records(tail) + rest, tail.len()) == Some((tail, rest)));
        assert(dec_records(s, rs.len()) == Some((seq![rs[0]] + tail, rest)));
        assert(seq![rs[0]] + tail =~= rs);
    }
}

/// The round-trip law: decoding an encoded state gives the state back,
/// field for field.
pub proof fn lemma_state_round_trip(env: Environment, rs: Seq<(Seq<u8>, Seq<u8>)>)
    requires
        rs.len() < len_bound(),
        record_lens_ok(rs),
    ensures
        dec_state(enc_state(env, rs)) == Some((env, rs)),
{
    let s = enc_state(env, rs);
    assert(s[0] == env_tag(env));
    assert(tag_env(env_tag(env)) == Some(env));
    assert(s.skip(1) =~= enc_u64(rs.len() as u64) + enc_records(rs));
    lemma_dec_u64_at(rs.len() as u64, enc_records(rs));
    assert((rs.len() as u64) as nat == rs.len());
    assert(enc_records(rs) + Seq::<u8>::empty() =~= enc_records(rs));
    lemma_dec_records(rs, Seq::<u8>::empty());
}

/// Encoding one more record extends the encoding.
proof fn lemma_enc_records_push(rs: Seq<(Seq<u8>, Seq<u8>)>, r: (Seq<u8>, Seq<u8>))
    ensures
        enc_records(rs.push(r)) == enc_records(rs) + enc_record(r),
    decreases rs.len(),
{
    let t = rs.push(r);
    assert(enc_records(Seq::<(Seq<u8>, Seq<u8>)>::empty()) == Seq::<u8>::empty());
    if rs.len() == 0 {
        assert(t[0] == r);
        assert(t.drop_first() =~= Seq::<(Seq<u8>, Seq<u8>)>::empty());
        assert(enc_records(t) == enc_record(r) + enc_records(t.drop_first()));
        assert(enc_records(t) =~= enc_records(rs) + enc_record(r));
    } else {
        assert(t[0] == rs[0]);
        assert(t.drop_first() =~= rs.drop_first().push(r));
        lemma_enc_records_push(rs.drop_first(), r);
        assert(enc_records(t) =~= enc_records(rs) + enc_record(r));
    }
}

/// Append the eight little-endian bytes of `x`.
fn push_u64(out: &mut Vec<u8>, x: u64)
    ensures
        final(out)@ == old(out)@ + enc_u64(x),
{
    proof {
        assert(x & 0xff < 256 && (x >> 8) & 0xff < 256 && (x >> 16) & 0xff < 256 && (x >> 24)
            & 0xff < 256 && (x >> 32) & 0xff < 256 && (x >> 40) & 0xff < 256 && (x >> 48) & 0xff
            < 256 && (x >> 56) & 0xff < 256) by (bit_vector);
    }
    out.push((x & 0xff) as u8);
    out.push(((x >> 8) & 0xff) as u8);
    out.push(((x >> 16) & 0xff) as u8);
    out.push(((x >> 24) & 0xff) as u8);
    out.push(((x >> 32) & 0xff) as u8);
    out.push(((x >> 40) & 0xff) as u8);
    out.push(((x >> 48) & 0xff) as u8);
    out.push(((x >> 56) & 0xff) as u8);
    proof {
        assert(out@ =~= old(out)@ + enc_u64(x));
    }
}

/// Append a copy of `b`.
fn push_bytes(out: &mut Vec<u8>, b: &Vec<u8>)
    ensures
        final(out)@ == old(out)@ + b@,
{
    let n = b.len();
    let mut i: usize = 0;
    proof {
        assert(out@ =~= old(out)@ + b@.take(0));
    }
    while i < n
        invariant
            0 <= i <= n,
            n == b@.len(),
            out@ == old(out)@ + b@.take(i as int),
        decreases n - i,
    {
        out.push(b[i]);
        proof {
            assert(out@ =~= old(out)@ + b@.take(i + 1));
        }
        i += 1;
    }
    proof {
        assert(b@.take(n as int) =~= b@);
    }
}

/// Serialize the full state into one blob at a suspend boundary.
pub fn snapshot(state: &State) -> (blob: Vec<u8>)
    ensures
        blob@ == enc_state(state.config.env, state.keys@),
        dec_state(blob@) == Some((state.config.env, state.keys@)),
{
    let mut blob: Vec<u8> = Vec::new();
    let tag: u8 = match state.config.env {
        Environment::Development => 0,
        Environment::Staging => 1,
        Environment::Production => 2,
    };
    blob.push(tag);
    let n = state.keys.len();
    push_u64(&mut blob, n as u64);
    proof {
        assert(blob@ =~= seq![env_tag(state.config.env)] + enc_u64(n as u64) + enc_records(
            state.keys@.take(0),
        ));
    }
    let mut i: usize = 0;
    while i < n
        invariant
            0 <= i <= n,
            n == state.keys@.len(),
            blob@ == seq![env_tag(state.config.env)] + enc_u64(n as u64) + enc_records(
                state.keys@.take(i as int),
            ),
            record_lens_ok(state.keys@.take(i as int)),
        decreases n - i,
    {
        let (id, key) = state.keys.record_at(i);
        let id_len = id.len();
        let key_len = key.len();
        push_u64(&mut blob, id_len as u64);
        push_bytes(&mut blob, id);
        push_u64(&mut blob, key_len as u64);
        push_bytes(&mut blob, key);
        proof {
            let rs = state.keys@;
            let r = rs[i as int];
            assert(r.0.len() < len_bound() && r.1.len() < len_bound());
            lemma_enc_records_push(rs.take(i as int), r);
            assert(rs.take(i + 1) =~= rs.take(i as int).push(r));
            assert(enc_record(r) =~= enc_u64(id_len as u64) + id@ + (enc_u64(key_len as u64)
                + key@));
            assert(blob@ =~= seq![env_tag(state.config.env)] + enc_u64(n as u64) + enc_records(
                rs.take(i + 1),
            ));
            assert(record_lens_ok(rs.take(i + 1)));
        }
        i += 1;
    }
    proof {
        assert(state.keys@.take(n as int) =~= state.keys@);
        assert(state.keys@.len() < len_bound());
        lemma_state_round_trip(state.config.env, state.keys@);
    }
    blob
}

/// Read a count at `pos`.
fn read_u64(blob: &Vec<u8>, pos: usize) -> (r: Option<(u64, usize)>)
    requires
        pos <= blob@.len(),
    ensures
        match r {
            Some(v) => {
                &&& dec_u64_at(blob@.skip(pos as int)) == Some((v.0, blob@.skip(v.1 as int)))
                &&& pos <= v.1 <= blob@.len()
            },
            None => dec_u64_at(blob@.skip(pos as int)) is None,
        },
{
    let s_len = blob.len() - pos;
    if s_len < 8 {
        return None;
    }
    let b0 = blob[pos] as u64;
    let b1 = blob[pos + 1] as u64;
    let b2 = blob[pos + 2] as u64;
    let b3 = blob[pos + 3] as u64;
    let b4 = blob[pos + 4] as u64;
    let b5 = blob[pos + 5] as u64;
    let b6 = blob[pos + 6] as u64;
    let b7 = blob[pos + 7] as u64;
    let x = b0 | b1 << 8 | b2 << 16 | b3 << 24 | b4 << 32 | b5 << 40 | b6 << 48 | b7 << 56;
    proof {
        let s = blob@.skip(pos as int);
        assert(forall|k: int| 0 <= k < s.len() ==> s[k] == blob@[pos + k]);
        assert(dec_u64(s) == x) by {
            reveal(dec_u64);
        }
        assert(s.skip(8) =~= blob@.skip(pos + 8));
    }
    Some((x, pos + 8))
}

/// Read a length-prefixed byte run at `pos`.
fn read_bytes(blob: &Vec<u8>, pos: usize) -> (r: Option<(Vec<u8>, usize)>)
    requires
        pos <= blob@.len(),
    ensures
        match r {
            Some(v) => {
                &&& dec_bytes(blob@.skip(pos as int)) == Some((v.0@, blob@.skip(v.1 as int)))
                &&& pos <= v.1 <= blob@.len()
            },
            None => dec_bytes(blob@.skip(pos as int)) is None,
        },
{
    match read_u64(blob, pos) {
        None => None,
        Some((n, pos2)) => {
            let avail = blob.len() - pos2;
            if n > avail as u64 {
                proof {
                    assert(blob@.skip(pos2 as int).len() < n as int);
                }
                None
            } else {
                let nn = n as usize;
                let end = pos2 + nn;
                let piece = slice_to_vec(slice_subrange(blob.as_slice(), pos2, end));
                proof {
                    let rest = blob@.skip(pos2 as int);
                    assert(rest.take(n as int) =~= blob@.subrange(pos2 as int, end as int));
                    assert(rest.skip(n as int) =~= blob@.skip(end as int));
                }
                Some((piece, end))
            }
        },
    }
}

/// Read one record at `pos`.
fn read_record(blob: &Vec<u8>, pos: usize) -> (r: Option<((Vec<u8>, Vec<u8>), usize)>)
    requires
        pos <= blob@.len(),
    ensures
        match r {
            Some(v) => {
                &&& dec_record(blob@.skip(pos as int)) == Some((((v.0).0@, (v.0).1@), blob@.skip(
                    v.1 as int,
                )))
                &&& pos <= v.1 <= blob@.len()
            },
            None => dec_record(blob@.skip(pos as int)) is None,
        },
{
    match read_bytes(blob, pos) {
        None => None,
        Some((id, pos2)) => match read_bytes(blob, pos2) {
            None => None,
            Some((key, pos3)) => Some(((id, key), pos3)),
        },
    }
}

/// Already-read records put in front of a partial decode.
pub open spec fn prepend_decoded(
    a: Seq<(Seq<u8>, Seq<u8>)>,
    r: Option<(Seq<(Seq<u8>, Seq<u8>)>, Seq<u8>)>,
) -> Option<(Seq<(Seq<u8>, Seq<u8>)>, Seq<u8>)> {
    match r {
        Some(p) => Some((a + p.0, p.1)),
        None => None,
    }
}

/// Deserialize a blob at a resume boundary, all or nothing.
///
/// Any blob the codec cannot read whole — or one whose records name an
/// identity twice, which no snapshot of a well-formed state produces —
/// yields `PersistenceFailure` and leaves nothing half-built: the caller
/// keeps its old state.
pub fn restore(blob: &Vec<u8>) -> (r: Result<State, SignerError>)
    ensures
        match dec_state(blob@) {
            Some(d) => if distinct_identities(d.1) {
                &&& r is Ok
                &&& r->Ok_0.wf()
                &&& r->Ok_0.config.env == d.0
                &&& r->Ok_0.keys@ == d.1
            } else {
                r == Err::<State, SignerError>(SignerError::PersistenceFailure)
            },
            None => r == Err::<State, SignerError>(SignerError::PersistenceFailure),
        },
{
    if blob.len() < 1 {
        return Err(SignerError::PersistenceFailure);
    }
    let tag = blob[0];
    let env: Environment = if tag == 0 {
        Environment::Development
    } else if tag == 1 {
        Environment::Staging
    } else if tag == 2 {
        Environment::Production
    } else {
        return Err(SignerError::PersistenceFailure);
    };
    proof {
        assert(blob@[0] == tag);
        assert(tag_env(tag) == Some(env));
    }
    match read_u64(blob, 1) {
        None => Err(SignerError::PersistenceFailure),
        Some((n, header_end)) => {
            let ghost s0 = blob@.skip(header_end as int);
            let mut keys = KeyStore::new();
            let mut pos = header_end;
            let mut i: u64 = 0;
            proof {
                assert(prepend_decoded(keys@, dec_records(s0, n as nat)) == dec_records(
                    s0,
                    n as nat,
                )) by {
                    if dec_records(s0, n as nat) is Some {
                        let p = dec_records(s0, n as nat)->0;
                        assert(keys@ + p.0 =~= p.0);
                    }
                }
            }
            while i < n
                invariant
                    0 <= i <= n,
                    pos <= blob@.len(),
                    keys.wf(),
                    s0 == blob@.skip(header_end as int),
                    dec_u64_at(blob@.skip(1)) == Some((n, s0)),
                    tag_env(blob@[0]) == Some(env),
                    blob@.len() >= 1,
                    dec_records(s0, n as nat) == prepend_decoded(
                        keys@,
                        dec_records(blob@.skip(pos as int), (n - i) as nat),
                    ),
                decreases n - i,
            {
                match read_record(blob, pos) {
                    None => {
                        proof {
                            assert(dec_records(blob@.skip(pos as int), (n - i) as nat) is None);
                            assert(dec_records(s0, n as nat) is None);
                            assert(dec_state(blob@) is None);
                        }
                        return Err(SignerError::PersistenceFailure);
                    },
                    Some(((id, key), pos2)) => {
                        let ghost rec = (id@, key@);
                        let ghost before = dec_records(blob@.skip(pos as int), (n - i) as nat);
                        let ghost after = dec_records(blob@.skip(pos2 as int), (n - i - 1) as nat);
                        proof {
                            assert(before == prepend_decoded(seq![rec], after));
                        }
                        match keys.get(&id) {
                            Some(_) => {
                                proof {
                                    lemma_lookup_some_exists(keys@, id@);
                                    if dec_state(blob@) is Some {
                                        let d = dec_state(blob@)->0;
                                        let full = dec_records(s0, n as nat)->0;
                                        assert(d.1 == full.0);
                                        let j = choose|j: int|
                                            0 <= j < keys@.len() && keys@[j].0 == id@
                                                && crate::keystore::lookup(keys@, id@) == Some(
                                                keys@[j].1,
                                            );
                                        assert(after is Some);
                                        let tail = (after->0).0;
                                        assert(full.0 =~= keys@ + (seq![rec] + tail));
                                        assert(full.0[j].0 == id@);
                                        assert(full.0[keys@.len() as int].0 == id@);
                                        assert(!distinct_identities(d.1));
                                    }
                                }
                                return Err(SignerError::PersistenceFailure);
                            },
                            None => {
                                let ghost keys_prev = keys@;
                                keys.put(id, key);
                                proof {
                                    assert(keys@ == keys_prev.push(rec));
                                    assert(prepend_decoded(keys_prev, before) == prepend_decoded(
                                        keys@,
                                        after,
                                    )) by {
                                        if after is Some {
                                            let p = after->0;
                                            assert(keys_prev + (seq![rec] + p.0) =~= keys_prev.push(
                                                rec,
                                            ) + p.0);
                                        }
                                    }
                                }
                                pos = pos2;
                                i = i + 1;
                            },
                        }
                    },
                }
            }
            proof {
                assert(dec_records(blob@.skip(pos as int), 0) == Some((
                    Seq::<(Seq<u8>, Seq<u8>)>::empty(),
                    blob@.skip(pos as int),
                )));
                assert(keys@ + Seq::<(Seq<u8>, Seq<u8>)>::empty() =~= keys@);
                assert(dec_records(s0, n as nat) == Some((keys@, blob@.skip(pos as int))));
            }
            if pos != blob.len() {
                proof {
                    assert(blob@.skip(pos as int).len() != 0);
                    assert(dec_state(blob@) is None);
                }
                return Err(SignerError::PersistenceFailure);
            }
            proof {
                assert(blob@.skip(pos as int).len() == 0);
                assert(dec_state(blob@) == Some((env, keys@)));
            }
            Ok(State { keys, config: Config::resolve(env) })
        },
    }
}

} // verus!
