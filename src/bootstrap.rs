use vstd::prelude::*;
use crate::bytes::{copy_bytes, to_bytes};
use crate::crypto::{ed25519_accepts, ed25519_verify, x25519, x25519_of, KEY_LEN, SIGNATURE_LEN};
use crate::error::CoreError;
use crate::session::{SendView, Session};
use crate::chain::ChainView;
use crate::symmetric::kdf2;
use crate::ratchet::{RatchetSession, RatchetView};

verus! {

/// What a remote device publishes so that sessions can be set up while it is
/// offline.
pub struct PreKeyBundle {
    pub identity_public: Vec<u8>,
    pub signing_public: Vec<u8>,
    pub signed_prekey_public: Vec<u8>,
    pub signed_prekey_signature: Vec<u8>,
    pub one_time_prekey_public: Option<Vec<u8>>,
}

pub open spec fn opt_view(o: Option<Vec<u8>>) -> Option<Seq<u8>> {
    match o {
        Some(p) => Some(p@),
        None => None,
    }
}

pub open spec fn opt_slice_view(o: Option<&[u8]>) -> Option<Seq<u8>> {
    match o {
        Some(p) => Some(p@),
        None => None,
    }
}

/// The optional fourth exchange, with the one-time prekey.
pub open spec fn optional_dh(secret: Seq<u8>, point: Option<Seq<u8>>) -> Seq<u8> {
    match point {
        Some(p) => x25519_of(secret, p),
        None => Seq::empty(),
    }
}

/// The shared secret of a session setup: the exchanges identity/signed
/// prekey, base/identity, base/signed prekey and base/one-time prekey, one
/// after another, as the initiator computes them.
pub open spec fn initiator_secret(identity: Seq<u8>, base: Seq<u8>, ik: Seq<u8>, spk: Seq<u8>, opk: Option<Seq<u8>>) -> Seq<u8> {
    x25519_of(identity, spk) + x25519_of(base, ik) + x25519_of(base, spk) + optional_dh(base, opk)
}

/// The same secret as the responder computes it.
pub open spec fn responder_secret(identity: Seq<u8>, spk: Seq<u8>, opk: Option<Seq<u8>>, their_ik: Seq<u8>, their_base: Seq<u8>) -> Seq<u8> {
    x25519_of(spk, their_ik) + x25519_of(identity, their_base) + x25519_of(spk, their_base) + optional_dh_rev(opk, their_base)
}

pub open spec fn optional_dh_rev(secret: Option<Seq<u8>>, point: Seq<u8>) -> Seq<u8> {
    match secret {
        Some(s) => x25519_of(s, point),
        None => Seq::empty(),
    }
}

/// The salt of the derivation: 32 zero bytes.
pub open spec fn zero_salt() -> Seq<u8> {
    Seq::new(32, |i: int| 0u8)
}

fn zero_salt_bytes() -> (r: Vec<u8>)
    ensures
        r@ == zero_salt(),
{
    let mut v: Vec<u8> = Vec::new();
    let mut i: usize = 0;
    while i < 32
        invariant
            0 <= i <= 32,
            v@ == Seq::new(i as nat, |k: int| 0u8),
        decreases 32 - i,
    {
        v.push(0u8);
        i = i + 1;
        assert(v@ =~= Seq::new(i as nat, |k: int| 0u8));
    }
    v
}

fn append(out: &mut Vec<u8>, s: &Vec<u8>)
    ensures
        final(out)@ == old(out)@ + s@,
{
    let mut i: usize = 0;
    while i < s.len()
        invariant
            0 <= i <= s@.len(),
            out@ == old(out)@ + s@.subrange(0, i as int),
        decreases s@.len() - i,
    {
        out.push(s[i]);
        i = i + 1;
        assert(out@ =~= old(out)@ + s@.subrange(0, i as int));
    }
    assert(s@.subrange(0, s@.len() as int) =~= s@);
}

fn derive_chains(secret: &Vec<u8>) -> (r: (Vec<u8>, Vec<u8>))
    ensures
        r.0@ == kdf2(zero_salt(), secret@).0,
        r.1@ == kdf2(zero_salt(), secret@).1,
        r.0@.len() == KEY_LEN,
        r.1@.len() == KEY_LEN,
{
    let salt = zero_salt_bytes();
    crate::symmetric::kdf2_bytes(salt.as_slice(), secret.as_slice())
}

fn initiator_bytes(identity_secret: &[u8], base_secret: &[u8], bundle: &PreKeyBundle) -> (r: Vec<u8>)
    requires
        identity_secret@.len() == KEY_LEN,
        base_secret@.len() == KEY_LEN,
        bundle.identity_public@.len() == KEY_LEN,
        bundle.signed_prekey_public@.len() == KEY_LEN,
        bundle.one_time_prekey_public matches Some(p) ==> p@.len() == KEY_LEN,
    ensures
        r@ == initiator_secret(identity_secret@, base_secret@, bundle.identity_public@,
            bundle.signed_prekey_public@, opt_view(bundle.one_time_prekey_public)),
{
    let mut secret: Vec<u8> = Vec::new();
    append(&mut secret, &x25519(identity_secret, bundle.signed_prekey_public.as_slice()));
    append(&mut secret, &x25519(base_secret, bundle.identity_public.as_slice()));
    append(&mut secret, &x25519(base_secret, bundle.signed_prekey_public.as_slice()));
    match &bundle.one_time_prekey_public {
        Some(p) => {
            append(&mut secret, &x25519(base_secret, p.as_slice()));
        },
        None => {},
    }
    assert(secret@ =~= initiator_secret(identity_secret@, base_secret@, bundle.identity_public@,
        bundle.signed_prekey_public@, opt_view(bundle.one_time_prekey_public)));
    secret
}

fn responder_bytes(
    identity_secret: &[u8],
    signed_prekey_secret: &[u8],
    one_time_prekey_secret: Option<&[u8]>,
    their_identity: &[u8],
    their_base: &[u8],
) -> (r: Vec<u8>)
    requires
        identity_secret@.len() == KEY_LEN,
        signed_prekey_secret@.len() == KEY_LEN,
        one_time_prekey_secret matches Some(s) ==> s@.len() == KEY_LEN,
        their_identity@.len() == KEY_LEN,
        their_base@.len() == KEY_LEN,
    ensures
        r@ == responder_secret(identity_secret@, signed_prekey_secret@, opt_slice_view(one_time_prekey_secret),
            their_identity@, their_base@),
{
    let mut secret: Vec<u8> = Vec::new();
    append(&mut secret, &x25519(signed_prekey_secret, their_identity));
    append(&mut secret, &x25519(identity_secret, their_base));
    append(&mut secret, &x25519(signed_prekey_secret, their_base));
    match one_time_prekey_secret {
        Some(s) => {
            append(&mut secret, &x25519(s, their_base));
        },
        None => {},
    }
    assert(secret@ =~= responder_secret(identity_secret@, signed_prekey_secret@, opt_slice_view(one_time_prekey_secret),
        their_identity@, their_base@));
    secret
}

/// Sets up the initiator's session with the owner of `bundle`, from the
/// local identity secret and a fresh base secret. The bundle's signed prekey
/// must carry a valid signature by its signing key, else this fails with
/// `SignatureInvalid`. The initiator sends on the first derived chain and
/// receives on the second.
pub fn session_from_bundle(identity_secret: &[u8], base_secret: &[u8], bundle: &PreKeyBundle) -> (r: Result<Session, CoreError>)
    requires
        identity_secret@.len() == KEY_LEN,
        base_secret@.len() == KEY_LEN,
    ensures
        r is Ok == (bundle.identity_public@.len() == KEY_LEN && bundle.signing_public@.len() == KEY_LEN
            && bundle.signed_prekey_public@.len() == KEY_LEN
            && bundle.signed_prekey_signature@.len() == SIGNATURE_LEN
            && (bundle.one_time_prekey_public matches Some(p) ==> p@.len() == KEY_LEN)
            && ed25519_accepts(bundle.signing_public@, bundle.signed_prekey_public@, bundle.signed_prekey_signature@)),
        r matches Err(e) ==> e == CoreError::SignatureInvalid,
        r matches Ok(s) ==> {
            let opk = opt_view(bundle.one_time_prekey_public);
            let k = kdf2(zero_salt(), initiator_secret(identity_secret@, base_secret@, bundle.identity_public@,
                bundle.signed_prekey_public@, opk));
            &&& s.wf()
            &&& s@.send == (SendView { base: k.0, next: 0 })
            &&& s@.recv == (ChainView { base: k.1, next: 0, cached: Seq::empty() })
        },
{
    if bundle.identity_public.len() != KEY_LEN || bundle.signing_public.len() != KEY_LEN
        || bundle.signed_prekey_public.len() != KEY_LEN || bundle.signed_prekey_signature.len() != SIGNATURE_LEN {
        return Err(CoreError::SignatureInvalid);
    }
    match &bundle.one_time_prekey_public {
        Some(p) => {
            if p.len() != KEY_LEN {
                return Err(CoreError::SignatureInvalid);
            }
        },
        None => {},
    }
    if !ed25519_verify(bundle.signing_public.as_slice(), bundle.signed_prekey_public.as_slice(), bundle.signed_prekey_signature.as_slice()) {
        return Err(CoreError::SignatureInvalid);
    }
    let secret = initiator_bytes(identity_secret, base_secret, bundle);
    let (a, b) = derive_chains(&secret);
    Ok(Session::new(a, b))
}

/// Sets up the responder's side of a session that an initiator opened with
/// its identity and base public keys, from the local identity secret, the
/// signed prekey secret and the one-time prekey secret it used, if any. The
/// responder sends on the second derived chain and receives on the first.
pub fn session_from_initiation(
    identity_secret: &[u8],
    signed_prekey_secret: &[u8],
    one_time_prekey_secret: Option<&[u8]>,
    their_identity: &[u8],
    their_base: &[u8],
) -> (r: Session)
    requires
        identity_secret@.len() == KEY_LEN,
        signed_prekey_secret@.len() == KEY_LEN,
        one_time_prekey_secret matches Some(s) ==> s@.len() == KEY_LEN,
        their_identity@.len() == KEY_LEN,
        their_base@.len() == KEY_LEN,
    ensures
        ({
            let opk = opt_slice_view(one_time_prekey_secret);
            let k = kdf2(zero_salt(), responder_secret(identity_secret@, signed_prekey_secret@, opk, their_identity@, their_base@));
            &&& r.wf()
            &&& r@.send == (SendView { base: k.1, next: 0 })
            &&& r@.recv == (ChainView { base: k.0, next: 0, cached: Seq::empty() })
        }),
{
    let secret = responder_bytes(identity_secret, signed_prekey_secret, one_time_prekey_secret, their_identity, their_base);
    let (a, b) = derive_chains(&secret);
    Session::new(b, a)
}

/// Sets up the initiator's ratcheting session with the owner of `bundle`:
/// the shared secret of the setup becomes the root, and the bundle's signed
/// prekey the first remote ratchet key. Fails as `session_from_bundle` does.
pub fn ratchet_from_bundle(identity_secret: &[u8], base_secret: &[u8], ratchet_secret: Vec<u8>, bundle: &PreKeyBundle) -> (r: Result<RatchetSession, CoreError>)
    requires
        identity_secret@.len() == KEY_LEN,
        base_secret@.len() == KEY_LEN,
        ratchet_secret@.len() == KEY_LEN,
    ensures
        r is Ok == (bundle.identity_public@.len() == KEY_LEN && bundle.signing_public@.len() == KEY_LEN
            && bundle.signed_prekey_public@.len() == KEY_LEN
            && bundle.signed_prekey_signature@.len() == SIGNATURE_LEN
            && (bundle.one_time_prekey_public matches Some(p) ==> p@.len() == KEY_LEN)
            && ed25519_accepts(bundle.signing_public@, bundle.signed_prekey_public@, bundle.signed_prekey_signature@)),
        r matches Err(e) ==> e == CoreError::SignatureInvalid,
        r matches Ok(s) ==> {
            let shared = kdf2(zero_salt(), initiator_secret(identity_secret@, base_secret@, bundle.identity_public@,
                bundle.signed_prekey_public@, opt_view(bundle.one_time_prekey_public))).0;
            let k = kdf2(shared, x25519_of(ratchet_secret@, bundle.signed_prekey_public@));
            &&& s.wf()
            &&& s@ == (RatchetView {
                root: k.0,
                our_secret: ratchet_secret@,
                their_public: Some(bundle.signed_prekey_public@),
                send: Some(SendView { base: k.1, next: 0 }),
                recv: None,
                previous_length: 0,
                previous: None,
            })
        },
{
    if bundle.identity_public.len() != KEY_LEN || bundle.signing_public.len() != KEY_LEN
        || bundle.signed_prekey_public.len() != KEY_LEN || bundle.signed_prekey_signature.len() != SIGNATURE_LEN {
        return Err(CoreError::SignatureInvalid);
    }
    match &bundle.one_time_prekey_public {
        Some(p) => {
            if p.len() != KEY_LEN {
                return Err(CoreError::SignatureInvalid);
            }
        },
        None => {},
    }
    if !ed25519_verify(bundle.signing_public.as_slice(), bundle.signed_prekey_public.as_slice(), bundle.signed_prekey_signature.as_slice()) {
        return Err(CoreError::SignatureInvalid);
    }
    let secret = initiator_bytes(identity_secret, base_secret, bundle);
    let (shared, _unused) = derive_chains(&secret);
    let spk = copy_bytes(&bundle.signed_prekey_public);
    Ok(RatchetSession::initiate(shared, ratchet_secret, spk))
}

/// Sets up the responder's ratcheting session: the shared secret of the
/// setup becomes the root, and the signed prekey secret the first ratchet
/// secret.
pub fn ratchet_from_initiation(
    identity_secret: &[u8],
    signed_prekey_secret: &[u8],
    one_time_prekey_secret: Option<&[u8]>,
    their_identity: &[u8],
    their_base: &[u8],
) -> (r: RatchetSession)
    requires
        identity_secret@.len() == KEY_LEN,
        signed_prekey_secret@.len() == KEY_LEN,
        one_time_prekey_secret matches Some(s) ==> s@.len() == KEY_LEN,
        their_identity@.len() == KEY_LEN,
        their_base@.len() == KEY_LEN,
    ensures
        r.wf(),
        r@ == (RatchetView {
            root: kdf2(zero_salt(), responder_secret(identity_secret@, signed_prekey_secret@,
                opt_slice_view(one_time_prekey_secret), their_identity@, their_base@)).0,
            our_secret: signed_prekey_secret@,
            their_public: None,
            send: None,
            recv: None,
            previous_length: 0,
            previous: None,
        }),
{
    let secret = responder_bytes(identity_secret, signed_prekey_secret, one_time_prekey_secret, their_identity, their_base);
    let (shared, _unused) = derive_chains(&secret);
    RatchetSession::respond(shared, to_bytes(signed_prekey_secret))
}

} // verus!
