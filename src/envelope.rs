//! Relay envelopes: identity keys, NIP-04 encryption, base64 and hex framing.
use vstd::prelude::*;

verus! {

/// The standard, padded base64 text of some bytes.
pub uninterp spec fn base64_text(b: Seq<u8>) -> Seq<char>;

/// The bytes that a standard, padded base64 text stands for; `None` where it is not valid.
pub uninterp spec fn base64_bytes(s: Seq<char>) -> Option<Seq<u8>>;

/// The text that NIP-04 decryption of `content` yields under the shared secret of the
/// secret key `sk` and the x-only public key `pk`; `None` where decryption fails.
pub uninterp spec fn nip04_plaintext(sk: Seq<u8>, pk: Seq<u8>, content: Seq<char>) -> Option<
    Seq<char>,
>;

/// The x-only public key of a secret key.
pub uninterp spec fn xonly_public_key(sk: Seq<u8>) -> Seq<u8>;

/// The order of the secp256k1 group.
pub open spec fn curve_order() -> int {
    0xFFFFFFFFFFFFFFFFFFFFFFFFFFFFFFFEint * 0x10000000000000000int * 0x10000000000000000int
        + 0xBAAEDCE6AF48A03BBFD25E8CD0364141int
}

/// The unsigned big-endian integer that some bytes denote.
pub open spec fn be_int(b: Seq<u8>) -> int
    decreases b.len(),
{
    if b.len() == 0 {
        0
    } else {
        be_int(b.drop_last()) * 256 + b.last() as int
    }
}

/// A secret key: 32 bytes denoting a nonzero scalar below the group order.
pub open spec fn is_valid_secret(sk: Seq<u8>) -> bool {
    sk.len() == 32 && 0 < be_int(sk) < curve_order()
}

/// A lowercase hexadecimal digit.
pub open spec fn hex_digit(n: u8) -> char {
    if n < 10 {
        seq!['0', '1', '2', '3', '4', '5', '6', '7', '8', '9'][n as int]
    } else {
        seq!['a', 'b', 'c', 'd', 'e', 'f'][n - 10]
    }
}

/// Two lowercase hexadecimal digits per byte, most significant first.
pub open spec fn hex_of(b: Seq<u8>) -> Seq<char>
    decreases b.len(),
{
    if b.len() == 0 {
        Seq::empty()
    } else {
        hex_of(b.drop_last()) + seq![hex_digit(b.last() / 16), hex_digit(b.last() % 16)]
    }
}

/// A character of the standard base64 alphabet (padding excluded).
pub open spec fn is_base64_char(c: char) -> bool {
    ('A' <= c && c <= 'Z') || ('a' <= c && c <= 'z') || ('0' <= c && c <= '9') || c == '+' || c
        == '/'
}

/// The base64 text of a 16-byte IV: 22 alphabet characters, then `==`. Whatever decoder
/// reads such a text either refuses it or yields exactly 16 bytes.
pub open spec fn is_iv_text(t: Seq<char>) -> bool {
    &&& t.len() == 24
    &&& forall|i: int| 0 <= i < 22 ==> is_base64_char(#[trigger] t[i])
    &&& t[22] == '=' && t[23] == '='
}

/// The separator between ciphertext and IV in a NIP-04 content.
pub open spec fn iv_marker() -> Seq<char> {
    seq!['?', 'i', 'v', '=']
}

/// Whether `?iv=` occurs in `a`.
pub open spec fn has_iv_marker(a: Seq<char>) -> bool {
    exists|i: int| 0 <= i && i + 4 <= a.len() && #[trigger] a.subrange(i, i + 4) == iv_marker()
}

/// The shape of NIP-04 content: `ciphertext ?iv= iv`, with `?iv=` once and a 16-byte IV.
pub open spec fn is_nip04_shape(c: Seq<char>) -> bool {
    &&& c.len() >= 28
    &&& c.subrange(c.len() - 28, c.len() - 24) == iv_marker()
    &&& is_iv_text(c.skip(c.len() - 24))
    &&& !has_iv_marker(c.take(c.len() - 28))
}

/// Whether `sk` is the secret of the x-only public key `pk`.
pub open spec fn owns_key(sk: Seq<u8>, pk: Seq<u8>) -> bool {
    is_valid_secret(sk) && xonly_public_key(sk) == pk
}

fn is_base64_char_exec(c: char) -> (r: bool)
    ensures
        r == is_base64_char(c),
{
    ('A' <= c && c <= 'Z') || ('a' <= c && c <= 'z') || ('0' <= c && c <= '9') || c == '+' || c
        == '/'
}

/// Whether `c` has the shape of NIP-04 content; content of any other shape is malformed.
pub fn nip04_shape(c: &String) -> (r: bool)
    ensures
        r == is_nip04_shape(c@),
{
    let s = c.as_str();
    let n = s.unicode_len();
    if n < 28 {
        return false;
    }
    let m = n - 28;
    let marker_here = s.get_char(m) == '?' && s.get_char(m + 1) == 'i' && s.get_char(m + 2) == 'v'
        && s.get_char(m + 3) == '=';
    assert(marker_here == (c@.subrange(m as int, m + 4) == iv_marker())) by {
        if c@.subrange(m as int, m + 4) == iv_marker() {
            assert(c@.subrange(m as int, m + 4)[0] == c@[m as int]);
            assert(c@.subrange(m as int, m + 4)[1] == c@[m + 1]);
            assert(c@.subrange(m as int, m + 4)[2] == c@[m + 2]);
            assert(c@.subrange(m as int, m + 4)[3] == c@[m + 3]);
        }
        if marker_here {
            assert(c@.subrange(m as int, m + 4) =~= iv_marker());
        }
    }
    if !marker_here {
        return false;
    }
    let ghost t = c@.skip(m + 4);
    if s.get_char(n - 2) != '=' || s.get_char(n - 1) != '=' {
        return false;
    }
    let mut i: usize = 0;
    while i < 22
        invariant
            s@ == c@,
            n == c@.len(),
            m + 28 == n,
            t == c@.skip(m + 4),
            i <= 22,
            forall|j: int| 0 <= j < i ==> is_base64_char(#[trigger] t[j]),
        decreases 22 - i,
    {
        if !is_base64_char_exec(s.get_char(m + 4 + i)) {
            assert(t[i as int] == c@[m + 4 + i]);
            return false;
        }
        i = i + 1;
    }
    assert(is_iv_text(t));
    let mut k: usize = 0;
    while k + 4 <= m
        invariant
            s@ == c@,
            n == c@.len(),
            m + 28 == n,
            k <= m,
            forall|j: int|
                0 <= j < k && j + 4 <= m ==> #[trigger] c@.take(m as int).subrange(j, j + 4)
                    != iv_marker(),
        decreases m - k,
    {
        if s.get_char(k) == '?' && s.get_char(k + 1) == 'i' && s.get_char(k + 2) == 'v' && s.get_char(
            k + 3,
        ) == '=' {
            assert(c@.take(m as int).subrange(k as int, k + 4) =~= iv_marker());
            return false;
        }
        assert(c@.take(m as int).subrange(k as int, k + 4) != iv_marker()) by {
            let w = c@.take(m as int).subrange(k as int, k + 4);
            if w == iv_marker() {
                assert(w[0] == c@[k as int] && w[1] == c@[k + 1] && w[2] == c@[k + 2] && w[3]
                    == c@[k + 3]);
            }
        }
        k = k + 1;
    }
    true
}

/// Relies on `base64::encode`: the standard padded encoding, a function of the bytes alone,
/// which `base64::decode` reads back to the same bytes.
#[verifier::external_body]
pub(crate) fn base64_encode(b: &Vec<u8>) -> (r: String)
    ensures
        r@ == base64_text(b@),
        base64_bytes(r@) == Some(b@),
{
    base64::encode(b)
}

/// Relies on `base64::decode`: the standard padded decoding, a function of the text alone.
#[verifier::external_body]
pub(crate) fn base64_decode(s: &String) -> (r: Option<Vec<u8>>)
    ensures
        match base64_bytes(s@) {
            Some(b) => r matches Some(v) && v@ == b,
            None => r is None,
        },
{
    base64::decode(s).ok()
}

/// Relies on `hex::encode`: two lowercase digits per byte.
#[verifier::external_body]
pub(crate) fn hex_encode(b: &Vec<u8>) -> (r: String)
    ensures
        r@ == hex_of(b@),
{
    hex::encode(b)
}

/// Relies on `SecretKey::from_slice`, which accepts exactly the valid secret keys, and on
/// `Keys::public_key` with `XOnlyPublicKey::serialize` for the 32-byte x-only key.
#[verifier::external_body]
pub(crate) fn derive_public_key(sk: &Vec<u8>) -> (r: Option<Vec<u8>>)
    ensures
        r is Some <==> is_valid_secret(sk@),
        r matches Some(p) ==> p@ == xonly_public_key(sk@) && p@.len() == 32,
{
    let sk = nostr::secp256k1::SecretKey::from_slice(sk).ok()?;
    Some(nostr::Keys::new(sk).public_key().serialize().to_vec())
}

/// Relies on `nostr::nips::nip04::encrypt`: the shared key is the x-coordinate of the ECDH
/// point of the sender's secret and the recipient's key lifted to even parity, which is the
/// point the recipient reaches from its own secret and the sender's key; the text is
/// AES-256-CBC encrypted under a random 16-byte IV and written `base64(ciphertext) ?iv=
/// base64(iv)`. It fails only on a key that does not parse: the IV changes the text, not
/// whether the call succeeds.
#[verifier::external_body]
pub(crate) fn nip04_encrypt(sk: &Vec<u8>, pk: &Vec<u8>, text: &String) -> (r: Option<String>)
    ensures
        !is_valid_secret(sk@) ==> r is None,
        pk@.len() != 32 ==> r is None,
        is_valid_secret(sk@) && (exists|s: Seq<u8>| owns_key(s, pk@)) ==> r is Some,
        r matches Some(c) ==> is_nip04_shape(c@),
        r matches Some(c) ==> forall|s: Seq<u8>|
            owns_key(s, pk@) ==> nip04_plaintext(s, xonly_public_key(sk@), c@) == Some(text@),
{
    let sk = nostr::secp256k1::SecretKey::from_slice(sk).ok()?;
    let pk = nostr::secp256k1::XOnlyPublicKey::from_slice(pk).ok()?;
    nostr::nips::nip04::encrypt(&sk, &pk, text).ok()
}

/// Relies on `nostr::nips::nip04::decrypt`, a function of the keys and the content alone.
/// It reads the IV into a 16-byte array and panics on any other length, so the content
/// must have the NIP-04 shape, whose IV text decodes to 16 bytes or not at all.
#[verifier::external_body]
pub(crate) fn nip04_decrypt(sk: &Vec<u8>, pk: &Vec<u8>, content: &String) -> (r: Option<String>)
    requires
        is_nip04_shape(content@),
    ensures
        match nip04_plaintext(sk@, pk@, content@) {
            Some(t) => r matches Some(s) && s@ == t,
            None => r is None,
        },
{
    let sk = nostr::secp256k1::SecretKey::from_slice(sk).ok()?;
    let pk = nostr::secp256k1::XOnlyPublicKey::from_slice(pk).ok()?;
    nostr::nips::nip04::decrypt(&sk, &pk, content.clone()).ok()
}

#[derive(Clone, Copy, Debug, PartialEq, Eq, Structural)]
pub enum KeystoreError {
    KeystoreCorrupt,
}

/// A wallet's identity: its secret key and the x-only public key derived from it.
#[derive(Clone, Debug)]
pub struct Identity {
    secret: Vec<u8>,
    public: Vec<u8>,
}

impl Identity {
    pub closed spec fn secret_view(&self) -> Seq<u8> {
        self.secret@
    }

    pub closed spec fn public_view(&self) -> Seq<u8> {
        self.public@
    }

    pub open spec fn wf(&self) -> bool {
        is_valid_secret(self.secret_view()) && self.public_view() == xonly_public_key(
            self.secret_view(),
        ) && self.public_view().len() == 32
    }

    /// The identity of a stored secret key: `KeystoreCorrupt` unless the bytes are a
    /// valid secret key.
    pub fn from_secret(secret: Vec<u8>) -> (r: Result<Identity, KeystoreError>)
        ensures
            is_valid_secret(secret@) <==> r is Ok,
            r matches Ok(id) ==> id.wf() && id.secret_view() == secret@,
            r matches Err(e) ==> e == KeystoreError::KeystoreCorrupt,
    {
        match derive_public_key(&secret) {
            Some(public) => Ok(Identity { secret, public }),
            None => Err(KeystoreError::KeystoreCorrupt),
        }
    }

    /// The secret key bytes, as they are persisted.
    pub fn secret_bytes(&self) -> (r: Vec<u8>)
        ensures
            r@ == self.secret_view(),
    {
        self.secret.clone()
    }

    /// The x-only public key that identifies this wallet to counterparties.
    pub fn public_key(&self) -> (r: Vec<u8>)
        ensures
            r@ == self.public_view(),
    {
        self.public.clone()
    }

    pub(crate) fn secret_ref(&self) -> (r: &Vec<u8>)
        ensures
            r@ == self.secret_view(),
    {
        &self.secret
    }
}

/// What `load_or_create` does once the keystore file has been looked up: with stored bytes,
/// the identity they hold (and nothing to write); else the identity of the freshly
/// generated secret, which the caller must persist.
pub fn load_or_create(stored: Option<Vec<u8>>, fresh: Vec<u8>) -> (r: Result<
    (Identity, bool),
    KeystoreError,
>)
    ensures
        match stored {
            Some(b) => (is_valid_secret(b@) <==> r is Ok) && (r matches Ok((id, write)) ==> !write
                && id.wf() && id.secret_view() == b@),
            None => (is_valid_secret(fresh@) <==> r is Ok) && (r matches Ok((id, write)) ==> write
                && id.wf() && id.secret_view() == fresh@),
        },
{
    match stored {
        Some(b) => match Identity::from_secret(b) {
            Ok(id) => Ok((id, false)),
            Err(e) => Err(e),
        },
        None => match Identity::from_secret(fresh) {
            Ok(id) => Ok((id, true)),
            Err(e) => Err(e),
        },
    }
}

/// Key persistence: once `load_or_create` has made an identity from a fresh secret and it
/// has been persisted, the next `load_or_create` reads those bytes back and yields an
/// identity with the same secret and the same public key.
pub proof fn lemma_key_persistence(first: Identity, second: Identity)
    requires
        first.wf(),
        second.wf(),
        second.secret_view() == first.secret_view(),
    ensures
        second.public_view() == first.public_view(),
{
}

} // verus!
