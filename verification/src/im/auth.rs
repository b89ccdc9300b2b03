//! Logging in with a token: the token is base64 text of AES-128-CBC
//! ciphertext whose plaintext starts with the user identifier as eight
//! big-endian bytes.
use crate::connect::extract::online_state::AuthServer;
use crate::connect::extract::IntoPacket;
use crate::endian::{get_u64, lemma_u64_roundtrip, u64_bytes, u64_of};
use crate::im::packet::{Headers, Packet, PacketView, Payload, PayloadView};
use crypto::symmetriccipher::SymmetricCipherError;
use vstd::prelude::*;
use vstd::string::StringExecFns;

verus! {

/// The key that tokens are encrypted with.
pub const KEY: [u8; 16] = [
    0x0, 0x1, 0x2, 0x3, 0x4, 0x5, 0xC, 0x7, 0xB, 0x9, 0x10, 0x11, 0x12, 0x13, 0x14, 0x15,
];

/// The initialisation vector that tokens are encrypted with.
pub const IV: [u8; 16] = [
    0x0, 0x1, 0x2, 0x3, 0x4, 0x5, 0xC, 0x7, 0xB, 0x9, 0x10, 0x11, 0x12, 0x13, 0x14, 0x15,
];

/// What base64 decoding with the standard alphabet and padding makes of the
/// text, if it is base64 at all.
pub uninterp spec fn base64_standard_decode(input: Seq<char>) -> Option<Seq<u8>>;

/// What AES-128-CBC decryption of whole blocks, without any padding removed,
/// makes of the ciphertext.
pub uninterp spec fn aes128_cbc_decrypt_blocks(key: Seq<u8>, iv: Seq<u8>, data: Seq<u8>) -> Seq<u8>;

/// `base64::DecodeError`.
#[verifier::external_type_specification]
#[verifier::external_body]
pub struct ExDecodeError(base64::DecodeError);

/// `crypto::symmetriccipher::SymmetricCipherError`.
#[verifier::external_type_specification]
#[verifier::external_body]
pub struct ExSymmetricCipherError(SymmetricCipherError);

/// `base64::decode`: the bytes that the text decodes to, as named by
/// [`base64_standard_decode`], or the decoder's error.
#[verifier::external_body]
fn base64_decode(input: &str) -> (r: Result<Vec<u8>, base64::DecodeError>)
    ensures
        r is Ok <==> base64_standard_decode(input@) is Some,
        r matches Ok(b) ==> base64_standard_decode(input@) == Some(b@),
{
    base64::decode(input)
}

/// `crypto::aes::cbc_decryptor` with a 128-bit key and `NoPadding`, run once
/// over `data` into a zeroed buffer as long as `data`; the buffer is the
/// result. It decrypts whole blocks only: the crate refuses a ciphertext whose
/// length is no multiple of sixteen and otherwise fills the buffer with the
/// decrypted blocks, as named by [`aes128_cbc_decrypt_blocks`]. The crate reads
/// sixteen bytes of key and of IV, which `requires` states.
#[verifier::external_body]
fn aes128_cbc_decrypt(key: &[u8], iv: &[u8], data: &[u8]) -> (r: Result<Vec<u8>, SymmetricCipherError>)
    requires
        key@.len() == 16,
        iv@.len() == 16,
    ensures
        r is Ok <==> data@.len() % 16 == 0,
        r matches Ok(b) ==> b@ == aes128_cbc_decrypt_blocks(key@, iv@, data@) && b@.len()
            == data@.len(),
{
    let mut decryptor = crypto::aes::cbc_decryptor(
        crypto::aes::KeySize::KeySize128,
        key,
        iv,
        crypto::blockmodes::NoPadding,
    );
    let mut read_buffer = crypto::buffer::RefReadBuffer::new(data);
    let mut buffer = vec![0; data.len()];
    let mut write_buffer = crypto::buffer::RefWriteBuffer::new(&mut buffer);
    decryptor.decrypt(&mut read_buffer, &mut write_buffer, true)?;
    Ok(buffer)
}

/// Whether the last block of `plain` is sixteen equal bytes above sixteen:
/// the PKCS#7 check of `crypto::blockmodes::PkcsPadding` accepts such a block
/// and then removes more bytes than the block holds, which panics.
pub open spec fn pkcs_strip_panics(plain: Seq<u8>) -> bool {
    &&& plain.len() >= 16
    &&& plain.last() > 16
    &&& forall|i: int| plain.len() - 16 <= i < plain.len() ==> plain[i] == plain.last()
}

/// What PKCS#7 padding removal, as `crypto::blockmodes::PkcsPadding` does it,
/// leaves of the decrypted blocks `plain` in a zeroed buffer as long as they
/// are: nothing to do on no blocks; otherwise the last byte `b` counts the
/// padding, which must be at most sixteen bytes all equal to `b`, and the
/// buffer keeps the bytes before the padding, the padding's places left zero.
pub open spec fn pkcs_strip(plain: Seq<u8>) -> Option<Seq<u8>>
    recommends
        plain.len() % 16 == 0,
{
    if plain.len() == 0 {
        Some(plain)
    } else {
        let b = plain.last();
        if b > 16 {
            None
        } else if forall|i: int| plain.len() - b <= i < plain.len() ==> plain[i] == b {
            Some(plain.take(plain.len() - b) + Seq::new(b as nat, |i: int| 0u8))
        } else {
            None
        }
    }
}

/// `m` with PKCS#7 padding: one to sixteen bytes, each holding their count,
/// up to the next multiple of sixteen.
pub open spec fn pkcs_pad(m: Seq<u8>) -> Seq<u8> {
    let k = 16 - m.len() % 16;
    m + Seq::new(k as nat, |i: int| k as u8)
}

/// Removing the padding undoes padding: the padded bytes are whole blocks,
/// their check does not panic, and what is left is `m`, followed by zeros
/// where the padding was.
pub proof fn lemma_strip_undoes_pad(m: Seq<u8>)
    ensures
        pkcs_pad(m).len() % 16 == 0,
        !pkcs_strip_panics(pkcs_pad(m)),
        pkcs_strip(pkcs_pad(m)) == Some(m + Seq::new((16 - m.len() % 16) as nat, |i: int| 0u8)),
{
    let k = 16 - m.len() % 16;
    let p = pkcs_pad(m);
    assert(p.len() == m.len() + k);
    assert(p.last() == k as u8);
    assert(p.take(p.len() - k) =~= m);
    assert forall|i: int| p.len() - (k as u8) <= i < p.len() implies p[i] == k as u8 by {}
}

/// A token whose decrypted blocks are the padded big-endian bytes of `id`,
/// followed by anything, is taken by the login check and names `id`.
pub proof fn lemma_padded_token_names_user(token: Seq<char>, id: u64, rest: Seq<u8>)
    requires
        token_blocks(token) == Some(pkcs_pad(u64_bytes(id, false) + rest)),
    ensures
        token_parses(token),
        token_user(token) == Some(id),
{
    let m = u64_bytes(id, false) + rest;
    lemma_strip_undoes_pad(m);
    lemma_u64_roundtrip(id, false);
    let p = m + Seq::new((16 - m.len() % 16) as nat, |i: int| 0u8);
    assert(p.take(8) =~= u64_bytes(id, false));
}

/// Tells whether removing the PKCS#7 padding from `plain` would panic.
pub fn padding_panics(plain: &[u8]) -> (r: bool)
    ensures
        r == pkcs_strip_panics(plain@),
{
    let n = plain.len();
    if n < 16 {
        return false;
    }
    let b = plain[n - 1];
    if b <= 16 {
        return false;
    }
    let mut i: usize = n - 16;
    while i < n
        invariant
            n == plain@.len(),
            n >= 16,
            b == plain@.last(),
            n - 16 <= i <= n,
            forall|j: int| n - 16 <= j < i ==> plain@[j] == b,
        decreases n - i,
    {
        if plain[i] != b {
            return false;
        }
        i = i + 1;
    }
    true
}

/// Removes the PKCS#7 padding from the decrypted blocks `plain`, leaving the
/// padding's places zero, or tells with `None` that the padding is wrong.
pub fn strip_pkcs_padding(plain: Vec<u8>) -> (r: Option<Vec<u8>>)
    requires
        plain@.len() % 16 == 0,
        !pkcs_strip_panics(plain@),
    ensures
        match pkcs_strip(plain@) {
            Some(p) => r matches Some(o) && o@ == p,
            None => r is None,
        },
{
    let n = plain.len();
    if n == 0 {
        return Some(plain);
    }
    let b = plain[n - 1];
    if b > 16 {
        return None;
    }
    let start = n - b as usize;
    let mut i = start;
    while i < n
        invariant
            n == plain@.len(),
            b == plain@.last(),
            start == n - b,
            start <= i <= n,
            forall|j: int| start <= j < i ==> plain@[j] == b,
        decreases n - i,
    {
        if plain[i] != b {
            return None;
        }
        i = i + 1;
    }
    let ghost kept = plain@;
    let mut out = plain;
    let mut k = start;
    while k < n
        invariant
            n == out@.len(),
            n == kept.len(),
            start <= k <= n,
            forall|j: int| 0 <= j < start ==> out@[j] == kept[j],
            forall|j: int| start <= j < k ==> out@[j] == 0u8,
        decreases n - k,
    {
        out.set(k, 0u8);
        k = k + 1;
    }
    assert(out@ =~= kept.take(start as int) + Seq::new(b as nat, |i: int| 0u8));
    Some(out)
}

/// The decrypted blocks of a token, if the token is base64 of whole blocks.
pub open spec fn token_blocks(token: Seq<char>) -> Option<Seq<u8>> {
    match base64_standard_decode(token) {
        Some(b) => if b.len() % 16 == 0 {
            Some(aes128_cbc_decrypt_blocks(KEY@, IV@, b))
        } else {
            None
        },
        None => None,
    }
}

/// Whether removing the padding from the token's decrypted blocks panics.
pub open spec fn token_panics(token: Seq<char>) -> bool {
    match token_blocks(token) {
        Some(p) => pkcs_strip_panics(p),
        None => false,
    }
}

/// The plaintext of a token, if the token is base64, decrypts and has valid
/// padding.
pub open spec fn token_plaintext(token: Seq<char>) -> Option<Seq<u8>> {
    match token_blocks(token) {
        Some(p) => pkcs_strip(p),
        None => None,
    }
}

/// Whether parsing the token runs to an answer: its padding check does not
/// panic, and a plaintext, if there is one, holds the eight bytes of a user
/// identifier.
pub open spec fn token_parses(token: Seq<char>) -> bool {
    &&& !token_panics(token)
    &&& match token_plaintext(token) {
        Some(p) => p.len() >= 8,
        None => true,
    }
}

/// The user a token stands for: the first eight plaintext bytes, big-endian.
pub open spec fn token_user(token: Seq<char>) -> Option<u64> {
    match token_plaintext(token) {
        Some(p) => Some(u64_of(p.take(8), false)),
        None => None,
    }
}

/// A login that did not go through.
#[derive(Debug, Clone, Copy, PartialEq, Eq, Structural)]
pub enum AuthError {
    /// The token named no user; the answer goes to the given request.
    InvalidToken { request_id: u64 },
}

/// Checks login tokens.
#[derive(Debug, Clone, Copy)]
pub struct TokenAuthServer {}

impl TokenAuthServer {
    pub fn new() -> Self {
        TokenAuthServer {  }
    }

    /// The decrypted blocks of the token, padding not yet removed.
    fn decrypt_blocks(request_id: u64, token: &str) -> (r: Result<Vec<u8>, AuthError>)
        ensures
            match token_blocks(token@) {
                Some(p) => r matches Ok(b) && b@ == p && b@.len() % 16 == 0,
                None => r == Err::<Vec<u8>, AuthError>(AuthError::InvalidToken { request_id }),
            },
    {
        let bytes = match base64_decode(token) {
            Ok(bytes) => bytes,
            Err(_) => return Err(AuthError::InvalidToken { request_id }),
        };
        match aes128_cbc_decrypt(KEY.as_slice(), IV.as_slice(), bytes.as_slice()) {
            Ok(blocks) => Ok(blocks),
            Err(_) => Err(AuthError::InvalidToken { request_id }),
        }
    }

    /// The plaintext of the token.
    fn decrypt_token(request_id: u64, token: &str) -> (r: Result<Vec<u8>, AuthError>)
        requires
            !token_panics(token@),
        ensures
            match token_plaintext(token@) {
                Some(p) => r matches Ok(b) && b@ == p,
                None => r == Err::<Vec<u8>, AuthError>(AuthError::InvalidToken { request_id }),
            },
    {
        let blocks = Self::decrypt_blocks(request_id, token)?;
        match strip_pkcs_padding(blocks) {
            Some(plain) => Ok(plain),
            None => Err(AuthError::InvalidToken { request_id }),
        }
    }

    /// The user a token stands for.
    fn parse_token(request_id: u64, token: &str) -> (r: Result<u64, AuthError>)
        requires
            token_parses(token@),
        ensures
            match token_user(token@) {
                Some(id) => r == Ok::<u64, AuthError>(id),
                None => r == Err::<u64, AuthError>(AuthError::InvalidToken { request_id }),
            },
    {
        let plain = Self::decrypt_token(request_id, token)?;
        Ok(get_u64(plain.as_slice()))
    }

    /// Authenticates a login packet, and tells instead, with `None`, when the
    /// packet is no login, its token's padding check would panic, or its
    /// plaintext is too short to hold a user: inputs that [`AuthServer::auth`]
    /// does not take.
    pub fn try_auth(&self, packet: &Packet) -> (r: Option<Result<u64, AuthError>>)
        ensures
            match packet.payload@ {
                PayloadView::Login { token, .. } => if token_panics(token) {
                    r is None
                } else {
                    match token_plaintext(token) {
                        Some(p) => if p.len() >= 8 {
                            r == Some(Ok::<u64, AuthError>(u64_of(p.take(8), false)))
                        } else {
                            r is None
                        },
                        None => r == Some(
                            Err::<u64, AuthError>(
                                AuthError::InvalidToken { request_id: packet.request_id },
                            ),
                        ),
                    }
                },
                _ => r is None,
            },
    {
        match &packet.payload {
            Payload::Login { token, .. } => {
                let blocks = match Self::decrypt_blocks(packet.request_id, token.as_str()) {
                    Ok(blocks) => blocks,
                    Err(e) => return Some(Err(e)),
                };
                if padding_panics(blocks.as_slice()) {
                    return None;
                }
                match strip_pkcs_padding(blocks) {
                    Some(plain) => {
                        if plain.len() < 8 {
                            None
                        } else {
                            Some(self.auth(packet))
                        }
                    },
                    None => Some(Err(AuthError::InvalidToken { request_id: packet.request_id })),
                }
            },
            _ => None,
        }
    }
}

impl AuthServer<Packet, u64> for TokenAuthServer {
    type Error = AuthError;

    open spec fn admits(&self, packet: &Packet) -> bool {
        match packet.payload@ {
            PayloadView::Login { token, .. } => token_parses(token),
            _ => false,
        }
    }

    /// The user that the packet's token stands for, or `InvalidToken` for the
    /// packet's request.
    fn auth(&self, packet: &Packet) -> (r: Result<u64, AuthError>)
        ensures
            packet.payload matches Payload::Login { token, .. } && match token_user(token@) {
                Some(id) => r == Ok::<u64, AuthError>(id),
                None => r == Err::<u64, AuthError>(
                    AuthError::InvalidToken { request_id: packet.request_id },
                ),
            },
    {
        match &packet.payload {
            Payload::Login { token, .. } => Self::parse_token(packet.request_id, token.as_str()),
            _ => {
                assert(false);
                Err(AuthError::InvalidToken { request_id: packet.request_id })
            },
        }
    }
}

impl IntoPacket<Packet> for AuthError {
    /// The answer to a failed login: error 32, "invalid token", for the
    /// login's request.
    fn into_packet(self) -> (r: Packet)
        ensures
            r@ == (PacketView {
                request_id: self->request_id,
                headers: Seq::empty(),
                payload: PayloadView::Error { code: 32, message: "invalid token"@ },
            }),
    {
        match self {
            AuthError::InvalidToken { request_id } => {
                Packet::new(
                    request_id,
                    Headers::new(),
                    Payload::Error { code: 32, message: String::from_str("invalid token") },
                )
            },
        }
    }
}

} // verus!
