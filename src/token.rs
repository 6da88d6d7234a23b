use vstd::bytes::{
    lemma_auto_spec_u64_to_from_le_bytes, spec_u64_from_le_bytes, spec_u64_to_le_bytes,
    u64_from_le_bytes, u64_to_le_bytes,
};
use vstd::prelude::*;
use vstd::string::{is_ascii_spec_bytes, StringSliceAdditionalSpecFns};

verus! {

/// How long a token stays valid after it is minted, in seconds.
pub const TOKEN_LIFETIME_SECS: u64 = 86400;

/// The length of the nonce that each token carries in front of its ciphertext.
pub const NONCE_LEN: usize = 12;

/// The longest plaintext that the cipher accepts.
pub const MAX_PLAINTEXT_LEN: u64 = 274877906879;

/// Why a token was not accepted.
#[derive(PartialEq, Eq, Structural, Debug, Clone, Copy)]
pub enum TokenError {
    /// The token is malformed or fails authentication.
    Invalid,
    /// The token is authentic but its lifetime is over.
    Expired,
}

/// The 32-byte ChaCha20-Poly1305 key that encrypts and authenticates tokens.
pub struct TokenKey {
    bytes: Vec<u8>,
}

impl TokenKey {
    #[verifier::type_invariant]
    spec fn key_length(&self) -> bool {
        self.bytes@.len() == 32
    }
}

impl View for TokenKey {
    type V = Seq<u8>;

    closed spec fn view(&self) -> Seq<u8> {
        self.bytes@
    }
}

impl TokenKey {
    /// A key made of `bytes`; `None` unless `bytes` holds exactly 32 bytes.
    pub fn new(bytes: Vec<u8>) -> (r: Option<TokenKey>)
        ensures
            match r {
                Some(k) => k@ == bytes@ && k@.len() == 32,
                None => bytes@.len() != 32,
            },
    {
        if bytes.len() != 32 {
            None
        } else {
            Some(TokenKey { bytes })
        }
    }
}

/// What ChaCha20-Poly1305 makes of `plain` under `key` and `nonce`: the ciphertext and its tag.
pub uninterp spec fn chacha_sealed(key: Seq<u8>, nonce: Seq<u8>, plain: Seq<u8>) -> Seq<u8>;

/// Relies on chacha20poly1305's `Aead::encrypt` for ChaCha20Poly1305 (no associated data):
/// it fails only past the plaintext limit, appends a 16-byte tag, and is undone by decrypt,
/// so no other plaintext gives the same output.
#[verifier::external_body]
fn aead_encrypt(key: &Vec<u8>, nonce: &Vec<u8>, plain: &Vec<u8>) -> (r: Vec<u8>)
    requires
        key@.len() == 32,
        nonce@.len() == NONCE_LEN,
        plain@.len() <= MAX_PLAINTEXT_LEN,
    ensures
        r@ == chacha_sealed(key@, nonce@, plain@),
        r@.len() == plain@.len() + 16,
        forall|q: Seq<u8>| chacha_sealed(key@, nonce@, q) == r@ ==> q == plain@,
{
    let cipher = <chacha20poly1305::ChaCha20Poly1305 as chacha20poly1305::KeyInit>::new(
        chacha20poly1305::Key::from_slice(key),
    );
    chacha20poly1305::aead::Aead::encrypt(
        &cipher,
        chacha20poly1305::Nonce::from_slice(nonce),
        plain.as_slice(),
    ).unwrap_or_default()
}

/// Relies on chacha20poly1305's `Aead::decrypt` for ChaCha20Poly1305 (no associated data):
/// it succeeds exactly on what encrypt produced under the same key and nonce, and then gives
/// back that plaintext.
#[verifier::external_body]
fn aead_decrypt(key: &Vec<u8>, nonce: &Vec<u8>, sealed: &Vec<u8>) -> (r: Option<Vec<u8>>)
    requires
        key@.len() == 32,
        nonce@.len() == NONCE_LEN,
    ensures
        match r {
            Some(p) => {
                &&& p@.len() <= MAX_PLAINTEXT_LEN
                &&& sealed@ == chacha_sealed(key@, nonce@, p@)
                &&& forall|q: Seq<u8>| chacha_sealed(key@, nonce@, q) == sealed@ ==> q == p@
            },
            None => forall|q: Seq<u8>|
                q.len() <= MAX_PLAINTEXT_LEN ==> chacha_sealed(key@, nonce@, q) != sealed@,
        },
{
    let cipher = <chacha20poly1305::ChaCha20Poly1305 as chacha20poly1305::KeyInit>::new(
        chacha20poly1305::Key::from_slice(key),
    );
    chacha20poly1305::aead::Aead::decrypt(
        &cipher,
        chacha20poly1305::Nonce::from_slice(nonce),
        sealed.as_slice(),
    ).ok()
}

/// Relies on chacha20poly1305's `AeadCore::generate_nonce` with the operating system's
/// random source: a fresh 12-byte nonce.
#[verifier::external_body]
fn fresh_nonce() -> (r: Vec<u8>)
    ensures
        r@.len() == NONCE_LEN,
{
    <chacha20poly1305::ChaCha20Poly1305 as chacha20poly1305::AeadCore>::generate_nonce(
        &mut chacha20poly1305::aead::OsRng,
    ).to_vec()
}

/// The bytes that a token protects: the expiry instant, then the payload.
pub open spec fn plaintext(expires_at: u64, payload: Seq<u8>) -> Seq<u8> {
    spec_u64_to_le_bytes(expires_at) + payload
}

/// The lowercase hexadecimal digit (as an ASCII byte) of `n < 16`.
pub open spec fn hex_digit(n: u8) -> u8 {
    if n < 10 {
        (n + 48) as u8
    } else {
        (n + 87) as u8
    }
}

pub open spec fn is_digit(c: u8) -> bool {
    (48 <= c <= 57) || (97 <= c <= 102)
}

pub open spec fn digit_value(c: u8) -> u8 {
    if 48 <= c <= 57 {
        (c - 48) as u8
    } else {
        (c - 87) as u8
    }
}

/// Two lowercase hexadecimal digits per byte, high half first.
pub open spec fn hex_encode(b: Seq<u8>) -> Seq<u8> {
    Seq::new(
        2 * b.len(),
        |j: int|
            if j % 2 == 0 {
                hex_digit(b[j / 2] / 16)
            } else {
                hex_digit(b[j / 2] % 16)
            },
    )
}

pub open spec fn hex_valid(h: Seq<u8>) -> bool {
    h.len() % 2 == 0 && forall|i: int| 0 <= i < h.len() ==> is_digit(#[trigger] h[i])
}

pub open spec fn hex_decode(h: Seq<u8>) -> Seq<u8> {
    Seq::new(
        h.len() / 2,
        |i: int| (digit_value(h[2 * i]) * 16 + digit_value(h[2 * i + 1])) as u8,
    )
}

/// The raw bytes of a token: the nonce, then the sealed plaintext.
pub open spec fn token_bytes(key: Seq<u8>, nonce: Seq<u8>, expires_at: u64, payload: Seq<u8>) -> Seq<u8> {
    nonce + chacha_sealed(key, nonce, plaintext(expires_at, payload))
}

/// The text of the token that seals `payload` until `expires_at` under `nonce`.
pub open spec fn token_text(key: Seq<u8>, nonce: Seq<u8>, expires_at: u64, payload: Seq<u8>) -> Seq<u8> {
    hex_encode(token_bytes(key, nonce, expires_at, payload))
}

pub open spec fn authentic(key: Seq<u8>, nonce: Seq<u8>, sealed: Seq<u8>) -> bool {
    exists|p: Seq<u8>| p.len() <= MAX_PLAINTEXT_LEN && chacha_sealed(key, nonce, p) == sealed
}

/// The plaintext that `sealed` authenticates to under `key` and `nonce`.
pub open spec fn plaintext_of(key: Seq<u8>, nonce: Seq<u8>, sealed: Seq<u8>) -> Seq<u8> {
    choose|p: Seq<u8>| p.len() <= MAX_PLAINTEXT_LEN && chacha_sealed(key, nonce, p) == sealed
}

/// What opening the token text `h` at instant `now` gives: the payload, or why not.
pub open spec fn opened(key: Seq<u8>, h: Seq<u8>, now: u64) -> Result<Seq<u8>, TokenError> {
    if !hex_valid(h) {
        Err(TokenError::Invalid)
    } else {
        let raw = hex_decode(h);
        let nonce = raw.subrange(0, NONCE_LEN as int);
        let sealed = raw.subrange(NONCE_LEN as int, raw.len() as int);
        if raw.len() < NONCE_LEN || !authentic(key, nonce, sealed) {
            Err(TokenError::Invalid)
        } else {
            let plain = plaintext_of(key, nonce, sealed);
            if plain.len() < 8 {
                Err(TokenError::Invalid)
            } else if now >= spec_u64_from_le_bytes(plain.subrange(0, 8)) {
                Err(TokenError::Expired)
            } else {
                Ok(plain.subrange(8, plain.len() as int))
            }
        }
    }
}

/// What opening a token minted until `expires_at` with `payload` gives at instant `now`.
pub open spec fn minted_outcome(expires_at: u64, payload: Seq<u8>, now: u64) -> Result<Seq<u8>, TokenError> {
    if now < expires_at {
        Ok(payload)
    } else {
        Err(TokenError::Expired)
    }
}

/// The bytes of a text whose characters are ASCII.
pub open spec fn text_bytes(s: Seq<char>) -> Seq<u8> {
    Seq::new(s.len(), |i: int| s[i] as u8)
}

pub open spec fn bytes_result(r: Result<Vec<u8>, TokenError>) -> Result<Seq<u8>, TokenError> {
    match r {
        Ok(v) => Ok(v@),
        Err(e) => Err(e),
    }
}

/// The ASCII characters of `b`, one per byte.
pub open spec fn ascii_text(b: Seq<u8>) -> Seq<char> {
    b.map_values(|x: u8| x as char)
}

/// Relies on String::from_utf8: bytes that are all ASCII form a valid string of one
/// character per byte.
#[verifier::external_body]
fn ascii_string(b: Vec<u8>) -> (r: String)
    requires
        forall|i: int| 0 <= i < b@.len() ==> b@[i] < 128,
    ensures
        r@ == ascii_text(b@),
{
    String::from_utf8(b).unwrap_or_default()
}

fn hex_digit_exec(n: u8) -> (r: u8)
    requires
        n < 16,
    ensures
        r == hex_digit(n),
        is_digit(r),
        digit_value(r) == n,
{
    if n < 10 {
        n + 48
    } else {
        n + 87
    }
}

fn copy_range(v: &Vec<u8>, from: usize, to: usize) -> (r: Vec<u8>)
    requires
        from <= to <= v@.len(),
    ensures
        r@ == v@.subrange(from as int, to as int),
{
    let mut out: Vec<u8> = Vec::new();
    let mut i: usize = from;
    while i < to
        invariant
            from <= i <= to,
            to <= v@.len(),
            out@ =~= v@.subrange(from as int, i as int),
        decreases to - i,
    {
        out.push(v[i]);
        i += 1;
    }
    out
}


/// Seals `payload` until the instant `expires_at` under `key` and `nonce`, as URL-safe text.
pub fn seal(key: &TokenKey, nonce: &Vec<u8>, expires_at: u64, payload: &Vec<u8>) -> (r: String)
    requires
        nonce@.len() == NONCE_LEN,
        payload@.len() <= MAX_PLAINTEXT_LEN - 8,
        payload@.len() <= usize::MAX / 4 - 64,
    ensures
        r@ == ascii_text(token_text(key@, nonce@, expires_at, payload@)),
        forall|now: u64|
            opened(key@, token_text(key@, nonce@, expires_at, payload@), now) == minted_outcome(
                expires_at,
                payload@,
                now,
            ),
{
    proof {
        use_type_invariant(key);
    }
    let mut plain = u64_to_le_bytes(expires_at);
    let mut i: usize = 0;
    while i < payload.len()
        invariant
            i <= payload@.len(),
            plain@ =~= spec_u64_to_le_bytes(expires_at) + payload@.take(i as int),
        decreases payload@.len() - i,
    {
        plain.push(payload[i]);
        i += 1;
    }
    assert(payload@.take(payload@.len() as int) =~= payload@);
    let sealed = aead_encrypt(&key.bytes, nonce, &plain);
    let mut raw = copy_range(nonce, 0, NONCE_LEN);
    let mut j: usize = 0;
    while j < sealed.len()
        invariant
            j <= sealed@.len(),
            nonce@.len() == NONCE_LEN,
            raw@ =~= nonce@ + sealed@.take(j as int),
        decreases sealed@.len() - j,
    {
        raw.push(sealed[j]);
        j += 1;
    }
    assert(sealed@.take(sealed@.len() as int) =~= sealed@);
    let ghost all = raw@;
    assert(all == token_bytes(key@, nonce@, expires_at, payload@));
    let mut text: Vec<u8> = Vec::new();
    let mut k: usize = 0;
    while k < raw.len()
        invariant
            k <= raw@.len(),
            raw@ == all,
            all.len() <= usize::MAX / 2,
            text@ =~= hex_encode(all).take(2 * k),
            forall|x: int| 0 <= x < text@.len() ==> text@[x] < 128,
        decreases raw@.len() - k,
    {
        let b = raw[k];
        let hi = hex_digit_exec(b / 16);
        let lo = hex_digit_exec(b % 16);
        text.push(hi);
        text.push(lo);
        proof {
            let h = hex_encode(all);
            assert(h[2 * k] == hi);
            assert(h[2 * k + 1] == lo);
            assert(text@ =~= h.take(2 * k + 2));
        }
        k += 1;
    }
    assert(hex_encode(all).take(2 * all.len() as int) =~= hex_encode(all));
    proof {
        lemma_hex_round_trip(all);
        lemma_auto_spec_u64_to_from_le_bytes();
        let p = plaintext(expires_at, payload@);
        assert(all.subrange(0, NONCE_LEN as int) =~= nonce@);
        assert(all.subrange(NONCE_LEN as int, all.len() as int) =~= sealed@);
        assert(authentic(key@, nonce@, sealed@));
        let q = plaintext_of(key@, nonce@, sealed@);
        assert(q == p);
        assert(p.subrange(0, 8) =~= spec_u64_to_le_bytes(expires_at));
        assert(p.subrange(8, p.len() as int) =~= payload@);
    }
    ascii_string(text)
}

fn is_digit_exec(c: u8) -> (r: bool)
    ensures
        r == is_digit(c),
{
    (48 <= c && c <= 57) || (97 <= c && c <= 102)
}

fn digit_value_exec(c: u8) -> (r: u8)
    requires
        is_digit(c),
    ensures
        r == digit_value(c),
        r < 16,
{
    if c <= 57 {
        c - 48
    } else {
        c - 87
    }
}

/// Opens the token text `token` under `key` at instant `now`: the sealed payload when the
/// token is intact and its expiry instant lies after `now`.
pub fn validate(key: &TokenKey, token: &str, now: u64) -> (r: Result<Vec<u8>, TokenError>)
    ensures
        bytes_result(r) == opened(key@, token.spec_bytes(), now),
        vstd::string::is_ascii(token) ==> bytes_result(r) == opened(key@, text_bytes(token@), now),
{
    proof {
        broadcast use is_ascii_spec_bytes;

        if vstd::string::is_ascii(token) {
            assert(token.spec_bytes() =~= text_bytes(token@));
        }
    }
    proof {
        use_type_invariant(key);
    }
    let h = token.as_bytes();
    let n = h.len();
    if n % 2 != 0 {
        return Err(TokenError::Invalid);
    }
    let mut raw: Vec<u8> = Vec::new();
    let mut i: usize = 0;
    while i < n / 2
        invariant
            n == h@.len(),
            h@ == token.spec_bytes(),
            n % 2 == 0,
            i <= n / 2,
            forall|x: int| 0 <= x < 2 * i ==> is_digit(#[trigger] h@[x]),
            raw@ =~= hex_decode(h@).take(i as int),
        decreases n / 2 - i,
    {
        let c1 = h[2 * i];
        let c2 = h[2 * i + 1];
        if !is_digit_exec(c1) || !is_digit_exec(c2) {
            proof {
                if !is_digit(c1) {
                    assert(!is_digit(h@[2 * i as int]));
                } else {
                    assert(!is_digit(h@[2 * i + 1]));
                }
            }
            return Err(TokenError::Invalid);
        }
        let v = digit_value_exec(c1) * 16 + digit_value_exec(c2);
        raw.push(v);
        proof {
            assert(hex_decode(h@)[i as int] == v);
            assert forall|x: int| 0 <= x < 2 * (i + 1) implies is_digit(#[trigger] h@[x]) by {
                if x == 2 * i || x == 2 * i + 1 {
                }
            }
        }
        i += 1;
    }
    assert(hex_valid(h@));
    assert(hex_decode(h@).take(i as int) =~= hex_decode(h@));
    let m = raw.len();
    if m < NONCE_LEN {
        return Err(TokenError::Invalid);
    }
    let nonce = copy_range(&raw, 0, NONCE_LEN);
    let sealed = copy_range(&raw, NONCE_LEN, m);
    let plain = match aead_decrypt(&key.bytes, &nonce, &sealed) {
        Some(p) => p,
        None => {
            return Err(TokenError::Invalid);
        },
    };
    proof {
        assert(authentic(key@, nonce@, sealed@));
        assert(plaintext_of(key@, nonce@, sealed@) == plain@);
    }
    if plain.len() < 8 {
        return Err(TokenError::Invalid);
    }
    let head = copy_range(&plain, 0, 8);
    if now >= u64_from_le_bytes(head.as_slice()) {
        return Err(TokenError::Expired);
    }
    Ok(copy_range(&plain, 8, plain.len()))
}

proof fn lemma_hex_round_trip(b: Seq<u8>)
    ensures
        hex_valid(hex_encode(b)),
        hex_decode(hex_encode(b)) == b,
{
    let h = hex_encode(b);
    assert forall|j: int| 0 <= j < h.len() implies is_digit(#[trigger] h[j]) by {
        let x = b[j / 2];
        assert(x / 16 < 16 && x % 16 < 16);
    }
    assert forall|i: int| 0 <= i < b.len() implies #[trigger] hex_decode(h)[i] == b[i] by {
        assert((2 * i) / 2 == i && (2 * i) % 2 == 0);
        assert((2 * i + 1) / 2 == i && (2 * i + 1) % 2 == 1);
        let x = b[i];
        assert(x / 16 < 16 && x % 16 < 16);
        assert(digit_value(h[2 * i]) == x / 16);
        assert(digit_value(h[2 * i + 1]) == x % 16);
        assert((x / 16) * 16 + x % 16 == x);
    }
    assert(hex_decode(h) =~= b);
}


pub open spec fn is_alnum(b: u8) -> bool {
    (48 <= b <= 57) || (65 <= b <= 90) || (97 <= b <= 122)
}

/// The uppercase hexadecimal digit of `n < 16`.
pub open spec fn upper_hex(n: u8) -> char {
    if n < 10 {
        ((n + 48) as u8) as char
    } else {
        ((n + 55) as u8) as char
    }
}

/// The URL-component form of the bytes `b`: ASCII letters and digits stay, every other
/// byte becomes '%' and two uppercase hexadecimal digits.
pub open spec fn escaped(b: Seq<u8>) -> Seq<char>
    decreases b.len(),
{
    if b.len() == 0 {
        Seq::empty()
    } else {
        let x = b.last();
        escaped(b.drop_last()) + if is_alnum(x) {
            seq![x as char]
        } else {
            seq!['%', upper_hex(x / 16), upper_hex(x % 16)]
        }
    }
}

/// Relies on percent_encoding::percent_encode with the NON_ALPHANUMERIC set: each byte of
/// the input that is not an ASCII letter or digit is written as '%' and two uppercase
/// hexadecimal digits, the others are kept.
#[verifier::external_body]
fn escape_component(s: &str) -> (r: String)
    ensures
        r@ == escaped(s.spec_bytes()),
{
    percent_encoding::percent_encode(s.as_bytes(), percent_encoding::NON_ALPHANUMERIC).to_string()
}

/// The URL-component form of `s`, for use in a query string.
pub fn escape_url_component(s: &str) -> (r: String)
    ensures
        r@ == escaped(s.spec_bytes()),
{
    escape_component(s)
}

proof fn lemma_escaped_alnum(b: Seq<u8>)
    requires
        forall|i: int| 0 <= i < b.len() ==> is_alnum(#[trigger] b[i]),
    ensures
        escaped(b) == ascii_text(b),
    decreases b.len(),
{
    if b.len() > 0 {
        lemma_escaped_alnum(b.drop_last());
        assert(escaped(b) =~= ascii_text(b));
    }
}

/// Text whose characters are ASCII bytes is encoded by exactly those bytes.
pub proof fn lemma_ascii_text_bytes(s: &str, b: Seq<u8>)
    requires
        s@ == ascii_text(b),
        forall|i: int| 0 <= i < b.len() ==> #[trigger] b[i] < 128,
    ensures
        s.spec_bytes() == b,
{
    broadcast use is_ascii_spec_bytes;

    assert forall|i: int| 0 <= i < s@.len() implies '\0' <= #[trigger] s@[i] <= '\u{7f}' by {
        assert(s@[i] == b[i] as char);
    }
    assert(vstd::string::is_ascii(s));
    assert(s.spec_bytes() == Seq::new(s@.len(), |i| s@.index(i) as u8));
    assert forall|i: int| 0 <= i < b.len() implies #[trigger] s.spec_bytes()[i] == b[i] by {
        let x = b[i];
        assert(s@[i] == x as char);
        assert((x as char) as u8 == x);
    }
    assert(s.spec_bytes() =~= b);
}

/// Mints the token that seals `payload` for the lifetime starting at `issued_at`: the raw
/// token text and its URL-component form.
/// Mints the token that seals `payload` for the lifetime starting at `issued_at`, under a
/// fresh nonce: the raw token text and its URL-component form.
pub fn mint(key: &TokenKey, issued_at: u64, payload: &Vec<u8>) -> (r: (String, String))
    requires
        issued_at <= u64::MAX - TOKEN_LIFETIME_SECS,
        payload@.len() <= MAX_PLAINTEXT_LEN - 8,
        payload@.len() <= usize::MAX / 4 - 64,
    ensures
        exists|nonce: Seq<u8>|
            nonce.len() == NONCE_LEN && r.0@ == ascii_text(
                token_text(key@, nonce, (issued_at + TOKEN_LIFETIME_SECS) as u64, payload@),
            ),
        vstd::utf8::is_ascii_chars(r.0@),
        r.1@ == r.0@,
        forall|now: u64|
            opened(key@, text_bytes(r.0@), now) == minted_outcome(
                (issued_at + TOKEN_LIFETIME_SECS) as u64,
                payload@,
                now,
            ),
{
    let nonce = fresh_nonce();
    let raw = seal(key, &nonce, issued_at + TOKEN_LIFETIME_SECS, payload);
    let ghost text = token_text(key@, nonce@, (issued_at + TOKEN_LIFETIME_SECS) as u64, payload@);
    let view = raw.as_str();
    proof {
        lemma_hex_round_trip(token_bytes(key@, nonce@, (issued_at + TOKEN_LIFETIME_SECS) as u64, payload@));
        assert forall|i: int| 0 <= i < text.len() implies #[trigger] text[i] < 128 && is_alnum(
            text[i],
        ) by {
            assert(is_digit(text[i]));
        }
        lemma_ascii_text_bytes(view, text);
        lemma_escaped_alnum(text);
        assert(text_bytes(raw@) =~= text);
    }
    let url = escape_url_component(view);
    (raw, url)
}

} // verus!
