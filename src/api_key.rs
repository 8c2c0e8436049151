//! API keys: issuance of one opaque key per member, stored only as a bcrypt
//! hash, and verification of a presented key against that hash.
//!
//! A key is the URL-safe base64 encoding (without padding) of the text
//! `<member id>_<material>`, where `<material>` is the URL-safe base64
//! encoding of 32 random bytes. A key is hashed only whole: bcrypt reads at
//! most 71 bytes, and a longer key is not issued.
use base64::Engine;
use vstd::prelude::*;
use vstd::utf8::*;
use crate::decimal::{decimal_bytes, decimal_of, decimal_text, is_digit, lemma_decimal_round_trip, parse_i32_range, parse_i32_spec};

verus! {

/// Number of random bytes in the material of a key.
pub const KEY_MATERIAL_LEN: usize = 32;

/// bcrypt cost with which keys are hashed (bcrypt's `DEFAULT_COST`).
pub const KEY_HASH_COST: u32 = 12;

/// URL-safe base64 text (without padding) of `bytes`.
pub uninterp spec fn base64_text(bytes: Seq<u8>) -> Seq<char>;

/// A character of the URL-safe base64 alphabet.
pub open spec fn is_url_safe_char(c: char) -> bool {
    ('A' <= c <= 'Z') || ('a' <= c <= 'z') || ('0' <= c <= '9') || c == '-' || c == '_'
}

/// Text made only of URL-safe base64 characters.
pub open spec fn is_url_safe(s: Seq<char>) -> bool {
    forall|i: int| 0 <= i < s.len() ==> is_url_safe_char(#[trigger] s[i])
}

/// Length of the unpadded base64 text of `n` bytes.
pub open spec fn base64_len(n: int) -> int {
    (4 * n + 2) / 3
}

/// Whether bcrypt's `non_truncating_verify` accepts `password` against `hash`;
/// `None` where it reports an error (a malformed hash, or a password of 72
/// bytes or more).
pub uninterp spec fn bcrypt_verdict(password: Seq<char>, hash: Seq<char>) -> Option<bool>;

/// Relies on base64's `URL_SAFE_NO_PAD` engine `encode`: the text is a
/// function of the bytes, written in the URL-safe alphabet with no padding,
/// four characters for three bytes, and distinct byte strings have distinct
/// encodings.
#[verifier::external_body]
fn encode_base64(bytes: &[u8]) -> (r: String)
    ensures
        r@ == base64_text(bytes@),
        r@.len() == base64_len(bytes@.len() as int),
        is_url_safe(r@),
        forall|b: Seq<u8>| #[trigger] base64_text(b) == r@ ==> b == bytes@,
{
    base64::engine::general_purpose::URL_SAFE_NO_PAD.encode(bytes)
}

/// Relies on base64's `URL_SAFE_NO_PAD` engine `decode`, which refuses padding
/// and trailing bits: it succeeds exactly on the texts that `encode` writes,
/// and gives back the bytes encoded.
#[verifier::external_body]
fn decode_base64(text: &str) -> (r: Option<Vec<u8>>)
    ensures
        (r matches Some(v) ==> base64_text(v@) == text@),
        forall|b: Seq<u8>| #[trigger] base64_text(b) == text@ ==> r is Some && r->0@ == b,
{
    base64::engine::general_purpose::URL_SAFE_NO_PAD.decode(text).ok()
}

/// Relies on std's `String::from_utf8`: it succeeds exactly on valid UTF-8 and
/// then holds the characters the bytes encode.
#[verifier::external_body]
fn string_from_utf8(bytes: Vec<u8>) -> (r: Option<String>)
    ensures
        (r is Some) == valid_utf8(bytes@),
        (r matches Some(s) ==> s@ == decode_utf8(bytes@)),
{
    String::from_utf8(bytes).ok()
}

/// Relies on rand's `rngs::OsRng` and `TryRngCore::try_fill_bytes` for 32
/// bytes from the operating system's generator; `None` where the operating
/// system gives none.
#[verifier::external_body]
fn random_key_material() -> (r: Option<Vec<u8>>)
    ensures
        (r matches Some(v) ==> v@.len() == KEY_MATERIAL_LEN),
{
    let mut key = [0u8; 32];
    match rand::TryRngCore::try_fill_bytes(&mut rand::rngs::OsRng, &mut key) {
        Ok(()) => Some(key.to_vec()),
        Err(_) => None,
    }
}

/// Relies on bcrypt's `non_truncating_hash`: it fails on a cost outside
/// 4..=31, on a password of 72 bytes or more (or when the OS gives no
/// randomness for the salt); the hash it returns is written `$2b$<cost>$...`
/// and is accepted by `non_truncating_verify` for the same password.
#[verifier::external_body]
fn bcrypt_hash(password: &str, cost: u32) -> (r: Option<String>)
    ensures
        !(4 <= cost <= 31) ==> r is None,
        encode_utf8(password@).len() >= 72 ==> r is None,
        (r matches Some(h) ==> bcrypt_verdict(password@, h@) == Some(true) && h@.len() > 0 && h@[0] == '$'),
{
    bcrypt::non_truncating_hash(password, cost).ok()
}

/// Relies on bcrypt's `non_truncating_verify`, which recomputes the hash with
/// the stored salt and compares in constant time.
#[verifier::external_body]
fn bcrypt_verify(password: &str, hash: &str) -> (r: Option<bool>)
    ensures
        r == bcrypt_verdict(password@, hash@),
{
    bcrypt::non_truncating_verify(password, hash).ok()
}

/// The text inside a key: `<member id>_<base64 of the material>`.
pub open spec fn key_payload(member_id: int, material: Seq<u8>) -> Seq<char> {
    decimal_text(member_id) + seq!['_'] + base64_text(material)
}

/// The key issued to `member_id` for the given random material.
pub open spec fn api_key_text(member_id: int, material: Seq<u8>) -> Seq<char> {
    base64_text(encode_utf8(key_payload(member_id, material)))
}

/// `k` is the position of the first `'_'` in `text`.
pub open spec fn is_first_separator(text: Seq<char>, k: int) -> bool {
    &&& 0 <= k < text.len()
    &&& text[k] == '_'
    &&& forall|j: int| 0 <= j < k ==> text[j] != '_'
}

/// The member id named by the text inside a key: the part before the first
/// `'_'`, parsed as an `i32`.
pub open spec fn member_id_in_text(text: Seq<char>) -> Option<i32> {
    if exists|k: int| is_first_separator(text, k) {
        let k = choose|k: int| is_first_separator(text, k);
        parse_i32_spec(text.subrange(0, k))
    } else {
        None
    }
}

/// The member id named by a presented key: `None` unless the key is base64
/// of UTF-8 text whose part before the first `'_'` is an `i32`.
pub open spec fn member_id_of_key(key: Seq<char>) -> Option<i32> {
    if exists|b: Seq<u8>| base64_text(b) == key {
        let b = choose|b: Seq<u8>| base64_text(b) == key;
        if valid_utf8(b) {
            member_id_in_text(decode_utf8(b))
        } else {
            None
        }
    } else {
        None
    }
}

proof fn lemma_first_separator_unique(text: Seq<char>, k1: int, k2: int)
    requires
        is_first_separator(text, k1),
        is_first_separator(text, k2),
    ensures
        k1 == k2,
{
}

/// The member id named by the text inside a key.
pub fn member_id_in_payload(text: &str) -> (r: Option<i32>)
    ensures
        r == member_id_in_text(text@),
{
    let n = text.unicode_len();
    let mut k: usize = 0;
    while k < n
        invariant
            n == text@.len(),
            k <= n,
            forall|j: int| 0 <= j < k ==> text@[j] != '_',
        decreases n - k,
    {
        if text.get_char(k) == '_' {
            proof {
                assert(is_first_separator(text@, k as int));
                let c = choose|c: int| is_first_separator(text@, c);
                lemma_first_separator_unique(text@, k as int, c);
            }
            return parse_i32_range(text, 0, k);
        }
        k = k + 1;
    }
    proof {
        assert(!exists|c: int| is_first_separator(text@, c));
    }
    None
}

/// The member id named by a presented key, as the first step of verification.
/// A key that does not decode names no member.
pub fn api_key_member_id(api_key: &str) -> (r: Option<i32>)
    ensures
        r == member_id_of_key(api_key@),
{
    match decode_base64(api_key) {
        Some(bytes) => {
            let ghost b = bytes@;
            proof {
                let c = choose|c: Seq<u8>| base64_text(c) == api_key@;
                assert(base64_text(c) == api_key@);
                assert(c == b);
            }
            match string_from_utf8(bytes) {
                Some(text) => member_id_in_payload(text.as_str()),
                None => None,
            }
        },
        None => {
            proof {
                assert(!exists|c: Seq<u8>| base64_text(c) == api_key@);
            }
            None
        },
    }
}

/// Whether a presented key matches the hash stored for the member it names.
/// No stored hash, or an error inside bcrypt, gives `false`.
pub fn api_key_matches(api_key: &str, stored_hash: Option<&str>) -> (r: bool)
    ensures
        r == (stored_hash matches Some(h) && bcrypt_verdict(api_key@, h@) == Some(true)),
{
    match stored_hash {
        Some(h) => match bcrypt_verify(api_key, h) {
            Some(ok) => ok,
            None => false,
        },
        None => false,
    }
}

proof fn lemma_encode_utf8_concat(a: Seq<char>, b: Seq<char>)
    ensures
        encode_utf8(a + b) == encode_utf8(a) + encode_utf8(b),
    decreases a.len(),
{
    if a.len() == 0 {
        assert(a + b =~= b);
        assert(encode_utf8(a) + encode_utf8(b) =~= encode_utf8(b));
    } else {
        assert((a + b).drop_first() =~= a.drop_first() + b);
        assert((a + b)[0] == a[0]);
        lemma_encode_utf8_concat(a.drop_first(), b);
        assert(encode_scalar(a[0] as u32) + (encode_utf8(a.drop_first()) + encode_utf8(b))
            =~= (encode_scalar(a[0] as u32) + encode_utf8(a.drop_first())) + encode_utf8(b));
    }
}

/// The UTF-8 bytes of a member id's decimal text are its ASCII bytes.
proof fn lemma_decimal_utf8(n: i32)
    ensures
        encode_utf8(decimal_text(n as int)) == decimal_bytes(n as int),
{
    let t = decimal_text(n as int);
    lemma_decimal_round_trip(n);
    assert(is_ascii_chars(t)) by {
        assert forall|i: int| 0 <= i < t.len() implies '\0' <= #[trigger] t[i] <= '\u{7f}' by {
            if t[i] != '-' {
                assert(is_digit(t[i]));
            }
        }
    }
    is_ascii_chars_encode_utf8(t);
    assert(encode_utf8(t) =~= decimal_bytes(n as int));
}

/// The text inside a key names the member it was made for.
proof fn lemma_payload_names_member(member_id: i32, inner: Seq<char>)
    ensures
        member_id_in_text(decimal_text(member_id as int) + seq!['_'] + inner) == Some(member_id),
{
    let d = decimal_text(member_id as int);
    let text = d + seq!['_'] + inner;
    lemma_decimal_round_trip(member_id);
    let k = d.len() as int;
    assert(text[k] == '_');
    assert forall|j: int| 0 <= j < k implies text[j] != '_' by {
        assert(text[j] == d[j]);
        if d[j] != '-' {
            assert(is_digit(d[j]));
        }
    }
    assert(is_first_separator(text, k));
    let c = choose|c: int| is_first_separator(text, c);
    lemma_first_separator_unique(text, k, c);
    assert(text.subrange(0, k) =~= d);
}

proof fn lemma_url_safe_is_ascii(s: Seq<char>)
    requires
        is_url_safe(s),
    ensures
        is_ascii_chars(s),
{
    assert forall|i: int| 0 <= i < s.len() implies '\0' <= #[trigger] s[i] <= '\u{7f}' by {
        assert(is_url_safe_char(s[i]));
    }
}

/// The key for `member_id` made from the given random material; decoding it
/// names `member_id` again.
pub fn api_key_from_material(member_id: i32, material: &[u8]) -> (r: String)
    ensures
        r@ == api_key_text(member_id as int, material@),
        member_id_of_key(r@) == Some(member_id),
        is_url_safe(r@),
        base64_text(material@).len() == base64_len(material@.len() as int),
        r@.len() == base64_len(decimal_text(member_id as int).len() + 1 + base64_len(material@.len() as int)),
{
    let inner = encode_base64(material);
    let inner_bytes = inner.as_str().as_bytes();
    let mut payload = decimal_of(member_id);
    payload.push(95u8);
    let ghost head = payload@;
    let mut i: usize = 0;
    while i < inner_bytes.len()
        invariant
            0 <= i <= inner_bytes@.len(),
            payload@ == head + inner_bytes@.subrange(0, i as int),
        decreases inner_bytes@.len() - i,
    {
        payload.push(inner_bytes[i]);
        i = i + 1;
        proof {
            assert(payload@ =~= head + inner_bytes@.subrange(0, i as int));
        }
    }
    let ghost text = key_payload(member_id as int, material@);
    proof {
        assert(inner_bytes@.subrange(0, i as int) =~= inner_bytes@);
        lemma_decimal_utf8(member_id);
        let d = decimal_text(member_id as int);
        lemma_encode_utf8_concat(d, seq!['_']);
        lemma_encode_utf8_concat(d + seq!['_'], inner@);
        is_ascii_chars_encode_utf8(seq!['_']);
        assert(encode_utf8(seq!['_']) =~= seq![95u8]);
        assert(payload@ =~= encode_utf8(text));
    }
    proof {
        lemma_url_safe_is_ascii(inner@);
        is_ascii_chars_encode_utf8(inner@);
        assert(payload@.len() == decimal_text(member_id as int).len() + 1 + inner@.len());
    }
    let key = encode_base64(payload.as_slice());
    proof {
        let b = encode_utf8(text);
        assert(base64_text(b) == key@);
        let c = choose|c: Seq<u8>| base64_text(c) == key@;
        assert(c == b);
        encode_utf8_valid_utf8(text);
        encode_utf8_decode_utf8(text);
        lemma_payload_names_member(member_id, inner@);
    }
    key
}

/// A fresh key for `member_id`, from 32 random bytes, whose text inside
/// carries them in 43 characters. `None` where the operating system gives no
/// randomness.
pub fn generate_api_key(member_id: i32) -> (r: Option<String>)
    ensures
        (r matches Some(k) ==> {
            &&& exists|m: Seq<u8>| {
                &&& m.len() == KEY_MATERIAL_LEN
                &&& k@ == api_key_text(member_id as int, m)
                &&& #[trigger] base64_text(m).len() == 43
            }
            &&& member_id_of_key(k@) == Some(member_id)
            &&& is_url_safe(k@)
        }),
{
    match random_key_material() {
        Some(material) => Some(api_key_from_material(member_id, material.as_slice())),
        None => None,
    }
}

/// The bcrypt hash of a key, at the given cost. `None` where bcrypt refuses
/// the cost or fails to draw a salt.
pub fn hash_api_key_with_cost(api_key: &str, cost: u32) -> (r: Option<String>)
    ensures
        !(4 <= cost <= 31) ==> r is None,
        encode_utf8(api_key@).len() >= 72 ==> r is None,
        (r matches Some(h) ==> bcrypt_verdict(api_key@, h@) == Some(true) && h@.len() > 0 && h@[0] == '$'),
{
    bcrypt_hash(api_key, cost)
}

/// The bcrypt hash of a key, at the cost keys are stored with.
pub fn hash_api_key(api_key: &str) -> (r: Option<String>)
    ensures
        encode_utf8(api_key@).len() >= 72 ==> r is None,
        (r matches Some(h) ==> bcrypt_verdict(api_key@, h@) == Some(true) && h@.len() > 0 && h@[0] == '$'),
{
    bcrypt_hash(api_key, KEY_HASH_COST)
}

/// A key handed out once, and the hash under which it is stored.
pub struct IssuedKey {
    pub key: String,
    pub hash: String,
}

/// Makes the key for `member_id` from `material` and hashes it at `cost`.
/// The key is URL-safe, names `member_id` and matches its own hash, which
/// differs from the key. A key of 72 characters or more is not issued;
/// otherwise `None` only where bcrypt fails.
pub fn issue_api_key_from_material(member_id: i32, material: &[u8], cost: u32) -> (r: Option<IssuedKey>)
    ensures
        !(4 <= cost <= 31) ==> r is None,
        api_key_text(member_id as int, material@).len() >= 72 ==> r is None,
        base64_text(material@).len() == base64_len(material@.len() as int),
        (r matches Some(k) ==> {
            &&& k.key@ == api_key_text(member_id as int, material@)
            &&& member_id_of_key(k.key@) == Some(member_id)
            &&& bcrypt_verdict(k.key@, k.hash@) == Some(true)
            &&& is_url_safe(k.key@)
            &&& k.hash@ != k.key@
        }),
{
    let key = api_key_from_material(member_id, material);
    proof {
        lemma_url_safe_is_ascii(key@);
        is_ascii_chars_encode_utf8(key@);
    }
    match hash_api_key_with_cost(key.as_str(), cost) {
        Some(hash) => {
            proof {
                if hash@ == key@ {
                    assert(is_url_safe_char(key@[0]));
                }
            }
            Some(IssuedKey { key, hash })
        },
        None => None,
    }
}

/// Issues a fresh key for `member_id`: 32 random bytes of material, carried
/// in 43 characters, hashed at the stored cost. The key is URL-safe, names
/// `member_id` and matches its own hash, which differs from the key.
pub fn issue_api_key(member_id: i32) -> (r: Option<IssuedKey>)
    ensures
        (r matches Some(k) ==> {
            &&& exists|m: Seq<u8>| {
                &&& m.len() == KEY_MATERIAL_LEN
                &&& k.key@ == api_key_text(member_id as int, m)
                &&& #[trigger] base64_text(m).len() == 43
            }
            &&& member_id_of_key(k.key@) == Some(member_id)
            &&& bcrypt_verdict(k.key@, k.hash@) == Some(true)
            &&& is_url_safe(k.key@)
            &&& k.hash@ != k.key@
        }),
{
    let material = match random_key_material() {
        Some(m) => m,
        None => return None,
    };
    let ghost m = material@;
    let r = issue_api_key_from_material(member_id, material.as_slice(), KEY_HASH_COST);
    proof {
        assert(base64_text(m).len() == 43);
    }
    r
}

/// The ways issuing a key can fail.
#[derive(Clone, Copy, Debug, PartialEq, Eq, Structural)]
pub enum KeyError {
    /// The request lacks what it needs (no bearer token).
    Validation,
    /// The identity provider rejected the token.
    Auth,
    /// The store could not be written or read.
    Storage,
    /// The identity provider could not be reached, or hashing failed.
    Upstream,
}

/// `c` is `lower` up to ASCII case.
pub open spec fn ascii_ci_eq(c: char, lower: char) -> bool {
    c == lower || ('a' <= lower <= 'z' && c as u32 + 32 == lower as u32)
}

/// The scheme word that opens an `Authorization` header carrying a bearer token.
pub open spec fn bearer_prefix() -> Seq<char> {
    seq!['b', 'e', 'a', 'r', 'e', 'r', ' ']
}

/// The token of an `Authorization` header value: what follows a leading
/// `"bearer "`, in any ASCII case.
pub open spec fn bearer_token_of(value: Seq<char>) -> Option<Seq<char>> {
    if value.len() >= 7 && forall|i: int| 0 <= i < 7 ==> ascii_ci_eq(#[trigger] value[i], bearer_prefix()[i]) {
        Some(value.subrange(7, value.len() as int))
    } else {
        None
    }
}

fn ascii_ci_eq_exec(c: char, lower: char) -> (r: bool)
    ensures
        r == ascii_ci_eq(c, lower),
{
    c == lower || ('a' <= lower && lower <= 'z' && (c as u32) + 32 == (lower as u32))
}

/// The bearer token carried by an `Authorization` header value.
pub fn bearer_token(value: &str) -> (r: Option<String>)
    ensures
        (r matches Some(t) ==> bearer_token_of(value@) == Some(t@)),
        (r is None ==> bearer_token_of(value@) is None),
{
    let n = value.unicode_len();
    if n < 7 {
        return None;
    }
    let prefix = ['b', 'e', 'a', 'r', 'e', 'r', ' '];
    proof {
        assert(prefix@ =~= bearer_prefix());
    }
    let mut i: usize = 0;
    while i < 7
        invariant
            i <= 7,
            n == value@.len(),
            n >= 7,
            prefix@ == bearer_prefix(),
            forall|j: int| 0 <= j < i ==> ascii_ci_eq(#[trigger] value@[j], bearer_prefix()[j]),
        decreases 7 - i,
    {
        if !ascii_ci_eq_exec(value.get_char(i), prefix[i]) {
            return None;
        }
        i = i + 1;
    }
    let rest = value.substring_char(7, n);
    Some(rest.to_owned())
}

/// The outcome of checking an identity token with the provider: accepted,
/// rejected, or no answer. Anything but an acceptance denies issuance.
pub fn identity_verdict(check: Option<bool>) -> (r: Result<(), KeyError>)
    ensures
        r == match check {
            Some(true) => Ok(()),
            Some(false) => Err(KeyError::Auth),
            None => Err(KeyError::Upstream),
        },
{
    match check {
        Some(true) => Ok(()),
        Some(false) => Err(KeyError::Auth),
        None => Err(KeyError::Upstream),
    }
}

/// Whether `key` passes verification against a credential table that maps
/// member ids to stored hashes: the key must name a member, that member must
/// have a stored hash, and bcrypt must accept the key against it. This is
/// what `api_key_member_id`, a lookup of the member's hash, and
/// `api_key_matches` compute in turn.
pub open spec fn key_verifies(stored: Map<i32, Seq<char>>, key: Seq<char>) -> bool {
    match member_id_of_key(key) {
        Some(id) => stored.contains_key(id) && bcrypt_verdict(key, stored[id]) == Some(true),
        None => false,
    }
}

/// A key issued for `member_id`, stored under it with its hash (replacing
/// whatever that member had), passes verification.
pub proof fn lemma_issued_key_verifies(
    stored: Map<i32, Seq<char>>,
    member_id: i32,
    key: Seq<char>,
    hash: Seq<char>,
)
    requires
        member_id_of_key(key) == Some(member_id),
        bcrypt_verdict(key, hash) == Some(true),
    ensures
        key_verifies(stored.insert(member_id, hash), key),
{
}

/// A key fails verification when it names no member, or a member without a
/// stored credential.
pub proof fn lemma_unknown_key_fails(stored: Map<i32, Seq<char>>, key: Seq<char>)
    requires
        match member_id_of_key(key) {
            Some(id) => !stored.contains_key(id),
            None => true,
        },
    ensures
        !key_verifies(stored, key),
{
}

} // verus!
