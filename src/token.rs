//! The self-issued bearer token: a credential `id.secret`, and a compact
//! token `header.payload.signature` whose signature is HMAC-SHA256 over the
//! first two segments, keyed by the secret.
use vstd::prelude::*;
use vstd::utf8::encode_utf8;
use hmac::Mac;
use crate::text::{
    chars_of, string_of, trim, trimmed, split_char, split_on, push_all, same_chars, lacks,
    is_space, trim_start, lemma_split_join, lemma_split_single, lemma_trim_spaceless,
    lemma_trim_end_shape, lemma_split_several, lemma_trim_keeps_pieces, lemma_count_concat,
    lemma_count_found, lemma_count_single, lemma_split_count, lemma_trim_start_shape,
};

verus! {


/// The HMAC-SHA256 tag of `msg` under `key`.
pub uninterp spec fn hmac_sha256_of(key: Seq<u8>, msg: Seq<u8>) -> Seq<u8>;

/// A character of the URL-safe base64 alphabet.
pub open spec fn url_safe(c: char) -> bool {
    let n = c as u32;
    (65 <= n <= 90) || (97 <= n <= 122) || (48 <= n <= 57) || n == 45 || n == 95
}

/// Text made of the URL-safe base64 alphabet only.
pub open spec fn url_safe_text(s: Seq<char>) -> bool {
    forall|i: int| 0 <= i < s.len() ==> url_safe(#[trigger] s[i])
}

/// The URL-safe base64 character for a six-bit value `i`.
pub open spec fn b64_char(i: int) -> char {
    if i < 26 {
        ((65 + i) as u8) as char
    } else if i < 52 {
        ((71 + i) as u8) as char
    } else if i < 62 {
        ((i - 4) as u8) as char
    } else if i == 62 {
        '-'
    } else {
        '_'
    }
}

/// Base64 of `data` with the URL-safe alphabet and no padding: each three
/// bytes become four characters, a final one or two bytes two or three.
pub open spec fn base64url_of(data: Seq<u8>) -> Seq<char>
    decreases data.len(),
{
    if data.len() == 0 {
        seq![]
    } else {
        let a = data[0] as int;
        if data.len() == 1 {
            seq![b64_char(a / 4), b64_char((a % 4) * 16)]
        } else {
            let b = data[1] as int;
            if data.len() == 2 {
                seq![b64_char(a / 4), b64_char((a % 4) * 16 + b / 16), b64_char((b % 16) * 4)]
            } else {
                let c = data[2] as int;
                seq![
                    b64_char(a / 4),
                    b64_char((a % 4) * 16 + b / 16),
                    b64_char((b % 16) * 4 + c / 64),
                    b64_char(c % 64),
                ] + base64url_of(data.subrange(3, data.len() as int))
            }
        }
    }
}

proof fn lemma_b64_char_safe(i: int)
    requires
        0 <= i < 64,
    ensures
        url_safe(b64_char(i)),
{
}

/// Base64url text is made of the URL-safe alphabet only.
pub proof fn lemma_base64url_safe(data: Seq<u8>)
    ensures
        url_safe_text(base64url_of(data)),
    decreases data.len(),
{
    if data.len() > 0 {
        let a = data[0] as int;
        lemma_b64_char_safe(a / 4);
        lemma_b64_char_safe((a % 4) * 16);
        if data.len() >= 2 {
            let b = data[1] as int;
            lemma_b64_char_safe((a % 4) * 16 + b / 16);
            lemma_b64_char_safe((b % 16) * 4);
            if data.len() >= 3 {
                let c = data[2] as int;
                lemma_b64_char_safe((b % 16) * 4 + c / 64);
                lemma_b64_char_safe(c % 64);
                let rest = data.subrange(3, data.len() as int);
                lemma_base64url_safe(rest);
                let head = seq![
                    b64_char(a / 4),
                    b64_char((a % 4) * 16 + b / 16),
                    b64_char((b % 16) * 4 + c / 64),
                    b64_char(c % 64),
                ];
                assert forall|i: int| 0 <= i < (head + base64url_of(rest)).len() implies url_safe(
                    #[trigger] (head + base64url_of(rest))[i],
                ) by {
                    if i >= 4 {
                        assert((head + base64url_of(rest))[i] == base64url_of(rest)[i - 4]);
                    }
                }
            }
        }
    }
}

/// Relies on `base64url::encode`: the base64 engine with the URL-safe
/// alphabet and no padding.
#[verifier::external_body]
fn encode_base64_url(data: &[u8]) -> (r: String)
    ensures
        r@ == base64url_of(data@),
{
    base64url::encode(data)
}

/// Relies on `hmac::Hmac::<sha2::Sha256>`: `new_from_slice` takes a key of
/// any length, then `update` and `finalize` give the 32-byte tag.
#[verifier::external_body]
fn hmac_sha256(key: &[u8], msg: &[u8]) -> (r: Vec<u8>)
    ensures
        r@ == hmac_sha256_of(key@, msg@),
{
    let mut mac = <hmac::Hmac<sha2::Sha256> as Mac>::new_from_slice(key).unwrap();
    mac.update(msg);
    mac.finalize().into_bytes().to_vec()
}

/// The digit character of `d`, for `0 <= d < 10`.
pub open spec fn digit_char(d: int) -> char {
    ((48 + d) as u8) as char
}

/// The decimal digits of `n`, without leading zeros.
pub open spec fn digits_of(n: nat) -> Seq<char>
    decreases n,
{
    if n < 10 {
        seq![digit_char(n as int)]
    } else {
        digits_of(n / 10) + seq![digit_char((n % 10) as int)]
    }
}

/// `n` written in decimal, with a minus sign when negative.
pub open spec fn decimal(n: int) -> Seq<char> {
    if n < 0 {
        seq!['-'] + digits_of((-n) as nat)
    } else {
        digits_of(n as nat)
    }
}

fn digits(m: u128) -> (r: Vec<char>)
    ensures
        r@ == digits_of(m as nat),
{
    let mut r: Vec<char> = Vec::new();
    let mut k: u128 = m;
    assert(digits_of(m as nat) =~= digits_of(k as nat) + r@);
    while k >= 10
        invariant
            digits_of(m as nat) == digits_of(k as nat) + r@,
        decreases k,
    {
        let d = ((k % 10) as u8 + 48u8) as char;
        let ghost old_r = r@;
        r.insert(0, d);
        assert(digits_of(k as nat) == digits_of((k / 10) as nat) + seq![digit_char((k % 10) as int)]);
        assert(digits_of(m as nat) =~= digits_of((k / 10) as nat) + r@);
        k = k / 10;
    }
    let d = (k as u8 + 48u8) as char;
    r.insert(0, d);
    assert(digits_of(m as nat) =~= r@);
    r
}

/// Writes `n` in decimal.
pub fn decimal_text(n: i128) -> (r: Vec<char>)
    requires
        n > i128::MIN,
    ensures
        r@ == decimal(n as int),
{
    if n < 0 {
        let mut r: Vec<char> = vec!['-'];
        let d = digits((-n) as u128);
        push_all(&mut r, &d);
        assert(r@ =~= seq!['-'] + digits_of((-n) as nat));
        r
    } else {
        digits(n as u128)
    }
}

/// An API key `id.secret`, split into its two parts.
pub struct APIKeys {
    user_id: String,
    user_secret: String,
}

/// The parts of an API key: the trimmed text holds exactly one `.` and a
/// non-empty secret after it.
pub open spec fn key_parts(api: Seq<char>) -> Option<(Seq<char>, Seq<char>)> {
    let parts = split_on(trimmed(api), '.');
    if parts.len() == 2 && parts[1].len() > 0 {
        Some((parts[0], parts[1]))
    } else {
        None
    }
}

impl View for APIKeys {
    type V = (Seq<char>, Seq<char>);

    closed spec fn view(&self) -> (Seq<char>, Seq<char>) {
        (self.user_id@, self.user_secret@)
    }
}

impl APIKeys {
    /// Parses an API key; `None` where it is not `id.secret` with a
    /// non-empty secret.
    pub fn get_instance(api: &str) -> (r: Option<APIKeys>)
        ensures
            match r {
                Some(k) => key_parts(api@) == Some(k@),
                None => key_parts(api@) is None,
            },
    {
        let t = trim(&chars_of(api));
        let parts = split_char(&t, '.');
        if parts.len() != 2 || parts[1].len() == 0 {
            return None;
        }
        let k = APIKeys { user_id: string_of(&parts[0]), user_secret: string_of(&parts[1]) };
        assert(k@ == (parts@[0]@, parts@[1]@));
        Some(k)
    }

    pub fn get_user_id(&self) -> (r: &str)
        ensures
            r@ == self@.0,
    {
        self.user_id.as_str()
    }

    pub fn get_user_secret(&self) -> (r: &str)
        ensures
            r@ == self@.1,
    {
        self.user_secret.as_str()
    }
}

/// The fixed token header.
pub open spec fn header_text() -> Seq<char> {
    "{\"alg\":\"HS256\",\"sign_type\":\"SIGN\"}"@
}

/// The token payload for `user_id` issued at `issued_at` milliseconds. The
/// expiry is three times the issue instant, as the remote service has it.
pub open spec fn payload_text(user_id: Seq<char>, issued_at: int) -> Seq<char> {
    "{\"api_key\":\""@ + user_id + "\",\"exp\":"@ + decimal(3 * issued_at) + ",\"timestamp\":"@
        + decimal(issued_at) + "}"@
}

/// A segment of text: the base64url form of its UTF-8 bytes.
pub open spec fn segment(s: Seq<char>) -> Seq<char> {
    base64url_of(encode_utf8(s))
}

/// The signature segment over `signed`, keyed by `secret`.
pub open spec fn signature_of(secret: Seq<char>, signed: Seq<char>) -> Seq<char> {
    base64url_of(hmac_sha256_of(encode_utf8(secret), encode_utf8(signed)))
}

/// Two segments joined by a dot.
pub open spec fn joined(a: Seq<char>, b: Seq<char>) -> Seq<char> {
    a + seq!['.'] + b
}

/// The token for `header` and `payload` under `secret`.
pub open spec fn token_text(secret: Seq<char>, header: Seq<char>, payload: Seq<char>) -> Seq<char> {
    let signed = joined(segment(header), segment(payload));
    joined(signed, signature_of(secret, signed))
}

/// A token verifies under `secret`: trimmed, it splits at dots into exactly
/// three parts, and the third is the signature over the first two.
pub open spec fn token_valid(secret: Seq<char>, token: Seq<char>) -> bool {
    let parts = split_on(trimmed(token), '.');
    parts.len() == 3 && parts[2] == signature_of(secret, joined(parts[0], parts[1]))
}

/// Issues and verifies tokens for one credential.
pub struct CustomJwt {
    secret: String,
    header: String,
    payload: String,
}

/// The secret, header and payload a token is made from.
pub ghost struct JwtParts {
    pub secret: Seq<char>,
    pub header: Seq<char>,
    pub payload: Seq<char>,
}

impl View for CustomJwt {
    type V = JwtParts;

    closed spec fn view(&self) -> JwtParts {
        JwtParts { secret: self.secret@, header: self.header@, payload: self.payload@ }
    }
}

proof fn lemma_safe_no_space(s: Seq<char>)
    requires
        url_safe_text(s),
    ensures
        lacks(s, '.'),
        forall|i: int| 0 <= i < s.len() ==> !is_space(#[trigger] s[i]),
{
    assert forall|i: int| 0 <= i < s.len() implies s[i] != '.' && !is_space(#[trigger] s[i]) by {
        assert(url_safe(s[i]));
    }
}

/// A token whose third segment is the signature over the first two
/// verifies, where all three are base64url text.
pub proof fn lemma_token_round_trip(secret: Seq<char>, head: Seq<char>, body: Seq<char>)
    requires
        url_safe_text(head),
        url_safe_text(body),
        url_safe_text(signature_of(secret, joined(head, body))),
    ensures
        token_valid(secret, joined(joined(head, body), signature_of(secret, joined(head, body)))),
{
    let sig = signature_of(secret, joined(head, body));
    let t = joined(joined(head, body), sig);
    lemma_safe_no_space(head);
    lemma_safe_no_space(body);
    lemma_safe_no_space(sig);
    assert forall|i: int| 0 <= i < t.len() implies !is_space(#[trigger] t[i]) by {
        if i < head.len() {
            assert(t[i] == head[i]);
        } else if i == head.len() {
            assert(t[i] == '.');
        } else if i < head.len() + 1 + body.len() {
            assert(t[i] == body[i - head.len() - 1]);
        } else if i == head.len() + 1 + body.len() {
            assert(t[i] == '.');
        } else {
            assert(t[i] == sig[i - head.len() - 2 - body.len()]);
        }
    }
    lemma_trim_spaceless(t);
    assert(t =~= head + seq!['.'] + (body + seq!['.'] + sig));
    lemma_split_join(head, body + seq!['.'] + sig, '.');
    lemma_split_join(body, sig, '.');
    lemma_split_single(sig, '.');
    assert(split_on(t, '.') =~= seq![head, body, sig]);
}

/// Changing the signature segment of a token to any other text of the
/// same length (a flipped character, a dot or white space included) makes
/// it fail to verify.
pub proof fn lemma_signature_tamper(
    secret: Seq<char>,
    head: Seq<char>,
    body: Seq<char>,
    forged: Seq<char>,
)
    requires
        url_safe_text(head),
        url_safe_text(body),
        forged.len() == signature_of(secret, joined(head, body)).len(),
        forged != signature_of(secret, joined(head, body)),
    ensures
        !token_valid(secret, joined(joined(head, body), forged)),
{
    let t = joined(joined(head, body), forged);
    let l = head.len() + body.len() + 2;
    lemma_safe_no_space(head);
    lemma_safe_no_space(body);
    assert(!is_space(t[0])) by {
        if head.len() > 0 {
            assert(t[0] == head[0]);
        } else {
            assert(t[0] == '.');
        }
    }
    assert(trim_start(t) == t);
    let k = lemma_trim_end_shape(t);
    assert(t[l - 1] == '.');
    assert(k >= l);
    let m = k - l;
    let fm = forged.subrange(0, m);
    assert(trimmed(t) =~= head + seq!['.'] + (body + seq!['.'] + fm));
    lemma_split_join(head, body + seq!['.'] + fm, '.');
    lemma_split_join(body, fm, '.');
    if lacks(fm, '.') {
        lemma_split_single(fm, '.');
        assert(split_on(trimmed(t), '.') =~= seq![head, body, fm]);
        if fm == signature_of(secret, joined(head, body)) {
            assert(fm =~= forged);
        }
    } else {
        lemma_split_several(fm, '.');
    }
}

/// Changing characters of the header or payload segment of a token, keeping
/// each segment's length and the signature, makes it fail to verify,
/// whatever characters come in (dots and white space included). HMAC-SHA256
/// collisions are assumed away: no other signed text has the same signature.
pub proof fn lemma_segment_tamper(
    secret: Seq<char>,
    head: Seq<char>,
    body: Seq<char>,
    new_head: Seq<char>,
    new_body: Seq<char>,
)
    requires
        url_safe_text(signature_of(secret, joined(head, body))),
        new_head.len() == head.len(),
        new_body.len() == body.len(),
        new_head != head || new_body != body,
        forall|m: Seq<char>|
            #[trigger] signature_of(secret, m) == signature_of(secret, joined(head, body)) ==> m
                == joined(head, body),
    ensures
        !token_valid(
            secret,
            joined(joined(new_head, new_body), signature_of(secret, joined(head, body))),
        ),
{
    let sig = signature_of(secret, joined(head, body));
    let t = joined(joined(new_head, new_body), sig);
    let hl = new_head.len() as int;
    lemma_safe_no_space(sig);
    if !lacks(new_head, '.') || !lacks(new_body, '.') {
        lemma_trim_keeps_pieces(t, '.');
        lemma_count_concat(new_head, seq!['.'], '.');
        lemma_count_concat(new_head + seq!['.'], new_body, '.');
        lemma_count_concat(new_head + seq!['.'] + new_body, seq!['.'], '.');
        lemma_count_concat(new_head + seq!['.'] + new_body + seq!['.'], sig, '.');
        lemma_count_single('.');
        if !lacks(new_head, '.') {
            lemma_count_found(new_head, '.');
        } else {
            lemma_count_found(new_body, '.');
        }
        lemma_split_count(t, '.');
    } else {
        let k = lemma_trim_start_shape(t);
        assert(t[hl] == '.');
        assert(k <= hl);
        let u = t.subrange(k, t.len() as int);
        assert(!is_space(u.last())) by {
            if sig.len() > 0 {
                assert(u.last() == sig.last());
            } else {
                assert(u.last() == '.');
            }
        }
        assert(trimmed(t) == u);
        let h2 = new_head.subrange(k, hl);
        assert(u =~= h2 + seq!['.'] + (new_body + seq!['.'] + sig));
        assert(lacks(h2, '.')) by {
            assert forall|i: int| 0 <= i < h2.len() implies h2[i] != '.' by {
                assert(h2[i] == new_head[k + i]);
            }
        }
        lemma_split_join(h2, new_body + seq!['.'] + sig, '.');
        lemma_split_join(new_body, sig, '.');
        lemma_split_single(sig, '.');
        assert(split_on(u, '.') =~= seq![h2, new_body, sig]);
        if token_valid(secret, t) {
            assert(signature_of(secret, joined(h2, new_body)) == sig);
            assert(joined(h2, new_body) == joined(head, body));
            assert(joined(h2, new_body).len() == joined(head, body).len());
            assert(k == 0);
            assert(h2 =~= new_head);
            assert(new_head =~= joined(head, body).subrange(0, hl));
            assert(new_body =~= joined(head, body).subrange(hl + 1, hl + 1 + new_body.len()));
            assert(head =~= joined(head, body).subrange(0, hl));
            assert(body =~= joined(head, body).subrange(hl + 1, hl + 1 + new_body.len()));
        }
    }
}

/// A string that does not split at dots into exactly three parts never
/// verifies.
pub proof fn lemma_malformed_rejected(secret: Seq<char>, token: Seq<char>)
    requires
        split_on(token, '.').len() != 3,
    ensures
        !token_valid(secret, token),
{
    lemma_trim_keeps_pieces(token, '.');
}

impl CustomJwt {
    /// A token issuer for `user_id` and `user_secret`, with the payload
    /// stamped at `issued_at` milliseconds.
    pub fn new(user_id: &str, user_secret: &str, issued_at: i64) -> (r: CustomJwt)
        ensures
            r@.secret == user_secret@,
            r@.header == header_text(),
            r@.payload == payload_text(user_id@, issued_at as int),
    {
        let header = string_of(&chars_of("{\"alg\":\"HS256\",\"sign_type\":\"SIGN\"}"));
        let payload = Self::jwt_payload(user_id, issued_at);
        CustomJwt { secret: string_of(&chars_of(user_secret)), header, payload }
    }

    /// The payload text for `user_id` issued at `issued_at`.
    pub fn jwt_payload(user_id: &str, issued_at: i64) -> (r: String)
        ensures
            r@ == payload_text(user_id@, issued_at as int),
    {
        let mut p = chars_of("{\"api_key\":\"");
        push_all(&mut p, &chars_of(user_id));
        push_all(&mut p, &chars_of("\",\"exp\":"));
        push_all(&mut p, &decimal_text((issued_at as i128) * 3));
        push_all(&mut p, &chars_of(",\"timestamp\":"));
        push_all(&mut p, &decimal_text(issued_at as i128));
        push_all(&mut p, &chars_of("}"));
        string_of(&p)
    }

    /// The signature segment over `data`.
    fn generate_signature(&self, data: &[char]) -> (r: Vec<char>)
        ensures
            r@ == signature_of(self@.secret, data@),
            url_safe_text(r@),
    {
        let signed = string_of(data);
        let tag = hmac_sha256(self.secret.as_str().as_bytes(), signed.as_str().as_bytes());
        let s = encode_base64_url(tag.as_slice());
        proof {
            lemma_base64url_safe(tag@);
        }
        chars_of(s.as_str())
    }

    /// Issues the token `header.payload.signature`. It verifies under this
    /// issuer's secret.
    pub fn create_jwt(&self) -> (r: String)
        ensures
            r@ == token_text(self@.secret, self@.header, self@.payload),
            token_valid(self@.secret, r@),
            url_safe_text(segment(self@.header)),
            url_safe_text(segment(self@.payload)),
            url_safe_text(
                signature_of(self@.secret, joined(segment(self@.header), segment(self@.payload))),
            ),
    {
        let h = encode_base64_url(self.header.as_str().as_bytes());
        let p = encode_base64_url(self.payload.as_str().as_bytes());
        proof {
            lemma_base64url_safe(encode_utf8(self@.header));
            lemma_base64url_safe(encode_utf8(self@.payload));
        }
        let mut to_sign = chars_of(h.as_str());
        to_sign.push('.');
        push_all(&mut to_sign, &chars_of(p.as_str()));
        assert(to_sign@ =~= joined(h@, p@));
        let sig = self.generate_signature(&to_sign);
        let mut token = to_sign;
        token.push('.');
        push_all(&mut token, &sig);
        assert(token@ =~= joined(joined(h@, p@), sig@));
        assert(h@ == segment(self@.header));
        assert(p@ == segment(self@.payload));
        proof {
            lemma_token_round_trip(self@.secret, h@, p@);
        }
        string_of(&token)
    }

    /// Whether `jwt` verifies under this issuer's secret.
    pub fn verify_jwt(&self, jwt: &str) -> (r: bool)
        ensures
            r == token_valid(self@.secret, jwt@),
    {
        let t = trim(&chars_of(jwt));
        let parts = split_char(&t, '.');
        if parts.len() != 3 {
            return false;
        }
        let mut to_verify: Vec<char> = Vec::new();
        push_all(&mut to_verify, &parts[0]);
        to_verify.push('.');
        push_all(&mut to_verify, &parts[1]);
        let sig = self.generate_signature(&to_verify);
        assert(to_verify@ == joined(parts@[0]@, parts@[1]@));
        same_chars(&sig, &parts[2])
    }
}

} // verus!
