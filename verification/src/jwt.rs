use vstd::prelude::*;

use crate::claims::Claims;
use crate::claims::ClaimsView;
use crate::payload::encode_payload;
use crate::payload::parse_payload;
use crate::payload::payload_of;
use crate::payload::eat_lit;
use crate::payload::lemma_tail_join;
use crate::payload::tail;
use vstd::string::StrSliceExecFns;
use vstd::string::StringExecFns;

verus! {

/// What HMAC-SHA256 followed by the signature rendering returns for
/// a message under a key. The result stands for an outside
/// computation; it is a function of the two texts alone.
pub uninterp spec fn mac_of(message: Seq<char>, key: Seq<char>) -> Seq<char>;

/// Relies on `jsonwebtoken::crypto::sign` with HS256: the rendered
/// HMAC-SHA256 tag of the message under the key. The rendering is
/// base64url, whose alphabet never holds a dot; signing with an
/// HMAC key cannot fail, so the unwrap cannot panic.
#[verifier::external_body]
fn hmac_sign(message: &str, key: &str) -> (r: String)
    ensures
        r@ == mac_of(message@, key@),
        forall|i: int| 0 <= i < r@.len() ==> r@[i] != '.',
{
    let k = jsonwebtoken::EncodingKey::from_secret(key.as_bytes());
    jsonwebtoken::crypto::sign(message.as_bytes(), &k, jsonwebtoken::Algorithm::HS256).unwrap()
}

/// Relies on `jsonwebtoken::crypto::verify` with HS256: recomputes
/// the tag and compares in constant time. Its base64url decoding is
/// strict, so it accepts exactly the rendering `crypto::sign`
/// returns; a signature that does not decode makes it answer false.
#[verifier::external_body]
fn hmac_verify(signature: &str, message: &str, key: &str) -> (r: bool)
    ensures
        r == (signature@ == mac_of(message@, key@)),
{
    let k = jsonwebtoken::DecodingKey::from_secret(key.as_bytes());
    jsonwebtoken::crypto::verify(signature, message.as_bytes(), &k, jsonwebtoken::Algorithm::HS256)
        .unwrap_or(false)
}

/// A text free of the part separator.
pub open spec fn dotless(s: Seq<char>) -> bool {
    forall|i: int| 0 <= i < s.len() ==> s[i] != '.'
}

/// The two parts a token's signature covers: the algorithm label
/// and the rendered claims.
pub open spec fn signing_input_of(c: ClaimsView) -> Seq<char> {
    "HS256."@ + payload_of(c)
}

/// The wire form of a signed token: signing input, a separating
/// dot, and the signature over the signing input.
pub open spec fn token_of(c: ClaimsView, key: Seq<char>) -> Seq<char> {
    signing_input_of(c) + seq!['.'] + mac_of(signing_input_of(c), key)
}

/// Whether a text is the signed token of the given claims under the
/// key. The signature rendering never holds a dot, which makes the
/// last dot of a genuine token the separator.
pub open spec fn token_match(t: Seq<char>, key: Seq<char>, c: ClaimsView) -> bool {
    t == token_of(c, key) && dotless(mac_of(signing_input_of(c), key))
}

/// Signs and checks tokens under one shared symmetric secret.
#[derive(Clone)]
pub struct JwtImpl {
    secret: String,
}

impl JwtImpl {
    /// The secret all contracts of this codec speak of.
    pub closed spec fn key(self) -> Seq<char> {
        self.secret@
    }

    /// A codec over the given secret. A missing secret is a startup
    /// misconfiguration, so an empty one is ruled out here.
    pub fn new(secret: String) -> (r: JwtImpl)
        requires
            secret@.len() > 0,
        ensures
            r.key() == secret@,
    {
        JwtImpl { secret }
    }

    /// Serializes and signs claims. The result is pinned down: it is
    /// `token_of` the claims under this codec's key.
    pub fn sign(&self, payload: &Claims) -> (r: String)
        requires
            payload@.wf(),
        ensures
            r@ == token_of(payload@, self.key()),
            token_match(r@, self.key(), payload@),
    {
        let mut si = String::from_str("HS256.");
        si.append(encode_payload(payload).as_str());
        proof {
            assert(si@ =~= signing_input_of(payload@));
        }
        let mac = hmac_sign(si.as_str(), self.secret.as_str());
        let mut r = si;
        r.push('.');
        r.append(mac.as_str());
        proof {
            assert(r@ =~= signing_input_of(payload@) + seq!['.'] + mac_of(
                signing_input_of(payload@),
                self.key(),
            ));
        }
        r
    }

    /// Parses a token whose signature is genuine, whatever its
    /// validity window says: sign-out needs the identifier of an
    /// already expired token. The signature is checked before any
    /// claim is read; exactly the texts matching some claims under
    /// this key are accepted, and those claims are unique.
    #[verifier::rlimit(60)]
    pub fn extract_signed(&self, token: &str) -> (r: Option<Claims>)
        ensures
            match r {
                Some(c) => token_match(token@, self.key(), c@) && (forall|c2: ClaimsView|
                    token_match(token@, self.key(), c2) ==> c2 =~= c@),
                None => forall|c2: ClaimsView| !token_match(token@, self.key(), c2),
            },
    {
        let len = token.unicode_len();
        proof {
            reveal_strlit("HS256.");
            assert forall|c2: ClaimsView| #[trigger] token_match(token@, self.key(), c2)
                implies token_sep_at(token@, self.key(), c2) by {
            lemma_token_shape(token@, self.key(), c2);
            }
        }
        let mut k: usize = 0;
        let mut d: usize = 0;
        let mut found: bool = false;
        while k < len
            invariant
                k <= len,
                len == token@.len(),
                found ==> d < k && token@[d as int] == '.' && (forall|m: int|
                    d < m < k ==> token@[m] != '.'),
                !found ==> forall|m: int| 0 <= m < k ==> token@[m] != '.',
            decreases len - k,
        {
            if dot_at(token, k) {
                d = k;
                found = true;
            }
            k = k + 1;
        }
        if !found {
            proof {
                assert forall|c2: ClaimsView| !token_match(token@, self.key(), c2) by {
                    if token_match(token@, self.key(), c2) {
                        assert(token@[signing_input_of(c2).len() as int] == '.');
                    }
                }
            }
            return None;
        }
        proof {
            assert forall|c2: ClaimsView| #[trigger] token_match(token@, self.key(), c2)
                implies d == signing_input_of(c2).len() by {
                let sl = signing_input_of(c2).len() as int;
                assert(token@[sl] == '.');
                if d < sl {
                    assert(token@[d as int] != '.');
                } else if d > sl {
                    let mac = mac_of(signing_input_of(c2), self.key());
                    assert(token@[d as int] == mac[d - sl - 1]);
                }
            }
        }
        if d < 6 {
            proof {
                assert forall|c2: ClaimsView| !token_match(token@, self.key(), c2) by {
                    if token_match(token@, self.key(), c2) {
                        assert(signing_input_of(c2).len() >= 6);
                    }
                }
            }
            return None;
        }
        let si = token.substring_char(0, d);
        let sig = token.substring_char(d + 1, len);
        if !hmac_verify(sig, si, self.secret.as_str()) {
            proof {
                assert forall|c2: ClaimsView| !token_match(token@, self.key(), c2) by {
                    if token_match(token@, self.key(), c2) {
                        lemma_token_parts(token@, self.key(), c2);
                        assert(si@ =~= signing_input_of(c2));
                        assert(sig@ =~= mac_of(signing_input_of(c2), self.key()));
                    }
                }
            }
            return None;
        }
        if !eat_lit(token, 0, "HS256.") {
            proof {
                assert forall|c2: ClaimsView| !token_match(token@, self.key(), c2) by {
                    if token_match(token@, self.key(), c2) {
                        lemma_token_parts(token@, self.key(), c2);
                        assert(token@.subrange(0, 6) =~= "HS256."@);
                    }
                }
            }
            return None;
        }
        let body = token.substring_char(6, d);
        let parsed = parse_payload(body);
        match parsed {
            None => {
                proof {
                    assert forall|c2: ClaimsView| !token_match(token@, self.key(), c2) by {
                        if token_match(token@, self.key(), c2) {
                            lemma_token_parts(token@, self.key(), c2);
                            assert(body@ =~= payload_of(c2));
                        }
                    }
                }
                None
            },
            Some(c) => {
                proof {
                    assert(si@ =~= "HS256."@ + body@) by {
                        assert(si@ =~= token@.subrange(0, d as int));
                        assert(body@ =~= token@.subrange(6, d as int));
                        assert(token@.subrange(0, d as int) =~= token@.subrange(0, 6)
                            + token@.subrange(6, d as int));
                        assert(token@.subrange(0, 6) =~= "HS256."@);
                    }
                    assert(si@ == signing_input_of(c@));
                    assert(token@ =~= si@ + seq!['.'] + sig@) by {
                        assert(token@.subrange(d as int, d + 1) =~= seq![token@[d as int]]);
                        lemma_tail_join(token@, 0, d as int);
                        lemma_tail_join(token@, d as int, d + 1);
                        assert(tail(token@, 0) =~= token@);
                        assert(tail(token@, d + 1) =~= sig@);
                    }
                    assert(sig@ == mac_of(signing_input_of(c@), self.key()));
                    assert(dotless(sig@)) by {
                        assert(forall|i: int|
                            0 <= i < sig@.len() ==> sig@[i] == #[trigger] token@[d + 1 + i]);
                    }
                    assert(token_match(token@, self.key(), c@));
                    assert forall|c2: ClaimsView| token_match(token@, self.key(), c2)
                        implies c2 =~= c@ by {
                        lemma_token_parts(token@, self.key(), c2);
                        assert(body@ =~= payload_of(c2));
                    }
                }
                Some(c)
            },
        }
    }

    /// Parses a token and checks its validity window: the signature
    /// must be genuine and `now` must lie in `[nbf, exp]`. The
    /// signature check comes first and short-circuits everything
    /// else: no claim of an unverified token is ever read.
    pub fn extract_at(&self, token: &str, now: u64) -> (r: Option<Claims>)
        ensures
            match r {
                Some(c) => token_match(token@, self.key(), c@) && c@.in_window(now) && (forall|
                    c2: ClaimsView,
                |
                    token_match(token@, self.key(), c2) ==> c2 =~= c@),
                None => forall|c2: ClaimsView|
                    token_match(token@, self.key(), c2) ==> !c2.in_window(now),
            },
    {
        match self.extract_signed(token) {
            None => None,
            Some(c) => {
                if c.nbf <= now && now <= c.exp {
                    Some(c)
                } else {
                    None
                }
            },
        }
    }

    /// Whether the token is genuine and currently valid, as of the
    /// given instant.
    pub fn verify_at(&self, token: &str, now: u64) -> (r: bool)
        ensures
            r == exists|c: ClaimsView|
                token_match(token@, self.key(), c) && c.in_window(now),
    {
        match self.extract_at(token, now) {
            Some(_) => true,
            None => {
                proof {
                    if exists|c: ClaimsView|
                        token_match(token@, self.key(), c) && c.in_window(now) {
                        let c = choose|c: ClaimsView|
                            token_match(token@, self.key(), c) && c.in_window(now);
                        assert(token_match(token@, self.key(), c));
                    }
                }
                false
            },
        }
    }
}

/// Whether the character at `k` is the part separator.
fn dot_at(s: &str, k: usize) -> (b: bool)
    requires
        k < s@.len(),
    ensures
        b == (s@[k as int] == '.'),
{
    s.get_char(k) == '.'
}

/// A matching token has the separator right after its signing input.
spec fn token_sep_at(t: Seq<char>, key: Seq<char>, c: ClaimsView) -> bool {
    &&& signing_input_of(c).len() >= 6
    &&& signing_input_of(c).len() < t.len()
    &&& t[signing_input_of(c).len() as int] == '.'
    &&& forall|m: int|
        signing_input_of(c).len() < m < t.len() ==> t[m] == mac_of(signing_input_of(c), key)[m
            - signing_input_of(c).len() - 1]
}

/// Shape facts of a matching token: where its separator stands and
/// what the characters around it are.
proof fn lemma_token_shape(t: Seq<char>, key: Seq<char>, c: ClaimsView)
    requires
        token_match(t, key, c),
    ensures
        token_sep_at(t, key, c),
{
    reveal_strlit("HS256.");
    let si = signing_input_of(c);
    let mac = mac_of(si, key);
    assert(t =~= si + seq!['.'] + mac);
    assert(si.len() >= 6) by {
        assert(si.len() == "HS256."@.len() + payload_of(c).len());
    }
    assert(t[si.len() as int] == (si + seq!['.'] + mac)[si.len() as int]);
    assert forall|m: int| si.len() < m < t.len() implies t[m] == mac[m - si.len() - 1] by {
        assert(t[m] == (si + seq!['.'] + mac)[m]);
    }
}

/// The three slices of a matching token.
proof fn lemma_token_parts(t: Seq<char>, key: Seq<char>, c: ClaimsView)
    requires
        token_match(t, key, c),
    ensures
        t.subrange(0, signing_input_of(c).len() as int) =~= signing_input_of(c),
        t.subrange(0, 6) =~= "HS256."@,
        t.subrange(6, signing_input_of(c).len() as int) =~= payload_of(c),
        t.subrange(signing_input_of(c).len() as int + 1, t.len() as int) =~= mac_of(
            signing_input_of(c),
            key,
        ),
{
    reveal_strlit("HS256.");
    let si = signing_input_of(c);
    let mac = mac_of(si, key);
    assert(t =~= si + seq!['.'] + mac);
    assert(si =~= "HS256."@ + payload_of(c));
    lemma_token_shape(t, key, c);
}

} // verus!
