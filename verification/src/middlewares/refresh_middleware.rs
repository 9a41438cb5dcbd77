use vstd::prelude::*;

use crate::claims::ClaimsView;
use crate::jwt::JwtImpl;
use crate::jwt::token_match;
use crate::middlewares::jwt_middleware::AuthDecision;
use crate::middlewares::jwt_middleware::RejectReason;
use crate::middlewares::jwt_middleware::clone_roles;
use crate::middlewares::jwt_middleware::role_held;
use crate::payload::eat_lit;
use crate::payload::tail;

verus! {

/// Whether the presented kind stands among the accepted ones.
pub fn roles_is_valid(roles: &Vec<String>, role: &str) -> (r: bool)
    ensures
        r == role_held(roles@, role@),
{
    crate::middlewares::jwt_middleware::roles_is_valid(roles, role)
}

/// Which bearer credential a refresh-scoped gate reads: the
/// dedicated header when it is present — then the cookie is never
/// consulted, and a header without the bearer marker yields nothing
/// — and the same-named cookie's raw value as the fallback.
pub open spec fn credential_of(header: Option<Seq<char>>, cookie: Option<Seq<char>>) -> Option<
    Seq<char>,
> {
    match header {
        Some(h) => if h.len() >= 7 && h.subrange(0, 7) == "Bearer "@ {
            Some(h.subrange(7, h.len() as int))
        } else {
            None
        },
        None => cookie,
    }
}

/// The views of the two optional sources.
pub open spec fn source_view(v: Option<&String>) -> Option<Seq<char>> {
    match v {
        Some(s) => Some(s@),
        None => None,
    }
}

/// Reads the bearer credential for a refresh-scoped gate out of the
/// dedicated header or, failing that, the cookie.
pub fn extract_token(header: Option<&String>, cookie: Option<&String>) -> (r: Option<String>)
    ensures
        match r {
            Some(t) => credential_of(source_view(header), source_view(cookie)) == Some(t@),
            None => credential_of(source_view(header), source_view(cookie)) is None,
        },
{
    match header {
        Some(h) => {
            let hlen = h.as_str().unicode_len();
            if eat_lit(h.as_str(), 0, "Bearer ") {
                proof {
                    reveal_strlit("Bearer ");
                }
                Some(h.as_str().substring_char(7, hlen).to_owned())
            } else {
                proof {
                    reveal_strlit("Bearer ");
                }
                None
            }
        },
        None => match cookie {
            Some(cv) => Some(cv.clone()),
            None => None,
        },
    }
}

/// The configuration of a refresh-token gate: the token kinds it
/// accepts. An empty list makes it a no-op gate.
pub struct Middleware {
    pub roles: Vec<String>,
}

impl Middleware {
    /// The runnable gate: this configuration bound to a codec.
    pub fn new_transform(&self, jwt: JwtImpl) -> (r: RefreshTokenMiddleware)
        ensures
            r.roles@ == self.roles@,
            r.jwt.key() == jwt.key(),
    {
        RefreshTokenMiddleware { roles: clone_roles(&self.roles), jwt }
    }
}

/// Guards the rotation endpoint. It reads the refresh credential
/// from the dedicated header or the fallback cookie, has
/// the codec verify it as of `now`, checks the kind against the
/// accepted ones, and on top of that demands the literal refresh
/// kind — defence in depth against an accepted list that drifted.
pub struct RefreshTokenMiddleware {
    pub roles: Vec<String>,
    pub jwt: JwtImpl,
}

impl RefreshTokenMiddleware {
    /// One gate decision. With no required kinds the request passes
    /// untouched. Otherwise: no located credential rejects as
    /// missing; one that does not verify now as invalid; a verified
    /// one whose kind is unaccepted, or is anything but the literal
    /// refresh kind, as the wrong kind. What remains is authorized.
    #[verifier::rlimit(60)]
    pub fn call(&self, refresh_header: Option<&String>, cookie: Option<&String>, now: u64) -> (r:
        AuthDecision)
        ensures
            match r {
                AuthDecision::Pass => self.roles@.len() == 0,
                AuthDecision::Authorized { user_id, token } => self.roles@.len() > 0
                    && credential_of(source_view(refresh_header), source_view(cookie)) == Some(
                    token@,
                ) && exists|c: ClaimsView| #[trigger]
                    token_match(token@, self.jwt.key(), c) && c.in_window(now) && role_held(
                        self.roles@,
                        c.kind,
                    ) && c.kind == "refresh_token"@ && user_id@ == c.user_id,
                AuthDecision::Rejected(reason) => self.roles@.len() > 0 && match reason {
                    RejectReason::MissingCredential => credential_of(
                        source_view(refresh_header),
                        source_view(cookie),
                    ) is None,
                    RejectReason::MalformedCredential => false,
                    RejectReason::InvalidCredential => exists|t: Seq<char>| #[trigger]
                        credential_of(source_view(refresh_header), source_view(cookie)) == Some(t)
                            && (forall|c: ClaimsView|
                            token_match(t, self.jwt.key(), c) ==> !c.in_window(now)),
                    RejectReason::WrongKind => exists|t: Seq<char>, c: ClaimsView|
                        credential_of(source_view(refresh_header), source_view(cookie)) == Some(t)
                            && #[trigger] token_match(t, self.jwt.key(), c) && c.in_window(now) && !(
                        role_held(self.roles@, c.kind) && c.kind == "refresh_token"@),
                },
            },
    {
        if self.roles.len() == 0 {
            return AuthDecision::Pass;
        }
        let located = extract_token(refresh_header, cookie);
        match located {
            None => AuthDecision::Rejected(RejectReason::MissingCredential),
            Some(token) => {
                proof {
                    assert(credential_of(source_view(refresh_header), source_view(cookie))
                        == Some(token@));
                }
                match self.jwt.extract_at(token.as_str(), now) {
                    None => {
                        proof {
                            assert(exists|t: Seq<char>| #[trigger]
                                credential_of(source_view(refresh_header), source_view(cookie))
                                    == Some(t) && (forall|c: ClaimsView|
                                    token_match(t, self.jwt.key(), c) ==> !c.in_window(now)));
                        }
                        AuthDecision::Rejected(RejectReason::InvalidCredential)
                    },
                    Some(c) => {
                        let ghost cv = c@;
                        let accepted = roles_is_valid(
                            &self.roles,
                            c.additional_claims.kind.as_str(),
                        );
                        let refresh_kind = kind_is_refresh(c.additional_claims.kind.as_str());
                        if accepted && refresh_kind {
                            proof {
                                assert(token_match(token@, self.jwt.key(), cv));
                                assert(cv.in_window(now) && role_held(self.roles@, cv.kind)
                                    && cv.kind == "refresh_token"@);
                            }
                            AuthDecision::Authorized {
                                user_id: c.additional_claims.user_id,
                                token,
                            }
                        } else {
                            proof {
                                assert(token_match(token@, self.jwt.key(), cv));
                                assert(!(role_held(self.roles@, cv.kind) && cv.kind
                                    == "refresh_token"@));
                            }
                            AuthDecision::Rejected(RejectReason::WrongKind)
                        }
                    },
                }
            },
        }
    }
}

/// Whether the presented kind is the literal refresh kind.
fn kind_is_refresh(kind: &str) -> (r: bool)
    ensures
        r == (kind@ == "refresh_token"@),
{
    let owned = kind.to_owned();
    let lit = String::from_str("refresh_token");
    owned == lit
}

} // verus!
