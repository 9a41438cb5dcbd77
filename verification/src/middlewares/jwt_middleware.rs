use vstd::prelude::*;

use crate::claims::ClaimsView;
use crate::jwt::JwtImpl;
use crate::jwt::token_match;
use crate::payload::eat_lit;
use crate::payload::tail;

verus! {

/// Why a request was turned away. The caller answers uniformly
/// whatever the reason; these are for logs only.
pub enum RejectReason {
    MissingCredential,
    MalformedCredential,
    InvalidCredential,
    WrongKind,
}

/// A gate's answer for one request: let it through untouched,
/// attach the authenticated identity, or turn it away.
pub enum AuthDecision {
    Pass,
    Authorized { user_id: String, token: String },
    Rejected(RejectReason),
}

/// Whether one of the accepted kinds is the presented one.
pub open spec fn role_held(roles: Seq<String>, kind: Seq<char>) -> bool {
    exists|i: int| 0 <= i < roles.len() && roles[i]@ == kind
}

/// What an authorized decision promises: the attached token is
/// genuine as of `now`, of an accepted kind, and the attached user
/// is the one its claims carry.
pub open spec fn authorized_ok(
    roles: Seq<String>,
    key: Seq<char>,
    token: Seq<char>,
    user_id: Seq<char>,
    now: u64,
) -> bool {
    exists|c: ClaimsView| #[trigger]
        token_match(token, key, c) && c.in_window(now) && role_held(roles, c.kind) && user_id
            == c.user_id
}

/// Whether the presented kind stands among the accepted ones.
pub fn roles_is_valid(roles: &Vec<String>, role: &str) -> (r: bool)
    ensures
        r == role_held(roles@, role@),
{
    let n = roles.len();
    let mut i: usize = 0;
    while i < n
        invariant
            i <= n,
            n == roles@.len(),
            forall|m: int| 0 <= m < i ==> roles@[m]@ != role@,
        decreases n - i,
    {
        let owned = role.to_owned();
        if roles[i] == owned {
            return true;
        }
        i = i + 1;
    }
    false
}

/// The configuration of an access-token gate: the token kinds it
/// accepts. An empty list makes it a no-op gate.
pub struct Middleware {
    pub roles: Vec<String>,
}

impl Middleware {
    /// The runnable gate: this configuration bound to a codec.
    pub fn new_transform(&self, jwt: JwtImpl) -> (r: JwtMiddleware)
        ensures
            r.roles@ == self.roles@,
            r.jwt.key() == jwt.key(),
    {
        JwtMiddleware { roles: clone_roles(&self.roles), jwt }
    }
}

/// Clones the accepted-kind list.
pub fn clone_roles(roles: &Vec<String>) -> (r: Vec<String>)
    ensures
        r@ == roles@,
{
    let n = roles.len();
    let mut r: Vec<String> = Vec::new();
    let mut i: usize = 0;
    while i < n
        invariant
            i <= n,
            n == roles@.len(),
            r@ =~= roles@.take(i as int),
        decreases n - i,
    {
        r.push(roles[i].clone());
        proof {
            assert(roles@.take(i + 1) =~= roles@.take(i as int).push(roles@[i as int]));
        }
        i = i + 1;
    }
    proof {
        assert(roles@.take(n as int) =~= roles@);
    }
    r
}

/// The access gate in front of protected routes: it reads the
/// bearer credential out of the authorization header, has the codec
/// verify it as of `now`, and enforces that its kind is accepted.
pub struct JwtMiddleware {
    pub roles: Vec<String>,
    pub jwt: JwtImpl,
}

impl JwtMiddleware {
    /// One gate decision. With no required kinds the request passes
    /// untouched. Otherwise: no header rejects as missing; a header
    /// without the bearer marker as malformed; a credential that
    /// does not verify now as invalid; a verified one of an
    /// unaccepted kind as the wrong kind. What remains is authorized
    /// and carries the token's user onward.
    #[verifier::rlimit(100)]
    #[verifier::spinoff_prover]
    pub fn call(&self, auth_header: Option<&String>, now: u64) -> (r: AuthDecision)
        ensures
            match r {
                AuthDecision::Pass => self.roles@.len() == 0,
                AuthDecision::Authorized { user_id, token } => self.roles@.len() > 0 && (
                match auth_header {
                    Some(h) => h@ == "Bearer "@ + token@,
                    None => false,
                }) && authorized_ok(self.roles@, self.jwt.key(), token@, user_id@, now),
                AuthDecision::Rejected(reason) => self.roles@.len() > 0 && match reason {
                    RejectReason::MissingCredential => auth_header is None,
                    RejectReason::MalformedCredential => match auth_header {
                        Some(h) => !(h@.len() >= 7 && h@.subrange(0, 7) == "Bearer "@),
                        None => false,
                    },
                    RejectReason::InvalidCredential => match auth_header {
                        Some(h) => h@.len() >= 7 && h@.subrange(0, 7) == "Bearer "@ && (forall|
                            c: ClaimsView,
                        |
                            token_match(tail(h@, 7), self.jwt.key(), c) ==> !c.in_window(now)),
                        None => false,
                    },
                    RejectReason::WrongKind => match auth_header {
                        Some(h) => h@.len() >= 7 && h@.subrange(0, 7) == "Bearer "@ && exists|
                            c: ClaimsView,
                        | #[trigger]
                            token_match(tail(h@, 7), self.jwt.key(), c) && c.in_window(now)
                                && !role_held(self.roles@, c.kind),
                        None => false,
                    },
                },
            },
    {
        if self.roles.len() == 0 {
            return AuthDecision::Pass;
        }
        match auth_header {
            None => AuthDecision::Rejected(RejectReason::MissingCredential),
            Some(h) => {
                let hlen = h.as_str().unicode_len();
                if !eat_lit(h.as_str(), 0, "Bearer ") {
                    proof {
                        reveal_strlit("Bearer ");
                    }
                    return AuthDecision::Rejected(RejectReason::MalformedCredential);
                }
                proof {
                    reveal_strlit("Bearer ");
                }
                let token = h.as_str().substring_char(7, hlen).to_owned();
                proof {
                    assert(token@ =~= tail(h@, 7));
                    assert(h@ =~= "Bearer "@ + token@);
                }
                match self.jwt.extract_at(token.as_str(), now) {
                    None => {
                        proof {
                            assert forall|c: ClaimsView|
                                token_match(tail(h@, 7), self.jwt.key(), c) implies !c.in_window(
                                now,
                            ) by {
                                assert(token_match(token@, self.jwt.key(), c));
                            }
                        }
                        AuthDecision::Rejected(RejectReason::InvalidCredential)
                    },
                    Some(c) => {
                        let ghost cv = c@;
                        if roles_is_valid(&self.roles, c.additional_claims.kind.as_str()) {
                            proof {
                                assert(token_match(token@, self.jwt.key(), cv));
                                assert(cv.in_window(now));
                                assert(role_held(self.roles@, cv.kind));
                                assert(authorized_ok(
                                    self.roles@,
                                    self.jwt.key(),
                                    token@,
                                    c.additional_claims.user_id@,
                                    now,
                                ));
                            }
                            AuthDecision::Authorized {
                                user_id: c.additional_claims.user_id,
                                token,
                            }
                        } else {
                            proof {
                                assert(token_match(tail(h@, 7), self.jwt.key(), cv));
                                assert(!role_held(self.roles@, cv.kind));
                            }
                            AuthDecision::Rejected(RejectReason::WrongKind)
                        }
                    },
                }
            },
        }
    }
}

} // verus!
