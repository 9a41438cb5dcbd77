use vstd::prelude::*;

verus! {

/// The claims beyond the registered ones: the owning user and the
/// token kind (an access token or a refresh token).
pub struct AdditionalClaims {
    pub user_id: String,
    pub kind: String,
}

/// The payload carried by a signed token: subject, the three
/// timestamps (as Unix seconds), the token identifier used as the
/// revocation key, and the additional claims.
pub struct Claims {
    pub exp: u64,
    pub iat: u64,
    pub nbf: u64,
    pub sub: String,
    pub jti: String,
    pub additional_claims: AdditionalClaims,
}

/// The mathematical value of a `Claims`: the timestamps, and each
/// text field as its character sequence.
#[verifier::ext_equal]
pub ghost struct ClaimsView {
    pub exp: u64,
    pub iat: u64,
    pub nbf: u64,
    pub sub: Seq<char>,
    pub jti: Seq<char>,
    pub user_id: Seq<char>,
    pub kind: Seq<char>,
}

impl View for Claims {
    type V = ClaimsView;

    open spec fn view(&self) -> ClaimsView {
        ClaimsView {
            exp: self.exp,
            iat: self.iat,
            nbf: self.nbf,
            sub: self.sub@,
            jti: self.jti@,
            user_id: self.additional_claims.user_id@,
            kind: self.additional_claims.kind@,
        }
    }
}

impl ClaimsView {
    /// The invariant every issued token satisfies: it is not valid
    /// before it was issued, and it does not expire before that.
    pub open spec fn wf(self) -> bool {
        self.nbf <= self.iat <= self.exp
    }

    /// Whether the instant `now` lies in the token's validity
    /// window.
    pub open spec fn in_window(self, now: u64) -> bool {
        self.nbf <= now <= self.exp
    }
}

impl Claims {
    /// Builds a claims value out of its parts.
    pub fn new(
        exp: u64,
        iat: u64,
        nbf: u64,
        sub: String,
        jti: String,
        user_id: String,
        kind: String,
    ) -> (r: Claims)
        ensures
            r@ == (ClaimsView {
                exp,
                iat,
                nbf,
                sub: sub@,
                jti: jti@,
                user_id: user_id@,
                kind: kind@,
            }),
    {
        Claims { exp, iat, nbf, sub, jti, additional_claims: AdditionalClaims { user_id, kind } }
    }
}

} // verus!
