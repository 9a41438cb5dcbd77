use vstd::prelude::*;

use crate::claims::Claims;
use crate::claims::ClaimsView;
use crate::clock::now_ts;
use crate::hasher::Bcrypt;
use crate::hasher::bcrypt_matches;
use crate::jwt::JwtImpl;
use crate::jwt::token_match;
use crate::jwt::token_of;
use crate::pgx::PgRow;
use crate::redis::RedisImpl;
use crate::uuid::uuid_v4;

verus! {

/// How long an access token lives, in seconds: one hour.
pub const ACCESS_TTL_SECS: u64 = 3600;

/// How long a refresh token lives, in seconds: four weeks.
pub const REFRESH_TTL_SECS: u64 = 2419200;

/// The latest instant the clock module can report; expiry sums
/// starting from it stay far below the integer ceiling.
pub const MAX_CLOCK_SECS: u64 = 0x7fff_ffff_ffff_ffff;

/// The pair a successful sign-in hands out.
pub struct TokenData {
    pub token: String,
    pub refresh_token: String,
}

/// The credentials a sign-in presents.
pub struct SignInData {
    pub username: String,
    pub password: String,
}

/// The profile a sign-up presents.
pub struct SignUpData {
    pub name: String,
    pub username: String,
    pub password: String,
}

/// The body of a token-refresh request.
pub struct GainNewTokenData {
    pub old_token: String,
}

/// The row a sign-up stores: the profile with the password replaced
/// by its one-way hash.
pub struct NewUserRecord {
    pub name: String,
    pub username: String,
    pub password_hash: String,
}

/// What a refresh attempt came to: a fresh token, a credential that
/// does not verify now, or one whose identifier was revoked.
pub enum RefreshOutcome {
    NewToken(String),
    Invalid,
    Revoked,
}

/// The claims of a fresh access token for a user signing in now.
pub open spec fn access_claims(
    sub: Seq<char>,
    user_id: Seq<char>,
    jti: Seq<char>,
    now: u64,
) -> ClaimsView {
    ClaimsView {
        exp: (now + ACCESS_TTL_SECS) as u64,
        iat: now,
        nbf: now,
        sub,
        jti,
        user_id,
        kind: "auth_token"@,
    }
}

/// The claims of a fresh refresh token for a user signing in now.
pub open spec fn refresh_claims(
    sub: Seq<char>,
    user_id: Seq<char>,
    jti: Seq<char>,
    now: u64,
) -> ClaimsView {
    ClaimsView {
        exp: (now + REFRESH_TTL_SECS) as u64,
        iat: now,
        nbf: now,
        sub,
        jti,
        user_id,
        kind: "refresh_token"@,
    }
}

/// The claims of a rotated token: subject, user, kind and the token
/// identifier are preserved, the window starts over at `now`.
/// Keeping the identifier ties every rotation of one session to a
/// single revocation entry.
pub open spec fn rotated_claims(c: ClaimsView, now: u64) -> ClaimsView {
    ClaimsView {
        exp: (now + ACCESS_TTL_SECS) as u64,
        iat: now,
        nbf: now,
        sub: c.sub,
        jti: c.jti,
        user_id: c.user_id,
        kind: c.kind,
    }
}

/// The session operations: issuing, rotating and revoking tokens
/// against the codec, the credential hasher and the revocation
/// store.
pub struct AuthServiceImpl {
    hasher: Bcrypt,
    jwt: JwtImpl,
    redis: RedisImpl,
}

impl AuthServiceImpl {
    /// The signing secret of this service's codec.
    pub closed spec fn key(self) -> Seq<char> {
        self.jwt.key()
    }

    /// The revocation entries this service has recorded.
    pub closed spec fn revoked(self) -> Map<Seq<char>, Seq<char>> {
        self.redis@
    }

    /// Whether the store vetoes a token identifier.
    pub open spec fn is_revoked(self, jti: Seq<char>) -> bool {
        self.revoked().contains_key(jti) && self.revoked()[jti].len() > 0
    }

    pub fn new(hasher: Bcrypt, jwt: JwtImpl, redis: RedisImpl) -> (r: AuthServiceImpl)
        ensures
            r.key() == jwt.key(),
            r.revoked() == redis@,
    {
        AuthServiceImpl { hasher, jwt, redis }
    }

    /// The sign-in decision at a given instant, over the stored row
    /// the lookup returned (columns: user id, username, password
    /// hash) and fresh token identifiers. Tokens are issued exactly
    /// when a row was found and the password matches its hash; a
    /// missing user and a wrong password are indistinguishable in
    /// the result.
    pub fn sign_in_at(
        &self,
        row: Option<&PgRow>,
        password: &str,
        now: u64,
        access_jti: &str,
        refresh_jti: &str,
    ) -> (r: Option<TokenData>)
        requires
            now <= MAX_CLOCK_SECS,
            match row {
                Some(rw) => rw@.len() >= 3,
                None => true,
            },
        ensures
            match r {
                Some(td) => match row {
                    Some(rw) => bcrypt_matches(password@, rw@[2]) && td.token@ == token_of(
                        access_claims(rw@[1], rw@[0], access_jti@, now),
                        self.key(),
                    ) && token_match(
                        td.token@,
                        self.key(),
                        access_claims(rw@[1], rw@[0], access_jti@, now),
                    ) && td.refresh_token@ == token_of(
                        refresh_claims(rw@[1], rw@[0], refresh_jti@, now),
                        self.key(),
                    ) && token_match(
                        td.refresh_token@,
                        self.key(),
                        refresh_claims(rw@[1], rw@[0], refresh_jti@, now),
                    ),
                    None => false,
                },
                None => match row {
                    Some(rw) => !bcrypt_matches(password@, rw@[2]),
                    None => true,
                },
            },
    {
        match row {
            None => None,
            Some(rw) => {
                let user_id = rw.get(0);
                let username = rw.get(1);
                let stored_hash = rw.get(2);
                if self.hasher.verify(password, stored_hash.as_str()) {
                    let access = Claims::new(
                        now + ACCESS_TTL_SECS,
                        now,
                        now,
                        username.clone(),
                        access_jti.to_owned(),
                        user_id.clone(),
                        String::from_str("auth_token"),
                    );
                    let refresh = Claims::new(
                        now + REFRESH_TTL_SECS,
                        now,
                        now,
                        username,
                        refresh_jti.to_owned(),
                        user_id,
                        String::from_str("refresh_token"),
                    );
                    let token = self.jwt.sign(&access);
                    let refresh_token = self.jwt.sign(&refresh);
                    Some(TokenData { token, refresh_token })
                } else {
                    None
                }
            },
        }
    }

    /// Sign-in against the stored row, drawing the instant from the
    /// clock and the token identifiers from the random source.
    /// Tokens come back exactly when the row is there and the
    /// password matches; both failure causes collapse to the same
    /// answer.
    pub fn sign_in(&self, row: Option<&PgRow>, data: &SignInData) -> (r: Option<TokenData>)
        requires
            match row {
                Some(rw) => rw@.len() >= 3,
                None => true,
            },
        ensures
            r.is_some() <==> (match row {
                Some(rw) => bcrypt_matches(data.password@, rw@[2]),
                None => false,
            }),
            r is Some ==> exists|now: u64, ja: Seq<char>, jr: Seq<char>|
                r->Some_0.token@ == #[trigger] token_of(
                    access_claims(row->Some_0@[1], row->Some_0@[0], ja, now),
                    self.key(),
                ) && r->Some_0.refresh_token@ == #[trigger] token_of(
                    refresh_claims(row->Some_0@[1], row->Some_0@[0], jr, now),
                    self.key(),
                ),
    {
        let now = now_ts();
        let access_jti = uuid_v4();
        let refresh_jti = uuid_v4();
        let r = self.sign_in_at(
            row,
            data.password.as_str(),
            now,
            access_jti.as_str(),
            refresh_jti.as_str(),
        );
        proof {
            if r.is_some() {
                let td = r.get_Some_0();
                assert(match row {
                    Some(rw) => td.token@ == token_of(
                        access_claims(rw@[1], rw@[0], access_jti@, now),
                        self.key(),
                    ) && td.refresh_token@ == token_of(
                        refresh_claims(rw@[1], rw@[0], refresh_jti@, now),
                        self.key(),
                    ),
                    None => false,
                });
            }
        }
        r
    }

    /// The stored form of a new profile: the name and username as
    /// given, the password replaced by a hash that verifies against
    /// it. Nothing comes back only when the system's randomness is
    /// unavailable to the hasher.
    pub fn sign_up(&self, data: &SignUpData) -> (r: Option<NewUserRecord>)
        ensures
            match r {
                Some(rec) => rec.name@ == data.name@ && rec.username@ == data.username@
                    && bcrypt_matches(data.password@, rec.password_hash@),
                None => true,
            },
    {
        match self.hasher.hash(data.password.as_str()) {
            None => None,
            Some(password_hash) => Some(
                NewUserRecord {
                    name: data.name.clone(),
                    username: data.username.clone(),
                    password_hash,
                },
            ),
        }
    }

    /// Revokes both tokens of a session by their identifiers. The
    /// tokens may be expired — sign-out asks only that they be
    /// genuinely signed — and a token that is not even that is an
    /// error, with the store left untouched.
    pub fn sign_out(&mut self, token: &str, refresh_token: &str) -> (r: Result<
        Option<String>,
        String,
    >)
        ensures
            final (self).key() == old(self).key(),
            match r {
                Ok(m) => (exists|ca: ClaimsView, cr: ClaimsView|
                    token_match(token@, old(self).key(), ca) && token_match(
                        refresh_token@,
                        old(self).key(),
                        cr,
                    )) && (forall|ca: ClaimsView, cr: ClaimsView|
                    token_match(token@, old(self).key(), ca) && token_match(
                        refresh_token@,
                        old(self).key(),
                        cr,
                    ) ==> final (self).revoked() == old(self).revoked().insert(
                        ca.jti,
                        crate::digits::dec_of(ca.exp as nat),
                    ).insert(cr.jti, crate::digits::dec_of(cr.exp as nat))),
                Err(e) => final (self).revoked() == old(self).revoked() && ((forall|ca: ClaimsView|
                    !token_match(token@, old(self).key(), ca)) || (forall|cr: ClaimsView|
                    !token_match(refresh_token@, old(self).key(), cr))),
            },
    {
        let access = self.jwt.extract_signed(token);
        if access.is_none() {
            return Err(String::from_str("not a genuine token"));
        }
        let refresh = self.jwt.extract_signed(refresh_token);
        if refresh.is_none() {
            return Err(String::from_str("not a genuine token"));
        }
        let access = access.unwrap();
        let refresh = refresh.unwrap();
        self.redis.mark_revoked(access.jti.as_str(), access.exp);
        self.redis.mark_revoked(refresh.jti.as_str(), refresh.exp);
        proof {
            let ca0 = access@;
            let cr0 = refresh@;
            assert(token_match(token@, old(self).key(), ca0));
            assert(token_match(refresh_token@, old(self).key(), cr0));
            assert forall|ca: ClaimsView, cr: ClaimsView|
                token_match(token@, old(self).key(), ca) && token_match(
                    refresh_token@,
                    old(self).key(),
                    cr,
                ) implies self.revoked() == old(self).revoked().insert(
                ca.jti,
                crate::digits::dec_of(ca.exp as nat),
            ).insert(cr.jti, crate::digits::dec_of(cr.exp as nat)) by {
                assert(ca =~= ca0);
                assert(cr =~= cr0);
            }
        }
        Ok(Some(String::from_str("Successfully signed out")))
    }

    /// The rotation decision at a given instant. A credential that
    /// does not verify now is `Invalid`; a verified one whose
    /// identifier the store vetoes is `Revoked`; otherwise a new
    /// token is signed with the window restarted and everything
    /// else, the identifier included, preserved.
    pub fn refresh_at(&self, old_token: &str, now: u64) -> (r: RefreshOutcome)
        requires
            now <= MAX_CLOCK_SECS,
        ensures
            match r {
                RefreshOutcome::Invalid => forall|c2: ClaimsView|
                    token_match(old_token@, self.key(), c2) ==> !c2.in_window(now),
                RefreshOutcome::Revoked => (exists|c2: ClaimsView|
                    token_match(old_token@, self.key(), c2) && c2.in_window(now)) && (forall|
                    c2: ClaimsView,
                |
                    token_match(old_token@, self.key(), c2) && c2.in_window(now)
                        ==> self.is_revoked(c2.jti)),
                RefreshOutcome::NewToken(t) => exists|c2: ClaimsView|
                    token_match(old_token@, self.key(), c2) && c2.in_window(now)
                        && !self.is_revoked(c2.jti) && t@ == token_of(
                        rotated_claims(c2, now),
                        self.key(),
                    ) && token_match(t@, self.key(), rotated_claims(c2, now)),
            },
    {
        let old_claims = self.jwt.extract_at(old_token, now);
        match old_claims {
            None => RefreshOutcome::Invalid,
            Some(c) => {
                if self.redis.is_revoked(c.jti.as_str()) {
                    RefreshOutcome::Revoked
                } else {
                    let fresh = Claims::new(
                        now + ACCESS_TTL_SECS,
                        now,
                        now,
                        c.sub,
                        c.jti,
                        c.additional_claims.user_id,
                        c.additional_claims.kind,
                    );
                    RefreshOutcome::NewToken(self.jwt.sign(&fresh))
                }
            },
        }
    }

    /// Drops the revocation entry of a token identifier once the
    /// expiry recorded with it has passed: an expired token fails
    /// verification on its own, so the veto entry need not outlive
    /// its token.
    pub fn purge_revocation(&mut self, token_id: &str, now: u64)
        ensures
            final (self).key() == old(self).key(),
            final (self).revoked() == if crate::redis::RedisImpl::entry_expired(
                old(self).revoked(),
                token_id@,
                now,
            ) {
                old(self).revoked().remove(token_id@)
            } else {
                old(self).revoked()
            },
    {
        self.redis.remove_expired(token_id, now);
    }

    /// What one rotation answer means at the instant it was decided:
    /// a token comes back exactly for a credential that verifies at
    /// `now` and is not revoked, and it is the rotation of that
    /// credential's claims; nothing comes back exactly when the
    /// credential fails verification at `now` or its identifier is
    /// vetoed.
    pub open spec fn rotation_at(
        self,
        old_token: Seq<char>,
        r: Result<Option<String>, String>,
        now: u64,
    ) -> bool {
        match r {
            Ok(m) => match m {
                Some(t) => exists|c: ClaimsView| #[trigger]
                    token_match(old_token, self.key(), c) && c.in_window(now) && !self.is_revoked(
                        c.jti,
                    ) && t@ == token_of(rotated_claims(c, now), self.key()),
                None => (forall|c: ClaimsView| #[trigger]
                    token_match(old_token, self.key(), c) ==> !c.in_window(now)) || (exists|
                    c: ClaimsView,
                | #[trigger]
                    token_match(old_token, self.key(), c) && c.in_window(now) && self.is_revoked(
                        c.jti,
                    )),
            },
            Err(_) => false,
        }
    }

    /// Rotation at the instant the clock gives: the collapsed form
    /// the original interface had. One instant is drawn and the
    /// whole answer is `rotation_at` that instant — so a fresh token
    /// is owed whenever the credential verifies then and is not
    /// revoked, and nothing comes back only for a credential that is
    /// invalid then or revoked.
    pub fn gain_new_token(&self, old_token: &str) -> (r: Result<Option<String>, String>)
        ensures
            r is Ok,
            exists|now: u64|
                now <= MAX_CLOCK_SECS && #[trigger] self.rotation_at(old_token@, r, now),
    {
        let now = now_ts();
        let r = match self.refresh_at(old_token, now) {
            RefreshOutcome::NewToken(t) => Ok(Some(t)),
            RefreshOutcome::Invalid => Ok(None),
            RefreshOutcome::Revoked => Ok(None),
        };
        proof {
            assert(self.rotation_at(old_token@, r, now));
        }
        r
    }
}

} // verus!
