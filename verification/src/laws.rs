use vstd::prelude::*;

use crate::claims::ClaimsView;
use crate::digits::dec_of;
use crate::digits::is_digit;
use crate::digits::lemma_dec_prefix_unique;
use crate::jwt::token_match;
use crate::middlewares::jwt_middleware::role_held;
use crate::jwt::signing_input_of;
use crate::jwt::mac_of;
use crate::payload::after_exp;
use crate::payload::after_iat;
use crate::payload::after_jti;
use crate::payload::after_nbf;
use crate::payload::after_sub;
use crate::payload::after_uid;
use crate::payload::field_of;
use crate::payload::payload_of;

verus! {

/// A shared prefix cancels out of an equality of concatenations.
proof fn lemma_concat_cancel_left(p: Seq<char>, x: Seq<char>, y: Seq<char>)
    requires
        p + x == p + y,
    ensures
        x =~= y,
{
    assert((p + x).len() == p.len() + x.len());
    assert((p + y).len() == p.len() + y.len());
    assert(x.len() == y.len());
    assert forall|m: int| 0 <= m < x.len() implies x[m] == y[m] by {
        assert((p + x)[p.len() + m] == x[m]);
        assert((p + y)[p.len() + m] == y[m]);
    }
}

/// A length-prefixed field and what follows it decompose uniquely.
proof fn lemma_field_prefix_unique(f1: Seq<char>, r1: Seq<char>, f2: Seq<char>, r2: Seq<char>)
    requires
        field_of(f1) + r1 == field_of(f2) + r2,
    ensures
        f1 =~= f2,
        r1 =~= r2,
{
    let m1 = seq![':'] + f1 + r1;
    let m2 = seq![':'] + f2 + r2;
    assert(field_of(f1) + r1 =~= dec_of(f1.len()) + m1);
    assert(field_of(f2) + r2 =~= dec_of(f2.len()) + m2);
    assert(m1[0] == ':' && m2[0] == ':');
    assert(!is_digit(':'));
    lemma_dec_prefix_unique(f1.len(), f2.len(), m1, m2);
    assert(m1 =~= seq![':'] + (f1 + r1));
    assert(m2 =~= seq![':'] + (f2 + r2));
    lemma_concat_cancel_left(seq![':'], f1 + r1, f2 + r2);
    assert forall|m: int| 0 <= m < f1.len() implies f1[m] == f2[m] by {
        assert((f1 + r1)[m] == f1[m]);
        assert((f2 + r2)[m] == f2[m]);
    }
    assert forall|m: int| 0 <= m < r1.len() implies r1[m] == r2[m] by {
        assert((f1 + r1)[f1.len() + m] == r1[m]);
        assert((f2 + r2)[f2.len() + m] == r2[m]);
    }
}

/// A labelled decimal and what follows it decompose uniquely, when
/// what follows starts with the separator.
proof fn lemma_lit_dec_unique(
    lit: Seq<char>,
    e1: u64,
    a1: Seq<char>,
    e2: u64,
    a2: Seq<char>,
)
    requires
        lit + dec_of(e1 as nat) + a1 == lit + dec_of(e2 as nat) + a2,
        a1.len() > 0 && a1[0] == ';',
        a2.len() > 0 && a2[0] == ';',
    ensures
        e1 == e2,
        a1 =~= a2,
{
    assert(lit + dec_of(e1 as nat) + a1 =~= lit + (dec_of(e1 as nat) + a1));
    assert(lit + dec_of(e2 as nat) + a2 =~= lit + (dec_of(e2 as nat) + a2));
    lemma_concat_cancel_left(lit, dec_of(e1 as nat) + a1, dec_of(e2 as nat) + a2);
    assert(!is_digit(';'));
    lemma_dec_prefix_unique(e1 as nat, e2 as nat, a1, a2);
}

/// A labelled field and what follows it decompose uniquely.
proof fn lemma_lit_field_unique(
    lit: Seq<char>,
    f1: Seq<char>,
    a1: Seq<char>,
    f2: Seq<char>,
    a2: Seq<char>,
)
    requires
        lit + field_of(f1) + a1 == lit + field_of(f2) + a2,
    ensures
        f1 =~= f2,
        a1 =~= a2,
{
    assert(lit + field_of(f1) + a1 =~= lit + (field_of(f1) + a1));
    assert(lit + field_of(f2) + a2 =~= lit + (field_of(f2) + a2));
    lemma_concat_cancel_left(lit, field_of(f1) + a1, field_of(f2) + a2);
    lemma_field_prefix_unique(f1, a1, f2, a2);
}

/// The payload rendering is injective: equal renderings can only
/// come from equal claims. This is what makes a token mean one
/// thing.
pub proof fn lemma_payload_injective(c1: ClaimsView, c2: ClaimsView)
    requires
        payload_of(c1) == payload_of(c2),
    ensures
        c1 =~= c2,
{
    reveal_strlit(";iat=");
    reveal_strlit(";nbf=");
    reveal_strlit(";sub=");
    assert(after_exp(c1)[0] == ';' && after_exp(c2)[0] == ';') by {
        assert(after_exp(c1)[0] == ";iat="@[0]);
        assert(after_exp(c2)[0] == ";iat="@[0]);
    }
    lemma_lit_dec_unique("exp="@, c1.exp, after_exp(c1), c2.exp, after_exp(c2));
    assert(after_iat(c1)[0] == ';' && after_iat(c2)[0] == ';') by {
        assert(after_iat(c1)[0] == ";nbf="@[0]);
        assert(after_iat(c2)[0] == ";nbf="@[0]);
    }
    lemma_lit_dec_unique(";iat="@, c1.iat, after_iat(c1), c2.iat, after_iat(c2));
    assert(after_nbf(c1)[0] == ';' && after_nbf(c2)[0] == ';') by {
        assert(after_nbf(c1)[0] == ";sub="@[0]);
        assert(after_nbf(c2)[0] == ";sub="@[0]);
    }
    lemma_lit_dec_unique(";nbf="@, c1.nbf, after_nbf(c1), c2.nbf, after_nbf(c2));
    lemma_lit_field_unique(";sub="@, c1.sub, after_sub(c1), c2.sub, after_sub(c2));
    lemma_lit_field_unique(";jti="@, c1.jti, after_jti(c1), c2.jti, after_jti(c2));
    lemma_lit_field_unique(";uid="@, c1.user_id, after_uid(c1), c2.user_id, after_uid(c2));
    assert(after_uid(c1) =~= ";kind="@ + field_of(c1.kind) + Seq::<char>::empty());
    assert(after_uid(c2) =~= ";kind="@ + field_of(c2.kind) + Seq::<char>::empty());
    lemma_lit_field_unique(
        ";kind="@,
        c1.kind,
        Seq::<char>::empty(),
        c2.kind,
        Seq::<char>::empty(),
    );
}

/// One token text matches at most one claims value under a key.
/// Together with the contracts of `sign` and `extract_at` this is
/// the round trip: extracting a token that was signed gives back,
/// field for field, exactly the claims that were signed.
pub proof fn lemma_token_match_unique(
    t: Seq<char>,
    key: Seq<char>,
    c1: ClaimsView,
    c2: ClaimsView,
)
    requires
        token_match(t, key, c1),
        token_match(t, key, c2),
    ensures
        c1 =~= c2,
{
    let si1 = signing_input_of(c1);
    let si2 = signing_input_of(c2);
    let mac1 = mac_of(si1, key);
    let mac2 = mac_of(si2, key);
    assert(t =~= si1 + seq!['.'] + mac1);
    assert(t =~= si2 + seq!['.'] + mac2);
    assert(t[si1.len() as int] == '.') by {
        assert((si1 + seq!['.'] + mac1)[si1.len() as int] == '.');
    }
    assert(t[si2.len() as int] == '.') by {
        assert((si2 + seq!['.'] + mac2)[si2.len() as int] == '.');
    }
    if si1.len() < si2.len() {
        assert(t[si2.len() as int] == mac1[si2.len() - si1.len() - 1]) by {
            assert((si1 + seq!['.'] + mac1)[si2.len() as int] == mac1[si2.len() - si1.len() - 1]);
        }
        assert(false);
    } else if si2.len() < si1.len() {
        assert(t[si1.len() as int] == mac2[si1.len() - si2.len() - 1]) by {
            assert((si2 + seq!['.'] + mac2)[si1.len() as int] == mac2[si1.len() - si2.len() - 1]);
        }
        assert(false);
    }
    assert(si1 =~= si2) by {
        assert(forall|m: int|
            0 <= m < si1.len() ==> #[trigger] si1[m] == (si1 + seq!['.'] + mac1)[m] && si2[m]
                == (si2 + seq!['.'] + mac2)[m]);
    }
    assert("HS256."@ + payload_of(c1) == "HS256."@ + payload_of(c2));
    lemma_concat_cancel_left("HS256."@, payload_of(c1), payload_of(c2));
    lemma_payload_injective(c1, c2);
}

/// A token of a kind a gate does not accept cannot authorize a
/// request there: every claims value the text matches carries that
/// same unaccepted kind.
pub proof fn lemma_wrong_kind_excluded(
    t: Seq<char>,
    key: Seq<char>,
    c: ClaimsView,
    roles: Seq<String>,
)
    requires
        token_match(t, key, c),
        !role_held(roles, c.kind),
    ensures
        forall|c2: ClaimsView| token_match(t, key, c2) ==> !role_held(roles, c2.kind),
{
    assert forall|c2: ClaimsView| token_match(t, key, c2) implies !role_held(roles, c2.kind) by {
        lemma_token_match_unique(t, key, c, c2);
    }
}

/// A token whose expiry lies before `now` fails verification at
/// `now`, however genuine its signature: no claims can both match
/// the text and have a window around `now`. The second conclusion
/// is the exact negation of what `verify_at` returns, so under
/// these premises `verify_at` answers false.
pub proof fn lemma_expired_token_fails(t: Seq<char>, key: Seq<char>, c: ClaimsView, now: u64)
    requires
        token_match(t, key, c),
        now > c.exp,
    ensures
        forall|c2: ClaimsView| token_match(t, key, c2) ==> !c2.in_window(now),
        !(exists|c2: ClaimsView| token_match(t, key, c2) && c2.in_window(now)),
{
    assert forall|c2: ClaimsView| token_match(t, key, c2) implies !c2.in_window(now) by {
        lemma_token_match_unique(t, key, c, c2);
    }
}

} // verus!
