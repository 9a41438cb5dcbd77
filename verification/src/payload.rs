use vstd::prelude::*;

use crate::claims::Claims;
use crate::claims::ClaimsView;
use crate::digits::dec_at;
use crate::digits::dec_of;
use crate::digits::is_digit;
use crate::digits::parse_dec;
use crate::digits::u64_to_dec;
use vstd::string::StrSliceExecFns;
use vstd::string::StringExecFns;

verus! {

/// A length-prefixed text field: the canonical decimal of the
/// length, a colon, then the characters themselves. The prefix makes
/// the field self-delimiting whatever characters it holds.
pub open spec fn field_of(f: Seq<char>) -> Seq<char> {
    dec_of(f.len()) + seq![':'] + f
}

/// The flat rendering of a claims value: each field labelled, the
/// timestamps in canonical decimal, the texts length-prefixed.
pub open spec fn payload_of(c: ClaimsView) -> Seq<char> {
    "exp="@ + dec_of(c.exp as nat) + after_exp(c)
}

/// The renderings that follow each field: the cut points the
/// parser's step-by-step reasoning stands on.
pub open spec fn after_exp(c: ClaimsView) -> Seq<char> {
    ";iat="@ + dec_of(c.iat as nat) + after_iat(c)
}

pub open spec fn after_iat(c: ClaimsView) -> Seq<char> {
    ";nbf="@ + dec_of(c.nbf as nat) + after_nbf(c)
}

pub open spec fn after_nbf(c: ClaimsView) -> Seq<char> {
    ";sub="@ + field_of(c.sub) + after_sub(c)
}

pub open spec fn after_sub(c: ClaimsView) -> Seq<char> {
    ";jti="@ + field_of(c.jti) + after_jti(c)
}

pub open spec fn after_jti(c: ClaimsView) -> Seq<char> {
    ";uid="@ + field_of(c.user_id) + after_uid(c)
}

pub open spec fn after_uid(c: ClaimsView) -> Seq<char> {
    ";kind="@ + field_of(c.kind)
}

/// The characters of the text from position `i` on.
pub open spec fn tail(s: Seq<char>, i: int) -> Seq<char> {
    s.subrange(i, s.len() as int)
}

/// Splitting a tail along a known concatenation.
pub proof fn lemma_tail_split(s: Seq<char>, i: int, a: Seq<char>, b: Seq<char>)
    requires
        0 <= i <= s.len(),
        tail(s, i) == a + b,
    ensures
        i + a.len() + b.len() == s.len(),
        s.subrange(i, i + a.len()) =~= a,
        tail(s, i + a.len()) =~= b,
{
    assert(tail(s, i).len() == s.len() - i);
    assert(forall|m: int| 0 <= m < a.len() ==> tail(s, i)[m] == #[trigger] a[m]);
    assert(forall|m: int| 0 <= m < b.len() ==> tail(s, i)[a.len() + m] == #[trigger] b[m]);
}

/// A tail is its next piece followed by the tail after it.
pub proof fn lemma_tail_join(s: Seq<char>, i: int, j: int)
    requires
        0 <= i <= j <= s.len(),
    ensures
        tail(s, i) =~= s.subrange(i, j) + tail(s, j),
{
}

/// Whether the text continues with the given literal at `i`.
pub fn eat_lit(s: &str, i: usize, lit: &str) -> (r: bool)
    requires
        i <= s@.len(),
        s@.len() <= usize::MAX,
    ensures
        r == (i + lit@.len() <= s@.len() && s@.subrange(i as int, i + lit@.len()) =~= lit@),
{
    let n = lit.unicode_len();
    if n > s.unicode_len() - i {
        return false;
    }
    let mut k: usize = 0;
    while k < n
        invariant
            0 <= k <= n,
            n == lit@.len(),
            i + n <= s@.len() <= usize::MAX,
            forall|m: int| 0 <= m < k ==> s@[i + m] == #[trigger] lit@[m],
        decreases n - k,
    {
        if s.get_char(i + k) != lit.get_char(k) {
            proof {
                assert(s@.subrange(i as int, i + lit@.len())[k as int] == s@[i + k]);
            }
            return false;
        }
        k = k + 1;
    }
    proof {
        assert(s@.subrange(i as int, i + lit@.len()) =~= lit@);
    }
    true
}

/// Reads one length-prefixed field starting at `i`: its text and the
/// position just past it. The contract pins the result down: exactly
/// the texts `f` with `tail(s, i) == field_of(f) + r` are read, and
/// such a decomposition is unique.
pub fn parse_field(s: &str, i: usize) -> (r: Option<(String, usize)>)
    requires
        i <= s@.len(),
        s@.len() <= usize::MAX,
    ensures
        match r {
            Some(p) => i <= p.1 <= s@.len() && tail(s@, i as int) =~= field_of(p.0@) + tail(
                s@,
                p.1 as int,
            ) && (forall|f2: Seq<char>, r2: Seq<char>|
                tail(s@, i as int) == field_of(f2) + r2 ==> f2 == p.0@ && r2 == tail(
                    s@,
                    p.1 as int,
                )),
            None => forall|f2: Seq<char>, r2: Seq<char>| tail(s@, i as int) != field_of(f2) + r2,
        },
{
    let len = s.unicode_len();
    proof {
        lemma_field_shape(s@, i as int);
    }
    let dec = parse_dec(s, i);
    match dec {
        None => {
            proof {
                assert forall|f2: Seq<char>, r2: Seq<char>|
                    tail(s@, i as int) != field_of(f2) + r2 by {
                    if tail(s@, i as int) == field_of(f2) + r2 {
                        lemma_field_dec_at(s@, i as int, f2, r2);
                    }
                }
            }
            None
        },
        Some((n, j)) => {
            proof {
                assert forall|f2: Seq<char>, r2: Seq<char>|
                    tail(s@, i as int) == field_of(f2) + r2 implies f2.len() == n && j == i
                    + dec_of(n as nat).len() by {
                    lemma_field_dec_at(s@, i as int, f2, r2);
                }
            }
            if j >= len || !char_eq_colon(s, j) {
                proof {
                    assert forall|f2: Seq<char>, r2: Seq<char>|
                        tail(s@, i as int) != field_of(f2) + r2 by {
                        if tail(s@, i as int) == field_of(f2) + r2 {
                            lemma_field_dec_at(s@, i as int, f2, r2);
                            let jj = i + dec_of(f2.len()).len();
                            assert(jj == j);
                            assert(tail(s@, jj)[0] == s@[jj]);
                            assert(tail(s@, jj).len() >= 1);
                            assert(s@[j as int] == ':');
                        }
                    }
                }
                return None;
            }
            if n > (len - j - 1) as u64 {
                proof {
                    assert forall|f2: Seq<char>, r2: Seq<char>|
                        tail(s@, i as int) != field_of(f2) + r2 by {
                        if tail(s@, i as int) == field_of(f2) + r2 {
                            lemma_field_dec_at(s@, i as int, f2, r2);
                            assert(field_of(f2).len() == dec_of(f2.len()).len() + 1 + f2.len());
                            assert(f2.len() == n);
                        }
                    }
                }
                return None;
            }
            let n_us: usize = n as usize;
            let content = s.substring_char(j + 1, j + 1 + n_us).to_owned();
            let end: usize = j + 1 + n_us;
            proof {
                let cv = content@;
                assert(cv =~= s@.subrange(j + 1, end as int));
                lemma_tail_join(s@, i as int, j as int);
                lemma_tail_join(s@, j as int, j + 1);
                lemma_tail_join(s@, j + 1, end as int);
                assert(s@.subrange(j as int, j + 1) =~= seq![s@[j as int]]);
                assert(tail(s@, i as int) =~= field_of(cv) + tail(s@, end as int)) by {
                    assert(s@.subrange(i as int, j as int) =~= dec_of(n as nat));
                    assert(cv.len() == n);
                    assert(field_of(cv) + tail(s@, end as int) =~= dec_of(n as nat) + (seq![
                        ':',
                    ] + (cv + tail(s@, end as int))));
                }
                assert forall|f2: Seq<char>, r2: Seq<char>|
                    tail(s@, i as int) == field_of(f2) + r2 implies f2 == cv && r2 == tail(
                    s@,
                    end as int,
                ) by {
                    lemma_field_dec_at(s@, i as int, f2, r2);
                    let jj = i + dec_of(f2.len()).len();
                    assert(jj == j);
                    assert(seq![':'] + f2 + r2 =~= seq![':'] + (f2 + r2));
                    lemma_tail_split(s@, j as int, seq![':'], f2 + r2);
                    lemma_tail_split(s@, j + 1, f2, r2);
                    assert(f2 =~= s@.subrange(j + 1, end as int));
                }
            }
            Some((content, end))
        },
    }
}

/// Whether the character at `j` is a colon.
fn char_eq_colon(s: &str, j: usize) -> (b: bool)
    requires
        j < s@.len(),
    ensures
        b == (s@[j as int] == ':'),
{
    s.get_char(j) == ':'
}

/// If a tail decomposes as a field and a rest, the decimal length
/// prefix stands at the front, ended by the colon.
proof fn lemma_field_dec_at(s: Seq<char>, i: int, f2: Seq<char>, r2: Seq<char>)
    requires
        0 <= i <= s.len(),
        s.len() <= usize::MAX,
        tail(s, i) == field_of(f2) + r2,
    ensures
        f2.len() <= u64::MAX,
        dec_at(s, i, i + dec_of(f2.len()).len(), f2.len() as u64),
        tail(s, i + dec_of(f2.len()).len()) =~= seq![':'] + f2 + r2,
        s.len() - i == field_of(f2).len() + r2.len(),
{
    let mid = seq![':'] + f2 + r2;
    assert(field_of(f2) + r2 =~= dec_of(f2.len()) + mid);
    lemma_tail_split(s, i, dec_of(f2.len()), mid);
    let j = i + dec_of(f2.len()).len();
    assert(tail(s, j)[0] == s[j]);
    assert(mid[0] == ':');
    assert(!is_digit(':'));
    crate::digits::lemma_dec_of_digits(f2.len());
    assert(f2.len() <= tail(s, i).len());
    assert(tail(s, i).len() == s.len() - i);
    assert(f2.len() <= usize::MAX <= u64::MAX);
    assert(f2.len() as u64 as nat == f2.len());
}

/// Field shape facts usable before anything is known of the text.
proof fn lemma_field_shape(s: Seq<char>, i: int)
    ensures
        forall|f2: Seq<char>| (#[trigger] field_of(f2)).len() >= 2 + f2.len(),
{
    assert forall|f2: Seq<char>| (#[trigger] field_of(f2)).len() >= 2 + f2.len() by {
        crate::digits::lemma_dec_of_digits(f2.len());
    }
}

/// Renders one length-prefixed field.
pub fn field_str(f: &str) -> (r: String)
    ensures
        r@ =~= field_of(f@),
{
    let n = f.unicode_len();
    let mut r = u64_to_dec(n as u64);
    r.push(':');
    r.append(f);
    proof {
        assert(r@ =~= dec_of(f@.len()) + seq![':'] + f@);
    }
    r
}

/// Renders a claims value in the flat payload form.
#[verifier::rlimit(60)]
pub fn encode_payload(c: &Claims) -> (r: String)
    ensures
        r@ =~= payload_of(c@),
{
    let mut r = String::from_str("exp=");
    r.append(u64_to_dec(c.exp).as_str());
    r.append(";iat=");
    r.append(u64_to_dec(c.iat).as_str());
    r.append(";nbf=");
    r.append(u64_to_dec(c.nbf).as_str());
    r.append(";sub=");
    r.append(field_str(c.sub.as_str()).as_str());
    r.append(";jti=");
    r.append(field_str(c.jti.as_str()).as_str());
    r.append(";uid=");
    r.append(field_str(c.additional_claims.user_id.as_str()).as_str());
    r.append(";kind=");
    r.append(field_str(c.additional_claims.kind.as_str()).as_str());
    proof {
        assert(after_uid(c@) =~= ";kind="@ + field_of(c@.kind));
        assert(after_jti(c@) =~= (";uid="@ + field_of(c@.user_id)) + after_uid(c@));
        assert(after_sub(c@) =~= (";jti="@ + field_of(c@.jti)) + after_jti(c@));
        assert(after_nbf(c@) =~= (";sub="@ + field_of(c@.sub)) + after_sub(c@));
        assert(after_iat(c@) =~= (";nbf="@ + dec_of(c@.nbf as nat)) + after_nbf(c@));
        assert(after_exp(c@) =~= (";iat="@ + dec_of(c@.iat as nat)) + after_iat(c@));
        assert(r@ =~= payload_of(c@));
    }
    r
}

/// Reads a literal label followed by a canonical decimal. The
/// uniqueness clause quantifies over every decomposition whose rest
/// does not begin with a digit, the shape every caller's format has.
fn parse_lit_dec(s: &str, i: usize, lit: &str) -> (r: Option<(u64, usize)>)
    requires
        i <= s@.len(),
        s@.len() <= usize::MAX,
    ensures
        match r {
            Some(p) => i <= p.1 <= s@.len() && tail(s@, i as int) =~= lit@ + dec_of(p.0 as nat)
                + tail(s@, p.1 as int) && (forall|v2: u64, r2: Seq<char>|
                tail(s@, i as int) == lit@ + dec_of(v2 as nat) + r2 && (r2.len() > 0
                    ==> !is_digit(r2[0])) ==> v2 == p.0 && r2 == tail(s@, p.1 as int)),
            None => forall|v2: u64, r2: Seq<char>|
                (r2.len() > 0 ==> !is_digit(r2[0])) ==> tail(s@, i as int) != lit@ + dec_of(
                    v2 as nat,
                ) + r2,
        },
{
    if !eat_lit(s, i, lit) {
        proof {
            assert forall|v2: u64, r2: Seq<char>|
                (r2.len() > 0 ==> !is_digit(r2[0])) implies tail(s@, i as int) != lit@ + dec_of(
                v2 as nat,
            ) + r2 by {
                if tail(s@, i as int) == lit@ + dec_of(v2 as nat) + r2 {
                    assert(lit@ + dec_of(v2 as nat) + r2 =~= lit@ + (dec_of(v2 as nat) + r2));
                    lemma_tail_split(s@, i as int, lit@, dec_of(v2 as nat) + r2);
                }
            }
        }
        return None;
    }
    let ll = lit.unicode_len();
    let m: usize = i + ll;
    proof {
        lemma_tail_join(s@, i as int, m as int);
    }
    match parse_dec(s, m) {
        None => {
            proof {
                assert forall|v2: u64, r2: Seq<char>|
                    (r2.len() > 0 ==> !is_digit(r2[0])) implies tail(s@, i as int) != lit@
                    + dec_of(v2 as nat) + r2 by {
                    if tail(s@, i as int) == lit@ + dec_of(v2 as nat) + r2 {
                        lemma_lit_dec_at(s@, i as int, lit@, v2, r2);
                    }
                }
            }
            None
        },
        Some((v, j)) => {
            proof {
                lemma_tail_join(s@, m as int, j as int);
                assert(s@.subrange(m as int, j as int) =~= dec_of(v as nat));
                assert(tail(s@, i as int) =~= lit@ + dec_of(v as nat) + tail(s@, j as int)) by {
                    assert(s@.subrange(i as int, m as int) =~= lit@);
                    assert(lit@ + dec_of(v as nat) + tail(s@, j as int) =~= lit@ + (dec_of(
                        v as nat,
                    ) + tail(s@, j as int)));
                }
                assert forall|v2: u64, r2: Seq<char>|
                    tail(s@, i as int) == lit@ + dec_of(v2 as nat) + r2 && (r2.len() > 0
                        ==> !is_digit(r2[0])) implies v2 == v && r2 == tail(s@, j as int) by {
                    lemma_lit_dec_at(s@, i as int, lit@, v2, r2);
                    lemma_tail_split(s@, m as int, dec_of(v2 as nat), r2);
                }
            }
            Some((v, j))
        },
    }
}

/// Behind a matched label, a decimal decomposition of the tail gives
/// a `dec_at` reading.
proof fn lemma_lit_dec_at(s: Seq<char>, i: int, lit: Seq<char>, v2: u64, r2: Seq<char>)
    requires
        0 <= i <= s.len(),
        tail(s, i) == lit + dec_of(v2 as nat) + r2,
        r2.len() > 0 ==> !is_digit(r2[0]),
    ensures
        dec_at(s, i + lit.len(), i + lit.len() + dec_of(v2 as nat).len(), v2),
        tail(s, i + lit.len()) =~= dec_of(v2 as nat) + r2,
{
    assert(lit + dec_of(v2 as nat) + r2 =~= lit + (dec_of(v2 as nat) + r2));
    lemma_tail_split(s, i, lit, dec_of(v2 as nat) + r2);
    let m = i + lit.len();
    lemma_tail_split(s, m, dec_of(v2 as nat), r2);
    let j = m + dec_of(v2 as nat).len();
    if r2.len() > 0 {
        assert(tail(s, j)[0] == s[j]);
    }
}

/// Reads a literal label followed by a length-prefixed field.
fn parse_lit_field(s: &str, i: usize, lit: &str) -> (r: Option<(String, usize)>)
    requires
        i <= s@.len(),
        s@.len() <= usize::MAX,
    ensures
        match r {
            Some(p) => i <= p.1 <= s@.len() && tail(s@, i as int) =~= lit@ + field_of(p.0@) + tail(
                s@,
                p.1 as int,
            ) && (forall|f2: Seq<char>, r2: Seq<char>|
                tail(s@, i as int) == lit@ + field_of(f2) + r2 ==> f2 == p.0@ && r2 == tail(
                    s@,
                    p.1 as int,
                )),
            None => forall|f2: Seq<char>, r2: Seq<char>|
                tail(s@, i as int) != lit@ + field_of(f2) + r2,
        },
{
    if !eat_lit(s, i, lit) {
        proof {
            assert forall|f2: Seq<char>, r2: Seq<char>|
                tail(s@, i as int) != lit@ + field_of(f2) + r2 by {
                if tail(s@, i as int) == lit@ + field_of(f2) + r2 {
                    assert(lit@ + field_of(f2) + r2 =~= lit@ + (field_of(f2) + r2));
                    lemma_tail_split(s@, i as int, lit@, field_of(f2) + r2);
                }
            }
        }
        return None;
    }
    let ll = lit.unicode_len();
    let m: usize = i + ll;
    proof {
        lemma_tail_join(s@, i as int, m as int);
        assert(s@.subrange(i as int, m as int) =~= lit@);
    }
    match parse_field(s, m) {
        None => {
            proof {
                assert forall|f2: Seq<char>, r2: Seq<char>|
                    tail(s@, i as int) != lit@ + field_of(f2) + r2 by {
                    if tail(s@, i as int) == lit@ + field_of(f2) + r2 {
                        assert(lit@ + field_of(f2) + r2 =~= lit@ + (field_of(f2) + r2));
                        lemma_tail_split(s@, i as int, lit@, field_of(f2) + r2);
                    }
                }
            }
            None
        },
        Some((f, j)) => {
            proof {
                assert(tail(s@, i as int) =~= lit@ + field_of(f@) + tail(s@, j as int)) by {
                    assert(lit@ + field_of(f@) + tail(s@, j as int) =~= lit@ + (field_of(f@)
                        + tail(s@, j as int)));
                }
                assert forall|f2: Seq<char>, r2: Seq<char>|
                    tail(s@, i as int) == lit@ + field_of(f2) + r2 implies f2 == f@ && r2 == tail(
                    s@,
                    j as int,
                ) by {
                    assert(lit@ + field_of(f2) + r2 =~= lit@ + (field_of(f2) + r2));
                    lemma_tail_split(s@, i as int, lit@, field_of(f2) + r2);
                }
            }
            Some((f, j))
        },
    }
}

/// The empty tail.
pub open spec fn nil() -> Seq<char> {
    Seq::<char>::empty()
}

/// Reads a whole payload back into claims. Exactly the renderings
/// of `payload_of` are accepted, and each determines its claims.
#[verifier::rlimit(100)]
pub fn parse_payload(s: &str) -> (r: Option<Claims>)
    ensures
        match r {
            Some(c) => s@ =~= payload_of(c@) && (forall|c2: ClaimsView|
                s@ == payload_of(c2) ==> c2 =~= c@),
            None => forall|c2: ClaimsView| s@ != payload_of(c2),
        },
{
    let len = s.unicode_len();
    proof {
        reveal_strlit("exp=");
        reveal_strlit(";iat=");
        reveal_strlit(";nbf=");
        reveal_strlit(";sub=");
        reveal_strlit(";jti=");
        reveal_strlit(";uid=");
        reveal_strlit(";kind=");
        assert(tail(s@, 0) =~= s@);
        assert forall|c2: ClaimsView| true implies #[trigger] payload_of(c2) == "exp="@ + dec_of(
            c2.exp as nat,
        ) + after_exp(c2) && after_exp(c2).len() > 0 && after_exp(c2)[0] == ';' && !is_digit(
            ';',
        ) by {
            assert(after_exp(c2)[0] == ";iat="@[0]);
        }
    }
    let step1 = parse_lit_dec(s, 0, "exp=");
    if step1.is_none() {
        return None;
    }
    let (exp, p1) = step1.unwrap();
    proof {
        assert forall|c2: ClaimsView| s@ == payload_of(c2) implies c2.exp == exp && tail(
            s@,
            p1 as int,
        ) == after_exp(c2) by {}
        assert forall|c2: ClaimsView| true implies #[trigger] after_exp(c2) == ";iat="@ + dec_of(
            c2.iat as nat,
        ) + after_iat(c2) && after_iat(c2).len() > 0 && after_iat(c2)[0] == ';' by {
            assert(after_iat(c2)[0] == ";nbf="@[0]);
        }
    }
    let step2 = parse_lit_dec(s, p1, ";iat=");
    if step2.is_none() {
        return None;
    }
    let (iat, p2) = step2.unwrap();
    proof {
        assert forall|c2: ClaimsView| s@ == payload_of(c2) implies c2.iat == iat && tail(
            s@,
            p2 as int,
        ) == after_iat(c2) by {}
        assert forall|c2: ClaimsView| true implies #[trigger] after_iat(c2) == ";nbf="@ + dec_of(
            c2.nbf as nat,
        ) + after_nbf(c2) && after_nbf(c2).len() > 0 && after_nbf(c2)[0] == ';' by {
            assert(after_nbf(c2)[0] == ";sub="@[0]);
        }
    }
    let step3 = parse_lit_dec(s, p2, ";nbf=");
    if step3.is_none() {
        return None;
    }
    let (nbf, p3) = step3.unwrap();
    proof {
        assert forall|c2: ClaimsView| s@ == payload_of(c2) implies c2.nbf == nbf && tail(
            s@,
            p3 as int,
        ) == after_nbf(c2) by {}
        assert(forall|c2: ClaimsView| #[trigger] after_nbf(c2) == ";sub="@ + field_of(c2.sub)
            + after_sub(c2));
    }
    let step4 = parse_lit_field(s, p3, ";sub=");
    if step4.is_none() {
        return None;
    }
    let (sub, p4) = step4.unwrap();
    proof {
        assert forall|c2: ClaimsView| s@ == payload_of(c2) implies c2.sub == sub@ && tail(
            s@,
            p4 as int,
        ) == after_sub(c2) by {}
        assert(forall|c2: ClaimsView| #[trigger] after_sub(c2) == ";jti="@ + field_of(c2.jti)
            + after_jti(c2));
    }
    let step5 = parse_lit_field(s, p4, ";jti=");
    if step5.is_none() {
        return None;
    }
    let (jti, p5) = step5.unwrap();
    proof {
        assert forall|c2: ClaimsView| s@ == payload_of(c2) implies c2.jti == jti@ && tail(
            s@,
            p5 as int,
        ) == after_jti(c2) by {}
        assert(forall|c2: ClaimsView| #[trigger] after_jti(c2) == ";uid="@ + field_of(c2.user_id)
            + after_uid(c2));
    }
    let step6 = parse_lit_field(s, p5, ";uid=");
    if step6.is_none() {
        return None;
    }
    let (uid, p6) = step6.unwrap();
    proof {
        assert forall|c2: ClaimsView| s@ == payload_of(c2) implies c2.user_id == uid@ && tail(
            s@,
            p6 as int,
        ) == after_uid(c2) by {}
        assert forall|c2: ClaimsView| true implies #[trigger] after_uid(c2) == ";kind="@
            + field_of(c2.kind) + nil() by {
            assert(";kind="@ + field_of(c2.kind) + nil() =~= ";kind="@ + field_of(c2.kind));
        }
    }
    let step7 = parse_lit_field(s, p6, ";kind=");
    if step7.is_none() {
        return None;
    }
    let (kind, p7) = step7.unwrap();
    proof {
        assert forall|c2: ClaimsView| s@ == payload_of(c2) implies c2.kind == kind@ && tail(
            s@,
            p7 as int,
        ) == nil() by {}
    }
    if p7 != len {
        proof {
            assert forall|c2: ClaimsView| s@ != payload_of(c2) by {
                if s@ == payload_of(c2) {
                    assert(tail(s@, p7 as int).len() == s@.len() - p7);
                }
            }
        }
        return None;
    }
    let c = Claims::new(exp, iat, nbf, sub, jti, uid, kind);
    proof {
        assert(tail(s@, p7 as int) =~= nil());
        assert(tail(s@, p6 as int) =~= after_uid(c@)) by {
            assert(after_uid(c@) =~= ";kind="@ + field_of(c@.kind) + nil());
        }
        assert(tail(s@, p5 as int) =~= after_jti(c@));
        assert(tail(s@, p4 as int) =~= after_sub(c@));
        assert(tail(s@, p3 as int) =~= after_nbf(c@));
        assert(tail(s@, p2 as int) =~= after_iat(c@));
        assert(tail(s@, p1 as int) =~= after_exp(c@));
        assert(s@ =~= payload_of(c@)) by {
            assert(tail(s@, 0) =~= s@);
        }
        assert forall|c2: ClaimsView| s@ == payload_of(c2) implies c2 =~= c@ by {}
    }
    Some(c)
}

} // verus!
