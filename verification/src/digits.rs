use vstd::prelude::*;

verus! {

/// The decimal digit character for a value below ten.
pub open spec fn digit_char(d: int) -> char
    recommends
        0 <= d < 10,
{
    ((48 + d) as u8) as char
}

/// Whether a character is a decimal digit.
pub open spec fn is_digit(c: char) -> bool {
    48 <= c as int <= 57
}

/// The canonical decimal rendering of a natural number: no sign, no
/// leading zeroes, at least one digit.
pub open spec fn dec_of(n: nat) -> Seq<char>
    decreases n,
{
    if n < 10 {
        seq![digit_char(n as int)]
    } else {
        dec_of(n / 10).push(digit_char((n % 10) as int))
    }
}

/// The value read back from a sequence of digit characters.
pub open spec fn val_of(s: Seq<char>) -> int
    decreases s.len(),
{
    if s.len() == 0 {
        0
    } else {
        val_of(s.drop_last()) * 10 + (s.last() as int - 48)
    }
}

pub proof fn lemma_dec_of_digits(n: nat)
    ensures
        dec_of(n).len() >= 1,
        forall|i: int| 0 <= i < dec_of(n).len() ==> is_digit(#[trigger] dec_of(n)[i]),
        dec_of(n)[0] == '0' <==> n == 0,
        n == 0 ==> dec_of(n).len() == 1,
    decreases n,
{
    if n < 10 {
        assert(dec_of(n) == seq![digit_char(n as int)]);
        assert(digit_char(0) == '0');
        if n != 0 {
            assert(digit_char(n as int) != '0') by {
                assert(dec_of(n)[0] as int == 48 + n);
            }
        }
    } else {
        lemma_dec_of_digits(n / 10);
        assert(n / 10 > 0);
        assert(dec_of(n)[0] == dec_of(n / 10)[0]);
    }
}

pub proof fn lemma_val_of_dec_of(n: nat)
    ensures
        val_of(dec_of(n)) == n,
    decreases n,
{
    if n < 10 {
        let s = dec_of(n);
        assert(s.drop_last() =~= Seq::<char>::empty());
        assert(val_of(Seq::<char>::empty()) == 0);
        assert(s.last() == digit_char(n as int));
        assert(s.last() as int == 48 + n);
        assert(val_of(s) == 0 * 10 + (48 + n) - 48);
    } else {
        lemma_val_of_dec_of(n / 10);
        let s = dec_of(n);
        assert(s.drop_last() =~= dec_of(n / 10));
        assert(s.last() == digit_char((n % 10) as int));
        assert(s.last() as int == 48 + n % 10);
        assert(val_of(s) == (n / 10) * 10 + n % 10);
        assert((n / 10) * 10 + n % 10 == n) by {
            vstd::arithmetic::div_mod::lemma_fundamental_div_mod(n as int, 10);
        }
    }
}

/// Canonical digit strings decode back to themselves: a non-empty
/// all-digit sequence without a leading zero is `dec_of` of its value.
pub proof fn lemma_dec_of_val_of(s: Seq<char>)
    requires
        s.len() >= 1,
        forall|i: int| 0 <= i < s.len() ==> is_digit(#[trigger] s[i]),
        s[0] == '0' ==> s.len() == 1,
    ensures
        val_of(s) >= 0,
        dec_of(val_of(s) as nat) =~= s,
    decreases s.len(),
{
    if s.len() == 1 {
        assert(s.drop_last() =~= Seq::<char>::empty());
        assert(val_of(Seq::<char>::empty()) == 0);
        assert(s.last() == s[0]);
        assert(val_of(s) == s[0] as int - 48);
        assert(val_of(s) < 10);
        assert(digit_char(val_of(s)) == s[0]) by {
            assert(s[0] as int == 48 + (s[0] as int - 48));
            char_int_cast(s[0]);
        }
    } else {
        let pre = s.drop_last();
        assert(pre[0] == s[0]);
        assert(s[0] != '0');
        lemma_dec_of_val_of(pre);
        let v = val_of(s);
        assert(v == val_of(pre) * 10 + (s.last() as int - 48));
        assert(0 <= s.last() as int - 48 < 10);
        assert(val_of(pre) >= 1) by {
            lemma_dec_of_digits(0);
            if val_of(pre) == 0 {
                assert(dec_of(0) =~= pre);
                assert(pre.len() == 1);
                assert(pre[0] == '0');
            }
        }
        assert(v / 10 == val_of(pre) && v % 10 == s.last() as int - 48) by {
            vstd::arithmetic::div_mod::lemma_fundamental_div_mod_converse(
                v,
                10,
                val_of(pre),
                s.last() as int - 48,
            );
        }
        assert(v >= 10);
        assert(digit_char((v % 10) as int) == s.last()) by {
            assert(s.last() as int == 48 + (s.last() as int - 48));
            char_int_cast(s.last());
        }
    }
}

/// Round a digit character through `int` and back.
proof fn char_int_cast(c: char)
    requires
        is_digit(c),
    ensures
        ((c as int) as u8) as char == c,
{
    assert((c as int) < 128);
}

/// Two canonical decimals followed by non-digit (or empty) tails can
/// only agree if the values and the tails agree.
pub proof fn lemma_dec_prefix_unique(a: nat, b: nat, r1: Seq<char>, r2: Seq<char>)
    requires
        dec_of(a) + r1 =~= dec_of(b) + r2,
        r1.len() > 0 ==> !is_digit(r1[0]),
        r2.len() > 0 ==> !is_digit(r2[0]),
    ensures
        a == b,
        r1 =~= r2,
{
    lemma_dec_of_digits(a);
    lemma_dec_of_digits(b);
    let la = dec_of(a).len() as int;
    let lb = dec_of(b).len() as int;
    if la < lb {
        assert((dec_of(b) + r2)[la] == dec_of(b)[la]);
        assert((dec_of(a) + r1)[la] == r1[la - la]);
        assert(is_digit(r1[0]));
        assert(false);
    } else if lb < la {
        assert((dec_of(a) + r1)[lb] == dec_of(a)[lb]);
        assert((dec_of(b) + r2)[lb] == r2[0]);
        assert(is_digit(r2[0]));
        assert(false);
    } else {
        assert(dec_of(a) =~= dec_of(b)) by {
            assert(forall|i: int|
                0 <= i < la ==> dec_of(a)[i] == (dec_of(a) + r1)[i] && dec_of(b)[i] == (dec_of(b)
                    + r2)[i]);
        }
        lemma_val_of_dec_of(a);
        lemma_val_of_dec_of(b);
        assert((dec_of(a) + r1).len() == la + r1.len());
        assert((dec_of(b) + r2).len() == lb + r2.len());
        assert(r1.len() == r2.len());
        assert forall|i: int| 0 <= i < r1.len() implies r1[i] == r2[i] by {
            assert((dec_of(a) + r1)[la + i] == r1[i]);
            assert((dec_of(b) + r2)[la + i] == r2[i]);
        }
    }
}

/// A digit sequence never reads back negative.
pub proof fn lemma_val_of_nonneg(s: Seq<char>)
    requires
        forall|i: int| 0 <= i < s.len() ==> is_digit(#[trigger] s[i]),
    ensures
        val_of(s) >= 0,
    decreases s.len(),
{
    if s.len() > 0 {
        let pre = s.drop_last();
        assert(forall|i: int| 0 <= i < pre.len() ==> is_digit(#[trigger] pre[i]));
        lemma_val_of_nonneg(pre);
        assert(val_of(pre) * 10 >= 0);
        assert(s.last() == s[s.len() - 1]);
    }
}

/// Appending further digits never shrinks the value.
pub proof fn lemma_val_of_extend(s: Seq<char>, k: int)
    requires
        0 <= k <= s.len(),
        forall|i: int| 0 <= i < s.len() ==> is_digit(#[trigger] s[i]),
    ensures
        val_of(s) >= val_of(s.take(k)),
    decreases s.len() - k,
{
    assert(forall|i: int| 0 <= i < s.take(k).len() ==> is_digit(#[trigger] s.take(k)[i]));
    lemma_val_of_nonneg(s.take(k));
    if k < s.len() {
        lemma_val_of_extend(s, k + 1);
        let t = s.take(k + 1);
        assert(t.drop_last() =~= s.take(k));
        assert(t.last() == s[k]);
        assert(val_of(t) == val_of(s.take(k)) * 10 + (t.last() as int - 48));
        assert(val_of(s.take(k)) * 10 >= val_of(s.take(k)));
    } else {
        assert(s.take(k) =~= s);
    }
}

/// Renders a value in canonical decimal.
pub fn u64_to_dec(n: u64) -> (r: String)
    ensures
        r@ =~= dec_of(n as nat),
{
    let mut chars: Vec<char> = Vec::new();
    let mut m: u64 = n;
    let d0: u8 = 48 + (m % 10) as u8;
    chars.insert(0, d0 as char);
    proof {
        assert(d0 as char == digit_char((m % 10) as int));
        assert(seq![digit_char((m % 10) as int)].push(digit_char((m % 10) as int))[0] == chars@[0]);
    }
    m = m / 10;
    proof {
        if m == 0 {
            assert(dec_of(n as nat) =~= chars@);
        } else {
            assert(dec_of(n as nat) =~= dec_of(m as nat) + chars@);
        }
    }
    while m > 0
        invariant
            m > 0 ==> dec_of(n as nat) =~= dec_of(m as nat) + chars@,
            m == 0 ==> dec_of(n as nat) =~= chars@,
        decreases m,
    {
        let d: u8 = 48 + (m % 10) as u8;
        let ghost pre = chars@;
        chars.insert(0, d as char);
        proof {
            assert(d as char == digit_char((m % 10) as int));
            assert(chars@ =~= seq![digit_char((m % 10) as int)] + pre);
            if m >= 10 {
                assert(dec_of(m as nat) =~= dec_of((m / 10) as nat) + seq![
                    digit_char((m % 10) as int),
                ]);
                assert(dec_of(n as nat) =~= dec_of((m / 10) as nat) + chars@);
            } else {
                assert(dec_of(m as nat) =~= seq![digit_char((m % 10) as int)]);
                assert(dec_of(n as nat) =~= chars@);
            }
        }
        m = m / 10;
    }
    crate::string_ops::string_from_chars(&chars)
}

/// The boundary condition a decimal field must end on: the end of
/// the text, or a character that is not a digit.
pub open spec fn dec_ends_at(s: Seq<char>, j: int) -> bool {
    j == s.len() || !is_digit(s[j])
}

/// Whether the text holds the canonical decimal of `v` from `i` up
/// to the boundary `j`.
pub open spec fn dec_at(s: Seq<char>, i: int, j: int, v: u64) -> bool {
    i <= j <= s.len() && dec_ends_at(s, j) && s.subrange(i, j) == dec_of(v as nat)
}

/// A maximal digit run admits a decimal reading at exactly one
/// boundary, the end of the run.
proof fn lemma_digit_run_end(s: Seq<char>, i: int, j: int, v: u64, j2: int)
    requires
        0 <= i <= j <= s.len(),
        forall|m: int| i <= m < j ==> is_digit(#[trigger] s[m]),
        dec_ends_at(s, j),
        dec_at(s, i, j2, v),
    ensures
        j2 == j,
{
    lemma_dec_of_digits(v as nat);
    assert(s.subrange(i, j2).len() == j2 - i);
    assert(j2 - i == dec_of(v as nat).len());
    assert forall|m: int| i <= m < j2 implies #[trigger] is_digit(s[m]) by {
        assert(s.subrange(i, j2)[m - i] == s[m]);
        assert(is_digit(dec_of(v as nat)[m - i]));
    }
    if j2 < j {
        assert(is_digit(s[j2]));
        assert(false);
    } else if j2 > j {
        assert(is_digit(s[j]));
        assert(false);
    }
}

/// Whether the character at a position is a decimal digit.
pub fn digit_at(s: &str, j: usize) -> (b: bool)
    requires
        j < s@.len(),
    ensures
        b == is_digit(s@[j as int]),
{
    let u = s.get_char(j) as u32;
    48 <= u && u <= 57
}

/// Reads the canonical decimal that starts at position `i`, if the
/// text holds one there, together with the position just past it.
pub fn parse_dec(s: &str, i: usize) -> (r: Option<(u64, usize)>)
    requires
        i <= s@.len(),
        s@.len() <= usize::MAX,
    ensures
        match r {
            Some(p) => dec_at(s@, i as int, p.1 as int, p.0) && i < p.1 && (forall|v2: u64, j2: int|
                dec_at(s@, i as int, j2, v2) ==> v2 == p.0 && j2 == p.1),
            None => forall|v2: u64, j2: int| !dec_at(s@, i as int, j2, v2),
        },
{
    let len = s.unicode_len();
    let mut j: usize = i;
    while j < len && digit_at(s, j)
        invariant
            i <= j <= len,
            len == s@.len(),
            forall|m: int| i <= m < j ==> is_digit(#[trigger] s@[m]),
        decreases len - j,
    {
        j = j + 1;
    }
    proof {
        assert(dec_ends_at(s@, j as int));
    }
    if j == i {
        proof {
            assert forall|v2: u64, j2: int| !dec_at(s@, i as int, j2, v2) by {
                if dec_at(s@, i as int, j2, v2) {
                    lemma_digit_run_end(s@, i as int, j as int, v2, j2);
                    lemma_dec_of_digits(v2 as nat);
                }
            }
        }
        return None;
    }
    if j > i + 1 && s.get_char(i) as u32 == 48 {
        proof {
            assert forall|v2: u64, j2: int| !dec_at(s@, i as int, j2, v2) by {
                if dec_at(s@, i as int, j2, v2) {
                    lemma_digit_run_end(s@, i as int, j as int, v2, j2);
                    lemma_dec_of_digits(v2 as nat);
                    assert(s@.subrange(i as int, j as int)[0] == '0');
                    assert(v2 == 0);
                    assert(j - i == 1);
                }
            }
        }
        return None;
    }
    let ghost run = s@.subrange(i as int, j as int);
    let mut acc: u64 = 0;
    let mut k: usize = i;
    while k < j
        invariant
            i < j <= s@.len(),
            i <= k <= j,
            s@.len() <= usize::MAX,
            forall|m: int| i <= m < j ==> is_digit(#[trigger] s@[m]),
            dec_ends_at(s@, j as int),
            (s@[i as int] as u32 == 48) ==> j == i + 1,
            run == s@.subrange(i as int, j as int),
            acc as int == val_of(run.take(k - i)),
        decreases j - k,
    {
        let c = s.get_char(k);
        let d: u64 = (c as u32 - 48) as u64;
        proof {
            assert(is_digit(s@[k as int]));
            assert(d as int == s@[k as int] as int - 48);
        }
        if acc > (u64::MAX - d) / 10 {
            proof {
                assert(val_of(run.take(k + 1 - i)) > u64::MAX) by {
                    assert(run.take(k + 1 - i).drop_last() =~= run.take(k - i));
                    assert(run.take(k + 1 - i).last() == s@[k as int]);
                    assert(acc * 10 + d > u64::MAX) by {
                        assert(acc >= (u64::MAX - d) / 10 + 1);
                        assert(((u64::MAX - d) / 10 + 1) * 10 >= (u64::MAX - d) + 1) by {
                            vstd::arithmetic::div_mod::lemma_fundamental_div_mod(
                                u64::MAX - d,
                                10,
                            );
                        }
                        assert(acc * 10 >= ((u64::MAX - d) / 10 + 1) * 10) by (nonlinear_arith)
                            requires
                                acc >= (u64::MAX - d) / 10 + 1,
                        ;
                    }
                }
                assert forall|v2: u64, j2: int| !dec_at(s@, i as int, j2, v2) by {
                    if dec_at(s@, i as int, j2, v2) {
                        lemma_digit_run_end(s@, i as int, j as int, v2, j2);
                        lemma_val_of_dec_of(v2 as nat);
                        assert(val_of(run) == v2);
                        assert(forall|m: int| 0 <= m < run.len() ==> is_digit(#[trigger] run[m]));
                        lemma_val_of_extend(run, k + 1 - i);
                        assert(val_of(run) >= val_of(run.take(k + 1 - i)));
                    }
                }
            }
            return None;
        }
        acc = acc * 10 + d;
        k = k + 1;
        proof {
            assert(run.take(k - i).drop_last() =~= run.take(k - 1 - i));
            assert(run.take(k - i).last() == s@[k - 1]);
        }
    }
    proof {
        assert(run.take(j - i) =~= run);
        assert(run.len() >= 1);
        assert(run[0] == s@[i as int]);
        assert(is_digit(run[0]));
        if run[0] == '0' {
            assert(s@[i as int] as u32 == 48);
            assert(j - i == 1);
        }
        lemma_dec_of_val_of(run);
        assert(dec_at(s@, i as int, j as int, acc));
        assert forall|v2: u64, j2: int| dec_at(s@, i as int, j2, v2) implies v2 == acc && j2
            == j as int by {
            lemma_digit_run_end(s@, i as int, j as int, v2, j2);
            lemma_val_of_dec_of(v2 as nat);
        }
    }
    Some((acc, j))
}

} // verus!
