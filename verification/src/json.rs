use vstd::prelude::*;

verus! {

// ---------------------------------------------------------------------------
// decimal digit runs
// ---------------------------------------------------------------------------
pub open spec fn is_digit(b: u8) -> bool {
    48 <= b && b <= 57
}

/// The decimal digits of `n`, most significant first.
pub open spec fn dec_digits(n: nat) -> Seq<u8>
    decreases n,
{
    if n < 10 {
        seq![(48 + n) as u8]
    } else {
        dec_digits(n / 10).push((48 + (n % 10)) as u8)
    }
}

/// The value a run of digit bytes denotes.
pub open spec fn digits_val(d: Seq<u8>) -> nat
    decreases d.len(),
{
    if d.len() == 0 {
        0
    } else {
        digits_val(d.drop_last()) * 10 + (d.last() - 48) as nat
    }
}

/// The first position at or after `i` that does not hold a digit.
pub open spec fn digits_end(s: Seq<u8>, i: int) -> int
    decreases s.len() - i,
{
    if 0 <= i < s.len() && is_digit(s[i]) {
        digits_end(s, i + 1)
    } else {
        i
    }
}

pub proof fn lemma_digits_end_props(s: Seq<u8>, i: int)
    requires
        0 <= i <= s.len(),
    ensures
        i <= digits_end(s, i) <= s.len(),
        forall|k: int| i <= k < digits_end(s, i) ==> is_digit(s[k]),
        digits_end(s, i) < s.len() ==> !is_digit(s[digits_end(s, i)]),
    decreases s.len() - i,
{
    if i < s.len() && is_digit(s[i]) {
        lemma_digits_end_props(s, i + 1);
    }
}

pub proof fn lemma_digits_end_exact(s: Seq<u8>, i: int, j: int)
    requires
        0 <= i <= j <= s.len(),
        forall|k: int| i <= k < j ==> is_digit(s[k]),
        j == s.len() || !is_digit(s[j]),
    ensures
        digits_end(s, i) == j,
    decreases j - i,
{
    if i < j {
        lemma_digits_end_exact(s, i + 1, j);
    }
}

pub proof fn lemma_dec_digits_props(n: nat)
    ensures
        dec_digits(n).len() >= 1,
        forall|k: int| 0 <= k < dec_digits(n).len() ==> is_digit(dec_digits(n)[k]),
        digits_val(dec_digits(n)) == n,
    decreases n,
{
    if n < 10 {
        let single = seq![(48 + n) as u8];
        assert(dec_digits(n) == single);
        assert(single.drop_last() =~= Seq::<u8>::empty());
        assert(digits_val(single) == digits_val(single.drop_last()) * 10 + (single.last()
            - 48) as nat);
        assert(single.last() == (48 + n) as u8);
        assert(48 + n <= 255);
        assert(((48 + n) as u8) == 48 + n);
        assert(digits_val(single) == n);
    } else {
        lemma_dec_digits_props(n / 10);
        let d = dec_digits(n / 10);
        let whole = d.push((48 + (n % 10)) as u8);
        assert(dec_digits(n) == whole);
        assert(whole.drop_last() =~= d);
        assert(whole.last() == (48 + (n % 10)) as u8);
        assert(48 + (n % 10) <= 255);
        assert(((48 + (n % 10)) as u8) == 48 + (n % 10));
        assert(digits_val(whole) == digits_val(d) * 10 + (n % 10));
        assert(n / 10 * 10 + n % 10 == n) by {
            vstd::arithmetic::div_mod::lemma_fundamental_div_mod(n as int, 10);
        }
    }
}

/// Extending a digit run never shrinks its value.
proof fn lemma_digits_val_extend(d: Seq<u8>, e: Seq<u8>)
    ensures
        digits_val(d) <= digits_val(d + e),
    decreases e.len(),
{
    if e.len() == 0 {
        assert(d + e =~= d);
    } else {
        lemma_digits_val_extend(d, e.drop_last());
        assert((d + e).drop_last() =~= d + e.drop_last());
        assert(digits_val(d + e) == digits_val(d + e.drop_last()) * 10 + ((d + e).last()
            - 48) as nat);
        assert(digits_val(d + e.drop_last()) * 10 >= digits_val(d + e.drop_last()));
    }
}

// ---------------------------------------------------------------------------
// unsigned numbers
// ---------------------------------------------------------------------------
/// Read an unsigned decimal at `i`: the longest digit run, refused when
/// empty or when its value does not fit.
pub open spec fn sp_u64(s: Seq<u8>, i: int) -> Option<(u64, int)> {
    let j = digits_end(s, i);
    if j == i {
        None
    } else if digits_val(s.subrange(i, j)) > u64::MAX {
        None
    } else {
        Some((digits_val(s.subrange(i, j)) as u64, j))
    }
}

/// Parsing a written number at its place in a larger string gives the
/// number back, provided no digit follows it.
pub proof fn lemma_sp_u64_of_enc(w: Seq<u8>, i: int, n: u64)
    requires
        0 <= i,
        i + dec_digits(n as nat).len() <= w.len(),
        w.subrange(i, i + dec_digits(n as nat).len()) == dec_digits(n as nat),
        i + dec_digits(n as nat).len() == w.len() || !is_digit(
            w[i + dec_digits(n as nat).len()],
        ),
    ensures
        sp_u64(w, i) == Some((n, i + dec_digits(n as nat).len())),
{
    let l = dec_digits(n as nat).len();
    lemma_dec_digits_props(n as nat);
    assert forall|k: int| i <= k < i + l implies is_digit(w[k]) by {
        assert(w.subrange(i, i + l)[k - i] == w[k]);
    }
    lemma_digits_end_exact(w, i, i + l);
}

pub fn parse_u64(s: &Vec<u8>, i: usize) -> (r: Option<(u64, usize)>)
    requires
        i <= s@.len(),
    ensures
        match r {
            Some(t) => sp_u64(s@, i as int) == Some((t.0, t.1 as int)) && i < t.1 <= s@.len(),
            None => sp_u64(s@, i as int) is None,
        },
{
    proof {
        lemma_digits_end_props(s@, i as int);
    }
    let ghost end = digits_end(s@, i as int);
    let mut j: usize = i;
    let mut val: u64 = 0;
    if j >= s.len() || !(48 <= s[j] && s[j] <= 57) {
        return None;
    }
    proof {
        lemma_digits_end_props(s@, i as int + 1);
        assert(end == digits_end(s@, i as int + 1));
        assert(i < end);
    }
    while j < s.len() && 48 <= s[j] && s[j] <= 57
        invariant
            i <= j <= s@.len(),
            i < end,
            end == digits_end(s@, i as int),
            forall|k: int| i <= k < j ==> is_digit(s@[k]),
            j <= end,
            digits_end(s@, j as int) == end,
            val == digits_val(s@.subrange(i as int, j as int)),
        decreases s@.len() - j,
    {
        let d: u8 = s[j] - 48;
        let ghost pre = s@.subrange(i as int, j as int);
        let stepped = match val.checked_mul(10) {
            Some(v) => v.checked_add(d as u64),
            None => None,
        };
        proof {
            assert(s@.subrange(i as int, j + 1).drop_last() =~= pre);
            assert(digits_val(s@.subrange(i as int, j + 1)) == digits_val(pre) * 10 + d);
            lemma_digits_end_props(s@, j + 1);
            assert(digits_end(s@, j as int) == digits_end(s@, j + 1));
            assert(j + 1 <= end);
        }
        match stepped {
            Some(v) => {
                val = v;
            },
            None => {
                proof {
                    let full = s@.subrange(i as int, end);
                    assert(full =~= s@.subrange(i as int, j + 1) + s@.subrange(j + 1, end));
                    lemma_digits_val_extend(s@.subrange(i as int, j + 1), s@.subrange(j + 1, end));
                    assert(digits_val(full) > u64::MAX);
                }
                return None;
            },
        }
        j += 1;
    }
    proof {
        assert(digits_end(s@, j as int) == j);
        assert(s@.subrange(i as int, j as int) == s@.subrange(i as int, end));
    }
    Some((val, j))
}

// ---------------------------------------------------------------------------
// signed numbers
// ---------------------------------------------------------------------------
/// The decimal form of `m`, with a leading minus sign when negative.
pub open spec fn enc_i64(m: i64) -> Seq<u8> {
    if m >= 0 {
        dec_digits(m as nat)
    } else {
        seq![45u8] + dec_digits((-(m as int)) as nat)
    }
}

/// Read a signed decimal at `i`.
pub open spec fn sp_i64(s: Seq<u8>, i: int) -> Option<(i64, int)> {
    if 0 <= i < s.len() && s[i] == 45 {
        match sp_u64(s, i + 1) {
            Some((v, j)) => {
                if v <= 0x8000_0000_0000_0000u64 {
                    Some(((-(v as int)) as i64, j))
                } else {
                    None
                }
            },
            None => None,
        }
    } else {
        match sp_u64(s, i) {
            Some((v, j)) => {
                if v <= i64::MAX as u64 {
                    Some((v as i64, j))
                } else {
                    None
                }
            },
            None => None,
        }
    }
}

pub proof fn lemma_sp_i64_of_enc(w: Seq<u8>, i: int, m: i64)
    requires
        0 <= i,
        i + enc_i64(m).len() <= w.len(),
        w.subrange(i, i + enc_i64(m).len()) == enc_i64(m),
        i + enc_i64(m).len() == w.len() || !is_digit(w[i + enc_i64(m).len()]),
    ensures
        sp_i64(w, i) == Some((m, i + enc_i64(m).len())),
{
    if m >= 0 {
        lemma_sp_u64_of_enc(w, i, m as u64);
        lemma_dec_digits_props(m as nat);
        assert(w.subrange(i, i + enc_i64(m).len())[0] == w[i]);
        assert(is_digit(w[i]));
    } else {
        let nn = (-(m as int)) as nat;
        let l = dec_digits(nn).len();
        assert(w.subrange(i, i + enc_i64(m).len())[0] == w[i]);
        assert(w[i] == 45);
        assert(w.subrange(i + 1, i + 1 + l) =~= dec_digits(nn)) by {
            assert forall|k: int| 0 <= k < l implies w.subrange(i + 1, i + 1 + l)[k] == dec_digits(
                nn,
            )[k] by {
                assert(w.subrange(i, i + enc_i64(m).len())[k + 1] == dec_digits(nn)[k]);
            }
        }
        assert(nn <= 0x8000_0000_0000_0000);
        lemma_sp_u64_of_enc(w, i + 1, nn as u64);
    }
}

pub fn parse_i64(s: &Vec<u8>, i: usize) -> (r: Option<(i64, usize)>)
    requires
        i <= s@.len(),
    ensures
        match r {
            Some(t) => sp_i64(s@, i as int) == Some((t.0, t.1 as int)) && i < t.1 <= s@.len(),
            None => sp_i64(s@, i as int) is None,
        },
{
    if i < s.len() && s[i] == 45 {
        match parse_u64(s, i + 1) {
            Some((v, j)) => {
                if v <= 0x8000_0000_0000_0000u64 {
                    let m: i64 = if v == 0x8000_0000_0000_0000u64 {
                        i64::MIN
                    } else {
                        -(v as i64)
                    };
                    Some((m, j))
                } else {
                    None
                }
            },
            None => None,
        }
    } else {
        match parse_u64(s, i) {
            Some((v, j)) => {
                if v <= (i64::MAX as u64) {
                    Some((v as i64, j))
                } else {
                    None
                }
            },
            None => None,
        }
    }
}

// ---------------------------------------------------------------------------
// emitting numbers
// ---------------------------------------------------------------------------
/// Append the decimal digits of `n`.
pub fn emit_u64(out: &mut Vec<u8>, n: u64)
    ensures
        final(out)@ == old(out)@ + dec_digits(n as nat),
    decreases n,
{
    if n < 10 {
        out.push(48 + (n as u8));
        proof {
            assert(out@ =~= old(out)@ + dec_digits(n as nat));
        }
    } else {
        emit_u64(out, n / 10);
        out.push(48 + ((n % 10) as u8));
        proof {
            assert(out@ =~= old(out)@ + dec_digits(n as nat));
        }
    }
}

// ---------------------------------------------------------------------------
// strings
// ---------------------------------------------------------------------------
/// A byte string that can stand inside a JSON string: no control bytes.
pub open spec fn valid_str(s: Seq<u8>) -> bool {
    forall|k: int| 0 <= k < s.len() ==> s[k] >= 0x20
}

/// How one byte is written inside a quoted string: quote and backslash get
/// a backslash escape, every other byte stands for itself.
pub open spec fn esc(b: u8) -> Seq<u8> {
    if b == 34 || b == 92 {
        seq![92u8, b]
    } else {
        seq![b]
    }
}

pub open spec fn enc_str_body(s: Seq<u8>) -> Seq<u8>
    decreases s.len(),
{
    if s.len() == 0 {
        Seq::empty()
    } else {
        esc(s[0]) + enc_str_body(s.skip(1))
    }
}

/// A quoted, escaped string.
pub open spec fn enc_str(s: Seq<u8>) -> Seq<u8> {
    seq![34u8] + enc_str_body(s) + seq![34u8]
}

pub proof fn lemma_enc_str_body_push(s: Seq<u8>, b: u8)
    ensures
        enc_str_body(s.push(b)) == enc_str_body(s) + esc(b),
    decreases s.len(),
{
    if s.len() == 0 {
        assert(s.push(b)[0] == b);
        assert(s.push(b).skip(1) =~= Seq::<u8>::empty());
        assert(enc_str_body(Seq::<u8>::empty()) == Seq::<u8>::empty());
        assert(enc_str_body(s.push(b)) =~= enc_str_body(s) + esc(b));
    } else {
        assert(s.push(b).skip(1) =~= s.skip(1).push(b));
        lemma_enc_str_body_push(s.skip(1), b);
        assert(enc_str_body(s.push(b)) == esc(s[0]) + (enc_str_body(s.skip(1)) + esc(b)));
        assert(esc(s[0]) + (enc_str_body(s.skip(1)) + esc(b)) =~= (esc(s[0]) + enc_str_body(
            s.skip(1),
        )) + esc(b));
    }
}

/// Read the rest of a quoted string at `i` (the opening quote already
/// consumed), up to and including the closing quote.
pub open spec fn sp_str_body(s: Seq<u8>, i: int) -> Option<(Seq<u8>, int)>
    decreases s.len() - i,
{
    if i < 0 || i >= s.len() {
        None
    } else if s[i] == 34 {
        Some((Seq::empty(), i + 1))
    } else if s[i] == 92 {
        if i + 1 < s.len() && (s[i + 1] == 34 || s[i + 1] == 92) {
            match sp_str_body(s, i + 2) {
                Some(t) => Some((seq![s[i + 1]] + t.0, t.1)),
                None => None,
            }
        } else {
            None
        }
    } else if s[i] < 0x20 {
        None
    } else {
        match sp_str_body(s, i + 1) {
            Some(t) => Some((seq![s[i]] + t.0, t.1)),
            None => None,
        }
    }
}

/// A string without quotes or backslashes is written as itself.
pub proof fn lemma_enc_str_body_all_plain(s: Seq<u8>)
    requires
        forall|k: int| 0 <= k < s.len() ==> s[k] != 34 && s[k] != 92,
    ensures
        enc_str_body(s) == s,
    decreases s.len(),
{
    if s.len() > 0 {
        lemma_enc_str_body_all_plain(s.skip(1));
        assert(esc(s[0]) + s.skip(1) =~= s);
    }
}

/// Read a quoted string at `i`.
pub open spec fn sp_str(s: Seq<u8>, i: int) -> Option<(Seq<u8>, int)> {
    if 0 <= i < s.len() && s[i] == 34 {
        sp_str_body(s, i + 1)
    } else {
        None
    }
}

pub proof fn lemma_sp_str_body_props(s: Seq<u8>, i: int)
    ensures
        match sp_str_body(s, i) {
            Some(t) => i < t.1 <= s.len() && valid_str(t.0),
            None => true,
        },
    decreases s.len() - i,
{
    if 0 <= i < s.len() {
        if s[i] == 34 {
        } else if s[i] == 92 {
            if i + 1 < s.len() && (s[i + 1] == 34 || s[i + 1] == 92) {
                lemma_sp_str_body_props(s, i + 2);
            }
        } else if s[i] < 0x20 {
        } else {
            lemma_sp_str_body_props(s, i + 1);
        }
    }
}

proof fn lemma_sp_str_body_of_enc(w: Seq<u8>, i: int, s: Seq<u8>)
    requires
        valid_str(s),
        0 <= i,
        i + enc_str_body(s).len() < w.len(),
        w.subrange(i, i + enc_str_body(s).len()) == enc_str_body(s),
        w[i + enc_str_body(s).len()] == 34,
    ensures
        sp_str_body(w, i) == Some((s, i + enc_str_body(s).len() + 1)),
    decreases s.len(),
{
    let l = enc_str_body(s).len() as int;
    if s.len() == 0 {
        assert(w[i] == 34);
    } else {
        let b = s[0];
        let rest = s.skip(1);
        let lr = enc_str_body(rest).len() as int;
        assert(enc_str_body(s) == esc(b) + enc_str_body(rest));
        if b == 34 || b == 92 {
            assert(w[i] == enc_str_body(s)[0] && w[i] == 92) by {
                assert(w.subrange(i, i + l)[0] == w[i]);
            }
            assert(w[i + 1] == b) by {
                assert(w.subrange(i, i + l)[1] == w[i + 1]);
            }
            assert(w.subrange(i + 2, i + 2 + lr) =~= enc_str_body(rest)) by {
                assert forall|k: int| 0 <= k < lr implies w.subrange(i + 2, i + 2 + lr)[k]
                    == enc_str_body(rest)[k] by {
                    assert(w.subrange(i, i + l)[k + 2] == enc_str_body(s)[k + 2]);
                }
            }
            lemma_sp_str_body_of_enc(w, i + 2, rest);
            assert(seq![b] + rest =~= s);
        } else {
            assert(w[i] == b) by {
                assert(w.subrange(i, i + l)[0] == w[i]);
            }
            assert(b >= 0x20 && b != 34 && b != 92);
            assert(w.subrange(i + 1, i + 1 + lr) =~= enc_str_body(rest)) by {
                assert forall|k: int| 0 <= k < lr implies w.subrange(i + 1, i + 1 + lr)[k]
                    == enc_str_body(rest)[k] by {
                    assert(w.subrange(i, i + l)[k + 1] == enc_str_body(s)[k + 1]);
                }
            }
            lemma_sp_str_body_of_enc(w, i + 1, rest);
            assert(seq![b] + rest =~= s);
        }
    }
}

/// Parsing a written string at its place in a larger byte string gives the
/// string back.
pub proof fn lemma_sp_str_of_enc(w: Seq<u8>, i: int, s: Seq<u8>)
    requires
        valid_str(s),
        0 <= i,
        i + enc_str(s).len() <= w.len(),
        w.subrange(i, i + enc_str(s).len()) == enc_str(s),
    ensures
        sp_str(w, i) == Some((s, i + enc_str(s).len())),
{
    let l = enc_str(s).len() as int;
    let lb = enc_str_body(s).len() as int;
    assert(w[i] == 34) by {
        assert(w.subrange(i, i + l)[0] == w[i]);
    }
    assert(w[i + 1 + lb] == 34) by {
        assert(w.subrange(i, i + l)[1 + lb] == w[i + 1 + lb]);
    }
    assert(w.subrange(i + 1, i + 1 + lb) =~= enc_str_body(s)) by {
        assert forall|k: int| 0 <= k < lb implies w.subrange(i + 1, i + 1 + lb)[k] == enc_str_body(
            s,
        )[k] by {
            assert(w.subrange(i, i + l)[k + 1] == enc_str(s)[k + 1]);
        }
    }
    lemma_sp_str_body_of_enc(w, i + 1, s);
}

/// Append a quoted, escaped string.
pub fn emit_str(out: &mut Vec<u8>, s: &Vec<u8>)
    ensures
        final(out)@ == old(out)@ + enc_str(s@),
{
    out.push(34);
    let mut k: usize = 0;
    while k < s.len()
        invariant
            k <= s@.len(),
            out@ == old(out)@ + seq![34u8] + enc_str_body(s@.take(k as int)),
        decreases s@.len() - k,
    {
        let b = s[k];
        if b == 34 || b == 92 {
            out.push(92);
            out.push(b);
        } else {
            out.push(b);
        }
        proof {
            lemma_enc_str_body_push(s@.take(k as int), b);
            assert(s@.take(k + 1) =~= s@.take(k as int).push(b));
            assert(out@ =~= old(out)@ + seq![34u8] + enc_str_body(s@.take(k + 1)));
        }
        k += 1;
    }
    out.push(34);
    proof {
        assert(s@.take(s@.len() as int) =~= s@);
        assert(out@ =~= old(out)@ + enc_str(s@));
    }
}

/// Read a quoted string at `i`.
pub fn parse_str(s: &Vec<u8>, i: usize) -> (r: Option<(Vec<u8>, usize)>)
    requires
        i <= s@.len(),
    ensures
        match r {
            Some(t) => sp_str(s@, i as int) == Some((t.0@, t.1 as int)) && i < t.1 <= s@.len(),
            None => sp_str(s@, i as int) is None,
        },
{
    if i >= s.len() || s[i] != 34 {
        return None;
    }
    let mut acc: Vec<u8> = Vec::new();
    let mut cur: usize = i + 1;
    loop
        invariant
            i < s@.len(),
            s@[i as int] == 34,
            i + 1 <= cur <= s@.len(),
            sp_str_body(s@, i + 1) == (match sp_str_body(s@, cur as int) {
                Some(t) => Some((acc@ + t.0, t.1)),
                None => None::<(Seq<u8>, int)>,
            }),
        decreases s@.len() - cur,
    {
        if cur >= s.len() {
            return None;
        }
        let b = s[cur];
        if b == 34 {
            proof {
                assert(sp_str_body(s@, cur as int) == Some((Seq::<u8>::empty(), cur + 1)));
                assert(acc@ + Seq::<u8>::empty() =~= acc@);
                lemma_sp_str_body_props(s@, i + 1);
            }
            return Some((acc, cur + 1));
        } else if b == 92 {
            if cur + 1 < s.len() && (s[cur + 1] == 34 || s[cur + 1] == 92) {
                let c = s[cur + 1];
                let ghost pre = acc@;
                acc.push(c);
                proof {
                    assert forall|t: (Seq<u8>, int)|
                        sp_str_body(s@, cur + 2) == Some(t) implies pre + (seq![c] + t.0) =~= acc@
                        + t.0 by {}
                }
                cur = cur + 2;
            } else {
                return None;
            }
        } else if b < 0x20 {
            return None;
        } else {
            let ghost pre = acc@;
            acc.push(b);
            proof {
                assert forall|t: (Seq<u8>, int)|
                    sp_str_body(s@, cur + 1) == Some(t) implies pre + (seq![b] + t.0) =~= acc@
                    + t.0 by {}
            }
            cur = cur + 1;
        }
    }
}

// ---------------------------------------------------------------------------
// byte arrays
// ---------------------------------------------------------------------------
pub open spec fn enc_arr_rest(s: Seq<u8>) -> Seq<u8>
    decreases s.len(),
{
    if s.len() == 0 {
        Seq::empty()
    } else {
        seq![44u8] + dec_digits(s[0] as nat) + enc_arr_rest(s.skip(1))
    }
}

/// A byte string written as a JSON array of decimal numbers.
pub open spec fn enc_arr(s: Seq<u8>) -> Seq<u8> {
    if s.len() == 0 {
        seq![91u8, 93u8]
    } else {
        seq![91u8] + dec_digits(s[0] as nat) + enc_arr_rest(s.skip(1)) + seq![93u8]
    }
}

/// Read one array element: a decimal that fits in a byte.
pub open spec fn sp_byte(s: Seq<u8>, i: int) -> Option<(u8, int)> {
    match sp_u64(s, i) {
        Some((v, j)) => if v <= 255 {
            Some((v as u8, j))
        } else {
            None
        },
        None => None,
    }
}

pub open spec fn sp_arr_rest(s: Seq<u8>, i: int, acc: Seq<u8>) -> Option<(Seq<u8>, int)>
    decreases s.len() - i,
{
    if i < 0 || i >= s.len() {
        None
    } else if s[i] == 93 {
        Some((acc, i + 1))
    } else if s[i] == 44 {
        match sp_byte(s, i + 1) {
            Some((b, j)) => if i + 1 < j && j <= s.len() {
                sp_arr_rest(s, j, acc.push(b))
            } else {
                None
            },
            None => None,
        }
    } else {
        None
    }
}

/// Read a JSON array of byte-sized decimals at `i`.
pub open spec fn sp_arr(s: Seq<u8>, i: int) -> Option<(Seq<u8>, int)> {
    if 0 <= i < s.len() && s[i] == 91 {
        if i + 1 < s.len() && s[i + 1] == 93 {
            Some((Seq::empty(), i + 2))
        } else {
            match sp_byte(s, i + 1) {
                Some((b, j)) => if i + 1 < j && j <= s.len() {
                    sp_arr_rest(s, j, seq![b])
                } else {
                    None
                },
                None => None,
            }
        }
    } else {
        None
    }
}

proof fn lemma_sp_arr_rest_of_enc(w: Seq<u8>, i: int, s: Seq<u8>, acc: Seq<u8>)
    requires
        0 <= i,
        i + enc_arr_rest(s).len() < w.len(),
        w.subrange(i, i + enc_arr_rest(s).len()) == enc_arr_rest(s),
        w[i + enc_arr_rest(s).len()] == 93,
    ensures
        sp_arr_rest(w, i, acc) == Some((acc + s, i + enc_arr_rest(s).len() + 1)),
    decreases s.len(),
{
    let l = enc_arr_rest(s).len() as int;
    if s.len() == 0 {
        assert(w[i] == 93);
        assert(acc + s =~= acc);
    } else {
        let b = s[0];
        let d = dec_digits(b as nat);
        let dl = d.len() as int;
        let rest = s.skip(1);
        let rl = enc_arr_rest(rest).len() as int;
        lemma_dec_digits_props(b as nat);
        assert(enc_arr_rest(s) == seq![44u8] + d + enc_arr_rest(rest));
        assert(w[i] == 44) by {
            assert(w.subrange(i, i + l)[0] == w[i]);
        }
        assert(w.subrange(i + 1, i + 1 + dl) =~= d) by {
            assert forall|k: int| 0 <= k < dl implies w.subrange(i + 1, i + 1 + dl)[k] == d[k] by {
                assert(w.subrange(i, i + l)[k + 1] == enc_arr_rest(s)[k + 1]);
            }
        }
        assert(w.subrange(i + 1 + dl, i + 1 + dl + rl) =~= enc_arr_rest(rest)) by {
            assert forall|k: int| 0 <= k < rl implies w.subrange(i + 1 + dl, i + 1 + dl + rl)[k]
                == enc_arr_rest(rest)[k] by {
                assert(w.subrange(i, i + l)[k + 1 + dl] == enc_arr_rest(s)[k + 1 + dl]);
            }
        }
        // the byte after the digits is ',' or ']', never a digit
        if rest.len() == 0 {
            assert(w[i + 1 + dl] == 93);
            assert(!is_digit(w[i + 1 + dl]));
        } else {
            assert(enc_arr_rest(rest)[0] == 44) by {
                assert(enc_arr_rest(rest) == seq![44u8] + dec_digits(rest[0] as nat)
                    + enc_arr_rest(rest.skip(1)));
            }
            assert(w[i + 1 + dl] == 44) by {
                assert(w.subrange(i + 1 + dl, i + 1 + dl + rl)[0] == w[i + 1 + dl]);
            }
        }
        lemma_sp_u64_of_enc(w, i + 1, b as u64);
        assert(sp_byte(w, i + 1) == Some((b, i + 1 + dl)));
        lemma_sp_arr_rest_of_enc(w, i + 1 + dl, rest, acc.push(b));
        assert(acc.push(b) + rest =~= acc + s);
    }
}

/// Parsing a written byte array at its place in a larger byte string gives
/// the bytes back.
pub proof fn lemma_sp_arr_of_enc(w: Seq<u8>, i: int, s: Seq<u8>)
    requires
        0 <= i,
        i + enc_arr(s).len() <= w.len(),
        w.subrange(i, i + enc_arr(s).len()) == enc_arr(s),
    ensures
        sp_arr(w, i) == Some((s, i + enc_arr(s).len())),
{
    let l = enc_arr(s).len() as int;
    assert(w[i] == 91) by {
        assert(w.subrange(i, i + l)[0] == w[i]);
    }
    if s.len() == 0 {
        assert(w[i + 1] == 93) by {
            assert(w.subrange(i, i + l)[1] == w[i + 1]);
        }
    } else {
        let b = s[0];
        let d = dec_digits(b as nat);
        let dl = d.len() as int;
        let rest = s.skip(1);
        let rl = enc_arr_rest(rest).len() as int;
        lemma_dec_digits_props(b as nat);
        assert(w.subrange(i + 1, i + 1 + dl) =~= d) by {
            assert forall|k: int| 0 <= k < dl implies w.subrange(i + 1, i + 1 + dl)[k] == d[k] by {
                assert(w.subrange(i, i + l)[k + 1] == enc_arr(s)[k + 1]);
            }
        }
        assert(w.subrange(i + 1 + dl, i + 1 + dl + rl) =~= enc_arr_rest(rest)) by {
            assert forall|k: int| 0 <= k < rl implies w.subrange(i + 1 + dl, i + 1 + dl + rl)[k]
                == enc_arr_rest(rest)[k] by {
                assert(w.subrange(i, i + l)[k + 1 + dl] == enc_arr(s)[k + 1 + dl]);
            }
        }
        if rest.len() == 0 {
            assert(w[i + 1 + dl] == 93) by {
                assert(w.subrange(i, i + l)[l - 1] == enc_arr(s)[l - 1]);
            }
            assert(!is_digit(w[i + 1 + dl]));
        } else {
            assert(enc_arr_rest(rest)[0] == 44) by {
                assert(enc_arr_rest(rest) == seq![44u8] + dec_digits(rest[0] as nat)
                    + enc_arr_rest(rest.skip(1)));
            }
            assert(w[i + 1 + dl] == 44) by {
                assert(w.subrange(i + 1 + dl, i + 1 + dl + rl)[0] == w[i + 1 + dl]);
            }
        }
        lemma_sp_u64_of_enc(w, i + 1, b as u64);
        assert(sp_byte(w, i + 1) == Some((b, i + 1 + dl)));
        // the first byte is not ']', so the empty-array branch is not taken
        assert(w[i + 1] == d[0]) by {
            assert(w.subrange(i + 1, i + 1 + dl)[0] == d[0]);
        }
        assert(is_digit(d[0]));
        assert(w[i + 1] != 93);
        assert(w[i + 1 + dl + rl] == 93) by {
            assert(w.subrange(i, i + l)[l - 1] == enc_arr(s)[l - 1]);
            assert(enc_arr(s)[l - 1] == 93);
        }
        lemma_sp_arr_rest_of_enc(w, i + 1 + dl, rest, seq![b]);
        assert(seq![b] + rest =~= s);
    }
}

pub proof fn lemma_enc_arr_rest_push(s: Seq<u8>, b: u8)
    ensures
        enc_arr_rest(s.push(b)) == enc_arr_rest(s) + seq![44u8] + dec_digits(b as nat),
    decreases s.len(),
{
    if s.len() == 0 {
        assert(s.push(b)[0] == b);
        assert(s.push(b).skip(1) =~= Seq::<u8>::empty());
        assert(enc_arr_rest(Seq::<u8>::empty()) == Seq::<u8>::empty());
        assert(enc_arr_rest(s.push(b)) =~= enc_arr_rest(s) + seq![44u8] + dec_digits(b as nat));
    } else {
        assert(s.push(b).skip(1) =~= s.skip(1).push(b));
        lemma_enc_arr_rest_push(s.skip(1), b);
        assert(enc_arr_rest(s.push(b)) == seq![44u8] + dec_digits(s[0] as nat) + (enc_arr_rest(
            s.skip(1),
        ) + seq![44u8] + dec_digits(b as nat)));
        assert(seq![44u8] + dec_digits(s[0] as nat) + (enc_arr_rest(s.skip(1)) + seq![44u8]
            + dec_digits(b as nat)) =~= (seq![44u8] + dec_digits(s[0] as nat) + enc_arr_rest(
            s.skip(1),
        )) + seq![44u8] + dec_digits(b as nat));
    }
}

/// Append a byte string as a JSON array of decimals.
pub fn emit_arr(out: &mut Vec<u8>, s: &Vec<u8>)
    ensures
        final(out)@ == old(out)@ + enc_arr(s@),
{
    out.push(91);
    if s.len() == 0 {
        out.push(93);
        proof {
            assert(out@ =~= old(out)@ + enc_arr(s@));
        }
        return ;
    }
    emit_u64(out, s[0] as u64);
    let mut k: usize = 1;
    while k < s.len()
        invariant
            1 <= k <= s@.len(),
            s@.len() > 0,
            out@ == old(out)@ + seq![91u8] + dec_digits(s@[0] as nat) + enc_arr_rest(
                s@.subrange(1, k as int),
            ),
        decreases s@.len() - k,
    {
        out.push(44);
        emit_u64(out, s[k] as u64);
        proof {
            lemma_enc_arr_rest_push(s@.subrange(1, k as int), s@[k as int]);
            assert(s@.subrange(1, k + 1) =~= s@.subrange(1, k as int).push(s@[k as int]));
            assert(out@ =~= old(out)@ + seq![91u8] + dec_digits(s@[0] as nat) + enc_arr_rest(
                s@.subrange(1, k + 1),
            ));
        }
        k += 1;
    }
    out.push(93);
    proof {
        assert(s@.subrange(1, s@.len() as int) =~= s@.skip(1));
        assert(out@ =~= old(out)@ + enc_arr(s@));
    }
}

/// Read a JSON array of byte-sized decimals at `i`.
pub fn parse_arr(s: &Vec<u8>, i: usize) -> (r: Option<(Vec<u8>, usize)>)
    requires
        i <= s@.len(),
    ensures
        match r {
            Some(t) => sp_arr(s@, i as int) == Some((t.0@, t.1 as int)) && i < t.1 <= s@.len(),
            None => sp_arr(s@, i as int) is None,
        },
{
    if i >= s.len() || s[i] != 91 {
        return None;
    }
    if i + 1 < s.len() && s[i + 1] == 93 {
        return Some((Vec::new(), i + 2));
    }
    let first = match parse_u64(s, i + 1) {
        Some((v, j)) => {
            if v <= 255 {
                (v as u8, j)
            } else {
                return None;
            }
        },
        None => {
            return None;
        },
    };
    let mut acc: Vec<u8> = Vec::new();
    acc.push(first.0);
    let mut cur: usize = first.1;
    proof {
        assert(acc@ =~= seq![first.0]);
    }
    loop
        invariant
            i + 1 < cur <= s@.len(),
            acc@.len() >= 1,
            sp_arr(s@, i as int) == sp_arr_rest(s@, cur as int, acc@),
        decreases s@.len() - cur,
    {
        if cur >= s.len() {
            return None;
        }
        let b = s[cur];
        if b == 93 {
            return Some((acc, cur + 1));
        } else if b == 44 {
            match parse_u64(s, cur + 1) {
                Some((v, j)) => {
                    if v <= 255 {
                        acc.push(v as u8);
                        cur = j;
                    } else {
                        return None;
                    }
                },
                None => {
                    return None;
                },
            }
        } else {
            return None;
        }
    }
}

/// Append the decimal form of `m`.
pub fn emit_i64(out: &mut Vec<u8>, m: i64)
    ensures
        final(out)@ == old(out)@ + enc_i64(m),
{
    if m >= 0 {
        emit_u64(out, m as u64);
    } else {
        out.push(45);
        let n: u64 = if m == i64::MIN {
            0x8000_0000_0000_0000u64
        } else {
            (-m) as u64
        };
        emit_u64(out, n);
        proof {
            assert(out@ =~= old(out)@ + enc_i64(m));
        }
    }
}

} // verus!
