use vstd::prelude::*;

verus! {

pub open spec fn is_digit(b: u8) -> bool {
    48 <= b <= 57
}

pub open spec fn all_digits(s: Seq<u8>) -> bool {
    forall|i: int| 0 <= i < s.len() ==> is_digit(#[trigger] s[i])
}

/// The number written by a string of decimal digits.
pub open spec fn digits_value(s: Seq<u8>) -> int
    decreases s.len(),
{
    if s.len() == 0 {
        0
    } else {
        10 * digits_value(s.drop_last()) + (s.last() - 48)
    }
}

pub open spec fn pow10(n: nat) -> int
    decreases n,
{
    if n == 0 {
        1
    } else {
        10 * pow10((n - 1) as nat)
    }
}

pub proof fn lemma_pow10_bound(n: nat)
    requires
        n <= 9,
    ensures
        1 <= pow10(n) <= 1_000_000_000,
        n >= 1 ==> pow10(n) == 10 * pow10((n - 1) as nat),
{
    lemma_pow10_mono(n, 9);
    reveal_with_fuel(pow10, 10);
    assert(pow10(9) == 1_000_000_000);
}

proof fn lemma_pow10_mono(m: nat, n: nat)
    requires
        m <= n,
    ensures
        1 <= pow10(m) <= pow10(n),
    decreases n,
{
    if n > m {
        lemma_pow10_mono(m, (n - 1) as nat);
    } else if n > 0 {
        lemma_pow10_mono(0, (n - 1) as nat);
    }
}

/// A fraction's digits in units of 1/10000: the first four digits count,
/// the rest are dropped.
pub open spec fn frac_fixed(f: Seq<u8>) -> int {
    let g = if f.len() > 4 {
        f.take(4)
    } else {
        f
    };
    digits_value(g) * pow10((4 - g.len()) as nat)
}

/// The index of the first `.` in `b`, or `b.len()` when there is none.
pub open spec fn dot_pos(b: Seq<u8>) -> int
    decreases b.len(),
{
    if b.len() == 0 || b[0] == 46 {
        0
    } else {
        1 + dot_pos(b.drop_first())
    }
}

/// The value, in units of 1/10000, of a decimal literal: an optional `+` or
/// `-`, at most nine digits, then optionally a `.` and more digits, with at
/// least one digit in all. `None` for anything else.
pub open spec fn fixed_literal(t: Seq<u8>) -> Option<int> {
    let signed = t.len() > 0 && (t[0] == 45 || t[0] == 43);
    let neg = t.len() > 0 && t[0] == 45;
    let b = if signed {
        t.drop_first()
    } else {
        t
    };
    let p = dot_pos(b);
    let ip = b.take(p);
    let fp = b.skip(p + 1);
    if ip.len() <= 9 && all_digits(ip) && (if p == b.len() {
        ip.len() >= 1
    } else {
        all_digits(fp) && ip.len() + fp.len() >= 1
    }) {
        let mag = digits_value(ip) * 10000 + if p == b.len() {
            0
        } else {
            frac_fixed(fp)
        };
        Some(
            if neg {
                -mag
            } else {
                mag
            },
        )
    } else {
        None
    }
}

/// `s` cut at every space, as `str::split(' ')` cuts it: `n` spaces give
/// `n + 1` pieces, empty ones included.
pub open spec fn tokens(s: Seq<u8>) -> Seq<Seq<u8>>
    decreases s.len(),
{
    if s.len() == 0 {
        seq![Seq::empty()]
    } else if s.last() == 32 {
        tokens(s.drop_last()).push(Seq::empty())
    } else {
        let t = tokens(s.drop_last());
        t.update(t.len() - 1, t.last().push(s.last()))
    }
}

proof fn lemma_tokens_nonempty(s: Seq<u8>)
    ensures
        tokens(s).len() >= 1,
    decreases s.len(),
{
    if s.len() > 0 {
        lemma_tokens_nonempty(s.drop_last());
    }
}

proof fn lemma_dot_pos(b: Seq<u8>, i: int)
    requires
        0 <= i <= b.len(),
        forall|j: int| 0 <= j < i ==> b[j] != 46,
        i == b.len() || b[i] == 46,
    ensures
        dot_pos(b) == i,
    decreases i,
{
    if i > 0 {
        let c = b.drop_first();
        assert forall|j: int| 0 <= j < i - 1 implies c[j] != 46 by {
            assert(c[j] == b[j + 1]);
        }
        lemma_dot_pos(c, i - 1);
    }
}

/// Cuts a line at every space.
pub fn split_tokens(s: &Vec<u8>) -> (r: Vec<Vec<u8>>)
    ensures
        r@.len() == tokens(s@).len(),
        forall|i: int| 0 <= i < r@.len() ==> (#[trigger] r@[i])@ == tokens(s@)[i],
{
    let mut done: Vec<Vec<u8>> = Vec::new();
    let mut cur: Vec<u8> = Vec::new();
    let mut i: usize = 0;
    while i < s.len()
        invariant
            i <= s@.len(),
            done@.len() + 1 == tokens(s@.take(i as int)).len(),
            forall|k: int| 0 <= k < done@.len() ==> (#[trigger] done@[k])@ == tokens(s@.take(i as int))[k],
            cur@ == tokens(s@.take(i as int)).last(),
        decreases s@.len() - i,
    {
        proof {
            lemma_tokens_nonempty(s@.take(i as int));
            assert(s@.take(i + 1).drop_last() =~= s@.take(i as int));
        }
        let b: u8 = s[i];
        if b == 32 {
            done.push(cur);
            cur = Vec::new();
        } else {
            cur.push(b);
        }
        i = i + 1;
    }
    done.push(cur);
    assert(s@.take(s@.len() as int) =~= s@);
    done
}

/// `digits_value` of `s[from..to]`, for digits only.
fn digits_to_int(s: &Vec<u8>, from: usize, to: usize) -> (v: i64)
    requires
        from <= to <= s@.len(),
        to - from <= 9,
        all_digits(s@.subrange(from as int, to as int)),
    ensures
        v == digits_value(s@.subrange(from as int, to as int)),
        0 <= v < pow10((to - from) as nat),
{
    let mut v: i64 = 0;
    let mut i: usize = from;
    while i < to
        invariant
            from <= i <= to <= s@.len(),
            to - from <= 9,
            all_digits(s@.subrange(from as int, to as int)),
            v == digits_value(s@.subrange(from as int, i as int)),
            0 <= v < pow10((i - from) as nat),
        decreases to - i,
    {
        proof {
            assert(s@.subrange(from as int, i + 1).drop_last() =~= s@.subrange(from as int, i as int));
            assert(s@[i as int] == s@.subrange(from as int, to as int)[i - from]);
            lemma_pow10_bound((i + 1 - from) as nat);
            assert(pow10((i + 1 - from) as nat) == 10 * pow10((i - from) as nat));
        }
        v = 10 * v + (s[i] - 48) as i64;
        i = i + 1;
    }
    v
}

/// Whether `s[from..to]` holds only digits.
fn digits_only(s: &Vec<u8>, from: usize, to: usize) -> (ok: bool)
    requires
        from <= to <= s@.len(),
    ensures
        ok == all_digits(s@.subrange(from as int, to as int)),
{
    let mut i: usize = from;
    while i < to
        invariant
            from <= i <= to <= s@.len(),
            all_digits(s@.subrange(from as int, i as int)),
        decreases to - i,
    {
        if s[i] < 48 || s[i] > 57 {
            assert(s@.subrange(from as int, to as int)[i - from] == s@[i as int]);
            return false;
        }
        assert(forall|k: int| 0 <= k < i + 1 - from ==> #[trigger] s@.subrange(from as int, i + 1)[k] == s@.subrange(from as int, i as int).push(s@[i as int])[k]);
        i = i + 1;
    }
    true
}

/// The value, in units of 1/10000, of the decimal literal `t`; `None` when `t`
/// is not one.
#[verifier::rlimit(60)]
pub fn parse_fixed(t: &Vec<u8>) -> (r: Option<i64>)
    ensures
        r matches Some(v) ==> fixed_literal(t@) == Some(v as int),
        r is None ==> fixed_literal(t@) is None,
{
    let n: usize = t.len();
    let neg: bool = n > 0 && t[0] == 45;
    let signed: bool = n > 0 && (t[0] == 45 || t[0] == 43);
    let start: usize = if signed {
        1
    } else {
        0
    };
    let ghost b = if signed {
        t@.drop_first()
    } else {
        t@
    };
    assert(b =~= t@.skip(start as int));
    let mut p: usize = start;
    while p < n && t[p] != 46
        invariant
            start <= p <= n,
            n == t@.len(),
            b == t@.skip(start as int),
            forall|j: int| 0 <= j < p - start ==> b[j] != 46,
        decreases n - p,
    {
        assert(b[p - start] == t@[p as int]);
        p = p + 1;
    }
    proof {
        if p < n {
            assert(b[p - start] == t@[p as int]);
        }
        lemma_dot_pos(b, p - start);
    }
    let ghost ip = b.take(p - start);
    let ghost fp = b.skip(p - start + 1);
    assert(ip =~= t@.subrange(start as int, p as int));
    if p - start > 9 || (p == n && p - start < 1) || (p < n && p - start < 1 && p + 1 == n) {
        return None;
    }
    if !digits_only(t, start, p) {
        return None;
    }
    let iv: i64 = digits_to_int(t, start, p);
    proof {
        lemma_pow10_bound((p - start) as nat);
    }
    let mut mag: i64 = iv * 10000;
    if p < n {
        assert(fp =~= t@.subrange(p + 1, n as int));
        if !digits_only(t, p + 1, n) {
            return None;
        }
        let flen: usize = if n - (p + 1) > 4 {
            4
        } else {
            n - (p + 1)
        };
        proof {
            assert forall|k: int| 0 <= k < flen implies is_digit(#[trigger] t@.subrange(p + 1, p + 1 + flen)[k]) by {
                assert(t@.subrange(p + 1, p + 1 + flen)[k] == t@.subrange(p + 1, n as int)[k]);
            }
            let g = if fp.len() > 4 {
                fp.take(4)
            } else {
                fp
            };
            assert(g =~= t@.subrange(p + 1, p + 1 + flen));
            reveal_with_fuel(pow10, 5);
        }
        let fv: i64 = digits_to_int(t, p + 1, p + 1 + flen);
        let scale: i64 = if flen == 1 {
            1000
        } else if flen == 2 {
            100
        } else if flen == 3 {
            10
        } else {
            1
        };
        proof {
            reveal_with_fuel(pow10, 5);
            assert(fv < 10000);
            assert(0 <= fv * scale <= 10_000_000) by (nonlinear_arith)
                requires 0 <= fv < 10000, 1 <= scale <= 1000;
        }
        mag = mag + fv * scale;
    } else {
        assert(p == b.len() + start);
    }
    if neg {
        Some(-mag)
    } else {
        Some(mag)
    }
}

/// A decimal literal's value is below 10^14 in size.
pub proof fn lemma_literal_bound(t: Seq<u8>)
    ensures
        fixed_literal(t) matches Some(v) ==> -100_000_000_000_000 <= v <= 100_000_000_000_000,
{
    let signed = t.len() > 0 && (t[0] == 45 || t[0] == 43);
    let b = if signed {
        t.drop_first()
    } else {
        t
    };
    let p = dot_pos(b);
    let ip = b.take(p);
    let fp = b.skip(p + 1);
    if fixed_literal(t) is Some {
        lemma_digits_bound(ip);
        lemma_pow10_mono(ip.len(), 9);
        reveal_with_fuel(pow10, 10);
        if p != b.len() {
            let g = if fp.len() > 4 {
                fp.take(4)
            } else {
                fp
            };
            lemma_digits_bound(g);
            lemma_pow10_mono(g.len(), 4);
            lemma_pow10_mono((4 - g.len()) as nat, 4);
            assert(0 <= digits_value(g) * pow10((4 - g.len()) as nat) <= 10000 * 10000) by (nonlinear_arith)
                requires 0 <= digits_value(g) < pow10(g.len()), pow10(g.len()) <= 10000, 1 <= pow10((4 - g.len()) as nat) <= 10000;
        }
    }
}

/// A string of `n` digits writes a number below `10^n`.
pub proof fn lemma_digits_bound(s: Seq<u8>)
    requires
        all_digits(s),
    ensures
        0 <= digits_value(s) < pow10(s.len()),
    decreases s.len(),
{
    if s.len() > 0 {
        let d = s.drop_last();
        assert(all_digits(d)) by {
            assert forall|i: int| 0 <= i < d.len() implies is_digit(#[trigger] d[i]) by {
                assert(d[i] == s[i]);
            }
        }
        lemma_digits_bound(d);
        assert(is_digit(s[s.len() - 1]));
    }
}

} // verus!
