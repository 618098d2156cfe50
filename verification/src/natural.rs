//! Natural order of file names: a run of digits compares by the number it
//! writes, every other character by its code point, and names that this
//! leaves equal (such as `a01` and `a1`) by their characters.

use vstd::prelude::*;
use crate::links::{lemma_lex_antisym, lemma_lex_refl, lemma_lex_total, lemma_lex_trans, lex_le, lex_le_chars};
use crate::text::{all_digits, decimal, digit_char, is_digit, lemma_decimal_all_digits};

verus! {

/// The code that opens a run of digits in a natural key: that of `0`, so
/// that a run sorts among other characters where its digits would.
pub open spec fn run_mark() -> int {
    48
}

/// The number of digits at the front of `s`.
pub open spec fn digit_run(s: Seq<char>) -> nat
    decreases s.len(),
{
    if s.len() > 0 && is_digit(s[0]) {
        1 + digit_run(s.drop_first())
    } else {
        0
    }
}

/// `s` without its leading zeros.
pub open spec fn strip_zeros(s: Seq<char>) -> Seq<char>
    decreases s.len(),
{
    if s.len() > 0 && s[0] == '0' {
        strip_zeros(s.drop_first())
    } else {
        s
    }
}

/// The code points of a text.
pub open spec fn codes(s: Seq<char>) -> Seq<int> {
    s.map_values(|c: char| c as int)
}

/// The token of a run of digits in a natural key: the run mark, the
/// number of digits without leading zeros, and those digits.
pub open spec fn run_token(run: Seq<char>) -> Seq<int> {
    seq![run_mark(), strip_zeros(run).len() as int] + codes(strip_zeros(run))
}

/// A text starts with at most as many digits as it has characters, and
/// with at least one when its first character is a digit.
pub proof fn lemma_digit_run_bound(s: Seq<char>)
    ensures
        digit_run(s) <= s.len(),
        s.len() > 0 && is_digit(s[0]) ==> digit_run(s) >= 1,
    decreases s.len(),
{
    if s.len() > 0 && is_digit(s[0]) {
        lemma_digit_run_bound(s.drop_first());
    }
}

/// The natural key of a text: each run of digits becomes the run mark, the
/// number of its digits without leading zeros, and those digits; each other
/// character becomes its code point.  Keys compare lexicographically, so a
/// shorter number sorts before a longer one and numbers of one length sort
/// digit by digit: by their value.
pub open spec fn natural_key(s: Seq<char>) -> Seq<int>
    decreases s.len(),
{
    if s.len() == 0 {
        Seq::empty()
    } else if is_digit(s[0]) {
        let n = digit_run(s) as int;
        proof {
            lemma_digit_run_bound(s);
        }
        run_token(s.take(n)) + natural_key(s.skip(n))
    } else {
        seq![s[0] as int] + natural_key(s.drop_first())
    }
}

/// Lexicographic order of integer sequences.
pub open spec fn int_lex_le(a: Seq<int>, b: Seq<int>) -> bool
    decreases a.len(),
{
    if a.len() == 0 {
        true
    } else if b.len() == 0 {
        false
    } else if a[0] != b[0] {
        a[0] < b[0]
    } else {
        int_lex_le(a.drop_first(), b.drop_first())
    }
}

proof fn lemma_int_lex_refl(a: Seq<int>)
    ensures
        int_lex_le(a, a),
    decreases a.len(),
{
    if a.len() > 0 {
        lemma_int_lex_refl(a.drop_first());
    }
}

proof fn lemma_int_lex_total(a: Seq<int>, b: Seq<int>)
    ensures
        int_lex_le(a, b) || int_lex_le(b, a),
    decreases a.len(),
{
    if a.len() > 0 && b.len() > 0 && a[0] == b[0] {
        lemma_int_lex_total(a.drop_first(), b.drop_first());
    }
}

proof fn lemma_int_lex_trans(a: Seq<int>, b: Seq<int>, c: Seq<int>)
    requires
        int_lex_le(a, b),
        int_lex_le(b, c),
    ensures
        int_lex_le(a, c),
    decreases a.len(),
{
    if a.len() > 0 && b.len() > 0 && c.len() > 0 && a[0] == b[0] && b[0] == c[0] {
        lemma_int_lex_trans(a.drop_first(), b.drop_first(), c.drop_first());
    }
}

proof fn lemma_int_lex_antisym(a: Seq<int>, b: Seq<int>)
    requires
        int_lex_le(a, b),
        int_lex_le(b, a),
    ensures
        a == b,
    decreases a.len(),
{
    if a.len() > 0 && b.len() > 0 {
        lemma_int_lex_antisym(a.drop_first(), b.drop_first());
        assert(a =~= seq![a[0]] + a.drop_first());
        assert(b =~= seq![b[0]] + b.drop_first());
    } else {
        assert(a =~= b);
    }
}

proof fn lemma_int_lex_skip(a: Seq<int>, b: Seq<int>, i: int)
    requires
        0 <= i <= a.len(),
        i <= b.len(),
        forall|j: int| 0 <= j < i ==> a[j] == b[j],
    ensures
        int_lex_le(a, b) == int_lex_le(a.skip(i), b.skip(i)),
    decreases i,
{
    if i > 0 {
        assert forall|j: int| 0 <= j < i - 1 implies a.drop_first()[j] == b.drop_first()[j] by {
            assert(a.drop_first()[j] == a[j + 1]);
            assert(b.drop_first()[j] == b[j + 1]);
        }
        lemma_int_lex_skip(a.drop_first(), b.drop_first(), i - 1);
        assert(a.drop_first().skip(i - 1) =~= a.skip(i));
        assert(b.drop_first().skip(i - 1) =~= b.skip(i));
    } else {
        assert(a.skip(0) =~= a);
        assert(b.skip(0) =~= b);
    }
}

/// The natural order of file names: by natural key, and names with equal
/// keys by their characters.
pub open spec fn key_le(a: Seq<char>, b: Seq<char>) -> bool {
    if natural_key(a) == natural_key(b) {
        lex_le(a, b)
    } else {
        int_lex_le(natural_key(a), natural_key(b))
    }
}

/// The natural order is reflexive.
pub proof fn lemma_key_refl(a: Seq<char>)
    ensures
        key_le(a, a),
{
    lemma_lex_refl(a);
}

/// The natural order is total.
pub proof fn lemma_key_total(a: Seq<char>, b: Seq<char>)
    ensures
        key_le(a, b) || key_le(b, a),
{
    lemma_lex_total(a, b);
    lemma_int_lex_total(natural_key(a), natural_key(b));
}

/// The natural order is antisymmetric.
pub proof fn lemma_key_antisym(a: Seq<char>, b: Seq<char>)
    requires
        key_le(a, b),
        key_le(b, a),
    ensures
        a == b,
{
    if natural_key(a) == natural_key(b) {
        lemma_lex_antisym(a, b);
    } else {
        lemma_int_lex_antisym(natural_key(a), natural_key(b));
    }
}

/// The natural order is transitive.
pub proof fn lemma_key_trans(a: Seq<char>, b: Seq<char>, c: Seq<char>)
    requires
        key_le(a, b),
        key_le(b, c),
    ensures
        key_le(a, c),
{
    let (ka, kb, kc) = (natural_key(a), natural_key(b), natural_key(c));
    if ka == kb && kb == kc {
        lemma_lex_trans(a, b, c);
    } else if ka != kb && kb != kc {
        lemma_int_lex_trans(ka, kb, kc);
        if ka == kc {
            lemma_int_lex_antisym(ka, kb);
        }
    }
}

/// The integers of a list of `u64`.
pub open spec fn ints(v: Seq<u64>) -> Seq<int> {
    v.map_values(|x: u64| x as int)
}

/// Whether a character is an ASCII digit.
fn is_digit_char(c: char) -> (r: bool)
    ensures
        r == is_digit(c),
{
    let n = c as u32;
    assert('0' as int == 48 && '9' as int == 57);
    48 <= n && n <= 57
}

/// The code point of a character.
fn code_of(c: char) -> (r: u64)
    ensures
        r as int == c as int,
{
    let n = c as u32;
    assert(n as int == c as int);
    n as u64
}

proof fn lemma_digit_run_at(s: Seq<char>, j: int)
    requires
        0 <= j <= s.len(),
        forall|m: int| 0 <= m < j ==> is_digit(#[trigger] s[m]),
        j == s.len() || !is_digit(s[j]),
    ensures
        digit_run(s) == j,
    decreases j,
{
    if j > 0 {
        assert forall|m: int| 0 <= m < j - 1 implies is_digit(#[trigger] s.drop_first()[m]) by {
            assert(s.drop_first()[m] == s[m + 1]);
        }
        if j < s.len() {
            assert(s.drop_first()[j - 1] == s[j]);
        }
        lemma_digit_run_at(s.drop_first(), j - 1);
    }
}

proof fn lemma_strip_at(r: Seq<char>, k: int)
    requires
        0 <= k <= r.len(),
        forall|m: int| 0 <= m < k ==> #[trigger] r[m] == '0',
        k == r.len() || r[k] != '0',
    ensures
        strip_zeros(r) == r.skip(k),
    decreases k,
{
    if k > 0 {
        assert forall|m: int| 0 <= m < k - 1 implies #[trigger] r.drop_first()[m] == '0' by {
            assert(r.drop_first()[m] == r[m + 1]);
        }
        if k < r.len() {
            assert(r.drop_first()[k - 1] == r[k]);
        }
        lemma_strip_at(r.drop_first(), k - 1);
        assert(r.drop_first().skip(k - 1) =~= r.skip(k));
    } else {
        assert(r.skip(0) =~= r);
    }
}

/// The natural key of a text.
pub fn natural_key_of(s: &[char]) -> (r: Vec<u64>)
    ensures
        ints(r@) == natural_key(s@),
{
    let mut key: Vec<u64> = Vec::new();
    let mut i: usize = 0;
    assert(s@.skip(0) =~= s@);
    while i < s.len()
        invariant
            i <= s@.len(),
            ints(key@) + natural_key(s@.skip(i as int)) == natural_key(s@),
        decreases s@.len() - i,
    {
        let ghost rest = s@.skip(i as int);
        let ghost start = ints(key@);
        if is_digit_char(s[i]) {
            let mut j: usize = i;
            while j < s.len() && is_digit_char(s[j])
                invariant
                    i <= j <= s@.len(),
                    forall|m: int| i <= m < j ==> is_digit(#[trigger] s@[m]),
                decreases s@.len() - j,
            {
                j = j + 1;
            }
            let mut k: usize = i;
            while k < j && s[k] == '0'
                invariant
                    i <= k <= j,
                    j <= s@.len(),
                    forall|m: int| i <= m < k ==> #[trigger] s@[m] == '0',
                decreases j - k,
            {
                k = k + 1;
            }
            key.push(48);
            key.push((j - k) as u64);
            let mut m: usize = k;
            while m < j
                invariant
                    k <= m <= j,
                    j <= s@.len(),
                    ints(key@) == start + seq![run_mark(), (j - k) as int] + codes(s@.subrange(k as int, m as int)),
                decreases j - m,
            {
                let ghost before = key@;
                key.push(code_of(s[m]));
                assert(ints(key@) =~= ints(before).push(s@[m as int] as int));
                assert(codes(s@.subrange(k as int, m + 1)) =~= codes(s@.subrange(k as int, m as int)).push(
                    s@[m as int] as int,
                ));
                m = m + 1;
            }
            proof {
                let n = (j - i) as int;
                assert forall|q: int| 0 <= q < n implies is_digit(#[trigger] rest[q]) by {
                    assert(rest[q] == s@[i + q]);
                }
                if j < s.len() {
                    assert(rest[n] == s@[j as int]);
                }
                lemma_digit_run_at(rest, n);
                let run = rest.take(n);
                assert forall|q: int| 0 <= q < k - i implies #[trigger] run[q] == '0' by {
                    assert(run[q] == s@[i + q]);
                }
                if k < j {
                    assert(run[k - i] == s@[k as int]);
                }
                lemma_strip_at(run, k - i);
                assert(run.skip(k - i) =~= s@.subrange(k as int, j as int));
                assert(rest.skip(n) =~= s@.skip(j as int));
                assert(rest[0] == s@[i as int]);
                assert(natural_key(rest) == seq![run_mark(), (j - k) as int] + codes(
                    s@.subrange(k as int, j as int),
                ) + natural_key(s@.skip(j as int)));
                assert(ints(key@) + natural_key(s@.skip(j as int)) =~= start + natural_key(rest));
            }
            i = j;
        } else {
            let ghost before = key@;
            key.push(code_of(s[i]));
            proof {
                assert(ints(key@) =~= ints(before).push(s@[i as int] as int));
                assert(rest[0] == s@[i as int]);
                assert(rest.drop_first() =~= s@.skip(i + 1));
                assert(natural_key(rest) == seq![s@[i as int] as int] + natural_key(s@.skip(i + 1)));
                assert(ints(key@) + natural_key(s@.skip(i + 1)) =~= start + natural_key(rest));
            }
            i = i + 1;
        }
    }
    assert(s@.skip(i as int) =~= Seq::<char>::empty());
    assert(ints(key@) + Seq::<int>::empty() =~= ints(key@));
    key
}

/// Whether `a` comes no later than `b` in lexicographic order.
fn int_lex_le_of(a: &[u64], b: &[u64]) -> (r: bool)
    ensures
        r == int_lex_le(ints(a@), ints(b@)),
{
    let mut i: usize = 0;
    while i < a.len() && i < b.len() && a[i] == b[i]
        invariant
            i <= a@.len(),
            i <= b@.len(),
            forall|j: int| 0 <= j < i ==> a@[j] == b@[j],
        decreases a@.len() - i,
    {
        i = i + 1;
    }
    let ghost (ia, ib) = (ints(a@), ints(b@));
    proof {
        assert forall|j: int| 0 <= j < i implies ia[j] == ib[j] by {
            assert(ia[j] == a@[j] as int);
            assert(ib[j] == b@[j] as int);
        }
        lemma_int_lex_skip(ia, ib, i as int);
    }
    let r = if i == a.len() {
        true
    } else if i == b.len() {
        false
    } else {
        a[i] < b[i]
    };
    proof {
        let sa = ia.skip(i as int);
        let sb = ib.skip(i as int);
        if i < a.len() && i < b.len() {
            assert(sa[0] == a@[i as int] as int);
            assert(sb[0] == b@[i as int] as int);
        }
    }
    r
}

/// Whether the file name `a` comes no later than `b` in natural order.
pub fn key_le_chars(a: &[char], b: &[char]) -> (r: bool)
    ensures
        r == key_le(a@, b@),
{
    let ka = natural_key_of(a);
    let kb = natural_key_of(b);
    let ab = int_lex_le_of(ka.as_slice(), kb.as_slice());
    let ba = int_lex_le_of(kb.as_slice(), ka.as_slice());
    proof {
        lemma_int_lex_refl(natural_key(a@));
        if ab && ba {
            lemma_int_lex_antisym(natural_key(a@), natural_key(b@));
        }
    }
    if ab && ba {
        lex_le_chars(a, b)
    } else {
        ab
    }
}

proof fn lemma_digit_run_props(s: Seq<char>)
    ensures
        digit_run(s) <= s.len(),
        forall|j: int| 0 <= j < digit_run(s) ==> is_digit(#[trigger] s[j]),
        digit_run(s) < s.len() ==> !is_digit(s[digit_run(s) as int]),
    decreases s.len(),
{
    if s.len() > 0 && is_digit(s[0]) {
        let t = s.drop_first();
        lemma_digit_run_props(t);
        assert forall|j: int| 0 <= j < digit_run(s) implies is_digit(#[trigger] s[j]) by {
            if j > 0 {
                assert(s[j] == t[j - 1]);
            }
        }
        if digit_run(s) < s.len() {
            assert(s[digit_run(s) as int] == t[digit_run(t) as int]);
        }
    }
}

/// The natural key of a text that ends in a non-digit, followed by any
/// text, is the key of the first followed by the key of the second.
pub proof fn lemma_key_after_nondigit(a: Seq<char>, b: Seq<char>)
    requires
        a.len() == 0 || !is_digit(a.last()),
    ensures
        natural_key(a + b) == natural_key(a) + natural_key(b),
    decreases a.len(),
{
    let ab = a + b;
    if a.len() == 0 {
        assert(ab =~= b);
        assert(natural_key(a) + natural_key(b) =~= natural_key(b));
    } else if !is_digit(a[0]) {
        assert(ab[0] == a[0]);
        assert(ab.drop_first() =~= a.drop_first() + b);
        lemma_key_after_nondigit(a.drop_first(), b);
        assert(natural_key(ab) =~= natural_key(a) + natural_key(b));
    } else {
        lemma_digit_run_props(a);
        let j = digit_run(a) as int;
        lemma_digit_run_bound(a);
        if j == a.len() {
            assert(is_digit(a[a.len() - 1]));
        }
        assert forall|m: int| 0 <= m < j implies is_digit(#[trigger] ab[m]) by {
            assert(ab[m] == a[m]);
        }
        assert(ab[j] == a[j]);
        lemma_digit_run_at(ab, j);
        assert(ab.take(j) =~= a.take(j));
        assert(ab.skip(j) =~= a.skip(j) + b);
        assert(a.skip(j).last() == a.last());
        lemma_key_after_nondigit(a.skip(j), b);
        assert(ab[0] == a[0]);
        assert(natural_key(ab) =~= natural_key(a) + natural_key(b));
    }
}

/// The natural key of a run of digits followed by a text that does not
/// start with a digit: the run's token, then the text's key.
pub proof fn lemma_key_of_run(d: Seq<char>, q: Seq<char>)
    requires
        d.len() > 0,
        all_digits(d),
        q.len() == 0 || !is_digit(q[0]),
    ensures
        natural_key(d + q) == run_token(d) + natural_key(q),
{
    let dq = d + q;
    assert forall|m: int| 0 <= m < d.len() implies is_digit(#[trigger] dq[m]) by {
        assert(dq[m] == d[m]);
    }
    if q.len() > 0 {
        assert(dq[d.len() as int] == q[0]);
    }
    lemma_digit_run_at(dq, d.len() as int);
    assert(dq.take(d.len() as int) =~= d);
    assert(dq.skip(d.len() as int) =~= q);
    assert(dq[0] == d[0]);
}

proof fn lemma_digit_chars()
    ensures
        forall|k: int| 0 <= k < 10 ==> (#[trigger] digit_char(k)) as int == k + 48,
{
    assert forall|k: int| 0 <= k < 10 implies (#[trigger] digit_char(k)) as int == k + 48 by {
        assert(0 <= k + 48 < 0xD800);
    }
}

proof fn lemma_decimal_len_mono(m: nat, n: nat)
    requires
        m <= n,
    ensures
        decimal(m).len() <= decimal(n).len(),
    decreases n,
{
    lemma_decimal_all_digits(m);
    lemma_decimal_all_digits(n);
    if m >= 10 {
        lemma_decimal_len_mono(m / 10, n / 10);
    }
}

proof fn lemma_decimal_first_difference(m: nat, n: nat) -> (i: int)
    requires
        m < n,
        decimal(m).len() == decimal(n).len(),
    ensures
        0 <= i < decimal(m).len(),
        forall|j: int| 0 <= j < i ==> decimal(m)[j] == decimal(n)[j],
        (decimal(m)[i] as int) < (decimal(n)[i] as int),
    decreases m,
{
    lemma_decimal_all_digits(m);
    lemma_decimal_all_digits(n);
    lemma_digit_chars();
    if m < 10 {
        assert(decimal(m)[0] == digit_char(m as int));
        assert(decimal(n)[0] == digit_char(n as int));
        0
    } else {
        let (dm, dn) = (decimal(m / 10), decimal(n / 10));
        assert(decimal(m) == dm.push(digit_char((m % 10) as int)));
        assert(decimal(n) == dn.push(digit_char((n % 10) as int)));
        if m / 10 < n / 10 {
            let i = lemma_decimal_first_difference(m / 10, n / 10);
            assert(decimal(m)[i] == dm[i] && decimal(n)[i] == dn[i]);
            assert forall|j: int| 0 <= j < i implies decimal(m)[j] == decimal(n)[j] by {
                assert(decimal(m)[j] == dm[j] && decimal(n)[j] == dn[j]);
            }
            i
        } else {
            assert(m / 10 == n / 10);
            let i = dm.len() as int;
            assert forall|j: int| 0 <= j < i implies decimal(m)[j] == decimal(n)[j] by {
                assert(decimal(m)[j] == dm[j] && decimal(n)[j] == dn[j]);
            }
            i
        }
    }
}

proof fn lemma_int_lex_first_difference(a: Seq<int>, b: Seq<int>, i: int)
    requires
        0 <= i < a.len(),
        i < b.len(),
        forall|j: int| 0 <= j < i ==> a[j] == b[j],
        a[i] < b[i],
    ensures
        int_lex_le(a, b),
        !int_lex_le(b, a),
{
    lemma_int_lex_skip(a, b, i);
    lemma_int_lex_skip(b, a, i);
    assert(a.skip(i)[0] == a[i]);
    assert(b.skip(i)[0] == b[i]);
}

proof fn lemma_number_tokens_differ(m: nat, n: nat) -> (i: int)
    requires
        m < n,
    ensures
        0 <= i < run_token(decimal(m)).len(),
        i < run_token(decimal(n)).len(),
        forall|j: int| 0 <= j < i ==> run_token(decimal(m))[j] == run_token(decimal(n))[j],
        run_token(decimal(m))[i] < run_token(decimal(n))[i],
{
    let (dm, dn) = (decimal(m), decimal(n));
    lemma_decimal_all_digits(m);
    lemma_decimal_all_digits(n);
    lemma_decimal_len_mono(m, n);
    lemma_digit_chars();
    assert(dn[0] != '0') by {
        if dn.len() == 1 {
            assert(dn[0] == digit_char(n as int));
        }
    }
    assert(strip_zeros(dn) == dn);
    let (tm, tn) = (run_token(dm), run_token(dn));
    if m == 0 {
        assert(dm == seq![digit_char(0)]);
        assert(dm[0] == '0');
        assert(strip_zeros(dm.drop_first()) == dm.drop_first());
        assert(dm.drop_first().len() == 0);
        assert(strip_zeros(dm).len() == 0);
        1
    } else {
        assert(dm[0] != '0') by {
            if dm.len() == 1 {
                assert(dm[0] == digit_char(m as int));
            }
        }
        assert(strip_zeros(dm) == dm);
        if dm.len() < dn.len() {
            1
        } else {
            let k = lemma_decimal_first_difference(m, n);
            assert forall|j: int| 0 <= j < 2 + k implies tm[j] == tn[j] by {
                if j >= 2 {
                    assert(dm[j - 2] == dn[j - 2]);
                }
            }
            2 + k
        }
    }
}

/// Names that differ only in a number, written in decimal between
/// non-digits (or the ends of the name), are in the order of the numbers:
/// `g.part2.rar` comes before `g.part10.rar`, and not the other way round.
pub proof fn lemma_numbers_in_natural_order(p: Seq<char>, m: nat, n: nat, q: Seq<char>)
    requires
        p.len() == 0 || !is_digit(p.last()),
        q.len() == 0 || !is_digit(q[0]),
        m < n,
    ensures
        key_le(p + decimal(m) + q, p + decimal(n) + q),
        !key_le(p + decimal(n) + q, p + decimal(m) + q),
{
    let (dm, dn) = (decimal(m), decimal(n));
    lemma_decimal_all_digits(m);
    lemma_decimal_all_digits(n);
    assert(p + dm + q =~= p + (dm + q));
    assert(p + dn + q =~= p + (dn + q));
    lemma_key_after_nondigit(p, dm + q);
    lemma_key_after_nondigit(p, dn + q);
    lemma_key_of_run(dm, q);
    lemma_key_of_run(dn, q);
    let i = lemma_number_tokens_differ(m, n);
    let (tm, tn) = (run_token(dm), run_token(dn));
    let kp = natural_key(p);
    let (km, kn) = (natural_key(p + dm + q), natural_key(p + dn + q));
    assert(km == kp + (tm + natural_key(q)));
    assert(kn == kp + (tn + natural_key(q)));
    let at = kp.len() + i;
    assert forall|j: int| 0 <= j < at implies km[j] == kn[j] by {
        if j >= kp.len() {
            assert(tm[j - kp.len()] == tn[j - kp.len()]);
        }
    }
    assert(km[at] == tm[i] && kn[at] == tn[i]);
    lemma_int_lex_first_difference(km, kn, at);
    lemma_int_lex_refl(km);
}

} // verus!
