//! Character-level text helpers: the lexicographic order in which unit names are
//! kept, and small string builders.
//!
//! Names are ordered by their characters' code points, which is the order of their
//! UTF-8 bytes and therefore the order of `String`'s own comparison.

use vstd::prelude::*;
use vstd::string::StringExecFns;

verus! {

/// Strict lexicographic order on character sequences, by code point.
pub open spec fn seq_lt(a: Seq<char>, b: Seq<char>) -> bool
    decreases a.len(),
{
    if a.len() == 0 {
        b.len() > 0
    } else if b.len() == 0 {
        false
    } else if a[0] != b[0] {
        (a[0] as int) < (b[0] as int)
    } else {
        seq_lt(a.drop_first(), b.drop_first())
    }
}

/// The order is irreflexive.
pub proof fn lemma_lt_irreflexive(a: Seq<char>)
    ensures
        !seq_lt(a, a),
    decreases a.len(),
{
    if a.len() > 0 {
        lemma_lt_irreflexive(a.drop_first());
    }
}

/// The order is total on distinct sequences and asymmetric.
pub proof fn lemma_lt_trichotomy(a: Seq<char>, b: Seq<char>)
    ensures
        a != b ==> (seq_lt(a, b) || seq_lt(b, a)),
        !(seq_lt(a, b) && seq_lt(b, a)),
        a == b ==> !seq_lt(a, b),
    decreases a.len(),
{
    if a == b {
        lemma_lt_irreflexive(a);
    }
    if a.len() > 0 && b.len() > 0 {
        lemma_lt_trichotomy(a.drop_first(), b.drop_first());
        if a[0] == b[0] && a.drop_first() == b.drop_first() {
            assert(a =~= b) by {
                assert forall|i: int| 0 <= i < a.len() implies a[i] == b[i] by {
                    if i > 0 {
                        assert(a[i] == a.drop_first()[i - 1]);
                        assert(b[i] == b.drop_first()[i - 1]);
                    }
                }
            }
        }
        if a[0] != b[0] {
            assert((a[0] as int) != (b[0] as int));
        }
    } else if a.len() == 0 && b.len() == 0 {
        assert(a =~= b);
    }
}

/// The order is transitive.
pub proof fn lemma_lt_transitive(a: Seq<char>, b: Seq<char>, c: Seq<char>)
    requires
        seq_lt(a, b),
        seq_lt(b, c),
    ensures
        seq_lt(a, c),
    decreases a.len(),
{
    if a.len() > 0 && b.len() > 0 && c.len() > 0 {
        if a[0] == b[0] && b[0] == c[0] {
            lemma_lt_transitive(a.drop_first(), b.drop_first(), c.drop_first());
        }
    }
}

/// Comparing after a shared prefix.
proof fn lemma_lt_skip(a: Seq<char>, b: Seq<char>, i: int)
    requires
        0 <= i <= a.len(),
        i <= b.len(),
        a.subrange(0, i) == b.subrange(0, i),
    ensures
        seq_lt(a, b) == seq_lt(a.subrange(i, a.len() as int), b.subrange(i, b.len() as int)),
    decreases i,
{
    if i > 0 {
        assert(a[0] == a.subrange(0, i)[0]);
        assert(b[0] == b.subrange(0, i)[0]);
        assert(a.drop_first().subrange(0, i - 1) =~= a.subrange(0, i).drop_first());
        assert(b.drop_first().subrange(0, i - 1) =~= b.subrange(0, i).drop_first());
        lemma_lt_skip(a.drop_first(), b.drop_first(), i - 1);
        assert(a.drop_first().subrange(i - 1, a.len() - 1) =~= a.subrange(i, a.len() as int));
        assert(b.drop_first().subrange(i - 1, b.len() - 1) =~= b.subrange(i, b.len() as int));
    } else {
        assert(a.subrange(0, a.len() as int) =~= a);
        assert(b.subrange(0, b.len() as int) =~= b);
    }
}

/// Three-way comparison of two texts: -1, 0 or 1.
pub fn compare_text(a: &str, b: &str) -> (r: i8)
    ensures
        r == -1 <==> seq_lt(a@, b@),
        r == 0 <==> a@ == b@,
        r == 1 <==> seq_lt(b@, a@),
        r == -1 || r == 0 || r == 1,
{
    let la = a.unicode_len();
    let lb = b.unicode_len();
    let mut i: usize = 0;
    while i < la && i < lb
        invariant
            la == a@.len(),
            lb == b@.len(),
            i <= la,
            i <= lb,
            a@.subrange(0, i as int) == b@.subrange(0, i as int),
        decreases la - i,
    {
        let ca = a.get_char(i);
        let cb = b.get_char(i);
        if ca != cb {
            proof {
                lemma_lt_skip(a@, b@, i as int);
                lemma_lt_skip(b@, a@, i as int);
                let sa = a@.subrange(i as int, a@.len() as int);
                let sb = b@.subrange(i as int, b@.len() as int);
                assert(sa[0] == ca);
                assert(sb[0] == cb);
                assert(a@[i as int] != b@[i as int]);
            }
            if (ca as u32) < (cb as u32) {
                return -1;
            } else {
                return 1;
            }
        }
        proof {
            assert(a@.subrange(0, i + 1) =~= a@.subrange(0, i as int).push(ca));
            assert(b@.subrange(0, i + 1) =~= b@.subrange(0, i as int).push(cb));
        }
        i = i + 1;
    }
    proof {
        lemma_lt_skip(a@, b@, i as int);
        lemma_lt_skip(b@, a@, i as int);
        let sa = a@.subrange(i as int, a@.len() as int);
        let sb = b@.subrange(i as int, b@.len() as int);
        if la == lb {
            assert(a@ =~= a@.subrange(0, i as int));
            assert(b@ =~= b@.subrange(0, i as int));
        }
        if la != lb {
            assert(a@.len() != b@.len());
        }
        assert(sa.len() == 0 || sb.len() == 0);
    }
    if la < lb {
        -1
    } else if la == lb {
        0
    } else {
        1
    }
}

/// Whether `s` contains the character `c`.
pub fn contains_char(s: &str, c: char) -> (r: bool)
    ensures
        r == s@.contains(c),
{
    let n = s.unicode_len();
    let mut i: usize = 0;
    while i < n
        invariant
            n == s@.len(),
            i <= n,
            forall|j: int| 0 <= j < i ==> s@[j] != c,
        decreases n - i,
    {
        if s.get_char(i) == c {
            return true;
        }
        i = i + 1;
    }
    false
}


/// The character of a decimal digit.
pub open spec fn digit_char(d: nat) -> char {
    if d == 0 { '0' } else if d == 1 { '1' } else if d == 2 { '2' } else if d == 3 { '3' }
    else if d == 4 { '4' } else if d == 5 { '5' } else if d == 6 { '6' } else if d == 7 { '7' }
    else if d == 8 { '8' } else { '9' }
}

/// Decimal notation of a natural number, without leading zeros.
pub open spec fn decimal_text(n: nat) -> Seq<char>
    decreases n,
{
    if n < 10 {
        seq![digit_char(n)]
    } else {
        decimal_text(n / 10) + seq![digit_char(n % 10)]
    }
}

/// Decimal notation of an integer, with a leading `-` when negative.
pub open spec fn signed_decimal_text(n: int) -> Seq<char> {
    if n < 0 {
        seq!['-'] + decimal_text((-n) as nat)
    } else {
        decimal_text(n as nat)
    }
}

fn digit_str(d: u64) -> (r: &'static str)
    requires
        d < 10,
    ensures
        r@ == seq![digit_char(d as nat)],
{
    proof {
        reveal_strlit("0");
        reveal_strlit("1");
        reveal_strlit("2");
        reveal_strlit("3");
        reveal_strlit("4");
        reveal_strlit("5");
        reveal_strlit("6");
        reveal_strlit("7");
        reveal_strlit("8");
        reveal_strlit("9");
    }
    if d == 0 { "0" } else if d == 1 { "1" } else if d == 2 { "2" } else if d == 3 { "3" }
    else if d == 4 { "4" } else if d == 5 { "5" } else if d == 6 { "6" } else if d == 7 { "7" }
    else if d == 8 { "8" } else { "9" }
}

/// Append the decimal notation of `n` to `out`.
pub fn push_decimal(out: &mut String, n: u128)
    ensures
        final(out)@ == old(out)@ + decimal_text(n as nat),
    decreases n,
{
    if n >= 10 {
        push_decimal(out, n / 10);
    }
    let d = digit_str((n % 10) as u64);
    out.append(d);
    proof {
        if n >= 10 {
            assert(decimal_text(n as nat) == decimal_text((n / 10) as nat) + seq![digit_char((n % 10) as nat)]);
        }
    }
}

/// Append the decimal notation of a signed integer to `out`.
pub fn push_signed_decimal(out: &mut String, n: i128)
    ensures
        final(out)@ == old(out)@ + signed_decimal_text(n as int),
{
    if n < 0 {
        proof {
            reveal_strlit("-");
        }
        out.append("-");
        let magnitude: u128 = if n == i128::MIN {
            170141183460469231731687303715884105728u128
        } else {
            (-n) as u128
        };
        push_decimal(out, magnitude);
    } else {
        push_decimal(out, n as u128);
    }
}

/// Decimal notation of `n`, zero-padded on the left to at least `w` digits.
pub open spec fn padded_decimal(n: nat, w: nat) -> Seq<char>
    decreases w,
{
    if w <= 1 || n >= pow10((w - 1) as nat) {
        decimal_text(n)
    } else {
        seq!['0'] + padded_decimal(n, (w - 1) as nat)
    }
}

/// `10^k`.
pub open spec fn pow10(k: nat) -> nat
    decreases k,
{
    if k == 0 {
        1
    } else {
        10 * pow10((k - 1) as nat)
    }
}

fn pow10_u64(k: u64) -> (r: u64)
    requires
        k <= 19,
    ensures
        r == pow10(k as nat),
    decreases k,
{
    if k == 0 {
        1
    } else {
        let p = pow10_u64(k - 1);
        proof {
            assert(pow10((k - 1) as nat) <= pow10(18)) by {
                lemma_pow10_monotone((k - 1) as nat, 18);
            }
            assert(pow10(18) == 1000000000000000000) by {
                reveal_with_fuel(pow10, 19);
            }
        }
        10 * p
    }
}

/// Powers of ten grow with the exponent.
pub proof fn lemma_pow10_monotone(a: nat, b: nat)
    requires
        a <= b,
    ensures
        1 <= pow10(a) <= pow10(b),
    decreases b,
{
    if a < b {
        lemma_pow10_monotone(a, (b - 1) as nat);
    } else if a > 0 {
        lemma_pow10_monotone((a - 1) as nat, (a - 1) as nat);
    }
}

/// Append `n` zero-padded to at least `w` digits.
pub fn push_padded_decimal(out: &mut String, n: u64, w: u64)
    requires
        w <= 20,
    ensures
        final(out)@ == old(out)@ + padded_decimal(n as nat, w as nat),
    decreases w,
{
    if w <= 1 {
        push_decimal(out, n as u128);
        return;
    }
    let p = pow10_u64(w - 1);
    if n >= p {
        push_decimal(out, n as u128);
    } else {
        proof {
            reveal_strlit("0");
        }
        out.append("0");
        push_padded_decimal(out, n, w - 1);
        proof {
            assert(padded_decimal(n as nat, w as nat) == seq!['0'] + padded_decimal(n as nat, (w - 1) as nat));
        }
    }
}

/// Lowercase hexadecimal digit.
pub open spec fn hex_char(d: nat) -> char {
    if d < 10 {
        digit_char(d)
    } else if d == 10 { 'a' } else if d == 11 { 'b' } else if d == 12 { 'c' } else if d == 13 { 'd' }
    else if d == 14 { 'e' } else { 'f' }
}

/// The `k` lowest hexadecimal digits of `n`, most significant first, zero-padded.
pub open spec fn hex_digits(n: nat, k: nat) -> Seq<char>
    decreases k,
{
    if k == 0 {
        Seq::empty()
    } else {
        hex_digits(n / 16, (k - 1) as nat) + seq![hex_char(n % 16)]
    }
}

fn hex_str(d: u64) -> (r: &'static str)
    requires
        d < 16,
    ensures
        r@ == seq![hex_char(d as nat)],
{
    if d < 10 {
        return digit_str(d);
    }
    proof {
        reveal_strlit("a");
        reveal_strlit("b");
        reveal_strlit("c");
        reveal_strlit("d");
        reveal_strlit("e");
        reveal_strlit("f");
    }
    if d == 10 { "a" } else if d == 11 { "b" } else if d == 12 { "c" } else if d == 13 { "d" }
    else if d == 14 { "e" } else { "f" }
}

/// Append the `k` lowest hexadecimal digits of `n`, zero-padded.
pub fn push_hex_digits(out: &mut String, n: u64, k: u64)
    ensures
        final(out)@ == old(out)@ + hex_digits(n as nat, k as nat),
    decreases k,
{
    if k > 0 {
        push_hex_digits(out, n / 16, k - 1);
        let d = hex_str(n % 16);
        out.append(d);
    }
}

/// A result with its error text taken by view.
pub open spec fn text_result<T>(r: Result<T, String>) -> Result<T, Seq<char>> {
    match r {
        Ok(v) => Ok(v),
        Err(e) => Err(e@),
    }
}

/// The texts of a sequence of strings.
pub open spec fn text_views(v: Seq<String>) -> Seq<Seq<char>> {
    v.map_values(|s: String| s@)
}

/// Strictly increasing in the lexicographic order.
pub open spec fn strictly_sorted(s: Seq<Seq<char>>) -> bool {
    forall|i: int, j: int| 0 <= i < j < s.len() ==> seq_lt(#[trigger] s[i], #[trigger] s[j])
}

/// Distinct names in lexicographic order.
pub fn sort_texts(names: &Vec<String>) -> (r: Vec<String>)
    requires
        text_views(names@).no_duplicates(),
    ensures
        strictly_sorted(text_views(r@)),
        r@.len() == names@.len(),
        forall|x: Seq<char>| text_views(r@).contains(x) <==> text_views(names@).contains(x),
{
    let mut out: Vec<String> = Vec::new();
    let n = names.len();
    let mut i: usize = 0;
    while i < n
        invariant
            n == names@.len(),
            i <= n,
            text_views(names@).no_duplicates(),
            out@.len() == i,
            strictly_sorted(text_views(out@)),
            forall|x: Seq<char>| text_views(out@).contains(x) <==> text_views(names@.subrange(0, i as int)).contains(x),
        decreases n - i,
    {
        let name = names[i].clone();
        let ghost old_views = text_views(out@);
        let ghost f = name@;
        let ghost pre = text_views(names@.subrange(0, i as int));
        assert(forall|x: Seq<char>| old_views.contains(x) <==> pre.contains(x));
        proof {
            assert(f == text_views(names@)[i as int]);
            if old_views.contains(f) {
                let k = choose|k: int| 0 <= k < i && text_views(names@.subrange(0, i as int))[k] == f;
                assert(text_views(names@)[k] == f);
            }
            assert(!old_views.contains(f));
        }
        let mut p: usize = 0;
        while p < out.len() && compare_text(out[p].as_str(), name.as_str()) == -1
            invariant
                p <= out@.len(),
                old_views == text_views(out@),
                f == name@,
                forall|k: int| 0 <= k < p ==> seq_lt(#[trigger] old_views[k], f),
            decreases out@.len() - p,
        {
            proof {
                assert(old_views[p as int] == out@[p as int]@);
            }
            p = p + 1;
        }
        proof {
            if p < out@.len() {
                assert(old_views[p as int] == out@[p as int]@);
                lemma_lt_trichotomy(old_views[p as int], f);
                assert(old_views[p as int] != f) by {
                    assert(old_views.contains(old_views[p as int]));
                }
                assert(seq_lt(f, old_views[p as int]));
            }
        }
        out.insert(p, name);
        proof {
            let nv = text_views(out@);
            assert(nv =~= old_views.insert(p as int, f));
            assert forall|a: int, b: int| 0 <= a < b < nv.len() implies seq_lt(#[trigger] nv[a], #[trigger] nv[b]) by {
                if b < p {
                } else if b == p {
                } else if a < p {
                    assert(nv[b] == old_views[b - 1]);
                    if a < b - 1 {
                    } else {
                        assert(a == b - 1);
                    }
                } else if a == p {
                    assert(nv[b] == old_views[b - 1]);
                    if b - 1 > p {
                        lemma_lt_transitive(f, old_views[p as int], old_views[b - 1]);
                    }
                } else {
                    assert(nv[a] == old_views[a - 1]);
                    assert(nv[b] == old_views[b - 1]);
                }
            }
            assert forall|x: Seq<char>| nv.contains(x) <==> text_views(names@.subrange(0, i + 1)).contains(x) by {
                let pre1 = text_views(names@.subrange(0, i + 1));
                assert(pre1 =~= pre.push(f));
                if nv.contains(x) {
                    let k = choose|k: int| 0 <= k < nv.len() && nv[k] == x;
                    if k != p {
                        if k < p {
                            assert(old_views[k] == x);
                        } else {
                            assert(old_views[k - 1] == x);
                        }
                        assert(old_views.contains(x));
                        assert(pre.contains(x));
                        let m = choose|m: int| 0 <= m < pre.len() && pre[m] == x;
                        assert(pre1[m] == x);
                    } else {
                        assert(pre1[i as int] == x);
                    }
                }
                if pre1.contains(x) {
                    let k = choose|k: int| 0 <= k < pre1.len() && pre1[k] == x;
                    if k < i {
                        assert(pre[k] == x);
                        assert(pre.contains(x));
                        let m = choose|m: int| 0 <= m < old_views.len() && old_views[m] == x;
                        if m < p {
                            assert(nv[m] == x);
                        } else {
                            assert(nv[m + 1] == x);
                        }
                    } else {
                        assert(nv[p as int] == x);
                    }
                }
            }
        }
        i = i + 1;
    }
    proof {
        assert(names@.subrange(0, n as int) =~= names@);
    }
    out
}

} // verus!
