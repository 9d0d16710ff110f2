//! Small numeric and sequence utilities: triangular sums, range counting,
//! subset testing, binary-to-decimal conversion, prime factorization,
//! rotation, and substring search.

use vstd::prelude::*;
use vstd::std_specs::cmp::PartialEqSpec;
use vstd::arithmetic::div_mod::{lemma_fundamental_div_mod, lemma_mod_multiples_basic};

verus! {

/// The triangular sum 1 + 2 + ... + n.
pub open spec fn spec_sum_to(n: nat) -> int
    decreases n,
{
    if n == 0 {
        0
    } else {
        spec_sum_to((n - 1) as nat) + n
    }
}

/// The triangular sum has the closed form n * (n + 1) / 2.
proof fn lemma_sum_to_closed(n: nat)
    ensures
        2 * spec_sum_to(n) == n * (n + 1),
    decreases n,
{
    if n == 0 {
        assert(spec_sum_to(0) == 0);
    } else {
        lemma_sum_to_closed((n - 1) as nat);
        let m = (n - 1) as nat;
        assert(spec_sum_to(n) == spec_sum_to(m) + n);
        assert(2 * spec_sum_to(n) == n * (n + 1)) by (nonlinear_arith)
            requires
                n > 0,
                m == n - 1,
                spec_sum_to(n) == spec_sum_to(m) + n,
                2 * spec_sum_to(m) == m * (m + 1),
        ;
    }
}

/// Returns the sum 1 + 2 + ... + n, or -1 when n is negative. The bound on
/// `n` keeps the sum within `i32`.
pub fn gauss(n: i32) -> (r: i32)
    requires
        n <= 65535,
    ensures
        n >= 0 ==> r == spec_sum_to(n as nat),
        n >= 0 ==> 2 * (r as int) == n * (n + 1),
        n < 0 ==> r == -1,
{
    if n >= 0 {
        let mut sum: i32 = 0;
        let mut i: i32 = 0;
        while i < n
            invariant
                0 <= i <= n <= 65535,
                sum == spec_sum_to(i as nat),
                2 * (sum as int) == i * (i + 1),
            decreases n - i,
        {
            proof {
                assert(2 * (sum as int + i + 1) == (i + 1) * (i + 2) && 2 * (sum as int + i + 1)
                    <= 65535 * 65536) by (nonlinear_arith)
                    requires
                        2 * (sum as int) == i * (i + 1),
                        0 <= i <= 65534,
                ;
            }
            i = i + 1;
            sum = sum + i;
        }
        proof {
            lemma_sum_to_closed(n as nat);
        }
        sum
    } else {
        -1
    }
}

/// How many elements of `s` lie in the closed interval [lo, hi].
pub open spec fn spec_in_range_count(s: Seq<i32>, lo: i32, hi: i32) -> int
    decreases s.len(),
{
    if s.len() == 0 {
        0
    } else {
        spec_in_range_count(s.drop_last(), lo, hi) + (
        if lo <= s.last() && s.last() <= hi {
            1int
        } else {
            0int
        })
    }
}

/// Returns the number of elements of `ls` that lie in the range [s, e]. The
/// length bound keeps the count within `i32`.
pub fn in_range(ls: &[i32], s: i32, e: i32) -> (r: i32)
    requires
        ls@.len() <= i32::MAX as int,
    ensures
        r == spec_in_range_count(ls@, s, e),
{
    let mut num_elem: i32 = 0;
    let mut idx: usize = 0;
    while idx < ls.len()
        invariant
            idx <= ls@.len() <= i32::MAX as int,
            0 <= num_elem <= idx,
            num_elem == spec_in_range_count(ls@.subrange(0, idx as int), s, e),
        decreases ls@.len() - idx,
    {
        proof {
            assert(ls@.subrange(0, idx as int + 1).drop_last() =~= ls@.subrange(0, idx as int));
        }
        let num = ls[idx];
        if num >= s && num <= e {
            num_elem = num_elem + 1;
        }
        idx = idx + 1;
    }
    proof {
        assert(ls@.subrange(0, ls@.len() as int) =~= ls@);
    }
    num_elem
}

/// Whether `x` stands, by `eq_spec` equality, somewhere in `s`.
pub open spec fn spec_found_in<T: PartialEq>(s: Seq<T>, x: T) -> bool {
    exists|j: int| 0 <= j < s.len() && x.eq_spec(&s[j])
}

/// Whether every element of `target` stands somewhere in `set`.
pub open spec fn spec_subset<T: PartialEq>(set: Seq<T>, target: Seq<T>) -> bool {
    forall|i: int| 0 <= i < target.len() ==> spec_found_in(set, target[i])
}

/// Returns true exactly when every element of `target` occurs in `set`.
/// `T`'s equality must agree with its specification for the result to be
/// meaningful, hence the `obeys_eq_spec` precondition.
pub fn subset<T: PartialEq>(set: &[T], target: &[T]) -> (r: bool)
    requires
        T::obeys_eq_spec(),
    ensures
        r == spec_subset(set@, target@),
{
    let mut i: usize = 0;
    while i < target.len()
        invariant
            T::obeys_eq_spec(),
            i <= target@.len(),
            forall|k: int| 0 <= k < i ==> spec_found_in(set@, target@[k]),
        decreases target@.len() - i,
    {
        let tar_elem = &target[i];
        let mut j: usize = 0;
        let mut found = false;
        while j < set.len()
            invariant
                T::obeys_eq_spec(),
                j <= set@.len(),
                tar_elem == target@[i as int],
                i < target@.len(),
                found ==> spec_found_in(set@, target@[i as int]),
                !found ==> forall|m: int| 0 <= m < j ==> !target@[i as int].eq_spec(&set@[m]),
            decreases set@.len() - j,
        {
            if tar_elem.eq(&set[j]) {
                found = true;
            }
            j = j + 1;
        }
        if !found {
            return false;
        }
        i = i + 1;
    }
    true
}

/// The value of a big-endian bit sequence: each step doubles the accumulator
/// and adds the next bit.
pub open spec fn spec_to_decimal(s: Seq<i32>) -> int
    decreases s.len(),
{
    if s.len() == 0 {
        0
    } else {
        2 * spec_to_decimal(s.drop_last()) + s.last()
    }
}

/// Two to the power n.
spec fn spec_pow2(n: nat) -> int
    decreases n,
{
    if n == 0 {
        1
    } else {
        2 * spec_pow2((n - 1) as nat)
    }
}

/// Powers of two are positive.
proof fn lemma_pow2_pos(n: nat)
    ensures
        spec_pow2(n) >= 1,
    decreases n,
{
    if n > 0 {
        lemma_pow2_pos((n - 1) as nat);
    }
}

/// Powers of two grow with the exponent.
proof fn lemma_pow2_mono(a: nat, b: nat)
    requires
        a <= b,
    ensures
        spec_pow2(a) <= spec_pow2(b),
    decreases b,
{
    if a < b {
        lemma_pow2_mono(a, (b - 1) as nat);
        lemma_pow2_pos((b - 1) as nat);
    }
}

/// Converts a binary number to decimal, where the bits are stored in order
/// from the most significant down. The length bound keeps the value within
/// `i32`.
#[verifier::rlimit(30)]
pub fn to_decimal(ls: &[i32]) -> (r: i32)
    requires
        forall|i: int| 0 <= i < ls@.len() ==> ls@[i] == 0 || ls@[i] == 1,
        ls@.len() <= 31,
    ensures
        r == spec_to_decimal(ls@),
{
    let mut acc: i32 = 0;
    let mut idx: usize = 0;
    while idx < ls.len()
        invariant
            idx <= ls@.len() <= 31,
            forall|i: int| 0 <= i < ls@.len() ==> ls@[i] == 0 || ls@[i] == 1,
            acc == spec_to_decimal(ls@.subrange(0, idx as int)),
            0 <= acc < spec_pow2(idx as nat),
        decreases ls@.len() - idx,
    {
        proof {
            assert(ls@.subrange(0, idx as int + 1).drop_last() =~= ls@.subrange(0, idx as int));
            lemma_pow2_mono(idx as nat + 1, 31);
            assert(spec_pow2(31) == 0x8000_0000) by {
                reveal_with_fuel(spec_pow2, 32);
            }
        }
        acc = acc * 2 + ls[idx];
        idx = idx + 1;
    }
    proof {
        assert(ls@.subrange(0, ls@.len() as int) =~= ls@);
    }
    acc
}

/// The product of all elements of the sequence; an empty product is 1.
pub open spec fn spec_seq_product(s: Seq<u32>) -> int
    decreases s.len(),
{
    if s.len() == 0 {
        1
    } else {
        spec_seq_product(s.drop_last()) * s.last()
    }
}

/// A prime: at least 2, with no divisor strictly between 1 and itself.
pub open spec fn spec_is_prime(p: int) -> bool {
    p >= 2 && forall|d: int| 2 <= d < p ==> #[trigger] (p % d) != 0
}

/// Divisibility carries over a factor: when `m` divides `x` and `d` divides
/// `m`, `d` divides `x`.
proof fn lemma_divides_trans(d: int, m: int, x: int)
    requires
        1 <= d,
        1 <= m,
        x % m == 0,
        m % d == 0,
    ensures
        x % d == 0,
{
    lemma_fundamental_div_mod(x, m);
    lemma_fundamental_div_mod(m, d);
    let q = m / d;
    let k = x / m;
    assert(x == (q * k) * d) by (nonlinear_arith)
        requires
            x == m * k,
            m == d * q,
    ;
    lemma_mod_multiples_basic(q * k, d);
}

/// Decomposes an integer into its prime factors, smallest first, by trial
/// division. The result is the unique non-decreasing sequence of primes whose
/// product is `n`.
pub fn factorize(n: u32) -> (r: Vec<u32>)
    requires
        n >= 2,
    ensures
        spec_seq_product(r@) == n,
        forall|k: int| 0 <= k < r@.len() ==> spec_is_prime(#[trigger] r@[k] as int),
        forall|k: int| 0 <= k < r@.len() - 1 ==> #[trigger] r@[k] <= r@[k + 1],
{
    let mut num = n;
    let mut i: u32 = 2;
    let mut vec: Vec<u32> = Vec::new();
    while num > 1
        invariant
            1 <= num <= n,
            2 <= i,
            num > 1 ==> i <= num,
            spec_seq_product(vec@) * num == n,
            forall|d: int| 2 <= d < i ==> #[trigger] ((num as int) % d) != 0,
            forall|k: int| 0 <= k < vec@.len() ==> spec_is_prime(#[trigger] vec@[k] as int),
            forall|k: int| 0 <= k < vec@.len() ==> #[trigger] vec@[k] <= i,
            forall|k: int| 0 <= k < vec@.len() - 1 ==> #[trigger] vec@[k] <= vec@[k + 1],
        decreases num, num - i,
    {
        if num % i == 0 {
            let next = num / i;
            proof {
                lemma_fundamental_div_mod(num as int, i as int);
                assert(num == i * next);
                // The quotient stays in range and strictly below num.
                assert(1 <= next && next < num && next <= n) by (nonlinear_arith)
                    requires
                        num == i * next,
                        2 <= i <= num <= n,
                ;
                // i is prime: a smaller divisor of i would divide num too.
                assert forall|d: int| 2 <= d < i implies #[trigger] ((i as int) % d) != 0 by {
                    if (i as int) % d == 0 {
                        lemma_divides_trans(d, i as int, num as int);
                    }
                }
                // No divisor below i divides the quotient either.
                assert forall|d: int| 2 <= d < i implies #[trigger] ((next as int) % d) != 0 by {
                    if (next as int) % d == 0 {
                        lemma_mod_multiples_basic(i as int, next as int);
                        assert((num as int) % (next as int) == 0) by (nonlinear_arith)
                            requires
                                num == i * next,
                                1 <= next,
                                ((i as int) * (next as int)) % (next as int) == 0,
                        ;
                        lemma_divides_trans(d, next as int, num as int);
                    }
                }
                // A quotient still above 1 cannot lie below i: it would
                // divide itself, against the previous fact.
                if next > 1 && next < i {
                    lemma_mod_multiples_basic(1, next as int);
                }
                // Pushing i multiplies the product by i.
                assert(vec@.push(i).drop_last() =~= vec@);
                assert(spec_seq_product(vec@.push(i)) * next == spec_seq_product(vec@) * num)
                    by (nonlinear_arith)
                    requires
                        num == i * next,
                        spec_seq_product(vec@.push(i)) == spec_seq_product(vec@) * i,
                ;
            }
            vec.push(i);
            num = next;
        } else {
            proof {
                // i itself does not divide num, and i == num is impossible
                // because num divides itself; so i + 1 <= num.
                if num > 1 && i == num {
                    lemma_mod_multiples_basic(1, num as int);
                }
            }
            i = i + 1;
        }
    }
    proof {
        assert(spec_seq_product(vec@) == n);
    }
    vec
}

/// Takes the elements of the slice and rotates them left by one: the first
/// element becomes the last, the second becomes first, and so on. An empty
/// slice yields an empty vector.
pub fn rotate(lst: &[i32]) -> (r: Vec<i32>)
    ensures
        lst@.len() == 0 ==> r@ == Seq::<i32>::empty(),
        lst@.len() > 0 ==> r@ == lst@.subrange(1, lst@.len() as int) + seq![lst@[0]],
{
    let mut vec: Vec<i32> = Vec::new();
    let len = lst.len();
    if len == 0 {
        return vec;
    }
    let mut i: usize = 1;
    while i < len
        invariant
            1 <= i <= len == lst@.len(),
            vec@ =~= lst@.subrange(1, i as int),
        decreases len - i,
    {
        vec.push(lst[i]);
        proof {
            assert(vec@ =~= lst@.subrange(1, i as int + 1));
        }
        i = i + 1;
    }
    vec.push(lst[0]);
    proof {
        assert(vec@ =~= lst@.subrange(1, lst@.len() as int) + seq![lst@[0]]);
    }
    vec
}

/// Whether `t` occurs contiguously somewhere in `s`.
pub open spec fn spec_is_substring(s: Seq<char>, t: Seq<char>) -> bool {
    exists|k: int|
        0 <= k && k + t.len() <= s.len() && #[trigger] s.subrange(k, k + t.len() as int) == t
}

/// Compares `t` against the characters of `s` starting at position `k`.
fn match_at(s: &str, t: &str, k: usize, s_len: usize, t_len: usize) -> (r: bool)
    requires
        s_len == s@.len(),
        t_len == t@.len(),
        k + t_len <= s_len,
    ensures
        r == (s@.subrange(k as int, k as int + t@.len() as int) == t@),
{
    let mut j: usize = 0;
    while j < t_len
        invariant
            s_len == s@.len(),
            t_len == t@.len(),
            k + t_len <= s_len,
            j <= t_len,
            forall|m: int| 0 <= m < j ==> s@[k + m] == t@[m],
        decreases t_len - j,
    {
        if s.get_char(k + j) != t.get_char(j) {
            proof {
                assert(s@.subrange(k as int, k as int + t@.len() as int)[j as int] == s@[k + j]);
            }
            return false;
        }
        j = j + 1;
    }
    proof {
        assert(s@.subrange(k as int, k as int + t@.len() as int) =~= t@);
    }
    true
}

/// Returns true exactly when `target` is a contiguous substring of `s`. The
/// empty string is a substring of everything.
pub fn substr(s: &String, target: &str) -> (r: bool)
    ensures
        r == spec_is_substring(s@, target@),
{
    let s_str = s.as_str();
    let s_len = s_str.unicode_len();
    let tar_len = target.unicode_len();
    if tar_len == 0 {
        proof {
            assert(s@.subrange(0, 0 + target@.len() as int) =~= target@);
        }
        return true;
    }
    if s_len < tar_len {
        return false;
    }
    let mut i: usize = 0;
    while i <= s_len - tar_len
        invariant
            s_str@ == s@,
            s_len == s@.len(),
            tar_len == target@.len(),
            1 <= tar_len <= s_len,
            i <= s_len - tar_len + 1,
            forall|k: int|
                0 <= k < i ==> #[trigger] s@.subrange(k, k + target@.len() as int) != target@,
        decreases s_len - i,
    {
        if match_at(s_str, target, i, s_len, tar_len) {
            proof {
                assert(s@.subrange(i as int, i as int + target@.len() as int) == target@);
            }
            return true;
        }
        i = i + 1;
    }
    false
}

/// A maximal run of equal characters: `l` characters from position `k` on,
/// all equal, extendable in neither direction.
pub open spec fn spec_is_run(s: Seq<char>, k: int, l: int) -> bool {
    &&& 0 <= k
    &&& 1 <= l
    &&& k + l <= s.len()
    &&& (forall|m: int| k <= m < k + l ==> #[trigger] s[m] == s[k])
    &&& (k == 0 || s[k - 1] != s[k])
    &&& (k + l == s.len() || s[k + l] != s[k])
}

/// The first longest run: no run anywhere is longer, and no run of the same
/// length starts earlier.
pub open spec fn spec_first_longest_run(s: Seq<char>, k: int, l: int) -> bool {
    &&& spec_is_run(s, k, l)
    &&& (forall|k2: int, l2: int| #[trigger] spec_is_run(s, k2, l2) ==> l2 <= l)
    &&& (forall|k2: int| #[trigger] spec_is_run(s, k2, l) ==> k <= k2)
}

/// Inside a stretch `[cur, i)` of equal characters that no run can cross,
/// the only maximal run reaching past `cur` is the stretch itself.
proof fn lemma_run_in_segment(s: Seq<char>, cur: int, i: int, k2: int, l2: int)
    requires
        0 <= cur < i <= s.len(),
        forall|m: int| cur <= m < i ==> #[trigger] s[m] == s[cur],
        cur == 0 || s[cur - 1] != s[cur],
        i == s.len() || s[i] != s[cur],
        spec_is_run(s, k2, l2),
        k2 + l2 > cur,
        k2 + l2 <= i,
    ensures
        k2 == cur && l2 == i - cur,
{
    if k2 < cur {
        assert(s[cur - 1] == s[k2]);
        assert(s[cur] == s[k2]);
        assert(false);
    }
    if k2 > cur {
        assert(s[k2 - 1] == s[cur]);
        assert(s[k2] == s[cur]);
        assert(false);
    }
    if k2 + l2 < i {
        assert(s[k2 + l2] == s[cur]);
        assert(false);
    }
}

/// `sub` is the first longest run of `s`: it reads off a run that no run
/// anywhere in `s` beats in length and no equally long run precedes.
pub open spec fn spec_is_first_longest(s: Seq<char>, sub: Seq<char>) -> bool {
    exists|k: int|
        #[trigger] spec_first_longest_run(s, k, sub.len() as int) && sub == s.subrange(
            k,
            k + sub.len() as int,
        )
}

/// Returns the first longest substring of consecutive equal characters, or
/// nothing when the string is empty.
pub fn longest_sequence<'a>(s: &'a str) -> (r: Option<&'a str>)
    ensures
        (r is None) <==> s@.len() == 0,
        r matches Some(sub) ==> spec_is_first_longest(s@, sub@),
{
    let len = s.unicode_len();
    if len == 0 {
        return None;
    }
    let mut best_start: usize = 0;
    let mut best_len: usize = 0;
    let mut cur_start: usize = 0;
    let mut i: usize = 1;
    while i < len
        invariant
            s@.len() == len,
            cur_start < i <= len,
            forall|m: int| cur_start <= m < i ==> #[trigger] s@[m] == s@[cur_start as int],
            cur_start == 0 || s@[cur_start as int - 1] != s@[cur_start as int],
            cur_start == 0 ==> best_len == 0,
            cur_start > 0 ==> spec_is_run(s@, best_start as int, best_len as int),
            cur_start > 0 ==> best_start + best_len <= cur_start,
            forall|k2: int, l2: int|
                #[trigger] spec_is_run(s@, k2, l2) && k2 + l2 <= cur_start ==> l2 <= best_len,
            forall|k2: int|
                #[trigger] spec_is_run(s@, k2, best_len as int) && k2 + best_len <= cur_start
                    ==> best_start <= k2,
        decreases len - i,
    {
        if s.get_char(i) == s.get_char(cur_start) {
            i = i + 1;
        } else {
            let run_len = i - cur_start;
            let new_best_start = if run_len > best_len {
                cur_start
            } else {
                best_start
            };
            let new_best_len = if run_len > best_len {
                run_len
            } else {
                best_len
            };
            proof {
                assert(spec_is_run(s@, cur_start as int, run_len as int));
                assert forall|k2: int, l2: int|
                    #[trigger] spec_is_run(s@, k2, l2) && k2 + l2 <= i as int implies l2
                    <= new_best_len by {
                    if k2 + l2 > cur_start as int {
                        lemma_run_in_segment(s@, cur_start as int, i as int, k2, l2);
                    }
                }
                assert forall|k2: int|
                    #[trigger] spec_is_run(s@, k2, new_best_len as int) && k2 + new_best_len
                        <= i as int implies new_best_start <= k2 by {
                    if k2 + new_best_len > cur_start as int {
                        lemma_run_in_segment(
                            s@,
                            cur_start as int,
                            i as int,
                            k2,
                            new_best_len as int,
                        );
                    }
                }
            }
            best_start = new_best_start;
            best_len = new_best_len;
            cur_start = i;
            i = i + 1;
        }
    }
    let run_len = len - cur_start;
    let fin_start = if run_len > best_len {
        cur_start
    } else {
        best_start
    };
    let fin_len = if run_len > best_len {
        run_len
    } else {
        best_len
    };
    proof {
        assert(spec_is_run(s@, cur_start as int, run_len as int));
        assert forall|k2: int, l2: int| #[trigger] spec_is_run(s@, k2, l2) implies l2
            <= fin_len by {
            if k2 + l2 > cur_start as int {
                lemma_run_in_segment(s@, cur_start as int, len as int, k2, l2);
            }
        }
        assert forall|k2: int| #[trigger] spec_is_run(s@, k2, fin_len as int) implies fin_start
            <= k2 by {
            if k2 + fin_len > cur_start as int {
                lemma_run_in_segment(s@, cur_start as int, len as int, k2, fin_len as int);
            }
        }
    }
    let sub = s.substring_char(fin_start, fin_start + fin_len);
    proof {
        assert(spec_first_longest_run(s@, fin_start as int, sub@.len() as int));
        assert(sub@ == s@.subrange(fin_start as int, fin_start as int + sub@.len() as int));
        assert(spec_is_first_longest(s@, sub@));
    }
    Some(sub)
}

} // verus!
