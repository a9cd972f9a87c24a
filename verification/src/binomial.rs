//! The exact binomial coefficient `C(n, k)`, defined by Pascal's rule and
//! computed row by row over machine integers.

use vstd::prelude::*;

verus! {

/// The binomial coefficient `C(n, k)`, by Pascal's rule.
/// `C(n, 0) == 1`, `C(n, k) == 0` for `k > n`, and otherwise
/// `C(n, k) == C(n-1, k-1) + C(n-1, k)`.
pub open spec fn binom(n: nat, k: nat) -> nat
    decreases n,
{
    if k == 0 {
        1
    } else if k > n {
        0
    } else {
        binom((n - 1) as nat, (k - 1) as nat) + binom((n - 1) as nat, k)
    }
}

/// `C(n, n) == 1`.
pub proof fn lemma_binom_self(n: nat)
    ensures
        binom(n, n) == 1,
    decreases n,
{
    if n > 0 {
        lemma_binom_self((n - 1) as nat);
        assert(binom((n - 1) as nat, n) == 0);
    }
}

/// The binomial coefficient grows with `n`: `C(m, k) <= C(n, k)` for `m <= n`.
pub proof fn lemma_binom_mono(m: nat, n: nat, k: nat)
    requires
        m <= n,
    ensures
        binom(m, k) <= binom(n, k),
    decreases n,
{
    if m < n {
        lemma_binom_mono(m, (n - 1) as nat, k);
        if k == 0 {
        } else if k > n {
            assert(binom(m, k) == 0);
        } else {
            assert(binom(n, k) == binom((n - 1) as nat, (k - 1) as nat) + binom(
                (n - 1) as nat,
                k,
            ));
        }
    }
}

/// The smaller of two integers.
pub open spec fn min_int(a: int, b: int) -> int {
    if a < b {
        a
    } else {
        b
    }
}

/// Every binomial coefficient in row `n` up to column `i` fits in a `u64`.
/// This is exactly the condition under which [`binomial`] succeeds: the
/// row-wise computation passes through each of these values.
pub open spec fn binom_fits(n: nat, i: nat) -> bool {
    forall|j: nat| j <= i ==> binom(n, j) <= u64::MAX
}

/// The binomial coefficient `C(n, i)`, exactly, or `None` when a coefficient
/// in row `n` at a column up to `i` exceeds `u64::MAX`.
pub fn binomial(n: u64, i: u64) -> (r: Option<u64>)
    requires
        i <= n,
    ensures
        r matches Some(v) ==> v == binom(n as nat, i as nat),
        r is Some <==> binom_fits(n as nat, i as nat),
{
    let mut row: Vec<u64> = Vec::new();
    row.push(1);
    let mut m: u64 = 0;
    while m < n
        invariant
            m <= n,
            i <= n,
            row@.len() == min_int(m as int, i as int) + 1,
            forall|j: int| 0 <= j < row@.len() ==> row@[j] == binom(m as nat, j as nat),
        decreases n - m,
    {
        let cols: u64 = if m + 1 < i {
            m + 1
        } else {
            i
        };
        let mut next: Vec<u64> = Vec::new();
        next.push(1);
        while (next.len() as u64) <= cols
            invariant
                m < n,
                i <= n,
                cols == min_int(m as int + 1, i as int),
                row@.len() == min_int(m as int, i as int) + 1,
                forall|j: int| 0 <= j < row@.len() ==> row@[j] == binom(m as nat, j as nat),
                1 <= next@.len() <= cols + 1,
                forall|j: int| 0 <= j < next@.len() ==> next@[j] == binom((m + 1) as nat, j as nat),
            decreases cols + 1 - next@.len(),
        {
            let c = next.len();
            let v: u64 = if c < row.len() {
                match row[c - 1].checked_add(row[c]) {
                    Some(v) => v,
                    None => {
                        proof {
                            lemma_binom_mono((m + 1) as nat, n as nat, c as nat);
                            assert(!binom_fits(n as nat, i as nat)) by {
                                assert(binom(n as nat, c as nat) > u64::MAX);
                            }
                        }
                        return None;
                    },
                }
            } else {
                // Past the previous row's last column, `C(m, c) == 0`, so the
                // new entry is the single value `C(m, c-1)`.
                proof {
                    assert(c == m + 1);
                    assert(binom(m as nat, c as nat) == 0);
                    assert(binom((m + 1) as nat, c as nat) == binom(m as nat, (c - 1) as nat)
                        + binom(m as nat, c as nat));
                }
                row[c - 1]
            };
            next.push(v);
        }
        row = next;
        m = m + 1;
    }
    proof {
        assert(row@.len() == i + 1);
        assert forall|j: nat| j <= i implies binom(n as nat, j) <= u64::MAX by {
            assert(row@[j as int] == binom(n as nat, j));
        }
    }
    Some(row[i as usize])
}

} // verus!
