//! Division of cores among layers.

use vstd::prelude::*;

use crate::layered::Double;

verus! {

/// The first of the greatest among the first `n` fractions that are not served;
/// none if all are.
pub open spec fn best(fractions: Seq<Double>, served: Seq<bool>, n: nat) -> Option<int>
    decreases n,
{
    if n == 0 {
        None
    } else {
        let i = n - 1;
        match best(fractions, served, i as nat) {
            None => if served[i] {
                None
            } else {
                Some(i)
            },
            Some(b) => if !served[i] && fractions[b].rank() < fractions[i].rank() {
                Some(i)
            } else {
                Some(b)
            },
        }
    }
}

/// Whom `k` rounds serve, each the first of the greatest fractions left.
pub open spec fn served_after(fractions: Seq<Double>, k: nat) -> Seq<bool>
    decreases k,
{
    if k == 0 {
        Seq::new(fractions.len(), |i: int| false)
    } else {
        let before = served_after(fractions, (k - 1) as nat);
        match best(fractions, before, fractions.len()) {
            Some(b) => before.update(b, true),
            None => before,
        }
    }
}

/// The sum of the first `n` numbers.
pub open spec fn sum_to(v: Seq<usize>, n: nat) -> nat
    decreases n,
{
    if n == 0 {
        0
    } else {
        sum_to(v, (n - 1) as nat) + v[n - 1] as nat
    }
}

/// What whole shares leave over.
pub open spec fn left_over(total: usize, floors: Seq<usize>) -> nat {
    if total > sum_to(floors, floors.len()) {
        (total - sum_to(floors, floors.len())) as nat
    } else {
        0
    }
}

/// How many rounds there are: one for each unit left over, while anybody is not
/// served.
pub open spec fn rounds(total: usize, floors: Seq<usize>) -> nat {
    if left_over(total, floors) < floors.len() {
        left_over(total, floors)
    } else {
        floors.len()
    }
}

/// What everybody gets: the whole share, and one more if served.
pub open spec fn shares(total: usize, floors: Seq<usize>, fractions: Seq<Double>) -> Seq<usize> {
    let served = served_after(fractions, rounds(total, floors));
    Seq::new(
        floors.len(),
        |i: int|
            if served[i] {
                (floors[i] + 1) as usize
            } else {
                floors[i]
            },
    )
}

/// How many of the first `n` are served.
pub open spec fn count_served(served: Seq<bool>, n: nat) -> nat
    decreases n,
{
    if n == 0 {
        0
    } else {
        count_served(served, (n - 1) as nat) + (if served[n - 1] {
            1nat
        } else {
            0nat
        })
    }
}

proof fn lemma_best(fractions: Seq<Double>, served: Seq<bool>, n: nat)
    requires
        n <= fractions.len(),
        served.len() == fractions.len(),
    ensures
        match best(fractions, served, n) {
            Some(b) => {
                &&& 0 <= b < n
                &&& !served[b]
                &&& forall|j: int|
                    0 <= j < n && !#[trigger] served[j] ==> fractions[j].rank()
                        <= fractions[b].rank()
                &&& forall|j: int|
                    0 <= j < b && !#[trigger] served[j] ==> fractions[j].rank()
                        < fractions[b].rank()
            },
            None => forall|j: int| 0 <= j < n ==> #[trigger] served[j],
        },
    decreases n,
{
    if n > 0 {
        lemma_best(fractions, served, (n - 1) as nat);
    }
}

proof fn lemma_count_update(served: Seq<bool>, b: int, n: nat)
    requires
        0 <= b < served.len(),
        !served[b],
        n <= served.len(),
    ensures
        count_served(served.update(b, true), n) == count_served(served, n) + (if b < n {
            1nat
        } else {
            0nat
        }),
    decreases n,
{
    if n > 0 {
        lemma_count_update(served, b, (n - 1) as nat);
    }
}

proof fn lemma_count_full(served: Seq<bool>, n: nat)
    requires
        n <= served.len(),
    ensures
        count_served(served, n) <= n,
        count_served(served, n) == n <==> forall|j: int| 0 <= j < n ==> #[trigger] served[j],
    decreases n,
{
    if n > 0 {
        lemma_count_full(served, (n - 1) as nat);
        if count_served(served, n) == n {
            assert forall|j: int| 0 <= j < n implies #[trigger] served[j] by {
                if j < n - 1 {
                    assert(served[j]);
                }
            }
        }
    }
}

proof fn lemma_count_none(served: Seq<bool>, n: nat)
    requires
        n <= served.len(),
        forall|j: int| 0 <= j < served.len() ==> !#[trigger] served[j],
    ensures
        count_served(served, n) == 0,
    decreases n,
{
    if n > 0 {
        lemma_count_none(served, (n - 1) as nat);
    }
}

proof fn lemma_served(fractions: Seq<Double>, k: nat)
    requires
        k <= fractions.len(),
    ensures
        served_after(fractions, k).len() == fractions.len(),
        count_served(served_after(fractions, k), fractions.len()) == k,
    decreases k,
{
    let n = fractions.len();
    let served = served_after(fractions, k);
    if k == 0 {
        lemma_count_none(served, n);
    } else {
        let before = served_after(fractions, (k - 1) as nat);
        lemma_served(fractions, (k - 1) as nat);
        lemma_best(fractions, before, n);
        lemma_count_full(before, n);
        lemma_count_update(before, best(fractions, before, n)->0, n);
    }
}

proof fn lemma_sum_shares(floors: Seq<usize>, served: Seq<bool>, with: Seq<usize>, n: nat)
    requires
        n <= floors.len(),
        served.len() == floors.len(),
        with.len() == floors.len(),
        forall|i: int|
            0 <= i < floors.len() ==> #[trigger] with[i] == floors[i] + (if served[i] {
                1int
            } else {
                0int
            }),
    ensures
        sum_to(with, n) == sum_to(floors, n) + count_served(served, n),
    decreases n,
{
    if n > 0 {
        lemma_sum_shares(floors, served, with, (n - 1) as nat);
    }
}

proof fn lemma_part(v: Seq<usize>, n: nat, i: int)
    requires
        0 <= i < n <= v.len(),
    ensures
        v[i] <= sum_to(v, n),
    decreases n,
{
    if i < n - 1 {
        lemma_part(v, (n - 1) as nat, i);
    }
}

proof fn lemma_sum_grows(v: Seq<usize>, m: nat, n: nat)
    requires
        m <= n <= v.len(),
    ensures
        sum_to(v, m) <= sum_to(v, n),
    decreases n,
{
    if m < n {
        lemma_sum_grows(v, m, (n - 1) as nat);
    }
}

/// Divides a number in proportion to quotas: everybody gets the whole part of a
/// share, and what is left over goes, one each, to those whose shares have the
/// greatest fractions, the first among equals.
pub fn largest_remainder(total: usize, floors: &Vec<usize>, fractions: &Vec<Double>) -> (r: Vec<
    usize,
>)
    requires
        floors@.len() == fractions@.len(),
        sum_to(floors@, floors@.len()) <= usize::MAX,
        forall|i: int| 0 <= i < fractions@.len() ==> !(#[trigger] fractions@[i]).spec_is_nan(),
    ensures
        r@ == shares(total, floors@, fractions@),
{
    let n = floors.len();
    let mut sum: usize = 0;
    let mut i: usize = 0;
    let mut served: Vec<bool> = Vec::new();
    while i < n
        invariant
            i <= n,
            n == floors@.len(),
            sum == sum_to(floors@, i as nat),
            sum_to(floors@, n as nat) <= usize::MAX,
            served@.len() == i,
            forall|j: int| 0 <= j < i ==> !#[trigger] served@[j],
        decreases n - i,
    {
        proof {
            lemma_sum_grows(floors@, (i + 1) as nat, n as nat);
        }
        sum = sum + floors[i];
        served.push(false);
        i = i + 1;
    }
    let mut left: usize = total.saturating_sub(sum);
    let ghost all = left;
    let ghost goal = rounds(total, floors@);
    let mut k: usize = 0;
    proof {
        assert(served@ =~= served_after(fractions@, 0));
    }
    while left > 0 && k < n
        invariant
            n == floors@.len(),
            n == fractions@.len(),
            k <= n,
            all == left_over(total, floors@),
            left == all - k,
            served@.len() == n,
            served@ == served_after(fractions@, k as nat),
            forall|i: int| 0 <= i < fractions@.len() ==> !(#[trigger] fractions@[i]).spec_is_nan(),
        decreases left,
    {
        let found = find_best(fractions, &served);
        proof {
            lemma_served(fractions@, k as nat);
            lemma_count_full(served@, n as nat);
            lemma_best(fractions@, served@, n as nat);
        }
        match found {
            Some(b) => {
                served.set(b, true);
            },
            None => {},
        }
        left = left - 1;
        k = k + 1;
    }
    proof {
        assert(k == goal);
        lemma_served(fractions@, k as nat);
    }
    let mut result: Vec<usize> = Vec::new();
    let mut m: usize = 0;
    while m < n
        invariant
            m <= n,
            n == floors@.len(),
            served@.len() == n,
            k == goal,
            goal == rounds(total, floors@),
            served@ == served_after(fractions@, k as nat),
            count_served(served@, n as nat) == k,
            result@.len() == m,
            forall|j: int|
                0 <= j < m ==> #[trigger] result@[j] == shares(total, floors@, fractions@)[j],
        decreases n - m,
    {
        if served[m] {
            proof {
                lemma_some_served(served@, n as nat, m as int);
                lemma_part(floors@, n as nat, m as int);
            }
            result.push(floors[m] + 1);
        } else {
            result.push(floors[m]);
        }
        m = m + 1;
    }
    proof {
        assert(result@ =~= shares(total, floors@, fractions@));
    }
    result
}

proof fn lemma_some_served(served: Seq<bool>, n: nat, i: int)
    requires
        0 <= i < n <= served.len(),
        served[i],
    ensures
        count_served(served, n) > 0,
    decreases n,
{
    if i < n - 1 {
        lemma_some_served(served, (n - 1) as nat, i);
    }
}

fn find_best(fractions: &Vec<Double>, served: &Vec<bool>) -> (r: Option<usize>)
    requires
        fractions@.len() == served@.len(),
        forall|i: int| 0 <= i < fractions@.len() ==> !(#[trigger] fractions@[i]).spec_is_nan(),
    ensures
        match r {
            Some(b) => best(fractions@, served@, fractions@.len()) == Some(b as int),
            None => best(fractions@, served@, fractions@.len()) is None,
        },
{
    let mut found: Option<usize> = None;
    let mut i: usize = 0;
    while i < fractions.len()
        invariant
            i <= fractions@.len(),
            fractions@.len() == served@.len(),
            forall|i: int| 0 <= i < fractions@.len() ==> !(#[trigger] fractions@[i]).spec_is_nan(),
            match found {
                Some(b) => b < i && best(fractions@, served@, i as nat) == Some(b as int),
                None => best(fractions@, served@, i as nat) is None,
            },
        decreases fractions@.len() - i,
    {
        match found {
            None => {
                if !served[i] {
                    found = Some(i);
                }
            },
            Some(b) => {
                if !served[i] && fractions[b].is_less(fractions[i]) {
                    found = Some(i);
                }
            },
        }
        i = i + 1;
    }
    found
}

/// Nothing is lost or made up: if no more is left over than there are takers,
/// the shares add up to what was divided.
pub proof fn law_shares_add_up(total: usize, floors: Seq<usize>, fractions: Seq<Double>)
    requires
        floors.len() == fractions.len(),
        sum_to(floors, floors.len()) <= total,
        total - sum_to(floors, floors.len()) <= floors.len(),
    ensures
        sum_to(shares(total, floors, fractions), floors.len()) == total,
{
    let n = floors.len();
    let k = rounds(total, floors);
    let served = served_after(fractions, k);
    lemma_served(fractions, k);
    let with = shares(total, floors, fractions);
    assert forall|i: int| 0 <= i < n implies #[trigger] with[i] == floors[i] + (if served[i] {
        1int
    } else {
        0int
    }) by {
        lemma_part(floors, n, i);
        if served[i] {
            lemma_some_served(served, n, i);
        }
    }
    lemma_sum_shares(floors, served, with, n);
}

/// Whoever gets one more has a fraction at least as great as whoever does not,
/// and among equals the first comes first.
pub proof fn law_greater_fractions_come_first(fractions: Seq<Double>, k: nat, i: int, j: int)
    requires
        k <= fractions.len(),
        0 <= i < fractions.len(),
        0 <= j < fractions.len(),
        served_after(fractions, k)[i],
        !served_after(fractions, k)[j],
    ensures
        fractions[j].rank() <= fractions[i].rank(),
        fractions[j].rank() == fractions[i].rank() ==> i < j,
    decreases k,
{
    if k > 0 {
        let n = fractions.len();
        let before = served_after(fractions, (k - 1) as nat);
        lemma_served(fractions, (k - 1) as nat);
        lemma_best(fractions, before, n);
        match best(fractions, before, n) {
            Some(b) => {
                if i != b {
                    law_greater_fractions_come_first(fractions, (k - 1) as nat, i, j);
                }
            },
            None => {
                law_greater_fractions_come_first(fractions, (k - 1) as nat, i, j);
            },
        }
    }
}

} // verus!
