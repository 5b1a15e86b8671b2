//! What the command-line programs report: how long inferences took, and the names of the
//! files that intermediate results go to.
use vstd::prelude::*;
use vstd::relations::*;
use vstd::seq_lib::*;
use vstd::string::*;

use crate::config::BRANCHES;
use crate::text::{decimal, decimal_text, numbered, numbered_text};

verus! {

/// The order of numbers.
pub open spec fn at_most() -> spec_fn(u64, u64) -> bool {
    |a: u64, b: u64| a <= b
}

/// Numbers in ascending order.
pub open spec fn ascending(s: Seq<u64>) -> Seq<u64> {
    s.sort_by(at_most())
}

/// The sum of numbers.
pub open spec fn total(s: Seq<u64>) -> int
    decreases s.len(),
{
    if s.len() == 0 {
        0
    } else {
        total(s.drop_last()) + s.last()
    }
}

/// The middle of numbers in ascending order; the mean of the two in the middle, rounded down,
/// where there is an even number of them.
pub open spec fn middle(s: Seq<u64>) -> int {
    let half = s.len() as int / 2;
    if s.len() % 2 == 0 {
        (s[half - 1] + s[half]) / 2
    } else {
        s[half] as int
    }
}

/// How long inferences took, in nanoseconds.
#[derive(Clone, Copy, Debug, PartialEq, Eq)]
pub struct Timing {
    pub min: u64,
    pub median: u64,
    pub total: u128,
}

/// Adds a number to numbers in ascending order.
fn insert(sorted: &mut Vec<u64>, x: u64)
    requires
        sorted_by(old(sorted)@, at_most()),
    ensures
        sorted_by(final(sorted)@, at_most()),
        final(sorted)@.to_multiset() == old(sorted)@.to_multiset().insert(x),
        final(sorted)@.len() == old(sorted)@.len() + 1,
{
    let mut i: usize = 0;
    while i < sorted.len() && sorted[i] < x
        invariant
            i <= sorted.len(),
            forall|j: int| 0 <= j < i ==> sorted@[j] < x,
        decreases sorted.len() - i,
    {
        i += 1;
    }
    let ghost before = sorted@;
    sorted.insert(i, x);
    proof {
        to_multiset_insert(before, i as int, x);
        let leq = at_most();
        assert forall|a: int, b: int| 0 <= a < b < sorted@.len() implies #[trigger] leq(
            sorted@[a],
            sorted@[b],
        ) by {
            let (c, d) = (
                if a < i {
                    a
                } else {
                    a - 1
                },
                if b < i {
                    b
                } else {
                    b - 1
                },
            );
            if a != i && b != i {
                assert(leq(before[c], before[d]));
            } else if a == i {
                if i < d {
                    assert(leq(before[i as int], before[d]));
                }
            }
        }
    }
}

/// Computes [`ascending`].
pub fn sorted(durations: &Vec<u64>) -> (r: Vec<u64>)
    ensures
        r@ == ascending(durations@),
{
    let mut out: Vec<u64> = Vec::new();
    let mut i: usize = 0;
    proof {
        assert(durations@.take(0) =~= Seq::<u64>::empty());
        assert(out@ =~= Seq::<u64>::empty());
    }
    while i < durations.len()
        invariant
            i <= durations.len(),
            sorted_by(out@, at_most()),
            out@.to_multiset() == durations@.take(i as int).to_multiset(),
        decreases durations.len() - i,
    {
        proof {
            assert(durations@.take(i + 1) =~= durations@.take(i as int).push(durations@[i as int]));
            to_multiset_build(durations@.take(i as int), durations@[i as int]);
        }
        insert(&mut out, durations[i]);
        i += 1;
    }
    proof {
        assert(durations@.take(i as int) =~= durations@);
        durations@.lemma_sort_by_ensures(at_most());
        lemma_sorted_unique(out@, ascending(durations@), at_most());
    }
    out
}

/// A sum of `n` numbers is at most `n` times the largest.
proof fn lemma_total(s: Seq<u64>)
    ensures
        0 <= total(s) <= s.len() * u64::MAX,
    decreases s.len(),
{
    if s.len() > 0 {
        lemma_total(s.drop_last());
    }
}

/// Sums up how long inferences took; `None` where there were none.
pub fn summary(durations: &Vec<u64>) -> (r: Option<Timing>)
    ensures
        match r {
            Some(timing) => durations@.len() > 0 && timing.min == ascending(durations@)[0]
                && timing.median == middle(ascending(durations@)) && timing.total == total(
                durations@,
            ),
            None => durations@.len() == 0,
        },
{
    if durations.len() == 0 {
        return None;
    }
    let ordered = sorted(durations);
    proof {
        durations@.lemma_sort_by_ensures(at_most());
        to_multiset_len(durations@);
        to_multiset_len(ordered@);
    }
    let half: usize = ordered.len() / 2;
    let median: u64 = if ordered.len() % 2 == 0 {
        ((ordered[half - 1] as u128 + ordered[half] as u128) / 2) as u64
    } else {
        ordered[half]
    };
    let mut sum: u128 = 0;
    let mut i: usize = 0;
    while i < durations.len()
        invariant
            i <= durations.len(),
            sum == total(durations@.take(i as int)),
        decreases durations.len() - i,
    {
        proof {
            assert(durations@.take(i + 1).drop_last() =~= durations@.take(i as int));
            lemma_total(durations@.take(i as int));
            let n = i as int;
            assert(n * u64::MAX <= 0xffff_ffff_ffff_ffff * 0xffff_ffff_ffff_ffff)
                by (nonlinear_arith)
                requires
                    0 <= n <= 0xffff_ffff_ffff_ffff,
            ;
        }
        sum = sum + durations[i] as u128;
        i += 1;
    }
    assert(durations@.take(i as int) =~= durations@);
    Some(Timing { min: ordered[0], median, total: sum })
}

/// The name of the file for the output of residual block `index`.
pub open spec fn resblock_file(index: nat) -> Seq<char> {
    numbered("stage_"@, index / BRANCHES as nat, "_resblock_"@) + decimal(index % BRANCHES as nat)
        + ".npy"@
}

/// Computes [`resblock_file`].
pub fn resblock_file_name(index: usize) -> (r: String)
    ensures
        r@ == resblock_file(index as nat),
{
    let mut name = numbered_text("stage_", index / BRANCHES, "_resblock_");
    let branch = decimal_text((index % BRANCHES) as u64);
    name.append(branch.as_str());
    name.append(".npy");
    name
}

/// The name of the file for the output of a stage.
pub open spec fn stage_file(index: nat) -> Seq<char> {
    numbered("stage_"@, index, ".npy"@)
}

/// Computes [`stage_file`].
pub fn stage_file_name(index: usize) -> (r: String)
    ensures
        r@ == stage_file(index as nat),
{
    numbered_text("stage_", index, ".npy")
}

/// What the summary of durations speaks of: the least of them, which is one of them; the same
/// durations in order; the one in the middle, or the mean of the two in the middle; and their
/// sum.
pub proof fn lemma_summary(s: Seq<u64>)
    requires
        s.len() > 0,
    ensures
        ({
            let a = ascending(s);
            let n = s.len() as int;
            &&& a.to_multiset() == s.to_multiset()
            &&& a.len() == n
            &&& forall|i: int, j: int| 0 <= i <= j < n ==> #[trigger] a[i] <= #[trigger] a[j]
            &&& s.contains(a[0])
            &&& forall|i: int| 0 <= i < n ==> a[0] <= #[trigger] s[i]
            &&& n % 2 == 1 ==> middle(a) == a[(n - 1) / 2]
            &&& n % 2 == 0 ==> 2 * middle(a) <= a[n / 2 - 1] + a[n / 2] <= 2 * middle(a) + 1
            &&& total(s) == total(s.drop_last()) + s.last()
            &&& total(Seq::<u64>::empty()) == 0
        }),
{
    let a = ascending(s);
    let n = s.len() as int;
    s.lemma_sort_by_ensures(at_most());
    to_multiset_len(s);
    to_multiset_len(a);
    assert forall|i: int, j: int| 0 <= i <= j < n implies #[trigger] a[i] <= #[trigger] a[j] by {
        if i < j {
            assert(at_most()(a[i], a[j]));
        }
    }
    to_multiset_contains(a, a[0]);
    to_multiset_contains(s, a[0]);
    assert(a.contains(a[0]));
    assert forall|i: int| 0 <= i < n implies a[0] <= #[trigger] s[i] by {
        assert(s.contains(s[i]));
        to_multiset_contains(s, s[i]);
        to_multiset_contains(a, s[i]);
        let j = choose|j: int| 0 <= j < a.len() && a[j] == s[i];
        assert(a[0] <= a[j]);
    }
}

/// The name of the file of a residual block tells its stage, of three blocks each, and which of
/// them it is.
pub proof fn lemma_resblock_file(index: nat)
    ensures
        resblock_file(index) == "stage_"@ + decimal(index / 3) + "_resblock_"@ + decimal(index % 3)
            + ".npy"@,
        stage_file(index) == "stage_"@ + decimal(index) + ".npy"@,
{
}

} // verus!
