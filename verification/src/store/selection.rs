//! Reading the first so many records that match, from either end.
use crate::gelf::message::{LogEntry, LogEntryView};
use crate::store::memory::{all_wf, entry_list};
use vstd::prelude::*;

verus! {

/// Which of `len` records a walk comes to after `k` others.
pub open spec fn visited(len: int, k: int, oldest_first: bool) -> int {
    if oldest_first {
        k
    } else {
        len - 1 - k
    }
}

/// The records that the first `k` steps of a walk have picked: those that match,
/// until there are `count`.
pub open spec fn picked(matches: Seq<bool>, count: nat, oldest_first: bool, k: nat) -> Seq<int>
    decreases k,
{
    if k == 0 {
        seq![]
    } else {
        let before = picked(matches, count, oldest_first, (k - 1) as nat);
        let at = visited(matches.len() as int, k - 1, oldest_first);
        if before.len() < count && matches[at] {
            before.push(at)
        } else {
            before
        }
    }
}

/// How many records the first `k` steps of a walk have looked at: it stops once
/// it has `count`.
pub open spec fn looked_at(matches: Seq<bool>, count: nat, oldest_first: bool, k: nat) -> nat
    decreases k,
{
    if k == 0 {
        0
    } else {
        looked_at(matches, count, oldest_first, (k - 1) as nat) + if picked(
            matches,
            count,
            oldest_first,
            (k - 1) as nat,
        ).len() < count {
            1nat
        } else {
            0nat
        }
    }
}

/// The first `count` records that match, in the order of the walk.
pub open spec fn selection(matches: Seq<bool>, count: nat, oldest_first: bool) -> Seq<int> {
    picked(matches, count, oldest_first, matches.len())
}

/// How many records a read of the first `count` that match looks at.
pub open spec fn scanned(matches: Seq<bool>, count: nat, oldest_first: bool) -> nat {
    looked_at(matches, count, oldest_first, matches.len())
}

/// How many records match.
pub open spec fn matching(matches: Seq<bool>) -> nat
    decreases matches.len(),
{
    if matches.len() == 0 {
        0
    } else {
        matching(matches.drop_last()) + if matches.last() {
            1nat
        } else {
            0nat
        }
    }
}

/// The records at the places of a selection.
pub open spec fn records_at(entries: Seq<LogEntryView>, at: Seq<int>) -> Seq<LogEntryView> {
    Seq::new(at.len(), |i: int| entries[at[i]])
}

/// What a read picked, and how many records it looked at.
#[derive(Debug)]
pub struct Picked {
    pub at: Vec<usize>,
    pub scanned: usize,
}

/// The places of a selection.
pub open spec fn places(at: Seq<usize>) -> Seq<int> {
    Seq::new(at.len(), |i: int| at[i] as int)
}

/// Picks the first `count` records that match, oldest or newest first.
pub fn pick(matches: &Vec<bool>, count: usize, oldest_first: bool) -> (r: Picked)
    ensures
        places(r.at@) == selection(matches@, count as nat, oldest_first),
        r.scanned == scanned(matches@, count as nat, oldest_first),
        r.at@.len() <= count,
        forall|i: int| 0 <= i < r.at@.len() ==> (#[trigger] r.at@[i]) < matches@.len(),
{
    let total: usize = matches.len();
    let mut at: Vec<usize> = Vec::new();
    let mut n: usize = 0;
    let mut k: usize = 0;
    proof {
        assert(places(at@) =~= seq![]);
    }
    while k < total
        invariant
            total == matches@.len(),
            k <= total,
            n <= k,
            places(at@) == picked(matches@, count as nat, oldest_first, k as nat),
            n == looked_at(matches@, count as nat, oldest_first, k as nat),
            at@.len() <= count,
            forall|i: int| 0 <= i < at@.len() ==> (#[trigger] at@[i]) < total,
        decreases total - k,
    {
        let i: usize = if oldest_first {
            k
        } else {
            total - 1 - k
        };
        let ghost before = at@;
        if at.len() < count {
            n += 1;
            if matches[i] {
                at.push(i);
                proof {
                    assert(places(at@) =~= places(before).push(i as int));
                }
            }
        }
        proof {
            assert(places(before).len() == before.len());
        }
        k += 1;
    }
    Picked { at, scanned: n }
}

/// A walk that is not cut short picks every record that matches, and looks at
/// each record.
pub proof fn lemma_unbounded_walk(matches: Seq<bool>, count: nat, k: nat)
    requires
        k <= matches.len() <= count,
    ensures
        picked(matches, count, true, k).len() == matching(matches.take(k as int)),
        picked(matches, count, true, k).len() <= k,
        looked_at(matches, count, true, k) == k,
        k == matches.len() ==> picked(matches, count, true, k).len() == matching(matches),
    decreases k,
{
    if k > 0 {
        lemma_unbounded_walk(matches, count, (k - 1) as nat);
        assert(matches.take(k as int).drop_last() =~= matches.take(k - 1));
    }
    if k == matches.len() {
        assert(matches.take(k as int) =~= matches);
    }
}

/// How many records match.
pub fn count_matching(matches: &Vec<bool>) -> (n: usize)
    ensures
        n == matching(matches@),
{
    let mut n: usize = 0;
    let mut i: usize = 0;
    while i < matches.len()
        invariant
            i <= matches@.len(),
            n <= i,
            n == matching(matches@.take(i as int)),
        decreases matches@.len() - i,
    {
        proof {
            assert(matches@.take(i + 1).drop_last() =~= matches@.take(i as int));
        }
        if matches[i] {
            n += 1;
        }
        i += 1;
    }
    proof {
        assert(matches@.take(matches@.len() as int) =~= matches@);
    }
    n
}

/// Copies of the records at the places of a selection.
pub fn clone_at(entries: &Vec<LogEntry>, at: &Vec<usize>) -> (r: Vec<LogEntry>)
    requires
        all_wf(entries@),
        forall|i: int| 0 <= i < at@.len() ==> (#[trigger] at@[i]) < entries@.len(),
    ensures
        all_wf(r@),
        entry_list(r@) == records_at(entry_list(entries@), places(at@)),
{
    let mut r: Vec<LogEntry> = Vec::new();
    let mut i: usize = 0;
    while i < at.len()
        invariant
            all_wf(entries@),
            forall|k: int| 0 <= k < at@.len() ==> (#[trigger] at@[k]) < entries@.len(),
            all_wf(r@),
            i <= at@.len(),
            r@.len() == i,
            forall|k: int| 0 <= k < i ==> (#[trigger] r@[k])@ == entries@[at@[k] as int]@,
        decreases at@.len() - i,
    {
        let place: usize = at[i];
        r.push(entries[place].clone());
        i += 1;
    }
    proof {
        assert(entry_list(r@) =~= records_at(entry_list(entries@), places(at@)));
    }
    r
}

/// How many of the first `k` records that a walk comes to match.
spec fn matching_steps(matches: Seq<bool>, oldest_first: bool, k: nat) -> nat
    decreases k,
{
    if k == 0 {
        0
    } else {
        matching_steps(matches, oldest_first, (k - 1) as nat) + if matches[visited(
            matches.len() as int,
            k - 1,
            oldest_first,
        )] {
            1nat
        } else {
            0nat
        }
    }
}

proof fn lemma_steps_from_the_end(matches: Seq<bool>, k: nat)
    requires
        k <= matches.len(),
    ensures
        matching_steps(matches, false, k) + matching(matches.take(matches.len() - k)) == matching(
            matches,
        ),
    decreases k,
{
    if k == 0 {
        assert(matches.take(matches.len() as int) =~= matches);
    } else {
        lemma_steps_from_the_end(matches, (k - 1) as nat);
        let here = matches.take(matches.len() - k + 1);
        assert(here.drop_last() =~= matches.take(matches.len() - k));
        assert(here.last() == matches[matches.len() - k]);
    }
}

proof fn lemma_steps_from_the_start(matches: Seq<bool>, k: nat)
    requires
        k <= matches.len(),
    ensures
        matching_steps(matches, true, k) == matching(matches.take(k as int)),
    decreases k,
{
    if k > 0 {
        lemma_steps_from_the_start(matches, (k - 1) as nat);
        assert(matches.take(k as int).drop_last() =~= matches.take(k - 1));
    }
}

proof fn lemma_picked_len(matches: Seq<bool>, count: nat, oldest_first: bool, k: nat)
    requires
        k <= matches.len(),
    ensures
        picked(matches, count, oldest_first, k).len() == (if matching_steps(matches, oldest_first, k)
            < count {
            matching_steps(matches, oldest_first, k)
        } else {
            count
        }),
    decreases k,
{
    if k > 0 {
        lemma_picked_len(matches, count, oldest_first, (k - 1) as nat);
    }
}

/// A read returns as many records as match, up to `count`.
pub proof fn reads_return_what_matches(matches: Seq<bool>, count: nat, oldest_first: bool)
    ensures
        selection(matches, count, oldest_first).len() == (if matching(matches) < count {
            matching(matches)
        } else {
            count
        }),
{
    let n = matches.len();
    lemma_picked_len(matches, count, oldest_first, n);
    lemma_steps_from_the_end(matches, n);
    lemma_steps_from_the_start(matches, n);
    assert(matches.take(n as int) =~= matches);
    assert(matches.take(0) =~= seq![]);
}

proof fn lemma_picked_prefix(
    matches: Seq<bool>,
    count: nat,
    more: nat,
    oldest_first: bool,
    k: nat,
)
    requires
        count <= more,
    ensures
        ({
            let few = picked(matches, count, oldest_first, k);
            let many = picked(matches, more, oldest_first, k);
            &&& few.len() <= many.len()
            &&& few == many.take(few.len() as int)
            &&& few.len() < count ==> few == many
        }),
    decreases k,
{
    if k > 0 {
        lemma_picked_prefix(matches, count, more, oldest_first, (k - 1) as nat);
        let few = picked(matches, count, oldest_first, k);
        let many = picked(matches, more, oldest_first, k);
        let old_few = picked(matches, count, oldest_first, (k - 1) as nat);
        let old_many = picked(matches, more, oldest_first, (k - 1) as nat);
        if old_few.len() < count {
            assert(many.take(few.len() as int) =~= few);
        } else {
            assert(many.take(few.len() as int) =~= old_many.take(few.len() as int));
        }
    } else {
        assert(picked(matches, more, oldest_first, k).take(0) =~= seq![]);
    }
}

/// Asking for more records and dropping those beyond `count` returns the same
/// records as asking for `count`.
pub proof fn probing_returns_the_same(matches: Seq<bool>, count: nat, more: nat, oldest_first: bool)
    requires
        count <= more,
    ensures
        ({
            let few = selection(matches, count, oldest_first);
            let many = selection(matches, more, oldest_first);
            few == (if many.len() <= count {
                many
            } else {
                many.take(count as int)
            })
        }),
{
    lemma_picked_prefix(matches, count, more, oldest_first, matches.len());
    reads_return_what_matches(matches, count, oldest_first);
    reads_return_what_matches(matches, more, oldest_first);
    let many = selection(matches, more, oldest_first);
    assert(many.take(many.len() as int) =~= many);
}

proof fn lemma_picked_in_order(matches: Seq<bool>, count: nat, oldest_first: bool, k: nat)
    requires
        k <= matches.len(),
    ensures
        ({
            let at = picked(matches, count, oldest_first, k);
            let n = matches.len() as int;
            &&& forall|i: int|
                0 <= i < at.len() ==> 0 <= #[trigger] at[i] < n && matches[at[i]] && (if oldest_first {
                    at[i] < k
                } else {
                    at[i] >= n - k
                })
            &&& forall|i: int, j: int|
                0 <= i < j < at.len() ==> (if oldest_first {
                    #[trigger] at[i] < #[trigger] at[j]
                } else {
                    at[i] > at[j]
                })
        }),
    decreases k,
{
    if k > 0 {
        lemma_picked_in_order(matches, count, oldest_first, (k - 1) as nat);
        let before = picked(matches, count, oldest_first, (k - 1) as nat);
        let at = picked(matches, count, oldest_first, k);
        assert forall|i: int, j: int| 0 <= i < j < at.len() implies (if oldest_first {
            #[trigger] at[i] < #[trigger] at[j]
        } else {
            at[i] > at[j]
        }) by {
            assert(at[i] == before[i]);
            if j < before.len() {
                assert(at[j] == before[j]);
            }
        }
        assert forall|i: int| 0 <= i < at.len() implies 0 <= #[trigger] at[i] < matches.len()
            && matches[at[i]] && (if oldest_first {
            at[i] < k
        } else {
            at[i] >= matches.len() - k
        }) by {
            if i < before.len() {
                assert(at[i] == before[i]);
            }
        }
    }
}

/// A read returns records that match, none twice, in the order asked for.
pub proof fn reads_keep_the_order(matches: Seq<bool>, count: nat, oldest_first: bool)
    ensures
        ({
            let at = selection(matches, count, oldest_first);
            &&& forall|i: int|
                0 <= i < at.len() ==> 0 <= #[trigger] at[i] < matches.len() && matches[at[i]]
            &&& forall|i: int, j: int|
                0 <= i < j < at.len() ==> (if oldest_first {
                    #[trigger] at[i] < #[trigger] at[j]
                } else {
                    at[i] > at[j]
                })
        }),
{
    lemma_picked_in_order(matches, count, oldest_first, matches.len());
}

proof fn lemma_skips_nothing(matches: Seq<bool>, count: nat, k: nat, i: int)
    requires
        0 <= i < k <= matches.len(),
        matches[i],
    ensures
        ({
            let at = picked(matches, count, true, k);
            at.contains(i) || (at.len() >= count && forall|j: int|
                0 <= j < at.len() ==> #[trigger] at[j] < i)
        }),
    decreases k,
{
    let before = picked(matches, count, true, (k - 1) as nat);
    let at = picked(matches, count, true, k);
    if i < k - 1 {
        lemma_skips_nothing(matches, count, (k - 1) as nat, i);
        if before.contains(i) {
            let j = choose|j: int| 0 <= j < before.len() && before[j] == i;
            assert(at[j] == i);
        }
    } else {
        lemma_picked_in_order(matches, count, true, (k - 1) as nat);
        if before.len() < count {
            assert(at[at.len() - 1] == i);
        }
    }
}

/// A read of the oldest records skips nothing: a record that matches and is not
/// returned comes after all that are, so that reading on from the last one
/// returned comes to it.
pub proof fn oldest_first_reads_skip_nothing(matches: Seq<bool>, count: nat, i: int)
    requires
        0 <= i < matches.len(),
        matches[i],
        !selection(matches, count, true).contains(i),
    ensures
        selection(matches, count, true).len() == count,
        forall|j: int|
            0 <= j < selection(matches, count, true).len() ==> #[trigger] selection(
                matches,
                count,
                true,
            )[j] < i,
{
    lemma_skips_nothing(matches, count, matches.len(), i);
    reads_return_what_matches(matches, count, true);
}

/// A read of the newest records takes them from the end: a record that matches and is not
/// returned is older than all that are.
pub proof fn newest_first_reads_take_the_newest(matches: Seq<bool>, count: nat, i: int)
    requires
        0 <= i < matches.len(),
        matches[i],
        !selection(matches, count, false).contains(i),
    ensures
        selection(matches, count, false).len() == count,
        forall|j: int|
            0 <= j < selection(matches, count, false).len() ==> #[trigger] selection(
                matches,
                count,
                false,
            )[j] > i,
{
    lemma_newest_walk(matches, count, i, matches.len());
}

proof fn lemma_newest_walk(matches: Seq<bool>, count: nat, i: int, k: nat)
    requires
        0 <= i < matches.len(),
        matches[i],
        k <= matches.len(),
    ensures
        picked(matches, count, false, k).len() <= count,
        forall|j: int|
            0 <= j < picked(matches, count, false, k).len() ==> matches.len() - k <= (
            #[trigger] picked(matches, count, false, k)[j]) < matches.len(),
        matches.len() - k <= i && !picked(matches, count, false, k).contains(i) ==> picked(
            matches,
            count,
            false,
            k,
        ).len() == count && forall|j: int|
            0 <= j < count ==> #[trigger] picked(matches, count, false, k)[j] > i,
    decreases k,
{
    if k > 0 {
        lemma_newest_walk(matches, count, i, (k - 1) as nat);
        let before = picked(matches, count, false, (k - 1) as nat);
        let now = picked(matches, count, false, k);
        let at = matches.len() - k;
        assert(at == visited(matches.len() as int, k - 1, false));
        if matches.len() - k <= i && !now.contains(i) {
            if i == at {
                if before.len() < count {
                    assert(now[now.len() - 1] == i);
                }
                assert forall|j: int| 0 <= j < count implies #[trigger] now[j] > i by {
                    assert(now[j] == before[j]);
                }
            } else {
                if before.contains(i) {
                    let j = choose|j: int| 0 <= j < before.len() && before[j] == i;
                    assert(now[j] == i);
                }
            }
        }
    }
}

/// How many records match is told by counting them: one that matches adds one, and one
/// that does not adds none.
pub proof fn matches_are_counted(a: Seq<bool>, b: Seq<bool>)
    ensures
        matching(a + b) == matching(a) + matching(b),
        matching(seq![true]) == 1,
        matching(seq![false]) == 0,
    decreases b.len(),
{
    reveal_with_fuel(matching, 2);
    assert(seq![true].drop_last() =~= seq![]);
    assert(seq![false].drop_last() =~= seq![]);
    if b.len() == 0 {
        assert(a + b =~= a);
    } else {
        assert((a + b).drop_last() =~= a + b.drop_last());
        matches_are_counted(a, b.drop_last());
    }
}

/// A read looks at every record where it does not find as many as it asks for, and at no
/// more than there are.
pub proof fn unfilled_reads_look_at_everything(matches: Seq<bool>, count: nat, oldest_first: bool)
    ensures
        scanned(matches, count, oldest_first) <= matches.len(),
        selection(matches, count, oldest_first).len() < count ==> scanned(
            matches,
            count,
            oldest_first,
        ) == matches.len(),
        count == 0 ==> scanned(matches, count, oldest_first) == 0,
        selection(matches, count, oldest_first).len() <= scanned(matches, count, oldest_first),
{
    lemma_looked_at(matches, count, oldest_first, matches.len());
}

proof fn lemma_looked_at(matches: Seq<bool>, count: nat, oldest_first: bool, k: nat)
    ensures
        looked_at(matches, count, oldest_first, k) <= k,
        picked(matches, count, oldest_first, k).len() < count ==> looked_at(
            matches,
            count,
            oldest_first,
            k,
        ) == k,
        count == 0 ==> looked_at(matches, count, oldest_first, k) == 0,
        picked(matches, count, oldest_first, k).len() <= looked_at(matches, count, oldest_first, k),
    decreases k,
{
    if k > 0 {
        lemma_looked_at(matches, count, oldest_first, (k - 1) as nat);
    }
}

} // verus!
