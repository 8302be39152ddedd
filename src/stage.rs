use vstd::prelude::*;

verus! {

/// Where one identifier stands in the pipeline.
#[derive(Debug, Clone, Copy, PartialEq, Eq, Structural)]
pub enum Stage {
    /// Not yet handed to the fetch stage.
    Pending,
    /// Its fetch is in flight.
    Fetching,
    /// Its payload arrived and waits for an extraction slot.
    Fetched,
    /// Its extraction is running.
    Extracting,
    /// Its values were folded into the result.
    Extracted,
    /// Its fetch or extraction failed.
    Failed,
}

/// How many identifiers of `s` stand at stage `k`.
pub open spec fn count(s: Seq<Stage>, k: Stage) -> nat
    decreases s.len(),
{
    if s.len() == 0 {
        0
    } else {
        count(s.drop_last(), k) + if s.last() == k {
            1nat
        } else {
            0nat
        }
    }
}

pub proof fn lemma_count_update(s: Seq<Stage>, i: int, v: Stage, k: Stage)
    requires
        0 <= i < s.len(),
    ensures
        count(s.update(i, v), k) + (if s[i] == k {
            1int
        } else {
            0int
        }) == count(s, k) + (if v == k {
            1int
        } else {
            0int
        }),
    decreases s.len(),
{
    if i == s.len() - 1 {
        assert(s.update(i, v).drop_last() =~= s.drop_last());
    } else {
        lemma_count_update(s.drop_last(), i, v, k);
        assert(s.update(i, v).drop_last() =~= s.drop_last().update(i, v));
    }
}

/// Setting one entry moves it from one count to another and leaves the rest.
pub proof fn lemma_counts_after_set(s: Seq<Stage>, i: int, v: Stage)
    requires
        0 <= i < s.len(),
    ensures
        forall|k: Stage|
            #![trigger count(s.update(i, v), k)]
            count(s.update(i, v), k) + (if s[i] == k {
                1int
            } else {
                0int
            }) == count(s, k) + (if v == k {
                1int
            } else {
                0int
            }),
{
    assert forall|k: Stage|
        #![trigger count(s.update(i, v), k)]
        count(s.update(i, v), k) + (if s[i] == k {
            1int
        } else {
            0int
        }) == count(s, k) + (if v == k {
            1int
        } else {
            0int
        }) by {
        lemma_count_update(s, i, v, k);
    }
}

pub proof fn lemma_count_le(s: Seq<Stage>, k: Stage)
    ensures
        count(s, k) <= s.len(),
    decreases s.len(),
{
    if s.len() > 0 {
        lemma_count_le(s.drop_last(), k);
    }
}

/// A stage that no entry holds has count zero, and conversely.
pub proof fn lemma_count_zero(s: Seq<Stage>, k: Stage)
    ensures
        (count(s, k) == 0) <==> (forall|i: int| 0 <= i < s.len() ==> s[i] != k),
    decreases s.len(),
{
    if s.len() > 0 {
        lemma_count_zero(s.drop_last(), k);
        if count(s, k) == 0 {
            assert forall|i: int| 0 <= i < s.len() implies s[i] != k by {
                if i < s.len() - 1 {
                    assert(s.drop_last()[i] == s[i]);
                }
            }
        } else {
            if s.last() != k {
                let j = choose|j: int| 0 <= j < s.drop_last().len() && s.drop_last()[j] == k;
                assert(s[j] == k);
            }
        }
    }
}

/// A stage that every entry holds has the full count, and conversely.
pub proof fn lemma_count_full(s: Seq<Stage>, k: Stage)
    requires
        count(s, k) == s.len(),
    ensures
        forall|i: int| 0 <= i < s.len() ==> s[i] == k,
    decreases s.len(),
{
    if s.len() > 0 {
        lemma_count_le(s.drop_last(), k);
        lemma_count_full(s.drop_last(), k);
        assert forall|i: int| 0 <= i < s.len() implies s[i] == k by {
            if i < s.len() - 1 {
                assert(s.drop_last()[i] == s[i]);
            }
        }
    }
}

} // verus!
