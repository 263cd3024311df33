//! The least and the greatest of a list of numbers in which some places
//! may be empty.

use vstd::prelude::*;

verus! {

/// Whether `v` stands in the list and nothing in the list is below it.
pub open spec fn is_least(vals: Seq<Option<int>>, v: int) -> bool {
    &&& exists|i: int| 0 <= i < vals.len() && vals[i] == Some(v)
    &&& forall|i: int| 0 <= i < vals.len() && (#[trigger] vals[i]).is_some() ==> v <= vals[i].unwrap()
}

/// Whether `v` stands in the list and nothing in the list is above it.
pub open spec fn is_greatest(vals: Seq<Option<int>>, v: int) -> bool {
    &&& exists|i: int| 0 <= i < vals.len() && vals[i] == Some(v)
    &&& forall|i: int| 0 <= i < vals.len() && (#[trigger] vals[i]).is_some() ==> v >= vals[i].unwrap()
}

/// Whether any place of the list holds a number.
pub open spec fn occupied(vals: Seq<Option<int>>) -> bool {
    exists|i: int| 0 <= i < vals.len() && (#[trigger] vals[i]).is_some()
}

/// The least number of an occupied list.
pub open spec fn least(vals: Seq<Option<int>>) -> int {
    choose|v: int| is_least(vals, v)
}

/// The greatest number of an occupied list.
pub open spec fn greatest(vals: Seq<Option<int>>) -> int {
    choose|v: int| is_greatest(vals, v)
}

/// A list has one least number.
pub proof fn lemma_least_unique(vals: Seq<Option<int>>, v: int)
    requires
        is_least(vals, v),
    ensures
        least(vals) == v,
        occupied(vals),
{
    let w = least(vals);
    assert(is_least(vals, w));
    let i = choose|i: int| 0 <= i < vals.len() && vals[i] == Some(v);
    let j = choose|j: int| 0 <= j < vals.len() && vals[j] == Some(w);
    assert(vals[i].is_some() && vals[j].is_some());
}

/// A list has one greatest number.
pub proof fn lemma_greatest_unique(vals: Seq<Option<int>>, v: int)
    requires
        is_greatest(vals, v),
    ensures
        greatest(vals) == v,
        occupied(vals),
{
    let w = greatest(vals);
    assert(is_greatest(vals, w));
    let i = choose|i: int| 0 <= i < vals.len() && vals[i] == Some(v);
    let j = choose|j: int| 0 <= j < vals.len() && vals[j] == Some(w);
    assert(vals[i].is_some() && vals[j].is_some());
}

/// A list of machine integers as a list of numbers.
pub open spec fn lifted(vals: Seq<Option<i64>>) -> Seq<Option<int>> {
    Seq::new(
        vals.len(),
        |i: int|
            match vals[i] {
                Some(v) => Some(v as int),
                None => None,
            },
    )
}

/// Finds the least number of the list, if it holds any.
pub(crate) fn lowest(vals: &Vec<Option<i64>>) -> (r: Option<i64>)
    ensures
        match r {
            Some(v) => is_least(lifted(vals@), v as int) && least(lifted(vals@)) == v,
            None => !occupied(lifted(vals@)),
        },
{
    let ghost all = lifted(vals@);
    let mut best: Option<i64> = None;
    let mut i: usize = 0;
    while i < vals.len()
        invariant
            i <= vals.len(),
            all == lifted(vals@),
            match best {
                Some(v) => is_least(all.take(i as int), v as int),
                None => !occupied(all.take(i as int)),
            },
        decreases vals.len() - i,
    {
        let ghost before = all.take(i as int);
        let ghost after = all.take(i + 1);
        let ghost old_best = best;
        match vals[i] {
            Some(v) => {
                let lower: bool = match best {
                    Some(b) => v < b,
                    None => true,
                };
                if lower {
                    best = Some(v);
                }
            },
            None => {},
        }
        proof {
            assert(forall|j: int| 0 <= j < i ==> after[j] == before[j]);
            assert(after[i as int] == all[i as int]);
            match best {
                Some(b) => {
                    if old_best == Some(b) {
                        let j = choose|j: int| 0 <= j < before.len() && before[j] == Some(b as int);
                        assert(after[j] == Some(b as int));
                    } else {
                        assert(after[i as int] == Some(b as int));
                    }
                    assert forall|j: int| 0 <= j < after.len() && (#[trigger] after[j]).is_some() implies b
                        <= after[j].unwrap() by {
                        if j < i {
                            assert(before[j].is_some());
                            if old_best.is_none() {
                                assert(occupied(before));
                            }
                        }
                    }
                },
                None => {
                    assert forall|j: int| 0 <= j < after.len() implies !(#[trigger] after[j]).is_some() by {
                        if j < i {
                            assert(before[j] == after[j]);
                            if before[j].is_some() {
                                assert(occupied(before));
                            }
                        }
                    }
                },
            }
        }
        i += 1;
    }
    proof {
        assert(all.take(i as int) =~= all);
        if let Some(v) = best {
            lemma_least_unique(all, v as int);
        }
    }
    best
}

/// Finds the greatest number of the list, if it holds any.
pub(crate) fn highest(vals: &Vec<Option<i64>>) -> (r: Option<i64>)
    ensures
        match r {
            Some(v) => is_greatest(lifted(vals@), v as int) && greatest(lifted(vals@)) == v,
            None => !occupied(lifted(vals@)),
        },
{
    let ghost all = lifted(vals@);
    let mut best: Option<i64> = None;
    let mut i: usize = 0;
    while i < vals.len()
        invariant
            i <= vals.len(),
            all == lifted(vals@),
            match best {
                Some(v) => is_greatest(all.take(i as int), v as int),
                None => !occupied(all.take(i as int)),
            },
        decreases vals.len() - i,
    {
        let ghost before = all.take(i as int);
        let ghost after = all.take(i + 1);
        let ghost old_best = best;
        match vals[i] {
            Some(v) => {
                let higher: bool = match best {
                    Some(b) => v > b,
                    None => true,
                };
                if higher {
                    best = Some(v);
                }
            },
            None => {},
        }
        proof {
            assert(forall|j: int| 0 <= j < i ==> after[j] == before[j]);
            assert(after[i as int] == all[i as int]);
            match best {
                Some(b) => {
                    if old_best == Some(b) {
                        let j = choose|j: int| 0 <= j < before.len() && before[j] == Some(b as int);
                        assert(after[j] == Some(b as int));
                    } else {
                        assert(after[i as int] == Some(b as int));
                    }
                    assert forall|j: int| 0 <= j < after.len() && (#[trigger] after[j]).is_some() implies b
                        >= after[j].unwrap() by {
                        if j < i {
                            assert(before[j].is_some());
                            if old_best.is_none() {
                                assert(occupied(before));
                            }
                        }
                    }
                },
                None => {
                    assert forall|j: int| 0 <= j < after.len() implies !(#[trigger] after[j]).is_some() by {
                        if j < i {
                            assert(before[j] == after[j]);
                            if before[j].is_some() {
                                assert(occupied(before));
                            }
                        }
                    }
                },
            }
        }
        i += 1;
    }
    proof {
        assert(all.take(i as int) =~= all);
        if let Some(v) = best {
            lemma_greatest_unique(all, v as int);
        }
    }
    best
}

}
