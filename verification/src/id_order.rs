//! Pages of a collection in the order of the identifiers of its items.

use vstd::prelude::*;

verus! {

/// Whether `a` comes before `b` on the way up the identifiers or, if
/// `descending`, on the way down.
pub open spec fn id_before(descending: bool, a: u128, b: u128) -> bool {
    if descending {
        a > b
    } else {
        a < b
    }
}

/// Whether a page that begins at `marker` can hold `id`: the marker itself
/// and what comes after it can; without a marker every identifier can.
pub open spec fn id_in_page_range(descending: bool, marker: Option<u128>, id: u128) -> bool {
    match marker {
        Some(m) => !id_before(descending, id, m),
        None => true,
    }
}

/// The positions `page` make the page of `ids` that begins at `marker`
/// and has at most `limit` items, in the order of the identifiers: they
/// name identifiers in that order, none before the marker, and they skip no
/// identifier from the marker on but those that come after the last of
/// them once `limit` is reached.
pub open spec fn is_id_page(
    ids: Seq<u128>,
    page: Seq<usize>,
    descending: bool,
    marker: Option<u128>,
    limit: usize,
) -> bool {
    &&& page.len() <= limit
    &&& forall|i: int| 0 <= i < page.len() ==> (#[trigger] page[i]) < ids.len()
    &&& forall|i: int|
        0 <= i < page.len() ==> id_in_page_range(descending, marker, ids[#[trigger] page[i] as int])
    &&& forall|i: int, j: int|
        0 <= i < j < page.len() ==> id_before(
            descending,
            ids[#[trigger] page[i] as int],
            ids[#[trigger] page[j] as int],
        )
    &&& forall|j: int|
        0 <= j < ids.len() && id_in_page_range(descending, marker, #[trigger] ids[j]) ==> {
            ||| exists|i: int| 0 <= i < page.len() && ids[#[trigger] page[i] as int] == ids[j]
            ||| page.len() == limit && limit > 0 && id_before(
                descending,
                ids[page[limit - 1] as int],
                ids[j],
            )
            ||| limit == 0
        }
}

/// The position in `ids` of the first identifier after `after`, in the
/// order of the identifiers, that a page beginning at `marker` can hold.
fn next_position(ids: &Vec<u128>, descending: bool, marker: Option<u128>, after: Option<u128>) -> (r:
    Option<usize>)
    ensures
        match r {
            Some(best) => {
                &&& best < ids@.len()
                &&& id_in_page_range(descending, marker, ids@[best as int])
                &&& after matches Some(a) ==> id_before(descending, a, ids@[best as int])
                &&& forall|j: int|
                    0 <= j < ids@.len() && id_in_page_range(descending, marker, #[trigger] ids@[j])
                        && (after matches Some(a) ==> id_before(descending, a, ids@[j]))
                        ==> !id_before(descending, ids@[j], ids@[best as int])
            },
            None => forall|j: int|
                0 <= j < ids@.len() && id_in_page_range(descending, marker, #[trigger] ids@[j])
                    ==> (after matches Some(a) && !id_before(descending, a, ids@[j])),
        },
{
    let mut best: Option<usize> = None;
    let mut j: usize = 0;
    while j < ids.len()
        invariant
            j <= ids@.len(),
            match best {
                Some(b) => {
                    &&& b < j
                    &&& id_in_page_range(descending, marker, ids@[b as int])
                    &&& after matches Some(a) ==> id_before(descending, a, ids@[b as int])
                    &&& forall|k: int|
                        0 <= k < j && id_in_page_range(descending, marker, #[trigger] ids@[k])
                            && (after matches Some(a) ==> id_before(descending, a, ids@[k]))
                            ==> !id_before(descending, ids@[k], ids@[b as int])
                },
                None => forall|k: int|
                    0 <= k < j && id_in_page_range(descending, marker, #[trigger] ids@[k]) ==> (
                    after matches Some(a) && !id_before(descending, a, ids@[k])),
            },
        decreases ids@.len() - j,
    {
        let id = ids[j];
        let in_range = match marker {
            Some(m) => if descending {
                id <= m
            } else {
                id >= m
            },
            None => true,
        };
        let beyond = match after {
            Some(a) => if descending {
                a > id
            } else {
                a < id
            },
            None => true,
        };
        if in_range && beyond {
            let better = match best {
                Some(b) => if descending {
                    id > ids[b]
                } else {
                    id < ids[b]
                },
                None => true,
            };
            if better {
                best = Some(j);
            }
        }
        j += 1;
    }
    best
}

/// The positions in `ids` of the page that begins at `marker`, marker
/// included, and has at most `limit` items, in the order of the
/// identifiers: upwards, or downwards if `descending`.
pub fn select_page(ids: &Vec<u128>, descending: bool, marker: Option<u128>, limit: usize) -> (page:
    Vec<usize>)
    ensures
        is_id_page(ids@, page@, descending, marker, limit),
{
    let mut page: Vec<usize> = Vec::new();
    let mut last: Option<u128> = None;
    let mut done = false;
    while page.len() < limit && !done
        invariant
            page@.len() <= limit,
            match last {
                Some(a) => page@.len() > 0 && a == ids@[page@[page@.len() - 1] as int],
                None => page@.len() == 0,
            },
            forall|i: int| 0 <= i < page@.len() ==> (#[trigger] page@[i]) < ids@.len(),
            forall|i: int|
                0 <= i < page@.len() ==> id_in_page_range(
                    descending,
                    marker,
                    ids@[#[trigger] page@[i] as int],
                ),
            forall|i: int, j: int|
                0 <= i < j < page@.len() ==> id_before(
                    descending,
                    ids@[#[trigger] page@[i] as int],
                    ids@[#[trigger] page@[j] as int],
                ),
            forall|j: int|
                0 <= j < ids@.len() && id_in_page_range(descending, marker, #[trigger] ids@[j])
                    && (done || (last matches Some(a) && !id_before(descending, a, ids@[j])))
                    ==> exists|i: int|
                    0 <= i < page@.len() && ids@[#[trigger] page@[i] as int] == ids@[j],
        decreases limit - page@.len() + if done {
            0int
        } else {
            1int
        },
    {
        match next_position(ids, descending, marker, last) {
            None => {
                done = true;
            },
            Some(best) => {
                let ghost before = page@;
                page.push(best);
                proof {
                    assert forall|i: int, j: int| 0 <= i < j < page@.len() implies id_before(
                        descending,
                        ids@[#[trigger] page@[i] as int],
                        ids@[#[trigger] page@[j] as int],
                    ) by {
                        if j == before.len() {
                            if i < before.len() - 1 {
                                assert(page@[i] == before[i]);
                                assert(page@[before.len() - 1] == before[before.len() - 1]);
                                assert(id_before(
                                    descending,
                                    ids@[before[i] as int],
                                    ids@[before[before.len() - 1] as int],
                                ));
                            }
                        } else {
                            assert(page@[i] == before[i]);
                            assert(page@[j] == before[j]);
                        }
                    }
                    assert forall|j: int|
                        0 <= j < ids@.len() && id_in_page_range(
                            descending,
                            marker,
                            #[trigger] ids@[j],
                        ) && !id_before(descending, ids@[best as int], ids@[j]) implies exists|
                        i: int,
                    |
                        0 <= i < page@.len() && ids@[#[trigger] page@[i] as int] == ids@[j] by {
                        if last matches Some(a) && !id_before(descending, a, ids@[j]) {
                            let i = choose|i: int|
                                0 <= i < before.len() && ids@[#[trigger] before[i] as int]
                                    == ids@[j];
                            assert(page@[i] == before[i]);
                        } else {
                            assert(ids@[j] == ids@[best as int]);
                            assert(page@[before.len() as int] == best);
                        }
                    }
                }
                last = Some(ids[best]);
            },
        }
    }
    proof {
        assert forall|j: int|
            0 <= j < ids@.len() && id_in_page_range(descending, marker, #[trigger] ids@[j]) implies {
            ||| exists|i: int| 0 <= i < page@.len() && ids@[#[trigger] page@[i] as int] == ids@[j]
            ||| page@.len() == limit && limit > 0 && id_before(
                descending,
                ids@[page@[limit - 1] as int],
                ids@[j],
            )
            ||| limit == 0
        } by {
            if !done && limit > 0 {
                if !id_before(descending, ids@[page@[limit - 1] as int], ids@[j]) {
                    assert(last matches Some(a) && !id_before(descending, a, ids@[j]));
                }
            }
        }
    }
    page
}

/// A page that is not full is the last: it holds every identifier from the
/// marker on.
pub proof fn lemma_short_id_page_is_last(
    ids: Seq<u128>,
    page: Seq<usize>,
    descending: bool,
    marker: Option<u128>,
    limit: usize,
)
    requires
        is_id_page(ids, page, descending, marker, limit),
        page.len() < limit,
    ensures
        forall|j: int|
            0 <= j < ids.len() && id_in_page_range(descending, marker, #[trigger] ids[j])
                ==> exists|i: int| 0 <= i < page.len() && ids[#[trigger] page[i] as int] == ids[j],
{
}

/// A full page and the page that begins at its last identifier join into
/// one longer page: the second page begins with that identifier again, and
/// what follows it continues the first page with no identifier left out and
/// none repeated.  So a reader who asks for page after page, each beginning
/// at the last identifier received, receives the identifiers in their order,
/// each once, until a page that is not full ends the collection.
pub proof fn lemma_id_pages_join(
    ids: Seq<u128>,
    first: Seq<usize>,
    next: Seq<usize>,
    descending: bool,
    marker: Option<u128>,
    limit: usize,
    next_limit: usize,
)
    requires
        is_id_page(ids, first, descending, marker, limit),
        first.len() == limit,
        limit > 0,
        next_limit > 0,
        limit + next_limit - 1 <= usize::MAX,
        is_id_page(ids, next, descending, Some(ids[first.last() as int]), next_limit),
    ensures
        next.len() > 0,
        ids[next[0] as int] == ids[first.last() as int],
        is_id_page(
            ids,
            first + next.skip(1),
            descending,
            marker,
            (limit + next_limit - 1) as usize,
        ),
{
    let last = first.last();
    let m = ids[last as int];
    let from = Some(m);
    assert(first[limit - 1] == last);
    assert(last < ids.len());
    assert(id_in_page_range(descending, from, ids[last as int]));
    let w = choose|i: int| 0 <= i < next.len() && ids[#[trigger] next[i] as int] == m;
    assert(0 <= w < next.len() && ids[next[w] as int] == m) by {
        if next.len() == next_limit && id_before(descending, ids[next[next_limit - 1] as int], m) {
            assert(id_in_page_range(descending, from, ids[next[next_limit - 1] as int]));
        }
    }
    if w > 0 {
        assert(id_before(descending, ids[next[0] as int], ids[next[w] as int]));
        assert(id_in_page_range(descending, from, ids[next[0] as int]));
    }
    assert(w == 0);
    let joined = first + next.skip(1);
    let total = (limit + next_limit - 1) as usize;
    assert forall|i: int| 0 <= i < joined.len() implies (#[trigger] joined[i]) < ids.len()
        && id_in_page_range(descending, marker, ids[joined[i] as int]) by {
        if i >= limit {
            assert(joined[i] == next[i - limit + 1]);
            assert(id_in_page_range(descending, from, ids[next[i - limit + 1] as int]));
            assert(id_in_page_range(descending, marker, ids[first[limit - 1] as int]));
        } else {
            assert(joined[i] == first[i]);
        }
    }
    assert forall|i: int, j: int| 0 <= i < j < joined.len() implies id_before(
        descending,
        ids[#[trigger] joined[i] as int],
        ids[#[trigger] joined[j] as int],
    ) by {
        if j < limit {
            assert(joined[i] == first[i] && joined[j] == first[j]);
        } else if i >= limit {
            assert(joined[i] == next[i - limit + 1] && joined[j] == next[j - limit + 1]);
        } else {
            assert(joined[i] == first[i] && joined[j] == next[j - limit + 1]);
            assert(id_before(descending, ids[next[0] as int], ids[next[j - limit + 1] as int]));
            if i < limit - 1 {
                assert(id_before(descending, ids[first[i] as int], ids[first[limit - 1] as int]));
            }
        }
    }
    assert forall|j: int|
        0 <= j < ids.len() && id_in_page_range(descending, marker, #[trigger] ids[j]) implies {
        ||| exists|i: int| 0 <= i < joined.len() && ids[#[trigger] joined[i] as int] == ids[j]
        ||| joined.len() == total && total > 0 && id_before(
            descending,
            ids[joined[total - 1] as int],
            ids[j],
        )
        ||| total == 0
    } by {
        if exists|i: int| 0 <= i < first.len() && ids[#[trigger] first[i] as int] == ids[j] {
            let i = choose|i: int| 0 <= i < first.len() && ids[#[trigger] first[i] as int] == ids[j];
            assert(joined[i] == first[i]);
        } else {
            assert(id_before(descending, m, ids[j]));
            assert(id_in_page_range(descending, from, ids[j]));
            if exists|i: int| 0 <= i < next.len() && ids[#[trigger] next[i] as int] == ids[j] {
                let i = choose|i: int| 0 <= i < next.len() && ids[#[trigger] next[i] as int] == ids[j];
                assert(i > 0);
                assert(joined[limit + i - 1] == next[i]);
            } else {
                assert(next.len() == next_limit);
                assert(id_before(descending, ids[next[next_limit - 1] as int], ids[j]));
                assert(joined.len() == total);
                if next_limit == 1 {
                    assert(joined[total - 1] == first[limit - 1]);
                } else {
                    assert(joined[total - 1] == next[next_limit - 1]);
                }
            }
        }
    }
}

} // verus!
