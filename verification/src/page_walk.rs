//! Reading a whole collection page by page.
//!
//! A reader asks for the first page, then for the page that begins at the
//! name of the last item received, whose first item is that item again, and
//! goes on until a page brings nothing new.  Read in rising order the pages
//! make up the collection, read in falling order they make up its reverse:
//! nothing is left out and nothing comes twice.

use crate::collection::is_lower_bound;
use crate::collection::is_upper_bound;
use crate::collection::lemma_lower_bound_exists;
use crate::collection::lemma_lower_bound_unique;
use crate::collection::lemma_upper_bound_exists;
use crate::collection::lemma_upper_bound_unique;
use crate::collection::lower_bound_of;
use crate::collection::page_of;
use crate::collection::page_of_descending;
use crate::collection::page_size;
use crate::collection::sorted_by_name;
use crate::collection::upper_bound_of;
use crate::collection::HasName;
use crate::name::lemma_lex_lt_asymmetric;
use crate::name::lemma_lex_lt_irreflexive;
use crate::name::lex_lt;
use vstd::prelude::*;

verus! {

/// What a reader of the sorted `s` receives who holds the item named `last`
/// and asks for up to `rounds` further pages of `limit` items in rising
/// order, each beginning at the name of the last item received.
pub open spec fn read_on<T: HasName>(
    s: Seq<T>,
    last: Seq<char>,
    limit: Option<usize>,
    rounds: nat,
) -> Seq<T>
    decreases rounds,
{
    let fresh = page_of(s, Some(last), limit).skip(1);
    if rounds == 0 || fresh.len() == 0 {
        Seq::empty()
    } else {
        fresh + read_on(s, fresh.last().spec_name(), limit, (rounds - 1) as nat)
    }
}

/// What a reader of the sorted `s` receives who asks for the first page of
/// `limit` items in rising order and for up to `rounds` further pages.
pub open spec fn read_all<T: HasName>(s: Seq<T>, limit: Option<usize>, rounds: nat) -> Seq<T> {
    let first = page_of(s, None, limit);
    if first.len() == 0 {
        first
    } else {
        first + read_on(s, first.last().spec_name(), limit, rounds)
    }
}

/// As [`read_on`], in falling order.
pub open spec fn read_on_descending<T: HasName>(
    s: Seq<T>,
    last: Seq<char>,
    limit: Option<usize>,
    rounds: nat,
) -> Seq<T>
    decreases rounds,
{
    let fresh = page_of_descending(s, Some(last), limit).skip(1);
    if rounds == 0 || fresh.len() == 0 {
        Seq::empty()
    } else {
        fresh + read_on_descending(s, fresh.last().spec_name(), limit, (rounds - 1) as nat)
    }
}

/// As [`read_all`], in falling order.
pub open spec fn read_all_descending<T: HasName>(
    s: Seq<T>,
    limit: Option<usize>,
    rounds: nat,
) -> Seq<T> {
    let first = page_of_descending(s, None, limit);
    if first.len() == 0 {
        first
    } else {
        first + read_on_descending(s, first.last().spec_name(), limit, rounds)
    }
}

/// The name of an item of a sorted sequence stands where the item stands,
/// and the greater names begin right behind it.
pub proof fn lemma_bounds_of_item<T: HasName>(s: Seq<T>, i: int)
    requires
        sorted_by_name(s),
        0 <= i < s.len(),
    ensures
        lower_bound_of(s, s[i].spec_name()) == i,
        upper_bound_of(s, s[i].spec_name()) == i + 1,
{
    let name = s[i].spec_name();
    lemma_lex_lt_irreflexive(name, 0);
    assert forall|j: int| 0 <= j < i implies lex_lt(#[trigger] s[j].spec_name(), name) by {
        assert(lex_lt(s[j].spec_name(), s[i].spec_name()));
    }
    assert forall|j: int| i <= j < s.len() implies !lex_lt(#[trigger] s[j].spec_name(), name) by {
        if j > i {
            assert(lex_lt(s[i].spec_name(), s[j].spec_name()));
            lemma_lex_lt_asymmetric(s[j].spec_name(), name, 0);
        }
    }
    assert forall|j: int| 0 <= j < i + 1 implies !lex_lt(name, #[trigger] s[j].spec_name()) by {
        if j < i {
            assert(lex_lt(s[j].spec_name(), s[i].spec_name()));
            lemma_lex_lt_asymmetric(name, s[j].spec_name(), 0);
        }
    }
    assert forall|j: int| i + 1 <= j < s.len() implies lex_lt(name, #[trigger] s[j].spec_name()) by {
        assert(lex_lt(s[i].spec_name(), s[j].spec_name()));
    }
    assert(is_lower_bound(s, name, i));
    assert(is_upper_bound(s, name, i + 1));
    lemma_lower_bound_exists(s, name);
    lemma_upper_bound_exists(s, name);
    lemma_lower_bound_unique(s, name, i, lower_bound_of(s, name));
    lemma_upper_bound_unique(s, name, i + 1, upper_bound_of(s, name));
}

/// A reader who holds the item at `i` and reads on in rising order, in
/// pages of two items or more, receives the items behind `i` once each and
/// in order, provided that the rounds are not cut short.
pub proof fn lemma_read_on<T: HasName>(s: Seq<T>, i: int, limit: Option<usize>, rounds: nat)
    requires
        sorted_by_name(s),
        0 <= i < s.len(),
        page_size(limit) >= 2,
        rounds >= s.len() - 1 - i,
    ensures
        read_on(s, s[i].spec_name(), limit, rounds) == s.subrange(i + 1, s.len() as int),
    decreases rounds,
{
    lemma_bounds_of_item(s, i);
    let end = if i + page_size(limit) < s.len() {
        i + page_size(limit)
    } else {
        s.len() as int
    };
    let page = page_of(s, Some(s[i].spec_name()), limit);
    assert(page == s.subrange(i, end));
    let fresh = page.skip(1);
    assert(fresh =~= s.subrange(i + 1, end));
    if rounds == 0 || fresh.len() == 0 {
        assert(s.subrange(i + 1, s.len() as int) =~= Seq::<T>::empty());
    } else {
        assert(fresh.last() == s[end - 1]);
        lemma_read_on(s, end - 1, limit, (rounds - 1) as nat);
        assert(s.subrange(i + 1, end) + s.subrange(end, s.len() as int) =~= s.subrange(
            i + 1,
            s.len() as int,
        ));
    }
}

/// Read page by page in rising order, in pages of two items or more, a
/// sorted collection comes out whole: every item once, in the order of the
/// names.  One round for each item is enough.
pub proof fn lemma_read_all<T: HasName>(s: Seq<T>, limit: Option<usize>, rounds: nat)
    requires
        sorted_by_name(s),
        page_size(limit) >= 2,
        rounds >= s.len(),
    ensures
        read_all(s, limit, rounds) == s,
{
    let end = if page_size(limit) < s.len() {
        page_size(limit)
    } else {
        s.len() as int
    };
    let first = page_of(s, None, limit);
    assert(first == s.subrange(0, end));
    if first.len() == 0 {
        assert(first =~= s);
    } else {
        assert(first.last() == s[end - 1]);
        lemma_read_on(s, end - 1, limit, rounds);
        assert(s.subrange(0, end) + s.subrange(end, s.len() as int) =~= s);
    }
}

/// A reader who holds the item at `i` and reads on in falling order, in
/// pages of two items or more, receives the items before `i` once each, the
/// nearest first, provided that the rounds are not cut short.
pub proof fn lemma_read_on_descending<T: HasName>(
    s: Seq<T>,
    i: int,
    limit: Option<usize>,
    rounds: nat,
)
    requires
        sorted_by_name(s),
        0 <= i < s.len(),
        page_size(limit) >= 2,
        rounds >= i,
    ensures
        read_on_descending(s, s[i].spec_name(), limit, rounds) == s.subrange(0, i).reverse(),
    decreases rounds,
{
    lemma_bounds_of_item(s, i);
    let bottom = if i + 1 - page_size(limit) > 0 {
        i + 1 - page_size(limit)
    } else {
        0
    };
    let page = page_of_descending(s, Some(s[i].spec_name()), limit);
    assert(page == s.subrange(bottom, i + 1).reverse());
    let fresh = page.skip(1);
    assert(fresh =~= s.subrange(bottom, i).reverse());
    if rounds == 0 || fresh.len() == 0 {
        assert(s.subrange(0, i).reverse() =~= Seq::<T>::empty());
    } else {
        assert(fresh.last() == s[bottom]);
        lemma_read_on_descending(s, bottom, limit, (rounds - 1) as nat);
        assert(s.subrange(bottom, i).reverse() + s.subrange(0, bottom).reverse() =~= s.subrange(
            0,
            i,
        ).reverse());
    }
}

/// Read page by page in falling order, in pages of two items or more, a
/// sorted collection comes out whole and reversed: every item once, the
/// greatest name first.
pub proof fn lemma_read_all_descending<T: HasName>(s: Seq<T>, limit: Option<usize>, rounds: nat)
    requires
        sorted_by_name(s),
        page_size(limit) >= 2,
        rounds >= s.len(),
    ensures
        read_all_descending(s, limit, rounds) == s.reverse(),
{
    let bottom = if s.len() - page_size(limit) > 0 {
        s.len() - page_size(limit)
    } else {
        0
    };
    let first = page_of_descending(s, None, limit);
    assert(first == s.subrange(bottom, s.len() as int).reverse());
    if first.len() == 0 {
        assert(first =~= s.reverse());
    } else {
        assert(first.last() == s[bottom]);
        lemma_read_on_descending(s, bottom, limit, rounds);
        assert(s.subrange(bottom, s.len() as int).reverse() + s.subrange(0, bottom).reverse()
            =~= s.reverse());
    }
}

} // verus!
