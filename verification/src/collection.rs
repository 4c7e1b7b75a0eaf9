//! Collections of named objects, kept in the order of their names.
//!
//! A collection is a vector in which the names rise strictly from each item
//! to the next, so that no name occurs twice and a page of the collection is
//! a stretch of the vector.

use crate::error::ApiError;
use crate::error::ApiErrorView;
use crate::error::ResourceType;
use crate::name::lemma_lex_lt_asymmetric;
use crate::name::lemma_lex_lt_irreflexive;
use crate::name::lemma_lex_lt_total;
use crate::name::lemma_lex_lt_transitive;
use crate::name::lex_lt;
use crate::name::Name;
use crate::name::Precedence;
use vstd::prelude::*;

verus! {

/// Something that goes by a name.
pub trait HasName {
    spec fn spec_name(&self) -> Seq<char>;
}

/// An object that holds its name.
pub trait Named: HasName {
    fn name(&self) -> (r: &Name)
        ensures
            r@ == self.spec_name(),
    ;
}

/// The names rise strictly from each item of `s` to the next.
pub open spec fn sorted_by_name<T: HasName>(s: Seq<T>) -> bool {
    forall|i: int, j: int|
        0 <= i < j < s.len() ==> lex_lt(#[trigger] s[i].spec_name(), #[trigger] s[j].spec_name())
}

/// Some item of `s` goes by `name`.
pub open spec fn has_name<T: HasName>(s: Seq<T>, name: Seq<char>) -> bool {
    exists|i: int| 0 <= i < s.len() && #[trigger] s[i].spec_name() == name
}

/// `i` is where `name` stands, or would stand, in `s`: the items before `i`
/// have lesser names, the items from `i` on do not.
pub open spec fn is_lower_bound<T: HasName>(s: Seq<T>, name: Seq<char>, i: int) -> bool {
    &&& 0 <= i <= s.len()
    &&& forall|j: int| 0 <= j < i ==> lex_lt(#[trigger] s[j].spec_name(), name)
    &&& forall|j: int| i <= j < s.len() ==> !lex_lt(#[trigger] s[j].spec_name(), name)
}

/// `i` is where the items with names greater than `name` begin in `s`.
pub open spec fn is_upper_bound<T: HasName>(s: Seq<T>, name: Seq<char>, i: int) -> bool {
    &&& 0 <= i <= s.len()
    &&& forall|j: int| 0 <= j < i ==> !lex_lt(name, #[trigger] s[j].spec_name())
    &&& forall|j: int| i <= j < s.len() ==> lex_lt(name, #[trigger] s[j].spec_name())
}

/// Where `name` stands, or would stand, in the sorted `s`.
pub open spec fn lower_bound_of<T: HasName>(s: Seq<T>, name: Seq<char>) -> int {
    choose|i: int| is_lower_bound(s, name, i)
}

/// Where the items with names greater than `name` begin in the sorted `s`.
pub open spec fn upper_bound_of<T: HasName>(s: Seq<T>, name: Seq<char>) -> int {
    choose|i: int| is_upper_bound(s, name, i)
}

/// A sequence has one lower bound for a name at most.
pub proof fn lemma_lower_bound_unique<T: HasName>(s: Seq<T>, name: Seq<char>, i: int, k: int)
    requires
        is_lower_bound(s, name, i),
        is_lower_bound(s, name, k),
    ensures
        i == k,
{
    if i < k {
        assert(lex_lt(s[i].spec_name(), name));
    } else if k < i {
        assert(lex_lt(s[k].spec_name(), name));
    }
}

/// A sequence has one upper bound for a name at most.
pub proof fn lemma_upper_bound_unique<T: HasName>(s: Seq<T>, name: Seq<char>, i: int, k: int)
    requires
        is_upper_bound(s, name, i),
        is_upper_bound(s, name, k),
    ensures
        i == k,
{
    if i < k {
        assert(!lex_lt(name, s[i].spec_name()));
    } else if k < i {
        assert(!lex_lt(name, s[k].spec_name()));
    }
}

/// In a sorted sequence a name occurs at its lower bound or not at all.
pub proof fn lemma_name_at_lower_bound<T: HasName>(s: Seq<T>, name: Seq<char>, i: int)
    requires
        sorted_by_name(s),
        is_lower_bound(s, name, i),
    ensures
        has_name(s, name) <==> (i < s.len() && s[i].spec_name() == name),
        forall|j: int| 0 <= j < s.len() && j != i ==> #[trigger] s[j].spec_name() != name,
{
    assert forall|j: int| 0 <= j < s.len() && j != i implies #[trigger] s[j].spec_name()
        != name by {
        lemma_lex_lt_irreflexive(name, 0);
        if j < i {
            assert(lex_lt(s[j].spec_name(), name));
        } else {
            assert(lex_lt(s[i].spec_name(), s[j].spec_name()));
            assert(!lex_lt(s[i].spec_name(), name));
        }
    }
}

/// The place of `name` in the sorted `v`: the number of items with lesser
/// names.
pub fn lower_bound<T: Named>(v: &Vec<T>, name: &Name) -> (i: usize)
    requires
        sorted_by_name(v@),
    ensures
        is_lower_bound(v@, name@, i as int),
        i as int == lower_bound_of(v@, name@),
{
    let mut lo: usize = 0;
    let mut hi: usize = v.len();
    while lo < hi
        invariant
            0 <= lo <= hi <= v.len(),
            sorted_by_name(v@),
            forall|j: int| 0 <= j < lo ==> lex_lt(#[trigger] v@[j].spec_name(), name@),
            forall|j: int| hi <= j < v.len() ==> !lex_lt(#[trigger] v@[j].spec_name(), name@),
        decreases hi - lo,
    {
        let mid = lo + (hi - lo) / 2;
        match v[mid].name().precedence(name) {
            Precedence::Before => {
                assert forall|j: int| 0 <= j < mid + 1 implies lex_lt(
                    #[trigger] v@[j].spec_name(),
                    name@,
                ) by {
                    if j < mid {
                        lemma_lex_lt_transitive(
                            v@[j].spec_name(),
                            v@[mid as int].spec_name(),
                            name@,
                            0,
                        );
                    }
                }
                lo = mid + 1;
            },
            _ => {
                assert forall|j: int| mid <= j < v.len() implies !lex_lt(
                    #[trigger] v@[j].spec_name(),
                    name@,
                ) by {
                    if j > mid && lex_lt(v@[j].spec_name(), name@) {
                        lemma_lex_lt_transitive(
                            v@[mid as int].spec_name(),
                            v@[j].spec_name(),
                            name@,
                            0,
                        );
                    }
                }
                hi = mid;
            },
        }
    }
    proof {
        assert(is_lower_bound(v@, name@, lo as int));
        lemma_lower_bound_unique(v@, name@, lo as int, lower_bound_of(v@, name@));
    }
    lo
}

/// Where the names greater than `name` begin in the sorted `v`: the number
/// of items whose names are `name` or less.
pub fn upper_bound<T: Named>(v: &Vec<T>, name: &Name) -> (i: usize)
    requires
        sorted_by_name(v@),
    ensures
        is_upper_bound(v@, name@, i as int),
        i as int == upper_bound_of(v@, name@),
{
    let i = lower_bound(v, name);
    let ghost lb = i as int;
    let i = if i < v.len() {
        match v[i].name().precedence(name) {
            Precedence::Same => i + 1,
            _ => i,
        }
    } else {
        i
    };
    proof {
        assert forall|j: int| 0 <= j < i implies !lex_lt(name@, #[trigger] v@[j].spec_name()) by {
            lemma_lex_lt_irreflexive(name@, 0);
            if j < lb {
                lemma_lex_lt_asymmetric(v@[j].spec_name(), name@, 0);
            }
        }
        assert forall|j: int| i <= j < v.len() implies lex_lt(name@, #[trigger] v@[j].spec_name()) by {
            lemma_lex_lt_total(name@, v@[j].spec_name());
            if j > lb {
                assert(lex_lt(v@[lb].spec_name(), v@[j].spec_name()));
                if v@[j].spec_name() == name@ {
                    assert(!lex_lt(v@[lb].spec_name(), name@));
                }
            }
        }
        assert(is_upper_bound(v@, name@, i as int));
        lemma_upper_bound_unique(v@, name@, i as int, upper_bound_of(v@, name@));
    }
    i
}

/// The position of the item that goes by `name`, if there is one.
pub fn position<T: Named>(v: &Vec<T>, name: &Name) -> (r: Option<usize>)
    requires
        sorted_by_name(v@),
    ensures
        match r {
            Some(i) => i < v.len() && v@[i as int].spec_name() == name@ && i as int
                == lower_bound_of(v@, name@),
            None => !has_name(v@, name@),
        },
{
    let i = lower_bound(v, name);
    proof {
        lemma_name_at_lower_bound(v@, name@, i as int);
    }
    if i < v.len() {
        match v[i].name().precedence(name) {
            Precedence::Same => Some(i),
            _ => None,
        }
    } else {
        None
    }
}

/// The item of the sorted `tree` that goes by `name`, or the error that
/// says that no object of kind `resource` does.
pub fn collection_lookup<'a, T: Named>(
    tree: &'a Vec<T>,
    name: &Name,
    resource: ResourceType,
) -> (r: Result<&'a T, ApiError>)
    requires
        sorted_by_name(tree@),
    ensures
        match r {
            Ok(item) => {
                &&& has_name(tree@, name@)
                &&& 0 <= lower_bound_of(tree@, name@) < tree@.len()
                &&& *item == tree@[lower_bound_of(tree@, name@)]
                &&& item.spec_name() == name@
            },
            Err(e) => !has_name(tree@, name@) && e@ == (ApiErrorView::ObjectNotFound {
                resource,
                object_name: name@,
            }),
        },
{
    match position(tree, name) {
        Some(i) => Ok(&tree[i]),
        None => Err(ApiError::not_found(resource, name.as_str())),
    }
}

/// The number of items on a page unless the caller asks for another.
pub const DEFAULT_LIST_PAGE_SIZE: usize = 100;

/// Which page of a collection a caller asks for.
#[derive(Debug, PartialEq, Eq)]
pub struct PaginationParams<NameType> {
    /// Where the page begins: at the first item that does not come before
    /// the marker.  Without a marker the page begins where the collection
    /// does.
    pub marker: Option<NameType>,
    /// The greatest number of items on the page.
    pub limit: Option<usize>,
}

/// The page that `limit` asks for, in items.
pub open spec fn page_size(limit: Option<usize>) -> int {
    match limit {
        Some(n) => n as int,
        None => DEFAULT_LIST_PAGE_SIZE as int,
    }
}

/// The text of a marker.
pub open spec fn marker_text(marker: Option<Name>) -> Option<Seq<char>> {
    match marker {
        Some(name) => Some(name@),
        None => None,
    }
}

/// Where the page that begins at `marker` begins in the sorted `s`.
pub open spec fn page_start<T: HasName>(s: Seq<T>, marker: Option<Seq<char>>) -> int {
    match marker {
        Some(name) => lower_bound_of(s, name),
        None => 0,
    }
}

/// Where the page that begins at `marker` ends in the sorted `s`.
pub open spec fn page_end<T: HasName>(
    s: Seq<T>,
    marker: Option<Seq<char>>,
    limit: Option<usize>,
) -> int {
    let start = page_start(s, marker);
    if start + page_size(limit) < s.len() {
        start + page_size(limit)
    } else {
        s.len() as int
    }
}

/// The page of the sorted `s` that begins at `marker`, marker included, and
/// has `limit` items unless `s` ends before.
pub open spec fn page_of<T: HasName>(
    s: Seq<T>,
    marker: Option<Seq<char>>,
    limit: Option<usize>,
) -> Seq<T> {
    s.subrange(page_start(s, marker), page_end(s, marker, limit))
}

/// Where the page that runs down from `marker` begins its way down in the
/// sorted `s`: behind the last item that does not come after the marker.
pub open spec fn page_top<T: HasName>(s: Seq<T>, marker: Option<Seq<char>>) -> int {
    match marker {
        Some(name) => upper_bound_of(s, name),
        None => s.len() as int,
    }
}

/// Where the page that runs down from `marker` ends its way down in the
/// sorted `s`.
pub open spec fn page_bottom<T: HasName>(
    s: Seq<T>,
    marker: Option<Seq<char>>,
    limit: Option<usize>,
) -> int {
    let top = page_top(s, marker);
    if top - page_size(limit) > 0 {
        top - page_size(limit)
    } else {
        0
    }
}

/// The page of the sorted `s` that runs down from `marker`, marker
/// included, and has `limit` items unless `s` begins before: the greatest
/// name first.
pub open spec fn page_of_descending<T: HasName>(
    s: Seq<T>,
    marker: Option<Seq<char>>,
    limit: Option<usize>,
) -> Seq<T> {
    s.subrange(page_bottom(s, marker, limit), page_top(s, marker)).reverse()
}

/// The bounds of the page of the sorted `tree` that `pagparams` asks for.
pub fn page_bounds<T: Named>(tree: &Vec<T>, pagparams: &PaginationParams<Name>) -> (r: (
    usize,
    usize,
))
    requires
        sorted_by_name(tree@),
    ensures
        r.0 == page_start(tree@, marker_text(pagparams.marker)),
        r.1 == page_end(tree@, marker_text(pagparams.marker), pagparams.limit),
        r.0 <= r.1 <= tree@.len(),
{
    let limit = match pagparams.limit {
        Some(n) => n,
        None => DEFAULT_LIST_PAGE_SIZE,
    };
    let start = match &pagparams.marker {
        Some(name) => lower_bound(tree, name),
        None => 0,
    };
    let end = if limit < tree.len() - start {
        start + limit
    } else {
        tree.len()
    };
    (start, end)
}

/// The bounds of the page of the sorted `tree` that `pagparams` asks for
/// on the way down.
pub fn page_bounds_descending<T: Named>(
    tree: &Vec<T>,
    pagparams: &PaginationParams<Name>,
) -> (r: (usize, usize))
    requires
        sorted_by_name(tree@),
    ensures
        r.0 == page_bottom(tree@, marker_text(pagparams.marker), pagparams.limit),
        r.1 == page_top(tree@, marker_text(pagparams.marker)),
        r.0 <= r.1 <= tree@.len(),
{
    let limit = match pagparams.limit {
        Some(n) => n,
        None => DEFAULT_LIST_PAGE_SIZE,
    };
    let top = match &pagparams.marker {
        Some(name) => upper_bound(tree, name),
        None => tree.len(),
    };
    let bottom = if limit < top {
        top - limit
    } else {
        0
    };
    (bottom, top)
}

/// The page of the sorted `tree` that `pagparams` asks for: the items from
/// the marker on, marker included, as many as the limit allows.
pub fn collection_list<'a, T: Named>(
    tree: &'a Vec<T>,
    pagparams: &PaginationParams<Name>,
) -> (r: Result<Vec<&'a T>, ApiError>)
    requires
        sorted_by_name(tree@),
    ensures
        r matches Ok(items) && items@.map_values(|item: &T| *item) == page_of(
            tree@,
            marker_text(pagparams.marker),
            pagparams.limit,
        ),
{
    let (start, end) = page_bounds(tree, pagparams);
    let mut items: Vec<&'a T> = Vec::new();
    let mut i: usize = start;
    while i < end
        invariant
            start <= i <= end <= tree@.len(),
            items@.map_values(|item: &T| *item) == tree@.subrange(start as int, i as int),
        decreases end - i,
    {
        let ghost before = items@;
        items.push(&tree[i]);
        assert(items@.map_values(|item: &T| *item) =~= before.map_values(|item: &T| *item).push(
            tree@[i as int],
        ));
        assert(tree@.subrange(start as int, i as int).push(tree@[i as int]) =~= tree@.subrange(
            start as int,
            i + 1,
        ));
        i += 1;
    }
    Ok(items)
}

/// The page of the sorted `tree` that `pagparams` asks for on the way
/// down: the items from the marker down, marker included, as many as the
/// limit allows, the greatest name first.
pub fn collection_list_descending<'a, T: Named>(
    tree: &'a Vec<T>,
    pagparams: &PaginationParams<Name>,
) -> (r: Result<Vec<&'a T>, ApiError>)
    requires
        sorted_by_name(tree@),
    ensures
        r matches Ok(items) && items@.map_values(|item: &T| *item) == page_of_descending(
            tree@,
            marker_text(pagparams.marker),
            pagparams.limit,
        ),
{
    let (bottom, top) = page_bounds_descending(tree, pagparams);
    let mut items: Vec<&'a T> = Vec::new();
    let mut i: usize = top;
    while i > bottom
        invariant
            bottom <= i <= top <= tree@.len(),
            items@.map_values(|item: &T| *item) == tree@.subrange(i as int, top as int).reverse(),
        decreases i,
    {
        let ghost before = items@;
        i -= 1;
        items.push(&tree[i]);
        assert(items@.map_values(|item: &T| *item) =~= before.map_values(|item: &T| *item).push(
            tree@[i as int],
        ));
        assert(tree@.subrange(i + 1, top as int).reverse().push(tree@[i as int])
            =~= tree@.subrange(i as int, top as int).reverse());
    }
    Ok(items)
}

/// The items of `results` that are no failures, in their order.
pub open spec fn successes<T>(results: Seq<Result<T, ApiError>>) -> Seq<T>
    decreases results.len(),
{
    if results.len() == 0 {
        Seq::empty()
    } else {
        match results.last() {
            Ok(item) => successes(results.drop_last()).push(item),
            Err(_) => successes(results.drop_last()),
        }
    }
}

/// The objects among `object_stream`, in their order.  Failures are
/// dropped.
pub fn to_view_list<T>(object_stream: Vec<Result<T, ApiError>>) -> (r: Vec<T>)
    ensures
        r@ == successes(object_stream@),
{
    let ghost all = object_stream@;
    let mut rest = object_stream;
    let mut kept: Vec<T> = Vec::new();
    while rest.len() > 0
        invariant
            rest@.len() <= all.len(),
            rest@ == all.subrange(0, rest@.len() as int),
            kept@.reverse() == successes_after(all, rest@.len() as int),
        decreases rest.len(),
    {
        let ghost n = rest@.len() as int;
        let last = rest.pop();
        proof {
            assert(rest@ =~= all.subrange(0, n - 1));
            assert(last == Some(all[n - 1]));
        }
        match last {
            Some(Ok(item)) => {
                let ghost before = kept@;
                kept.push(item);
                assert(kept@.reverse() =~= seq![item] + before.reverse());
            },
            _ => {},
        }
    }
    let ghost backwards = kept@;
    let mut r: Vec<T> = Vec::new();
    while kept.len() > 0
        invariant
            kept@.len() <= backwards.len(),
            kept@ == backwards.subrange(0, kept@.len() as int),
            r@ == backwards.subrange(kept@.len() as int, backwards.len() as int).reverse(),
        decreases kept.len(),
    {
        let ghost n = kept@.len() as int;
        let last = kept.pop();
        proof {
            assert(kept@ =~= backwards.subrange(0, n - 1));
        }
        match last {
            Some(item) => {
                let ghost before = r@;
                r.push(item);
                assert(r@ =~= backwards.subrange(n - 1, backwards.len() as int).reverse());
            },
            None => {},
        }
    }
    proof {
        assert(backwards.subrange(0, backwards.len() as int) =~= backwards);
        lemma_successes_after_all(all);
    }
    r
}

/// The items of `results` from position `from` on that are no failures,
/// in their order.
pub open spec fn successes_after<T>(results: Seq<Result<T, ApiError>>, from: int) -> Seq<T>
    decreases results.len() - from,
{
    if from >= results.len() || from < 0 {
        Seq::empty()
    } else {
        match results[from] {
            Ok(item) => seq![item] + successes_after(results, from + 1),
            Err(_) => successes_after(results, from + 1),
        }
    }
}

/// Counting the successes from the front gives what counting from the back
/// gives.
pub proof fn lemma_successes_after_all<T>(results: Seq<Result<T, ApiError>>)
    ensures
        successes_after(results, 0) == successes(results),
    decreases results.len(),
{
    lemma_successes_split(results, 0);
}

/// The successes of a sequence from `from` on are those of its front from
/// `from` on, followed by its last item if that is one.
pub proof fn lemma_successes_split<T>(results: Seq<Result<T, ApiError>>, from: int)
    requires
        0 <= from <= results.len(),
    ensures
        from == 0 ==> successes_after(results, 0) == successes(results),
        from < results.len() ==> successes_after(results, from) == match results.last() {
            Ok(item) => successes_after(results.drop_last(), from).push(item),
            Err(_) => successes_after(results.drop_last(), from),
        },
    decreases results.len(), results.len() - from,
{
    if from < results.len() {
        let front = results.drop_last();
        if from + 1 < results.len() {
            lemma_successes_split(results, from + 1);
            assert(front[from] == results[from]);
            match results[from] {
                Ok(head) => {
                    match results.last() {
                        Ok(item) => {
                            assert(seq![head] + successes_after(front, from + 1).push(item) =~= (
                            seq![head] + successes_after(front, from + 1)).push(item));
                        },
                        Err(_) => {},
                    }
                },
                Err(_) => {},
            }
        } else {
            assert(successes_after(front, from) =~= Seq::empty());
            assert(successes_after(results, from + 1) =~= Seq::empty());
            match results[from] {
                Ok(head) => {
                    assert(seq![head] + Seq::<T>::empty() =~= Seq::<T>::empty().push(head));
                },
                Err(_) => {},
            }
        }
    }
    if from == 0 {
        if results.len() > 0 {
            lemma_successes_split(results.drop_last(), 0);
        } else {
            assert(successes_after(results, 0) =~= successes(results));
        }
    }
}

/// Putting an item where its name belongs keeps a sequence sorted, if no
/// item goes by that name yet.
pub proof fn lemma_insert_keeps_sorted<T: HasName>(s: Seq<T>, item: T, i: int)
    requires
        sorted_by_name(s),
        is_lower_bound(s, item.spec_name(), i),
        !has_name(s, item.spec_name()),
    ensures
        sorted_by_name(s.insert(i, item)),
{
    let t = s.insert(i, item);
    assert forall|a: int, b: int| 0 <= a < b < t.len() implies lex_lt(
        #[trigger] t[a].spec_name(),
        #[trigger] t[b].spec_name(),
    ) by {
        if b == i {
            assert(t[a] == s[a]);
        } else if a == i {
            assert(t[b] == s[b - 1]);
            assert(!lex_lt(s[b - 1].spec_name(), item.spec_name()));
            lemma_lex_lt_total(item.spec_name(), s[b - 1].spec_name());
        } else {
            let a0 = if a < i {
                a
            } else {
                a - 1
            };
            let b0 = if b < i {
                b
            } else {
                b - 1
            };
            assert(t[a] == s[a0]);
            assert(t[b] == s[b0]);
        }
    }
}

/// Taking an item out keeps a sequence sorted.
pub proof fn lemma_remove_keeps_sorted<T: HasName>(s: Seq<T>, i: int)
    requires
        sorted_by_name(s),
        0 <= i < s.len(),
    ensures
        sorted_by_name(s.remove(i)),
        !has_name(s.remove(i), s[i].spec_name()),
        forall|name: Seq<char>|
            name != s[i].spec_name() ==> (has_name(s.remove(i), name) <==> has_name(s, name)),
{
    let t = s.remove(i);
    assert forall|a: int, b: int| 0 <= a < b < t.len() implies lex_lt(
        #[trigger] t[a].spec_name(),
        #[trigger] t[b].spec_name(),
    ) by {
        let a0 = if a < i {
            a
        } else {
            a + 1
        };
        let b0 = if b < i {
            b
        } else {
            b + 1
        };
        assert(t[a] == s[a0]);
        assert(t[b] == s[b0]);
    }
    if has_name(t, s[i].spec_name()) {
        let k = choose|k: int| 0 <= k < t.len() && #[trigger] t[k].spec_name() == s[i].spec_name();
        let k0 = if k < i {
            k
        } else {
            k + 1
        };
        assert(t[k] == s[k0]);
        lemma_lex_lt_irreflexive(s[i].spec_name(), 0);
        if k0 < i {
            assert(lex_lt(s[k0].spec_name(), s[i].spec_name()));
        } else {
            assert(lex_lt(s[i].spec_name(), s[k0].spec_name()));
        }
    }
    assert forall|name: Seq<char>| name != s[i].spec_name() implies (has_name(t, name)
        <==> has_name(s, name)) by {
        if has_name(t, name) {
            let k = choose|k: int| 0 <= k < t.len() && #[trigger] t[k].spec_name() == name;
            let k0 = if k < i {
                k
            } else {
                k + 1
            };
            assert(t[k] == s[k0]);
            assert(s[k0].spec_name() == name);
        }
        if has_name(s, name) {
            let k = choose|k: int| 0 <= k < s.len() && #[trigger] s[k].spec_name() == name;
            let k1 = if k < i {
                k
            } else {
                k - 1
            };
            assert(t[k1] == s[k]);
            assert(t[k1].spec_name() == name);
        }
    }
}

/// `s` and `t` hold the same names at the same places.
pub open spec fn same_names<A: HasName, B: HasName>(s: Seq<A>, t: Seq<B>) -> bool {
    &&& s.len() == t.len()
    &&& forall|i: int| 0 <= i < s.len() ==> #[trigger] s[i].spec_name() == t[i].spec_name()
}

/// What is said of the names of a sequence holds of every sequence with the
/// same names.
pub proof fn lemma_same_names<A: HasName, B: HasName>(s: Seq<A>, t: Seq<B>, name: Seq<char>)
    requires
        same_names(s, t),
    ensures
        sorted_by_name(s) == sorted_by_name(t),
        has_name(s, name) == has_name(t, name),
        forall|i: int| is_lower_bound(s, name, i) == is_lower_bound(t, name, i),
        forall|i: int| is_upper_bound(s, name, i) == is_upper_bound(t, name, i),
        sorted_by_name(s) ==> lower_bound_of(s, name) == lower_bound_of(t, name),
        sorted_by_name(s) ==> upper_bound_of(s, name) == upper_bound_of(t, name),
{
    assert forall|i: int| 0 <= i < s.len() implies #[trigger] t[i].spec_name()
        == s[i].spec_name() by {
        assert(s[i].spec_name() == t[i].spec_name());
    }
    if sorted_by_name(s) {
        assert forall|i: int, j: int| 0 <= i < j < t.len() implies lex_lt(
            #[trigger] t[i].spec_name(),
            #[trigger] t[j].spec_name(),
        ) by {
            assert(lex_lt(s[i].spec_name(), s[j].spec_name()));
        }
    }
    if sorted_by_name(t) {
        assert forall|i: int, j: int| 0 <= i < j < s.len() implies lex_lt(
            #[trigger] s[i].spec_name(),
            #[trigger] s[j].spec_name(),
        ) by {
            assert(lex_lt(t[i].spec_name(), t[j].spec_name()));
        }
    }
    if has_name(s, name) {
        let k = choose|k: int| 0 <= k < s.len() && #[trigger] s[k].spec_name() == name;
        assert(t[k].spec_name() == name);
    }
    if has_name(t, name) {
        let k = choose|k: int| 0 <= k < t.len() && #[trigger] t[k].spec_name() == name;
        assert(s[k].spec_name() == name);
    }
    assert forall|i: int| is_lower_bound(s, name, i) == is_lower_bound(t, name, i) by {
        if is_lower_bound(s, name, i) {
            assert forall|j: int| 0 <= j < i implies lex_lt(#[trigger] t[j].spec_name(), name) by {
                assert(lex_lt(s[j].spec_name(), name));
            }
            assert forall|j: int| i <= j < t.len() implies !lex_lt(
                #[trigger] t[j].spec_name(),
                name,
            ) by {
                assert(!lex_lt(s[j].spec_name(), name));
            }
        }
        if is_lower_bound(t, name, i) {
            assert forall|j: int| 0 <= j < i implies lex_lt(#[trigger] s[j].spec_name(), name) by {
                assert(lex_lt(t[j].spec_name(), name));
            }
            assert forall|j: int| i <= j < s.len() implies !lex_lt(
                #[trigger] s[j].spec_name(),
                name,
            ) by {
                assert(!lex_lt(t[j].spec_name(), name));
            }
        }
    }
    assert forall|i: int| is_upper_bound(s, name, i) == is_upper_bound(t, name, i) by {
        if is_upper_bound(s, name, i) {
            assert forall|j: int| 0 <= j < i implies !lex_lt(name, #[trigger] t[j].spec_name()) by {
                assert(!lex_lt(name, s[j].spec_name()));
            }
            assert forall|j: int| i <= j < t.len() implies lex_lt(
                name,
                #[trigger] t[j].spec_name(),
            ) by {
                assert(lex_lt(name, s[j].spec_name()));
            }
        }
        if is_upper_bound(t, name, i) {
            assert forall|j: int| 0 <= j < i implies !lex_lt(name, #[trigger] s[j].spec_name()) by {
                assert(!lex_lt(name, t[j].spec_name()));
            }
            assert forall|j: int| i <= j < s.len() implies lex_lt(
                name,
                #[trigger] s[j].spec_name(),
            ) by {
                assert(lex_lt(name, t[j].spec_name()));
            }
        }
    }
    if sorted_by_name(s) {
        lemma_lower_bound_exists(s, name);
        lemma_lower_bound_exists(t, name);
        lemma_lower_bound_unique(t, name, lower_bound_of(s, name), lower_bound_of(t, name));
        lemma_upper_bound_exists(s, name);
        lemma_upper_bound_exists(t, name);
        lemma_upper_bound_unique(t, name, upper_bound_of(s, name), upper_bound_of(t, name));
    }
}

/// Every sorted sequence has an upper bound for every name.
pub proof fn lemma_upper_bound_exists<T: HasName>(s: Seq<T>, name: Seq<char>)
    requires
        sorted_by_name(s),
    ensures
        is_upper_bound(s, name, upper_bound_of(s, name)),
{
    lemma_lower_bound_exists(s, name);
    let lb = lower_bound_of(s, name);
    lemma_name_at_lower_bound(s, name, lb);
    let ub = if lb < s.len() && s[lb].spec_name() == name {
        lb + 1
    } else {
        lb
    };
    assert forall|j: int| 0 <= j < ub implies !lex_lt(name, #[trigger] s[j].spec_name()) by {
        lemma_lex_lt_irreflexive(name, 0);
        if j < lb {
            lemma_lex_lt_asymmetric(s[j].spec_name(), name, 0);
        }
    }
    assert forall|j: int| ub <= j < s.len() implies lex_lt(name, #[trigger] s[j].spec_name()) by {
        lemma_lex_lt_total(name, s[j].spec_name());
    }
    assert(is_upper_bound(s, name, ub));
}

/// Every sorted sequence has a lower bound for every name.
pub proof fn lemma_lower_bound_exists<T: HasName>(s: Seq<T>, name: Seq<char>)
    requires
        sorted_by_name(s),
    ensures
        is_lower_bound(s, name, lower_bound_of(s, name)),
    decreases s.len(),
{
    if s.len() == 0 {
        assert(is_lower_bound(s, name, 0));
    } else {
        let init = s.drop_last();
        assert forall|i: int, j: int| 0 <= i < j < init.len() implies lex_lt(
            #[trigger] init[i].spec_name(),
            #[trigger] init[j].spec_name(),
        ) by {
            assert(init[i] == s[i]);
            assert(init[j] == s[j]);
        }
        lemma_lower_bound_exists(init, name);
        let k = lower_bound_of(init, name);
        if k < init.len() || !lex_lt(s.last().spec_name(), name) {
            assert forall|j: int| k <= j < s.len() implies !lex_lt(
                #[trigger] s[j].spec_name(),
                name,
            ) by {
                if j < init.len() {
                    assert(init[j] == s[j]);
                } else if k < init.len() {
                    assert(init[k] == s[k]);
                    if lex_lt(s[j].spec_name(), name) {
                        lemma_lex_lt_transitive(
                            s[k].spec_name(),
                            s[j].spec_name(),
                            name,
                            0,
                        );
                    }
                }
            }
            assert forall|j: int| 0 <= j < k implies lex_lt(
                #[trigger] s[j].spec_name(),
                name,
            ) by {
                assert(init[j] == s[j]);
            }
            assert(is_lower_bound(s, name, k));
        } else {
            assert forall|j: int| 0 <= j < s.len() implies lex_lt(
                #[trigger] s[j].spec_name(),
                name,
            ) by {
                if j < init.len() {
                    assert(init[j] == s[j]);
                }
            }
            assert(is_lower_bound(s, name, s.len() as int));
        }
    }
}

/// An item put at the lower bound of its name stands at the lower bound of
/// its name afterwards.
pub proof fn lemma_inserted_at_lower_bound<T: HasName>(s: Seq<T>, item: T, at: int)
    requires
        is_lower_bound(s, item.spec_name(), at),
    ensures
        is_lower_bound(s.insert(at, item), item.spec_name(), at),
        has_name(s.insert(at, item), item.spec_name()),
{
    let t = s.insert(at, item);
    assert(t[at] == item);
    lemma_lex_lt_irreflexive(item.spec_name(), 0);
    assert forall|j: int| 0 <= j < at implies lex_lt(
        #[trigger] t[j].spec_name(),
        item.spec_name(),
    ) by {
        assert(t[j] == s[j]);
    }
    assert forall|j: int| at <= j < t.len() implies !lex_lt(
        #[trigger] t[j].spec_name(),
        item.spec_name(),
    ) by {
        if j > at {
            assert(t[j] == s[j - 1]);
        }
    }
}

} // verus!
