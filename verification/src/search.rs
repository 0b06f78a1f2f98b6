//! The first element of a sequence that meets a condition.

use vstd::prelude::*;

verus! {

/// The index of the first element that meets `wanted`.
pub open spec fn first_where<T>(items: Seq<T>, wanted: spec_fn(T) -> bool) -> Option<int>
    decreases items.len(),
{
    if items.len() == 0 {
        None
    } else if wanted(items[0]) {
        Some(0)
    } else {
        match first_where(items.subrange(1, items.len() as int), wanted) {
            Some(at) => Some(at + 1),
            None => None,
        }
    }
}

/// An element that meets the condition, with none before it that does, is the first one.
pub proof fn first_where_found<T>(items: Seq<T>, wanted: spec_fn(T) -> bool, at: int)
    requires
        0 <= at < items.len(),
        wanted(items[at]),
        forall|i: int| 0 <= i < at ==> !wanted(#[trigger] items[i]),
    ensures
        first_where(items, wanted) == Some(at),
    decreases items.len(),
{
    if at > 0 {
        let rest = items.subrange(1, items.len() as int);
        assert(!wanted(items[0]));
        assert forall|i: int| 0 <= i < at - 1 implies !wanted(#[trigger] rest[i]) by {
            assert(!wanted(items[i + 1]));
        }
        first_where_found(rest, wanted, at - 1);
    }
}

/// Where no element meets the condition there is no first one.
pub proof fn first_where_absent<T>(items: Seq<T>, wanted: spec_fn(T) -> bool)
    requires
        forall|i: int| 0 <= i < items.len() ==> !wanted(#[trigger] items[i]),
    ensures
        first_where(items, wanted) is None,
    decreases items.len(),
{
    if items.len() > 0 {
        let rest = items.subrange(1, items.len() as int);
        assert(!wanted(items[0]));
        assert forall|i: int| 0 <= i < rest.len() implies !wanted(#[trigger] rest[i]) by {
            assert(!wanted(items[i + 1]));
        }
        first_where_absent(rest, wanted);
    }
}

/// The first element that meets the condition meets it, and none before it does.
pub proof fn first_where_meets<T>(items: Seq<T>, wanted: spec_fn(T) -> bool)
    ensures
        first_where(items, wanted) matches Some(at) ==> {
            &&& 0 <= at < items.len()
            &&& wanted(items[at])
            &&& forall|i: int| 0 <= i < at ==> !wanted(#[trigger] items[i])
        },
        first_where(items, wanted) is None ==> forall|i: int|
            0 <= i < items.len() ==> !wanted(#[trigger] items[i]),
    decreases items.len(),
{
    if items.len() > 0 && !wanted(items[0]) {
        let rest = items.subrange(1, items.len() as int);
        first_where_meets(rest, wanted);
        match first_where(rest, wanted) {
            Some(at) => {
                assert forall|i: int| 0 <= i < at + 1 implies !wanted(#[trigger] items[i]) by {
                    if i > 0 {
                        assert(!wanted(rest[i - 1]));
                    }
                }
            },
            None => {
                assert forall|i: int| 0 <= i < items.len() implies !wanted(
                    #[trigger] items[i],
                ) by {
                    if i > 0 {
                        assert(!wanted(rest[i - 1]));
                    }
                }
            },
        }
    }
}

} // verus!
