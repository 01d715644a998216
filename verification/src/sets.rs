//! Set functions on lists: `sets.contains`, `sets.equivalent` and `sets.intersects`.
//!
//! Values are the same here as they are to the list functions.

use vstd::prelude::*;
use crate::engine::add_list_pair_function;
use crate::lists::{contains_value, holds_value, no_floats};
use crate::model::{CelValue, CelView, FunctionError, lemma_list_view};

verus! {

/// Whether every one of the first `count` elements of `b` is the same as some element of
/// `a`.
pub open spec fn covers(a: Seq<CelView>, b: Seq<CelView>, count: int) -> bool {
    forall|i: int| 0 <= i < count && i < b.len() ==> holds_value(a, #[trigger] b[i])
}

/// Whether one of the elements of `a` is the same as some element of `b`.
pub open spec fn meets(a: Seq<CelView>, b: Seq<CelView>) -> bool {
    exists|i: int| 0 <= i < a.len() && holds_value(b, #[trigger] a[i])
}

/// The views of the elements of a list.
pub open spec fn views(list: Seq<CelValue>) -> Seq<CelView> {
    Seq::new(list.len(), |i: int| list[i]@)
}

fn covers_all(a: &Vec<CelValue>, b: &Vec<CelValue>) -> (r: bool)
    ensures
        no_floats(a@) || no_floats(b@) ==> r == covers(views(a@), views(b@), b.len() as int),
{
    proof {
        lemma_list_view(*a);
        assert(CelValue::List(*a)@.items() =~= views(a@));
    }
    let mut i: usize = 0;
    while i < b.len()
        invariant
            i <= b.len(),
            CelValue::List(*a)@.items() == views(a@),
            no_floats(a@) || no_floats(b@) ==> covers(views(a@), views(b@), i as int),
        decreases b.len() - i,
    {
        assert(no_floats(b@) ==> !(b[i as int]@ is Float));
        if !contains_value(a, &b[i]) {
            proof {
                if no_floats(a@) || no_floats(b@) {
                    assert(!holds_value(views(a@), views(b@)[i as int]));
                }
            }
            return false;
        }
        assert(no_floats(a@) || no_floats(b@) ==> holds_value(views(a@), views(b@)[i as int]));
        i += 1;
    }
    true
}

/// `sets.contains(<list>, <list>)`: whether every element of the second list is the same
/// as some element of the first.
pub fn sets_contains(a: &Vec<CelValue>, b: &Vec<CelValue>) -> (r: Result<CelValue, FunctionError>)
    ensures
        r matches Ok(v) && v@ is Bool && (no_floats(a@) || no_floats(b@) ==> v@ == CelView::Bool(
            covers(views(a@), views(b@), b.len() as int),
        )),
{
    Ok(CelValue::Bool(covers_all(a, b)))
}

/// `sets.equivalent(<list>, <list>)`: whether every element of each list is the same as
/// some element of the other.
pub fn sets_equivalent(a: &Vec<CelValue>, b: &Vec<CelValue>) -> (r: Result<
    CelValue,
    FunctionError,
>)
    ensures
        r matches Ok(v) && v@ is Bool && (no_floats(a@) || no_floats(b@) ==> v@ == CelView::Bool(
            covers(views(a@), views(b@), b.len() as int) && covers(
                views(b@),
                views(a@),
                a.len() as int,
            ),
        )),
{
    if !covers_all(a, b) {
        return Ok(CelValue::Bool(false));
    }
    Ok(CelValue::Bool(covers_all(b, a)))
}

/// `sets.intersects(<list>, <list>)`: whether some element of the first list is the same
/// as some element of the second.
pub fn sets_intersects(a: &Vec<CelValue>, b: &Vec<CelValue>) -> (r: Result<
    CelValue,
    FunctionError,
>)
    ensures
        r matches Ok(v) && v@ is Bool && (no_floats(a@) || no_floats(b@) ==> v@ == CelView::Bool(
            meets(views(a@), views(b@)),
        )),
{
    proof {
        lemma_list_view(*b);
        assert(CelValue::List(*b)@.items() =~= views(b@));
    }
    let mut i: usize = 0;
    while i < a.len()
        invariant
            i <= a.len(),
            CelValue::List(*b)@.items() == views(b@),
            no_floats(a@) || no_floats(b@) ==> forall|j: int|
                0 <= j < i ==> !holds_value(views(b@), #[trigger] views(a@)[j]),
        decreases a.len() - i,
    {
        assert(no_floats(a@) ==> !(a[i as int]@ is Float));
        if contains_value(b, &a[i]) {
            proof {
                if no_floats(a@) || no_floats(b@) {
                    assert(holds_value(views(b@), views(a@)[i as int]));
                }
            }
            return Ok(CelValue::Bool(true));
        }
        i += 1;
    }
    Ok(CelValue::Bool(false))
}

/// The names of the set functions.
pub open spec fn names() -> Set<Seq<char>> {
    set![
        "sets.contains"@,
        "sets.equivalent"@,
        "sets.intersects"@,
    ]
}

/// Adds the set functions.
pub fn register(ctx: &mut cel::Context<'_>)
    ensures
        crate::engine::functions_added(*old(ctx), *final(ctx), names()),
{
    add_list_pair_function(ctx, "sets.contains", sets_contains);
    add_list_pair_function(ctx, "sets.equivalent", sets_equivalent);
    add_list_pair_function(ctx, "sets.intersects", sets_intersects);
    assert(crate::engine::is_root(*old(ctx)) ==> crate::engine::function_names(*ctx)
        =~= crate::engine::function_names(*old(ctx)).union(names()));
}

} // verus!
