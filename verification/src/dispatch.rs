//! Functions that more than one kind of value shares.
//!
//! The engine knows a function by its name alone. Where one name stands for functions of
//! two kinds of value (`indexOf` of strings and of lists, `isGreaterThan` of versions and of
//! quantities), the function registered under the name looks at the value it is called on
//! and hands the call to the function of that kind.

use vstd::prelude::*;
use vstd::string::*;
use crate::engine::{add_value_variadic_method, kind_text_of};
use crate::model::{CelValue, CelView, FunctionError};
use crate::text::concat3;

verus! {

/// The error of a function that is called on a value of a kind it has no part for.
fn not_supported(function: &str, this: &CelValue) -> (r: FunctionError)
    ensures
        r.function@ == function@,
{
    let kind = kind_text_of(this);
    let message = concat3(function, " not supported on type ", kind.as_str());
    FunctionError::new(function, message.as_str())
}

/// `indexOf`: of a string, as [`string_index_of`](crate::strings::string_index_of); of a
/// list, as [`list_index_of`](crate::lists::list_index_of); an error on any other value.
pub fn index_of(this: &CelValue, args: &Vec<CelValue>) -> (r: Result<CelValue, FunctionError>)
    ensures
        !(this@ is String || this@ is List) ==> (r matches Err(e) && e.function@ == "indexOf"@),
        this matches CelValue::String(s) ==> match r {
            Ok(v) => crate::strings::text_argument(args@, 0) matches Some(search)
                && crate::strings::is_index(
                v@,
                if search.len() == 0 {
                    crate::strings::search_start(crate::strings::int_argument(args@, 1))
                } else {
                    crate::strings::first_occurrence(
                        s@,
                        search,
                        crate::strings::search_start(crate::strings::int_argument(args@, 1)),
                    )
                },
                s@.len(),
            ),
            Err(e) => crate::strings::text_argument(args@, 0) is None && e.says(
                "indexOf"@,
                "expected string argument"@,
            ),
        },
        this matches CelValue::List(list) ==> match r {
            Ok(v) => args.len() > 0 && v@ is Int && (!(args[0]@ is Float)
                ==> crate::lists::is_position(
                v@,
                crate::lists::first_match(list@, args[0]@, 0),
                list@.len(),
            )),
            Err(e) => args.len() == 0 && e.says("indexOf"@, "expected argument"@),
        },
{
    match this {
        CelValue::String(s) => crate::strings::string_index_of(s.as_str(), args),
        CelValue::List(list) => crate::lists::list_index_of(list, args),
        _ => Err(not_supported("indexOf", this)),
    }
}

/// `lastIndexOf`: of a string, as
/// [`string_last_index_of`](crate::strings::string_last_index_of); of a list, as
/// [`list_last_index_of`](crate::lists::list_last_index_of); an error on any other value.
pub fn last_index_of(this: &CelValue, args: &Vec<CelValue>) -> (r: Result<CelValue, FunctionError>)
    ensures
        !(this@ is String || this@ is List) ==> (r matches Err(e) && e.function@
            == "lastIndexOf"@),
        this matches CelValue::String(s) ==> match r {
            Ok(v) => crate::strings::text_argument(args@, 0) matches Some(search)
                && crate::strings::is_index(
                v@,
                if search.len() == 0 {
                    crate::strings::search_end(crate::strings::int_argument(args@, 1), s@.len())
                } else {
                    crate::strings::last_occurrence(
                        s@,
                        search,
                        crate::strings::search_end(
                            crate::strings::int_argument(args@, 1),
                            s@.len(),
                        ),
                        crate::strings::search_end(
                            crate::strings::int_argument(args@, 1),
                            s@.len(),
                        ),
                    )
                },
                s@.len(),
            ),
            Err(e) => crate::strings::text_argument(args@, 0) is None && e.says(
                "lastIndexOf"@,
                "expected string argument"@,
            ),
        },
        this matches CelValue::List(list) ==> match r {
            Ok(v) => args.len() > 0 && v@ is Int && (!(args[0]@ is Float)
                ==> crate::lists::is_position(
                v@,
                crate::lists::last_match(list@, args[0]@, list@.len() as int),
                list@.len(),
            )),
            Err(e) => args.len() == 0 && e.says("lastIndexOf"@, "expected argument"@),
        },
{
    match this {
        CelValue::String(s) => crate::strings::string_last_index_of(s.as_str(), args),
        CelValue::List(list) => crate::lists::list_last_index_of(list, args),
        _ => Err(not_supported("lastIndexOf", this)),
    }
}

/// How the value `this` stands to the value `other`, where both are versions or both are
/// quantities.
pub open spec fn order_of(this: CelView, other: CelView) -> Option<int> {
    match (this, other) {
        (CelView::Semver(a), CelView::Semver(b)) => Some(
            crate::semver_funcs::version_order(a, b),
        ),
        (CelView::Quantity(a), CelView::Quantity(b)) => Some(a.order(b)),
        _ => None,
    }
}

/// `isGreaterThan`: of two versions or of two quantities; an error without an argument,
/// and on any other two values.
pub fn is_greater_than(this: &CelValue, args: &Vec<CelValue>) -> (r: Result<
    CelValue,
    FunctionError,
>)
    ensures
        match r {
            Ok(v) => args.len() > 0 && match order_of(this@, args[0]@) {
                Some(order) => v@ == CelView::Bool(order > 0),
                None => false,
            },
            Err(e) => args.len() == 0 || order_of(this@, args[0]@) is None,
        },
        args.len() == 0 ==> (r matches Err(e) && e.says("isGreaterThan"@, "missing argument"@)),
{
    if args.len() == 0 {
        return Err(FunctionError::new("isGreaterThan", "missing argument"));
    }
    match this {
        CelValue::Semver(_) => crate::semver_funcs::semver_is_greater_than(this, &args[0]),
        CelValue::Quantity(_) => crate::quantity::cel_is_greater_than(this, &args[0]),
        _ => Err(not_supported("isGreaterThan", this)),
    }
}

/// `isLessThan`: of two versions or of two quantities; an error without an argument, and
/// on any other two values.
pub fn is_less_than(this: &CelValue, args: &Vec<CelValue>) -> (r: Result<CelValue, FunctionError>)
    ensures
        match r {
            Ok(v) => args.len() > 0 && match order_of(this@, args[0]@) {
                Some(order) => v@ == CelView::Bool(order < 0),
                None => false,
            },
            Err(e) => args.len() == 0 || order_of(this@, args[0]@) is None,
        },
        args.len() == 0 ==> (r matches Err(e) && e.says("isLessThan"@, "missing argument"@)),
{
    if args.len() == 0 {
        return Err(FunctionError::new("isLessThan", "missing argument"));
    }
    match this {
        CelValue::Semver(_) => crate::semver_funcs::semver_is_less_than(this, &args[0]),
        CelValue::Quantity(_) => crate::quantity::cel_is_less_than(this, &args[0]),
        _ => Err(not_supported("isLessThan", this)),
    }
}

/// `compareTo`: of two versions or of two quantities, -1, 0 or 1; an error without an
/// argument, and on any other two values.
pub fn compare_to(this: &CelValue, args: &Vec<CelValue>) -> (r: Result<CelValue, FunctionError>)
    ensures
        match r {
            Ok(v) => args.len() > 0 && match (order_of(this@, args[0]@), v@) {
                (Some(order), CelView::Int(i)) => i == order,
                _ => false,
            },
            Err(e) => args.len() == 0 || order_of(this@, args[0]@) is None,
        },
        args.len() == 0 ==> (r matches Err(e) && e.says("compareTo"@, "missing argument"@)),
{
    if args.len() == 0 {
        return Err(FunctionError::new("compareTo", "missing argument"));
    }
    match this {
        CelValue::Semver(_) => crate::semver_funcs::semver_compare_to(this, &args[0]),
        CelValue::Quantity(_) => crate::quantity::cel_compare_to(this, &args[0]),
        _ => Err(not_supported("compareTo", this)),
    }
}

/// `add`, of a quantity: as [`cel_add`](crate::quantity::cel_add).
pub fn add(this: &CelValue, args: &Vec<CelValue>) -> (r: Result<CelValue, FunctionError>)
    ensures
        match r {
            Ok(v) => args.len() > 0 && crate::quantity::is_sum(this@, args[0]@, v@),
            Err(_) => !(this@ is Quantity) || args.len() == 0 || !crate::quantity::is_operand(
                args[0]@,
            ) || exists|b: crate::quantity::KubeQuantity|
                #[trigger] crate::quantity::operand_of(args[0]@, b)
                    && this@->Quantity_0.sum_overflows(b, 1),
        },
{
    crate::quantity::cel_add(this, args)
}

/// `sub`, of a quantity: as [`cel_sub`](crate::quantity::cel_sub).
pub fn sub(this: &CelValue, args: &Vec<CelValue>) -> (r: Result<CelValue, FunctionError>)
    ensures
        match r {
            Ok(v) => args.len() > 0 && crate::quantity::is_difference(this@, args[0]@, v@),
            Err(_) => !(this@ is Quantity) || args.len() == 0 || !crate::quantity::is_operand(
                args[0]@,
            ) || exists|b: crate::quantity::KubeQuantity|
                #[trigger] crate::quantity::operand_of(args[0]@, b)
                    && this@->Quantity_0.sum_overflows(b, -1),
        },
{
    crate::quantity::cel_sub(this, args)
}

/// The names of the functions that more than one kind of value shares.
pub open spec fn names() -> Set<Seq<char>> {
    set![
        "indexOf"@,
        "lastIndexOf"@,
        "isGreaterThan"@,
        "isLessThan"@,
        "compareTo"@,
        "add"@,
        "sub"@,
    ]
}

/// Adds the functions that more than one kind of value shares. They go in last, over
/// whatever stands under their names.
pub fn register(ctx: &mut cel::Context<'_>)
    ensures
        crate::engine::functions_added(*old(ctx), *final(ctx), names()),
{
    add_value_variadic_method(ctx, "indexOf", index_of);
    add_value_variadic_method(ctx, "lastIndexOf", last_index_of);
    add_value_variadic_method(ctx, "isGreaterThan", is_greater_than);
    add_value_variadic_method(ctx, "isLessThan", is_less_than);
    add_value_variadic_method(ctx, "compareTo", compare_to);
    add_value_variadic_method(ctx, "add", self::add);
    add_value_variadic_method(ctx, "sub", self::sub);
    assert(crate::engine::is_root(*old(ctx)) ==> crate::engine::function_names(*ctx)
        =~= crate::engine::function_names(*old(ctx)).union(names()));
}

} // verus!
