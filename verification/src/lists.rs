//! List functions for expressions: `isSorted`, `sum`, `min`, `max`, `indexOf`,
//! `lastIndexOf`, `slice`, `flatten`, `reverse` and `distinct`.
//!
//! Two values are the same to these functions when they are two integers, two unsigned
//! integers, two strings or two booleans of one value, or two floating-point numbers that
//! the engine finds equal. What the engine finds of floating-point numbers is not stated
//! here: where a contract depends on it, the contract says so.

use vstd::prelude::*;
use vstd::string::*;
use crate::engine::{
    add_list_method, add_list_range_method, float_equal, float_less, float_sum,
};
use crate::model::{CelValue, CelView, FunctionError, lemma_list_view};
use crate::text::{chars_of, concat3, decimal_string, decimal_text, int_string, int_text};

verus! {

/// Whether none of `list` is a floating-point number.
pub open spec fn no_floats(list: Seq<CelValue>) -> bool {
    forall|i: int| 0 <= i < list.len() ==> !((#[trigger] list[i])@ is Float)
}

/// Whether `a` and `b` are the same value, for two values that are not both
/// floating-point numbers.
pub open spec fn same_value(a: CelView, b: CelView) -> bool {
    match (a, b) {
        (CelView::Int(x), CelView::Int(y)) => x == y,
        (CelView::UInt(x), CelView::UInt(y)) => x == y,
        (CelView::String(x), CelView::String(y)) => x == y,
        (CelView::Bool(x), CelView::Bool(y)) => x == y,
        _ => false,
    }
}

/// Whether `a` comes before `b` in the order of the dictionary, character by character.
pub open spec fn text_less(a: Seq<char>, b: Seq<char>) -> bool
    decreases a.len(),
{
    if b.len() == 0 {
        false
    } else if a.len() == 0 {
        true
    } else if a[0] != b[0] {
        a[0] < b[0]
    } else {
        text_less(a.drop_first(), b.drop_first())
    }
}

/// Whether `a` is less than `b`, for two values of one kind that has an order; nothing
/// for any other two. Of two floating-point numbers nothing is said here.
pub open spec fn less_value(a: CelView, b: CelView) -> Option<bool> {
    match (a, b) {
        (CelView::Int(x), CelView::Int(y)) => Some(x < y),
        (CelView::UInt(x), CelView::UInt(y)) => Some(x < y),
        (CelView::String(x), CelView::String(y)) => Some(text_less(x, y)),
        (CelView::Bool(x), CelView::Bool(y)) => Some(!x && y),
        _ => None,
    }
}

/// Whether two values are the same.
pub fn val_eq(a: &CelValue, b: &CelValue) -> (r: bool)
    ensures
        !(a@ is Float && b@ is Float) ==> r == same_value(a@, b@),
{
    match (a, b) {
        (CelValue::Int(x), CelValue::Int(y)) => *x == *y,
        (CelValue::UInt(x), CelValue::UInt(y)) => *x == *y,
        (CelValue::Float(x), CelValue::Float(y)) => float_equal(x, y),
        (CelValue::String(x), CelValue::String(y)) => crate::text::same_text(
            x.as_str(),
            y.as_str(),
        ),
        (CelValue::Bool(x), CelValue::Bool(y)) => *x == *y,
        _ => false,
    }
}

fn text_less_of(a: &str, b: &str) -> (r: bool)
    ensures
        r == text_less(a@, b@),
{
    let x = chars_of(a);
    let y = chars_of(b);
    let mut i: usize = 0;
    assert(x@.skip(0) =~= x@ && y@.skip(0) =~= y@);
    while i < x.len() && i < y.len()
        invariant
            i <= x.len(),
            i <= y.len(),
            x@ == a@,
            y@ == b@,
            text_less(x@, y@) == text_less(x@.skip(i as int), y@.skip(i as int)),
        decreases x.len() - i,
    {
        let ghost p = x@.skip(i as int);
        let ghost q = y@.skip(i as int);
        assert(p[0] == x[i as int] && q[0] == y[i as int]);
        assert(p.drop_first() =~= x@.skip(i + 1));
        assert(q.drop_first() =~= y@.skip(i + 1));
        if x[i] != y[i] {
            return x[i] < y[i];
        }
        i += 1;
    }
    assert(x@.skip(i as int).len() == x.len() - i);
    assert(y@.skip(i as int).len() == y.len() - i);
    i < y.len()
}

/// The error of two values that have no order between them.
pub open spec fn not_comparable(e: FunctionError) -> bool {
    e.says("compare"@, "cannot compare values of different types"@)
}

/// Whether `a` is less than `b`: an error where they are not two values of one kind that
/// has an order.
pub fn val_lt(a: &CelValue, b: &CelValue) -> (r: Result<bool, FunctionError>)
    ensures
        !(a@ is Float && b@ is Float) ==> match r {
            Ok(x) => less_value(a@, b@) == Some(x),
            Err(e) => less_value(a@, b@) is None && not_comparable(e),
        },
        a@ is Float && b@ is Float ==> r is Ok,
{
    match (a, b) {
        (CelValue::Int(x), CelValue::Int(y)) => Ok(*x < *y),
        (CelValue::UInt(x), CelValue::UInt(y)) => Ok(*x < *y),
        (CelValue::Float(x), CelValue::Float(y)) => Ok(float_less(x, y)),
        (CelValue::String(x), CelValue::String(y)) => Ok(text_less_of(x.as_str(), y.as_str())),
        (CelValue::Bool(x), CelValue::Bool(y)) => Ok(!*x && *y),
        _ => Err(FunctionError::new("compare", "cannot compare values of different types")),
    }
}

/// Whether `a` is the same as `b` or less: an error where it is neither the same nor
/// comparable.
pub fn val_le(a: &CelValue, b: &CelValue) -> (r: Result<bool, FunctionError>)
    ensures
        !(a@ is Float && b@ is Float) ==> match r {
            Ok(x) => if same_value(a@, b@) {
                x
            } else {
                less_value(a@, b@) == Some(x)
            },
            Err(e) => !same_value(a@, b@) && less_value(a@, b@) is None && not_comparable(e),
        },
        a@ is Float && b@ is Float ==> r is Ok,
{
    if val_eq(a, b) {
        Ok(true)
    } else {
        val_lt(a, b)
    }
}

/// The sum of two values, where they are two integers or two unsigned integers whose sum
/// 64 bits hold. Of two floating-point numbers nothing is said here.
pub open spec fn add_values(a: CelView, b: CelView) -> Option<CelView> {
    match (a, b) {
        (CelView::Int(x), CelView::Int(y)) => if i64::MIN <= x + y <= i64::MAX {
            Some(CelView::Int((x + y) as i64))
        } else {
            None
        },
        (CelView::UInt(x), CelView::UInt(y)) => if x + y <= u64::MAX {
            Some(CelView::UInt((x + y) as u64))
        } else {
            None
        },
        _ => None,
    }
}

/// The sum of two numbers of one kind: an error where they are not, and where 64 bits do
/// not hold the sum of two integers.
pub fn val_add(a: &CelValue, b: &CelValue) -> (r: Result<CelValue, FunctionError>)
    ensures
        !(a@ is Float && b@ is Float) ==> match r {
            Ok(v) => add_values(a@, b@) == Some(v@),
            Err(e) => add_values(a@, b@) is None && e.function@ == "sum"@,
        },
        a@ is Float && b@ is Float ==> (r matches Ok(v) && v@ is Float),
{
    match (a, b) {
        (CelValue::Int(x), CelValue::Int(y)) => match x.checked_add(*y) {
            Some(s) => Ok(CelValue::Int(s)),
            None => Err(FunctionError::new("sum", "integer overflow")),
        },
        (CelValue::UInt(x), CelValue::UInt(y)) => match x.checked_add(*y) {
            Some(s) => Ok(CelValue::UInt(s)),
            None => Err(FunctionError::new("sum", "integer overflow")),
        },
        (CelValue::Float(x), CelValue::Float(y)) => Ok(CelValue::Float(float_sum(x, y))),
        _ => Err(FunctionError::new("sum", "cannot sum values of this type")),
    }
}

/// Whether `list` is sorted from the position `from` on: true where each element is the
/// same as the next or less than it, false where one is more than the next, and nothing
/// where an element and the next have no order between them before that.
pub open spec fn sorted_from(list: Seq<CelValue>, from: int) -> Option<bool>
    decreases list.len() - from,
{
    if from < 0 || from + 1 >= list.len() {
        Some(true)
    } else if same_value(list[from]@, list[from + 1]@) {
        sorted_from(list, from + 1)
    } else {
        match less_value(list[from]@, list[from + 1]@) {
            None => None,
            Some(true) => sorted_from(list, from + 1),
            Some(false) => Some(false),
        }
    }
}

/// `<list>.isSorted()`: whether each element is the same as the next or less than it.
pub fn is_sorted(this: &Vec<CelValue>) -> (r: Result<CelValue, FunctionError>)
    ensures
        no_floats(this@) ==> match r {
            Ok(v) => sorted_from(this@, 0) matches Some(x) && v@ == CelView::Bool(x),
            Err(e) => sorted_from(this@, 0) is None && not_comparable(e),
        },
{
    if this.len() == 0 {
        return Ok(CelValue::Bool(true));
    }
    let mut i: usize = 0;
    while i < this.len() - 1
        invariant
            i < this.len(),
            no_floats(this@) ==> sorted_from(this@, 0) == sorted_from(this@, i as int),
        decreases this.len() - i,
    {
        match val_le(&this[i], &this[i + 1]) {
            Ok(true) => {},
            Ok(false) => {
                return Ok(CelValue::Bool(false));
            },
            Err(e) => {
                return Err(e);
            },
        }
        i += 1;
    }
    Ok(CelValue::Bool(true))
}

/// The sum of the first `count` elements of `list`, added up from the first one on;
/// nothing where two of the values added are not of one kind of number, or 64 bits do not
/// hold their sum.
pub open spec fn sum_to(list: Seq<CelValue>, count: nat) -> Option<CelView>
    decreases count,
{
    if count == 0 || count > list.len() {
        None
    } else if count == 1 {
        Some(list[0]@)
    } else {
        match sum_to(list, (count - 1) as nat) {
            Some(acc) => add_values(acc, list[count - 1]@),
            None => None,
        }
    }
}

/// `<list>.sum()`: the sum of the elements; the integer zero for the empty list, and the
/// element itself for a list of one.
pub fn sum(this: &Vec<CelValue>) -> (r: Result<CelValue, FunctionError>)
    ensures
        this.len() == 0 ==> (r matches Ok(v) && v@ == CelView::Int(0)),
        this.len() > 0 && no_floats(this@) ==> match r {
            Ok(v) => sum_to(this@, this.len() as nat) == Some(v@),
            Err(e) => sum_to(this@, this.len() as nat) is None && e.function@ == "sum"@,
        },
{
    if this.len() == 0 {
        return Ok(CelValue::Int(0));
    }
    let mut acc = this[0].clone();
    let mut i: usize = 1;
    while i < this.len()
        invariant
            1 <= i <= this.len(),
            no_floats(this@) ==> sum_to(this@, i as nat) == Some(acc@),
        decreases this.len() - i,
    {
        assert(no_floats(this@) ==> !(this[i as int]@ is Float));
        acc = match val_add(&acc, &this[i]) {
            Ok(v) => v,
            Err(e) => {
                proof {
                    if no_floats(this@) {
                        lemma_sum_fails_on(this@, (i + 1) as nat, this.len() as nat);
                    }
                }
                return Err(e);
            },
        };
        i += 1;
    }
    Ok(acc)
}

/// A sum that fails on its first elements fails on all of them.
pub proof fn lemma_sum_fails_on(list: Seq<CelValue>, count: nat, all: nat)
    requires
        1 <= count <= all <= list.len(),
        sum_to(list, count) is None,
    ensures
        sum_to(list, all) is None,
    decreases all - count,
{
    if count < all {
        lemma_sum_fails_on(list, count, (all - 1) as nat);
    }
}


/// Where the least of the first `count` elements of `list` stands: the first of them that
/// no later one is less than. Nothing where two elements that are compared on the way have
/// no order between them, and for no elements.
pub open spec fn min_index(list: Seq<CelValue>, count: nat) -> Option<int>
    decreases count,
{
    if count == 0 || count > list.len() {
        None
    } else if count == 1 {
        Some(0int)
    } else {
        match min_index(list, (count - 1) as nat) {
            Some(k) => if 0 <= k < list.len() {
                match less_value(list[count - 1]@, list[k]@) {
                    None => None,
                    Some(true) => Some(count - 1),
                    Some(false) => Some(k),
                }
            } else {
                None
            },
            None => None,
        }
    }
}

/// Where the greatest of the first `count` elements of `list` stands: the first of them
/// that no later one is more than. Nothing where two elements that are compared on the
/// way have no order between them, and for no elements.
pub open spec fn max_index(list: Seq<CelValue>, count: nat) -> Option<int>
    decreases count,
{
    if count == 0 || count > list.len() {
        None
    } else if count == 1 {
        Some(0int)
    } else {
        match max_index(list, (count - 1) as nat) {
            Some(k) => if 0 <= k < list.len() {
                match less_value(list[k]@, list[count - 1]@) {
                    None => None,
                    Some(true) => Some(count - 1),
                    Some(false) => Some(k),
                }
            } else {
                None
            },
            None => None,
        }
    }
}

proof fn lemma_min_fails_on(list: Seq<CelValue>, count: nat, all: nat)
    requires
        1 <= count <= all <= list.len(),
        min_index(list, count) is None,
    ensures
        min_index(list, all) is None,
    decreases all - count,
{
    if count < all {
        lemma_min_fails_on(list, count, (all - 1) as nat);
    }
}

proof fn lemma_max_fails_on(list: Seq<CelValue>, count: nat, all: nat)
    requires
        1 <= count <= all <= list.len(),
        max_index(list, count) is None,
    ensures
        max_index(list, all) is None,
    decreases all - count,
{
    if count < all {
        lemma_max_fails_on(list, count, (all - 1) as nat);
    }
}

/// `<list>.min()`: the least element; an error for the empty list, and where two elements
/// have no order between them.
pub fn list_min(this: &Vec<CelValue>) -> (r: Result<CelValue, FunctionError>)
    ensures
        this.len() == 0 ==> (r matches Err(e) && e.says(
            "min"@,
            "cannot call min on empty list"@,
        )),
        this.len() > 0 && no_floats(this@) ==> match r {
            Ok(v) => min_index(this@, this.len() as nat) matches Some(k) && 0 <= k < this.len()
                && v@ == this[k]@,
            Err(e) => min_index(this@, this.len() as nat) is None && not_comparable(e),
        },
{
    if this.len() == 0 {
        return Err(FunctionError::new("min", "cannot call min on empty list"));
    }
    let mut best: usize = 0;
    let mut i: usize = 1;
    while i < this.len()
        invariant
            1 <= i <= this.len(),
            best < i,
            no_floats(this@) ==> min_index(this@, i as nat) == Some(best as int),
        decreases this.len() - i,
    {
        assert(no_floats(this@) ==> !(this[i as int]@ is Float));
        match val_lt(&this[i], &this[best]) {
            Ok(true) => {
                best = i;
            },
            Ok(false) => {},
            Err(e) => {
                proof {
                    if no_floats(this@) {
                        lemma_min_fails_on(this@, (i + 1) as nat, this.len() as nat);
                    }
                }
                return Err(e);
            },
        }
        i += 1;
    }
    Ok(this[best].clone())
}

/// `<list>.max()`: the greatest element; an error for the empty list, and where two
/// elements have no order between them.
pub fn list_max(this: &Vec<CelValue>) -> (r: Result<CelValue, FunctionError>)
    ensures
        this.len() == 0 ==> (r matches Err(e) && e.says(
            "max"@,
            "cannot call max on empty list"@,
        )),
        this.len() > 0 && no_floats(this@) ==> match r {
            Ok(v) => max_index(this@, this.len() as nat) matches Some(k) && 0 <= k < this.len()
                && v@ == this[k]@,
            Err(e) => max_index(this@, this.len() as nat) is None && not_comparable(e),
        },
{
    if this.len() == 0 {
        return Err(FunctionError::new("max", "cannot call max on empty list"));
    }
    let mut best: usize = 0;
    let mut i: usize = 1;
    while i < this.len()
        invariant
            1 <= i <= this.len(),
            best < i,
            no_floats(this@) ==> max_index(this@, i as nat) == Some(best as int),
        decreases this.len() - i,
    {
        assert(no_floats(this@) ==> !(this[i as int]@ is Float));
        match val_lt(&this[best], &this[i]) {
            Ok(true) => {
                best = i;
            },
            Ok(false) => {},
            Err(e) => {
                proof {
                    if no_floats(this@) {
                        lemma_max_fails_on(this@, (i + 1) as nat, this.len() as nat);
                    }
                }
                return Err(e);
            },
        }
        i += 1;
    }
    Ok(this[best].clone())
}

/// The first position from `from` on at which `list` holds a value that is the same as
/// `target`, or -1.
pub open spec fn first_match(list: Seq<CelValue>, target: CelView, from: int) -> int
    decreases list.len() - from,
{
    if from < 0 || from >= list.len() {
        -1
    } else if same_value(list[from]@, target) {
        from
    } else {
        first_match(list, target, from + 1)
    }
}

/// The last position before `end` at which `list` holds a value that is the same as
/// `target`, or -1.
pub open spec fn last_match(list: Seq<CelValue>, target: CelView, end: int) -> int
    decreases end,
{
    if end <= 0 || end > list.len() {
        -1
    } else if same_value(list[end - 1]@, target) {
        end - 1
    } else {
        last_match(list, target, end - 1)
    }
}

/// Whether `v` is the integer `expected`. Nothing is said of a list of more elements than
/// 64 bits count, which no machine holds.
pub open spec fn is_position(v: CelView, expected: int, len: nat) -> bool {
    match v {
        CelView::Int(n) => len <= i64::MAX ==> n == expected,
        _ => false,
    }
}

/// `<list>.indexOf(<value>)`: the first position of a value that is the same as the
/// argument, or -1. What is found where the argument and an element are both
/// floating-point numbers is the engine's to say.
pub fn list_index_of(list: &Vec<CelValue>, args: &Vec<CelValue>) -> (r: Result<
    CelValue,
    FunctionError,
>)
    ensures
        match r {
            Ok(v) => args.len() > 0 && v@ is Int && (!(args[0]@ is Float) ==> is_position(
                v@,
                first_match(list@, args[0]@, 0),
                list@.len(),
            )),
            Err(e) => args.len() == 0 && e.says("indexOf"@, "expected argument"@),
        },
{
    if args.len() == 0 {
        return Err(FunctionError::new("indexOf", "expected argument"));
    }
    let target = &args[0];
    if list.len() as u64 > i64::MAX as u64 {
        return Ok(CelValue::Int(-1));
    }
    let mut i: usize = 0;
    while i < list.len()
        invariant
            i <= list.len() <= i64::MAX,
            args.len() > 0,
            *target == args[0],
            first_match(list@, target@, 0) == first_match(list@, target@, i as int),
        decreases list.len() - i,
    {
        if val_eq(&list[i], target) {
            return Ok(CelValue::Int(i as i64));
        }
        proof {
            if target@ is Float {
                assert(!same_value(list[i as int]@, target@));
            }
        }
        i += 1;
    }
    Ok(CelValue::Int(-1))
}

/// `<list>.lastIndexOf(<value>)`: the last position of a value that is the same as the
/// argument, or -1. What is found where the argument and an element are both
/// floating-point numbers is the engine's to say.
pub fn list_last_index_of(list: &Vec<CelValue>, args: &Vec<CelValue>) -> (r: Result<
    CelValue,
    FunctionError,
>)
    ensures
        match r {
            Ok(v) => args.len() > 0 && v@ is Int && (!(args[0]@ is Float) ==> is_position(
                v@,
                last_match(list@, args[0]@, list@.len() as int),
                list@.len(),
            )),
            Err(e) => args.len() == 0 && e.says("lastIndexOf"@, "expected argument"@),
        },
{
    if args.len() == 0 {
        return Err(FunctionError::new("lastIndexOf", "expected argument"));
    }
    let target = &args[0];
    if list.len() as u64 > i64::MAX as u64 {
        return Ok(CelValue::Int(-1));
    }
    let mut result: i64 = -1;
    let mut i: usize = 0;
    while i < list.len()
        invariant
            i <= list.len() <= i64::MAX,
            args.len() > 0,
            *target == args[0],
            -1 <= result < i,
            !(target@ is Float) ==> result == last_match(list@, target@, i as int),
        decreases list.len() - i,
    {
        if val_eq(&list[i], target) {
            result = i as i64;
        }
        i += 1;
    }
    Ok(CelValue::Int(result))
}

/// `<list>.slice(<int>, <int>)`: the elements from the first position up to the second.
pub fn slice(this: &Vec<CelValue>, start: i64, end: i64) -> (r: Result<CelValue, FunctionError>)
    ensures
        match r {
            Ok(v) => 0 <= start <= end <= this.len() && v@ == CelView::List(
                CelValue::List(*this)@.items().subrange(start as int, end as int),
            ),
            Err(e) => !(0 <= start <= end <= this.len()) && e.function@ == "slice"@ && (this.len()
                <= i64::MAX ==> e.message@ == "slice("@ + int_text(start as int) + ", "@
                + int_text(end as int) + ") out of range for list of length "@ + decimal_text(
                this@.len(),
            )),
        },
{
    let len = this.len();
    if start < 0 || start as u64 > len as u64 || end < start || end as u64 > len as u64 {
        let from = int_string(start as i128);
        let to = int_string(end as i128);
        let length = decimal_string(len as u128);
        let mut message = concat3("slice(", from.as_str(), ", ");
        message.append(to.as_str());
        message.append(") out of range for list of length ");
        message.append(length.as_str());
        return Err(FunctionError::new("slice", message.as_str()));
    }
    let mut out: Vec<CelValue> = Vec::new();
    let mut i: usize = start as usize;
    while i < end as usize
        invariant
            start <= i <= end <= this.len(),
            out.len() == i - start,
            forall|j: int| 0 <= j < out.len() ==> (#[trigger] out[j])@ == this[start + j]@,
        decreases end - i,
    {
        out.push(this[i].clone());
        i += 1;
    }
    proof {
        lemma_list_view(out);
        lemma_list_view(*this);
        assert(CelValue::List(out)@.items() =~= CelValue::List(*this)@.items().subrange(
            start as int,
            end as int,
        ));
    }
    Ok(CelValue::List(out))
}

/// The first `count` elements of `list`, each list among them replaced by its elements.
pub open spec fn flattened(list: Seq<CelValue>, count: nat) -> Seq<CelView>
    decreases count,
{
    if count == 0 || count > list.len() {
        Seq::empty()
    } else {
        flattened(list, (count - 1) as nat) + match list[count - 1]@ {
            CelView::List(inner) => inner,
            other => seq![other],
        }
    }
}

/// `<list>.flatten()`: the list with each list among its elements replaced by the
/// elements of that list, one level deep.
pub fn flatten(this: &Vec<CelValue>) -> (r: Result<CelValue, FunctionError>)
    ensures
        r matches Ok(v) && v@ == CelView::List(flattened(this@, this.len() as nat)),
{
    let mut out: Vec<CelValue> = Vec::new();
    let ghost mut views: Seq<CelView> = Seq::empty();
    let mut i: usize = 0;
    while i < this.len()
        invariant
            i <= this.len(),
            views == flattened(this@, i as nat),
            out.len() == views.len(),
            forall|j: int| 0 <= j < out.len() ==> (#[trigger] out[j])@ == views[j],
        decreases this.len() - i,
    {
        match &this[i] {
            CelValue::List(inner) => {
                proof {
                    lemma_list_view(*inner);
                }
                let ghost before = views;
                let mut k: usize = 0;
                while k < inner.len()
                    invariant
                        k <= inner.len(),
                        this[i as int] == CelValue::List(*inner),
                        views == before + this[i as int]@.items().take(k as int),
                        this[i as int]@.items().len() == inner.len(),
                        forall|j: int|
                            0 <= j < inner.len() ==> #[trigger] this[i as int]@.items()[j]
                                == inner[j]@,
                        out.len() == views.len(),
                        forall|j: int| 0 <= j < out.len() ==> (#[trigger] out[j])@ == views[j],
                    decreases inner.len() - k,
                {
                    out.push(inner[k].clone());
                    proof {
                        views = views.push(inner[k as int]@);
                        assert(views =~= before + this[i as int]@.items().take(k + 1));
                    }
                    k += 1;
                }
                assert(this[i as int]@.items().take(inner.len() as int)
                    =~= this[i as int]@.items());
            },
            other => {
                out.push(other.clone());
                proof {
                    views = views + seq![other@];
                }
            },
        }
        i += 1;
    }
    proof {
        lemma_list_view(out);
        assert(CelValue::List(out)@.items() =~= views);
    }
    Ok(CelValue::List(out))
}

/// `<list>.reverse()`: the elements from the last to the first.
pub fn list_reverse(this: &Vec<CelValue>) -> (r: Result<CelValue, FunctionError>)
    ensures
        r matches Ok(v) && v@ == CelView::List(CelValue::List(*this)@.items().reverse()),
{
    let mut out: Vec<CelValue> = Vec::new();
    let mut i: usize = this.len();
    while i > 0
        invariant
            i <= this.len(),
            out.len() == this.len() - i,
            forall|j: int|
                0 <= j < out.len() ==> (#[trigger] out[j])@ == this[this.len() - 1 - j]@,
        decreases i,
    {
        i -= 1;
        out.push(this[i].clone());
    }
    proof {
        lemma_list_view(out);
        lemma_list_view(*this);
        assert(CelValue::List(out)@.items() =~= CelValue::List(*this)@.items().reverse());
    }
    Ok(CelValue::List(out))
}

/// Whether one of `values` is the same as `item`.
pub open spec fn holds_value(values: Seq<CelView>, item: CelView) -> bool {
    exists|i: int| 0 <= i < values.len() && same_value(#[trigger] values[i], item)
}

/// The first `count` elements of `list` without those that are the same as an earlier
/// one, in order.
pub open spec fn distinct_to(list: Seq<CelValue>, count: nat) -> Seq<CelView>
    decreases count,
{
    if count == 0 || count > list.len() {
        Seq::empty()
    } else {
        let kept = distinct_to(list, (count - 1) as nat);
        if holds_value(kept, list[count - 1]@) {
            kept
        } else {
            kept.push(list[count - 1]@)
        }
    }
}

/// Whether one of `values` is the same as `item`.
pub fn contains_value(values: &Vec<CelValue>, item: &CelValue) -> (r: bool)
    ensures
        no_floats(values@) || !(item@ is Float) ==> r == holds_value(
            CelValue::List(*values)@.items(),
            item@,
        ),
{
    proof {
        lemma_list_view(*values);
    }
    let ghost views = CelValue::List(*values)@.items();
    let mut i: usize = 0;
    while i < values.len()
        invariant
            i <= values.len(),
            views == CelValue::List(*values)@.items(),
            views.len() == values.len(),
            forall|j: int| 0 <= j < values.len() ==> #[trigger] views[j] == values[j]@,
            no_floats(values@) || !(item@ is Float) ==> forall|j: int|
                0 <= j < i ==> !same_value(#[trigger] views[j], item@),
        decreases values.len() - i,
    {
        assert(no_floats(values@) ==> !(values[i as int]@ is Float));
        if val_eq(&values[i], item) {
            proof {
                if no_floats(values@) || !(item@ is Float) {
                    assert(same_value(views[i as int], item@));
                }
            }
            return true;
        }
        i += 1;
    }
    false
}

/// `<list>.distinct()`: the list without the elements that are the same as an earlier
/// one.
pub fn distinct(this: &Vec<CelValue>) -> (r: Result<CelValue, FunctionError>)
    ensures
        r matches Ok(v) && v@ is List && (no_floats(this@) ==> v@ == CelView::List(
            distinct_to(this@, this.len() as nat),
        )),
{
    let mut out: Vec<CelValue> = Vec::new();
    let mut i: usize = 0;
    proof {
        lemma_list_view(out);
    }
    while i < this.len()
        invariant
            i <= this.len(),
            no_floats(this@) ==> no_floats(out@),
            no_floats(this@) ==> CelValue::List(out)@.items() == distinct_to(this@, i as nat),
        decreases this.len() - i,
    {
        assert(no_floats(this@) ==> !(this[i as int]@ is Float));
        let ghost before = CelValue::List(out)@.items();
        if !contains_value(&out, &this[i]) {
            let ghost old_out = out@;
            proof {
                lemma_list_view(out);
            }
            out.push(this[i].clone());
            proof {
                lemma_list_view(out);
                assert(CelValue::List(out)@.items() =~= before.push(this[i as int]@));
                if no_floats(this@) {
                    assert forall|j: int| 0 <= j < out.len() implies !((#[trigger] out[j])@
                        is Float) by {
                        if j < old_out.len() {
                            assert(out[j] == old_out[j]);
                        }
                    }
                }
            }
        }
        i += 1;
    }
    Ok(CelValue::List(out))
}

/// The names of the list functions that no other kind of value shares.
pub open spec fn names() -> Set<Seq<char>> {
    set![
        "isSorted"@,
        "sum"@,
        "min"@,
        "max"@,
        "slice"@,
        "flatten"@,
        "reverse"@,
        "distinct"@,
    ]
}

/// Adds the list functions that no other kind of value shares.
pub fn register(ctx: &mut cel::Context<'_>)
    ensures
        crate::engine::functions_added(*old(ctx), *final(ctx), names()),
{
    add_list_method(ctx, "isSorted", is_sorted);
    add_list_method(ctx, "sum", sum);
    add_list_method(ctx, "min", list_min);
    add_list_method(ctx, "max", list_max);
    add_list_range_method(ctx, "slice", slice);
    add_list_method(ctx, "flatten", flatten);
    add_list_method(ctx, "reverse", list_reverse);
    add_list_method(ctx, "distinct", distinct);
    assert(crate::engine::is_root(*old(ctx)) ==> crate::engine::function_names(*ctx)
        =~= crate::engine::function_names(*old(ctx)).union(names()));
}

} // verus!
