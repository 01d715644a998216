//! String functions for expressions: `charAt`, `indexOf`, `lastIndexOf`, `lowerAscii`,
//! `upperAscii`, `replace`, `split`, `substring`, `trim`, `join` and `strings.quote`.
//!
//! Positions count characters, not bytes.

use vstd::prelude::*;
use vstd::string::*;
use crate::engine::{
    add_list_variadic_method, add_text_function, add_text_index_method, add_text_method,
    add_text_variadic_method, debug_text, function_names, functions_added, is_root, to_cel,
};
use crate::model::{CelValue, CelView, FunctionError, lemma_list_view};
use crate::text::{
    chars_of, concat3, decimal_string, decimal_text, int_string, int_text, push_char,
    slice_chars, text_of, trim_text, trimmed,
};

verus! {

/// Whether `pattern` stands in `text` at the position `at`.
pub open spec fn occurs_at(text: Seq<char>, pattern: Seq<char>, at: int) -> bool {
    0 <= at && at + pattern.len() <= text.len() && text.subrange(at, at + pattern.len())
        == pattern
}

/// The first position from `from` on at which `pattern` stands in `text`, or -1.
pub open spec fn first_occurrence(text: Seq<char>, pattern: Seq<char>, from: int) -> int
    decreases text.len() - from,
{
    if from < 0 || from >= text.len() {
        -1
    } else if occurs_at(text, pattern, from) {
        from
    } else {
        first_occurrence(text, pattern, from + 1)
    }
}

/// The last position before `end` at which `pattern` stands in the first `limit`
/// characters of `text`, or -1.
pub open spec fn last_occurrence(text: Seq<char>, pattern: Seq<char>, limit: int, end: int) -> int
    decreases end,
{
    if end <= 0 {
        -1
    } else if occurs_at(text.take(limit), pattern, end - 1) {
        end - 1
    } else {
        last_occurrence(text, pattern, limit, end - 1)
    }
}

/// The integer that the argument `index` of a call holds, if it holds one.
pub open spec fn int_argument(args: Seq<CelValue>, index: int) -> Option<i64> {
    if 0 <= index < args.len() {
        match args[index]@ {
            CelView::Int(n) => Some(n),
            _ => None,
        }
    } else {
        None
    }
}

/// The string that the argument `index` of a call holds, if it holds one.
pub open spec fn text_argument(args: Seq<CelValue>, index: int) -> Option<Seq<char>> {
    if 0 <= index < args.len() {
        match args[index]@ {
            CelView::String(s) => Some(s),
            _ => None,
        }
    } else {
        None
    }
}

pub fn int_argument_of(args: &Vec<CelValue>, index: usize) -> (r: Option<i64>)
    ensures
        r == int_argument(args@, index as int),
{
    if index < args.len() {
        match &args[index] {
            CelValue::Int(n) => Some(*n),
            _ => None,
        }
    } else {
        None
    }
}

pub fn text_argument_of(args: &Vec<CelValue>, index: usize) -> (r: Option<&str>)
    ensures
        match r {
            Some(s) => text_argument(args@, index as int) == Some(s@),
            None => text_argument(args@, index as int) is None,
        },
{
    if index < args.len() {
        match &args[index] {
            CelValue::String(s) => Some(s.as_str()),
            _ => None,
        }
    } else {
        None
    }
}

fn occurs_at_of(text: &Vec<char>, pattern: &Vec<char>, at: usize, limit: usize) -> (r: bool)
    requires
        limit <= text.len(),
    ensures
        r == occurs_at(text@.take(limit as int), pattern@, at as int),
{
    if pattern.len() > limit || at > limit - pattern.len() {
        return false;
    }
    let mut j: usize = 0;
    while j < pattern.len()
        invariant
            j <= pattern.len(),
            at + pattern.len() <= limit <= text.len(),
            forall|k: int| 0 <= k < j ==> text[at + k] == pattern[k],
        decreases pattern.len() - j,
    {
        if text[at + j] != pattern[j] {
            assert(text@.take(limit as int).subrange(at as int, at + pattern.len())[j as int]
                == text[at + j]);
            return false;
        }
        j += 1;
    }
    assert(text@.take(limit as int).subrange(at as int, at + pattern.len()) =~= pattern@);
    true
}

/// `<string>.charAt(<int>)`: the character at a position, as a string.
pub fn char_at(this: &str, idx: i64) -> (r: Result<CelValue, FunctionError>)
    ensures
        match r {
            Ok(v) => 0 <= idx < this@.len() && v@ == CelView::String(seq![this@[idx as int]]),
            Err(e) => !(0 <= idx < this@.len()) && e.says(
                "charAt"@,
                "index "@ + int_text(idx as int) + " out of range for string of length "@
                    + decimal_text(this@.len()),
            ),
        },
{
    let chars = chars_of(this);
    if idx < 0 || idx as u64 >= chars.len() as u64 {
        let index = int_string(idx as i128);
        let length = decimal_string(chars.len() as u128);
        let mut message = concat3("index ", index.as_str(), " out of range for string of length ");
        message.append(length.as_str());
        return Err(FunctionError::new("charAt", message.as_str()));
    }
    let mut out = String::new();
    push_char(&mut out, chars[idx as usize]);
    assert(out@ =~= seq![this@[idx as int]]);
    Ok(CelValue::String(out))
}

/// Whether `v` is the integer `expected`. Nothing is said of a text of more characters
/// than 64 bits count, which no machine holds.
pub open spec fn is_index(v: CelView, expected: int, len: nat) -> bool {
    match v {
        CelView::Int(n) => len <= i64::MAX ==> n == expected,
        _ => false,
    }
}

/// Where a search starts that was asked to start at `asked`: there, or at zero if that is
/// negative or was not said.
pub open spec fn search_start(asked: Option<i64>) -> int {
    match asked {
        Some(n) => if n < 0 {
            0
        } else {
            n as int
        },
        None => 0,
    }
}

/// `<string>.indexOf(<string>)` and `<string>.indexOf(<string>, <int>)`: the first
/// position, from the given one on, at which the argument stands in the string, or -1. The
/// empty string is found where the search starts.
pub fn string_index_of(this: &str, args: &Vec<CelValue>) -> (r: Result<CelValue, FunctionError>)
    ensures
        match r {
            Ok(v) => text_argument(args@, 0) matches Some(search) && is_index(
                v@,
                if search.len() == 0 {
                    search_start(int_argument(args@, 1))
                } else {
                    first_occurrence(this@, search, search_start(int_argument(args@, 1)))
                },
                this@.len(),
            ),
            Err(e) => text_argument(args@, 0) is None && e.says(
                "indexOf"@,
                "expected string argument"@,
            ),
        },
{
    let search = match text_argument_of(args, 0) {
        Some(s) => chars_of(s),
        None => {
            return Err(FunctionError::new("indexOf", "expected string argument"));
        },
    };
    let offset: i64 = match int_argument_of(args, 1) {
        Some(n) => if n < 0 {
            0
        } else {
            n
        },
        None => 0,
    };
    if search.len() == 0 {
        return Ok(CelValue::Int(offset));
    }
    let chars = chars_of(this);
    if offset as u64 >= chars.len() as u64 || chars.len() as u64 > i64::MAX as u64 {
        return Ok(CelValue::Int(-1));
    }
    let mut i: usize = offset as usize;
    while i < chars.len()
        invariant
            offset <= i <= chars.len(),
            chars@ == this@,
            chars.len() <= i64::MAX,
            search.len() > 0,
            text_argument(args@, 0) == Some(search@),
            offset == search_start(int_argument(args@, 1)),
            first_occurrence(this@, search@, offset as int) == first_occurrence(
                this@,
                search@,
                i as int,
            ),
        decreases chars.len() - i,
    {
        assert(chars@.take(chars.len() as int) =~= chars@);
        if occurs_at_of(&chars, &search, i, chars.len()) {
            return Ok(CelValue::Int(i as i64));
        }
        i += 1;
    }
    Ok(CelValue::Int(-1))
}

/// Where a backward search ends that was asked to end at `asked`, in a text of `len`
/// characters: there, but not below zero nor beyond the text; at the end of the text if
/// nothing was said.
pub open spec fn search_end(asked: Option<i64>, len: nat) -> int {
    match asked {
        Some(n) => if n < 0 {
            0
        } else if n > len {
            len as int
        } else {
            n as int
        },
        None => len as int,
    }
}

/// `<string>.lastIndexOf(<string>)` and `<string>.lastIndexOf(<string>, <int>)`: the last
/// position at which the argument stands in the string, within its first characters up to
/// the given position, or -1. The empty string is found where the search ends.
pub fn string_last_index_of(this: &str, args: &Vec<CelValue>) -> (r: Result<
    CelValue,
    FunctionError,
>)
    ensures
        match r {
            Ok(v) => text_argument(args@, 0) matches Some(search) && is_index(
                v@,
                if search.len() == 0 {
                    search_end(int_argument(args@, 1), this@.len())
                } else {
                    last_occurrence(
                        this@,
                        search,
                        search_end(int_argument(args@, 1), this@.len()),
                        search_end(int_argument(args@, 1), this@.len()),
                    )
                },
                this@.len(),
            ),
            Err(e) => text_argument(args@, 0) is None && e.says(
                "lastIndexOf"@,
                "expected string argument"@,
            ),
        },
{
    let search = match text_argument_of(args, 0) {
        Some(s) => chars_of(s),
        None => {
            return Err(FunctionError::new("lastIndexOf", "expected string argument"));
        },
    };
    let chars = chars_of(this);
    if chars.len() as u64 > i64::MAX as u64 {
        return Ok(CelValue::Int(-1));
    }
    let end: usize = match int_argument_of(args, 1) {
        Some(n) => if n < 0 {
            0
        } else if n as u64 > chars.len() as u64 {
            chars.len()
        } else {
            n as usize
        },
        None => chars.len(),
    };
    if search.len() == 0 {
        return Ok(CelValue::Int(end as i64));
    }
    let mut i: usize = end;
    while i > 0
        invariant
            i <= end <= chars.len(),
            chars@ == this@,
            chars.len() <= i64::MAX,
            search.len() > 0,
            text_argument(args@, 0) == Some(search@),
            end == search_end(int_argument(args@, 1), this@.len()),
            last_occurrence(this@, search@, end as int, end as int) == last_occurrence(
                this@,
                search@,
                end as int,
                i as int,
            ),
        decreases i,
    {
        if occurs_at_of(&chars, &search, i - 1, end) {
            return Ok(CelValue::Int((i - 1) as i64));
        }
        i -= 1;
    }
    Ok(CelValue::Int(-1))
}


/// The lower-case form of `c` if it is an upper-case ASCII letter, else `c`.
pub open spec fn ascii_lower(c: char) -> char {
    if 'A' <= c && c <= 'Z' {
        ((c as u8) + 32) as char
    } else {
        c
    }
}

/// The upper-case form of `c` if it is a lower-case ASCII letter, else `c`.
pub open spec fn ascii_upper(c: char) -> char {
    if 'a' <= c && c <= 'z' {
        ((c as u8) - 32) as char
    } else {
        c
    }
}

/// `<string>.lowerAscii()`: the string with its upper-case ASCII letters in lower case.
pub fn lower_ascii(this: &str) -> (r: Result<CelValue, FunctionError>)
    ensures
        r matches Ok(v) && v@ == CelView::String(this@.map_values(|c: char| ascii_lower(c))),
{
    let chars = chars_of(this);
    let mut out: Vec<char> = Vec::new();
    let mut i: usize = 0;
    while i < chars.len()
        invariant
            i <= chars.len(),
            out.len() == i,
            forall|j: int| 0 <= j < i ==> out[j] == ascii_lower(chars[j]),
        decreases chars.len() - i,
    {
        let c = chars[i];
        if 'A' <= c && c <= 'Z' {
            out.push(((c as u8) + 32) as char);
        } else {
            out.push(c);
        }
        i += 1;
    }
    assert(out@ =~= this@.map_values(|c: char| ascii_lower(c)));
    Ok(CelValue::String(text_of(&out)))
}

/// `<string>.upperAscii()`: the string with its lower-case ASCII letters in upper case.
pub fn upper_ascii(this: &str) -> (r: Result<CelValue, FunctionError>)
    ensures
        r matches Ok(v) && v@ == CelView::String(this@.map_values(|c: char| ascii_upper(c))),
{
    let chars = chars_of(this);
    let mut out: Vec<char> = Vec::new();
    let mut i: usize = 0;
    while i < chars.len()
        invariant
            i <= chars.len(),
            out.len() == i,
            forall|j: int| 0 <= j < i ==> out[j] == ascii_upper(chars[j]),
        decreases chars.len() - i,
    {
        let c = chars[i];
        if 'a' <= c && c <= 'z' {
            out.push(((c as u8) - 32) as char);
        } else {
            out.push(c);
        }
        i += 1;
    }
    assert(out@ =~= this@.map_values(|c: char| ascii_upper(c)));
    Ok(CelValue::String(text_of(&out)))
}

/// What `str::replace` makes of `text`: every match of `from`, found from the left and
/// without overlap, replaced by `to`.
pub uninterp spec fn replaced(text: Seq<char>, from: Seq<char>, to: Seq<char>) -> Seq<char>;

/// What `str::replacen` makes of `text`: the first `count` matches of `from` replaced by
/// `to`.
pub uninterp spec fn replaced_first(
    text: Seq<char>,
    from: Seq<char>,
    to: Seq<char>,
    count: nat,
) -> Seq<char>;

/// `str::replace`.
#[verifier::external_body]
fn replace_all(text: &str, from: &str, to: &str) -> (r: String)
    ensures
        r@ == replaced(text@, from@, to@),
{
    text.replace(from, to)
}

/// `str::replacen`.
#[verifier::external_body]
fn replace_first(text: &str, from: &str, to: &str, count: usize) -> (r: String)
    ensures
        r@ == replaced_first(text@, from@, to@, count as nat),
{
    text.replacen(from, to, count)
}

/// How often to act, for a count that was asked as `asked`: as often, but not less than
/// `least` times.
pub open spec fn at_least(asked: i64, least: nat) -> nat {
    if asked < least {
        least
    } else {
        asked as nat
    }
}

fn at_least_of(asked: i64, least: u8) -> (r: usize)
    ensures
        r as nat == at_least(asked, least as nat) || (r == usize::MAX && at_least(
            asked,
            least as nat,
        ) > usize::MAX),
{
    if asked < least as i64 {
        least as usize
    } else if asked as u64 > usize::MAX as u64 {
        usize::MAX
    } else {
        asked as usize
    }
}

/// `<string>.replace(<string>, <string>)` and `<string>.replace(<string>, <string>,
/// <int>)`: the string with every match of the first argument, or the first so many,
/// replaced by the second.
pub fn string_replace(this: &str, args: &Vec<CelValue>) -> (r: Result<CelValue, FunctionError>)
    ensures
        match r {
            Ok(v) => text_argument(args@, 0) matches Some(from) && text_argument(
                args@,
                1,
            ) matches Some(to) && match int_argument(args@, 2) {
                Some(n) => at_least(n, 0) <= usize::MAX ==> v@ == CelView::String(
                    replaced_first(this@, from, to, at_least(n, 0)),
                ),
                None => v@ == CelView::String(replaced(this@, from, to)),
            },
            Err(e) => (text_argument(args@, 0) is None || text_argument(args@, 1) is None)
                && e.says("replace"@, "expected string argument"@),
        },
{
    let from = match text_argument_of(args, 0) {
        Some(s) => s,
        None => {
            return Err(FunctionError::new("replace", "expected string argument"));
        },
    };
    let to = match text_argument_of(args, 1) {
        Some(s) => s,
        None => {
            return Err(FunctionError::new("replace", "expected string argument"));
        },
    };
    let result = match int_argument_of(args, 2) {
        Some(n) => replace_first(this, from, to, at_least_of(n, 0)),
        None => replace_all(this, from, to),
    };
    Ok(CelValue::String(result))
}

/// The pieces that `str::split` cuts `text` into at each match of `separator`.
pub uninterp spec fn split_by(text: Seq<char>, separator: Seq<char>) -> Seq<Seq<char>>;

/// The pieces that `str::splitn` cuts `text` into: at most `count` of them, the last
/// holding the rest of the text.
pub uninterp spec fn split_first(text: Seq<char>, separator: Seq<char>, count: nat) -> Seq<
    Seq<char>,
>;

/// The characters of each of `strings`.
pub open spec fn texts_view(strings: Seq<String>) -> Seq<Seq<char>> {
    Seq::new(strings.len(), |i: int| strings[i]@)
}

/// `str::split`, its pieces collected.
#[verifier::external_body]
fn split_all(text: &str, separator: &str) -> (r: Vec<String>)
    ensures
        texts_view(r@) == split_by(text@, separator@),
{
    text.split(separator).map(|piece| piece.to_string()).collect()
}

/// `str::splitn`, its pieces collected.
#[verifier::external_body]
fn split_some(text: &str, separator: &str, count: usize) -> (r: Vec<String>)
    ensures
        texts_view(r@) == split_first(text@, separator@, count as nat),
{
    text.splitn(count, separator).map(|piece| piece.to_string()).collect()
}

/// The list of strings that holds `texts`.
pub open spec fn text_list(texts: Seq<Seq<char>>) -> CelView {
    CelView::List(Seq::new(texts.len(), |i: int| CelView::String(texts[i])))
}

pub fn text_list_of(strings: Vec<String>) -> (r: CelValue)
    ensures
        r@ == text_list(texts_view(strings@)),
{
    let mut items: Vec<CelValue> = Vec::new();
    let mut i: usize = 0;
    while i < strings.len()
        invariant
            i <= strings.len(),
            items.len() == i,
            forall|j: int| 0 <= j < i ==> (#[trigger] items[j])@ == CelView::String(strings[j]@),
        decreases strings.len() - i,
    {
        items.push(CelValue::String(strings[i].clone()));
        i += 1;
    }
    proof {
        lemma_list_view(items);
        assert(CelValue::List(items)@.items() =~= text_list(texts_view(strings@)).items());
    }
    CelValue::List(items)
}

/// `<string>.split(<string>)` and `<string>.split(<string>, <int>)`: the pieces of the
/// string between the matches of the argument: all of them, or at most so many, and never
/// less than one.
pub fn string_split(this: &str, args: &Vec<CelValue>) -> (r: Result<CelValue, FunctionError>)
    ensures
        match r {
            Ok(v) => text_argument(args@, 0) matches Some(separator) && match int_argument(
                args@,
                1,
            ) {
                Some(n) => at_least(n, 1) <= usize::MAX ==> v@ == text_list(
                    split_first(this@, separator, at_least(n, 1)),
                ),
                None => v@ == text_list(split_by(this@, separator)),
            },
            Err(e) => text_argument(args@, 0) is None && e.says(
                "split"@,
                "expected string argument"@,
            ),
        },
{
    let separator = match text_argument_of(args, 0) {
        Some(s) => s,
        None => {
            return Err(FunctionError::new("split", "expected string argument"));
        },
    };
    let parts = match int_argument_of(args, 1) {
        Some(n) => split_some(this, separator, at_least_of(n, 1)),
        None => split_all(this, separator),
    };
    Ok(text_list_of(parts))
}

/// `<string>.substring(<int>)` and `<string>.substring(<int>, <int>)`: the characters
/// from the first position up to the second, or up to the end of the string.
pub fn substring(this: &str, args: &Vec<CelValue>) -> (r: Result<CelValue, FunctionError>)
    ensures
        match r {
            Ok(v) => int_argument(args@, 0) matches Some(start) && 0 <= start <= this@.len()
                && match int_argument(args@, 1) {
                Some(end) => start <= end <= this@.len() && v@ == CelView::String(
                    this@.subrange(start as int, end as int),
                ),
                None => v@ == CelView::String(this@.subrange(start as int, this@.len() as int)),
            },
            Err(e) => e.function@ == "substring"@ && match int_argument(args@, 0) {
                None => e.message@ == "expected int argument"@,
                Some(start) => if start < 0 || start > this@.len() {
                    e.message@ == "start index "@ + int_text(start as int)
                        + " out of range for string of length "@ + decimal_text(this@.len())
                } else {
                    int_argument(args@, 1) matches Some(end) && (end < start || end
                        > this@.len()) && e.message@ == "end index "@ + int_text(end as int)
                        + " out of range"@
                },
            },
        },
{
    let start = match int_argument_of(args, 0) {
        Some(n) => n,
        None => {
            return Err(FunctionError::new("substring", "expected int argument"));
        },
    };
    let chars = chars_of(this);
    let len = chars.len();
    if start < 0 || start as u64 > len as u64 {
        let index = int_string(start as i128);
        let length = decimal_string(len as u128);
        let mut message = concat3(
            "start index ",
            index.as_str(),
            " out of range for string of length ",
        );
        message.append(length.as_str());
        return Err(FunctionError::new("substring", message.as_str()));
    }
    let end: usize = match int_argument_of(args, 1) {
        Some(n) => {
            if n < start || n as u64 > len as u64 {
                let index = int_string(n as i128);
                let message = concat3("end index ", index.as_str(), " out of range");
                return Err(FunctionError::new("substring", message.as_str()));
            }
            n as usize
        },
        None => len,
    };
    let piece = slice_chars(&chars, start as usize, end);
    Ok(CelValue::String(text_of(&piece)))
}

/// `<string>.trim()`: the string without the white space at its two ends.
pub fn trim(this: &str) -> (r: Result<CelValue, FunctionError>)
    ensures
        r matches Ok(v) && v@ == CelView::String(trimmed(this@)),
{
    Ok(CelValue::String(trim_text(this)))
}

/// `parts`, with `separator` between each two of them.
pub open spec fn joined(parts: Seq<Seq<char>>, separator: Seq<char>) -> Seq<char>
    decreases parts.len(),
{
    if parts.len() == 0 {
        Seq::empty()
    } else if parts.len() == 1 {
        parts[0]
    } else {
        joined(parts.drop_last(), separator) + separator + parts.last()
    }
}

/// `parts`, with `separator` between each two of them.
pub fn join_texts(parts: &Vec<String>, separator: &str) -> (r: String)
    ensures
        r@ == joined(texts_view(parts@), separator@),
{
    let mut out = String::new();
    let mut i: usize = 0;
    let ghost texts = texts_view(parts@);
    assert(texts.take(0) =~= Seq::<Seq<char>>::empty());
    while i < parts.len()
        invariant
            i <= parts.len(),
            texts == texts_view(parts@),
            out@ == joined(texts.take(i as int), separator@),
        decreases parts.len() - i,
    {
        assert(texts.take(i + 1).drop_last() =~= texts.take(i as int));
        assert(texts.take(i + 1).last() == parts[i as int]@);
        if i > 0 {
            out.append(separator);
        } else {
            assert(Seq::<char>::empty() + parts[0]@ =~= parts[0]@);
        }
        out.append(parts[i].as_str());
        i += 1;
    }
    assert(texts.take(parts.len() as int) =~= texts);
    out
}

/// Whether `rendered` holds the elements of `list` as `join` writes them: a string as it
/// is, and any other value as some text.
pub open spec fn renders(list: Seq<CelValue>, rendered: Seq<Seq<char>>) -> bool {
    rendered.len() == list.len() && forall|i: int|
        0 <= i < list.len() ==> match (#[trigger] list[i])@ {
            CelView::String(s) => rendered[i] == s,
            _ => true,
        }
}

/// `<list>.join()` and `<list>.join(<string>)`: the elements of the list one after the
/// other, with the argument between each two. A string is written as it is, any other
/// value as the engine writes it for debugging.
pub fn join(this: &Vec<CelValue>, args: &Vec<CelValue>) -> (r: Result<CelValue, FunctionError>)
    ensures
        r matches Ok(v) && exists|rendered: Seq<Seq<char>>| #[trigger]
            renders(this@, rendered) && v@ == CelView::String(
                joined(
                    rendered,
                    match text_argument(args@, 0) {
                        Some(s) => s,
                        None => Seq::empty(),
                    },
                ),
            ),
{
    let separator = match text_argument_of(args, 0) {
        Some(s) => s,
        None => "",
    };
    let mut parts: Vec<String> = Vec::new();
    let mut i: usize = 0;
    while i < this.len()
        invariant
            i <= this.len(),
            parts.len() == i,
            forall|j: int|
                0 <= j < i ==> match (#[trigger] this[j])@ {
                    CelView::String(s) => parts[j]@ == s,
                    _ => true,
                },
        decreases this.len() - i,
    {
        let part = match &this[i] {
            CelValue::String(s) => s.clone(),
            other => debug_text(&to_cel(other)),
        };
        parts.push(part);
        i += 1;
    }
    let out = join_texts(&parts, separator);
    proof {
        reveal_strlit("");
        assert(""@ =~= Seq::<char>::empty());
        assert forall|i: int| 0 <= i < this.len() implies match (#[trigger] this[i])@ {
            CelView::String(s) => texts_view(parts@)[i] == s,
            _ => true,
        } by {}
        assert(renders(this@, texts_view(parts@)));
    }
    Ok(CelValue::String(out))
}

/// How `strings.quote` writes the character `c`: a backslash before a backslash and before
/// a double quote, and `\n`, `\r` and `\t` for a line feed, a carriage return and a tab.
pub open spec fn quoted_char(c: char) -> Seq<char> {
    if c == '\\' {
        seq!['\\', '\\']
    } else if c == '"' {
        seq!['\\', '"']
    } else if c == '\n' {
        seq!['\\', 'n']
    } else if c == '\r' {
        seq!['\\', 'r']
    } else if c == '\t' {
        seq!['\\', 't']
    } else {
        seq![c]
    }
}

/// The characters of `text`, each written as `strings.quote` writes it.
pub open spec fn quoted_chars(text: Seq<char>) -> Seq<char>
    decreases text.len(),
{
    if text.len() == 0 {
        Seq::empty()
    } else {
        quoted_chars(text.drop_last()) + quoted_char(text.last())
    }
}

/// `strings.quote(<string>)`: the string between double quotes, with what would end the
/// quotes or break the line written with a backslash.
pub fn strings_quote(s: &str) -> (r: Result<CelValue, FunctionError>)
    ensures
        r matches Ok(v) && v@ == CelView::String(seq!['"'] + quoted_chars(s@) + seq!['"']),
{
    let chars = chars_of(s);
    let mut out: Vec<char> = Vec::new();
    out.push('"');
    let mut i: usize = 0;
    assert(chars@.take(0) =~= Seq::<char>::empty());
    assert(out@ =~= seq!['"'] + quoted_chars(chars@.take(0)));
    while i < chars.len()
        invariant
            i <= chars.len(),
            out@ == seq!['"'] + quoted_chars(chars@.take(i as int)),
        decreases chars.len() - i,
    {
        let c = chars[i];
        assert(chars@.take(i + 1).drop_last() =~= chars@.take(i as int));
        assert(chars@.take(i + 1).last() == c);
        let ghost before = out@;
        if c == '\\' {
            out.push('\\');
            out.push('\\');
        } else if c == '"' {
            out.push('\\');
            out.push('"');
        } else if c == '\n' {
            out.push('\\');
            out.push('n');
        } else if c == '\r' {
            out.push('\\');
            out.push('r');
        } else if c == '\t' {
            out.push('\\');
            out.push('t');
        } else {
            out.push(c);
        }
        assert(out@ =~= before + quoted_char(c));
        assert(out@ =~= seq!['"'] + quoted_chars(chars@.take(i + 1)));
        i += 1;
    }
    assert(chars@.take(chars.len() as int) =~= chars@);
    let ghost body = out@;
    out.push('"');
    assert(out@ =~= body + seq!['"']);
    Ok(CelValue::String(text_of(&out)))
}

/// The names of the string functions that no other kind of value shares.
pub open spec fn names() -> Set<Seq<char>> {
    set![
        "charAt"@,
        "lowerAscii"@,
        "upperAscii"@,
        "replace"@,
        "split"@,
        "substring"@,
        "trim"@,
        "join"@,
        "strings.quote"@,
    ]
}

/// Adds the string functions that no other kind of value shares, each under its name.
pub fn register(ctx: &mut cel::Context<'_>)
    ensures
        functions_added(*old(ctx), *final(ctx), names()),
{
    add_text_index_method(ctx, "charAt", char_at);
    add_text_method(ctx, "lowerAscii", lower_ascii);
    add_text_method(ctx, "upperAscii", upper_ascii);
    add_text_variadic_method(ctx, "replace", string_replace);
    add_text_variadic_method(ctx, "split", string_split);
    add_text_variadic_method(ctx, "substring", substring);
    add_text_method(ctx, "trim", trim);
    add_list_variadic_method(ctx, "join", join);
    add_text_function(ctx, "strings.quote", strings_quote);
    assert(is_root(*old(ctx)) ==> function_names(*ctx) =~= function_names(*old(ctx)).union(
        names(),
    ));
}

} // verus!
