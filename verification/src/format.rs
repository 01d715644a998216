//! `<string>.format(<list>)`: a format string filled in with the elements of a list.
//!
//! A format string is text with verbs in it. A verb is `%` and a letter, with an optional
//! precision (`.` and digits) between them for `%f` and `%e`. Each verb takes the next
//! element of the list: `%s` writes any value, `%d` an integer in decimal, `%f` and `%e` a
//! number in fixed-point and in scientific notation, `%b` an integer in binary or a boolean,
//! `%o` an integer in octal, `%x` and `%X` an integer, a string or bytes in hexadecimal.
//! `%%` writes a percent sign.

use vstd::prelude::*;
use vstd::string::*;
use crate::engine::{
    add_text_value_method, debug_text, float_display, float_equal, float_fixed, float_is_finite,
    float_scientific, float_truncated, integer_as_float, kind_text_of, to_cel,
};
use crate::model::{CelKey, CelKeyView, CelValue, CelView, FunctionError};
use crate::text::{
    chars_of, concat3, decimal_chars, decimal_string, decimal_text, int_chars, int_text,
    push_char, text_of,
};

verus! {

/// The character that writes the digit `d` in a base up to sixteen, with the letters in
/// upper case if `upper`.
pub open spec fn radix_digit(d: nat, upper: bool) -> char {
    if d < 10 {
        crate::text::digit_char(d)
    } else if d == 10 {
        if upper {
            'A'
        } else {
            'a'
        }
    } else if d == 11 {
        if upper {
            'B'
        } else {
            'b'
        }
    } else if d == 12 {
        if upper {
            'C'
        } else {
            'c'
        }
    } else if d == 13 {
        if upper {
            'D'
        } else {
            'd'
        }
    } else if d == 14 {
        if upper {
            'E'
        } else {
            'e'
        }
    } else {
        if upper {
            'F'
        } else {
            'f'
        }
    }
}

/// The digits of `n` in the base `base`, without leading zeros.
pub open spec fn radix_text(n: nat, base: nat, upper: bool) -> Seq<char>
    recommends
        2 <= base <= 16,
    decreases n,
{
    if base < 2 || n < base {
        seq![radix_digit(n, upper)]
    } else {
        proof {
            vstd::arithmetic::div_mod::lemma_div_decreases(n as int, base as int);
        }
        radix_text(n / base, base, upper).push(radix_digit(n % base, upper))
    }
}

/// The 64 bits of `n`, read as an unsigned number: what a negative number is written as
/// in binary, octal and hexadecimal.
pub open spec fn bits_of(n: i64) -> nat {
    if n < 0 {
        (n + 0x1_0000_0000_0000_0000) as nat
    } else {
        n as nat
    }
}

fn radix_digit_of(d: u8, upper: bool) -> (r: char)
    requires
        d < 16,
    ensures
        r == radix_digit(d as nat, upper),
{
    if d < 10 {
        let digits = decimal_chars(d as u128);
        proof {
            assert(decimal_text(d as nat) =~= seq![crate::text::digit_char(d as nat)]);
        }
        digits[0]
    } else if d == 10 {
        if upper {
            'A'
        } else {
            'a'
        }
    } else if d == 11 {
        if upper {
            'B'
        } else {
            'b'
        }
    } else if d == 12 {
        if upper {
            'C'
        } else {
            'c'
        }
    } else if d == 13 {
        if upper {
            'D'
        } else {
            'd'
        }
    } else if d == 14 {
        if upper {
            'E'
        } else {
            'e'
        }
    } else {
        if upper {
            'F'
        } else {
            'f'
        }
    }
}

/// The digits of `n` in the base `base`.
pub fn radix_chars(n: u64, base: u8, upper: bool) -> (r: Vec<char>)
    requires
        2 <= base <= 16,
    ensures
        r@ == radix_text(n as nat, base as nat, upper),
    decreases n,
{
    if n < base as u64 {
        let mut out: Vec<char> = Vec::new();
        out.push(radix_digit_of(n as u8, upper));
        assert(out@ =~= seq![radix_digit(n as nat, upper)]);
        out
    } else {
        proof {
            vstd::arithmetic::div_mod::lemma_div_decreases(n as int, base as int);
        }
        let mut out = radix_chars(n / base as u64, base, upper);
        out.push(radix_digit_of((n % base as u64) as u8, upper));
        out
    }
}

fn bits(n: i64) -> (r: u64)
    ensures
        r == bits_of(n),
{
    if n < 0 {
        (n as i128 + 0x1_0000_0000_0000_0000i128) as u64
    } else {
        n as u64
    }
}

/// The two hexadecimal digits of each byte of `bytes`, in order.
pub open spec fn hex_bytes(bytes: Seq<u8>, upper: bool) -> Seq<char>
    decreases bytes.len(),
{
    if bytes.len() == 0 {
        Seq::empty()
    } else {
        hex_bytes(bytes.drop_last(), upper).push(
            radix_digit((bytes.last() / 16) as nat, upper),
        ).push(radix_digit((bytes.last() % 16) as nat, upper))
    }
}

fn push_hex_bytes(out: &mut Vec<char>, bytes: &[u8], upper: bool)
    ensures
        final(out)@ == old(out)@ + hex_bytes(bytes@, upper),
{
    let ghost start = out@;
    let mut i: usize = 0;
    assert(bytes@.take(0) =~= Seq::<u8>::empty());
    assert(start + hex_bytes(bytes@.take(0), upper) =~= start);
    while i < bytes.len()
        invariant
            i <= bytes.len(),
            out@ == start + hex_bytes(bytes@.take(i as int), upper),
        decreases bytes.len() - i,
    {
        let b = bytes[i];
        assert(bytes@.take(i + 1).drop_last() =~= bytes@.take(i as int));
        assert(bytes@.take(i + 1).last() == b);
        out.push(radix_digit_of(b / 16, upper));
        out.push(radix_digit_of(b % 16, upper));
        assert(out@ =~= start + hex_bytes(bytes@.take(i + 1), upper));
        i += 1;
    }
    assert(bytes@.take(bytes.len() as int) =~= bytes@);
}

/// How `%s` writes the key of a map entry: a string between double quotes, a number in
/// decimal, a boolean as `true` or `false`.
pub open spec fn key_text(key: CelKeyView) -> Seq<char> {
    match key {
        CelKeyView::String(s) => "\""@ + s + "\""@,
        CelKeyView::Int(n) => int_text(n as int),
        CelKeyView::Uint(n) => decimal_text(n as nat),
        CelKeyView::Bool(b) => if b {
            "true"@
        } else {
            "false"@
        },
    }
}

/// How `%s` writes a value: a string as it is, an integer in decimal, a boolean as `true`
/// or `false`, null as `null`, a list between brackets and a map between braces with
/// their parts as [`quoted_text`] writes them, separated by a comma and a blank. Nothing
/// for a floating-point number and for any other value, nor for a list or a map that
/// holds one.
pub open spec fn plain_text(value: CelView) -> Option<Seq<char>>
    decreases value, 0nat,
{
    match value {
        CelView::String(s) => Some(s),
        CelView::Int(n) => Some(int_text(n as int)),
        CelView::UInt(n) => Some(decimal_text(n as nat)),
        CelView::Bool(b) => Some(
            if b {
                "true"@
            } else {
                "false"@
            },
        ),
        CelView::Null => Some("null"@),
        CelView::List(items) => match items_text(items, items.len()) {
            Some(inner) => Some("["@ + inner + "]"@),
            None => None,
        },
        CelView::Mapping(entries) => match entries_text(entries, entries.len()) {
            Some(inner) => Some("{"@ + inner + "}"@),
            None => None,
        },
        _ => None,
    }
}

/// How `%s` writes a value that stands in a list or a map: a string between double
/// quotes, any other value as [`plain_text`] writes it.
pub open spec fn quoted_text(value: CelView) -> Option<Seq<char>>
    decreases value, 1nat,
{
    match value {
        CelView::String(s) => Some("\""@ + s + "\""@),
        _ => plain_text(value),
    }
}

/// The first `count` elements of a list as `%s` writes them, separated by a comma and a
/// blank.
pub open spec fn items_text(items: Seq<CelView>, count: nat) -> Option<Seq<char>>
    decreases items, count,
{
    if count == 0 || count > items.len() {
        Some(Seq::empty())
    } else {
        match (items_text(items, (count - 1) as nat), quoted_text(items[count - 1])) {
            (Some(before), Some(last)) => Some(
                if count == 1 {
                    last
                } else {
                    before + ", "@ + last
                },
            ),
            _ => None,
        }
    }
}

/// The first `count` entries of a map as `%s` writes them: the key, a colon, a blank and
/// the value, the entries separated by a comma and a blank.
pub open spec fn entries_text(entries: Seq<(CelKeyView, CelView)>, count: nat) -> Option<
    Seq<char>,
>
    decreases entries, count,
{
    if count == 0 || count > entries.len() {
        Some(Seq::empty())
    } else {
        match (
            entries_text(entries, (count - 1) as nat),
            quoted_text(entries[count - 1].1),
        ) {
            (Some(before), Some(last)) => Some(
                if count == 1 {
                    key_text(entries[count - 1].0) + ": "@ + last
                } else {
                    before + ", "@ + key_text(entries[count - 1].0) + ": "@ + last
                },
            ),
            _ => None,
        }
    }
}

/// What a verb writes for a value, where that is a matter of whole numbers, strings and
/// booleans. Nothing for a floating-point number and any other value, which are written as
/// the engine writes them, and nothing where the verb does not take the value.
pub open spec fn exact_rendering(verb: char, value: CelView) -> Option<Seq<char>> {
    if verb == 's' {
        plain_text(value)
    } else if verb == 'd' {
        match value {
            CelView::Int(n) => Some(int_text(n as int)),
            CelView::UInt(n) => Some(decimal_text(n as nat)),
            _ => None,
        }
    } else if verb == 'b' {
        match value {
            CelView::Int(n) => Some(radix_text(bits_of(n), 2, false)),
            CelView::UInt(n) => Some(radix_text(n as nat, 2, false)),
            CelView::Bool(b) => Some(
                if b {
                    "true"@
                } else {
                    "false"@
                },
            ),
            _ => None,
        }
    } else if verb == 'o' {
        match value {
            CelView::Int(n) => Some(radix_text(bits_of(n), 8, false)),
            CelView::UInt(n) => Some(radix_text(n as nat, 8, false)),
            _ => None,
        }
    } else if verb == 'x' || verb == 'X' {
        match value {
            CelView::Int(n) => Some(radix_text(bits_of(n), 16, verb == 'X')),
            CelView::UInt(n) => Some(radix_text(n as nat, 16, verb == 'X')),
            CelView::String(s) => Some(hex_bytes(vstd::utf8::encode_utf8(s), verb == 'X')),
            CelView::Bytes(b) => Some(hex_bytes(b, verb == 'X')),
            _ => None,
        }
    } else {
        None
    }
}

/// Whether the verb `verb` takes the value `value`.
pub open spec fn verb_takes(verb: char, value: CelView) -> bool {
    if verb == 's' {
        true
    } else if verb == 'd' || verb == 'o' {
        value is Int || value is UInt
    } else if verb == 'f' || verb == 'e' {
        value is Float || value is Int || value is UInt
    } else if verb == 'b' {
        value is Int || value is UInt || value is Bool
    } else if verb == 'x' || verb == 'X' {
        value is Int || value is UInt || value is String || value is Bytes
    } else {
        false
    }
}

/// A floating-point number as `%s` writes it: with one decimal where it is whole and
/// finite, else as it is displayed.
fn format_float_default(f: &cel::Value) -> (r: String) {
    if float_equal(f, &float_truncated(f)) && float_is_finite(f) {
        float_fixed(f, 1)
    } else {
        float_display(f)
    }
}

fn push_text(out: &mut Vec<char>, text: &str)
    ensures
        final(out)@ == old(out)@ + text@,
{
    let mut chars = chars_of(text);
    out.append(&mut chars);
}

/// `%s` of a map key.
fn format_key(key: &CelKey, out: &mut Vec<char>)
    ensures
        final(out)@ == old(out)@ + key_text(key@),
{
    let ghost start = out@;
    match key {
        CelKey::String(s) => {
            push_text(out, "\"");
            push_text(out, s.as_str());
            push_text(out, "\"");
            assert(out@ =~= start + ("\""@ + s@ + "\""@));
        },
        CelKey::Int(n) => {
            let mut chars = int_chars(*n as i128);
            out.append(&mut chars);
        },
        CelKey::Uint(n) => {
            let mut chars = decimal_chars(*n as u128);
            out.append(&mut chars);
        },
        CelKey::Bool(b) => {
            push_text(
                out,
                if *b {
                    "true"
                } else {
                    "false"
                },
            );
        },
    }
}

/// `%s` of a value that stands in a list or a map: a string between double quotes, any
/// other value as `%s` writes it.
fn format_s_quoted(val: &CelValue, out: &mut Vec<char>)
    ensures
        quoted_text(val@) matches Some(text) ==> final(out)@ == old(out)@ + text,
    decreases val, 1nat,
{
    let ghost start = out@;
    match val {
        CelValue::String(s) => {
            push_text(out, "\"");
            push_text(out, s.as_str());
            push_text(out, "\"");
            assert(out@ =~= start + ("\""@ + s@ + "\""@));
        },
        _ => format_s(val, out),
    }
}

/// `%s`: any value as text. A list is written between brackets and a map between braces,
/// their parts separated by a comma and a blank.
fn format_s(val: &CelValue, out: &mut Vec<char>)
    ensures
        plain_text(val@) matches Some(text) ==> final(out)@ == old(out)@ + text,
    decreases val, 0nat,
{
    let ghost start = out@;
    match val {
        CelValue::String(s) => {
            push_text(out, s.as_str());
        },
        CelValue::Int(n) => {
            let mut chars = int_chars(*n as i128);
            out.append(&mut chars);
        },
        CelValue::UInt(n) => {
            let mut chars = decimal_chars(*n as u128);
            out.append(&mut chars);
        },
        CelValue::Float(f) => {
            let text = format_float_default(f);
            push_text(out, text.as_str());
        },
        CelValue::Bool(b) => {
            push_text(
                out,
                if *b {
                    "true"
                } else {
                    "false"
                },
            );
        },
        CelValue::Null => {
            push_text(out, "null");
        },
        CelValue::List(list) => {
            proof {
                crate::model::lemma_list_view(*list);
            }
            let ghost items = val@.items();
            push_text(out, "[");
            let mut i: usize = 0;
            assert(out@ =~= start + "["@ + Seq::<char>::empty());
            while i < list.len()
                invariant
                    i <= list.len(),
                    decreases_to!(val => list),
                    items.len() == list.len(),
                    forall|j: int| 0 <= j < list.len() ==> #[trigger] items[j] == list[j]@,
                    items_text(items, i as nat) matches Some(text) ==> out@ == start + "["@
                        + text,
                decreases list.len() - i,
            {
                if i > 0 {
                    push_text(out, ", ");
                }
                proof {
                    vstd::std_specs::vec::axiom_vec_index_decreases(*list, i as int);
                }
                format_s_quoted(&list[i], out);
                proof {
                    assert(items[i as int] == list[i as int]@);
                    match (items_text(items, i as nat), quoted_text(items[i as int])) {
                        (Some(text), Some(last)) => {
                            if i == 0 {
                                assert(text =~= Seq::<char>::empty());
                                assert(out@ =~= start + "["@ + last);
                            } else {
                                assert(out@ =~= start + "["@ + (text + ", "@ + last));
                            }
                        },
                        _ => {},
                    }
                }
                i += 1;
            }
            push_text(out, "]");
            proof {
                match items_text(items, items.len()) {
                    Some(text) => {
                        assert(out@ =~= start + ("["@ + text + "]"@));
                    },
                    None => {},
                }
            }
        },
        CelValue::Mapping(map) => {
            proof {
                crate::model::lemma_map_view(*map);
            }
            let ghost entries = val@.entries();
            push_text(out, "{");
            let mut i: usize = 0;
            assert(out@ =~= start + "{"@ + Seq::<char>::empty());
            while i < map.len()
                invariant
                    i <= map.len(),
                    decreases_to!(val => map),
                    entries.len() == map.len(),
                    forall|j: int|
                        0 <= j < map.len() ==> #[trigger] entries[j] == (map[j].0@, map[j].1@),
                    entries_text(entries, i as nat) matches Some(text) ==> out@ == start + "{"@
                        + text,
                decreases map.len() - i,
            {
                if i > 0 {
                    push_text(out, ", ");
                }
                proof {
                    vstd::std_specs::vec::axiom_vec_index_decreases(*map, i as int);
                }
                format_key(&map[i].0, out);
                push_text(out, ": ");
                format_s_quoted(&map[i].1, out);
                proof {
                    assert(entries[i as int] == (map[i as int].0@, map[i as int].1@));
                    let key = key_text(entries[i as int].0);
                    match (entries_text(entries, i as nat), quoted_text(entries[i as int].1)) {
                        (Some(text), Some(last)) => {
                            if i == 0 {
                                assert(text =~= Seq::<char>::empty());
                                assert(out@ =~= start + "{"@ + (key + ": "@ + last));
                            } else {
                                assert(out@ =~= start + "{"@ + (text + ", "@ + key + ": "@
                                    + last));
                            }
                        },
                        _ => {},
                    }
                }
                i += 1;
            }
            push_text(out, "}");
            proof {
                match entries_text(entries, entries.len()) {
                    Some(text) => {
                        assert(out@ =~= start + ("{"@ + text + "}"@));
                    },
                    None => {},
                }
            }
        },
        other => {
            let text = debug_text(&to_cel(other));
            push_text(out, text.as_str());
        },
    }
}

/// The error of a verb that does not take the kind of value it was given. `wanted` names
/// the kinds that it takes.
fn wrong_argument(verb: &str, wanted: &str, val: &CelValue) -> (r: FunctionError)
    ensures
        r.function@ == "format"@,
{
    let kind = kind_text_of(val);
    let mut message = concat3("%", verb, " requires ");
    message.append(wanted);
    message.append(", got ");
    message.append(kind.as_str());
    FunctionError::new("format", message.as_str())
}

/// `%d`: an integer in decimal.
fn format_d(val: &CelValue, out: &mut Vec<char>) -> (r: Result<(), FunctionError>)
    ensures
        r is Ok <==> verb_takes('d', val@),
        r is Ok ==> final(out)@ == old(out)@ + exact_rendering('d', val@)->Some_0,
        r matches Err(e) ==> e.function@ == "format"@,
{
    match val {
        CelValue::Int(n) => {
            let mut chars = int_chars(*n as i128);
            out.append(&mut chars);
            Ok(())
        },
        CelValue::UInt(n) => {
            let mut chars = decimal_chars(*n as u128);
            out.append(&mut chars);
            Ok(())
        },
        _ => Err(wrong_argument("d", "int or uint", val)),
    }
}

/// `%f`: a number in fixed-point notation.
fn format_f(val: &CelValue, precision: u16, out: &mut Vec<char>) -> (r: Result<
    (),
    FunctionError,
>)
    ensures
        r is Ok <==> verb_takes('f', val@),
        r matches Err(e) ==> e.function@ == "format"@,
{
    match extract_float(val, "f") {
        Ok(number) => {
            let text = float_fixed(&number, precision);
            let mut chars = chars_of(text.as_str());
            out.append(&mut chars);
            Ok(())
        },
        Err(e) => Err(e),
    }
}

/// `%e`: a number in scientific notation.
fn format_e(val: &CelValue, precision: u16, out: &mut Vec<char>) -> (r: Result<
    (),
    FunctionError,
>)
    ensures
        r is Ok <==> verb_takes('e', val@),
        r matches Err(e) ==> e.function@ == "format"@,
{
    match extract_float(val, "e") {
        Ok(number) => {
            let text = float_scientific(&number, precision);
            let mut chars = chars_of(text.as_str());
            out.append(&mut chars);
            Ok(())
        },
        Err(e) => Err(e),
    }
}

/// `%b`: an integer in binary, or a boolean.
fn format_b(val: &CelValue, out: &mut Vec<char>) -> (r: Result<(), FunctionError>)
    ensures
        r is Ok <==> verb_takes('b', val@),
        r is Ok ==> final(out)@ == old(out)@ + exact_rendering('b', val@)->Some_0,
        r matches Err(e) ==> e.function@ == "format"@,
{
    match val {
        CelValue::Int(n) => {
            let mut chars = radix_chars(bits(*n), 2, false);
            out.append(&mut chars);
            Ok(())
        },
        CelValue::UInt(n) => {
            let mut chars = radix_chars(*n, 2, false);
            out.append(&mut chars);
            Ok(())
        },
        CelValue::Bool(b) => {
            let mut chars = chars_of(
                if *b {
                    "true"
                } else {
                    "false"
                },
            );
            out.append(&mut chars);
            Ok(())
        },
        _ => Err(wrong_argument("b", "int, uint, or bool", val)),
    }
}

/// `%o`: an integer in octal.
fn format_o(val: &CelValue, out: &mut Vec<char>) -> (r: Result<(), FunctionError>)
    ensures
        r is Ok <==> verb_takes('o', val@),
        r is Ok ==> final(out)@ == old(out)@ + exact_rendering('o', val@)->Some_0,
        r matches Err(e) ==> e.function@ == "format"@,
{
    match val {
        CelValue::Int(n) => {
            let mut chars = radix_chars(bits(*n), 8, false);
            out.append(&mut chars);
            Ok(())
        },
        CelValue::UInt(n) => {
            let mut chars = radix_chars(*n, 8, false);
            out.append(&mut chars);
            Ok(())
        },
        _ => Err(wrong_argument("o", "int or uint", val)),
    }
}

/// `%x` and `%X`: an integer in hexadecimal, or the bytes of a string or of a byte string
/// with two hexadecimal digits each.
fn format_hex(val: &CelValue, upper: bool, out: &mut Vec<char>) -> (r: Result<(), FunctionError>)
    ensures
        r is Ok <==> verb_takes('x', val@),
        r is Ok ==> final(out)@ == old(out)@ + exact_rendering(
            if upper {
                'X'
            } else {
                'x'
            },
            val@,
        )->Some_0,
        r matches Err(e) ==> e.function@ == "format"@,
{
    match val {
        CelValue::Int(n) => {
            let mut chars = radix_chars(bits(*n), 16, upper);
            out.append(&mut chars);
            Ok(())
        },
        CelValue::UInt(n) => {
            let mut chars = radix_chars(*n, 16, upper);
            out.append(&mut chars);
            Ok(())
        },
        CelValue::String(s) => {
            push_hex_bytes(out, s.as_str().as_bytes(), upper);
            Ok(())
        },
        CelValue::Bytes(b) => {
            push_hex_bytes(out, b.as_slice(), upper);
            Ok(())
        },
        _ => Err(wrong_argument("x", "int, uint, string, or bytes", val)),
    }
}

/// The number that `%f` and `%e` write: the value itself, where it is a floating-point
/// number or an integer.
fn extract_float(val: &CelValue, verb: &str) -> (r: Result<cel::Value, FunctionError>)
    ensures
        r is Ok <==> val@ is Float || val@ is Int || val@ is UInt,
        r matches Err(e) ==> e.function@ == "format"@,
{
    match val {
        CelValue::Float(f) => Ok(f.clone()),
        CelValue::Int(_) => Ok(integer_as_float(&to_cel(val))),
        CelValue::UInt(_) => Ok(integer_as_float(&to_cel(val))),
        _ => Err(wrong_argument(verb, "float, int, or uint", val)),
    }
}


/// One piece of a format string, by the positions of its characters.
pub enum Token {
    /// The character at `at`, written as it is. For `%%` that is the second `%`.
    Literal { at: int },
    /// A verb, with its precision if it has one; its letter stands at `at`.
    Verb { precision: Option<nat>, at: int },
    /// A `%` at the end of the format string.
    DanglingPercent,
    /// A `.` that no digits follow, or a precision above 65535, the most that a number
    /// can be formatted with.
    BadPrecision,
    /// A precision at the end of the format string.
    DanglingPrecision,
}

/// Where the digits that start at `from` end.
pub open spec fn digits_end(s: Seq<char>, from: int) -> int
    decreases s.len() - from,
{
    if 0 <= from < s.len() && crate::duration::is_digit(s[from]) {
        digits_end(s, from + 1)
    } else {
        from
    }
}

/// The piece of the format string `fmt` that starts at `at`, and where the next one
/// starts.
pub open spec fn token_at(fmt: Seq<char>, at: int) -> (Token, int) {
    if fmt[at] != '%' {
        (Token::Literal { at }, at + 1)
    } else if at + 1 >= fmt.len() {
        (Token::DanglingPercent, at + 1)
    } else if fmt[at + 1] == '%' {
        (Token::Literal { at: at + 1 }, at + 2)
    } else if fmt[at + 1] == '.' {
        let end = digits_end(fmt, at + 2);
        let digits = fmt.subrange(at + 2, end);
        if end <= at + 2 || crate::duration::decimal_value(digits) > u16::MAX {
            (Token::BadPrecision, end)
        } else if end >= fmt.len() {
            (Token::DanglingPrecision, end)
        } else {
            (
                Token::Verb { precision: Some(crate::duration::decimal_value(digits)), at: end },
                end + 1,
            )
        }
    } else {
        (Token::Verb { precision: None, at: at + 1 }, at + 2)
    }
}

/// Whether a piece is a character or a verb, and not something broken.
pub open spec fn is_sound(token: Token) -> bool {
    token is Literal || token is Verb
}

/// The pieces of the format string `fmt` from `at` on, up to its end or to the first piece
/// that is broken; at most `steps` of them, which is all of them where `steps` is no less
/// than the number of characters from `at` on.
pub open spec fn tokens_from(fmt: Seq<char>, at: int, steps: nat) -> Seq<Token>
    decreases steps,
{
    if at < 0 || at >= fmt.len() || steps == 0 {
        Seq::empty()
    } else if !is_sound(token_at(fmt, at).0) {
        Seq::empty().push(token_at(fmt, at).0)
    } else {
        Seq::empty().push(token_at(fmt, at).0) + tokens_from(
            fmt,
            token_at(fmt, at).1,
            (steps - 1) as nat,
        )
    }
}

/// The pieces of the format string `fmt`.
pub open spec fn tokens_of(fmt: Seq<char>) -> Seq<Token> {
    tokens_from(fmt, 0, fmt.len())
}

/// What the first `count` pieces of the format string `fmt` write with the values `args`:
/// the text, how many values were taken, and whether the text is exact. The text is exact
/// where every value taken so far is written as a matter of whole numbers, strings and
/// booleans; where a floating-point number or a value of another kind was written, alone
/// or in a list or a map, nothing is said of the text. Nothing where a piece is broken, a verb finds no value
/// left, or a verb does not take the value it finds.
pub open spec fn formatted(
    fmt: Seq<char>,
    tokens: Seq<Token>,
    count: nat,
    args: Seq<CelValue>,
) -> Option<(Seq<char>, nat, bool)>
    decreases count,
{
    if count == 0 || count > tokens.len() {
        Some((Seq::<char>::empty(), 0nat, true))
    } else {
        match formatted(fmt, tokens, (count - 1) as nat, args) {
            None => None,
            Some((text, used, exact)) => match tokens[count - 1] {
                Token::Literal { at } => Some((text + fmt.subrange(at, at + 1), used, exact)),
                Token::Verb { precision, at } => if used >= args.len() || !verb_takes(
                    fmt[at],
                    args[used as int]@,
                ) {
                    None
                } else {
                    match exact_rendering(fmt[at], args[used as int]@) {
                        Some(piece) => Some((text + piece, used + 1, exact)),
                        None => Some((text, used + 1, false)),
                    }
                },
                _ => None,
            },
        }
    }
}

/// One piece of a format string, as the formatter holds it.
pub enum Piece {
    Literal { at: usize },
    Verb { precision: Option<u16>, at: usize },
    DanglingPercent,
    BadPrecision,
    DanglingPrecision,
}

impl View for Piece {
    type V = Token;

    open spec fn view(&self) -> Token {
        match self {
            Piece::Literal { at } => Token::Literal { at: *at as int },
            Piece::Verb { precision, at } => Token::Verb {
                precision: match precision {
                    Some(p) => Some(*p as nat),
                    None => None,
                },
                at: *at as int,
            },
            Piece::DanglingPercent => Token::DanglingPercent,
            Piece::BadPrecision => Token::BadPrecision,
            Piece::DanglingPrecision => Token::DanglingPrecision,
        }
    }
}

/// The views of a list of pieces.
pub open spec fn pieces_view(pieces: Seq<Piece>) -> Seq<Token> {
    Seq::new(pieces.len(), |i: int| pieces[i]@)
}

/// A failure among the first pieces is a failure of all.
proof fn lemma_formatted_fails_on(
    fmt: Seq<char>,
    tokens: Seq<Token>,
    count: nat,
    all: nat,
    args: Seq<CelValue>,
)
    requires
        count <= all <= tokens.len(),
        formatted(fmt, tokens, count, args) is None,
    ensures
        formatted(fmt, tokens, all, args) is None,
    decreases all - count,
{
    if count < all {
        lemma_formatted_fails_on(fmt, tokens, count, (all - 1) as nat, args);
    }
}

fn push_piece(out: &mut Vec<Piece>, piece: Piece)
    ensures
        pieces_view(final(out)@) == pieces_view(old(out)@).push(piece@),
{
    out.push(piece);
    assert(pieces_view(out@) =~= pieces_view(old(out)@).push(piece@));
}

/// The precision that stands at `start`: where its digits end, and the number they write
/// if a machine word holds it.
fn read_precision(fmt: &Vec<char>, start: usize) -> (r: (usize, Option<usize>))
    requires
        start <= fmt.len(),
    ensures
        r.0 == digits_end(fmt@, start as int),
        start <= r.0 <= fmt.len(),
        match r.1 {
            Some(p) => p == crate::duration::decimal_value(fmt@.subrange(start as int, r.0 as int)),
            None => crate::duration::decimal_value(fmt@.subrange(start as int, r.0 as int))
                > usize::MAX,
        },
{
    let mut end = start;
    let mut value: usize = 0;
    let mut overflow = false;
    assert(fmt@.subrange(start as int, start as int) =~= Seq::<char>::empty());
    while end < fmt.len() && '0' <= fmt[end] && fmt[end] <= '9'
        invariant
            start <= end <= fmt.len(),
            digits_end(fmt@, start as int) == digits_end(fmt@, end as int),
            overflow ==> crate::duration::decimal_value(fmt@.subrange(start as int, end as int))
                > usize::MAX,
            !overflow ==> value == crate::duration::decimal_value(
                fmt@.subrange(start as int, end as int),
            ),
        decreases fmt.len() - end,
    {
        let ghost digits = fmt@.subrange(start as int, end as int);
        let ghost more = fmt@.subrange(start as int, end + 1);
        assert(more.drop_last() =~= digits);
        assert(more.last() == fmt[end as int]);
        let d = (fmt[end] as u32 - '0' as u32) as usize;
        if !overflow {
            match value.checked_mul(10) {
                Some(tens) => match tens.checked_add(d) {
                    Some(next) => {
                        value = next;
                    },
                    None => {
                        overflow = true;
                    },
                },
                None => {
                    overflow = true;
                },
            }
        }
        end += 1;
    }
    if overflow {
        (end, None)
    } else {
        (end, Some(value))
    }
}

/// The piece that starts at `at`, and where the next one starts.
fn read_piece(fmt: &Vec<char>, at: usize) -> (r: (Piece, usize))
    requires
        at < fmt.len(),
    ensures
        r.0@ == token_at(fmt@, at as int).0,
        r.1 == token_at(fmt@, at as int).1,
        at < r.1 <= fmt.len(),
        r.0@ matches Token::Literal { at: place } ==> 0 <= place < fmt.len(),
        r.0@ matches Token::Verb { precision, at: place } ==> 0 <= place < fmt.len(),
{
    if fmt[at] != '%' {
        (Piece::Literal { at }, at + 1)
    } else if fmt.len() - at < 2 {
        (Piece::DanglingPercent, at + 1)
    } else if fmt[at + 1] == '%' {
        (Piece::Literal { at: at + 1 }, at + 2)
    } else if fmt[at + 1] == '.' {
        let (end, precision) = read_precision(fmt, at + 2);
        match precision {
            None => (Piece::BadPrecision, end),
            Some(value) => if end == at + 2 || value > 65535 {
                (Piece::BadPrecision, end)
            } else if end >= fmt.len() {
                (Piece::DanglingPrecision, end)
            } else {
                (Piece::Verb { precision: Some(value as u16), at: end }, end + 1)
            },
        }
    } else {
        (Piece::Verb { precision: None, at: at + 1 }, at + 2)
    }
}

/// Whether every character and verb of `tokens` stands within the first `len` positions.
pub open spec fn in_range(tokens: Seq<Token>, len: nat) -> bool {
    forall|i: int|
        0 <= i < tokens.len() ==> match #[trigger] tokens[i] {
            Token::Literal { at } => 0 <= at < len,
            Token::Verb { precision, at } => 0 <= at < len,
            _ => true,
        }
}

/// More steps than there are characters left find no more pieces.
proof fn lemma_tokens_steps(fmt: Seq<char>, at: int, steps: nat, more: nat)
    requires
        0 <= at <= fmt.len(),
        fmt.len() - at <= steps <= more,
    ensures
        tokens_from(fmt, at, steps) == tokens_from(fmt, at, more),
    decreases steps,
{
    if at < fmt.len() && steps > 0 && is_sound(token_at(fmt, at).0) {
        let next = token_at(fmt, at).1;
        lemma_digits_end(fmt, at + 2);
        lemma_tokens_steps(fmt, next, (steps - 1) as nat, (more - 1) as nat);
    }
}

/// The digits that start at a position end at or after it, within the text.
proof fn lemma_digits_end(s: Seq<char>, from: int)
    requires
        0 <= from,
    ensures
        from <= digits_end(s, from),
        from <= s.len() ==> digits_end(s, from) <= s.len(),
    decreases s.len() - from,
{
    if from < s.len() && crate::duration::is_digit(s[from]) {
        lemma_digits_end(s, from + 1);
    }
}

/// Cuts a format string into its pieces.
fn tokenize(fmt: &Vec<char>) -> (r: Vec<Piece>)
    ensures
        pieces_view(r@) == tokens_of(fmt@),
        in_range(pieces_view(r@), fmt@.len()),
{
    let mut out: Vec<Piece> = Vec::new();
    let mut i: usize = 0;
    assert(pieces_view(out@) + tokens_of(fmt@) =~= tokens_of(fmt@));
    while i < fmt.len()
        invariant
            i <= fmt.len(),
            in_range(pieces_view(out@), fmt@.len()),
            tokens_of(fmt@) == pieces_view(out@) + tokens_from(
                fmt@,
                i as int,
                (fmt.len() - i) as nat,
            ),
        decreases fmt.len() - i,
    {
        let ghost before = pieces_view(out@);
        let ghost rest = tokens_from(fmt@, i as int, (fmt.len() - i) as nat);
        let (piece, next) = read_piece(fmt, i);
        let ghost token = piece@;
        let sound = match &piece {
            Piece::Literal { .. } => true,
            Piece::Verb { .. } => true,
            _ => false,
        };
        push_piece(&mut out, piece);
        assert forall|k: int| 0 <= k < pieces_view(out@).len() implies match #[trigger] pieces_view(
            out@,
        )[k] {
            Token::Literal { at } => 0 <= at < fmt@.len(),
            Token::Verb { precision, at } => 0 <= at < fmt@.len(),
            _ => true,
        } by {
            if k < before.len() {
                assert(pieces_view(out@)[k] == before[k]);
            }
        }
        if !sound {
            assert(rest =~= Seq::<Token>::empty().push(token));
            assert(pieces_view(out@) =~= before + rest);
            return out;
        }
        proof {
            lemma_tokens_steps(fmt@, next as int, (fmt.len() - next) as nat, (fmt.len() - i - 1) as nat);
            assert(rest =~= Seq::<Token>::empty().push(token) + tokens_from(
                fmt@,
                next as int,
                (fmt.len() - next) as nat,
            ));
            assert(before + rest =~= pieces_view(out@) + tokens_from(
                fmt@,
                next as int,
                (fmt.len() - next) as nat,
            ));
        }
        i = next;
    }
    assert(pieces_view(out@) + tokens_from(fmt@, fmt.len() as int, 0) =~= pieces_view(out@));
    out
}

/// `<string>.format(<list>)`: the format string with each verb replaced by the next
/// element of the list, written as the verb says.
///
/// Fails where the argument is no list, a piece of the format string is broken, a verb
/// finds no element left, or a verb does not take the element that it finds.
pub fn format_string(fmt: &str, args: &CelValue) -> (r: Result<CelValue, FunctionError>)
    ensures
        !(args@ is List) ==> (r matches Err(e) && e.says(
            "format"@,
            "format() requires a list argument"@,
        )),
        args matches CelValue::List(list) ==> match r {
            Ok(v) => match formatted(fmt@, tokens_of(fmt@), tokens_of(fmt@).len(), list@) {
                Some(x) => v@ is String && (x.2 ==> v@ == CelView::String(x.0)),
                None => false,
            },
            Err(e) => formatted(fmt@, tokens_of(fmt@), tokens_of(fmt@).len(), list@) is None
                && e.function@ == "format"@,
        },
{
    let list = match args {
        CelValue::List(list) => list,
        _ => {
            return Err(FunctionError::new("format", "format() requires a list argument"));
        },
    };
    let chars = chars_of(fmt);
    let pieces = tokenize(&chars);
    let ghost tokens = tokens_of(fmt@);
    let mut out: Vec<char> = Vec::new();
    let mut used: usize = 0;
    let ghost mut exact = true;
    let mut n: usize = 0;
    while n < pieces.len()
        invariant
            n <= pieces.len(),
            used <= list.len(),
            chars@ == fmt@,
            tokens == pieces_view(pieces@),
            tokens == tokens_of(fmt@),
            in_range(tokens, fmt@.len()),
            args == CelValue::List(*list),
            formatted(fmt@, tokens, n as nat, list@) == Some((
                formatted(fmt@, tokens, n as nat, list@)->Some_0.0,
                used as nat,
                exact,
            )),
            exact ==> out@ == formatted(fmt@, tokens, n as nat, list@)->Some_0.0,
        decreases pieces.len() - n,
    {
        assert(tokens[n as int] == pieces[n as int]@);
        let ghost before = out@;
        match &pieces[n] {
            Piece::Literal { at } => {
                out.push(chars[*at]);
                assert(out@ =~= before + fmt@.subrange(*at as int, *at + 1));
            },
            Piece::Verb { precision, at } => {
                if used >= list.len() {
                    proof {
                        lemma_formatted_fails_on(
                            fmt@,
                            tokens,
                            (n + 1) as nat,
                            tokens.len(),
                            list@,
                        );
                    }
                    let asked = decimal_string(used as u128 + 1);
                    let got = decimal_string(list.len() as u128);
                    let mut message = concat3(
                        "not enough arguments: format requires at least ",
                        asked.as_str(),
                        " but got ",
                    );
                    message.append(got.as_str());
                    return Err(FunctionError::new("format", message.as_str()));
                }
                let verb = chars[*at];
                let arg = &list[used];
                let digits = match precision {
                    Some(p) => *p,
                    None => 6,
                };
                let done = if verb == 's' {
                    format_s(arg, &mut out);
                    Ok(())
                } else if verb == 'd' {
                    format_d(arg, &mut out)
                } else if verb == 'f' {
                    format_f(arg, digits, &mut out)
                } else if verb == 'e' {
                    format_e(arg, digits, &mut out)
                } else if verb == 'b' {
                    format_b(arg, &mut out)
                } else if verb == 'o' {
                    format_o(arg, &mut out)
                } else if verb == 'x' {
                    format_hex(arg, false, &mut out)
                } else if verb == 'X' {
                    format_hex(arg, true, &mut out)
                } else {
                    let mut name = String::new();
                    push_char(&mut name, verb);
                    Err(
                        FunctionError::new(
                            "format",
                            concat3("unknown format verb '%", name.as_str(), "'").as_str(),
                        ),
                    )
                };
                match done {
                    Ok(()) => {},
                    Err(e) => {
                        proof {
                            lemma_formatted_fails_on(
                                fmt@,
                                tokens,
                                (n + 1) as nat,
                                tokens.len(),
                                list@,
                            );
                        }
                        return Err(e);
                    },
                }
                proof {
                    if exact_rendering(verb, arg@) is None {
                        exact = false;
                    }
                }
                used += 1;
            },
            Piece::DanglingPercent => {
                proof {
                    lemma_formatted_fails_on(fmt@, tokens, (n + 1) as nat, tokens.len(), list@);
                }
                return Err(FunctionError::new("format", "format string ends with '%'"));
            },
            Piece::BadPrecision => {
                proof {
                    lemma_formatted_fails_on(fmt@, tokens, (n + 1) as nat, tokens.len(), list@);
                }
                return Err(FunctionError::new("format", "invalid precision in format string"));
            },
            Piece::DanglingPrecision => {
                proof {
                    lemma_formatted_fails_on(fmt@, tokens, (n + 1) as nat, tokens.len(), list@);
                }
                return Err(FunctionError::new("format", "format string ends after precision"));
            },
        }
        n += 1;
    }
    Ok(CelValue::String(text_of(&out)))
}

/// The names of the formatting function.
pub open spec fn names() -> Set<Seq<char>> {
    set![
        "format"@,
    ]
}

/// Adds `format`.
pub fn register(ctx: &mut cel::Context<'_>)
    ensures
        crate::engine::functions_added(*old(ctx), *final(ctx), names()),
{
    add_text_value_method(ctx, "format", format_string);
    assert(crate::engine::is_root(*old(ctx)) ==> crate::engine::function_names(*ctx)
        =~= crate::engine::function_names(*old(ctx)).union(names()));
}

} // verus!
