//! The paths that accesses in the source stand for.
//!
//! An offset in a path only moves an address; every access that touches memory ends in the
//! dereference field, so `a[3]` is the path `a.[3].deref`. Splitting the offset from the
//! dereference makes element addresses composable: `&a[1]` is the address `a.[1]`.

use vstd::prelude::*;
use crate::mir::{AccessPath, AddressView, Exp, ExpView, PathSegment, PathView, RawPath, SegmentView, VariableRef};
use crate::text::{chars_of, joined, same, trim, trimmed};

verus! {

broadcast use crate::collections::group_views;

/// The field that is the memory at an address.
pub open spec fn deref_segment() -> SegmentView {
    SegmentView::Symbol("deref"@)
}

/// The field that all members of a union variable share.
pub open spec fn union_segment() -> SegmentView {
    SegmentView::Symbol("$union"@)
}

/// The dereference field.
pub fn deref_field() -> (s: PathSegment)
    ensures
        s@ == deref_segment(),
{
    PathSegment::symbol("deref")
}

/// The field that all members of a union variable share.
pub fn union_field() -> (s: PathSegment)
    ensures
        s@ == union_segment(),
{
    PathSegment::symbol("$union")
}

/// The path of the object at a constant address: a field of the globals object, named by the
/// text of the constant, so that two uses of one constant name one object.
pub open spec fn literal_address(constant: Seq<char>) -> PathView {
    PathView {
        base: VariableRef::Global,
        fields: seq![SegmentView::Symbol("<address "@ + constant + ">"@)],
    }
}

/// The path of the object at a constant address.
pub fn literal_address_path(constant: &str) -> (p: RawPath)
    ensures
        p@ == literal_address(constant@),
{
    let mut name = joined("<address ", constant);
    name.append(">");
    let mut p = RawPath::of(VariableRef::Global);
    p.push(PathSegment::Symbol(name));
    assert(p@.fields =~= literal_address(constant@).fields);
    p
}

/// Whether a segment is the dereference field.
pub fn is_deref_field(seg: &PathSegment) -> (b: bool)
    ensures
        b == (seg@ == deref_segment()),
{
    match seg {
        PathSegment::Symbol(s) => same(s.as_str(), "deref"),
        PathSegment::Offset(_) => false,
    }
}

// Integer constants

/// What a digit is worth in base `radix`.
pub open spec fn digit_value(c: char, radix: nat) -> Option<nat> {
    let v = if '0' <= c && c <= '9' {
        Some((c as int - '0' as int) as nat)
    } else if 'a' <= c && c <= 'z' {
        Some((10 + (c as int - 'a' as int)) as nat)
    } else if 'A' <= c && c <= 'Z' {
        Some((10 + (c as int - 'A' as int)) as nat)
    } else {
        None
    };
    if v is Some && v->0 < radix {
        v
    } else {
        None
    }
}

/// Whether every character is a digit in base `radix`.
pub open spec fn all_digits(s: Seq<char>, radix: nat) -> bool {
    forall|i: int| 0 <= i < s.len() ==> digit_value(#[trigger] s[i], radix) is Some
}

/// What the digits `s` are worth in base `radix`.
pub open spec fn digits_value(s: Seq<char>, radix: nat) -> nat
    decreases s.len(),
{
    if s.len() == 0 {
        0
    } else {
        digits_value(s.drop_last(), radix) * radix + digit_value(s.last(), radix)->0
    }
}

/// The integer that `s` spells in base `radix`: digits, with at most one sign before them, for a
/// value that a 64-bit integer can hold.
pub open spec fn parsed(s: Seq<char>, radix: nat) -> Option<i64> {
    let signed = s.len() > 0 && (s[0] == '-' || s[0] == '+');
    let digits = if signed {
        s.skip(1)
    } else {
        s
    };
    let value = if s.len() > 0 && s[0] == '-' {
        -digits_value(digits, radix)
    } else {
        digits_value(digits, radix) as int
    };
    if digits.len() > 0 && all_digits(digits, radix) && i64::MIN <= value <= i64::MAX {
        Some(value as i64)
    } else {
        None
    }
}

/// Whether `c` is a letter of an integer suffix.
pub open spec fn suffix_char(c: char) -> bool {
    c == 'u' || c == 'U' || c == 'l' || c == 'L'
}

/// `s` without its integer suffix.
pub open spec fn without_suffix(s: Seq<char>) -> Seq<char>
    decreases s.len(),
{
    if s.len() > 0 && suffix_char(s.last()) {
        without_suffix(s.drop_last())
    } else {
        s
    }
}

/// The integer that a constant spells in C, where it spells one.
pub open spec fn constant_text_index(text: Seq<char>) -> Option<i64> {
    let digits = without_suffix(trimmed(text));
    if digits.len() > 0 && (digits[0] == '-' || digits[0] == '+') {
        parsed(digits, 10)
    } else if digits.len() >= 2 && digits[0] == '0' && (digits[1] == 'x' || digits[1] == 'X') {
        parsed(digits.skip(2), 16)
    } else if digits.len() >= 2 && digits[0] == '0' && (digits[1] == 'b' || digits[1] == 'B') {
        parsed(digits.skip(2), 2)
    } else {
        parsed(digits, 10)
    }
}

/// The compile-time value of a lowered subscript index, if it has one.
pub open spec fn index_value(e: ExpView) -> Option<i64> {
    match e {
        ExpView::Str(text) => constant_text_index(text),
        _ => None,
    }
}

fn digit_of(c: char, radix: u32) -> (d: Option<u32>)
    ensures
        match d {
            Some(d) => digit_value(c, radix as nat) == Some(d as nat),
            None => digit_value(c, radix as nat) is None,
        },
{
    let d: u32 = if '0' <= c && c <= '9' {
        c as u32 - '0' as u32
    } else if 'a' <= c && c <= 'z' {
        10 + (c as u32 - 'a' as u32)
    } else if 'A' <= c && c <= 'Z' {
        10 + (c as u32 - 'A' as u32)
    } else {
        return None;
    };
    if d < radix {
        Some(d)
    } else {
        None
    }
}

/// Reads the integer that `chars` spells from position `from` on, in base `radix`.
#[verifier::loop_isolation(false)]
fn parse_from(chars: &Vec<char>, from: usize, radix: u32) -> (n: Option<i64>)
    requires
        from <= chars@.len(),
        2 <= radix <= 16,
    ensures
        n == parsed(chars@.skip(from as int), radix as nat),
{
    let ghost s = chars@.skip(from as int);
    let negative = from < chars.len() && chars[from] == '-';
    let signed = from < chars.len() && (chars[from] == '-' || chars[from] == '+');
    let first: usize = if signed {
        from + 1
    } else {
        from
    };
    let ghost digits = chars@.skip(first as int);
    proof {
        if signed {
            assert(s.skip(1) =~= digits);
        }
    }
    if first >= chars.len() {
        return None;
    }
    let mut i: usize = first;
    let mut acc: u128 = 0;
    // Set once the value is beyond what can be held; more digits only make it larger.
    let mut big = false;
    while i < chars.len()
        invariant
            first <= i <= chars@.len(),
            2 <= radix <= 16,
            digits == chars@.skip(first as int),
            all_digits(digits.take(i - first), radix as nat),
            acc <= 0x8000_0000_0000_0000u128,
            !big ==> acc == digits_value(digits.take(i - first), radix as nat),
            big ==> digits_value(digits.take(i - first), radix as nat) > 0x8000_0000_0000_0000,
        decreases chars@.len() - i,
    {
        let d = match digit_of(chars[i], radix) {
            Some(d) => d,
            None => {
                assert(digits[i - first] == chars@[i as int]);
                assert(!all_digits(digits, radix as nat));
                return None;
            },
        };
        let ghost before = digits.take(i - first);
        let ghost after = digits.take(i - first + 1);
        proof {
            assert(after.drop_last() =~= before);
            assert(after.last() == chars@[i as int]);
            assert(digits_value(after, radix as nat) == digits_value(before, radix as nat)
                * (radix as nat) + d as nat);
            assert(digits_value(before, radix as nat) * (radix as nat) >= digits_value(
                before,
                radix as nat,
            )) by (nonlinear_arith)
                requires
                    radix >= 2,
            ;
            assert forall|j: int| 0 <= j < after.len() implies digit_value(
                #[trigger] after[j],
                radix as nat,
            ) is Some by {
                if j < before.len() {
                    assert(after[j] == before[j]);
                }
            }
        }
        if !big {
            assert(acc * radix <= 0x8000_0000_0000_0000u128 * 16) by (nonlinear_arith)
                requires
                    acc <= 0x8000_0000_0000_0000u128,
                    radix <= 16,
            ;
            let next: u128 = acc * (radix as u128) + d as u128;
            if next > 0x8000_0000_0000_0000u128 {
                big = true;
            } else {
                acc = next;
            }
        }
        i = i + 1;
    }
    assert(digits.take(i - first) =~= digits);
    if big {
        return None;
    }
    if negative {
        Some((0 - acc as i128) as i64)
    } else if acc == 0x8000_0000_0000_0000u128 {
        None
    } else {
        Some(acc as i64)
    }
}

/// The compile-time value of a lowered subscript index, if it has one. Every constant is lowered
/// to its source text, so this is where `a[0x10]`, `a[3u]` and `a[3]` become offsets.
pub fn constant_index(exp: &Exp) -> (n: Option<i64>)
    ensures
        n == index_value(exp@),
{
    match exp {
        Exp::Str(text) => constant_index_text(text.as_str()),
        _ => None,
    }
}

/// The integer that a constant spells in C, where it spells one.
pub fn constant_index_text(text: &str) -> (n: Option<i64>)
    ensures
        n == constant_text_index(text@),
{
    let t = trim(text);
    let mut chars = chars_of(t.as_str());
    while chars.len() > 0 && (chars[chars.len() - 1] == 'u' || chars[chars.len() - 1] == 'U'
        || chars[chars.len() - 1] == 'l' || chars[chars.len() - 1] == 'L')
        invariant
            without_suffix(chars@) == without_suffix(trimmed(text@)),
        decreases chars@.len(),
    {
        chars.pop();
    }
    assert(chars@ == without_suffix(trimmed(text@)));
    assert(chars@.skip(0) =~= chars@);
    if chars.len() > 0 && (chars[0] == '-' || chars[0] == '+') {
        parse_from(&chars, 0, 10)
    } else if chars.len() >= 2 && chars[0] == '0' && (chars[1] == 'x' || chars[1] == 'X') {
        parse_from(&chars, 2, 16)
    } else if chars.len() >= 2 && chars[0] == '0' && (chars[1] == 'b' || chars[1] == 'B') {
        parse_from(&chars, 2, 2)
    } else {
        parse_from(&chars, 0, 10)
    }
}

/// An integer constant means the same offset with a suffix and without one.
pub proof fn a_suffix_changes_no_index(text: Seq<char>, c: char)
    requires
        suffix_char(c),
        trimmed(text) == text,
        trimmed(text.push(c)) == text.push(c),
    ensures
        constant_text_index(text.push(c)) == constant_text_index(text),
{
    assert(text.push(c).drop_last() =~= text);
}

// Elements

/// The segments a subscript contributes: an offset for a constant index other than zero, and the
/// dereference performed there.
pub open spec fn element(index: Option<i64>) -> Seq<SegmentView> {
    match index {
        Some(n) => if n != 0 {
            seq![SegmentView::Offset(n), deref_segment()]
        } else {
            seq![deref_segment()]
        },
        None => seq![deref_segment()],
    }
}

/// Adds the segments a subscript contributes.
pub fn push_element(path: &mut RawPath, index: Option<i64>)
    ensures
        final(path)@ == (PathView { base: old(path)@.base, fields: old(path)@.fields + element(index) }),
{
    let ghost before = path@;
    match index {
        Some(n) => {
            if n != 0 {
                path.push(PathSegment::Offset(n));
            }
        },
        None => {},
    }
    path.push(deref_field());
    assert(path@.fields =~= before.fields + element(index));
}

/// A subscript without a constant index is the same location as element zero, and as a plain
/// dereference.
pub proof fn an_unknown_index_is_element_zero()
    ensures
        element(None) == element(Some(0)),
        element(None) == seq![deref_segment()],
{
}

/// Elements at different constant indices are different locations.
pub proof fn different_elements_are_apart(m: i64, n: i64)
    requires
        m != n,
    ensures
        element(Some(m)) != element(Some(n)),
{
    if m != 0 && n != 0 {
        assert(element(Some(m))[0] != element(Some(n))[0]);
    } else if m == 0 {
        assert(element(Some(m)).len() != element(Some(n)).len());
    } else {
        assert(element(Some(m)).len() != element(Some(n)).len());
    }
}

/// The offsets of an address, as segments.
pub open spec fn offset_segments(offsets: Seq<i64>) -> Seq<SegmentView> {
    offsets.map_values(|n: i64| SegmentView::Offset(n))
}

/// The location that a dereference of a pointer to `pointee` names; `None` for a whole variable,
/// which is modelled as the variable itself.
pub open spec fn pointee_location(pointee: AddressView) -> Option<PathView> {
    if pointee.offsets.len() == 0 {
        None
    } else {
        Some(
            PathView {
                base: pointee.base,
                fields: offset_segments(pointee.offsets).push(deref_segment()),
            },
        )
    }
}

/// The location that a dereference of a pointer to `pointee` names.
pub fn deref_of_pointee(pointee: &AccessPath) -> (p: Option<RawPath>)
    ensures
        match p {
            Some(p) => pointee_location(pointee@) == Some(p@),
            None => pointee_location(pointee@) is None,
        },
{
    if pointee.offsets.len() == 0 {
        return None;
    }
    let mut p = RawPath::of(pointee.variable_ref);
    let mut i: usize = 0;
    while i < pointee.offsets.len()
        invariant
            i <= pointee.offsets@.len(),
            p@.base == pointee.variable_ref,
            p@.fields == offset_segments(pointee.offsets@.take(i as int)),
        decreases pointee.offsets@.len() - i,
    {
        p.push(PathSegment::Offset(pointee.offsets[i]));
        i = i + 1;
        assert(p@.fields =~= offset_segments(pointee.offsets@.take(i as int)));
    }
    assert(pointee.offsets@.take(i as int) =~= pointee.offsets@);
    p.push(deref_field());
    Some(p)
}

} // verus!
