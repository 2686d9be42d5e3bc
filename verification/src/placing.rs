//! Which places are read and written.
//!
//! The laws below say which place an access in the source names, and where the values in the braces
//! of an initializer go: an element is written where a subscript of its index reads it.

use vstd::prelude::*;
use crate::carries::placed;
use crate::error::ErrorView;
use crate::kinds::{Field, Kind};
use crate::lowering::{address_of, braced, dereferenced, elements, expr, initializer, location, pointer, without_close, without_open};
use crate::mir::{AddressView, ExpView, PathView, SegmentView, VariableRef};
use crate::paths::{all_digits, constant_text_index, digit_value, digits_value, without_suffix};
use crate::shapes::{array_rank, kind_at, text_at, SlotView};
use crate::state::{assign, loads, read, State};
use crate::syntax::{field_child, inside, named_children, subscript_index, TreeView};
use crate::text::{dec, digit_char, lemma_dec_parts, trimmed};

verus! {

// What the laws speak of

/// The steps from an array to its element number `n`: the address moves by `n` elements, and the
/// memory there is the element. Element zero is where the array is.
pub open spec fn steps_to(n: i64) -> Seq<SegmentView> {
    if n == 0 {
        seq![SegmentView::Symbol("deref"@)]
    } else {
        seq![SegmentView::Offset(n), SegmentView::Symbol("deref"@)]
    }
}

/// The place that is reached from `base` along `steps`.
pub open spec fn along(base: PathView, steps: Seq<SegmentView>) -> PathView {
    PathView { base: base.base, fields: base.fields + steps }
}

// Numbers

proof fn lemma_digits_of(n: nat)
    ensures
        all_digits(dec(n), 10),
        digits_value(dec(n), 10) == n,
        dec(n).len() > 0,
        n >= 10 ==> dec(n)[0] != '0',
        !crate::text::white_space(dec(n).last()),
        !crate::text::white_space(dec(n)[0]),
        digit_value(dec(n)[0], 10) is Some,
        digit_value(dec(n).last(), 10) is Some,
    decreases n,
{
    lemma_dec_parts(n);
    let d = digit_char(n % 10);
    assert(digit_value(d, 10) == Some(n % 10));
    if n < 10 {
        let s = dec(n);
        assert(s.drop_last() =~= Seq::<char>::empty());
        assert(digits_value(s.drop_last(), 10) == 0);
        assert(digits_value(s, 10) == n);
    } else {
        let m = n / 10;
        lemma_digits_of(m);
        let s = dec(n);
        assert(s.drop_last() =~= dec(m));
        assert(s[0] == dec(m)[0]);
        assert forall|i: int| 0 <= i < s.len() implies digit_value(#[trigger] s[i], 10) is Some by {
            if i < s.len() - 1 {
                assert(s[i] == dec(m)[i]);
            }
        }
        assert(digits_value(s, 10) == digits_value(dec(m), 10) * 10 + n % 10);
        if m < 10 {
            lemma_dec_parts(m);
        }
    }
}

/// A number written in decimal is the index that it is.
pub proof fn a_decimal_number_is_its_value(n: nat)
    requires
        n <= i64::MAX,
    ensures
        constant_text_index(dec(n)) == Some(n as i64),
{
    let s = dec(n);
    lemma_digits_of(n);
    lemma_dec_parts(n);
    assert(trimmed(s) == s);
    assert(without_suffix(s) == s);
    if s.len() >= 2 {
        assert(n >= 10);
        assert(s[0] != '0');
    }
}

// Places

/// A subscript names the element of its index, if the index is a constant, and the place where the
/// array is, if it is not.
pub proof fn a_subscript_names_the_element_of_its_index(
    t: TreeView,
    st: State,
    n: usize,
    array: usize,
    index: usize,
    s: State,
    base: PathView,
    u: State,
    i: ExpView,
)
    requires
        kind_at(t, n) == Kind::SubscriptExpression,
        field_child(t, n, Field::Argument) == Some(array),
        subscript_index(t, n) == Some(index),
        location(t, st, array) == (s, Ok::<PathView, ErrorView>(base)),
        expr(t, s, index) == (u, Ok::<ExpView, ErrorView>(i)),
    ensures
        forall|k: Seq<char>, m: i64|
            i == ExpView::Str(k) && #[trigger] constant_text_index(k) == Some(m) ==> #[trigger]
            location(t, st, n) == (u, Ok::<PathView, ErrorView>(along(base, #[trigger] steps_to(m)))),
        !(i is Str) || constant_text_index(i->Str_0) is None ==> location(t, st, n) == (
            u,
            Ok::<PathView, ErrorView>(along(base, steps_to(0))),
        ),
{
    reveal(location);
    reveal(expr);
    assert(location(t, st, n) == (
        u,
        Ok::<PathView, ErrorView>(
            along(base, crate::paths::element(crate::paths::index_value(i))),
        ),
    ));
}

/// A member access names the field of that name of its object. All members of a variable whose type
/// is a union are one field.
pub proof fn a_member_access_names_the_field(
    t: TreeView,
    st: State,
    n: usize,
    object: usize,
    member: usize,
    s: State,
    base: PathView,
)
    requires
        kind_at(t, n) == Kind::FieldExpression,
        field_child(t, n, Field::Argument) == Some(object),
        field_child(t, n, Field::Member) == Some(member),
        text_at(t, member).len() > 0,
        location(t, st, object) == (s, Ok::<PathView, ErrorView>(base)),
    ensures
        ({
            let r = location(t, st, n);
            let one_field = base.fields.len() == 0 && s.unions.contains(base.base);
            &&& r.0 == s
            &&& r.1 matches Ok(p)
            &&& !one_field ==> p == along(base, seq![SegmentView::Symbol(text_at(t, member))])
            &&& one_field ==> p == along(base, seq![SegmentView::Symbol("$union"@)])
        }),
{
    reveal(location);
    let a = seq![SegmentView::Symbol(text_at(t, member))];
    let b = seq![SegmentView::Symbol("$union"@)];
    assert(base.fields + a =~= base.fields.push(a[0]));
    assert(base.fields + b =~= base.fields.push(b[0]));
}

/// An access by member or by subscript has the value that is read from the place it names.
pub proof fn an_access_is_read_from_its_place(t: TreeView, st: State, n: usize, s: State, p: PathView)
    requires
        kind_at(t, n) == Kind::FieldExpression || kind_at(t, n) == Kind::SubscriptExpression,
        location(t, st, n) == (s, Ok::<PathView, ErrorView>(p)),
    ensures
        expr(t, st, n) == (read(s, p).0, Ok::<ExpView, ErrorView>(read(s, p).1)),
{
    reveal(expr);
    reveal(location);
}

/// A dereference of a variable is the variable itself, unless it is known, in this block, to point at
/// another place: at a whole variable, which then is the value and the place, or at an element, which
/// then is read and written there.
pub proof fn a_dereference_follows_what_is_known(
    t: TreeView,
    st: State,
    n: usize,
    arg: usize,
    op: usize,
    s: State,
    v: VariableRef,
)
    requires
        kind_at(t, n) == Kind::PointerExpression,
        field_child(t, n, Field::Argument) == Some(arg),
        field_child(t, n, Field::Operator) == Some(op),
        text_at(t, op) == "*"@,
    ensures
        ({
            let known = s.aliases.contains_key(v) && s.aliases[v].1 == s.at.blidx;
            let a = s.aliases[v].0;
            &&& expr(t, st, arg) == (s, Ok::<ExpView, ErrorView>(ExpView::Variable(v))) ==> {
                &&& !known ==> expr(t, st, n) == (s, Ok::<ExpView, ErrorView>(ExpView::Variable(v)))
                &&& known && a.offsets.len() == 0 ==> expr(t, st, n) == (
                    s,
                    Ok::<ExpView, ErrorView>(ExpView::Variable(a.base)),
                )
                &&& known && a.offsets.len() > 0 ==> expr(t, st, n) == (
                    read(s, pointed_at(a)).0,
                    Ok::<ExpView, ErrorView>(read(s, pointed_at(a)).1),
                )
            }
            &&& location(t, st, arg) == (s, Ok::<PathView, ErrorView>(PathView::of(v))) ==> {
                &&& !known ==> location(t, st, n) == (
                    s,
                    Ok::<PathView, ErrorView>(PathView::of(v)),
                )
                &&& known && a.offsets.len() == 0 ==> location(t, st, n) == (
                    s,
                    Ok::<PathView, ErrorView>(PathView::of(a.base)),
                )
                &&& known && a.offsets.len() > 0 ==> location(t, st, n) == (
                    s,
                    Ok::<PathView, ErrorView>(pointed_at(a)),
                )
            }
        }),
{
    reveal(expr);
    reveal(location);
    reveal(pointer);
    reveal(dereferenced);
    reveal(address_of);
    assert(expr(t, st, n) == pointer(t, st, n));
    assert(crate::lowering::has_operator(t, n, "*"@));
    if expr(t, st, arg) == (s, Ok::<ExpView, ErrorView>(ExpView::Variable(v))) {
        let r = dereferenced(t, s, n, ExpView::Variable(v));
        assert(pointer(t, st, n) == (r.0, Ok::<ExpView, ErrorView>(r.1)));
    }
}

/// The memory at an address.
pub open spec fn pointed_at(a: AddressView) -> PathView {
    PathView {
        base: a.base,
        fields: a.offsets.map_values(|n: i64| SegmentView::Offset(n)).push(
            SegmentView::Symbol("deref"@),
        ),
    }
}

// Initializers

proof fn lemma_designator(k: Seq<char>)
    requires
        k.len() > 0,
        k[0] != '[',
        k.last() != ']',
    ensures
        without_close(without_open(trimmed(seq!['['] + k + seq![']']))) == k,
        trimmed(seq!['['] + k + seq![']']) == seq!['['] + k + seq![']'],
{
    let s = seq!['['] + k + seq![']'];
    assert(s[0] == '[' && s.last() == ']');
    assert(!crate::text::white_space('[') && !crate::text::white_space(']'));
    assert(trimmed(s) == s);
    let a = s.skip(1);
    assert(a[0] == k[0]);
    reveal_with_fuel(without_open, 3);
    assert(without_open(s) == a);
    assert(a.last() == ']');
    let b = a.drop_last();
    assert(b =~= k);
    reveal_with_fuel(without_close, 3);
    assert(without_close(a) == k);
}

/// Where an element of a braced initializer goes. One that is designated by a constant index goes
/// where a subscript of that index reads it, whatever its position; one that is designated by the
/// name of a member goes to the field of that name; one that is not designated goes to the member
/// that its position names, or else to the element of its position. Only those that are not
/// designated count.
pub proof fn an_element_goes_to_its_place(
    t: TreeView,
    st: State,
    n: usize,
    base: PathView,
    members: Option<Seq<SlotView>>,
    elem: Option<Seq<SlotView>>,
    depth: nat,
    i: int,
    idx: usize,
    e: usize,
    value: usize,
    steps: Seq<SegmentView>,
    s: State,
    v: ExpView,
)
    requires
        0 <= i < named_children(t, n).len(),
        named_children(t, n)[i] == e,
        inside(t, n, e),
        idx < usize::MAX,
        kind_at(t, value) != Kind::InitializerList,
        expr(t, st, value) == (s, Ok::<ExpView, ErrorView>(v)),
        goes_along(t, members, e, value, idx, steps),
    ensures
        elements(t, st, n, base, members, elem, depth, i, idx) == elements(
            t,
            assign(s, along(base, steps), v, None),
            n,
            base,
            members,
            elem,
            depth,
            i + 1,
            if kind_at(t, e) == Kind::InitializerPair {
                idx
            } else {
                (idx + 1) as usize
            },
        ),
{
    lemma_goes_along(t, st, members, elem, depth, e, value, idx, steps);
    reveal(elements);
    reveal(expr);
}

/// Whether the element `e` of a braced initializer has that value and goes along those steps.
pub open spec fn goes_along(
    t: TreeView,
    members: Option<Seq<SlotView>>,
    e: usize,
    value: usize,
    idx: usize,
    steps: Seq<SegmentView>,
) -> bool {
    if kind_at(t, e) == Kind::InitializerPair {
        &&& field_child(t, e, Field::Value) == Some(value)
        &&& field_child(t, e, Field::Designator) matches Some(d)
        &&& (exists|k: Seq<char>, m: i64|
            {
                &&& text_at(t, d) == #[trigger] (seq!['['] + k + seq![']'])
                &&& k.len() > 0
                &&& k[0] != '['
                &&& k.last() != ']'
                &&& constant_text_index(k) == Some(m)
                &&& steps == #[trigger] steps_to(m)
            }) || (exists|k: Seq<char>|
            {
                &&& text_at(t, d) == #[trigger] (seq!['.'] + k)
                &&& trimmed(k) == k
                &&& steps == seq![SegmentView::Symbol(k)]
            })
    } else {
        &&& value == e
        &&& members is Some && idx < members->0.len() ==> steps == seq![
            SegmentView::Symbol(members->0[idx as int].name),
        ]
        &&& !(members is Some && idx < members->0.len()) ==> steps == steps_to(idx as i64)
    }
}

proof fn lemma_goes_along(
    t: TreeView,
    st: State,
    members: Option<Seq<SlotView>>,
    elem: Option<Seq<SlotView>>,
    depth: nat,
    e: usize,
    value: usize,
    idx: usize,
    steps: Seq<SegmentView>,
)
    requires
        goes_along(t, members, e, value, idx, steps),
    ensures
        crate::lowering::placed(t, st, e, members, elem, depth, idx).0 == steps,
        crate::lowering::value_of(t, e) == value,
{
    reveal(crate::lowering::placed);
    if kind_at(t, e) == Kind::InitializerPair {
        let d = field_child(t, e, Field::Designator)->0;
        let text = text_at(t, d);
        if exists|k: Seq<char>, m: i64|
            {
                &&& text == #[trigger] (seq!['['] + k + seq![']'])
                &&& k.len() > 0
                &&& k[0] != '['
                &&& k.last() != ']'
                &&& constant_text_index(k) == Some(m)
                &&& steps == #[trigger] steps_to(m)
            } {
            let (k, m) = choose|k: Seq<char>, m: i64|
                {
                    &&& text == #[trigger] (seq!['['] + k + seq![']'])
                    &&& k.len() > 0
                    &&& k[0] != '['
                    &&& k.last() != ']'
                    &&& constant_text_index(k) == Some(m)
                    &&& steps == #[trigger] steps_to(m)
                };
            lemma_designator(k);
            assert(text[0] == '[');
        } else {
            let k = choose|k: Seq<char>|
                {
                    &&& text == #[trigger] (seq!['.'] + k)
                    &&& trimmed(k) == k
                    &&& steps == seq![SegmentView::Symbol(k)]
                };
            assert(text[0] == '.');
            assert(text.skip(1) =~= k);
        }
    }
}

/// Braces inside of braces are those of the place that their position, index or name means.
pub proof fn inner_braces_go_to_their_place(
    t: TreeView,
    st: State,
    n: usize,
    base: PathView,
    members: Option<Seq<SlotView>>,
    elem: Option<Seq<SlotView>>,
    depth: nat,
    i: int,
    idx: usize,
    e: usize,
    value: usize,
    steps: Seq<SegmentView>,
)
    requires
        0 <= i < named_children(t, n).len(),
        named_children(t, n)[i] == e,
        inside(t, n, e),
        idx < usize::MAX,
        kind_at(t, value) == Kind::InitializerList,
        goes_along(t, members, e, value, idx, steps),
    ensures
        ({
            let inner = elements(
                t,
                st,
                value,
                along(base, steps),
                crate::lowering::placed(t, st, e, members, elem, depth, idx).1,
                elem,
                if depth > 0 {
                    (depth - 1) as nat
                } else {
                    0
                },
                0,
                0,
            );
            inner.1 is Ok ==> elements(t, st, n, base, members, elem, depth, i, idx) == elements(
                t,
                inner.0,
                n,
                base,
                members,
                elem,
                depth,
                i + 1,
                if kind_at(t, e) == Kind::InitializerPair {
                    idx
                } else {
                    (idx + 1) as usize
                },
            )
        }),
{
    lemma_goes_along(t, st, members, elem, depth, e, value, idx, steps);
    reveal(elements);
    let place = crate::lowering::placed(t, st, e, members, elem, depth, idx);
    assert(crate::lowering::value_of(t, e) == value);
}

/// The layout that is known under a tag.
pub open spec fn known_layout(st: State, tag: Option<Seq<char>>) -> Option<Seq<SlotView>> {
    if tag is Some && st.env.layouts.contains_key(tag->0) {
        Some(st.env.layouts[tag->0])
    } else {
        None
    }
}

/// Braces inside of braces initialize a record of the type of their place: that of the member that
/// their position or name means, or that of the elements of an array, where the innermost dimension is
/// reached.
pub proof fn inner_braces_are_of_the_type_of_their_place(
    t: TreeView,
    st: State,
    e: usize,
    members: Option<Seq<SlotView>>,
    elem: Option<Seq<SlotView>>,
    depth: nat,
    idx: usize,
    d: usize,
    k: Seq<char>,
    j: int,
)
    ensures
        ({
            let inner = crate::lowering::placed(t, st, e, members, elem, depth, idx).1;
            let plain = kind_at(t, e) != Kind::InitializerPair;
            let designated = !plain && field_child(t, e, Field::Designator) == Some(d);
            &&& plain && members is Some && idx < members->0.len() ==> inner == known_layout(
                st,
                members->0[idx as int].type_tag,
            )
            &&& plain && !(members is Some && idx < members->0.len()) ==> inner == (if depth == 1 {
                elem
            } else {
                None
            })
            &&& designated && text_at(t, d).len() > 0 && text_at(t, d)[0] == '[' ==> inner == (
            if depth == 1 {
                elem
            } else {
                None
            })
            &&& designated && text_at(t, d) == seq!['.'] + k && trimmed(k) == k && members is None
                ==> inner is None
            &&& designated && text_at(t, d) == seq!['.'] + k && trimmed(k) == k && members is Some
                && 0 <= j < members->0.len() && members->0[j].name == k && (forall|m: int|
                0 <= m < j ==> (#[trigger] members->0[m]).name != k) ==> inner == known_layout(
                st,
                members->0[j].type_tag,
            )
        }),
{
    reveal(crate::lowering::placed);
    if kind_at(t, e) == Kind::InitializerPair && field_child(t, e, Field::Designator) == Some(d)
        && text_at(t, d) == seq!['.'] + k {
        let text = text_at(t, d);
        assert(text[0] == '.');
        assert(text.skip(1) =~= k);
        if members is Some && 0 <= j < members->0.len() && members->0[j].name == k && (forall|
            m: int,
        |
            0 <= m < j ==> (#[trigger] members->0[m]).name != k) {
            crate::makes::a_member_is_the_first_of_its_name(members->0, 0, j);
        }
    }
}

/// All elements of a braced initializer are stored, from the first to the last; after the last there
/// is nothing left to do.
pub proof fn after_the_last_element_nothing_is_stored(
    t: TreeView,
    st: State,
    n: usize,
    base: PathView,
    members: Option<Seq<SlotView>>,
    elem: Option<Seq<SlotView>>,
    depth: nat,
    idx: usize,
)
    ensures
        elements(
            t,
            st,
            n,
            base,
            members,
            elem,
            depth,
            named_children(t, n).len() as int,
            idx,
        ) == (st, Ok::<(), ErrorView>(())),
{
    reveal(elements);
}

/// The values in braces are those of the elements of an array, of the members of a record, or, for a
/// scalar, of the variable itself; counting begins with zero.
pub proof fn braces_initialize_what_they_are_for(
    t: TreeView,
    st: State,
    n: usize,
    base: PathView,
    own: Option<Seq<SlotView>>,
    dims: nat,
)
    ensures
        dims > 0 ==> braced(t, st, n, base, own, dims) == elements(
            t,
            st,
            n,
            base,
            None,
            own,
            dims,
            0,
            0,
        ),
        dims == 0 && own is Some ==> braced(t, st, n, base, own, dims) == elements(
            t,
            st,
            n,
            base,
            own,
            None,
            0,
            0,
            0,
        ),
        dims == 0 && own is None && named_children(t, n).len() == 1 ==> ({
            let c = named_children(t, n)[0];
            inside(t, n, c) && kind_at(t, c) != Kind::InitializerList && kind_at(t, c)
                != Kind::InitializerPair && expr(t, st, c).1 is Ok ==> braced(
                t,
                st,
                n,
                base,
                own,
                dims,
            ).0 == assign(expr(t, st, c).0, base, expr(t, st, c).1->Ok_0, None)
        }),
{
    reveal(braced);
    reveal(elements);
    reveal(expr);
    if dims > 0 {
        assert(braced(t, st, n, base, own, dims) == elements(
            t,
            st,
            n,
            base,
            None,
            own,
            dims,
            0,
            0,
        ));
    } else if own is Some {
        assert(braced(t, st, n, base, own, dims) == elements(
            t,
            st,
            n,
            base,
            own,
            None,
            0,
            0,
            0,
        ));
    }
}

/// The braces of a declaration initialize the variable that it declares, with the layout of its type
/// and as many dimensions as its declarator has.
pub proof fn a_declaration_initializes_its_variable(
    t: TreeView,
    st: State,
    n: usize,
    ident: usize,
    list: usize,
    s: State,
    p: PathView,
)
    requires
        inside(t, n, ident),
        inside(t, n, list),
        location(t, st, ident) == (s, Ok::<PathView, ErrorView>(p)),
    ensures
        initializer(t, st, n, ident, list) == braced(
            t,
            s,
            list,
            p,
            match crate::shapes::type_tag(t, n) {
                Some(tag) => if st.env.layouts.contains_key(tag) {
                    Some(st.env.layouts[tag])
                } else {
                    None
                },
                None => None,
            },
            array_rank(t, ident),
        ),
{
    reveal(initializer);
    reveal(location);
    reveal(braced);
}

/// The address of an element of a variable is the variable moved by the index, and that of element
/// zero is the variable; it is not what is stored there.
pub proof fn the_address_of_an_element_is_not_its_value(
    t: TreeView,
    st: State,
    n: usize,
    op: usize,
    arg: usize,
    s: State,
    x: VariableRef,
    m: i64,
)
    requires
        kind_at(t, n) == Kind::PointerExpression,
        field_child(t, n, Field::Operator) == Some(op),
        text_at(t, op) == "&"@,
        field_child(t, n, Field::Argument) == Some(arg),
        kind_at(t, arg) == Kind::SubscriptExpression,
        subscript_index(t, arg) is Some,
        location(t, st, arg) == (
            s,
            Ok::<PathView, ErrorView>(along(PathView::of(x), steps_to(m))),
        ),
        placed(s),
    ensures
        m == 0 ==> expr(t, st, n) == (s, Ok::<ExpView, ErrorView>(ExpView::Variable(x))),
        m != 0 ==> expr(t, st, n) == (
            s,
            Ok::<ExpView, ErrorView>(
                ExpView::AccessPath(AddressView { base: x, offsets: seq![m] }),
            ),
        ),
{
    reveal(expr);
    reveal(pointer);
    reveal(address_of);
    reveal(location);
    reveal(loads);
    reveal_strlit("*");
    reveal_strlit("&");
    assert("*"@[0] != "&"@[0]);
    assert(!crate::lowering::has_operator(t, n, "*"@));
    let p = along(PathView::of(x), steps_to(m));
    let q = PathView { base: p.base, fields: p.fields.drop_last() };
    assert(p.fields =~= steps_to(m));
    assert(p.fields.last() == crate::paths::deref_segment());
    reveal_with_fuel(crate::state::load_steps, 3);
    if m == 0 {
        assert(q.fields =~= Seq::<SegmentView>::empty());
    } else {
        assert(q.fields =~= seq![SegmentView::Offset(m)]);
        assert(Seq::<i64>::empty().push(m) =~= seq![m]);
    }
    let a = loads(s, q);
    assert(a == (
        s,
        AddressView {
            base: x,
            offsets: if m == 0 {
                Seq::empty()
            } else {
                seq![m]
            },
        },
    ));
    assert(address_of(t, st, arg) == (a.0, Ok::<Option<AddressView>, ErrorView>(Some(a.1))));
    assert(expr(t, st, n) == pointer(t, st, n));
}

/// The address of anything but an element has the value of its operand: a whole variable is modelled
/// by its value.
pub proof fn the_address_of_a_variable_is_its_value(
    t: TreeView,
    st: State,
    n: usize,
    op: usize,
    arg: usize,
    s: State,
    v: ExpView,
)
    requires
        kind_at(t, n) == Kind::PointerExpression,
        field_child(t, n, Field::Operator) == Some(op),
        text_at(t, op) == "&"@,
        field_child(t, n, Field::Argument) == Some(arg),
        kind_at(t, arg) != Kind::SubscriptExpression,
        kind_at(t, arg) != Kind::ParenthesizedExpression,
        expr(t, st, arg) == (s, Ok::<ExpView, ErrorView>(v)),
    ensures
        expr(t, st, n) == (s, Ok::<ExpView, ErrorView>(v)),
{
    reveal(expr);
    reveal(pointer);
    reveal(address_of);
    reveal(dereferenced);
    reveal_strlit("*");
    reveal_strlit("&");
    assert("*"@[0] != "&"@[0]);
    assert(!crate::lowering::has_operator(t, n, "*"@));
    assert(address_of(t, st, arg) == (st, Ok::<Option<AddressView>, ErrorView>(None)));
    assert(expr(t, st, n) == pointer(t, st, n));
    assert(dereferenced(t, s, n, v) == (s, v));
}

/// How many dimensions a declarator declares: one for every array in it.
pub proof fn every_array_is_a_dimension(t: TreeView, n: usize, c: usize)
    requires
        field_child(t, n, Field::Declarator) == Some(c),
    ensures
        kind_at(t, n) == Kind::ArrayDeclarator ==> array_rank(t, n) == 1 + array_rank(t, c),
        kind_at(t, n) == Kind::PointerDeclarator || kind_at(t, n) == Kind::InitDeclarator
            ==> array_rank(t, n) == array_rank(t, c),
        kind_at(t, c) == Kind::Identifier ==> array_rank(t, c) == 0,
{
}

} // verus!
