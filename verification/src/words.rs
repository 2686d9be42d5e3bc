//! What texts mean.
//!
//! The laws below are about numbers and paths as they are written, about the printed IR and its
//! comments, and about the calls that a program makes.

use vstd::prelude::*;
use crate::dump::{explainers, first_at, function_after, is_digit, leading_digits, leading_number, lemma_first_at_is, lines_of, marked_from, marked_line, number, on_one_line, starts_with, until};
use crate::error::ErrorView;
use crate::externs::{block_calls, calls, function_calls, program_calls, stub, stubs_for, with_stubs};
use crate::mir::{AddressView, BlockView, CallStyleView, FunctionView, ParameterType, SegmentView, StatementKindView, StatementView, VariableRef};
use crate::paths::{all_digits, constant_text_index, digit_value, digits_value, literal_address, pointee_location};
use crate::plan::{after_slash, file_name, idle_end, mint_base};
use crate::program::LoweredView;
use crate::scope::{ir_name, ScopesView, VarView};
use crate::state::NoteView;
use crate::text::{dec, lemma_dec_parts, trim_left, trimmed};
use crate::units::{DefView, UnitView};
use crate::xapk::{dex_first, no_code, path_in, recorded, sanitized, sub_name, Split};

verus! {

// Numbers

/// What a digit is worth: `0` to `9` their value, and letters of either case ten and more, if that is
/// less than the base.
pub proof fn a_digit_has_its_value(c: char, radix: nat)
    ensures
        '0' <= c <= '9' && (c as int - '0' as int) < radix ==> digit_value(c, radix) == Some(
            (c as int - '0' as int) as nat,
        ),
        'a' <= c <= 'z' && c as int - 'a' as int + 10 < radix ==> digit_value(c, radix) == Some(
            (c as int - 'a' as int + 10) as nat,
        ),
        'A' <= c <= 'Z' && c as int - 'A' as int + 10 < radix ==> digit_value(c, radix) == Some(
            (c as int - 'A' as int + 10) as nat,
        ),
        digit_value(c, radix) matches Some(v) ==> v < radix && (('0' <= c <= '9') || ('a' <= c
            <= 'z') || ('A' <= c <= 'Z')),
{
}

/// A further digit multiplies by the base what the digits before it are worth, and adds its own value.
pub proof fn a_digit_is_worth_its_place(s: Seq<char>, c: char, radix: nat)
    ensures
        digits_value(Seq::empty(), radix) == 0,
        digits_value(s.push(c), radix) == digits_value(s, radix) * radix + digit_value(c, radix)->0,
{
    assert(s.push(c).drop_last() =~= s);
}

/// A constant that begins with `0x` or `0b` is read in base 16 or 2, one with a sign or any other
/// digits in base 10; what is no such number, or too large, is none.
pub proof fn a_constant_is_read_in_its_base(text: Seq<char>, s: Seq<char>, p: char)
    requires
        trimmed(text) == text,
        crate::paths::without_suffix(text) == text,
    ensures
        text == seq!['0', p] + s && (p == 'x' || p == 'X') && s.len() > 0 && all_digits(s, 16)
            && digits_value(s, 16) <= i64::MAX ==> constant_text_index(text) == Some(
            digits_value(s, 16) as i64,
        ),
        text == seq!['0', p] + s && (p == 'b' || p == 'B') && s.len() > 0 && all_digits(s, 2)
            && digits_value(s, 2) <= i64::MAX ==> constant_text_index(text) == Some(
            digits_value(s, 2) as i64,
        ),
        text == seq!['-'] + s && s.len() > 0 && all_digits(s, 10) && digits_value(s, 10)
            <= i64::MAX ==> constant_text_index(text) == Some((-digits_value(s, 10)) as i64),
        text == seq!['+'] + s && s.len() > 0 && all_digits(s, 10) && digits_value(s, 10)
            <= i64::MAX ==> constant_text_index(text) == Some(digits_value(s, 10) as i64),
        text == s && s.len() > 0 && all_digits(s, 10) && digits_value(s, 10) <= i64::MAX
            ==> constant_text_index(text) == Some(digits_value(s, 10) as i64),
        text.len() == 0 ==> constant_text_index(text) is None,
{
    if text == seq!['0', p] + s {
        assert(text[0] == '0' && text[1] == p);
        assert(text.skip(2) =~= s);
        if s.len() > 0 {
            assert(all_digits(s, 16) ==> digit_value(s[0], 16) is Some);
            assert(all_digits(s, 2) ==> digit_value(s[0], 2) is Some);
        }
    }
    if text == seq!['-'] + s {
        assert(text[0] == '-');
        assert(text.skip(1) =~= s);
    }
    if text == seq!['+'] + s {
        assert(text[0] == '+');
        assert(text.skip(1) =~= s);
    }
    if text == s && s.len() > 0 && all_digits(s, 10) {
        assert(digit_value(s[0], 10) is Some);
        if s.len() >= 2 {
            assert(digit_value(s[1], 10) is Some);
        }
    }
}

/// Two constants address one object exactly if they are the same text, and the object is a global.
pub proof fn a_constant_addresses_one_object(a: Seq<char>, b: Seq<char>)
    ensures
        literal_address(a) == literal_address(b) <==> a == b,
        literal_address(a).base == VariableRef::Global,
{
    reveal_strlit("<address ");
    reveal_strlit(">");
    if literal_address(a) == literal_address(b) {
        let x = "<address "@ + a + ">"@;
        let y = "<address "@ + b + ">"@;
        assert(literal_address(a).fields[0] == SegmentView::Symbol(x));
        assert(literal_address(b).fields[0] == SegmentView::Symbol(y));
        assert(x == y);
        assert(x.len() == a.len() + 10);
        assert(y.len() == b.len() + 10);
        assert forall|i: int| 0 <= i < a.len() implies a[i] == b[i] by {
            assert(x[i + 9] == a[i]);
            assert(y[i + 9] == b[i]);
        }
        assert(a =~= b);
    }
}

/// What a pointer into a variable points at: the memory at the offsets of the address; a pointer to
/// the whole variable has no such place.
pub proof fn a_pointee_is_the_memory_at_its_address(a: AddressView)
    ensures
        a.offsets.len() == 0 <==> pointee_location(a) is None,
        pointee_location(a) matches Some(p) ==> {
            &&& p.base == a.base
            &&& p.fields.len() == a.offsets.len() + 1
            &&& p.fields.last() == SegmentView::Symbol("deref"@)
            &&& forall|i: int|
                0 <= i < a.offsets.len() ==> #[trigger] p.fields[i] == SegmentView::Offset(
                    a.offsets[i],
                )
        },
{
}

// Paths

proof fn lemma_after_slash(dir: Seq<char>, name: Seq<char>)
    requires
        forall|i: int| 0 <= i < name.len() ==> #[trigger] name[i] != '/',
    ensures
        after_slash(dir.push('/') + name) == name,
        after_slash(name) == name,
    decreases name.len(),
{
    let whole = dir.push('/') + name;
    if name.len() == 0 {
        assert(whole =~= dir.push('/'));
        assert(whole.last() == '/');
    } else {
        assert(name[name.len() - 1] != '/');
        assert(whole.last() == name.last());
        assert(whole.drop_last() =~= dir.push('/') + name.drop_last());
        assert forall|i: int| 0 <= i < name.drop_last().len() implies #[trigger] name.drop_last()[i]
            != '/' by {
            assert(name[i] != '/');
        }
        lemma_after_slash(dir, name.drop_last());
        assert(name.drop_last().push(name.last()) =~= name);
    }
}

/// The file name of a path is what follows its last slash.
pub proof fn a_file_name_is_the_last_part(dir: Seq<char>, name: Seq<char>)
    requires
        name.len() > 0,
        name != "."@,
        name != ".."@,
        forall|i: int| 0 <= i < name.len() ==> #[trigger] name[i] != '/',
    ensures
        file_name(dir.push('/') + name) == name,
        file_name(name) == name,
{
    reveal_strlit(".");
    reveal_strlit("..");
    let whole = dir.push('/') + name;
    assert(name[name.len() - 1] != '/');
    assert(whole.last() == name.last());
    if name.len() == 1 {
        if name[0] == '.' {
            assert(name =~= "."@);
        }
    } else {
        assert(whole[whole.len() - 2] == name[name.len() - 2]);
        assert(name[name.len() - 2] != '/');
    }
    assert(!idle_end(whole));
    assert(!idle_end(name));
    lemma_after_slash(dir, name);
}

/// The name made for a function that shares its own: the name, `$`, and the file of its unit, or a
/// number where there is none.
pub proof fn a_made_name_says_where_it_is_from(units: Seq<UnitView>, d: DefView, k: nat)
    ensures
        units[d.unit as int].path matches Some(p) ==> mint_base(units, d, k) == d.name + "$"@
            + file_name(p),
        units[d.unit as int].path is None ==> mint_base(units, d, k) == d.name + "$"@ + dec(k),
{
}

/// A file in a directory: one slash is between them.
pub proof fn a_path_has_one_slash(dir: Seq<char>, leaf: Seq<char>)
    ensures
        path_in(dir.push('/'), leaf) == dir.push('/') + leaf,
        dir.len() > 0 && dir.last() != '/' ==> path_in(dir, leaf) == dir.push('/') + leaf,
        path_in(Seq::empty(), leaf) == leaf,
{
    assert(Seq::<char>::empty() + leaf =~= leaf);
}

/// A sanitized name has every character that may stand in a name as it was, and `_` for every other.
pub proof fn a_sanitized_name_keeps_what_may_stand(raw: Seq<char>, i: int)
    requires
        0 <= i < raw.len(),
    ensures
        ('0' <= raw[i] <= '9' || 'A' <= raw[i] <= 'Z' || 'a' <= raw[i] <= 'z' || raw[i] == '.'
            || raw[i] == '_' || raw[i] == '-') ==> sanitized(raw)[i] == raw[i],
        !('0' <= raw[i] <= '9' || 'A' <= raw[i] <= 'Z' || 'a' <= raw[i] <= 'z' || raw[i] == '.'
            || raw[i] == '_' || raw[i] == '-') ==> sanitized(raw)[i] == '_',
        sanitized(raw).len() == raw.len(),
{
}

/// The import of a split goes by the name of the bundle's import, `__`, and its own, sanitized.
pub proof fn a_split_goes_by_its_bundle(parent: Seq<char>, stem: Seq<char>)
    ensures
        sub_name(parent, stem) == sanitized(parent) + "__"@ + sanitized(stem),
{
    reveal_strlit("__");
    assert(sub_name(parent, stem) =~= sanitized(parent) + "__"@ + sanitized(stem));
}

/// Putting the splits with Dex first loses none, and those with Dex come before all others.
pub proof fn the_splits_with_dex_come_first(splits: Seq<Split>)
    ensures
        dex_first(splits).to_multiset() == splits.to_multiset(),
        dex_first(splits).len() == splits.len(),
        forall|i: int, j: int|
            0 <= i < j < dex_first(splits).len() && (#[trigger] dex_first(splits)[j]).has_dex ==> (
            #[trigger] dex_first(splits)[i]).has_dex,
    decreases splits.len(),
{
    let yes = |s: Split| s.has_dex;
    let no = |s: Split| !s.has_dex;
    let a = splits.filter(yes);
    let b = splits.filter(no);
    assert forall|i: int| 0 <= i < a.len() implies (#[trigger] a[i]).has_dex by {
        splits.lemma_filter_pred(yes, i);
    }
    assert forall|i: int| 0 <= i < b.len() implies !(#[trigger] b[i]).has_dex by {
        splits.lemma_filter_pred(no, i);
    }
    lemma_parts(splits);
    vstd::seq_lib::lemma_multiset_commutative(a, b);
    assert(dex_first(splits) == a + b);
    dex_first(splits).to_multiset_ensures();
    splits.to_multiset_ensures();
}

proof fn lemma_parts(splits: Seq<Split>)
    ensures
        splits.filter(|s: Split| s.has_dex).to_multiset().add(
            splits.filter(|s: Split| !s.has_dex).to_multiset(),
        ) == splits.to_multiset(),
    decreases splits.len(),
{
    let yes = |s: Split| s.has_dex;
    let no = |s: Split| !s.has_dex;
    reveal(Seq::filter);
    broadcast use vstd::seq_lib::group_to_multiset_ensures;

    if splits.len() > 0 {
        let front = splits.drop_last();
        let last = splits.last();
        lemma_parts(front);
        assert(splits =~= front.push(last));
        assert(splits.to_multiset() =~= front.to_multiset().insert(last));
        if last.has_dex {
            assert(splits.filter(yes) == front.filter(yes).push(last));
            assert(splits.filter(no) == front.filter(no));
        } else {
            assert(splits.filter(yes) == front.filter(yes));
            assert(splits.filter(no) == front.filter(no).push(last));
        }
        assert(splits.filter(yes).to_multiset().add(splits.filter(no).to_multiset())
            =~= splits.to_multiset());
    } else {
        assert(splits.filter(yes).to_multiset().add(splits.filter(no).to_multiset())
            =~= splits.to_multiset());
    }
}

/// A split that holds no code is passed over, however deep its error is wrapped; any other error ends
/// the import, and a split that went in is recorded with its own.
pub proof fn a_split_without_code_is_passed_over(
    name: Seq<char>,
    subs: Seq<Seq<char>>,
    e: ErrorView,
    message: Seq<char>,
)
    ensures
        recorded(name, Ok(subs)) == Some(seq![name] + subs),
        recorded(name, Err(e)) is Some <==> no_code(e),
        no_code(e) ==> recorded(name, Err(e)) == Some(Seq::<Seq<char>>::empty()),
        no_code(ErrorView::NothingToImport(message)),
        no_code(ErrorView::Context(message, Some(Box::new(e)))) <==> no_code(e),
        !no_code(ErrorView::Context(message, None)),
        !no_code(ErrorView::Failed(message)),
        !no_code(ErrorView::Path(message)),
{
}

// The printed IR

/// The lines of a text are what is between its line feeds, each without the carriage return that it
/// ends in; what follows the last line feed is a line if there is anything.
pub proof fn a_line_ends_at_a_line_feed(a: Seq<char>, b: Seq<char>)
    requires
        forall|i: int| 0 <= i < a.len() ==> #[trigger] a[i] != '\n',
    ensures
        lines_of(a.push('\n') + b) == seq![
            if a.len() > 0 && a.last() == '\r' {
                a.drop_last()
            } else {
                a
            },
        ] + lines_of(b),
        a.len() > 0 ==> lines_of(a) == seq![a],
        lines_of(Seq::<char>::empty()).len() == 0,
{
    let whole = a.push('\n') + b;
    let n = a.len() as int;
    assert(whole[n] == '\n');
    assert forall|i: int| 0 <= i < n implies whole[i] != '\n' by {
        assert(whole[i] == a[i]);
    }
    lemma_first_at_is(whole, '\n', n);
    assert(whole.take(n) =~= a);
    assert(whole.skip(n + 1) =~= b);
    lemma_first_at_is(a, '\n', n);
}

/// The comment of a block joins what the notes say of it, in order, by `&`; notes on other blocks and
/// other functions do not count.
pub proof fn notes_are_joined_in_order(notes: Seq<NoteView>, f: Seq<char>, b: nat, n: int)
    requires
        0 < n <= notes.len(),
    ensures
        ({
            let now = explainers(notes, f, b, n);
            let earlier = explainers(notes, f, b, n - 1);
            let note = notes[n - 1];
            let about = note.func_name == f && note.blidx == b;
            &&& !about ==> now == earlier
            &&& about && earlier is None ==> now == Some(note.explainer)
            &&& about && earlier is Some ==> now == Some(earlier->0 + "&"@ + note.explainer)
            &&& explainers(notes, f, b, 0) is None
        }),
{
}

/// Text on one line has no line feed in it, and is as it was but for them.
pub proof fn a_comment_is_on_one_line(s: Seq<char>, t: Seq<char>)
    ensures
        on_one_line(s + t) == on_one_line(s) + on_one_line(t),
        on_one_line(seq!['\n']) == " | "@,
        (forall|i: int| 0 <= i < s.len() ==> #[trigger] s[i] != '\n') ==> on_one_line(s) == s,
        forall|i: int| 0 <= i < on_one_line(s).len() ==> #[trigger] on_one_line(s)[i] != '\n',
    decreases s.len() + t.len(),
{
    reveal_strlit(" | ");
    reveal_with_fuel(on_one_line, 2);
    assert(seq!['\n'].drop_last() =~= Seq::<char>::empty());
    assert(on_one_line(seq!['\n']) =~= " | "@);
    if t.len() > 0 {
        a_comment_is_on_one_line(s, t.drop_last());
        assert((s + t).drop_last() =~= s + t.drop_last());
        assert((s + t).last() == t.last());
        assert(on_one_line(s + t) =~= on_one_line(s) + on_one_line(t));
    } else {
        assert(s + t =~= s);
        assert(on_one_line(s) + on_one_line(t) =~= on_one_line(s));
    }
    if s.len() > 0 {
        a_comment_is_on_one_line(s.drop_last(), Seq::empty());
        let front = s.drop_last();
        if forall|i: int| 0 <= i < s.len() ==> #[trigger] s[i] != '\n' {
            assert forall|i: int| 0 <= i < front.len() implies #[trigger] front[i] != '\n' by {
                assert(front[i] == s[i]);
            }
            assert(s[s.len() - 1] != '\n');
            assert(on_one_line(s) =~= s);
        }
        assert forall|i: int| 0 <= i < on_one_line(s).len() implies #[trigger] on_one_line(s)[i]
            != '\n' by {
            if i < on_one_line(front).len() {
                assert(on_one_line(s)[i] == on_one_line(front)[i]);
            }
        }
    } else {
        assert(on_one_line(s) =~= s);
    }
}

proof fn lemma_leading(n: nat, r: Seq<char>)
    requires
        r.len() == 0 || !is_digit(r[0]),
    ensures
        leading_digits(dec(n) + r) == dec(n),
        number(dec(n)) == n,
    decreases n,
{
    lemma_all_digits(n);
    lemma_run_of_digits(dec(n), r);
    lemma_number(n);
}

proof fn lemma_all_digits(n: nat)
    ensures
        forall|i: int| 0 <= i < dec(n).len() ==> is_digit(#[trigger] dec(n)[i]),
    decreases n,
{
    if n >= 10 {
        lemma_all_digits(n / 10);
        assert forall|i: int| 0 <= i < dec(n).len() implies is_digit(#[trigger] dec(n)[i]) by {
            if i < dec(n).len() - 1 {
                assert(dec(n)[i] == dec(n / 10)[i]);
            }
        }
    }
}

proof fn lemma_run_of_digits(s: Seq<char>, r: Seq<char>)
    requires
        r.len() == 0 || !is_digit(r[0]),
        forall|i: int| 0 <= i < s.len() ==> is_digit(#[trigger] s[i]),
    ensures
        leading_digits(s + r) == s,
    decreases s.len(),
{
    if s.len() == 0 {
        assert(s + r =~= r);
        assert(leading_digits(r) =~= s);
    } else {
        let later = s.drop_first();
        assert forall|i: int| 0 <= i < later.len() implies is_digit(#[trigger] later[i]) by {
            assert(later[i] == s[i + 1]);
        }
        lemma_run_of_digits(later, r);
        assert((s + r)[0] == s[0]);
        assert((s + r).drop_first() =~= later + r);
        assert(leading_digits(s + r) =~= s);
    }
}

proof fn lemma_number(n: nat)
    ensures
        number(dec(n)) == n,
    decreases n,
{
    reveal_with_fuel(number, 2);
    if n >= 10 {
        lemma_number(n / 10);
        assert(dec(n).drop_last() =~= dec(n / 10));
    } else {
        assert(dec(n).drop_last() =~= Seq::<char>::empty());
    }
}

/// A line that begins a block has the comment of that block of the current function behind it.
pub proof fn the_beginning_of_a_block_is_marked(
    line: Seq<char>,
    b: nat,
    r: Seq<char>,
    f: Seq<char>,
    notes: Seq<NoteView>,
)
    requires
        trim_left(line) == "begin block_"@ + dec(b) + r,
        r.len() == 0 || !('0' <= r[0] <= '9'),
        b <= u32::MAX,
    ensures
        marked_line(line, f, notes) == line + " // "@ + (match explainers(
            notes,
            f,
            b,
            notes.len() as int,
        ) {
            Some(s) => if s.len() > 0 {
                on_one_line(s)
            } else {
                "**MISSING**"@
            },
            None => "**MISSING**"@,
        }),
        function_after(line, f) == f,
{
    reveal_strlit("begin block_");
    reveal_strlit("define ");
    let t = trim_left(line);
    assert(t[0] == 'b');
    assert(t.take(7)[0] == 'b');
    assert("define "@[0] == 'd');
    assert(!starts_with(t, "define "@));
    assert(t.take(12) =~= "begin block_"@);
    assert(t.skip(12) =~= dec(b) + r);
    lemma_leading(b, r);
    lemma_dec_parts(b);
    assert(leading_number(t.skip(12)) == Some(b));
}

/// A line that defines a function makes it the current one.
pub proof fn a_definition_is_the_current_function(
    line: Seq<char>,
    name: Seq<char>,
    r: Seq<char>,
    f: Seq<char>,
    notes: Seq<NoteView>,
)
    requires
        trim_left(line) == "define "@ + name + "("@ + r,
        forall|i: int| 0 <= i < name.len() ==> #[trigger] name[i] != ' ' && name[i] != '(',
    ensures
        function_after(line, f) == name,
        marked_line(line, f, notes) == line,
{
    reveal_strlit("define ");
    reveal_strlit("(");
    let t = trim_left(line);
    assert(t.take(7) =~= "define "@);
    let u = t.skip(7);
    assert(u =~= name + "("@ + r);
    let n = name.len() as int;
    let v = until(u, ' ');
    crate::dump::lemma_first_at(u, ' ');
    let k = first_at(u, ' ') as int;
    assert forall|i: int| 0 <= i < n implies u[i] == name[i] by {
    }
    assert(u[n] == '(');
    assert(k > n) by {
        if k <= n {
            if k < u.len() {
                if k < n {
                    assert(name[k] != ' ');
                }
            }
        }
    }
    assert(v[n] == '(');
    assert forall|i: int| 0 <= i < n implies v[i] != '(' by {
        assert(v[i] == u[i]);
        assert(name[i] != '(');
    }
    lemma_first_at_is(v, '(', n);
    assert(v.take(n) =~= name);
}

/// The marked text is the marked lines, each with a line feed, in order.
pub proof fn every_line_is_marked(
    lines: Seq<Seq<char>>,
    i: int,
    f: Seq<char>,
    notes: Seq<NoteView>,
)
    requires
        0 <= i < lines.len(),
    ensures
        marked_from(lines, i, f, notes) == marked_line(lines[i], f, notes) + "\n"@ + marked_from(
            lines,
            i + 1,
            function_after(lines[i], f),
            notes,
        ),
        marked_from(lines, lines.len() as int, f, notes).len() == 0,
{
}

// Calls

/// Whether a statement calls `name` directly, with `k` arguments.
pub open spec fn calls_directly(s: StatementView, name: Seq<char>, k: nat) -> bool {
    s.kind matches StatementKindView::CallAssign { style: CallStyleView::DirectCall(names), args, .. }
        && names.contains(name) && args.len() == k
}

/// Whether some block has such a statement.
pub open spec fn some_statement(b: BlockView, name: Seq<char>, k: nat) -> bool {
    exists|i: int| 0 <= i < b.statements.len() && calls_directly(#[trigger] b.statements[i], name, k)
}

/// Whether some function has such a block.
pub open spec fn some_block(f: FunctionView, name: Seq<char>, k: nat) -> bool {
    exists|i: int| 0 <= i < f.blocks.len() && some_statement(#[trigger] f.blocks[i], name, k)
}

proof fn lemma_block_calls(b: BlockView, n: int, name: Seq<char>, k: nat)
    requires
        0 <= n <= b.statements.len(),
    ensures
        block_calls(b.statements, n).contains((name, k)) <==> exists|i: int|
            0 <= i < n && calls_directly(#[trigger] b.statements[i], name, k),
    decreases n,
{
    if n > 0 {
        lemma_block_calls(b, n - 1, name, k);
        let now = exists|i: int| 0 <= i < n && calls_directly(#[trigger] b.statements[i], name, k);
        let earlier = exists|i: int|
            0 <= i < n - 1 && calls_directly(#[trigger] b.statements[i], name, k);
        assert(now <==> earlier || calls_directly(b.statements[n - 1], name, k));
    }
}

proof fn lemma_function_calls(f: FunctionView, n: int, name: Seq<char>, k: nat)
    requires
        0 <= n <= f.blocks.len(),
    ensures
        function_calls(f.blocks, n).contains((name, k)) <==> exists|i: int|
            0 <= i < n && some_statement(#[trigger] f.blocks[i], name, k),
    decreases n,
{
    if n > 0 {
        lemma_function_calls(f, n - 1, name, k);
        let b = f.blocks[n - 1];
        lemma_block_calls(b, b.statements.len() as int, name, k);
        let now = exists|i: int| 0 <= i < n && some_statement(#[trigger] f.blocks[i], name, k);
        let earlier = exists|i: int|
            0 <= i < n - 1 && some_statement(#[trigger] f.blocks[i], name, k);
        assert(now <==> earlier || some_statement(f.blocks[n - 1], name, k));
    }
}

proof fn lemma_program_calls(p: Seq<FunctionView>, n: int, name: Seq<char>, k: nat)
    requires
        0 <= n <= p.len(),
    ensures
        program_calls(p, n).contains((name, k)) <==> exists|i: int|
            0 <= i < n && some_block(#[trigger] p[i], name, k),
    decreases n,
{
    if n > 0 {
        lemma_program_calls(p, n - 1, name, k);
        let f = p[n - 1];
        lemma_function_calls(f, f.blocks.len() as int, name, k);
        let now = exists|i: int| 0 <= i < n && some_block(#[trigger] p[i], name, k);
        let earlier = exists|i: int| 0 <= i < n - 1 && some_block(#[trigger] p[i], name, k);
        assert(now <==> earlier || some_block(p[n - 1], name, k));
    }
}

/// A program calls a function exactly if one of its statements does.
pub proof fn a_program_calls_what_its_statements_call(p: Seq<FunctionView>, name: Seq<char>, k: nat)
    ensures
        calls(p, name, k) <==> exists|i: int| 0 <= i < p.len() && some_block(#[trigger] p[i], name, k),
{
    lemma_program_calls(p, p.len() as int, name, k);
}

/// A stub has a name, parameters that are passed by value, and no body.
pub proof fn a_stub_has_no_body(name: Seq<char>, k: nat)
    ensures
        stub(name, k).name == name,
        stub(name, k).params.len() == k,
        stub(name, k).blocks.len() == 0,
        forall|i: int| 0 <= i < k ==> #[trigger] stub(name, k).params[i] == ParameterType::ByVal,
{
}

// Variables

/// A variable goes by its own name, unless it shadows another: then it goes by the name and the number
/// of its scope and its own, which is not the name of what it shadows, nor that of one that shadows it
/// in another scope.
pub proof fn a_variable_that_shadows_has_a_name_of_its_own(s: ScopesView, v: VarView, w: VarView)
    ensures
        !v.shadows ==> ir_name(s, v) == v.name,
        v.shadows && v.sidx < s.len() ==> {
            &&& ir_name(s, v) == s[v.sidx as int].name + "."@ + dec(v.sidx as nat) + "."@ + v.name
            &&& ir_name(s, v) != v.name
        },
        v.shadows && w.shadows && v.sidx < s.len() && w.sidx < s.len() && v.name == w.name
            && s[v.sidx as int].name == s[w.sidx as int].name && v.sidx != w.sidx ==> ir_name(s, v)
            != ir_name(s, w),
{
    reveal_strlit(".");
    if v.shadows && v.sidx < s.len() {
        assert(ir_name(s, v).len() > v.name.len());
    }
    if v.shadows && w.shadows && v.sidx < s.len() && w.sidx < s.len() && v.name == w.name
        && s[v.sidx as int].name == s[w.sidx as int].name && v.sidx != w.sidx {
        let x = ir_name(s, v);
        let y = ir_name(s, w);
        let front = (s[v.sidx as int].name + "."@).len() as int;
        let a = dec(v.sidx as nat);
        let b = dec(w.sidx as nat);
        if x == y {
            assert(x.len() == front + a.len() + 1 + v.name.len());
            assert(y.len() == front + b.len() + 1 + v.name.len());
            assert(x.subrange(front, front + a.len()) =~= a);
            assert(y.subrange(front, front + b.len()) =~= b);
            crate::text::dec_is_injective(v.sidx as nat, w.sidx as nat);
        }
    }
}

/// With its stubs a program keeps its functions, in their places, and what was noted and reported.
pub proof fn stubs_come_after_the_program(low: LoweredView, out: LoweredView)
    requires
        with_stubs(low, out),
    ensures
        low.program.is_prefix_of(out.program),
        out.has_error == low.has_error,
        out.notes == low.notes,
        out.reports == low.reports,
        forall|i: int|
            low.program.len() <= i < out.program.len() ==> (#[trigger] out.program[i]).blocks.len()
                == 0,
{
    let stubs = choose|stubs: Seq<FunctionView>| #[trigger]
        stubs_for(low.program, stubs) && out.program == low.program + stubs;
    assert forall|i: int| low.program.len() <= i < out.program.len() implies (
    #[trigger] out.program[i]).blocks.len() == 0 by {
        let x = stubs[i - low.program.len()];
        assert(x == stub(x.name, x.params.len()));
    }
}

} // verus!
