//! The printed IR, with each block's purpose written behind the line that begins it.

use vstd::prelude::*;
use crate::collections::views;
use crate::state::{Note, NoteView};
use crate::text::{chars_of, same, text_of, trim_left};

verus! {

broadcast use crate::collections::group_views;

/// Where `c` first occurs in `s`; the end of `s` if it does not.
pub open spec fn first_at(s: Seq<char>, c: char) -> nat
    decreases s.len(),
{
    if s.len() == 0 || s[0] == c {
        0
    } else {
        1 + first_at(s.drop_first(), c)
    }
}

/// `s` up to the first `c`.
pub open spec fn until(s: Seq<char>, c: char) -> Seq<char> {
    s.take(first_at(s, c) as int)
}

/// `s` without the carriage return it ends in, if it ends in one.
pub open spec fn without_return(s: Seq<char>) -> Seq<char> {
    if s.len() > 0 && s.last() == '\r' {
        s.drop_last()
    } else {
        s
    }
}

/// The lines of a text: each ends in a line feed, or a carriage return and a line feed, or at the
/// end of the text.
pub open spec fn lines_of(s: Seq<char>) -> Seq<Seq<char>>
    decreases s.len(),
{
    if s.len() == 0 {
        Seq::empty()
    } else {
        let n = first_at(s, '\n');
        if n >= s.len() {
            seq![s]
        } else {
            seq![without_return(s.take(n as int))] + lines_of(s.skip(n as int + 1))
        }
    }
}

/// Whether `s` starts with `p`.
pub open spec fn starts_with(s: Seq<char>, p: Seq<char>) -> bool {
    s.len() >= p.len() && s.take(p.len() as int) == p
}

/// Whether `c` is an ASCII digit.
pub open spec fn is_digit(c: char) -> bool {
    '0' <= c && c <= '9'
}

/// The digits `s` starts with.
pub open spec fn leading_digits(s: Seq<char>) -> Seq<char>
    decreases s.len(),
{
    if s.len() > 0 && is_digit(s[0]) {
        seq![s[0]] + leading_digits(s.drop_first())
    } else {
        Seq::empty()
    }
}

/// The number that a run of digits writes.
pub open spec fn number(s: Seq<char>) -> nat
    decreases s.len(),
{
    if s.len() == 0 {
        0
    } else {
        number(s.drop_last()) * 10 + (s.last() as nat - '0' as nat) as nat
    }
}

/// The 32-bit number that the digits `s` starts with write, if they write one.
pub open spec fn leading_number(s: Seq<char>) -> Option<nat> {
    let digits = leading_digits(s);
    if digits.len() > 0 && number(digits) <= u32::MAX {
        Some(number(digits))
    } else {
        None
    }
}

/// What the first `n` notes say of block `b` of function `f`, separated by `&`.
pub open spec fn explainers(notes: Seq<NoteView>, f: Seq<char>, b: nat, n: int) -> Option<Seq<char>>
    decreases n,
{
    if n <= 0 {
        None
    } else {
        let before = explainers(notes, f, b, n - 1);
        let note = notes[n - 1];
        if note.func_name == f && note.blidx == b {
            match before {
                Some(s) => Some(s + "&"@ + note.explainer),
                None => Some(note.explainer),
            }
        } else {
            before
        }
    }
}

/// `s` with ` | ` in place of each line feed.
pub open spec fn on_one_line(s: Seq<char>) -> Seq<char>
    decreases s.len(),
{
    if s.len() == 0 {
        Seq::empty()
    } else {
        on_one_line(s.drop_last()) + if s.last() == '\n' {
            " | "@
        } else {
            seq![s.last()]
        }
    }
}

/// The comment on block `b` of function `f`.
pub open spec fn comment(notes: Seq<NoteView>, f: Seq<char>, b: Option<nat>) -> Seq<char> {
    match b {
        Some(b) => match explainers(notes, f, b, notes.len() as int) {
            Some(s) => if s.len() > 0 {
                on_one_line(s)
            } else {
                "**MISSING**"@
            },
            None => "**MISSING**"@,
        },
        None => "**MISSING**"@,
    }
}

/// The function a line is about: the one it defines, or else `f`.
pub open spec fn function_after(line: Seq<char>, f: Seq<char>) -> Seq<char> {
    let t = trim_left(line);
    if starts_with(t, "define "@) {
        until(until(t.skip(7), ' '), '(')
    } else {
        f
    }
}

/// A line, with the comment on the block that it begins.
pub open spec fn marked_line(line: Seq<char>, f: Seq<char>, notes: Seq<NoteView>) -> Seq<char> {
    let t = trim_left(line);
    if !starts_with(t, "define "@) && starts_with(t, "begin block_"@) {
        line + " // "@ + comment(notes, f, leading_number(t.skip(12)))
    } else {
        line
    }
}

/// The lines from number `i` on, marked, each with a line feed; `f` is the function they are in.
pub open spec fn marked_from(
    lines: Seq<Seq<char>>,
    i: int,
    f: Seq<char>,
    notes: Seq<NoteView>,
) -> Seq<char>
    decreases lines.len() - i,
{
    if i < 0 || i >= lines.len() {
        Seq::empty()
    } else {
        marked_line(lines[i], f, notes) + "\n"@ + marked_from(
            lines,
            i + 1,
            function_after(lines[i], f),
            notes,
        )
    }
}

/// The printed IR with each block's purpose behind the line that begins it.
pub open spec fn marked_up(text: Seq<char>, notes: Seq<NoteView>) -> Seq<char> {
    marked_from(lines_of(text), 0, Seq::empty(), notes)
}

pub(crate) proof fn lemma_first_at(s: Seq<char>, c: char)
    ensures
        first_at(s, c) <= s.len(),
        first_at(s, c) < s.len() ==> s[first_at(s, c) as int] == c,
        forall|i: int| 0 <= i < first_at(s, c) ==> s[i] != c,
    decreases s.len(),
{
    if s.len() > 0 && s[0] != c {
        lemma_first_at(s.drop_first(), c);
        assert forall|i: int| 0 <= i < first_at(s, c) implies s[i] != c by {
            if i > 0 {
                assert(s.drop_first()[i - 1] == s[i]);
            }
        }
    }
}

pub(crate) proof fn lemma_first_at_is(s: Seq<char>, c: char, n: int)
    requires
        0 <= n <= s.len(),
        n < s.len() ==> s[n] == c,
        forall|i: int| 0 <= i < n ==> s[i] != c,
    ensures
        first_at(s, c) == n,
{
    lemma_first_at(s, c);
}

/// Where `c` first occurs in `v[from..]`; the end if it does not.
fn find_char(v: &Vec<char>, from: usize, c: char) -> (n: usize)
    requires
        from <= v@.len(),
    ensures
        from <= n <= v@.len(),
        n - from == first_at(v@.skip(from as int), c),
{
    let mut n: usize = from;
    while n < v.len() && v[n] != c
        invariant
            from <= n <= v@.len(),
            forall|i: int| from <= i < n ==> v@[i] != c,
        decreases v@.len() - n,
    {
        n = n + 1;
    }
    proof {
        lemma_first_at_is(v@.skip(from as int), c, n - from);
    }
    n
}

/// The lines of a text.
fn split_lines(v: &Vec<char>) -> (lines: Vec<String>)
    ensures
        views(lines@) == lines_of(v@),
{
    let mut lines: Vec<String> = Vec::new();
    let mut at: usize = 0;
    assert(views(lines@) + lines_of(v@.skip(0)) =~= lines_of(v@)) by {
        assert(v@.skip(0) =~= v@);
    }
    while at < v.len()
        invariant
            at <= v@.len(),
            views(lines@) + lines_of(v@.skip(at as int)) == lines_of(v@),
        decreases v@.len() - at,
    {
        let ghost left = v@.skip(at as int);
        let ghost before = views(lines@);
        let end = find_char(v, at, '\n');
        if end == v.len() {
            lines.push(text_of(v, at, end));
            at = end;
            assert(v@.subrange(at as int, end as int) =~= Seq::<char>::empty());
            assert(views(lines@) =~= before.push(left)) by {
                assert(v@.subrange(v@.len() - left.len(), end as int) =~= left);
            }
            assert(v@.skip(at as int) =~= Seq::<char>::empty());
            assert(views(lines@) + lines_of(v@.skip(at as int)) =~= before + seq![left]);
        } else {
            let ghost line = left.take(end - at);
            let stop: usize = if end > at && v[end - 1] == '\r' {
                end - 1
            } else {
                end
            };
            lines.push(text_of(v, at, stop));
            assert(v@.subrange(at as int, stop as int) =~= without_return(line));
            assert(left.skip(end - at + 1) =~= v@.skip(end + 1));
            at = end + 1;
            assert(views(lines@) + lines_of(v@.skip(at as int)) =~= before + (seq![
                without_return(line),
            ] + lines_of(v@.skip(at as int))));
        }
    }
    assert(v@.skip(at as int) =~= Seq::<char>::empty());
    assert(views(lines@) =~= lines_of(v@));
    lines
}

/// How much white space `v` starts with.
fn indentation(v: &Vec<char>) -> (n: usize)
    ensures
        n <= v@.len(),
        v@.skip(n as int) == trim_left(v@),
{
    let mut n: usize = 0;
    assert(v@.skip(0) =~= v@);
    while n < v.len() && v[n].is_whitespace()
        invariant
            n <= v@.len(),
            trim_left(v@) == trim_left(v@.skip(n as int)),
        decreases v@.len() - n,
    {
        assert(v@.skip(n as int).drop_first() =~= v@.skip(n + 1));
        n = n + 1;
    }
    n
}

/// Whether `v[from..]` starts with `p`.
fn begins(v: &Vec<char>, from: usize, p: &str) -> (b: bool)
    requires
        from <= v@.len(),
    ensures
        b == starts_with(v@.skip(from as int), p@),
{
    let pc = chars_of(p);
    if v.len() - from < pc.len() {
        return false;
    }
    let end: usize = v.len();
    let mut i: usize = 0;
    while i < pc.len()
        invariant
            pc@ == p@,
            end == v@.len(),
            from + pc@.len() <= end,
            i <= pc@.len(),
            forall|k: int| 0 <= k < i ==> v@[from + k] == pc@[k],
        decreases pc@.len() - i,
    {
        if v[from + i] != pc[i] {
            assert(v@.skip(from as int).take(p@.len() as int)[i as int] != p@[i as int]);
            return false;
        }
        i = i + 1;
    }
    assert(v@.skip(from as int).take(p@.len() as int) =~= p@);
    true
}

proof fn lemma_number_grows(s: Seq<char>, n: int)
    requires
        0 <= n <= s.len(),
    ensures
        number(s.take(n)) <= number(s),
    decreases s.len() - n,
{
    if n < s.len() {
        lemma_number_grows(s, n + 1);
        assert(s.take(n + 1).drop_last() =~= s.take(n));
    } else {
        assert(s.take(n) =~= s);
    }
}

/// The 32-bit number that `v[from..]` starts with.
fn read_number(v: &Vec<char>, from: usize) -> (n: Option<u32>)
    requires
        from <= v@.len(),
    ensures
        match n {
            Some(n) => leading_number(v@.skip(from as int)) == Some(n as nat),
            None => leading_number(v@.skip(from as int)) is None,
        },
{
    let ghost all = leading_digits(v@.skip(from as int));
    let mut value: u64 = 0;
    let mut at: usize = from;
    assert(v@.subrange(from as int, from as int) + all =~= all);
    assert(v@.subrange(from as int, from as int) =~= Seq::<char>::empty());
    while at < v.len() && '0' <= v[at] && v[at] <= '9'
        invariant
            from <= at <= v@.len(),
            all == leading_digits(v@.skip(from as int)),
            all == v@.subrange(from as int, at as int) + leading_digits(v@.skip(at as int)),
            value == number(v@.subrange(from as int, at as int)),
            value <= u32::MAX,
        decreases v@.len() - at,
    {
        let ghost seen = v@.subrange(from as int, at as int);
        let ghost now = v@.subrange(from as int, at + 1);
        assert(now =~= seen.push(v@[at as int]));
        assert(now.drop_last() =~= seen);
        assert(v@.skip(at as int).drop_first() =~= v@.skip(at + 1));
        assert(all =~= now + leading_digits(v@.skip(at + 1)));
        let d: u64 = v[at] as u64 - '0' as u64;
        value = value * 10 + d;
        at = at + 1;
        if value > 0xffff_ffff {
            proof {
                lemma_number_grows(all, now.len() as int);
                assert(all.take(now.len() as int) =~= now);
            }
            return None;
        }
    }
    assert(leading_digits(v@.skip(at as int)) =~= Seq::<char>::empty());
    assert(all =~= v@.subrange(from as int, at as int));
    if at == from {
        None
    } else {
        Some(value as u32)
    }
}

/// What the notes say of block `b` of function `f`, separated by `&`.
pub fn get_explainers(notes: &Vec<Note>, f: &str, b: u32) -> (s: Option<String>)
    ensures
        match s {
            Some(s) => explainers(views(notes@), f@, b as nat, notes@.len() as int) == Some(s@),
            None => explainers(views(notes@), f@, b as nat, notes@.len() as int) is None,
        },
{
    let mut found: Option<String> = None;
    let mut i: usize = 0;
    while i < notes.len()
        invariant
            i <= notes@.len(),
            match found {
                Some(s) => explainers(views(notes@), f@, b as nat, i as int) == Some(s@),
                None => explainers(views(notes@), f@, b as nat, i as int) is None,
            },
        decreases notes@.len() - i,
    {
        let note = &notes[i];
        assert(views(notes@)[i as int] == note@);
        if same(note.func_name.as_str(), f) && note.blidx == b as usize {
            found = match found {
                Some(s) => {
                    let mut s = s;
                    s.append("&");
                    s.append(note.explainer.as_str());
                    Some(s)
                },
                None => Some(note.explainer.clone()),
            };
        }
        i = i + 1;
    }
    found
}

/// `s` with ` | ` in place of each line feed.
fn flatten_lines(s: &str) -> (r: String)
    ensures
        r@ == on_one_line(s@),
{
    let v = chars_of(s);
    let mut r = String::new();
    let mut i: usize = 0;
    assert(v@.take(0) =~= Seq::<char>::empty());
    while i < v.len()
        invariant
            i <= v@.len(),
            r@ == on_one_line(v@.take(i as int)),
        decreases v@.len() - i,
    {
        assert(v@.take(i + 1).drop_last() =~= v@.take(i as int));
        let ghost before = r@;
        if v[i] == '\n' {
            r.append(" | ");
        } else {
            r.push(v[i]);
            assert(r@ =~= before + seq![v@[i as int]]);
        }
        i = i + 1;
    }
    assert(v@.take(i as int) =~= s@);
    r
}

/// The comment on block `b` of function `f`.
fn comment_on(notes: &Vec<Note>, f: &str, b: Option<u32>) -> (s: String)
    ensures
        s@ == comment(views(notes@), f@, match b {
            Some(b) => Some(b as nat),
            None => None,
        }),
{
    if let Some(b) = b {
        if let Some(s) = get_explainers(notes, f, b) {
            if s.as_str().unicode_len() > 0 {
                return flatten_lines(s.as_str());
            }
        }
    }
    String::from_str("**MISSING**")
}

/// Writes each block's purpose behind the line of the printed IR that begins it.
pub fn inject_explainers_into_ir(ir_text: &str, notes: &Vec<Note>) -> (s: String)
    ensures
        s@ == marked_up(ir_text@, views(notes@)),
{
    let ghost nv = views(notes@);
    let lines = split_lines(&chars_of(ir_text));
    let ghost lv = views(lines@);
    let mut result = String::new();
    let mut current_func = String::new();
    let mut i: usize = 0;
    assert(result@ + marked_from(lv, 0, current_func@, nv) =~= marked_from(lv, 0, Seq::empty(), nv));
    while i < lines.len()
        invariant
            i <= lines@.len(),
            lv == views(lines@),
            nv == views(notes@),
            result@ + marked_from(lv, i as int, current_func@, nv) == marked_from(
                lv,
                0,
                Seq::empty(),
                nv,
            ),
        decreases lines@.len() - i,
    {
        let ghost before = result@;
        let ghost func = current_func@;
        let line = lines[i].as_str();
        assert(lv[i as int] == line@);
        let v = chars_of(line);
        let width: usize = v.len();
        let at = indentation(&v);
        let ghost t = trim_left(line@);
        proof {
            reveal_strlit("define ");
            reveal_strlit("begin block_");
        }
        result.append(line);
        if begins(&v, at, "define ") {
            assert(at + 7 <= width);
            let start: usize = at + 7;
            assert(v@.skip(start as int) =~= t.skip(7));
            let space = find_char(&v, start, ' ');
            let ghost word = until(t.skip(7), ' ');
            let name_part = chars_of(text_of(&v, start, space).as_str());
            assert(name_part@ =~= word);
            let paren = find_char(&name_part, 0, '(');
            assert(name_part@.skip(0) =~= word);
            current_func = text_of(&name_part, 0, paren);
            assert(current_func@ =~= until(word, '('));
        } else if begins(&v, at, "begin block_") {
            assert(at + 12 <= width);
            assert(v@.skip(at + 12) =~= t.skip(12));
            let b = read_number(&v, at + 12);
            result.append(" // ");
            let said = comment_on(notes, current_func.as_str(), b);
            result.append(said.as_str());
        }
        assert(current_func@ == function_after(line@, func));
        assert(result@ =~= before + marked_line(line@, func, nv));
        result.append("\n");
        i = i + 1;
        assert(result@ + marked_from(lv, i as int, current_func@, nv) =~= before + marked_from(
            lv,
            i - 1,
            func,
            nv,
        ));
    }
    assert(result@ =~= marked_up(ir_text@, nv));
    result
}

/// A marked line begins with the line itself: marking only ever adds a comment at its end, and
/// only to a line that begins a block.
pub proof fn a_marked_line_keeps_its_text(line: Seq<char>, f: Seq<char>, notes: Seq<NoteView>)
    ensures
        starts_with(marked_line(line, f, notes), line),
        !starts_with(trim_left(line), "begin block_"@) ==> marked_line(line, f, notes) == line,
{
    assert(marked_line(line, f, notes).take(line.len() as int) =~= line);
}

} // verus!
