//! Text as sequences of characters: joining parts with a separator, and the
//! few `String` operations the writers need beyond what `vstd` specifies.

use vstd::prelude::*;

verus! {

/// Trusted: `String::pop` of the standard library. It takes the last character
/// off the string and returns it; on an empty string it returns `None` and
/// leaves the string empty.
pub assume_specification[ String::pop ](s: &mut String) -> (c: Option<char>)
    ensures
        old(s)@.len() == 0 ==> c is None && final(s)@ == old(s)@,
        old(s)@.len() > 0 ==> c == Some(old(s)@.last()) && final(s)@ == old(s)@.drop_last(),
;

/// Trusted: `String::push` of the standard library. It appends the character
/// to the end of the string.
pub assume_specification[ String::push ](s: &mut String, c: char)
    ensures
        final(s)@ == old(s)@.push(c),
;

/// The parts in order, with `sep` between each two neighbours.
pub open spec fn join(parts: Seq<Seq<char>>, sep: Seq<char>) -> Seq<char>
    decreases parts.len(),
{
    if parts.len() == 0 {
        Seq::empty()
    } else if parts.len() == 1 {
        parts[0]
    } else {
        join(parts.drop_last(), sep) + sep + parts.last()
    }
}

/// The parts in order, each preceded by `lead`.
pub open spec fn join_led(parts: Seq<Seq<char>>, lead: Seq<char>) -> Seq<char>
    decreases parts.len(),
{
    if parts.len() == 0 {
        Seq::empty()
    } else {
        join_led(parts.drop_last(), lead) + lead + parts.last()
    }
}

/// Joining one more part appends the separator and the part, unless the part
/// is the first.
pub proof fn lemma_join_push(parts: Seq<Seq<char>>, sep: Seq<char>, part: Seq<char>)
    ensures
        join(parts.push(part), sep) == if parts.len() == 0 {
            part
        } else {
            join(parts, sep) + sep + part
        },
{
    assert(parts.push(part).drop_last() =~= parts);
}

/// Joining a first part and the rest is the first part followed by the rest,
/// each led by the separator.
pub proof fn lemma_join_first(first: Seq<char>, rest: Seq<Seq<char>>, sep: Seq<char>)
    ensures
        join(seq![first] + rest, sep) == first + join_led(rest, sep),
    decreases rest.len(),
{
    let parts = seq![first] + rest;
    if rest.len() == 0 {
        assert(parts =~= seq![first]);
        assert(first + join_led(rest, sep) =~= first);
    } else {
        assert(parts.drop_last() =~= seq![first] + rest.drop_last());
        lemma_join_first(first, rest.drop_last(), sep);
        assert(join(parts, sep) =~= first + join_led(rest, sep));
    }
}

/// A single part led is the lead and the part.
pub proof fn lemma_join_led_one(part: Seq<char>, lead: Seq<char>)
    ensures
        join_led(seq![part], lead) == lead + part,
{
    reveal_with_fuel(join_led, 2);
    assert(seq![part].drop_last() =~= Seq::<Seq<char>>::empty());
    assert(join_led(seq![part], lead) =~= lead + part);
}

/// Leading distributes over concatenation of the parts.
pub proof fn lemma_join_led_concat(a: Seq<Seq<char>>, b: Seq<Seq<char>>, lead: Seq<char>)
    ensures
        join_led(a + b, lead) == join_led(a, lead) + join_led(b, lead),
    decreases b.len(),
{
    if b.len() == 0 {
        assert(a + b =~= a);
        assert(join_led(a, lead) + join_led(b, lead) =~= join_led(a, lead));
    } else {
        assert((a + b).drop_last() =~= a + b.drop_last());
        lemma_join_led_concat(a, b.drop_last(), lead);
        assert(join_led(a + b, lead) =~= join_led(a, lead) + join_led(b, lead));
    }
}

/// Whether `text` holds no newline.
pub open spec fn single_line(text: Seq<char>) -> bool {
    forall|i: int| 0 <= i < text.len() ==> text[i] != '\n'
}

/// A concatenation is of one line where both of its parts are.
pub proof fn lemma_single_line_concat(a: Seq<char>, b: Seq<char>)
    ensures
        single_line(a + b) <==> single_line(a) && single_line(b),
{
    if single_line(a + b) {
        assert forall|i: int| 0 <= i < a.len() implies a[i] != '\n' by {
            assert((a + b)[i] == a[i]);
        }
        assert forall|i: int| 0 <= i < b.len() implies b[i] != '\n' by {
            assert((a + b)[a.len() + i] == b[i]);
        }
    }
}

/// Parts joined are of one line only where each part is.
pub proof fn lemma_single_line_join(parts: Seq<Seq<char>>, sep: Seq<char>, i: int)
    requires
        0 <= i < parts.len(),
        single_line(join(parts, sep)),
    ensures
        single_line(parts[i]),
    decreases parts.len(),
{
    if parts.len() > 1 {
        let before = parts.drop_last();
        lemma_single_line_concat(join(before, sep) + sep, parts.last());
        lemma_single_line_concat(join(before, sep), sep);
        if i < before.len() {
            lemma_single_line_join(before, sep, i);
        }
    }
}

/// How many newlines `text` holds.
pub open spec fn newlines(text: Seq<char>) -> nat
    decreases text.len(),
{
    if text.len() == 0 {
        0
    } else if text.last() == '\n' {
        newlines(text.drop_last()) + 1
    } else {
        newlines(text.drop_last())
    }
}

/// The newlines of two texts add up in their concatenation.
pub proof fn lemma_newlines_concat(a: Seq<char>, b: Seq<char>)
    ensures
        newlines(a + b) == newlines(a) + newlines(b),
    decreases b.len(),
{
    if b.len() == 0 {
        assert(a + b =~= a);
    } else {
        assert((a + b).drop_last() =~= a + b.drop_last());
        lemma_newlines_concat(a, b.drop_last());
    }
}

/// A text of one line holds no newline.
pub proof fn lemma_newlines_single_line(text: Seq<char>)
    requires
        single_line(text),
    ensures
        newlines(text) == 0,
    decreases text.len(),
{
    if text.len() > 0 {
        lemma_newlines_single_line(text.drop_last());
    }
}

/// Lines joined by newlines hold one newline less than there are lines.
pub proof fn lemma_newlines_join(lines: Seq<Seq<char>>)
    requires
        lines.len() > 0,
        forall|i: int| 0 <= i < lines.len() ==> single_line(#[trigger] lines[i]),
    ensures
        newlines(join(lines, "\n"@)) == lines.len() - 1,
    decreases lines.len(),
{
    reveal_strlit("\n");
    lemma_newlines_single_line(lines.last());
    if lines.len() > 1 {
        let before = lines.drop_last();
        assert forall|i: int| 0 <= i < before.len() implies single_line(#[trigger] before[i]) by {
            assert(before[i] == lines[i]);
        }
        lemma_newlines_join(before);
        lemma_newlines_concat(join(before, "\n"@) + "\n"@, lines.last());
        lemma_newlines_concat(join(before, "\n"@), "\n"@);
        assert(newlines("\n"@) == 1) by {
            reveal_with_fuel(newlines, 2);
        }
    }
}

/// Takes the last `count` characters off `text`.
pub(crate) fn pop_chars(text: &mut String, count: usize)
    requires
        count <= old(text)@.len(),
    ensures
        final(text)@ == old(text)@.take(old(text)@.len() - count),
{
    let mut done: usize = 0;
    while done < count
        invariant
            done <= count <= old(text)@.len(),
            text@ == old(text)@.take(old(text)@.len() - done),
        decreases count - done,
    {
        text.pop();
        done += 1;
    }
}

} // verus!
