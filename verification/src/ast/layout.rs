//! The two text styles of a JSON node differ in layout alone: taking the
//! layout out of the pretty text gives the compact text.

use crate::ast::json::{
    compact_fields, compact_items, indent_unit, pretty_fields, pretty_items, JSONFormat, JSONView,
    JSON,
};
use crate::ast::AST;
use crate::text::{join, lemma_single_line_concat, lemma_single_line_join, single_line};
use vstd::prelude::*;

verus! {

/// `text` without its layout, read from a point where `after_comma` says
/// whether the last character kept was a comma and `in_indent` whether a
/// newline and nothing but spaces came since. A newline goes, and so do the
/// spaces that follow it; where the newline followed a comma, one space
/// stands in its place. Everything else stays.
pub open spec fn strip_from(text: Seq<char>, after_comma: bool, in_indent: bool) -> Seq<char>
    decreases text.len(),
{
    if text.len() == 0 {
        Seq::empty()
    } else {
        let c = text[0];
        let rest = text.drop_first();
        if c == '\n' {
            if after_comma {
                seq![' '] + strip_from(rest, false, true)
            } else {
                strip_from(rest, false, true)
            }
        } else if in_indent && c == ' ' {
            strip_from(rest, false, true)
        } else {
            seq![c] + strip_from(rest, c == ',', false)
        }
    }
}

/// `text` without its layout: without its newlines and the indentation that
/// follows them, and with `", "` for each comma at the end of a line.
pub open spec fn strip_layout(text: Seq<char>) -> Seq<char> {
    strip_from(text, false, false)
}

/// `text` without its layout, as [`strip_layout`] defines it.
pub fn without_layout(text: &str) -> (stripped: String)
    ensures
        stripped@ == strip_layout(text@),
{
    let mut stripped = String::new();
    let mut after_comma = false;
    let mut in_indent = false;
    assert(text@.skip(0) =~= text@);
    assert(stripped@ + strip_layout(text@) =~= strip_layout(text@));
    for c in it: text.chars()
        invariant
            it.seq() == text@,
            in_indent ==> !after_comma,
            stripped@ + strip_from(text@.skip(it.index()), after_comma, in_indent) == strip_layout(
                text@,
            ),
    {
        let ghost before = stripped@;
        let ghost rest = text@.skip(it.index() + 1);
        let ghost step = strip_from(seq![c] + rest, after_comma, in_indent);
        proof {
            assert(text@.skip(it.index()) =~= seq![c] + rest);
            lemma_strip_step(c, rest, after_comma, in_indent);
        }
        if c == '\n' {
            if after_comma {
                stripped.push(' ');
            }
            after_comma = false;
            in_indent = true;
        } else if !(in_indent && c == ' ') {
            stripped.push(c);
            after_comma = c == ',';
            in_indent = false;
        }
        assert(stripped@ + strip_from(rest, after_comma, in_indent) =~= before + step);
    }
    assert(text@.skip(text@.len() as int) =~= Seq::<char>::empty());
    assert(stripped@ + Seq::<char>::empty() =~= stripped@);
    stripped
}

/// Whether `text` is made of spaces alone.
pub open spec fn all_spaces(text: Seq<char>) -> bool {
    forall|i: int| 0 <= i < text.len() ==> text[i] == ' '
}

impl JSONView {
    /// Whether no name of a field, at any depth, holds a newline.
    pub open spec fn names_single_line(self) -> bool
        decreases self,
    {
        match self {
            JSONView::True | JSONView::False => true,
            JSONView::Array(items) => forall|i: int|
                0 <= i < items.len() ==> (#[trigger] items[i]).names_single_line(),
            JSONView::Object(fields) => forall|i: int|
                0 <= i < fields.len() ==> single_line((#[trigger] fields[i]).0)
                    && fields[i].1.names_single_line(),
        }
    }
}

/// One step of stripping, on a text given as its first character and the rest.
proof fn lemma_strip_step(c: char, rest: Seq<char>, after_comma: bool, in_indent: bool)
    ensures
        strip_from(seq![c] + rest, after_comma, in_indent) == if c == '\n' {
            if after_comma {
                seq![' '] + strip_from(rest, false, true)
            } else {
                strip_from(rest, false, true)
            }
        } else if in_indent && c == ' ' {
            strip_from(rest, false, true)
        } else {
            seq![c] + strip_from(rest, c == ',', false)
        },
{
    assert((seq![c] + rest).drop_first() =~= rest);
}

/// A piece without a newline that does not continue an indentation stays as
/// it is.
proof fn lemma_strip_plain(piece: Seq<char>, tail: Seq<char>, after_comma: bool, in_indent: bool)
    requires
        piece.len() > 0,
        single_line(piece),
        !(in_indent && piece[0] == ' '),
    ensures
        strip_from(piece + tail, after_comma, in_indent) == piece + strip_from(
            tail,
            piece.last() == ',',
            false,
        ),
    decreases piece.len(),
{
    let c = piece[0];
    let rest = piece.drop_first();
    assert(piece + tail =~= seq![c] + (rest + tail));
    lemma_strip_step(c, rest + tail, after_comma, in_indent);
    if rest.len() == 0 {
        assert(rest + tail =~= tail);
        assert(piece =~= seq![c]);
    } else {
        lemma_strip_plain(rest, tail, c == ',', false);
        assert(seq![c] + (rest + strip_from(tail, rest.last() == ',', false)) =~= piece
            + strip_from(tail, piece.last() == ',', false));
    }
}

/// Spaces that continue an indentation go.
proof fn lemma_strip_spaces(spaces: Seq<char>, tail: Seq<char>)
    requires
        all_spaces(spaces),
    ensures
        strip_from(spaces + tail, false, true) == strip_from(tail, false, true),
    decreases spaces.len(),
{
    if spaces.len() == 0 {
        assert(spaces + tail =~= tail);
    } else {
        let rest = spaces.drop_first();
        assert(spaces + tail =~= seq![' '] + (rest + tail));
        lemma_strip_step(' ', rest + tail, false, true);
        lemma_strip_spaces(rest, tail);
    }
}

/// A newline with the indentation behind it goes; after a comma one space
/// stands in its place.
proof fn lemma_strip_newline(
    indent: Seq<char>,
    tail: Seq<char>,
    after_comma: bool,
    in_indent: bool,
)
    requires
        all_spaces(indent),
    ensures
        strip_from("\n"@ + indent + tail, after_comma, in_indent) == if after_comma {
            seq![' '] + strip_from(tail, false, true)
        } else {
            strip_from(tail, false, true)
        },
{
    reveal_strlit("\n");
    assert("\n"@ + indent + tail =~= seq!['\n'] + (indent + tail));
    lemma_strip_step('\n', indent + tail, after_comma, in_indent);
    lemma_strip_spaces(indent, tail);
}

/// The pretty text of a node, wherever it stands, strips to its compact text,
/// and leaves the stripping of what follows at a fresh start.
proof fn lemma_strip_node(
    v: JSONView,
    indent: Seq<char>,
    tail: Seq<char>,
    after_comma: bool,
    in_indent: bool,
)
    requires
        v.names_single_line(),
        all_spaces(indent),
    ensures
        strip_from(v.pretty_text(indent) + tail, after_comma, in_indent) == v.compact_text()
            + strip_from(tail, false, false),
    decreases v, 0nat,
{
    let inner = indent + indent_unit();
    assert(all_spaces(inner)) by {
        reveal_strlit("    ");
    }
    match v {
        JSONView::True => {
            reveal_strlit("true");
            lemma_strip_plain("true"@, tail, after_comma, in_indent);
        },
        JSONView::False => {
            reveal_strlit("false");
            lemma_strip_plain("false"@, tail, after_comma, in_indent);
        },
        JSONView::Array(items) => {
            reveal_strlit("[");
            reveal_strlit("]");
            if items.len() == 0 {
                assert(compact_items(items) =~= Seq::<Seq<char>>::empty());
                assert(v.compact_text() =~= "["@ + "]"@);
                lemma_strip_plain("["@ + "]"@, tail, after_comma, in_indent);
            } else {
                let lines = pretty_items(items, inner);
                let texts = compact_items(items);
                let closing = "\n"@ + indent + ("]"@ + tail);
                let middle = "\n"@ + join(lines, ",\n"@) + closing;
                assert(v.pretty_text(indent) + tail =~= "["@ + middle);
                lemma_strip_plain("["@, middle, after_comma, in_indent);
                assert(lines.take(items.len() as int) =~= lines);
                assert(texts.take(items.len() as int) =~= texts);
                lemma_strip_items(items, inner, items.len(), closing);
                lemma_strip_newline(indent, "]"@ + tail, false, false);
                lemma_strip_plain("]"@, tail, false, true);
                assert(v.compact_text() + strip_from(tail, false, false) =~= "["@ + (join(
                    texts,
                    ", "@,
                ) + ("]"@ + strip_from(tail, false, false))));
            }
        },
        JSONView::Object(fields) => {
            reveal_strlit("{");
            reveal_strlit("}");
            if fields.len() == 0 {
                assert(compact_fields(fields) =~= Seq::<Seq<char>>::empty());
                assert(v.compact_text() =~= "{"@ + "}"@);
                lemma_strip_plain("{"@ + "}"@, tail, after_comma, in_indent);
            } else {
                let lines = pretty_fields(fields, inner);
                let texts = compact_fields(fields);
                let closing = "\n"@ + indent + ("}"@ + tail);
                let middle = "\n"@ + join(lines, ",\n"@) + closing;
                assert(v.pretty_text(indent) + tail =~= "{"@ + middle);
                lemma_strip_plain("{"@, middle, after_comma, in_indent);
                assert(lines.take(fields.len() as int) =~= lines);
                assert(texts.take(fields.len() as int) =~= texts);
                lemma_strip_fields(fields, inner, fields.len(), closing);
                lemma_strip_newline(indent, "}"@ + tail, false, false);
                lemma_strip_plain("}"@, tail, false, true);
                assert(v.compact_text() + strip_from(tail, false, false) =~= "{"@ + (join(
                    texts,
                    ", "@,
                ) + ("}"@ + strip_from(tail, false, false))));
            }
        },
    }
}

/// The first `count` lines of a pretty array, behind the newline that opens
/// them, strip to the compact texts of those elements with `", "` between.
proof fn lemma_strip_items(items: Seq<JSONView>, indent: Seq<char>, count: nat, tail: Seq<char>)
    requires
        1 <= count <= items.len(),
        forall|i: int| 0 <= i < items.len() ==> (#[trigger] items[i]).names_single_line(),
        all_spaces(indent),
    ensures
        strip_from(
            "\n"@ + join(pretty_items(items, indent).take(count as int), ",\n"@) + tail,
            false,
            false,
        ) == join(compact_items(items).take(count as int), ", "@) + strip_from(tail, false, false),
    decreases items, count,
{
    let lines = pretty_items(items, indent);
    let texts = compact_items(items);
    let last = count - 1;
    let item = items[last];
    let pretty = item.pretty_text(indent);
    assert(lines[last] == indent + pretty);
    assert(texts[last] == item.compact_text());
    lemma_strip_node(item, indent, tail, false, true);
    if count == 1 {
        assert(lines.take(1) =~= seq![lines[0]]);
        assert(texts.take(1) =~= seq![texts[0]]);
        assert("\n"@ + join(lines.take(1), ",\n"@) + tail =~= "\n"@ + indent + (pretty + tail));
        lemma_strip_newline(indent, pretty + tail, false, false);
    } else {
        let before = lines.take(last);
        assert(lines.take(count as int).drop_last() =~= before);
        assert(texts.take(count as int).drop_last() =~= texts.take(last));
        let next = ",\n"@ + (indent + pretty) + tail;
        assert("\n"@ + join(lines.take(count as int), ",\n"@) + tail =~= "\n"@ + join(
            before,
            ",\n"@,
        ) + next);
        lemma_strip_items(items, indent, last as nat, next);
        lemma_strip_separator(indent, pretty + tail);
        assert(next =~= ",\n"@ + indent + (pretty + tail));
        assert(join(texts.take(count as int), ", "@) + strip_from(tail, false, false) =~= join(
            texts.take(last),
            ", "@,
        ) + (", "@ + (item.compact_text() + strip_from(tail, false, false))));
    }
}

/// The first `count` lines of a pretty object, behind the newline that opens
/// them, strip to the compact texts of those fields with `", "` between.
proof fn lemma_strip_fields(
    fields: Seq<(Seq<char>, JSONView)>,
    indent: Seq<char>,
    count: nat,
    tail: Seq<char>,
)
    requires
        1 <= count <= fields.len(),
        forall|i: int|
            0 <= i < fields.len() ==> single_line((#[trigger] fields[i]).0)
                && fields[i].1.names_single_line(),
        all_spaces(indent),
    ensures
        strip_from(
            "\n"@ + join(pretty_fields(fields, indent).take(count as int), ",\n"@) + tail,
            false,
            false,
        ) == join(compact_fields(fields).take(count as int), ", "@) + strip_from(
            tail,
            false,
            false,
        ),
    decreases fields, count,
{
    let lines = pretty_fields(fields, indent);
    let texts = compact_fields(fields);
    let last = count - 1;
    let name = fields[last].0;
    let value = fields[last].1;
    let label = "\""@ + name + "\": "@;
    let pretty = value.pretty_text(indent);
    assert(lines[last] =~= indent + (label + pretty));
    assert(texts[last] =~= label + value.compact_text());
    // the name in its quotes stays, and the value behind it strips as a node
    assert(single_line(label) && label.len() > 0 && label[0] != ' ' && label.last() != ',') by {
        reveal_strlit("\"");
        reveal_strlit("\": ");
    }
    lemma_strip_plain(label, pretty + tail, false, true);
    lemma_strip_node(value, indent, tail, false, false);
    let field = label + pretty;
    assert(field + tail =~= label + (pretty + tail));
    if count == 1 {
        assert(lines.take(1) =~= seq![lines[0]]);
        assert(texts.take(1) =~= seq![texts[0]]);
        assert("\n"@ + join(lines.take(1), ",\n"@) + tail =~= "\n"@ + indent + (field + tail));
        lemma_strip_newline(indent, field + tail, false, false);
        assert(texts[0] + strip_from(tail, false, false) =~= label + (value.compact_text()
            + strip_from(tail, false, false)));
    } else {
        let before = lines.take(last);
        assert(lines.take(count as int).drop_last() =~= before);
        assert(texts.take(count as int).drop_last() =~= texts.take(last));
        let next = ",\n"@ + (indent + field) + tail;
        assert("\n"@ + join(lines.take(count as int), ",\n"@) + tail =~= "\n"@ + join(
            before,
            ",\n"@,
        ) + next);
        lemma_strip_fields(fields, indent, last as nat, next);
        lemma_strip_separator(indent, field + tail);
        assert(next =~= ",\n"@ + indent + (field + tail));
        assert(join(texts.take(count as int), ", "@) + strip_from(tail, false, false) =~= join(
            texts.take(last),
            ", "@,
        ) + (", "@ + (label + (value.compact_text() + strip_from(tail, false, false)))));
    }
}

/// A comma at the end of a line, with the indentation of the next line,
/// strips to a comma and one space.
proof fn lemma_strip_separator(indent: Seq<char>, tail: Seq<char>)
    requires
        all_spaces(indent),
    ensures
        strip_from(",\n"@ + indent + tail, false, false) == ", "@ + strip_from(tail, false, true),
{
    reveal_strlit(",\n");
    reveal_strlit(", ");
    reveal_strlit("\n");
    assert(",\n"@ + indent + tail =~= seq![','] + ("\n"@ + indent + tail));
    lemma_strip_step(',', "\n"@ + indent + tail, false, false);
    lemma_strip_newline(indent, tail, true, false);
    assert(seq![','] + (seq![' '] + strip_from(tail, false, true)) =~= ", "@ + strip_from(
        tail,
        false,
        true,
    ));
}

/// Taking the layout out of the pretty text of a node gives its compact text,
/// provided that no name of a field holds a newline. (A newline in a name is
/// text, not layout, and the compact style keeps it.)
pub proof fn lemma_pretty_strips_to_compact(v: JSONView)
    requires
        v.names_single_line(),
    ensures
        strip_layout(JSON::text(v, JSONFormat::Pretty)) == JSON::text(v, JSONFormat::Compact),
{
    let pretty = v.pretty_text(Seq::empty());
    lemma_strip_node(v, Seq::empty(), Seq::empty(), false, false);
    assert(pretty + Seq::<char>::empty() =~= pretty);
    assert(v.compact_text() + strip_from(Seq::empty(), false, false) =~= v.compact_text());
}

/// What is left of a text without its layout holds no newline.
proof fn lemma_strip_single_line(text: Seq<char>, after_comma: bool, in_indent: bool)
    ensures
        single_line(strip_from(text, after_comma, in_indent)),
    decreases text.len(),
{
    if text.len() > 0 {
        let c = text[0];
        let rest = text.drop_first();
        if c == '\n' {
            lemma_strip_single_line(rest, false, true);
            lemma_single_line_concat(seq![' '], strip_from(rest, false, true));
        } else if in_indent && c == ' ' {
            lemma_strip_single_line(rest, false, true);
        } else {
            lemma_strip_single_line(rest, c == ',', false);
            lemma_single_line_concat(seq![c], strip_from(rest, c == ',', false));
        }
    }
}

/// The compact text of a node keeps a newline that the name of a field holds.
proof fn lemma_compact_keeps_names(v: JSONView)
    requires
        single_line(v.compact_text()),
    ensures
        v.names_single_line(),
    decreases v,
{
    match v {
        JSONView::True | JSONView::False => {},
        JSONView::Array(items) => {
            let texts = compact_items(items);
            lemma_single_line_concat("["@ + join(texts, ", "@), "]"@);
            lemma_single_line_concat("["@, join(texts, ", "@));
            assert forall|i: int| 0 <= i < items.len() implies (
            #[trigger] items[i]).names_single_line() by {
                lemma_single_line_join(texts, ", "@, i);
                lemma_compact_keeps_names(items[i]);
            }
        },
        JSONView::Object(fields) => {
            let texts = compact_fields(fields);
            lemma_single_line_concat("{"@ + join(texts, ", "@), "}"@);
            lemma_single_line_concat("{"@, join(texts, ", "@));
            assert forall|i: int| 0 <= i < fields.len() implies single_line(
                (#[trigger] fields[i]).0,
            ) && fields[i].1.names_single_line() by {
                let name = fields[i].0;
                let value = fields[i].1.compact_text();
                lemma_single_line_join(texts, ", "@, i);
                lemma_single_line_concat("\""@ + name + "\": "@, value);
                lemma_single_line_concat("\""@ + name, "\": "@);
                lemma_single_line_concat("\""@, name);
                lemma_compact_keeps_names(fields[i].1);
            }
        },
    }
}

/// Where the name of a field holds a newline, the pretty text without its
/// layout is not the compact text: the newline of the name goes with the
/// layout, and the compact text keeps it.
pub proof fn lemma_newline_in_name_is_lost(v: JSONView)
    requires
        !v.names_single_line(),
    ensures
        strip_layout(JSON::text(v, JSONFormat::Pretty)) != JSON::text(v, JSONFormat::Compact),
{
    lemma_strip_single_line(v.pretty_text(Seq::empty()), false, false);
    if single_line(v.compact_text()) {
        lemma_compact_keeps_names(v);
    }
}

} // verus!
