//! Nodes of a JSON dialect whose only values are `true` and `false`, and the
//! two styles in which such a node is written as text.

use crate::ast::tree_view::{
    descendant_count, labels_single_line_from, lemma_tree_view_line_count,
    lemma_tree_view_newlines, tree_lines, tree_text,
};
use crate::ast::AST;
use crate::text::{join, lemma_join_push, newlines, pop_chars, single_line};
use vstd::prelude::*;

verus! {

/// The code that stands for `true`.
pub const CHAR_TRUE: char = 't';

/// The code that stands for `false`.
pub const CHAR_FALSE: char = 'f';

/// The code that stands for an empty array.
pub const CHAR_ARRAY: char = 'a';

/// The code that stands for an empty object.
pub const CHAR_OBJECT: char = 'o';

/// The ways in which a JSON node can be written as text.
#[derive(Debug, Clone, Copy, PartialEq, Eq)]
pub enum JSONFormat {
    /// On one line, with a space after each comma and colon and no other
    /// whitespace: `[{"foo": true, "bar": false}, true]`.
    Compact,
    /// Every element of a non-empty array or object on a line of its own,
    /// indented by four spaces for each level of nesting.
    Pretty,
}

/// A node of the document tree. The order of elements and fields is kept as
/// it was given, and a name may occur more than once in an object.
#[derive(Debug, PartialEq, Eq)]
pub enum JSON {
    /// The value `true`.
    True,
    /// The value `false`.
    False,
    /// An array of values.
    Array(Vec<JSON>),
    /// An object: names with their values.
    Object(Vec<(String, JSON)>),
}

/// What a [`JSON`] node is, mathematically: the same tree over sequences.
pub enum JSONView {
    /// The value `true`.
    True,
    /// The value `false`.
    False,
    /// An array: its elements in order.
    Array(Seq<JSONView>),
    /// An object: its fields in order, each a name and a value.
    Object(Seq<(Seq<char>, JSONView)>),
}

impl JSON {
    /// The tree that this node holds.
    pub open spec fn tree(self) -> JSONView
        decreases self,
    {
        match self {
            JSON::True => JSONView::True,
            JSON::False => JSONView::False,
            JSON::Array(children) => JSONView::Array(
                Seq::new(
                    children@.len(),
                    |i: int|
                        if 0 <= i < children@.len() {
                            children@[i].tree()
                        } else {
                            arbitrary()
                        },
                ),
            ),
            JSON::Object(fields) => JSONView::Object(
                Seq::new(
                    fields@.len(),
                    |i: int|
                        if 0 <= i < fields@.len() {
                            (fields@[i].0@, fields@[i].1.tree())
                        } else {
                            arbitrary()
                        },
                ),
            ),
        }
    }
}

impl View for JSON {
    type V = JSONView;

    open spec fn view(&self) -> JSONView {
        self.tree()
    }
}

/// One level of indentation in the pretty style.
pub open spec fn indent_unit() -> Seq<char> {
    "    "@
}

/// A field of an object: the name in double quotes, a colon, a space, and the
/// value's text.
pub open spec fn field_text(name: Seq<char>, value: Seq<char>) -> Seq<char> {
    "\""@ + name + "\": "@ + value
}

/// The least number that none of `heights` exceeds.
pub open spec fn supremum(heights: Seq<nat>) -> nat
    decreases heights.len(),
{
    if heights.len() == 0 {
        0
    } else if heights.last() >= supremum(heights.drop_last()) {
        heights.last()
    } else {
        supremum(heights.drop_last())
    }
}

/// No element exceeds the supremum.
pub proof fn lemma_supremum_bounds(heights: Seq<nat>, i: int)
    requires
        0 <= i < heights.len(),
    ensures
        heights[i] <= supremum(heights),
    decreases heights.len(),
{
    if i < heights.len() - 1 {
        lemma_supremum_bounds(heights.drop_last(), i);
    }
}

impl JSONView {
    /// The children of this node: the elements of an array, the values of an
    /// object's fields, none for `true` and `false`.
    pub open spec fn children(self) -> Seq<JSONView> {
        match self {
            JSONView::True | JSONView::False => Seq::empty(),
            JSONView::Array(items) => items,
            JSONView::Object(fields) => Seq::new(fields.len(), |i: int| fields[i].1),
        }
    }

    /// The label of this node's shape.
    pub open spec fn display_name(self) -> Seq<char> {
        match self {
            JSONView::True => "true"@,
            JSONView::False => "false"@,
            JSONView::Array(_) => "array"@,
            JSONView::Object(_) => "object"@,
        }
    }

    /// The number of levels of arrays and objects in this node.
    pub open spec fn height(self) -> nat
        decreases self,
    {
        match self {
            JSONView::True | JSONView::False => 0,
            JSONView::Array(items) => 1 + supremum(item_heights(items)),
            JSONView::Object(fields) => 1 + supremum(field_heights(fields)),
        }
    }

    /// The text of this node in the compact style.
    pub open spec fn compact_text(self) -> Seq<char>
        decreases self,
    {
        match self {
            JSONView::True => "true"@,
            JSONView::False => "false"@,
            JSONView::Array(items) => "["@ + join(compact_items(items), ", "@) + "]"@,
            JSONView::Object(fields) => "{"@ + join(compact_fields(fields), ", "@) + "}"@,
        }
    }

    /// The text of this node in the pretty style, where the line on which the
    /// node starts is indented by `indent`.
    pub open spec fn pretty_text(self, indent: Seq<char>) -> Seq<char>
        decreases self,
    {
        match self {
            JSONView::True => "true"@,
            JSONView::False => "false"@,
            JSONView::Array(items) => if items.len() == 0 {
                "["@ + "]"@
            } else {
                "["@ + "\n"@ + join(pretty_items(items, indent + indent_unit()), ",\n"@) + "\n"@
                    + indent + "]"@
            },
            JSONView::Object(fields) => if fields.len() == 0 {
                "{"@ + "}"@
            } else {
                "{"@ + "\n"@ + join(pretty_fields(fields, indent + indent_unit()), ",\n"@) + "\n"@
                    + indent + "}"@
            },
        }
    }
}

/// The height of each element of an array.
pub open spec fn item_heights(items: Seq<JSONView>) -> Seq<nat>
    decreases items,
{
    Seq::new(
        items.len(),
        |i: int|
            if 0 <= i < items.len() {
                items[i].height()
            } else {
                arbitrary()
            },
    )
}

/// The height of the value of each field of an object.
pub open spec fn field_heights(fields: Seq<(Seq<char>, JSONView)>) -> Seq<nat>
    decreases fields,
{
    Seq::new(
        fields.len(),
        |i: int|
            if 0 <= i < fields.len() {
                fields[i].1.height()
            } else {
                arbitrary()
            },
    )
}

/// The compact text of each element of an array.
pub open spec fn compact_items(items: Seq<JSONView>) -> Seq<Seq<char>>
    decreases items,
{
    Seq::new(
        items.len(),
        |i: int|
            if 0 <= i < items.len() {
                items[i].compact_text()
            } else {
                arbitrary()
            },
    )
}

/// The compact text of each field of an object.
pub open spec fn compact_fields(fields: Seq<(Seq<char>, JSONView)>) -> Seq<Seq<char>>
    decreases fields,
{
    Seq::new(
        fields.len(),
        |i: int|
            if 0 <= i < fields.len() {
                field_text(fields[i].0, fields[i].1.compact_text())
            } else {
                arbitrary()
            },
    )
}

/// The lines of a pretty array's elements, each indented by `indent`.
pub open spec fn pretty_items(items: Seq<JSONView>, indent: Seq<char>) -> Seq<Seq<char>>
    decreases items,
{
    Seq::new(
        items.len(),
        |i: int|
            if 0 <= i < items.len() {
                indent + items[i].pretty_text(indent)
            } else {
                arbitrary()
            },
    )
}

/// The lines of a pretty object's fields, each indented by `indent`.
pub open spec fn pretty_fields(fields: Seq<(Seq<char>, JSONView)>, indent: Seq<char>) -> Seq<
    Seq<char>,
>
    decreases fields,
{
    Seq::new(
        fields.len(),
        |i: int|
            if 0 <= i < fields.len() {
                indent + field_text(fields[i].0, fields[i].1.pretty_text(indent))
            } else {
                arbitrary()
            },
    )
}

/// The view of an array holds the views of its children, in their order.
pub proof fn lemma_array_view(children: Vec<JSON>)
    ensures
        JSON::Array(children)@ is Array,
        JSON::Array(children)@->Array_0.len() == children@.len(),
        forall|i: int|
            0 <= i < children@.len() ==> JSON::Array(children)@->Array_0[i] == children@[i]@,
{
}

/// The view of an object holds the names of its fields with the views of
/// their values, in their order.
pub proof fn lemma_object_view(fields: Vec<(String, JSON)>)
    ensures
        JSON::Object(fields)@ is Object,
        JSON::Object(fields)@->Object_0.len() == fields@.len(),
        forall|i: int|
            0 <= i < fields@.len() ==> JSON::Object(fields)@->Object_0[i] == (
                fields@[i].0@,
                fields@[i].1@,
            ),
{
}

impl JSON {
    /// Appends the compact text of this node to `string`.
    pub fn write_text_compact(&self, string: &mut String)
        ensures
            final(string)@ == old(string)@ + self@.compact_text(),
        decreases self,
    {
        match self {
            JSON::True => {
                string.append("true");
            },
            JSON::False => {
                string.append("false");
            },
            JSON::Array(children) => {
                let ghost items = self@->Array_0;
                let ghost texts = compact_items(items);
                proof {
                    lemma_array_view(*children);
                }
                // All arrays start with a '['
                string.append("[");
                // Append all the children, separated by commas
                for i in 0..children.len()
                    invariant
                        *self == JSON::Array(*children),
                        items.len() == children@.len(),
                        forall|j: int| 0 <= j < items.len() ==> items[j] == children@[j]@,
                        texts == compact_items(items),
                        string@ == old(string)@ + "["@ + join(texts.take(i as int), ", "@),
                {
                    // Add the comma if this isn't the first element
                    if i > 0 {
                        string.append(", ");
                    }
                    assert(decreases_to!(*self => self->Array_0[i as int]));
                    children[i].write_text_compact(string);
                    proof {
                        assert(texts.take(i + 1) =~= texts.take(i as int).push(texts[i as int]));
                        lemma_join_push(texts.take(i as int), ", "@, texts[i as int]);
                        assert(string@ =~= old(string)@ + "["@ + join(texts.take(i + 1), ", "@));
                    }
                }
                assert(texts.take(children.len() as int) =~= texts);
                // Finish the array with a ']'
                string.append("]");
            },
            JSON::Object(fields) => {
                let ghost items = self@->Object_0;
                let ghost texts = compact_fields(items);
                proof {
                    lemma_object_view(*fields);
                }
                // All objects start with a '{'
                string.append("{");
                // Append all the fields, separated by commas
                for i in 0..fields.len()
                    invariant
                        *self == JSON::Object(*fields),
                        items.len() == fields@.len(),
                        forall|j: int|
                            0 <= j < items.len() ==> items[j] == (fields@[j].0@, fields@[j].1@),
                        texts == compact_fields(items),
                        string@ == old(string)@ + "{"@ + join(texts.take(i as int), ", "@),
                {
                    // Add the comma if this isn't the first element
                    if i > 0 {
                        string.append(", ");
                    }
                    // Push the field's name then a colon then the child value
                    let field = &fields[i];
                    string.append("\"");
                    string.append(field.0.as_str());
                    string.append("\": ");
                    assert(decreases_to!(*self => self->Object_0[i as int].1));
                    field.1.write_text_compact(string);
                    proof {
                        assert(texts.take(i + 1) =~= texts.take(i as int).push(texts[i as int]));
                        lemma_join_push(texts.take(i as int), ", "@, texts[i as int]);
                        assert(string@ =~= old(string)@ + "{"@ + join(texts.take(i + 1), ", "@));
                    }
                }
                assert(texts.take(fields.len() as int) =~= texts);
                // Finish the object with a '}'
                string.append("}");
            },
        }
    }

    /// Appends the pretty text of this node to `string`. The line on which the
    /// node starts is taken to be indented by what `indentation_buffer` holds;
    /// the buffer grows by one unit around the elements of a non-empty array
    /// or object and is handed back as it came.
    pub fn write_text_pretty(&self, string: &mut String, indentation_buffer: &mut String)
        ensures
            final(string)@ == old(string)@ + self@.pretty_text(old(indentation_buffer)@),
            final(indentation_buffer)@ == old(indentation_buffer)@,
        decreases self,
    {
        match self {
            JSON::True => {
                string.append("true");
            },
            JSON::False => {
                string.append("false");
            },
            JSON::Array(children) => {
                let ghost items = self@->Array_0;
                let ghost indent = indentation_buffer@ + indent_unit();
                let ghost lines = pretty_items(items, indent);
                proof {
                    lemma_array_view(*children);
                }
                // Push the '[' on its own line
                string.append("[");
                if children.len() > 0 {
                    string.append("\n");
                    // Indent by one extra level
                    indentation_buffer.append("    ");
                    // Append all the children, separated by commas
                    for i in 0..children.len()
                        invariant
                            *self == JSON::Array(*children),
                            items.len() == children@.len(),
                            forall|j: int| 0 <= j < items.len() ==> items[j] == children@[j]@,
                            indent == old(indentation_buffer)@ + indent_unit(),
                            indentation_buffer@ == indent,
                            lines == pretty_items(items, indent),
                            string@ == old(string)@ + "["@ + "\n"@ + join(
                                lines.take(i as int),
                                ",\n"@,
                            ),
                    {
                        // Add the comma if this isn't the first element
                        if i > 0 {
                            string.append(",\n");
                        }
                        // Indent and then render the child
                        string.append(indentation_buffer.as_str());
                        assert(decreases_to!(*self => self->Array_0[i as int]));
                        children[i].write_text_pretty(string, indentation_buffer);
                        proof {
                            assert(lines.take(i + 1) =~= lines.take(i as int).push(lines[i as int]));
                            lemma_join_push(lines.take(i as int), ",\n"@, lines[i as int]);
                            assert(string@ =~= old(string)@ + "["@ + "\n"@ + join(
                                lines.take(i + 1),
                                ",\n"@,
                            ));
                        }
                    }
                    assert(lines.take(children.len() as int) =~= lines);
                    // Return to the current indentation level
                    assert(indent_unit().len() == 4) by {
                        reveal_strlit("    ");
                    }
                    pop_chars(indentation_buffer, 4);
                    assert(indentation_buffer@ =~= old(indentation_buffer)@);
                    // Put the finishing ']' on its own line
                    string.append("\n");
                    string.append(indentation_buffer.as_str());
                }
                string.append("]");
                assert(string@ =~= old(string)@ + self@.pretty_text(old(indentation_buffer)@));
            },
            JSON::Object(fields) => {
                let ghost items = self@->Object_0;
                let ghost indent = indentation_buffer@ + indent_unit();
                let ghost lines = pretty_fields(items, indent);
                proof {
                    lemma_object_view(*fields);
                }
                // Push the '{' on its own line
                string.append("{");
                if fields.len() > 0 {
                    string.append("\n");
                    // Indent by one extra level
                    indentation_buffer.append("    ");
                    // Append all the fields, separated by commas
                    for i in 0..fields.len()
                        invariant
                            *self == JSON::Object(*fields),
                            items.len() == fields@.len(),
                            forall|j: int|
                                0 <= j < items.len() ==> items[j] == (fields@[j].0@, fields@[j].1@),
                            indent == old(indentation_buffer)@ + indent_unit(),
                            indentation_buffer@ == indent,
                            lines == pretty_fields(items, indent),
                            string@ == old(string)@ + "{"@ + "\n"@ + join(
                                lines.take(i as int),
                                ",\n"@,
                            ),
                    {
                        // Add the comma if this isn't the first element
                        if i > 0 {
                            string.append(",\n");
                        }
                        // Indent the right number of times
                        string.append(indentation_buffer.as_str());
                        // Push the field's name then a colon then the child value
                        let field = &fields[i];
                        string.append("\"");
                        string.append(field.0.as_str());
                        string.append("\": ");
                        assert(decreases_to!(*self => self->Object_0[i as int].1));
                        field.1.write_text_pretty(string, indentation_buffer);
                        proof {
                            assert(lines.take(i + 1) =~= lines.take(i as int).push(lines[i as int]));
                            lemma_join_push(lines.take(i as int), ",\n"@, lines[i as int]);
                            assert(string@ =~= old(string)@ + "{"@ + "\n"@ + join(
                                lines.take(i + 1),
                                ",\n"@,
                            ));
                        }
                    }
                    assert(lines.take(fields.len() as int) =~= lines);
                    // Return to the current indentation level
                    assert(indent_unit().len() == 4) by {
                        reveal_strlit("    ");
                    }
                    pop_chars(indentation_buffer, 4);
                    assert(indentation_buffer@ =~= old(indentation_buffer)@);
                    // Put the finishing '}' on its own line
                    string.append("\n");
                    string.append(indentation_buffer.as_str());
                }
                string.append("}");
                assert(string@ =~= old(string)@ + self@.pretty_text(old(indentation_buffer)@));
            },
        }
    }
}


impl Clone for JSON {
    /// A node with the same tree.
    fn clone(&self) -> (copy: JSON)
        ensures
            copy@ == self@,
        decreases self,
    {
        match self {
            JSON::True => JSON::True,
            JSON::False => JSON::False,
            JSON::Array(children) => {
                let mut copies: Vec<JSON> = Vec::new();
                for i in 0..children.len()
                    invariant
                        *self == JSON::Array(*children),
                        copies@.len() == i,
                        forall|j: int| 0 <= j < i ==> copies@[j]@ == children@[j]@,
                {
                    assert(decreases_to!(*self => self->Array_0[i as int]));
                    copies.push(children[i].clone());
                }
                proof {
                    lemma_array_view(*children);
                    lemma_array_view(copies);
                    assert(JSON::Array(copies)@->Array_0 =~= self@->Array_0);
                }
                JSON::Array(copies)
            },
            JSON::Object(fields) => {
                let mut copies: Vec<(String, JSON)> = Vec::new();
                for i in 0..fields.len()
                    invariant
                        *self == JSON::Object(*fields),
                        copies@.len() == i,
                        forall|j: int|
                            0 <= j < i ==> copies@[j].0@ == fields@[j].0@ && copies@[j].1@
                                == fields@[j].1@,
                {
                    assert(decreases_to!(*self => self->Object_0[i as int].1));
                    let name = fields[i].0.clone();
                    let value = fields[i].1.clone();
                    copies.push((name, value));
                }
                proof {
                    lemma_object_view(*fields);
                    lemma_object_view(copies);
                    assert(JSON::Object(copies)@->Object_0 =~= self@->Object_0);
                }
                JSON::Object(copies)
            },
        }
    }
}

impl Default for JSON {
    /// The empty object.
    fn default() -> (node: JSON)
        ensures
            node@ == JSONView::Object(Seq::empty()),
    {
        let fields: Vec<(String, JSON)> = Vec::new();
        proof {
            lemma_object_view(fields);
            assert(JSON::Object(fields)@->Object_0 =~= Seq::empty());
        }
        JSON::Object(fields)
    }
}

impl AST for JSON {
    type FormatStyle = JSONFormat;

    open spec fn text(v: JSONView, style: JSONFormat) -> Seq<char> {
        match style {
            JSONFormat::Compact => v.compact_text(),
            JSONFormat::Pretty => v.pretty_text(Seq::empty()),
        }
    }

    open spec fn children(v: JSONView) -> Seq<JSONView> {
        v.children()
    }

    open spec fn display_name(v: JSONView) -> Seq<char> {
        v.display_name()
    }

    open spec fn height(v: JSONView) -> nat {
        v.height()
    }

    open spec fn replace_chars() -> Seq<char> {
        seq![CHAR_TRUE, CHAR_FALSE, CHAR_ARRAY, CHAR_OBJECT]
    }

    open spec fn replacement(c: char) -> Option<JSONView> {
        if c == CHAR_TRUE {
            Some(JSONView::True)
        } else if c == CHAR_FALSE {
            Some(JSONView::False)
        } else if c == CHAR_ARRAY {
            Some(JSONView::Array(Seq::empty()))
        } else if c == CHAR_OBJECT {
            Some(JSONView::Object(Seq::empty()))
        } else {
            None
        }
    }

    proof fn lemma_children_lower(v: JSONView, i: int) {
        match v {
            JSONView::True | JSONView::False => {},
            JSONView::Array(items) => {
                lemma_supremum_bounds(item_heights(items), i);
            },
            JSONView::Object(fields) => {
                lemma_supremum_bounds(field_heights(fields), i);
            },
        }
    }

    proof fn lemma_palette_closed(c: char) {
        let palette = Self::replace_chars();
        assert(palette[0] == CHAR_TRUE && palette[1] == CHAR_FALSE && palette[2] == CHAR_ARRAY
            && palette[3] == CHAR_OBJECT);
    }

    proof fn lemma_palette_distinct() {
    }

    fn write_text(&self, string: &mut String, format_style: JSONFormat) {
        match format_style {
            JSONFormat::Compact => {
                self.write_text_compact(string);
            },
            JSONFormat::Pretty => {
                let mut indentation_buffer = String::new();
                self.write_text_pretty(string, &mut indentation_buffer);
            },
        }
    }

    fn get_children(&self) -> (children: Vec<&JSON>) {
        let mut found: Vec<&JSON> = Vec::new();
        match self {
            JSON::True | JSON::False => {},
            JSON::Array(children) => {
                proof {
                    lemma_array_view(*children);
                }
                for i in 0..children.len()
                    invariant
                        found@.len() == i,
                        forall|j: int| 0 <= j < i ==> *found@[j] == children@[j],
                {
                    found.push(&children[i]);
                }
            },
            JSON::Object(fields) => {
                proof {
                    lemma_object_view(*fields);
                }
                for i in 0..fields.len()
                    invariant
                        found@.len() == i,
                        forall|j: int| 0 <= j < i ==> *found@[j] == fields@[j].1,
                {
                    found.push(&fields[i].1);
                }
            },
        }
        found
    }

    fn get_display_name(&self) -> (name: String) {
        match self {
            JSON::True => "true".to_string(),
            JSON::False => "false".to_string(),
            JSON::Array(_) => "array".to_string(),
            JSON::Object(_) => "object".to_string(),
        }
    }

    fn get_replace_chars(&self) -> (chars: Vec<char>) {
        vec![CHAR_TRUE, CHAR_FALSE, CHAR_ARRAY, CHAR_OBJECT]
    }

    fn from_replace_char(&self, c: char) -> (node: Option<JSON>) {
        if c == CHAR_TRUE {
            Some(JSON::True)
        } else if c == CHAR_FALSE {
            Some(JSON::False)
        } else if c == CHAR_ARRAY {
            let children: Vec<JSON> = Vec::new();
            proof {
                lemma_array_view(children);
                assert(JSON::Array(children)@->Array_0 =~= Seq::empty());
            }
            Some(JSON::Array(children))
        } else if c == CHAR_OBJECT {
            let fields: Vec<(String, JSON)> = Vec::new();
            proof {
                lemma_object_view(fields);
                assert(JSON::Object(fields)@->Object_0 =~= Seq::empty());
            }
            Some(JSON::Object(fields))
        } else {
            None
        }
    }
}

/// `true` and `false` are written as their own words in both styles,
/// whatever the indentation.
pub proof fn lemma_leaf_text(v: JSONView, style: JSONFormat, indent: Seq<char>)
    requires
        v is True || v is False,
    ensures
        JSON::text(v, JSONFormat::Compact) == JSON::text(v, JSONFormat::Pretty),
        JSON::text(v, style) == if v is True {
            "true"@
        } else {
            "false"@
        },
        v.pretty_text(indent) == JSON::text(v, style),
{
}

/// An array or object without elements is written on one line in both
/// styles, whatever the indentation.
pub proof fn lemma_empty_text(v: JSONView, style: JSONFormat, indent: Seq<char>)
    requires
        v.children().len() == 0,
        v is Array || v is Object,
    ensures
        JSON::text(v, JSONFormat::Compact) == JSON::text(v, JSONFormat::Pretty),
        JSON::text(v, style) == if v is Array {
            "[]"@
        } else {
            "{}"@
        },
        v.pretty_text(indent) == JSON::text(v, style),
{
    reveal_strlit("[]");
    reveal_strlit("[");
    reveal_strlit("]");
    reveal_strlit("{}");
    reveal_strlit("{");
    reveal_strlit("}");
    match v {
        JSONView::Array(items) => {
            assert(compact_items(items) =~= Seq::<Seq<char>>::empty());
            assert("["@ + join(compact_items(items), ", "@) + "]"@ =~= "[]"@);
            assert("["@ + "]"@ =~= "[]"@);
        },
        JSONView::Object(fields) => {
            assert(compact_fields(fields) =~= Seq::<Seq<char>>::empty());
            assert("{"@ + join(compact_fields(fields), ", "@) + "}"@ =~= "{}"@);
            assert("{"@ + "}"@ =~= "{}"@);
        },
        _ => {},
    }
}

/// The parts of a node's text are the texts of its children, in the order of
/// `children`: the elements of an array, and the values of an object behind
/// their names.
pub proof fn lemma_text_follows_children(v: JSONView, indent: Seq<char>, i: int)
    requires
        0 <= i < v.children().len(),
    ensures
        v matches JSONView::Array(items) ==> {
            &&& compact_items(items).len() == v.children().len()
            &&& pretty_items(items, indent).len() == v.children().len()
            &&& compact_items(items)[i] == v.children()[i].compact_text()
            &&& pretty_items(items, indent)[i] == indent + v.children()[i].pretty_text(indent)
        },
        v matches JSONView::Object(fields) ==> {
            &&& compact_fields(fields).len() == v.children().len()
            &&& pretty_fields(fields, indent).len() == v.children().len()
            &&& compact_fields(fields)[i] == field_text(
                fields[i].0,
                v.children()[i].compact_text(),
            )
            &&& pretty_fields(fields, indent)[i] == indent + field_text(
                fields[i].0,
                v.children()[i].pretty_text(indent),
            )
        },
{
}

/// Two codes of the palette that differ stand for nodes of different shapes,
/// and every node that a code stands for is without children.
pub proof fn lemma_palette_shapes(c: char, d: char)
    requires
        JSON::replace_chars().contains(c),
        JSON::replace_chars().contains(d),
    ensures
        JSON::replacement(c) is Some,
        JSON::replacement(c)->0.children().len() == 0,
        c != d ==> JSON::replacement(c) != JSON::replacement(d),
{
    JSON::lemma_palette_closed(c);
    JSON::lemma_palette_closed(d);
}

/// No label of a JSON node holds a newline.
pub proof fn lemma_labels_single_line(v: JSONView, from: nat)
    ensures
        single_line(v.display_name()),
        labels_single_line_from::<JSON>(v, from),
    decreases v.height(), v.children().len() - from,
{
    reveal_strlit("true");
    reveal_strlit("false");
    reveal_strlit("array");
    reveal_strlit("object");
    if from < v.children().len() {
        JSON::lemma_children_lower(v, from as int);
        lemma_labels_single_line(v.children()[from as int], 0);
        lemma_labels_single_line(v, from + 1);
    }
}

/// The tree view of a JSON node holds one newline for each of its
/// descendants, so it has a line for the node and a line for each of them.
pub proof fn lemma_tree_view_lines(v: JSONView)
    ensures
        tree_lines::<JSON>(v).len() == 1 + descendant_count::<JSON>(v),
        newlines(tree_text::<JSON>(v)) == descendant_count::<JSON>(v),
{
    lemma_labels_single_line(v, 0);
    lemma_tree_view_line_count::<JSON>(v);
    lemma_tree_view_newlines::<JSON>(v);
}

} // verus!
