//! A view of a node as a tree drawn with box characters, one line per node.
//! It reads a node through the contract alone, so every node type has it.

use crate::ast::AST;
use crate::text::{
    join, join_led, lemma_join_first, lemma_join_led_concat, lemma_join_led_one,
    lemma_newlines_join, newlines, pop_chars, single_line,
};
use vstd::prelude::*;

verus! {

/// The connector in front of a node's label: one form for the last child of
/// its parent, another for a child that has a later sibling.
pub open spec fn branch(last: bool) -> Seq<char> {
    if last {
        "└── "@
    } else {
        "├── "@
    }
}

/// What a node adds to the prefix of the lines below it: blank under a last
/// child, a vertical rule under a child that has a later sibling.
pub open spec fn rail(last: bool) -> Seq<char> {
    if last {
        "    "@
    } else {
        "│   "@
    }
}

/// The lines of the children of `v` from index `from` on, each child followed
/// by all that lies below it, where `prefix` stands for the ancestors of those
/// children.
pub open spec fn lines_below<T: AST>(v: T::V, prefix: Seq<char>, from: nat) -> Seq<Seq<char>>
    decreases T::height(v), T::children(v).len() - from,
{
    let children = T::children(v);
    if from >= children.len() {
        Seq::empty()
    } else {
        let child = children[from as int];
        let last = from + 1 == children.len();
        proof {
            T::lemma_children_lower(v, from as int);
        }
        seq![prefix + branch(last) + T::display_name(child)] + lines_below::<T>(
            child,
            prefix + rail(last),
            0,
        ) + lines_below::<T>(v, prefix, from + 1)
    }
}

/// The lines of the tree view of `v`: its label, then its descendants depth
/// first.
pub open spec fn tree_lines<T: AST>(v: T::V) -> Seq<Seq<char>> {
    seq![T::display_name(v)] + lines_below::<T>(v, Seq::empty(), 0)
}

/// The tree view of `v`: its lines with a newline between each two.
pub open spec fn tree_text<T: AST>(v: T::V) -> Seq<char> {
    join(tree_lines::<T>(v), "\n"@)
}

/// The number of nodes below the children of `v` from index `from` on, those
/// children included.
pub open spec fn descendants_from<T: AST>(v: T::V, from: nat) -> nat
    decreases T::height(v), T::children(v).len() - from,
{
    let children = T::children(v);
    if from >= children.len() {
        0
    } else {
        proof {
            T::lemma_children_lower(v, from as int);
        }
        1 + descendants_from::<T>(children[from as int], 0) + descendants_from::<T>(v, from + 1)
    }
}

/// The number of nodes below `v`.
pub open spec fn descendant_count<T: AST>(v: T::V) -> nat {
    descendants_from::<T>(v, 0)
}

/// Below a node there is one line for each descendant.
pub proof fn lemma_lines_below_count<T: AST>(v: T::V, prefix: Seq<char>, from: nat)
    ensures
        lines_below::<T>(v, prefix, from).len() == descendants_from::<T>(v, from),
    decreases T::height(v), T::children(v).len() - from,
{
    let children = T::children(v);
    if from < children.len() {
        let last = from + 1 == children.len();
        T::lemma_children_lower(v, from as int);
        lemma_lines_below_count::<T>(children[from as int], prefix + rail(last), 0);
        lemma_lines_below_count::<T>(v, prefix, from + 1);
    }
}

/// The tree view of a node has one line for the node and one for each of its
/// descendants.
pub proof fn lemma_tree_view_line_count<T: AST>(v: T::V)
    ensures
        tree_lines::<T>(v).len() == 1 + descendant_count::<T>(v),
{
    lemma_lines_below_count::<T>(v, Seq::empty(), 0);
}

/// Whether the labels of the children of `v` from index `from` on, and of
/// all that lies below them, hold no newline.
pub open spec fn labels_single_line_from<T: AST>(v: T::V, from: nat) -> bool
    decreases T::height(v), T::children(v).len() - from,
{
    let children = T::children(v);
    if from >= children.len() {
        true
    } else {
        proof {
            T::lemma_children_lower(v, from as int);
        }
        single_line(T::display_name(children[from as int])) && labels_single_line_from::<T>(
            children[from as int],
            0,
        ) && labels_single_line_from::<T>(v, from + 1)
    }
}

/// Whether the label of `v` and the labels of its descendants hold no
/// newline.
pub open spec fn labels_single_line<T: AST>(v: T::V) -> bool {
    single_line(T::display_name(v)) && labels_single_line_from::<T>(v, 0)
}

/// Where no label holds a newline, no line below a node does.
pub proof fn lemma_lines_below_single_line<T: AST>(v: T::V, prefix: Seq<char>, from: nat)
    requires
        single_line(prefix),
        labels_single_line_from::<T>(v, from),
    ensures
        forall|i: int|
            0 <= i < lines_below::<T>(v, prefix, from).len() ==> single_line(
                #[trigger] lines_below::<T>(v, prefix, from)[i],
            ),
    decreases T::height(v), T::children(v).len() - from,
{
    let children = T::children(v);
    if from < children.len() {
        let child = children[from as int];
        let last = from + 1 == children.len();
        let line = prefix + branch(last) + T::display_name(child);
        let deeper = lines_below::<T>(child, prefix + rail(last), 0);
        let rest = lines_below::<T>(v, prefix, from + 1);
        reveal_strlit("└── ");
        reveal_strlit("├── ");
        reveal_strlit("    ");
        reveal_strlit("│   ");
        assert(single_line(line));
        assert(single_line(prefix + rail(last)));
        T::lemma_children_lower(v, from as int);
        lemma_lines_below_single_line::<T>(child, prefix + rail(last), 0);
        lemma_lines_below_single_line::<T>(v, prefix, from + 1);
        let lines = lines_below::<T>(v, prefix, from);
        assert(lines == seq![line] + deeper + rest);
        assert forall|i: int| 0 <= i < lines.len() implies single_line(#[trigger] lines[i]) by {
            if i == 0 {
                assert(lines[i] == line);
            } else if i < 1 + deeper.len() {
                assert(lines[i] == deeper[i - 1]);
            } else {
                assert(lines[i] == rest[i - 1 - deeper.len()]);
            }
        }
    }
}

/// Where no label holds a newline, the tree view of a node holds one newline
/// for each of its descendants: the lines of the text are the lines of the
/// view.
pub proof fn lemma_tree_view_newlines<T: AST>(v: T::V)
    requires
        labels_single_line::<T>(v),
    ensures
        newlines(tree_text::<T>(v)) == descendant_count::<T>(v),
{
    let lines = tree_lines::<T>(v);
    let below = lines_below::<T>(v, Seq::empty(), 0);
    lemma_lines_below_single_line::<T>(v, Seq::empty(), 0);
    lemma_tree_view_line_count::<T>(v);
    assert forall|i: int| 0 <= i < lines.len() implies single_line(#[trigger] lines[i]) by {
        if i > 0 {
            assert(lines[i] == below[i - 1]);
        }
    }
    lemma_newlines_join(lines);
}

/// The lines below a node from one child on, each led by a newline: the
/// line of that child, what lies below it, and the lines from the next child
/// on.
proof fn lemma_lines_below_step<T: AST>(v: T::V, prefix: Seq<char>, from: nat)
    requires
        from < T::children(v).len(),
    ensures
        ({
            let child = T::children(v)[from as int];
            let last = from + 1 == T::children(v).len();
            join_led(lines_below::<T>(v, prefix, from), "\n"@) == "\n"@ + prefix + branch(last)
                + T::display_name(child) + join_led(
                lines_below::<T>(child, prefix + rail(last), 0),
                "\n"@,
            ) + join_led(lines_below::<T>(v, prefix, from + 1), "\n"@)
        }),
{
    let child = T::children(v)[from as int];
    let last = from + 1 == T::children(v).len();
    let line = prefix + branch(last) + T::display_name(child);
    let deeper = lines_below::<T>(child, prefix + rail(last), 0);
    let rest = lines_below::<T>(v, prefix, from + 1);
    assert(lines_below::<T>(v, prefix, from) == seq![line] + deeper + rest);
    lemma_join_led_concat(seq![line] + deeper, rest, "\n"@);
    lemma_join_led_concat(seq![line], deeper, "\n"@);
    lemma_join_led_one(line, "\n"@);
    assert("\n"@ + line =~= "\n"@ + prefix + branch(last) + T::display_name(child));
}

/// Appends the lines below `node`, each led by a newline. `prefix` stands for
/// the ancestors of the children of `node`; it grows by one unit around each
/// child's descendants and is handed back as it came.
fn write_lines_below<T: AST>(node: &T, string: &mut String, prefix: &mut String)
    ensures
        final(string)@ == old(string)@ + join_led(
            lines_below::<T>(node@, old(prefix)@, 0),
            "\n"@,
        ),
        final(prefix)@ == old(prefix)@,
    decreases T::height(node@),
{
    let children = node.get_children();
    let n = children.len();
    let ghost whole = old(string)@ + join_led(lines_below::<T>(node@, old(prefix)@, 0), "\n"@);
    for i in 0..n
        invariant
            n == children@.len(),
            n == T::children(node@).len(),
            forall|j: int|
                0 <= j < children@.len() ==> (#[trigger] children@[j])@ == T::children(node@)[j],
            prefix@ == old(prefix)@,
            whole == old(string)@ + join_led(lines_below::<T>(node@, old(prefix)@, 0), "\n"@),
            string@ + join_led(lines_below::<T>(node@, prefix@, i as nat), "\n"@) == whole,
    {
        let ghost before = string@;
        let child = children[i];
        let last = i + 1 == n;
        string.append("\n");
        string.append(prefix.as_str());
        string.append(
            if last {
                "└── "
            } else {
                "├── "
            },
        );
        let name = child.get_display_name();
        string.append(name.as_str());
        prefix.append(
            if last {
                "    "
            } else {
                "│   "
            },
        );
        assert(rail(last).len() == 4) by {
            reveal_strlit("    ");
            reveal_strlit("│   ");
        }
        proof {
            T::lemma_children_lower(node@, i as int);
        }
        write_lines_below(child, string, prefix);
        pop_chars(prefix, 4);
        assert(prefix@ == old(prefix)@) by {
            assert(prefix@ =~= old(prefix)@);
        }
        assert(string@ + join_led(lines_below::<T>(node@, prefix@, (i + 1) as nat), "\n"@)
            == whole) by {
            let deeper = join_led(lines_below::<T>(child@, prefix@ + rail(last), 0), "\n"@);
            let rest = join_led(lines_below::<T>(node@, prefix@, (i + 1) as nat), "\n"@);
            let head = "\n"@ + prefix@ + branch(last) + T::display_name(child@);
            lemma_lines_below_step::<T>(node@, prefix@, i as nat);
            assert(string@ == before + "\n"@ + prefix@ + branch(last) + T::display_name(child@)
                + deeper);
            assert(string@ + rest =~= before + (head + deeper + rest));
        }
    }
    assert(string@ == whole) by {
        assert(lines_below::<T>(node@, prefix@, n as nat) =~= Seq::<Seq<char>>::empty());
        assert(string@ + Seq::<char>::empty() =~= string@);
    }
}

/// The tree view of a node of any type that meets the contract.
pub trait TreeView: AST {
    /// Appends the tree view of this node to `string`.
    fn write_tree_view(&self, string: &mut String)
        ensures
            final(string)@ == old(string)@ + tree_text::<Self>(self@),
    ;

    /// The tree view of this node.
    fn tree_view(&self) -> (text: String)
        ensures
            text@ == tree_text::<Self>(self@),
    ;
}

impl<T: AST> TreeView for T {
    fn write_tree_view(&self, string: &mut String) {
        let name = self.get_display_name();
        string.append(name.as_str());
        let mut prefix = String::new();
        write_lines_below(self, string, &mut prefix);
        proof {
            lemma_join_first(
                T::display_name(self@),
                lines_below::<T>(self@, Seq::empty(), 0),
                "\n"@,
            );
            assert(string@ =~= old(string)@ + tree_text::<T>(self@));
        }
    }

    fn tree_view(&self) -> (text: String) {
        let mut text = String::new();
        self.write_tree_view(&mut text);
        assert(text@ =~= tree_text::<T>(self@));
        text
    }
}

} // verus!
