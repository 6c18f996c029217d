//! The contract of a document node, and what is built on it alone.

pub mod json;
pub mod layout;
pub mod tree_view;

use vstd::prelude::*;

verus! {

/// What a type of document node offers. Everything that the contract says of a
/// node is said of its view, so two nodes with one view are told apart by
/// nothing here.
///
/// A type states its side of the contract through the spec functions and
/// proves the three obligations: that the tree is well founded, and that its
/// palette of replacement codes is closed and free of repetition.
pub trait AST: Sized + View {
    /// The styles in which a node of this type can be written as text.
    type FormatStyle;

    /// The text of a node in a style.
    spec fn text(v: Self::V, style: Self::FormatStyle) -> Seq<char>;

    /// The children of a node, in the order in which its text holds them.
    spec fn children(v: Self::V) -> Seq<Self::V>;

    /// The label of a node's shape.
    spec fn display_name(v: Self::V) -> Seq<char>;

    /// A bound on the number of levels below a node.
    spec fn height(v: Self::V) -> nat;

    /// The codes by which a node of this type can be retyped.
    spec fn replace_chars() -> Seq<char>;

    /// The fresh node that a code stands for, if it stands for one.
    spec fn replacement(c: char) -> Option<Self::V>;

    /// Every child lies lower than its parent: a node is a finite tree.
    proof fn lemma_children_lower(v: Self::V, i: int)
        requires
            0 <= i < Self::children(v).len(),
        ensures
            Self::height(Self::children(v)[i]) < Self::height(v),
    ;

    /// The codes of the palette, and no others, stand for a node.
    proof fn lemma_palette_closed(c: char)
        ensures
            Self::replace_chars().contains(c) <==> Self::replacement(c) is Some,
    ;

    /// No code occurs twice in the palette.
    proof fn lemma_palette_distinct()
        ensures
            Self::replace_chars().no_duplicates(),
    ;

    /// Appends the text of this node in the given style to `string`.
    fn write_text(&self, string: &mut String, format_style: Self::FormatStyle)
        ensures
            final(string)@ == old(string)@ + Self::text(self@, format_style),
    ;

    /// The text of this node in the given style.
    fn to_text(&self, format_style: Self::FormatStyle) -> (text: String)
        ensures
            text@ == Self::text(self@, format_style),
    {
        let mut text = String::new();
        self.write_text(&mut text, format_style);
        assert(text@ =~= Self::text(self@, format_style));
        text
    }

    /// The children of this node, in order.
    fn get_children(&self) -> (children: Vec<&Self>)
        ensures
            children@.len() == Self::children(self@).len(),
            forall|i: int|
                0 <= i < children@.len() ==> (#[trigger] children@[i])@ == Self::children(
                    self@,
                )[i],
    ;

    /// The label of this node's shape.
    fn get_display_name(&self) -> (name: String)
        ensures
            name@ == Self::display_name(self@),
    ;

    /// The codes by which this node can be retyped: the palette of its type.
    fn get_replace_chars(&self) -> (chars: Vec<char>)
        ensures
            chars@ == Self::replace_chars(),
    ;

    /// A fresh node of the shape that `c` stands for, or `None` where `c` is
    /// not in the palette. Nothing of `self` goes into the new node.
    fn from_replace_char(&self, c: char) -> (node: Option<Self>)
        ensures
            match node {
                Some(fresh) => Self::replacement(c) == Some(fresh@),
                None => Self::replacement(c) is None,
            },
    ;
}

/// A code of the palette stands for a node, and that node can be retyped in
/// turn: its palette, which is that of its type, is not empty.
pub proof fn lemma_replacement_retypable<T: AST>(c: char)
    requires
        T::replace_chars().contains(c),
    ensures
        T::replacement(c) is Some,
        T::replace_chars().len() > 0,
{
    T::lemma_palette_closed(c);
}

/// A code outside the palette stands for no node.
pub proof fn lemma_replacement_not_found<T: AST>(c: char)
    requires
        !T::replace_chars().contains(c),
    ensures
        T::replacement(c) is None,
{
    T::lemma_palette_closed(c);
}

} // verus!
