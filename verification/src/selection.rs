//! What a query selects from a document, as plain values, and the rule that
//! turns a selection into one comparable string.

use vstd::prelude::*;

verus! {

/// One item of an evaluation result, reduced to what matching reads.
#[derive(Clone, Debug, PartialEq, Eq)]
pub enum Item {
    /// A node, by its concatenated text content.
    Node(String),
    /// An atomic string value.
    Text(String),
    /// Any other item: a boolean, a number, a qualified name, a function.
    Other,
}

/// The mathematical value of an [`Item`].
pub enum ItemView {
    Node(Seq<char>),
    Text(Seq<char>),
    Other,
}

impl View for Item {
    type V = ItemView;

    open spec fn view(&self) -> ItemView {
        match self {
            Item::Node(text) => ItemView::Node(text@),
            Item::Text(text) => ItemView::Text(text@),
            Item::Other => ItemView::Other,
        }
    }
}

/// The result of applying a compiled query to a parsed document.
#[derive(Clone, Debug, PartialEq, Eq)]
pub enum Selection {
    /// The engine reported an error while evaluating.
    Failed,
    /// The items that the query yielded, in the engine's order.
    Items(Vec<Item>),
}

/// The mathematical value of a [`Selection`].
pub enum SelectionView {
    Failed,
    Items(Seq<ItemView>),
}

impl View for Selection {
    type V = SelectionView;

    open spec fn view(&self) -> SelectionView {
        match self {
            Selection::Failed => SelectionView::Failed,
            Selection::Items(items) => SelectionView::Items(item_views(items@)),
        }
    }
}

/// The values of a sequence of items, one for one.
pub open spec fn item_views(items: Seq<Item>) -> Seq<ItemView> {
    items.map_values(|item: Item| item@)
}

/// The canonical value of a sequence of items: the empty string when nothing
/// was selected, else the text of the first item if it is a node or a string.
/// A first item of any other kind has no canonical value.
pub open spec fn canonical(items: Seq<ItemView>) -> Option<Seq<char>> {
    if items.len() == 0 {
        Some(Seq::empty())
    } else {
        match items[0] {
            ItemView::Node(text) => Some(text),
            ItemView::Text(text) => Some(text),
            ItemView::Other => None,
        }
    }
}

/// Computes the canonical value of the selected items.
pub fn canonical_value(items: &Vec<Item>) -> (value: Option<String>)
    ensures
        value.is_some() == canonical(item_views(items@)).is_some(),
        value.is_some() ==> value.unwrap()@ == canonical(item_views(items@)).unwrap(),
{
    if items.len() == 0 {
        Some(String::new())
    } else {
        match &items[0] {
            Item::Node(text) => Some(text.clone()),
            Item::Text(text) => Some(text.clone()),
            Item::Other => None,
        }
    }
}

} // verus!
