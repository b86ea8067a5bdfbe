use vstd::prelude::*;

use crate::api_model::{Activator, DeferredMenuElement, MenuActionAttributes, MenuActionState, MenuSeparator};

verus! {

/// The image of a menu element: image data (of type `I`), or a system image
/// by name.
#[derive(Debug, Clone, PartialEq, Eq)]
pub enum MenuImage<I> {
    Image { data: I },
    System { name: String },
}

/// A menu entry that performs an action.
#[derive(Debug, Clone, PartialEq, Eq)]
pub struct MenuAction<I> {
    pub unique_id: i64,
    pub identifier: Option<String>,
    pub title: Option<String>,
    pub image: Option<MenuImage<I>>,
    pub subitle: Option<String>,
    pub attributes: MenuActionAttributes,
    pub state: MenuActionState,
    pub activator: Option<Activator>,
}

/// A menu with its elements.
#[derive(Debug, PartialEq, Eq)]
pub struct Menu<I> {
    pub unique_id: i64,
    pub identifier: Option<String>,
    pub title: Option<String>,
    pub subitle: Option<String>,
    pub image: Option<MenuImage<I>>,
    pub children: Vec<MenuElement<I>>,
}

/// An element of a menu.
#[derive(Debug, PartialEq, Eq)]
pub enum MenuElement<I> {
    Action(MenuAction<I>),
    Menu(Menu<I>),
    Deferred(DeferredMenuElement),
    Separator(MenuSeparator),
}

/// A title, or the empty string for none.
pub open spec fn title_or_empty(title: Option<String>) -> Seq<char> {
    match title {
        Some(t) => t@,
        None => Seq::empty(),
    }
}

/// The title, or the empty string for none.
pub fn title_string(title: &Option<String>) -> (res: String)
    ensures
        res@ == title_or_empty(*title),
{
    match title {
        Some(t) => t.clone(),
        None => String::new(),
    }
}

} // verus!
