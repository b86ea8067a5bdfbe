use vstd::prelude::*;

use crate::api_model::MenuActionState;
use crate::menu::{title_or_empty, title_string, Menu, MenuElement, MenuImage};

verus! {

/// The state of a `UIMenuElement`.
#[derive(Debug, Clone, Copy, PartialEq, Eq, Structural)]
pub enum UiMenuState {
    Off,
    On,
    Mixed,
}

/// The UIKit state of an action's mark.
pub open spec fn ui_state(state: MenuActionState) -> UiMenuState {
    match state {
        MenuActionState::NoState => UiMenuState::Off,
        MenuActionState::CheckOff => UiMenuState::Off,
        MenuActionState::RadioOff => UiMenuState::Off,
        MenuActionState::CheckOn => UiMenuState::On,
        MenuActionState::RadioOn => UiMenuState::On,
        MenuActionState::CheckMixed => UiMenuState::Mixed,
    }
}

/// An action's element is in state `On` exactly when its check or radio mark
/// is on, `Mixed` exactly when its check mark is mixed, and `Off` otherwise.
pub proof fn lemma_ui_state_marks(state: MenuActionState)
    ensures
        (ui_state(state) == UiMenuState::On) == (state == MenuActionState::CheckOn || state
            == MenuActionState::RadioOn),
        (ui_state(state) == UiMenuState::Mixed) == (state == MenuActionState::CheckMixed),
        (ui_state(state) == UiMenuState::Off) == (state == MenuActionState::NoState || state
            == MenuActionState::CheckOff || state == MenuActionState::RadioOff),
{
}

pub fn menu_element_state(state: MenuActionState) -> (res: UiMenuState)
    ensures
        res == ui_state(state),
        (res == UiMenuState::On) == (state == MenuActionState::CheckOn || state == MenuActionState::RadioOn),
        (res == UiMenuState::Mixed) == (state == MenuActionState::CheckMixed),
        (res == UiMenuState::Off) == (state == MenuActionState::NoState || state == MenuActionState::CheckOff
            || state == MenuActionState::RadioOff),
{
    proof {
        lemma_ui_state_marks(state);
    }
    match state {
        MenuActionState::NoState => UiMenuState::Off,
        MenuActionState::CheckOff => UiMenuState::Off,
        MenuActionState::RadioOff => UiMenuState::Off,
        MenuActionState::CheckOn => UiMenuState::On,
        MenuActionState::RadioOn => UiMenuState::On,
        MenuActionState::CheckMixed => UiMenuState::Mixed,
    }
}

/// A `UIMenuElement` to build, with image data of type `I`.
pub enum UiMenuNode<I> {
    /// A `UIAction` that reports action `unique_id` when chosen.
    Action {
        unique_id: i64,
        title: String,
        image: Option<MenuImage<I>>,
        identifier: Option<String>,
        disabled: bool,
        destructive: bool,
        state: UiMenuState,
    },
    /// A `UIMenu`; an inline one shows its children in place, as a section.
    Menu {
        title: String,
        image: Option<MenuImage<I>>,
        identifier: Option<String>,
        inline: bool,
        children: Vec<UiMenuNode<I>>,
    },
    /// A `UIDeferredMenuElement` that loads deferred element `unique_id`.
    Deferred { unique_id: i64 },
}

/// `node` is the UIKit element for `element`, which is no separator.
pub open spec fn ui_node_matches<I>(element: MenuElement<I>, node: UiMenuNode<I>) -> bool
    decreases element, 0int,
{
    match element {
        MenuElement::Action(a) => match node {
            UiMenuNode::Action { unique_id, title, image, identifier, disabled, destructive, state } => {
                &&& unique_id == a.unique_id
                &&& title@ == title_or_empty(a.title)
                &&& image == a.image
                &&& identifier == a.identifier
                &&& disabled == a.attributes.disabled
                &&& destructive == a.attributes.destructive
                &&& state == ui_state(a.state)
            },
            _ => false,
        },
        MenuElement::Menu(m) => match node {
            UiMenuNode::Menu { title, image, identifier, inline, children } => {
                &&& title@ == title_or_empty(m.title)
                &&& image == m.image
                &&& identifier == m.identifier
                &&& !inline
                &&& ui_layout_matches(m.children@, children@)
            },
            _ => false,
        },
        MenuElement::Deferred(d) => node matches UiMenuNode::Deferred { unique_id } && unique_id
            == d.unique_id,
        MenuElement::Separator(_) => false,
    }
}

/// `nodes` are the UIKit elements for `elements`: the elements before the
/// first separator one for one, then for each separator an inline section,
/// titled by the separator, that holds the elements up to the next separator.
pub open spec fn ui_layout_matches<I>(elements: Seq<MenuElement<I>>, nodes: Seq<UiMenuNode<I>>) -> bool
    decreases elements, 0int,
{
    if elements.len() == 0 {
        nodes.len() == 0
    } else {
        match elements[0] {
            MenuElement::Separator(sep) => {
                &&& nodes.len() > 0
                &&& nodes[0] matches UiMenuNode::Menu { title, image, identifier, inline, children }
                &&& title@ == title_or_empty(sep.title)
                &&& image is None
                &&& identifier is None
                &&& inline
                &&& ui_section_matches(elements.drop_first(), children@, nodes.drop_first())
            },
            _ => {
                &&& nodes.len() > 0
                &&& ui_node_matches(elements[0], nodes[0])
                &&& ui_layout_matches(elements.drop_first(), nodes.drop_first())
            },
        }
    }
}

/// `children` are the UIKit elements for the elements of `elements` up to the
/// next separator, and `rest` is the layout from that separator on.
pub open spec fn ui_section_matches<I>(
    elements: Seq<MenuElement<I>>,
    children: Seq<UiMenuNode<I>>,
    rest: Seq<UiMenuNode<I>>,
) -> bool
    decreases elements, 1int,
{
    if elements.len() == 0 {
        children.len() == 0 && rest.len() == 0
    } else if elements[0] is Separator {
        children.len() == 0 && ui_layout_matches(elements, rest)
    } else {
        &&& children.len() > 0
        &&& ui_node_matches(elements[0], children[0])
        &&& ui_section_matches(elements.drop_first(), children.drop_first(), rest)
    }
}

/// Whether no element is a separator.
pub open spec fn no_separators<I>(elements: Seq<MenuElement<I>>) -> bool {
    forall|i: int| 0 <= i < elements.len() ==> !(#[trigger] elements[i] is Separator)
}

/// Without separators, the layout is one UIKit element per menu element, in
/// order.
pub proof fn lemma_layout_without_separators<I>(elements: Seq<MenuElement<I>>, nodes: Seq<UiMenuNode<I>>)
    requires
        no_separators(elements),
        ui_layout_matches(elements, nodes),
    ensures
        nodes.len() == elements.len(),
        forall|i: int| 0 <= i < elements.len() ==> ui_node_matches(#[trigger] elements[i], nodes[i]),
    decreases elements.len(),
{
    if elements.len() > 0 {
        assert(!(elements[0] is Separator));
        assert(no_separators(elements.drop_first())) by {
            assert forall|i: int| 0 <= i < elements.drop_first().len() implies !(#[trigger] elements.drop_first()[i] is Separator) by {
                assert(elements.drop_first()[i] == elements[i + 1]);
            }
        }
        lemma_layout_without_separators(elements.drop_first(), nodes.drop_first());
        assert forall|i: int| 0 <= i < elements.len() implies ui_node_matches(#[trigger] elements[i], nodes[i]) by {
            if i > 0 {
                assert(elements[i] == elements.drop_first()[i - 1]);
                assert(nodes[i] == nodes.drop_first()[i - 1]);
            }
        }
    }
}

/// The UIKit element for a menu element that is no separator.
pub fn convert_menu<I>(element: MenuElement<I>) -> (res: UiMenuNode<I>)
    requires
        !(element is Separator),
    ensures
        ui_node_matches(element, res),
    decreases element, 0int,
{
    let ghost original = element;
    match element {
        MenuElement::Action(a) => {
            let title = title_string(&a.title);
            let state = menu_element_state(a.state);
            UiMenuNode::Action {
                unique_id: a.unique_id,
                title,
                image: a.image,
                identifier: a.identifier,
                disabled: a.attributes.disabled,
                destructive: a.attributes.destructive,
                state,
            }
        },
        MenuElement::Menu(m) => {
            let title = title_string(&m.title);
            proof {
                assert(decreases_to!(original => m.children@));
            }
            let children = convert_elements(m.children);
            UiMenuNode::Menu { title, image: m.image, identifier: m.identifier, inline: false, children }
        },
        MenuElement::Deferred(d) => UiMenuNode::Deferred { unique_id: d.unique_id },
        MenuElement::Separator(_) => vstd::pervasive::unreached(),
    }
}

/// The UIKit elements for the elements of a menu, with separators turned into
/// inline sections.
pub fn convert_elements<I>(elements: Vec<MenuElement<I>>) -> (res: Vec<UiMenuNode<I>>)
    ensures
        ui_layout_matches(elements@, res@),
    decreases elements@, 0int,
{
    let ghost original = elements@;
    if elements.len() == 0 {
        return Vec::new();
    }
    let mut rest = elements;
    let first = rest.remove(0);
    proof {
        assert(first == original[0]);
        assert(rest@ == original.drop_first());
        assert(decreases_to!(original => first));
        assert(decreases_to!(original => rest@));
    }
    match first {
        MenuElement::Separator(sep) => {
            let title = title_string(&sep.title);
            let (children, mut nodes) = convert_section(rest);
            let ghost tail = nodes@;
            nodes.insert(
                0,
                UiMenuNode::Menu { title, image: None, identifier: None, inline: true, children },
            );
            proof {
                assert(nodes@.drop_first() == tail);
            }
            nodes
        },
        first => {
            let node = convert_menu(first);
            let mut nodes = convert_elements(rest);
            let ghost tail = nodes@;
            nodes.insert(0, node);
            proof {
                assert(nodes@.drop_first() == tail);
            }
            nodes
        },
    }
}

/// The UIKit elements of the section that starts with `elements` (up to the
/// next separator), and the elements for the rest.
fn convert_section<I>(elements: Vec<MenuElement<I>>) -> (res: (Vec<UiMenuNode<I>>, Vec<UiMenuNode<I>>))
    ensures
        ui_section_matches(elements@, res.0@, res.1@),
    decreases elements@, 1int,
{
    let ghost original = elements@;
    if elements.len() == 0 {
        return (Vec::new(), Vec::new());
    }
    let separator_next = match &elements[0] {
        MenuElement::Separator(_) => true,
        _ => false,
    };
    if separator_next {
        let nodes = convert_elements(elements);
        return (Vec::new(), nodes);
    }
    let mut rest = elements;
    let first = rest.remove(0);
    proof {
        assert(first == original[0]);
        assert(rest@ == original.drop_first());
        assert(decreases_to!(original => first));
        assert(decreases_to!(original => rest@));
    }
    let node = convert_menu(first);
    let (mut children, nodes) = convert_section(rest);
    let ghost tail = children@;
    children.insert(0, node);
    proof {
        assert(children@.drop_first() == tail);
    }
    (children, nodes)
}

/// The elements of a `UIMenu` for a whole menu: a menu that is not inline.
pub fn convert_root_menu<I>(menu: Menu<I>) -> (res: UiMenuNode<I>)
    ensures
        ui_node_matches(MenuElement::Menu(menu), res),
{
    convert_menu(MenuElement::Menu(menu))
}

/// The preview that a context menu configuration shows.
#[derive(Debug, Clone, Copy, PartialEq, Eq, Structural)]
pub enum MenuPreview {
    /// The preview image, at its size in points.
    Image,
    /// A placeholder of the given size with an activity indicator, until the
    /// image arrives.
    Placeholder,
    /// The system's default preview.
    Default,
}

/// The preview for a configuration: an image alone gives an image preview, a
/// size alone a placeholder, anything else the default.
pub fn menu_preview(has_preview_image: bool, has_preview_size: bool) -> (res: MenuPreview)
    ensures
        res == (if has_preview_image && !has_preview_size {
            MenuPreview::Image
        } else if !has_preview_image && has_preview_size {
            MenuPreview::Placeholder
        } else {
            MenuPreview::Default
        }),
{
    if has_preview_image && !has_preview_size {
        MenuPreview::Image
    } else if !has_preview_image && has_preview_size {
        MenuPreview::Placeholder
    } else {
        MenuPreview::Default
    }
}

} // verus!
