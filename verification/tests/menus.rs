use super_native_extensions::api_model::{Activator, DeferredMenuElement, MenuActionAttributes, MenuActionState, MenuSeparator};
use super_native_extensions::darwin::ios::menu::{convert_elements, convert_root_menu, menu_preview, MenuPreview, UiMenuNode, UiMenuState};
use super_native_extensions::darwin::macos::menu::{
    activator_key, activator_modifier_flags, menu_item_state, replace_deferred_item, translate_elements, translate_menu,
    KeyEquivalent, MacMenuItem,
};
use super_native_extensions::darwin::macos::reader::{item_format_is_synthesized, item_formats, needs_to_synthesize_png, promised_types};
use super_native_extensions::menu::{Menu, MenuAction, MenuElement, MenuImage};

fn activator(trigger: &str) -> Activator {
    Activator { trigger: trigger.to_string(), alt: false, meta: true, shift: false, control: false }
}

fn action(id: i64, title: &str, disabled: bool) -> MenuElement<u8> {
    MenuElement::Action(MenuAction {
        unique_id: id,
        identifier: None,
        title: Some(title.to_string()),
        image: Some(MenuImage::Image { data: id as u8 }),
        subitle: None,
        attributes: MenuActionAttributes { disabled, destructive: false },
        state: MenuActionState::CheckMixed,
        activator: Some(activator("F5")),
    })
}

fn separator(title: Option<&str>) -> MenuElement<u8> {
    MenuElement::Separator(MenuSeparator { title: title.map(|t| t.to_string()) })
}

#[test]
fn mac_key_equivalents() {
    assert_eq!(activator_key(&activator("F1")), Some('\u{F704}'));
    assert_eq!(activator_key(&activator("Page Down")), Some('\u{F72D}'));
    assert_eq!(activator_key(&activator("Backspace")), Some('\u{8}'));
    assert_eq!(activator_key(&activator("Space")), Some(' '));
    assert_eq!(activator_key(&activator("Arrow Left")), Some('\u{F702}'));
    assert_eq!(activator_key(&activator("A")), Some('a'));
    assert_eq!(activator_key(&activator("Ä")), Some('ä'));
    assert_eq!(activator_key(&activator("")), None);
    let all = Activator { trigger: "x".to_string(), alt: true, meta: true, shift: true, control: true };
    assert_eq!(activator_modifier_flags(&all), (1 << 17) | (1 << 18) | (1 << 19) | (1 << 20));
    assert_eq!(activator_modifier_flags(&activator("x")), 1 << 20);
    assert_eq!(menu_item_state(MenuActionState::CheckMixed), -1);
    assert_eq!(menu_item_state(MenuActionState::RadioOn), 1);
    assert_eq!(menu_item_state(MenuActionState::NoState), 0);
}

#[test]
fn mac_menu_translation() {
    let submenu = MenuElement::Menu(Menu {
        unique_id: 9,
        identifier: None,
        title: None,
        subitle: None,
        image: Some(MenuImage::System { name: "star".to_string() }),
        children: vec![action(3, "inner", true)],
    });
    let items = translate_elements(vec![action(1, "Open", false), separator(Some("x")), submenu,
        MenuElement::Deferred(DeferredMenuElement { unique_id: 4 })]);
    assert_eq!(items.len(), 4);
    match &items[0] {
        MacMenuItem::Action { title, action, image, key_equivalent, state } => {
            assert_eq!(title, "Open");
            assert_eq!(*action, Some(1));
            assert_eq!(*image, Some(1));
            assert_eq!(*key_equivalent, Some(KeyEquivalent { key: '\u{F708}', modifiers: 1 << 20 }));
            assert_eq!(*state, -1);
        }
        _ => panic!("action expected"),
    }
    assert!(matches!(items[1], MacMenuItem::Separator));
    match &items[2] {
        MacMenuItem::Submenu { title, image, children } => {
            assert_eq!(title, "");
            assert_eq!(*image, None);
            assert_eq!(children.len(), 1);
            assert!(matches!(children[0], MacMenuItem::Action { action: None, .. }));
        }
        _ => panic!("submenu expected"),
    }
    assert!(matches!(items[3], MacMenuItem::Deferred { item_id: 4 }));
    let (title, items) = translate_menu(Menu::<u8> {
        unique_id: 1,
        identifier: None,
        title: Some("Edit".to_string()),
        subitle: None,
        image: None,
        children: vec![],
    });
    assert_eq!(title, "Edit");
    assert!(items.is_empty());
}

#[test]
fn mac_deferred_items_take_the_place_of_the_placeholder() {
    let mut items = vec!['a', 'd', 'z'];
    replace_deferred_item(&mut items, 1, vec!['b', 'c']);
    assert_eq!(items, vec!['a', 'b', 'c', 'z']);
    let mut items = vec!['d'];
    replace_deferred_item(&mut items, 0, vec![]);
    assert!(items.is_empty());
}

#[test]
fn ios_inline_sections() {
    let nodes = convert_elements(vec![
        action(1, "one", false),
        separator(Some("Section")),
        action(2, "two", true),
        action(3, "three", false),
        separator(None),
        MenuElement::Deferred(DeferredMenuElement { unique_id: 4 }),
    ]);
    assert_eq!(nodes.len(), 3);
    match &nodes[0] {
        UiMenuNode::Action { unique_id, title, disabled, state, image, .. } => {
            assert_eq!((*unique_id, title.as_str(), *disabled, *state), (1, "one", false, UiMenuState::Mixed));
            assert_eq!(*image, Some(MenuImage::Image { data: 1 }));
        }
        _ => panic!("action expected"),
    }
    match &nodes[1] {
        UiMenuNode::Menu { title, inline, children, image, identifier } => {
            assert_eq!(title, "Section");
            assert!(*inline);
            assert!(image.is_none() && identifier.is_none());
            assert_eq!(children.len(), 2);
            assert!(matches!(children[0], UiMenuNode::Action { unique_id: 2, disabled: true, .. }));
        }
        _ => panic!("section expected"),
    }
    match &nodes[2] {
        UiMenuNode::Menu { title, inline, children, .. } => {
            assert_eq!(title, "");
            assert!(*inline);
            assert!(matches!(children[0], UiMenuNode::Deferred { unique_id: 4 }));
        }
        _ => panic!("section expected"),
    }
    let root = convert_root_menu(Menu {
        unique_id: 0,
        identifier: Some("root".to_string()),
        title: Some("Menu".to_string()),
        subitle: None,
        image: None,
        children: vec![separator(None)],
    });
    match root {
        UiMenuNode::Menu { title, inline, children, identifier, .. } => {
            assert_eq!(title, "Menu");
            assert_eq!(identifier, Some("root".to_string()));
            assert!(!inline);
            assert_eq!(children.len(), 1);
        }
        _ => panic!("menu expected"),
    }
    assert_eq!(menu_preview(true, false), MenuPreview::Image);
    assert_eq!(menu_preview(false, true), MenuPreview::Placeholder);
    assert_eq!(menu_preview(true, true), MenuPreview::Default);
    assert_eq!(menu_preview(false, false), MenuPreview::Default);
}

fn strings(v: &[&str]) -> Vec<String> {
    v.iter().map(|s| s.to_string()).collect()
}

#[test]
fn mac_reader_formats() {
    let types = strings(&["public.tiff", "public.utf8-plain-text", "public.tiff"]);
    assert!(needs_to_synthesize_png(&types));
    assert!(!needs_to_synthesize_png(&strings(&["public.tiff", "public.png"])));
    assert!(item_format_is_synthesized("public.png", &types));
    assert!(!item_format_is_synthesized("public.tiff", &types));
    let formats = item_formats(&strings(&["com.adobe.pdf", "com.adobe.pdf"]), &types);
    assert_eq!(formats, strings(&["com.adobe.pdf", "public.tiff", "public.png", "public.utf8-plain-text", "public.png"]));
    let formats = item_formats(&Vec::new(), &strings(&["public.png", "public.tiff"]));
    assert_eq!(formats, strings(&["public.png", "public.tiff"]));
    assert_eq!(
        promised_types(Some("public.jpeg".to_string()), &strings(&["jpg", "public.jpeg"])),
        strings(&["public.jpeg", "jpg"])
    );
    assert_eq!(promised_types(Some(String::new()), &strings(&["a"])), strings(&["a"]));
    assert_eq!(promised_types(None, &Vec::new()), Vec::<String>::new());
}
