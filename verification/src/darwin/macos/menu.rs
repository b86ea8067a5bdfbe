use vstd::prelude::*;

use crate::api_model::{Activator, MenuActionState};
use crate::menu::{title_or_empty, title_string, Menu, MenuAction, MenuElement, MenuImage};

verus! {

/// What `str::to_lowercase` makes of a string.
pub uninterp spec fn lowercased(s: Seq<char>) -> Seq<char>;

/// `s` in lower case, from `str::to_lowercase`. The contract claims that the
/// result is a function of `s` alone.
#[verifier::external_body]
fn to_lowercase(s: &str) -> (res: String)
    ensures
        res@ == lowercased(s@),
{
    s.to_lowercase()
}

/// The key equivalent character for a shortcut label in lower case: the
/// AppKit function key characters for the named keys, else the label's first
/// character.
pub open spec fn key_for_label(label: Seq<char>) -> Option<char> {
    if label == "f1"@ {
        Some('\u{F704}')
    } else if label == "f2"@ {
        Some('\u{F705}')
    } else if label == "f3"@ {
        Some('\u{F706}')
    } else if label == "f4"@ {
        Some('\u{F707}')
    } else if label == "f5"@ {
        Some('\u{F708}')
    } else if label == "f6"@ {
        Some('\u{F709}')
    } else if label == "f7"@ {
        Some('\u{F70A}')
    } else if label == "f8"@ {
        Some('\u{F70B}')
    } else if label == "f9"@ {
        Some('\u{F70C}')
    } else if label == "f10"@ {
        Some('\u{F70D}')
    } else if label == "f11"@ {
        Some('\u{F70E}')
    } else if label == "f12"@ {
        Some('\u{F70F}')
    } else if label == "home"@ {
        Some('\u{F729}')
    } else if label == "end"@ {
        Some('\u{F72B}')
    } else if label == "insert"@ {
        Some('\u{F727}')
    } else if label == "delete"@ {
        Some('\u{F728}')
    } else if label == "backspace"@ {
        Some('\u{8}')
    } else if label == "page up"@ {
        Some('\u{F72C}')
    } else if label == "page down"@ {
        Some('\u{F72D}')
    } else if label == "space"@ {
        Some('\u{20}')
    } else if label == "tab"@ {
        Some('\u{9}')
    } else if label == "enter"@ {
        Some('\u{D}')
    } else if label == "arrow up"@ {
        Some('\u{F700}')
    } else if label == "arrow down"@ {
        Some('\u{F701}')
    } else if label == "arrow left"@ {
        Some('\u{F702}')
    } else if label == "arrow right"@ {
        Some('\u{F703}')
    } else if label.len() > 0 && label[0] != '\0' {
        Some(label[0])
    } else {
        None
    }
}

/// The key equivalent of a shortcut: the character for its trigger, read in
/// lower case.
pub open spec fn key_for_activator(activator: Activator) -> Option<char> {
    key_for_label(lowercased(activator.trigger@))
}

/// The key equivalent character for a shortcut label in lower case.
fn key_for(label: &String) -> (res: Option<char>)
    ensures
        res == key_for_label(label@),
{
    proof {
        reveal_strlit("f1");
        reveal_strlit("f2");
        reveal_strlit("f3");
        reveal_strlit("f4");
        reveal_strlit("f5");
        reveal_strlit("f6");
        reveal_strlit("f7");
        reveal_strlit("f8");
        reveal_strlit("f9");
        reveal_strlit("f10");
        reveal_strlit("f11");
        reveal_strlit("f12");
        reveal_strlit("home");
        reveal_strlit("end");
        reveal_strlit("insert");
        reveal_strlit("delete");
        reveal_strlit("backspace");
        reveal_strlit("page up");
        reveal_strlit("page down");
        reveal_strlit("space");
        reveal_strlit("tab");
        reveal_strlit("enter");
        reveal_strlit("arrow up");
        reveal_strlit("arrow down");
        reveal_strlit("arrow left");
        reveal_strlit("arrow right");
    }
    if *label == String::from_str("f1") {
        return Some('\u{F704}');
    }
    if *label == String::from_str("f2") {
        return Some('\u{F705}');
    }
    if *label == String::from_str("f3") {
        return Some('\u{F706}');
    }
    if *label == String::from_str("f4") {
        return Some('\u{F707}');
    }
    if *label == String::from_str("f5") {
        return Some('\u{F708}');
    }
    if *label == String::from_str("f6") {
        return Some('\u{F709}');
    }
    if *label == String::from_str("f7") {
        return Some('\u{F70A}');
    }
    if *label == String::from_str("f8") {
        return Some('\u{F70B}');
    }
    if *label == String::from_str("f9") {
        return Some('\u{F70C}');
    }
    if *label == String::from_str("f10") {
        return Some('\u{F70D}');
    }
    if *label == String::from_str("f11") {
        return Some('\u{F70E}');
    }
    if *label == String::from_str("f12") {
        return Some('\u{F70F}');
    }
    if *label == String::from_str("home") {
        return Some('\u{F729}');
    }
    if *label == String::from_str("end") {
        return Some('\u{F72B}');
    }
    if *label == String::from_str("insert") {
        return Some('\u{F727}');
    }
    if *label == String::from_str("delete") {
        return Some('\u{F728}');
    }
    if *label == String::from_str("backspace") {
        return Some('\u{8}');
    }
    if *label == String::from_str("page up") {
        return Some('\u{F72C}');
    }
    if *label == String::from_str("page down") {
        return Some('\u{F72D}');
    }
    if *label == String::from_str("space") {
        return Some('\u{20}');
    }
    if *label == String::from_str("tab") {
        return Some('\u{9}');
    }
    if *label == String::from_str("enter") {
        return Some('\u{D}');
    }
    if *label == String::from_str("arrow up") {
        return Some('\u{F700}');
    }
    if *label == String::from_str("arrow down") {
        return Some('\u{F701}');
    }
    if *label == String::from_str("arrow left") {
        return Some('\u{F702}');
    }
    if *label == String::from_str("arrow right") {
        return Some('\u{F703}');
    }
    if label.unicode_len() > 0 {
        let c = label.as_str().get_char(0);
        if c != '\0' {
            return Some(c);
        }
    }
    None
}

/// The key equivalent character of a shortcut, if it has one.
pub fn activator_key(activator: &Activator) -> (res: Option<char>)
    ensures
        res == key_for_activator(*activator),
{
    let label = to_lowercase(activator.trigger.as_str());
    key_for(&label)
}

/// `NSEventModifierFlagShift`.
pub const NS_EVENT_MODIFIER_FLAG_SHIFT: u64 = 0x20000;

/// `NSEventModifierFlagControl`.
pub const NS_EVENT_MODIFIER_FLAG_CONTROL: u64 = 0x40000;

/// `NSEventModifierFlagOption`.
pub const NS_EVENT_MODIFIER_FLAG_OPTION: u64 = 0x80000;

/// `NSEventModifierFlagCommand`.
pub const NS_EVENT_MODIFIER_FLAG_COMMAND: u64 = 0x100000;

/// The modifier mask of a shortcut.
pub open spec fn modifier_mask(activator: Activator) -> u64 {
    (if activator.alt {
        NS_EVENT_MODIFIER_FLAG_OPTION
    } else {
        0u64
    }) | (if activator.meta {
        NS_EVENT_MODIFIER_FLAG_COMMAND
    } else {
        0u64
    }) | (if activator.control {
        NS_EVENT_MODIFIER_FLAG_CONTROL
    } else {
        0u64
    }) | (if activator.shift {
        NS_EVENT_MODIFIER_FLAG_SHIFT
    } else {
        0u64
    })
}

/// Four flags, each either off or its own bit, make a mask that has each bit
/// exactly when its flag is on, and no other bit.
proof fn lemma_modifier_bits(o: u64, c: u64, k: u64, s: u64)
    by (bit_vector)
    requires
        o == 0 || o == 0x80000,
        c == 0 || c == 0x100000,
        k == 0 || k == 0x40000,
        s == 0 || s == 0x20000,
    ensures
        ((o | c | k | s) & 0x80000u64 != 0) == (o == 0x80000),
        ((o | c | k | s) & 0x100000u64 != 0) == (c == 0x100000),
        ((o | c | k | s) & 0x40000u64 != 0) == (k == 0x40000),
        ((o | c | k | s) & 0x20000u64 != 0) == (s == 0x20000),
        (o | c | k | s) & !0x1E0000u64 == 0,
{
}

/// The key equivalent modifiers of a shortcut, by their AppKit values:
/// `NSEventModifierFlagOption` (0x80000) exactly when alt is held,
/// `NSEventModifierFlagCommand` (0x100000) exactly with meta,
/// `NSEventModifierFlagControl` (0x40000) exactly with control and
/// `NSEventModifierFlagShift` (0x20000) exactly with shift, and no other flag.
pub proof fn lemma_modifier_mask_flags(activator: Activator)
    ensures
        (modifier_mask(activator) & 0x80000u64 != 0) == activator.alt,
        (modifier_mask(activator) & 0x100000u64 != 0) == activator.meta,
        (modifier_mask(activator) & 0x40000u64 != 0) == activator.control,
        (modifier_mask(activator) & 0x20000u64 != 0) == activator.shift,
        modifier_mask(activator) & !0x1E0000u64 == 0,
{
    lemma_modifier_bits(
        if activator.alt { 0x80000u64 } else { 0u64 },
        if activator.meta { 0x100000u64 } else { 0u64 },
        if activator.control { 0x40000u64 } else { 0u64 },
        if activator.shift { 0x20000u64 } else { 0u64 },
    );
}

/// The modifier mask of a shortcut.
pub fn activator_modifier_flags(activator: &Activator) -> (res: u64)
    ensures
        res == modifier_mask(*activator),
        (res & 0x80000u64 != 0) == activator.alt,
        (res & 0x100000u64 != 0) == activator.meta,
        (res & 0x40000u64 != 0) == activator.control,
        (res & 0x20000u64 != 0) == activator.shift,
        res & !0x1E0000u64 == 0,
{
    proof {
        lemma_modifier_mask_flags(*activator);
    }
    let option: u64 = if activator.alt {
        NS_EVENT_MODIFIER_FLAG_OPTION
    } else {
        0
    };
    let command: u64 = if activator.meta {
        NS_EVENT_MODIFIER_FLAG_COMMAND
    } else {
        0
    };
    let control: u64 = if activator.control {
        NS_EVENT_MODIFIER_FLAG_CONTROL
    } else {
        0
    };
    let shift: u64 = if activator.shift {
        NS_EVENT_MODIFIER_FLAG_SHIFT
    } else {
        0
    };
    option | command | control | shift
}

/// The `NSControlStateValue` of an action's mark: on, off or mixed.
pub open spec fn mac_state(state: MenuActionState) -> i64 {
    match state {
        MenuActionState::NoState => 0,
        MenuActionState::CheckOn => 1,
        MenuActionState::CheckOff => 0,
        MenuActionState::CheckMixed => -1i64,
        MenuActionState::RadioOn => 1,
        MenuActionState::RadioOff => 0,
    }
}

/// An item's mark shows as `NSControlStateValueOn` (1) exactly when the check
/// or radio mark is on, as `NSControlStateValueMixed` (-1) exactly when the
/// check mark is mixed, and as `NSControlStateValueOff` (0) otherwise.
pub proof fn lemma_mac_state_marks(state: MenuActionState)
    ensures
        (mac_state(state) == 1) == (state == MenuActionState::CheckOn || state == MenuActionState::RadioOn),
        (mac_state(state) == -1) == (state == MenuActionState::CheckMixed),
        (mac_state(state) == 0) == (state == MenuActionState::NoState || state == MenuActionState::CheckOff
            || state == MenuActionState::RadioOff),
{
}

pub fn menu_item_state(state: MenuActionState) -> (res: i64)
    ensures
        res == mac_state(state),
        (res == 1) == (state == MenuActionState::CheckOn || state == MenuActionState::RadioOn),
        (res == -1) == (state == MenuActionState::CheckMixed),
        (res == 0) == (state == MenuActionState::NoState || state == MenuActionState::CheckOff
            || state == MenuActionState::RadioOff),
{
    proof {
        lemma_mac_state_marks(state);
    }
    match state {
        MenuActionState::NoState => 0,
        MenuActionState::CheckOn => 1,
        MenuActionState::CheckOff => 0,
        MenuActionState::CheckMixed => -1i64,
        MenuActionState::RadioOn => 1,
        MenuActionState::RadioOff => 0,
    }
}

/// The key equivalent of an `NSMenuItem`: a character and a modifier mask.
#[derive(Debug, Clone, Copy, PartialEq, Eq, Structural)]
pub struct KeyEquivalent {
    pub key: char,
    pub modifiers: u64,
}

/// An `NSMenuItem` to build, with its image data of type `I`.
pub enum MacMenuItem<I> {
    /// An item that performs action `action` when chosen; a disabled item has
    /// none.
    Action {
        title: String,
        action: Option<i64>,
        image: Option<I>,
        key_equivalent: Option<KeyEquivalent>,
        state: i64,
    },
    /// An item with a submenu.
    Submenu { title: String, image: Option<I>, children: Vec<MacMenuItem<I>> },
    /// An item that loads the elements of deferred element `item_id` in its
    /// place.
    Deferred { item_id: i64 },
    Separator,
}

/// The image data of an image; AppKit menu items show no system images.
pub open spec fn image_data<I>(image: Option<MenuImage<I>>) -> Option<I> {
    match image {
        Some(MenuImage::Image { data }) => Some(data),
        _ => None,
    }
}

fn take_image_data<I>(image: Option<MenuImage<I>>) -> (res: Option<I>)
    ensures
        res == image_data(image),
{
    match image {
        Some(MenuImage::Image { data }) => Some(data),
        _ => None,
    }
}

/// The key equivalent of an action: set only when the shortcut gives a key.
pub open spec fn key_equivalent_of(activator: Option<Activator>) -> Option<KeyEquivalent> {
    match activator {
        Some(a) => match key_for_activator(a) {
            Some(k) => Some(KeyEquivalent { key: k, modifiers: modifier_mask(a) }),
            None => None,
        },
        None => None,
    }
}

/// `item` is the AppKit item for `element`.
pub open spec fn mac_item_matches<I>(element: MenuElement<I>, item: MacMenuItem<I>) -> bool
    decreases element,
{
    match element {
        MenuElement::Action(a) => match item {
            MacMenuItem::Action { title, action, image, key_equivalent, state } => {
                &&& title@ == title_or_empty(a.title)
                &&& action == (if a.attributes.disabled {
                    None
                } else {
                    Some(a.unique_id)
                })
                &&& image == image_data(a.image)
                &&& key_equivalent == key_equivalent_of(a.activator)
                &&& state == mac_state(a.state)
            },
            _ => false,
        },
        MenuElement::Menu(m) => match item {
            MacMenuItem::Submenu { title, image, children } => {
                &&& title@ == title_or_empty(m.title)
                &&& image == image_data(m.image)
                &&& mac_items_match(m.children@, children@)
            },
            _ => false,
        },
        MenuElement::Deferred(d) => item matches MacMenuItem::Deferred { item_id } && item_id
            == d.unique_id,
        MenuElement::Separator(_) => item is Separator,
    }
}

/// The key equivalent of an action's shortcut, if it gives a key.
fn key_equivalent(activator: &Option<Activator>) -> (res: Option<KeyEquivalent>)
    ensures
        res == key_equivalent_of(*activator),
{
    match activator {
        Some(a) => match activator_key(a) {
            Some(k) => Some(KeyEquivalent { key: k, modifiers: activator_modifier_flags(a) }),
            None => None,
        },
        None => None,
    }
}

/// The AppKit item for a menu element: actions carry their title, image,
/// shortcut and mark (a disabled action does nothing when chosen), menus
/// become submenus, deferred elements load their content when opened.
pub fn translate_element<I>(element: MenuElement<I>) -> (res: MacMenuItem<I>)
    ensures
        mac_item_matches(element, res),
    decreases element,
{
    let ghost original = element;
    match element {
        MenuElement::Action(a) => {
            let title = title_string(&a.title);
            let action = if a.attributes.disabled {
                None
            } else {
                Some(a.unique_id)
            };
            let key_equivalent = key_equivalent(&a.activator);
            let state = menu_item_state(a.state);
            let image = take_image_data(a.image);
            MacMenuItem::Action { title, action, image, key_equivalent, state }
        },
        MenuElement::Menu(m) => {
            let title = title_string(&m.title);
            let image = take_image_data(m.image);
            proof {
                assert(decreases_to!(original => m.children@));
            }
            let children = translate_elements(m.children);
            MacMenuItem::Submenu { title, image, children }
        },
        MenuElement::Deferred(d) => MacMenuItem::Deferred { item_id: d.unique_id },
        MenuElement::Separator(_) => MacMenuItem::Separator,
    }
}

/// The AppKit items for menu elements, one for one, in order.
pub fn translate_elements<I>(elements: Vec<MenuElement<I>>) -> (res: Vec<MacMenuItem<I>>)
    ensures
        mac_items_match(elements@, res@),
    decreases elements@,
{
    let ghost original = elements@;
    if elements.len() == 0 {
        return Vec::new();
    }
    let mut rest = elements;
    let first = rest.remove(0);
    proof {
        assert(first == original[0]);
        assert(rest@ == original.drop_first());
        assert(decreases_to!(original => first));
        assert(decreases_to!(original => rest@));
    }
    let item = translate_element(first);
    let mut items = translate_elements(rest);
    let ghost tail = items@;
    items.insert(0, item);
    proof {
        assert(items@.drop_first() == tail);
        assert(items@[0] == item);
    }
    items
}

/// The title of an `NSMenu` and its items, for a menu.
pub fn translate_menu<I>(menu: Menu<I>) -> (res: (String, Vec<MacMenuItem<I>>))
    ensures
        res.0@ == title_or_empty(menu.title),
        mac_items_match(menu.children@, res.1@),
{
    let title = title_string(&menu.title);
    let items = translate_elements(menu.children);
    (title, items)
}

/// The items of a menu once deferred item `index` has loaded `loaded`: the
/// loaded items take its place, in order.
pub fn replace_deferred_item<T>(items: &mut Vec<T>, index: usize, loaded: Vec<T>)
    requires
        index < old(items)@.len(),
    ensures
        final(items)@ == old(items)@.take(index as int) + loaded@ + old(items)@.skip(index + 1),
{
    let ghost start = items@;
    let ghost new = loaded@;
    let mut loaded = loaded;
    let mut reversed: Vec<T> = Vec::new();
    while loaded.len() > 0
        invariant
            loaded@.len() + reversed@.len() == new.len(),
            loaded@ == new.take(loaded@.len() as int),
            forall|j: int| 0 <= j < reversed@.len() ==> #[trigger] reversed@[j] == new[new.len() - 1 - j],
        decreases loaded@.len(),
    {
        match loaded.pop() {
            Some(x) => {
                reversed.push(x);
                proof {
                    assert(loaded@ =~= new.take(loaded@.len() as int));
                }
            },
            None => {},
        }
    }
    let mut at = index;
    while reversed.len() > 0
        invariant
            index <= at,
            at - index + reversed@.len() == new.len(),
            forall|j: int| 0 <= j < reversed@.len() ==> #[trigger] reversed@[j] == new[new.len() - 1 - j],
            items@ == start.take(index as int) + new.take(at - index) + start.skip(index as int),
            index < start.len(),
            at < items@.len(),
        decreases reversed@.len(),
    {
        let ghost k: int = at - index;
        match reversed.pop() {
            Some(x) => {
                let ghost old_items = items@;
                items.insert(at, x);
                proof {
                    assert(x == new[k]);
                    assert(new.take(k).len() == k);
                    assert(start.take(index as int).len() == index);
                    assert(new.take(k + 1) == new.take(k).push(x));
                    assert forall|i: int| 0 <= i < items@.len() implies #[trigger] items@[i] == (
                    start.take(index as int) + new.take(k + 1) + start.skip(index as int))[i] by {
                        if i < at {
                            assert(items@[i] == old_items[i]);
                        } else if i > at {
                            assert(items@[i] == old_items[i - 1]);
                        }
                    }
                    assert(items@ =~= start.take(index as int) + new.take(k + 1) + start.skip(index as int));
                }
                let len = items.len();
                assert(at < len);
                at = at + 1;
            },
            None => {},
        }
    }
    let ghost before = items@;
    items.remove(at);
    proof {
        assert(new.take(at - index) == new);
        assert(start.skip(index as int)[0] == start[index as int]);
        assert(items@ =~= start.take(index as int) + new + start.skip(index + 1));
    }
}

/// `items` are the AppKit items for `elements`, one for one.
pub open spec fn mac_items_match<I>(elements: Seq<MenuElement<I>>, items: Seq<MacMenuItem<I>>) -> bool
    decreases elements,
{
    if elements.len() == 0 {
        items.len() == 0
    } else {
        &&& items.len() > 0
        &&& mac_item_matches(elements[0], items[0])
        &&& mac_items_match(elements.drop_first(), items.drop_first())
    }
}

} // verus!
