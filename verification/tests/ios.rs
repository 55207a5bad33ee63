//! The menu, the document picker and the pointer.

use gpui_core::ios::documents::{
    did_pick_documents, was_cancelled, Picker, PickerDelegate, PickerError, ANY_FILE,
};
use gpui_core::ios::keys::{
    key_equivalent, ui_key_input, ui_modifiers, KeyBinding, Keymap, Keystroke, FLAG_ALTERNATE,
    FLAG_COMMAND, FLAG_CONTROL, FLAG_SHIFT,
};
use gpui_core::ios::menu::{
    elements, ActionEntry, BuildStep, Call, CommandTarget, Element, Menu, MenuItem, Neighbour,
    Node, OsAction, OsSelector, State, SystemMenu, Validation,
};
use gpui_core::ios::pointer::{
    install, set_cursor_style, CursorStyle, PointerShape, BEAM_LENGTH,
};
use gpui_core::view::window::Modifiers;

fn held(platform: bool, shift: bool) -> Modifiers {
    Modifiers { control: false, alt: false, shift, platform, function: false }
}

fn binding(action: u64, keys: &[&str], predicate: Option<bool>) -> KeyBinding {
    let keystrokes = keys
        .iter()
        .map(|key| Keystroke { key: key.to_string(), modifiers: held(true, false) })
        .collect();
    KeyBinding { action, keystrokes, predicate }
}

fn no_keys() -> Keymap {
    Keymap { bindings: Vec::new() }
}

fn action(name: &str, action: u64) -> MenuItem {
    MenuItem::Action {
        name: name.to_string(),
        action,
        os_action: None,
        checked: false,
        disabled: false,
    }
}

fn menu(name: &str, items: Vec<MenuItem>) -> Menu {
    Menu { name: name.to_string(), items, disabled: false }
}

#[test]
fn keys_have_the_inputs_of_the_system() {
    let input = |key: &str| ui_key_input(key);
    assert_eq!(input("a"), Some("a".to_string()));
    assert_eq!(input("A"), Some("a".to_string()));
    assert_eq!(input("Ä"), Some("ä".to_string()));
    assert_eq!(input("f"), Some("f".to_string()));
    assert_eq!(input("escape"), Some("UIKeyInputEscape".to_string()));
    assert_eq!(input("up"), Some("UIKeyInputUpArrow".to_string()));
    assert_eq!(input("down"), Some("UIKeyInputDownArrow".to_string()));
    assert_eq!(input("left"), Some("UIKeyInputLeftArrow".to_string()));
    assert_eq!(input("right"), Some("UIKeyInputRightArrow".to_string()));
    assert_eq!(input("pageup"), Some("UIKeyInputPageUp".to_string()));
    assert_eq!(input("pagedown"), Some("UIKeyInputPageDown".to_string()));
    assert_eq!(input("home"), Some("UIKeyInputHome".to_string()));
    assert_eq!(input("end"), Some("UIKeyInputEnd".to_string()));
    assert_eq!(input("delete"), Some("UIKeyInputDelete".to_string()));
    assert_eq!(input("backspace"), Some("\u{8}".to_string()));
    assert_eq!(input("enter"), Some("\r".to_string()));
    assert_eq!(input("tab"), Some("\t".to_string()));
    assert_eq!(input("space"), Some(" ".to_string()));
    assert_eq!(input("f1"), Some("UIKeyInputF1".to_string()));
    assert_eq!(input("f12"), Some("UIKeyInputF12".to_string()));
    assert_eq!(input("f+7"), Some("UIKeyInputF7".to_string()));
    assert_eq!(input("f007"), Some("UIKeyInputF7".to_string()));
    for none in ["", "f0", "f13", "f300", "f-1", "f+", "f1a", "g1", "menu"] {
        assert_eq!(input(none), None, "{none}");
    }
}

#[test]
fn modifiers_are_flags() {
    assert_eq!(ui_modifiers(&held(false, false)), 0);
    assert_eq!(ui_modifiers(&held(true, false)), 1 << 20);
    let all = Modifiers { control: true, alt: true, shift: true, platform: true, function: true };
    assert_eq!(ui_modifiers(&all), FLAG_COMMAND | FLAG_CONTROL | FLAG_ALTERNATE | FLAG_SHIFT);
    assert_eq!(FLAG_SHIFT, 1 << 17);
    assert_eq!(FLAG_CONTROL, 1 << 18);
    assert_eq!(FLAG_ALTERNATE, 1 << 19);
}

#[test]
fn an_action_shows_the_first_binding_that_holds() {
    let keymap = Keymap {
        bindings: vec![
            binding(1, &["x"], Some(false)),
            binding(2, &["y"], None),
            binding(1, &["z"], Some(true)),
            binding(1, &["w"], None),
            binding(3, &["q"], Some(false)),
            binding(4, &["k", "s"], None),
            binding(5, &["menu"], None),
        ],
    };
    assert_eq!(key_equivalent(1, &keymap).unwrap().input, "z");
    assert_eq!(key_equivalent(2, &keymap).unwrap().input, "y");
    let fallback = key_equivalent(3, &keymap).unwrap();
    assert_eq!((fallback.input.as_str(), fallback.modifiers), ("q", FLAG_COMMAND));
    assert!(key_equivalent(4, &keymap).is_none(), "more than one keystroke");
    assert!(key_equivalent(5, &keymap).is_none(), "a key that the system does not know");
    assert!(key_equivalent(6, &keymap).is_none(), "no binding");
}

#[test]
fn menus_are_kept_with_the_places_of_their_actions() {
    let mut state = State::new();
    assert!(state.owned_menus().is_none());
    let cut = MenuItem::Action {
        name: "Cut".to_string(),
        action: 12,
        os_action: Some(OsAction::Cut),
        checked: true,
        disabled: true,
    };
    let undo = MenuItem::Action {
        name: "Undo".to_string(),
        action: 13,
        os_action: Some(OsAction::Undo),
        checked: false,
        disabled: false,
    };
    let menus = vec![
        menu("App", vec![action("About", 10), MenuItem::SystemMenu("Services".to_string())]),
        menu("Edit", vec![
            MenuItem::Submenu(menu("More", vec![action("Deep", 11)])),
            MenuItem::Separator,
            cut,
            undo,
        ]),
    ];
    let keymap = Keymap { bindings: vec![binding(10, &["i"], None)] };
    state.set_menus(menus, &keymap);
    assert_eq!(state.owned_menus().unwrap().len(), 2);
    let entry = |action: u64, disabled: bool| ActionEntry { action, disabled };
    assert_eq!(
        state.model.actions,
        vec![entry(10, false), entry(11, false), entry(12, true), entry(13, false)]
    );
    match &state.model.menus[0] {
        Node::Submenu { title, items, disabled } => {
            assert_eq!((title.as_str(), items.len(), *disabled), ("App", 1, false));
            match &items[0] {
                Node::Command { title, index, key, checked, os_selector } => {
                    assert_eq!((title.as_str(), *index, *checked), ("About", 0, false));
                    assert_eq!(key.as_ref().unwrap().input, "i");
                    assert!(os_selector.is_none());
                }
                _ => panic!("a command"),
            }
        }
        _ => panic!("a submenu"),
    }
    match &state.model.menus[1] {
        Node::Submenu { items, .. } => {
            assert_eq!(items.len(), 4);
            assert!(matches!(items[1], Node::Separator));
            assert!(matches!(
                items[2],
                Node::Command { index: 2, os_selector: Some(OsSelector::Cut), checked: true, .. }
            ));
            assert!(matches!(items[3], Node::Command { index: 3, os_selector: None, .. }));
        }
        _ => panic!("a submenu"),
    }
}

#[test]
fn the_main_menu_is_built_in_steps() {
    let mut state = State::new();
    assert!(state.build().is_empty());
    let menus = vec![
        menu("App", vec![action("About", 1)]),
        menu("File", vec![action("Open", 2)]),
        menu("View", vec![action("Zoom", 3)]),
    ];
    state.set_menus(menus, &no_keys());
    let steps = state.build();
    assert_eq!(steps.len(), 9);
    assert!(matches!(steps[0], BuildStep::Remove(SystemMenu::File)));
    assert!(matches!(steps[5], BuildStep::Remove(SystemMenu::Help)));
    match &steps[6] {
        BuildStep::ReplaceApplicationChildren(children) => assert_eq!(children.len(), 1),
        _ => panic!("the application's menu comes first"),
    }
    match &steps[7] {
        BuildStep::Insert { title, identifier, children, after } => {
            assert_eq!((title.as_str(), children.len()), ("File", 1));
            assert_eq!(identifier, "de.gpui.ios.menu.1");
            assert!(matches!(after, Neighbour::Application));
            assert!(matches!(
                children[0],
                Element::Command { target: CommandTarget::Item(1), .. }
            ));
        }
        _ => panic!("a menu behind the application's"),
    }
    match &steps[8] {
        BuildStep::Insert { identifier, after, .. } => {
            assert_eq!(identifier, "de.gpui.ios.menu.2");
            assert!(matches!(after, Neighbour::Inserted(name) if name == "de.gpui.ios.menu.1"));
        }
        _ => panic!("a menu behind the last"),
    }
}

#[test]
fn separators_split_a_menu_into_groups() {
    let command = |index: usize| Node::Command {
        title: index.to_string(),
        index,
        key: None,
        checked: false,
        os_selector: None,
    };
    // Separators at the ends and next to each other make no group.
    let split = elements(&vec![
        Node::Separator,
        command(0),
        command(1),
        Node::Separator,
        Node::Separator,
        command(2),
        Node::Separator,
    ]);
    assert_eq!(split.len(), 2);
    match (&split[0], &split[1]) {
        (Element::Inline(first), Element::Inline(second)) => {
            assert_eq!((first.len(), second.len()), (2, 1));
        }
        _ => panic!("two groups"),
    }
    let flat = elements(&vec![command(0), command(1), Node::Separator]);
    assert_eq!(flat.len(), 2);
    assert!(matches!(flat[1], Element::Command { target: CommandTarget::Item(1), .. }));
    assert!(elements(&vec![Node::Separator]).is_empty());
    let nested = elements(&vec![Node::Submenu {
        title: "More".to_string(),
        items: vec![command(4)],
        disabled: false,
    }]);
    match &nested[0] {
        Element::Menu { title, children } => {
            assert_eq!((title.as_str(), children.len()), ("More", 1));
        }
        _ => panic!("a menu"),
    }
    let copy = Node::Command {
        title: "Copy".to_string(),
        index: 7,
        key: None,
        checked: true,
        os_selector: Some(OsSelector::Copy),
    };
    assert!(matches!(
        elements(&vec![copy])[0],
        Element::Command { target: CommandTarget::Os(OsSelector::Copy), checked: true, .. }
    ));
}

#[test]
fn a_chosen_item_runs_its_action() {
    let mut state = State::new();
    state.set_menus(vec![menu("App", vec![action("About", 10)])], &no_keys());
    assert_eq!(state.perform(Some(0)), None, "no function is registered");
    state.set_menu_command_callback(70);
    assert_eq!(state.perform(None), None);
    assert_eq!(state.perform(Some(1)), None);
    assert_eq!(state.menu_command, Some(70), "an item that is not there takes nothing out");
    assert_eq!(state.perform(Some(0)), Some(Call { action: 10, callback: 70 }));
    assert_eq!(state.menu_command, None);
    state.finish_perform(70);
    assert_eq!(state.menu_command, Some(70));
    // A function that the action registers stays.
    state.perform(Some(0));
    state.set_menu_command_callback(71);
    state.finish_perform(70);
    assert_eq!(state.menu_command, Some(71));
}

#[test]
fn a_command_is_enabled_if_its_action_is_available() {
    let mut state = State::new();
    let off = MenuItem::Action {
        name: "Off".to_string(),
        action: 11,
        os_action: None,
        checked: false,
        disabled: true,
    };
    state.set_menus(vec![menu("App", vec![action("On", 10), off])], &no_keys());
    assert_eq!(state.validate(true, Some(0)), Validation::Enabled(true));
    state.set_validate_callback(80);
    assert_eq!(state.validate(false, Some(0)), Validation::Ignored);
    assert_eq!(state.validate(true, None), Validation::Ignored);
    assert_eq!(state.validate(true, Some(9)), Validation::Ignored);
    assert_eq!(state.validate(true, Some(1)), Validation::Enabled(false));
    assert_eq!(state.validate_menu_command, Some(80));
    assert_eq!(
        state.validate(true, Some(0)),
        Validation::Ask(Call { action: 10, callback: 80 })
    );
    assert_eq!(state.validate_menu_command, None);
    state.finish_validate(80);
    assert_eq!(state.validate_menu_command, Some(80));
    state.set_will_open_callback(90);
    assert_eq!(state.will_open_menu, Some(90));
}

#[test]
fn one_picker_is_shown_at_a_time() {
    let mut picker = Picker::new();
    let found = vec![Some(3), None, Some(5)];
    assert_eq!(
        picker.pick_files(false, true, 1, &found, None, true).err(),
        Some(PickerError::NotOnMainThread)
    );
    assert_eq!(
        picker.pick_files(true, false, 1, &found, None, true).err(),
        Some(PickerError::NoPresenter)
    );
    let request = picker.pick_files(true, true, 1, &found, Some(9), true).unwrap();
    assert_eq!((request.types, request.multiple), (vec![3, 5], true));
    assert_eq!(
        picker.export_files(true, true, 2, vec!["a".to_string()]).err(),
        Some(PickerError::AlreadyShowing)
    );
    let mut delegate: PickerDelegate = picker.active.unwrap();
    assert_eq!(picker.finish(&mut delegate), Some(1));
    assert_eq!(picker.finish(&mut delegate), None, "an outcome is sent once");
    let request = picker.export_files(true, true, 2, vec!["a".to_string()]).unwrap();
    assert_eq!(request.paths, vec!["a".to_string()]);
}

#[test]
fn any_file_can_be_picked_where_no_extension_is_given() {
    let pick = |found: Vec<Option<u64>>, any: Option<u64>| {
        Picker::new().pick_files(true, true, 1, &found, any, false).unwrap().types
    };
    assert_eq!(pick(vec![None, None], Some(9)), Vec::<u64>::new());
    assert_eq!(pick(vec![None, Some(3)], Some(9)), vec![3]);
    assert_eq!(pick(vec![], Some(9)), vec![9]);
    assert_eq!(pick(vec![], None), Vec::<u64>::new());
    assert_eq!(ANY_FILE, "public.data");
}

#[test]
fn outcomes_of_a_picker() {
    let paths = vec![Some("/a".to_string()), None, Some("/b".to_string())];
    let picked = did_pick_documents(&paths).unwrap();
    assert_eq!(picked, Some(vec!["/a".to_string(), "/b".to_string()]));
    assert_eq!(was_cancelled().unwrap(), None);
    assert_eq!(
        PickerError::NotOnMainThread.message(),
        "the document picker must be presented from the main thread"
    );
    assert_eq!(PickerError::AlreadyShowing.message(), "a document picker is already showing");
    assert_eq!(
        PickerError::NoPresenter.message(),
        "there is no view controller to present the document picker from"
    );
}

#[test]
fn the_pointer_has_two_beams() {
    let mut pointer = None;
    assert!(!set_cursor_style(&mut pointer, CursorStyle::IBeam));
    assert!(pointer.is_none());
    assert!(install(&mut pointer));
    assert_eq!(pointer.unwrap().style_for_region(), PointerShape::System);
    assert!(!set_cursor_style(&mut pointer, CursorStyle::Arrow));
    assert!(set_cursor_style(&mut pointer, CursorStyle::IBeam));
    assert_eq!(pointer.unwrap().style_for_region(), PointerShape::VerticalBeam);
    assert!(!install(&mut pointer), "later windows are ignored");
    assert!(set_cursor_style(&mut pointer, CursorStyle::IBeamCursorForVerticalLayout));
    assert_eq!(pointer.unwrap().style_for_region(), PointerShape::HorizontalBeam);
    assert!(set_cursor_style(&mut pointer, CursorStyle::Hidden));
    assert_eq!(pointer.unwrap().style_for_region(), PointerShape::System);
    assert_eq!(BEAM_LENGTH, 20);
}
