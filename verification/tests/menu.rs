use ui_kit::menu::{menu_step, MenuEvent, MenuState};

fn item_click(id: &str, has_children: bool) -> MenuEvent {
    MenuEvent::ItemClick { id: id.to_string(), has_children }
}

fn open_of(s: &MenuState) -> (Option<String>, Option<String>) {
    (s.active_item.clone(), s.active_sub_item.clone())
}

#[test]
fn clicking_an_item_with_children_opens_then_closes_it() {
    let s = MenuState::new();
    assert!(!s.is_open());
    let (s, picked) = menu_step(&s, item_click("products", true));
    assert_eq!(open_of(&s), (Some("products".to_string()), None));
    assert!(s.is_open());
    assert_eq!(picked, None);
    let (s, picked) = menu_step(&s, item_click("products", true));
    assert_eq!(open_of(&s), (None, None));
    assert_eq!(picked, None);
}

#[test]
fn clicking_a_plain_item_selects_it_and_closes() {
    let (s, _) = menu_step(&MenuState::new(), item_click("products", true));
    let (s, picked) = menu_step(&s, item_click("pricing", false));
    assert_eq!(open_of(&s), (None, None));
    assert_eq!(picked, Some("pricing".to_string()));
}

#[test]
fn hovering_moves_between_items_and_sub_items() {
    let (s, _) = menu_step(&MenuState::new(), MenuEvent::ItemHover { id: "a".to_string(), has_children: true });
    let (s, _) = menu_step(&s, MenuEvent::SubItemHover { id: "a1".to_string(), has_children: true });
    assert_eq!(open_of(&s), (Some("a".to_string()), Some("a1".to_string())));
    // Hovering the open item again keeps its sub-item.
    let (s, _) = menu_step(&s, MenuEvent::ItemHover { id: "a".to_string(), has_children: true });
    assert_eq!(open_of(&s), (Some("a".to_string()), Some("a1".to_string())));
    let (s, _) = menu_step(&s, MenuEvent::SubItemHover { id: "a2".to_string(), has_children: false });
    assert_eq!(open_of(&s), (Some("a".to_string()), None));
    let (s, _) = menu_step(&s, MenuEvent::ItemHover { id: "b".to_string(), has_children: true });
    assert_eq!(open_of(&s), (Some("b".to_string()), None));
    let (s, _) = menu_step(&s, MenuEvent::ItemHover { id: "c".to_string(), has_children: false });
    assert_eq!(open_of(&s), (None, None));
}

#[test]
fn sub_items_and_leaves_select() {
    let (s, _) = menu_step(&MenuState::new(), item_click("a", true));
    let (s, picked) = menu_step(&s, MenuEvent::SubItemClick { id: "a1".to_string(), has_children: true });
    assert_eq!(open_of(&s), (Some("a".to_string()), Some("a1".to_string())));
    assert_eq!(picked, None);
    let (s, picked) = menu_step(&s, MenuEvent::LeafClick { id: "leaf".to_string() });
    assert_eq!(open_of(&s), (None, None));
    assert_eq!(picked, Some("leaf".to_string()));
    let (s, _) = menu_step(&s, item_click("a", true));
    let (s, picked) = menu_step(&s, MenuEvent::SubItemClick { id: "a2".to_string(), has_children: false });
    assert_eq!(open_of(&s), (None, None));
    assert_eq!(picked, Some("a2".to_string()));
}

#[test]
fn leaving_closes_unless_the_pointer_stays_on_the_menu() {
    let (s, _) = menu_step(&MenuState::new(), MenuEvent::BarEnter);
    assert!(s.hovering_bar);
    let (s, _) = menu_step(&s, item_click("a", true));
    let (s, _) = menu_step(&s, MenuEvent::DropdownEnter);
    let (s, _) = menu_step(&s, MenuEvent::DropdownLeave);
    assert!(s.is_open());
    let (s, _) = menu_step(&s, MenuEvent::BarLeave { near_top: false });
    assert!(s.is_open() && !s.hovering_bar);
    let (s, _) = menu_step(&s, MenuEvent::DropdownLeave);
    assert!(!s.is_open());
    let (s, _) = menu_step(&s, item_click("a", true));
    let (s, _) = menu_step(&s, MenuEvent::BarLeave { near_top: true });
    assert!(!s.is_open());
    let (s, _) = menu_step(&s, item_click("a", true));
    let (s, _) = menu_step(&s, MenuEvent::BackdropClick);
    assert!(!s.is_open());
    let (s, _) = menu_step(&s, MenuEvent::BarEnter);
    let (s, _) = menu_step(&s, item_click("a", true));
    let (s, _) = menu_step(&s, MenuEvent::MenuLeave);
    assert!(!s.is_open() && !s.hovering_bar && !s.hovering_dropdown);
}
