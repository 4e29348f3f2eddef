//! The horizontal menu as a state machine: which top item and which of its
//! sub-items are open, whether the pointer is over the bar or the dropdown,
//! and what each pointer event does to that, and which id it selects.
use vstd::prelude::*;
use crate::graph::clone_opt;

verus! {

/// The menu's state.
#[derive(Debug)]
pub struct MenuState {
    /// The open top item, if any.
    pub active_item: Option<String>,
    /// The open sub-item of the open top item, if any.
    pub active_sub_item: Option<String>,
    pub hovering_bar: bool,
    pub hovering_dropdown: bool,
}

/// What happened to the menu. Each event that names an item says whether
/// that item has children of its own; `near_top` says whether the pointer
/// left the bar across its top or left edge.
#[derive(Debug)]
pub enum MenuEvent {
    ItemClick { id: String, has_children: bool },
    ItemHover { id: String, has_children: bool },
    SubItemClick { id: String, has_children: bool },
    SubItemHover { id: String, has_children: bool },
    LeafClick { id: String },
    BarEnter,
    BarLeave { near_top: bool },
    DropdownEnter,
    DropdownLeave,
    MenuLeave,
    BackdropClick,
}

/// The state viewed with ids as character sequences.
pub struct MenuView {
    pub active_item: Option<Seq<char>>,
    pub active_sub_item: Option<Seq<char>>,
    pub hovering_bar: bool,
    pub hovering_dropdown: bool,
}

pub open spec fn opt_chars(o: Option<String>) -> Option<Seq<char>> {
    match o {
        Some(s) => Some(s@),
        None => None,
    }
}

impl View for MenuState {
    type V = MenuView;

    open spec fn view(&self) -> MenuView {
        MenuView {
            active_item: opt_chars(self.active_item),
            active_sub_item: opt_chars(self.active_sub_item),
            hovering_bar: self.hovering_bar,
            hovering_dropdown: self.hovering_dropdown,
        }
    }
}

/// Nothing open, the hover flags kept.
pub open spec fn closed(s: MenuView) -> MenuView {
    MenuView { active_item: None, active_sub_item: None, ..s }
}

/// `id` open as the top item, with no sub-item open.
pub open spec fn opened(s: MenuView, id: Seq<char>) -> MenuView {
    MenuView { active_item: Some(id), active_sub_item: None, ..s }
}

/// The next state and the id selected, if any, after `e`.
pub open spec fn menu_step_spec(s: MenuView, e: MenuEvent) -> (MenuView, Option<Seq<char>>) {
    match e {
        MenuEvent::ItemClick { id, has_children } => if has_children {
            if s.active_item == Some(id@) {
                (closed(s), None)
            } else {
                (opened(s, id@), None)
            }
        } else {
            (closed(s), Some(id@))
        },
        MenuEvent::ItemHover { id, has_children } => if has_children {
            if s.active_item == Some(id@) {
                (s, None)
            } else {
                (opened(s, id@), None)
            }
        } else {
            (closed(s), None)
        },
        MenuEvent::SubItemClick { id, has_children } => if has_children {
            (MenuView { active_sub_item: Some(id@), ..s }, None)
        } else {
            (closed(s), Some(id@))
        },
        MenuEvent::SubItemHover { id, has_children } => if has_children {
            (MenuView { active_sub_item: Some(id@), ..s }, None)
        } else {
            (MenuView { active_sub_item: None, ..s }, None)
        },
        MenuEvent::LeafClick { id } => (closed(s), Some(id@)),
        MenuEvent::BarEnter => (MenuView { hovering_bar: true, ..s }, None),
        MenuEvent::BarLeave { near_top } => {
            let t = MenuView { hovering_bar: false, ..s };
            if near_top {
                (closed(t), None)
            } else {
                (t, None)
            }
        },
        MenuEvent::DropdownEnter => (MenuView { hovering_dropdown: true, ..s }, None),
        MenuEvent::DropdownLeave => {
            let t = MenuView { hovering_dropdown: false, ..s };
            if !s.hovering_bar {
                (closed(t), None)
            } else {
                (t, None)
            }
        },
        MenuEvent::MenuLeave => (closed(MenuView { hovering_bar: false, hovering_dropdown: false, ..s }), None),
        MenuEvent::BackdropClick => (closed(s), None),
    }
}

impl MenuState {
    /// A closed menu with the pointer elsewhere.
    pub fn new() -> (s: Self)
        ensures
            s@ == (MenuView { active_item: None, active_sub_item: None, hovering_bar: false, hovering_dropdown: false }),
    {
        MenuState { active_item: None, active_sub_item: None, hovering_bar: false, hovering_dropdown: false }
    }

    /// Whether a dropdown is open.
    pub fn is_open(&self) -> (b: bool)
        ensures
            b == self@.active_item is Some,
    {
        self.active_item.is_some()
    }
}

fn closed_state(s: &MenuState) -> (r: MenuState)
    ensures
        r@ == closed(s@),
{
    MenuState { active_item: None, active_sub_item: None, hovering_bar: s.hovering_bar, hovering_dropdown: s.hovering_dropdown }
}

fn opened_state(s: &MenuState, id: &String) -> (r: MenuState)
    ensures
        r@ == opened(s@, id@),
{
    MenuState {
        active_item: Some(id.clone()),
        active_sub_item: None,
        hovering_bar: s.hovering_bar,
        hovering_dropdown: s.hovering_dropdown,
    }
}

fn same_state(s: &MenuState) -> (r: MenuState)
    ensures
        r@ == s@,
{
    MenuState {
        active_item: clone_opt(&s.active_item),
        active_sub_item: clone_opt(&s.active_sub_item),
        hovering_bar: s.hovering_bar,
        hovering_dropdown: s.hovering_dropdown,
    }
}

fn is_active(s: &MenuState, id: &String) -> (b: bool)
    ensures
        b == (s@.active_item == Some(id@)),
{
    match &s.active_item {
        Some(a) => *a == *id,
        None => false,
    }
}

/// What the menu does on `event`: its next state, and the id handed to the
/// selection callback when the event picks an entry.
pub fn menu_step(state: &MenuState, event: MenuEvent) -> (r: (MenuState, Option<String>))
    ensures
        (r.0@, opt_chars(r.1)) == menu_step_spec(state@, event),
{
    match event {
        MenuEvent::ItemClick { id, has_children } => {
            if has_children {
                if is_active(state, &id) {
                    (closed_state(state), None)
                } else {
                    (opened_state(state, &id), None)
                }
            } else {
                (closed_state(state), Some(id))
            }
        },
        MenuEvent::ItemHover { id, has_children } => {
            if has_children {
                if is_active(state, &id) {
                    (same_state(state), None)
                } else {
                    (opened_state(state, &id), None)
                }
            } else {
                (closed_state(state), None)
            }
        },
        MenuEvent::SubItemClick { id, has_children } => {
            if has_children {
                let mut t = same_state(state);
                t.active_sub_item = Some(id);
                (t, None)
            } else {
                (closed_state(state), Some(id))
            }
        },
        MenuEvent::SubItemHover { id, has_children } => {
            let mut t = same_state(state);
            t.active_sub_item = if has_children {
                Some(id)
            } else {
                None
            };
            (t, None)
        },
        MenuEvent::LeafClick { id } => (closed_state(state), Some(id)),
        MenuEvent::BarEnter => {
            let mut t = same_state(state);
            t.hovering_bar = true;
            (t, None)
        },
        MenuEvent::BarLeave { near_top } => {
            let mut t = same_state(state);
            t.hovering_bar = false;
            if near_top {
                (closed_state(&t), None)
            } else {
                (t, None)
            }
        },
        MenuEvent::DropdownEnter => {
            let mut t = same_state(state);
            t.hovering_dropdown = true;
            (t, None)
        },
        MenuEvent::DropdownLeave => {
            let mut t = same_state(state);
            t.hovering_dropdown = false;
            if !state.hovering_bar {
                (closed_state(&t), None)
            } else {
                (t, None)
            }
        },
        MenuEvent::MenuLeave => {
            let mut t = same_state(state);
            t.hovering_bar = false;
            t.hovering_dropdown = false;
            (closed_state(&t), None)
        },
        MenuEvent::BackdropClick => (closed_state(state), None),
    }
}

/// Clicking an item with children opens it, and clicking it again closes
/// the menu as it was before, selecting nothing either time.
pub proof fn law_second_click_closes(s: MenuView, id: String)
    requires
        s.active_item != Some(id@),
    ensures
        ({
            let e = MenuEvent::ItemClick { id: id, has_children: true };
            let first = menu_step_spec(s, e);
            let second = menu_step_spec(first.0, e);
            &&& first.0.active_item == Some(id@)
            &&& first.1 is None
            &&& second.0 == closed(s)
            &&& second.1 is None
        }),
{
}

/// Picking an entry (a top item or sub-item without children, or a leaf)
/// always closes the menu and hands over exactly that entry's id.
pub proof fn law_selection_closes(s: MenuView, e: MenuEvent)
    ensures
        menu_step_spec(s, e).1 is Some ==> menu_step_spec(s, e).0 == closed(s),
        menu_step_spec(s, e).1 matches Some(x) ==> match e {
            MenuEvent::ItemClick { id, has_children } => !has_children && x == id@,
            MenuEvent::SubItemClick { id, has_children } => !has_children && x == id@,
            MenuEvent::LeafClick { id } => x == id@,
            _ => false,
        },
{
}

} // verus!
