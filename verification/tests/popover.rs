use openlogi::popover::{bind_heading, binding_label, card_label, ActionPopoverRow, ButtonId};

#[test]
fn default_row_has_four_buttons() {
    let row = ActionPopoverRow::default_row();
    assert_eq!(
        row.buttons(),
        &vec![ButtonId::LeftClick, ButtonId::RightClick, ButtonId::Back, ButtonId::Forward]
    );
}

#[test]
fn new_row_keeps_given_buttons() {
    let row = ActionPopoverRow::new(vec![ButtonId::Forward, ButtonId::Back, ButtonId::Forward]);
    assert_eq!(row.buttons(), &vec![ButtonId::Forward, ButtonId::Back, ButtonId::Forward]);
    assert!(ActionPopoverRow::new(Vec::new()).buttons().is_empty());
}

#[test]
fn card_shows_current_binding() {
    assert_eq!(binding_label(None), "Unbound");
    assert_eq!(binding_label(Some("Copy")), "Copy");
    assert_eq!(card_label("Back", binding_label(None)), "Back\n→ Unbound");
    assert_eq!(card_label("Forward", "Mission Control"), "Forward\n→ Mission Control");
}

#[test]
fn popover_heading() {
    assert_eq!(bind_heading("Left Click"), "Bind Left Click");
}
