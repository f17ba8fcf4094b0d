//! The button-to-action picker: which buttons get a card, and the text on
//! a card and on its popover.

use vstd::prelude::*;
use vstd::string::StringExecFns;

use crate::text::string_from;

verus! {

/// A remappable mouse button.
#[derive(Clone, Copy, Debug, PartialEq, Eq, Hash, Structural)]
pub enum ButtonId {
    LeftClick,
    RightClick,
    Back,
    Forward,
}

/// A row of binding cards, one per button, in order.
pub struct ActionPopoverRow {
    buttons: Vec<ButtonId>,
}

impl View for ActionPopoverRow {
    type V = Seq<ButtonId>;

    closed spec fn view(&self) -> Seq<ButtonId> {
        self.buttons@
    }
}

impl ActionPopoverRow {
    /// A row with a card for each of `buttons`, in that order.
    pub fn new(buttons: Vec<ButtonId>) -> (res: Self)
        ensures
            res@ == buttons@,
    {
        Self { buttons }
    }

    /// The default row: left click, right click, back, forward.
    pub fn default_row() -> (res: Self)
        ensures
            res@ == seq![
                ButtonId::LeftClick,
                ButtonId::RightClick,
                ButtonId::Back,
                ButtonId::Forward,
            ],
    {
        let mut buttons: Vec<ButtonId> = Vec::new();
        buttons.push(ButtonId::LeftClick);
        buttons.push(ButtonId::RightClick);
        buttons.push(ButtonId::Back);
        buttons.push(ButtonId::Forward);
        Self::new(buttons)
    }

    /// The buttons of the row, in order.
    pub fn buttons(&self) -> (res: &Vec<ButtonId>)
        ensures
            res@ == self@,
    {
        &self.buttons
    }
}

/// What a card shows as the current binding: the bound action's label, or
/// `Unbound`.
pub fn binding_label(action_label: Option<&str>) -> (res: &str)
    ensures
        res@ == match action_label {
            Some(l) => l@,
            None => "Unbound"@,
        },
{
    match action_label {
        Some(l) => l,
        None => "Unbound",
    }
}

/// The text of a button's card: its label, a line break, an arrow and the
/// current binding.
pub fn card_label(button_label: &str, current: &str) -> (res: String)
    ensures
        res@ == button_label@ + "\n→ "@ + current@,
{
    let mut label = string_from(button_label);
    label.append("\n→ ");
    label.append(current);
    label
}

/// The heading of a button's popover: `Bind <label>`.
pub fn bind_heading(button_label: &str) -> (res: String)
    ensures
        res@ == "Bind "@ + button_label@,
{
    let mut heading = string_from("Bind ");
    heading.append(button_label);
    heading
}

} // verus!
