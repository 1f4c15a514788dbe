//! What the buttons of the menu do when the pointer moves over them or presses them.
use vstd::prelude::*;
use crate::state::GameState;

verus! {

/// Where the pointer stands with respect to a button.
#[derive(Clone, Copy, Debug, PartialEq, Eq, Structural)]
pub enum Interaction {
    /// The button is being pressed.
    Pressed,
    /// The pointer is over the button.
    Hovered,
    /// Neither.
    Idle,
}

/// Which of its two colours a button shows.
#[derive(Clone, Copy, Debug, PartialEq, Eq, Structural)]
pub enum ButtonColor {
    Normal,
    Hovered,
}

/// What a button of the menu does in answer to a change of its interaction.
#[derive(Clone, Copy, Debug, PartialEq, Eq, Structural)]
pub enum ButtonResponse {
    /// Move the game to this phase.
    ChangeState(GameState),
    /// Open the link that the button carries in the web browser.
    OpenLink,
    /// Show this colour.
    Recolor(ButtonColor),
    /// Nothing.
    Nothing,
}

/// The colour a button takes when its interaction changes: the hover colour under the
/// pointer, the normal colour away from it, and no change while it is pressed.
pub open spec fn color_for(interaction: Interaction) -> Option<ButtonColor> {
    match interaction {
        Interaction::Pressed => None,
        Interaction::Hovered => Some(ButtonColor::Hovered),
        Interaction::Idle => Some(ButtonColor::Normal),
    }
}

/// What a button that may carry a phase to move to and may carry a link does: a press moves
/// to the phase where there is one, else opens the link where there is one; otherwise the
/// button takes the colour of `color_for`.
pub open spec fn response_for(
    interaction: Interaction,
    change_state: Option<GameState>,
    has_link: bool,
) -> ButtonResponse {
    match interaction {
        Interaction::Pressed => match change_state {
            Some(state) => ButtonResponse::ChangeState(state),
            None => if has_link {
                ButtonResponse::OpenLink
            } else {
                ButtonResponse::Nothing
            },
        },
        Interaction::Hovered => ButtonResponse::Recolor(ButtonColor::Hovered),
        Interaction::Idle => ButtonResponse::Recolor(ButtonColor::Normal),
    }
}

/// The colour a button takes when its interaction changes to `interaction`, if it changes.
pub fn hover_color(interaction: Interaction) -> (r: Option<ButtonColor>)
    ensures
        r == color_for(interaction),
{
    match interaction {
        Interaction::Pressed => None,
        Interaction::Hovered => Some(ButtonColor::Hovered),
        Interaction::Idle => Some(ButtonColor::Normal),
    }
}

/// What the play button or a link button does when its interaction changes to
/// `interaction`; `change_state` is the phase the button moves the game to, if any, and
/// `has_link` tells whether it carries a link.
pub fn play_button_response(
    interaction: Interaction,
    change_state: Option<GameState>,
    has_link: bool,
) -> (r: ButtonResponse)
    ensures
        r == response_for(interaction, change_state, has_link),
{
    match interaction {
        Interaction::Pressed => match change_state {
            Some(state) => ButtonResponse::ChangeState(state),
            None => if has_link {
                ButtonResponse::OpenLink
            } else {
                ButtonResponse::Nothing
            },
        },
        _ => match hover_color(interaction) {
            Some(color) => ButtonResponse::Recolor(color),
            None => ButtonResponse::Nothing,
        },
    }
}

/// Law: only a press acts; a button under the pointer or away from it only changes colour,
/// and a pressed button keeps its colour.
pub proof fn lemma_only_presses_act(
    interaction: Interaction,
    change_state: Option<GameState>,
    has_link: bool,
)
    ensures
        interaction != Interaction::Pressed ==> response_for(interaction, change_state, has_link)
            == ButtonResponse::Recolor(color_for(interaction)->0),
        interaction == Interaction::Pressed ==> color_for(interaction) is None && !(response_for(
            interaction,
            change_state,
            has_link,
        ) is Recolor),
{
}

/// Law: a press of a button that carries a phase always moves the game to that phase, even
/// where the button carries a link too.
pub proof fn lemma_state_change_before_link(state: GameState, has_link: bool)
    ensures
        response_for(Interaction::Pressed, Some(state), has_link) == ButtonResponse::ChangeState(
            state,
        ),
{
}

/// Law: the whole table of answers: a press moves to the button's phase where it has one,
/// else opens its link where it has one, else does nothing; under the pointer a button shows
/// its hover colour and away from it its normal colour.
pub proof fn lemma_button_answers(state: GameState, has_link: bool, change: Option<GameState>)
    ensures
        response_for(Interaction::Pressed, Some(state), has_link) == ButtonResponse::ChangeState(
            state,
        ),
        response_for(Interaction::Pressed, None, true) == ButtonResponse::OpenLink,
        response_for(Interaction::Pressed, None, false) == ButtonResponse::Nothing,
        response_for(Interaction::Hovered, change, has_link) == ButtonResponse::Recolor(
            ButtonColor::Hovered,
        ),
        response_for(Interaction::Idle, change, has_link) == ButtonResponse::Recolor(
            ButtonColor::Normal,
        ),
        color_for(Interaction::Pressed) == Option::<ButtonColor>::None,
        color_for(Interaction::Hovered) == Some(ButtonColor::Hovered),
        color_for(Interaction::Idle) == Some(ButtonColor::Normal),
{
}

} // verus!
