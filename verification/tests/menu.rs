use bevy_game::menu::{hover_color, play_button_response, ButtonColor, ButtonResponse, Interaction};
use bevy_game::state::GameState;

#[test]
fn hover_colours() {
    assert_eq!(hover_color(Interaction::Hovered), Some(ButtonColor::Hovered));
    assert_eq!(hover_color(Interaction::Idle), Some(ButtonColor::Normal));
    assert_eq!(hover_color(Interaction::Pressed), None);
}

#[test]
fn play_button_starts_the_game() {
    assert_eq!(
        play_button_response(Interaction::Pressed, Some(GameState::Playing), false),
        ButtonResponse::ChangeState(GameState::Playing)
    );
}

#[test]
fn link_button_opens_its_link() {
    assert_eq!(play_button_response(Interaction::Pressed, None, true), ButtonResponse::OpenLink);
    assert_eq!(play_button_response(Interaction::Pressed, None, false), ButtonResponse::Nothing);
}

#[test]
fn law_state_change_before_link() {
    assert_eq!(
        play_button_response(Interaction::Pressed, Some(GameState::Menu), true),
        ButtonResponse::ChangeState(GameState::Menu)
    );
}

#[test]
fn law_only_presses_act() {
    for state in [None, Some(GameState::Playing)] {
        for link in [false, true] {
            assert_eq!(
                play_button_response(Interaction::Hovered, state, link),
                ButtonResponse::Recolor(ButtonColor::Hovered)
            );
            assert_eq!(
                play_button_response(Interaction::Idle, state, link),
                ButtonResponse::Recolor(ButtonColor::Normal)
            );
        }
    }
}
