use taimi::addon::{
    unload, FrameOutcome, RenderState, TimarksLoopEvent, TimarksState, TimarksThreadEvent,
};

#[test]
fn window_starts_open_with_details_hidden() {
    let state = RenderState::new();
    assert!(state.window_open);
    assert!(!state.show);
}

#[test]
fn key_press_toggles_the_window_and_release_does_not() {
    let mut state = RenderState::new();
    state.keybind_handler("TIMARKS_MENU_KEYBIND", false);
    assert!(!state.window_open);
    state.keybind_handler("TIMARKS_MENU_KEYBIND", true);
    assert!(!state.window_open);
    state.keybind_handler("TIMARKS_MENU_KEYBIND", false);
    assert!(state.window_open);
    assert!(!state.show);
}

#[test]
fn button_turns_the_details_over() {
    let mut state = RenderState::new();
    state.render(FrameOutcome { still_open: true, button: Some(false) });
    assert_eq!(state, RenderState { window_open: true, show: false });
    state.render(FrameOutcome { still_open: true, button: Some(true) });
    assert_eq!(state, RenderState { window_open: true, show: true });
    state.render(FrameOutcome { still_open: true, button: Some(false) });
    assert_eq!(state, RenderState { window_open: true, show: true });
    state.render(FrameOutcome { still_open: true, button: None });
    assert_eq!(state, RenderState { window_open: true, show: true });
    state.render(FrameOutcome { still_open: true, button: Some(true) });
    assert_eq!(state, RenderState { window_open: true, show: false });
}

#[test]
fn close_box_closes_the_window() {
    let mut state = RenderState::new();
    state.render(FrameOutcome { still_open: false, button: Some(true) });
    assert_eq!(state, RenderState { window_open: false, show: true });
}

#[test]
fn closed_window_takes_nothing_in() {
    let mut state = RenderState { window_open: false, show: false };
    state.render(FrameOutcome { still_open: true, button: Some(true) });
    assert_eq!(state, RenderState { window_open: false, show: false });
}

#[test]
fn unload_asks_the_worker_to_quit() {
    assert_eq!(unload(), TimarksThreadEvent::Quit);
}

#[test]
fn worker_ends_on_quit_and_on_a_closed_channel() {
    let mut state = TimarksState::new();
    assert!(state.step(TimarksLoopEvent::Tick));
    assert!(!state.step(TimarksLoopEvent::Command(unload())));
    assert!(!state.step(TimarksLoopEvent::ChannelClosed));
    assert!(!state.handle_event(TimarksThreadEvent::Quit));
    state.tick();
    assert_eq!(state, TimarksState::new());
}
