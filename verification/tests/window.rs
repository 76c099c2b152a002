use process_viewer::timers::Timer;
use process_viewer::window::{
    closes_about, closes_message, filter_clicked, key_pressed, search_handled, toggle_graphs,
    toggle_temperature, FilterAction, GraphToggle, Key, KeyAction, Response, SearchOutcome,
    Settings,
};
use process_viewer::APPLICATION_NAME;

fn settings() -> Settings {
    Settings {
        display_fahrenheit: false,
        display_graph: true,
        refresh_processes_rate: 1,
        refresh_system_rate: 2,
        refresh_network_rate: 3,
    }
}

#[test]
fn the_application_has_its_name() {
    assert_eq!(APPLICATION_NAME, "com.github.GuillaumeGomez.process-viewer");
}

#[test]
fn each_timer_has_its_rate() {
    assert_eq!(settings().refresh_rate(Timer::Processes), 1);
    assert_eq!(settings().refresh_rate(Timer::System), 2);
    assert_eq!(settings().refresh_rate(Timer::Network), 3);
}

#[test]
fn the_graphs_are_toggled_with_their_check_boxes() {
    let mut changed = settings();
    assert_eq!(
        toggle_graphs(&mut changed, Some(true), true),
        GraphToggle {
            state: false,
            check_boxes: Some(false),
            temperature_check_box: Some(false),
        }
    );
    assert_eq!(
        changed,
        Settings {
            display_graph: false,
            ..settings()
        }
    );
    assert_eq!(
        toggle_graphs(&mut changed, Some(false), false),
        GraphToggle {
            state: true,
            check_boxes: Some(true),
            temperature_check_box: None,
        }
    );
    assert_eq!(changed, settings());
}

#[test]
fn an_action_without_a_state_counts_as_off() {
    let mut changed = settings();
    changed.display_graph = false;
    assert_eq!(
        toggle_graphs(&mut changed, None, true),
        GraphToggle {
            state: true,
            check_boxes: None,
            temperature_check_box: None,
        }
    );
    assert!(changed.display_graph);
    assert!(toggle_temperature(&mut changed, None));
    assert!(changed.display_fahrenheit);
}

#[test]
fn two_toggles_of_the_unit_cancel_out() {
    let mut changed = settings();
    let state = toggle_temperature(&mut changed, Some(false));
    assert!(state);
    assert_eq!(
        changed,
        Settings {
            display_fahrenheit: true,
            ..settings()
        }
    );
    assert!(!toggle_temperature(&mut changed, Some(state)));
    assert_eq!(changed, settings());
}

#[test]
fn the_filter_button_shows_and_hides() {
    assert_eq!(filter_clicked(true), FilterAction::Hide);
    assert_eq!(filter_clicked(false), FilterAction::ShowAndFocus);
}

#[test]
fn only_the_process_list_looks_at_keys() {
    assert_eq!(key_pressed(Some(0), Key::Escape), KeyAction::HideFilter);
    assert_eq!(key_pressed(Some(0), Key::Other), KeyAction::Search);
    assert_eq!(key_pressed(Some(1), Key::Escape), KeyAction::PassOn);
    assert_eq!(key_pressed(None, Key::Other), KeyAction::PassOn);
}

#[test]
fn a_filter_with_text_is_shown_and_focused() {
    let outcome = |show_filter, focus_filter, inhibit| SearchOutcome {
        show_filter,
        focus_filter,
        inhibit,
    };
    assert_eq!(search_handled(true, Some("x"), false), outcome(true, true, true));
    assert_eq!(search_handled(true, Some("x"), true), outcome(true, false, true));
    assert_eq!(search_handled(false, Some(""), false), outcome(false, false, false));
    assert_eq!(search_handled(true, None, false), outcome(false, false, true));
}

#[test]
fn dialogs_close_on_their_answers() {
    assert!(closes_about(Response::DeleteEvent));
    assert!(closes_about(Response::Close));
    assert!(!closes_about(Response::Confirm));
    assert!(!closes_about(Response::Other));
    assert!(closes_message(Response::DeleteEvent));
    assert!(closes_message(Response::Close));
    assert!(closes_message(Response::Confirm));
    assert!(!closes_message(Response::Other));
}
