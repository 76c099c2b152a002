//! What the main window does when it is used.
use crate::timers::Timer;
use vstd::prelude::*;

verus! {

/// The settings that are kept between two runs of the application.
#[derive(Clone, Copy, PartialEq, Eq, Debug)]
pub struct Settings {
    pub display_fahrenheit: bool,
    pub display_graph: bool,
    /// The time between two refreshes, in milliseconds.
    pub refresh_processes_rate: u32,
    pub refresh_system_rate: u32,
    pub refresh_network_rate: u32,
}

impl Settings {
    /// The time between two refreshes by `timer`, in milliseconds.
    pub fn refresh_rate(&self, timer: Timer) -> (rate: u32)
        ensures
            rate == (match timer {
                Timer::Processes => self.refresh_processes_rate,
                Timer::Network => self.refresh_network_rate,
                Timer::System => self.refresh_system_rate,
            }),
    {
        match timer {
            Timer::Processes => self.refresh_processes_rate,
            Timer::Network => self.refresh_network_rate,
            Timer::System => self.refresh_system_rate,
        }
    }
}

/// What the graphs action does.
#[derive(Clone, Copy, PartialEq, Eq, Debug)]
pub struct GraphToggle {
    /// The new state of the action.
    pub state: bool,
    /// What the check boxes of memory, swap and network are set to, if anything.
    pub check_boxes: Option<bool>,
    /// What the check box of the temperatures is set to, if anything.
    pub temperature_check_box: Option<bool>,
}

/// The state after a toggle of an action that was in `state`; one without a state counts as off.
pub open spec fn toggled(state: Option<bool>) -> bool {
    state != Some(true)
}

/// Toggles the display of the graphs. The check boxes follow where the action has a state; that of
/// the temperatures exists only on machines with a sensor.
pub fn toggle_graphs(
    settings: &mut Settings,
    state: Option<bool>,
    has_temperature: bool,
) -> (toggle: GraphToggle)
    ensures
        toggle.state == toggled(state),
        toggle.check_boxes == (match state {
            Some(is_active) => Some(!is_active),
            None => None,
        }),
        toggle.temperature_check_box == (if has_temperature {
            toggle.check_boxes
        } else {
            None
        }),
        *final(settings) == (Settings { display_graph: toggled(state), ..*old(settings) }),
        toggle.state == (match state {
            Some(is_active) => !is_active,
            None => true,
        }),
        final(settings).display_graph == toggle.state,
        final(settings).display_fahrenheit == old(settings).display_fahrenheit,
        final(settings).refresh_processes_rate == old(settings).refresh_processes_rate,
        final(settings).refresh_system_rate == old(settings).refresh_system_rate,
        final(settings).refresh_network_rate == old(settings).refresh_network_rate,
{
    let mut is_active = false;
    let mut check_boxes: Option<bool> = None;
    let mut temperature_check_box: Option<bool> = None;
    if let Some(active) = state {
        is_active = active;
        check_boxes = Some(!is_active);
        if has_temperature {
            temperature_check_box = Some(!is_active);
        }
    }
    settings.display_graph = !is_active;
    GraphToggle { state: !is_active, check_boxes, temperature_check_box }
}

/// Toggles the unit of the temperatures, and gives the new state of the action.
pub fn toggle_temperature(settings: &mut Settings, state: Option<bool>) -> (new_state: bool)
    ensures
        new_state == toggled(state),
        *final(settings) == (Settings { display_fahrenheit: toggled(state), ..*old(settings) }),
        new_state == (match state {
            Some(is_active) => !is_active,
            None => true,
        }),
        final(settings).display_fahrenheit == new_state,
        final(settings).display_graph == old(settings).display_graph,
        final(settings).refresh_processes_rate == old(settings).refresh_processes_rate,
        final(settings).refresh_system_rate == old(settings).refresh_system_rate,
        final(settings).refresh_network_rate == old(settings).refresh_network_rate,
{
    let is_active = match state {
        Some(active) => active,
        None => false,
    };
    settings.display_fahrenheit = !is_active;
    !is_active
}

/// What the filter button does.
#[derive(Clone, Copy, PartialEq, Eq, Debug)]
pub enum FilterAction {
    Hide,
    ShowAndFocus,
}

/// What the filter button does while the filter entry is shown, or is not.
pub fn filter_clicked(visible: bool) -> (action: FilterAction)
    ensures
        action == (if visible {
            FilterAction::Hide
        } else {
            FilterAction::ShowAndFocus
        }),
{
    if visible {
        FilterAction::Hide
    } else {
        FilterAction::ShowAndFocus
    }
}

/// The keys that the window tells apart.
#[derive(Clone, Copy, PartialEq, Eq, Debug)]
pub enum Key {
    Escape,
    Other,
}

/// What the window does with a key.
#[derive(Clone, Copy, PartialEq, Eq, Debug)]
pub enum KeyAction {
    /// The key goes on to the widgets.
    PassOn,
    /// The filter is hidden, and the key goes on to the widgets.
    HideFilter,
    /// The search bar gets the key, and `search_handled` says how to go on.
    Search,
}

/// The page of the notebook that holds the process list.
pub const PROCESS_PAGE: u32 = 0;

/// What the window does with a key while `page` is shown: only the process list has a filter.
pub fn key_pressed(page: Option<u32>, key: Key) -> (action: KeyAction)
    ensures
        action == (if page != Some(PROCESS_PAGE) {
            KeyAction::PassOn
        } else if key is Escape {
            KeyAction::HideFilter
        } else {
            KeyAction::Search
        }),
        page == Some(0u32) && key is Escape ==> action is HideFilter,
        page == Some(0u32) && !(key is Escape) ==> action is Search,
        page != Some(0u32) ==> action is PassOn,
{
    match page {
        Some(number) if number == PROCESS_PAGE => match key {
            Key::Escape => KeyAction::HideFilter,
            Key::Other => KeyAction::Search,
        },
        _ => KeyAction::PassOn,
    }
}

/// What the window does after the search bar got a key.
#[derive(Clone, Copy, PartialEq, Eq, Debug)]
pub struct SearchOutcome {
    pub show_filter: bool,
    pub focus_filter: bool,
    /// The key does not go on to the widgets.
    pub inhibit: bool,
}

/// What the window does after the search bar got a key, which it may have `handled`, and left
/// `text` in the filter entry: a filter that holds text is shown and gets the focus.
pub fn search_handled(
    handled: bool,
    text: Option<&str>,
    filter_has_focus: bool,
) -> (outcome: SearchOutcome)
    ensures
        outcome.show_filter <==> (text matches Some(filter) && filter@.len() > 0),
        outcome.focus_filter <==> outcome.show_filter && !filter_has_focus,
        outcome.inhibit == handled,
{
    let show_filter = match text {
        Some(filter) => !filter.is_empty(),
        None => false,
    };
    SearchOutcome { show_filter, focus_filter: show_filter && !filter_has_focus, inhibit: handled }
}

/// How a dialog was answered.
#[derive(Clone, Copy, PartialEq, Eq, Debug)]
pub enum Response {
    /// The window was closed.
    DeleteEvent,
    /// The close button was pressed.
    Close,
    /// The confirmation button was pressed.
    Confirm,
    /// Any other answer.
    Other,
}

/// Whether the about dialog goes away when it is answered.
pub fn closes_about(response: Response) -> (closes: bool)
    ensures
        closes <==> response is DeleteEvent || response is Close,
{
    match response {
        Response::DeleteEvent | Response::Close => true,
        Response::Confirm | Response::Other => false,
    }
}

/// Whether the message about a started command goes away when it is answered.
pub fn closes_message(response: Response) -> (closes: bool)
    ensures
        closes <==> response is DeleteEvent || response is Close || response is Confirm,
{
    match response {
        Response::DeleteEvent | Response::Close | Response::Confirm => true,
        Response::Other => false,
    }
}

/// A toggle changes every state, an action without one counts as off, and toggling twice gives the
/// old state back.
pub proof fn lemma_toggle_twice(state: bool)
    ensures
        toggled(Some(toggled(Some(state)))) == state,
        toggled(Some(state)) == !state,
        toggled(None),
{
}

} // verus!
