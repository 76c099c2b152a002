//! The timers that refresh what the application shows, and the state that they share with the
//! settings dialog.
use crate::dialogs::{DialogRefresh, ProcessDialogs};
use crate::window::Settings;
use std::collections::HashMap;
use sysinfo::Pid;
use vstd::prelude::*;

verus! {

/// What the settings dialog needs in order to restart a timer. `S` identifies a timer that the
/// main loop runs, and `D` is an open process window.
pub struct RequiredForSettings<S, D> {
    /// The timer that refreshes the processes.
    pub current_source: Option<S>,
    /// The timer that refreshes the network figures.
    pub current_network_source: Option<S>,
    /// The timer that refreshes the system figures.
    pub current_system_source: Option<S>,
    pub process_dialogs: ProcessDialogs<D>,
    /// When the application was started, in seconds since the epoch.
    pub start_time: u64,
}

/// One of the three timers.
#[derive(Clone, Copy, PartialEq, Eq, Debug)]
pub enum Timer {
    Processes,
    Network,
    System,
}

/// How a timer is restarted: the main loop drops `stop`, then adds a timer that fires every
/// `interval` milliseconds, which `timeout_added` records.
pub struct TimerStart<S> {
    pub stop: Option<S>,
    pub interval: u32,
}

/// One thing that a timer does when it fires.
#[derive(Clone, Copy, PartialEq, Eq, Debug)]
pub enum TickStep {
    /// Reads the processes anew.
    ReadProcesses,
    /// Brings the process list up to date, as `refresh_list` says.
    RefreshList,
    /// Brings the process windows up to date, as `refresh_dialogs` says.
    RefreshDialogs,
    /// Reads the network figures anew.
    ReadNetwork,
    ShowNetwork,
    /// Reads the system figures anew.
    ReadSystem,
    /// Shows memory, swap and temperatures.
    ShowSystem { display_fahrenheit: bool },
    /// Shows the processors.
    ShowProcessors,
}

/// What happens when a timer fires.
pub struct Tick {
    /// What is done, in this order.
    pub steps: Vec<TickStep>,
    /// Whether the timer goes on firing.
    pub keep_running: bool,
}

/// What `timer` does when it fires: figures are read before they are shown, and the unit of the
/// temperatures is the one that is set at that moment.
pub open spec fn tick_steps(timer: Timer, settings: Settings) -> Seq<TickStep> {
    match timer {
        Timer::Processes => seq![
            TickStep::ReadProcesses,
            TickStep::RefreshList,
            TickStep::RefreshDialogs,
        ],
        Timer::Network => seq![TickStep::ReadNetwork, TickStep::ShowNetwork],
        Timer::System => seq![
            TickStep::ReadSystem,
            TickStep::ShowSystem { display_fahrenheit: settings.display_fahrenheit },
            TickStep::ShowProcessors,
        ],
    }
}

impl<S, D> RequiredForSettings<S, D> {
    /// The source of `timer`.
    pub open spec fn source(self, timer: Timer) -> Option<S> {
        match timer {
            Timer::Processes => self.current_source,
            Timer::Network => self.current_network_source,
            Timer::System => self.current_system_source,
        }
    }

    /// The same state, but for the source of `timer`.
    pub open spec fn with_source(self, timer: Timer, source: Option<S>) -> Self {
        match timer {
            Timer::Processes => RequiredForSettings { current_source: source, ..self },
            Timer::Network => RequiredForSettings { current_network_source: source, ..self },
            Timer::System => RequiredForSettings { current_system_source: source, ..self },
        }
    }

    /// The sources of all timers.
    pub open spec fn sources(self) -> Set<S> {
        Set::new(|s: S| exists|timer: Timer| #[trigger] self.source(timer) == Some(s))
    }

    /// No two timers share a source.
    pub open spec fn sources_differ(self) -> bool {
        forall|a: Timer, b: Timer|
            a != b && #[trigger] self.source(a) is Some ==> self.source(a)
                != #[trigger] self.source(b)
    }

    /// The state at the start: no timer runs and no window is open.
    pub fn new(start_time: u64) -> (rfs: Self)
        ensures
            rfs.current_source is None,
            rfs.current_network_source is None,
            rfs.current_system_source is None,
            rfs.process_dialogs@ == Map::<Pid, D>::empty(),
            rfs.start_time == start_time,
            rfs.sources_differ(),
    {
        RequiredForSettings {
            current_source: None,
            current_network_source: None,
            current_system_source: None,
            process_dialogs: ProcessDialogs::new(),
            start_time,
        }
    }

    /// Records the source that was added for `timer`.
    pub fn timeout_added(&mut self, timer: Timer, source: S)
        ensures
            *final(self) == old(self).with_source(timer, Some(source)),
            final(self).current_source == (if timer is Processes {
                Some(source)
            } else {
                old(self).current_source
            }),
            final(self).current_network_source == (if timer is Network {
                Some(source)
            } else {
                old(self).current_network_source
            }),
            final(self).current_system_source == (if timer is System {
                Some(source)
            } else {
                old(self).current_system_source
            }),
            final(self).process_dialogs == old(self).process_dialogs,
            final(self).start_time == old(self).start_time,
    {
        match timer {
            Timer::Processes => {
                self.current_source = Some(source);
            },
            Timer::Network => {
                self.current_network_source = Some(source);
            },
            Timer::System => {
                self.current_system_source = Some(source);
            },
        }
    }

    /// Decides what the process timer does to the open windows, once the list is refreshed.
    pub fn refresh_dialogs<P>(
        &self,
        processes: &HashMap<Pid, P>,
        running_since: Option<u64>,
    ) -> (refresh: DialogRefresh)
        ensures
            match running_since {
                None => refresh is ReportClock,
                Some(secs) => refresh is Update && exists|order: Seq<Pid>| #[trigger]
                    crate::process_list::walks(order, self.process_dialogs@)
                        && refresh->Update_0@ == crate::dialogs::dialog_updates(
                        processes@,
                        order,
                        secs,
                        self.start_time,
                    ),
            },
            running_since is None ==> refresh is ReportClock,
            // Each update carries the times that were given, and is about an open window whose process
            // runs. Each such window is updated, and none twice.
            running_since matches Some(secs) ==> {
                &&& refresh is Update
                &&& forall|i: int|
                    0 <= i < refresh->Update_0@.len() ==> {
                        &&& (#[trigger] refresh->Update_0@[i]).running_since == secs
                        &&& refresh->Update_0@[i].start_time == self.start_time
                        &&& self.process_dialogs@.contains_key(refresh->Update_0@[i].pid)
                        &&& processes@.contains_key(refresh->Update_0@[i].pid)
                    }
                &&& forall|i: int, j: int|
                    0 <= i < j < refresh->Update_0@.len() ==> (#[trigger] refresh->Update_0@[i]).pid != (
                    #[trigger] refresh->Update_0@[j]).pid
                &&& forall|pid: Pid| #[trigger]
                    self.process_dialogs@.contains_key(pid) && processes@.contains_key(pid) ==> exists|i: int|
                        0 <= i < refresh->Update_0@.len() && (#[trigger] refresh->Update_0@[i]).pid == pid
            },
    {
        self.process_dialogs.refresh(processes, running_since, self.start_time)
    }
}

/// Restarts the timer that refreshes the processes.
pub fn setup_timeout<S, D>(
    refresh_time: u32,
    rfs: &mut RequiredForSettings<S, D>,
) -> (start: TimerStart<S>)
    ensures
        start.stop == old(rfs).current_source,
        start.interval == refresh_time,
        *final(rfs) == old(rfs).with_source(Timer::Processes, None),
        final(rfs).current_source is None,
        final(rfs).current_network_source == old(rfs).current_network_source,
        final(rfs).current_system_source == old(rfs).current_system_source,
        final(rfs).process_dialogs == old(rfs).process_dialogs,
        final(rfs).start_time == old(rfs).start_time,
{
    TimerStart { stop: rfs.current_source.take(), interval: refresh_time }
}

/// Restarts the timer that refreshes the network figures.
pub fn setup_network_timeout<S, D>(
    refresh_time: u32,
    rfs: &mut RequiredForSettings<S, D>,
) -> (start: TimerStart<S>)
    ensures
        start.stop == old(rfs).current_network_source,
        start.interval == refresh_time,
        *final(rfs) == old(rfs).with_source(Timer::Network, None),
        final(rfs).current_source == old(rfs).current_source,
        final(rfs).current_network_source is None,
        final(rfs).current_system_source == old(rfs).current_system_source,
        final(rfs).process_dialogs == old(rfs).process_dialogs,
        final(rfs).start_time == old(rfs).start_time,
{
    TimerStart { stop: rfs.current_network_source.take(), interval: refresh_time }
}

/// Restarts the timer that refreshes the system figures.
pub fn setup_system_timeout<S, D>(
    refresh_time: u32,
    rfs: &mut RequiredForSettings<S, D>,
) -> (start: TimerStart<S>)
    ensures
        start.stop == old(rfs).current_system_source,
        start.interval == refresh_time,
        *final(rfs) == old(rfs).with_source(Timer::System, None),
        final(rfs).current_source == old(rfs).current_source,
        final(rfs).current_network_source == old(rfs).current_network_source,
        final(rfs).current_system_source is None,
        final(rfs).process_dialogs == old(rfs).process_dialogs,
        final(rfs).start_time == old(rfs).start_time,
{
    TimerStart { stop: rfs.current_system_source.take(), interval: refresh_time }
}

/// What brings the system figures up to date.
pub fn update_system_info(display_fahrenheit: bool) -> (steps: Vec<TickStep>)
    ensures
        steps@ == seq![
            TickStep::ReadSystem,
            TickStep::ShowSystem { display_fahrenheit },
            TickStep::ShowProcessors,
        ],
{
    vec![
        TickStep::ReadSystem,
        TickStep::ShowSystem { display_fahrenheit },
        TickStep::ShowProcessors,
    ]
}

/// What brings the network figures up to date.
pub fn update_system_network() -> (steps: Vec<TickStep>)
    ensures
        steps@ == seq![TickStep::ReadNetwork, TickStep::ShowNetwork],
{
    vec![TickStep::ReadNetwork, TickStep::ShowNetwork]
}

/// What happens when `timer` fires. Whatever comes of it, the timer goes on.
pub fn tick(timer: Timer, settings: &Settings) -> (tick: Tick)
    ensures
        tick.steps@ == tick_steps(timer, *settings),
        timer is Processes ==> tick.steps@ == seq![
            TickStep::ReadProcesses,
            TickStep::RefreshList,
            TickStep::RefreshDialogs,
        ],
        timer is Network ==> tick.steps@ == seq![TickStep::ReadNetwork, TickStep::ShowNetwork],
        timer is System ==> tick.steps@ == seq![
            TickStep::ReadSystem,
            TickStep::ShowSystem { display_fahrenheit: settings.display_fahrenheit },
            TickStep::ShowProcessors,
        ],
        tick.keep_running,
{
    let steps = match timer {
        Timer::Processes => vec![
            TickStep::ReadProcesses,
            TickStep::RefreshList,
            TickStep::RefreshDialogs,
        ],
        Timer::Network => update_system_network(),
        Timer::System => update_system_info(settings.display_fahrenheit),
    };
    Tick { steps, keep_running: true }
}

/// Restarting a timer leaves no timer behind. When the main loop has dropped the source that the
/// restart hands out and has added `source`, the sources on record are those it ran before,
/// without the old one and with the new one. The other timers keep theirs, and no two timers share
/// one, as long as the main loop does not hand out the source of another timer again.
pub proof fn lemma_restart_leaves_no_timer_behind<S, D>(
    before: RequiredForSettings<S, D>,
    timer: Timer,
    source: S,
)
    requires
        before.sources_differ(),
        forall|other: Timer| other != timer ==> #[trigger] before.source(other) != Some(source),
    ensures
        ({
            let after = before.with_source(timer, None).with_source(timer, Some(source));
            let kept = match before.source(timer) {
                Some(stop) => before.sources().remove(stop),
                None => before.sources(),
            };
            &&& after.sources() == kept.insert(source)
            &&& after.sources_differ()
            &&& forall|other: Timer|
                other != timer ==> #[trigger] after.source(other) == before.source(other)
        }),
{
    let after = before.with_source(timer, None).with_source(timer, Some(source));
    let kept = match before.source(timer) {
        Some(stop) => before.sources().remove(stop),
        None => before.sources(),
    };
    assert forall|s: S| #[trigger] after.sources().contains(s) <==> kept.insert(source).contains(
        s,
    ) by {
        if after.sources().contains(s) {
            let t = choose|t: Timer| #[trigger] after.source(t) == Some(s);
            if t != timer {
                assert(before.source(t) == Some(s));
                assert(before.source(t) != before.source(timer));
            }
        }
        if s == source {
            assert(after.source(timer) == Some(s));
        } else if kept.contains(s) {
            let t = choose|t: Timer| #[trigger] before.source(t) == Some(s);
            assert(after.source(t) == Some(s));
        }
    }
    assert(after.sources() =~= kept.insert(source));
    assert forall|a: Timer, b: Timer|
        a != b && #[trigger] after.source(a) is Some implies after.source(a)
        != #[trigger] after.source(b) by {
        if a != timer && b != timer {
            assert(before.source(a) != before.source(b));
        }
    }
}

/// What a timer does depends on no setting but the unit of the temperatures, and only the system
/// timer looks at that one: whatever else is set, a tick reads the figures, and then shows all of
/// them, once.
pub proof fn lemma_settings_do_not_skip_steps(timer: Timer, settings: Settings, other: Settings)
    ensures
        !(timer is System) || settings.display_fahrenheit == other.display_fahrenheit
            ==> tick_steps(timer, settings) == tick_steps(timer, other),
        tick_steps(Timer::Processes, settings) == seq![
            TickStep::ReadProcesses,
            TickStep::RefreshList,
            TickStep::RefreshDialogs,
        ],
        tick_steps(Timer::Network, settings) == seq![
            TickStep::ReadNetwork,
            TickStep::ShowNetwork,
        ],
        tick_steps(Timer::System, settings) == seq![
            TickStep::ReadSystem,
            TickStep::ShowSystem { display_fahrenheit: settings.display_fahrenheit },
            TickStep::ShowProcessors,
        ],
{
}

/// Recording the source of a timer changes that source and nothing else.
pub proof fn lemma_source_recorded<S, D>(
    before: RequiredForSettings<S, D>,
    timer: Timer,
    source: Option<S>,
)
    ensures
        ({
            let after = before.with_source(timer, source);
            &&& after.current_source == (if timer is Processes {
                source
            } else {
                before.current_source
            })
            &&& after.current_network_source == (if timer is Network {
                source
            } else {
                before.current_network_source
            })
            &&& after.current_system_source == (if timer is System {
                source
            } else {
                before.current_system_source
            })
            &&& after.process_dialogs == before.process_dialogs
            &&& after.start_time == before.start_time
        }),
{
}

} // verus!
