use process_viewer::dialogs::DialogRefresh;
use process_viewer::timers::{
    setup_network_timeout, setup_system_timeout, setup_timeout, tick, update_system_info,
    update_system_network, RequiredForSettings, TickStep, Timer,
};
use process_viewer::window::Settings;
use std::collections::HashMap;

#[test]
fn nothing_runs_at_the_start() {
    let rfs: RequiredForSettings<u32, ()> = RequiredForSettings::new(1000);
    assert_eq!(rfs.current_source, None);
    assert_eq!(rfs.current_network_source, None);
    assert_eq!(rfs.current_system_source, None);
    assert_eq!(rfs.start_time, 1000);
    assert!(!rfs.process_dialogs.is_open(1));
}

#[test]
fn the_first_start_has_nothing_to_stop() {
    let mut rfs: RequiredForSettings<u32, ()> = RequiredForSettings::new(0);
    let start = setup_timeout(1500, &mut rfs);
    assert_eq!(start.stop, None);
    assert_eq!(start.interval, 1500);
    rfs.timeout_added(Timer::Processes, 1);
    assert_eq!(rfs.current_source, Some(1));
}

#[test]
fn a_restart_hands_out_the_old_timer_and_leaves_the_others() {
    let mut rfs: RequiredForSettings<u32, ()> = RequiredForSettings::new(0);
    rfs.timeout_added(Timer::Processes, 1);
    rfs.timeout_added(Timer::Network, 2);
    rfs.timeout_added(Timer::System, 3);

    let start = setup_network_timeout(700, &mut rfs);
    assert_eq!((start.stop, start.interval), (Some(2), 700));
    assert_eq!(rfs.current_network_source, None);
    rfs.timeout_added(Timer::Network, 4);

    let start = setup_system_timeout(800, &mut rfs);
    assert_eq!((start.stop, start.interval), (Some(3), 800));
    rfs.timeout_added(Timer::System, 5);

    let start = setup_timeout(900, &mut rfs);
    assert_eq!((start.stop, start.interval), (Some(1), 900));
    rfs.timeout_added(Timer::Processes, 6);

    assert_eq!(rfs.current_source, Some(6));
    assert_eq!(rfs.current_network_source, Some(4));
    assert_eq!(rfs.current_system_source, Some(5));
}

#[test]
fn the_windows_are_refreshed_with_the_start_time() {
    let mut rfs: RequiredForSettings<u32, ()> = RequiredForSettings::new(1000);
    rfs.process_dialogs.opened(7, ());
    let processes: HashMap<i32, ()> = vec![(7, ())].into_iter().collect();
    match rfs.refresh_dialogs(&processes, Some(3)) {
        DialogRefresh::Update(updates) => {
            assert_eq!(updates.len(), 1);
            assert_eq!(updates[0].pid, 7);
            assert_eq!(updates[0].running_since, 3);
            assert_eq!(updates[0].start_time, 1000);
        }
        DialogRefresh::ReportClock => panic!("updates were expected"),
    }
    assert!(matches!(
        rfs.refresh_dialogs(&processes, None),
        DialogRefresh::ReportClock
    ));
}

#[test]
fn each_timer_reads_before_it_shows_and_goes_on() {
    let mut settings = Settings {
        display_fahrenheit: true,
        display_graph: false,
        refresh_processes_rate: 1,
        refresh_system_rate: 2,
        refresh_network_rate: 3,
    };
    let processes = tick(Timer::Processes, &settings);
    assert!(processes.keep_running);
    assert_eq!(
        processes.steps,
        vec![
            TickStep::ReadProcesses,
            TickStep::RefreshList,
            TickStep::RefreshDialogs
        ]
    );
    let network = tick(Timer::Network, &settings);
    assert!(network.keep_running);
    assert_eq!(network.steps, vec![TickStep::ReadNetwork, TickStep::ShowNetwork]);
    assert_eq!(network.steps, update_system_network());
    let system = tick(Timer::System, &settings);
    assert!(system.keep_running);
    assert_eq!(system.steps, update_system_info(true));
    settings.display_fahrenheit = false;
    assert_eq!(
        tick(Timer::System, &settings).steps,
        vec![
            TickStep::ReadSystem,
            TickStep::ShowSystem {
                display_fahrenheit: false
            },
            TickStep::ShowProcessors
        ]
    );
}
