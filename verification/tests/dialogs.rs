use process_viewer::dialogs::{
    kill_target, updates_in_order, DialogAction, DialogRefresh, DialogRequest, DialogUpdate,
    ProcessDialogs,
};
use std::collections::HashMap;
use sysinfo::Pid;

fn running(pids: &[Pid]) -> HashMap<Pid, ()> {
    pids.iter().map(|pid| (*pid, ())).collect()
}

fn request(pid: Pid) -> DialogAction {
    DialogAction::Open(DialogRequest {
        pid,
        running_since: 12,
        starting_time: 1000,
        total_memory: 8192,
    })
}

#[test]
fn a_window_is_opened_for_a_running_process() {
    let dialogs: ProcessDialogs<()> = ProcessDialogs::new();
    assert!(!dialogs.is_open(7));
    assert_eq!(
        dialogs.create_new_proc_diag(7, &running(&[7]), 8192, Some(12), 1000),
        request(7)
    );
}

#[test]
fn no_window_is_opened_for_a_process_that_ended() {
    let dialogs: ProcessDialogs<()> = ProcessDialogs::new();
    assert_eq!(
        dialogs.create_new_proc_diag(7, &running(&[8]), 8192, Some(12), 1000),
        DialogAction::Ignore
    );
}

#[test]
fn a_process_has_one_window_until_it_is_closed() {
    let mut dialogs = ProcessDialogs::new();
    dialogs.opened(7, "seven");
    assert!(dialogs.is_open(7));
    assert_eq!(dialogs.get(7), Some(&"seven"));
    assert_eq!(dialogs.get(8), None);
    assert_eq!(
        dialogs.create_new_proc_diag(7, &running(&[7]), 8192, Some(12), 1000),
        DialogAction::Ignore
    );
    dialogs.closed(7);
    assert!(!dialogs.is_open(7));
    assert_eq!(
        dialogs.create_new_proc_diag(7, &running(&[7]), 8192, Some(12), 1000),
        request(7)
    );
}

#[test]
fn a_clock_that_went_backwards_is_reported_first() {
    let mut dialogs = ProcessDialogs::new();
    dialogs.opened(7, ());
    assert_eq!(
        dialogs.create_new_proc_diag(7, &running(&[]), 8192, None, 1000),
        DialogAction::ReportClock
    );
    assert!(matches!(
        dialogs.refresh(&running(&[7]), None, 1000),
        DialogRefresh::ReportClock
    ));
}

#[test]
fn the_information_button_needs_a_selection() {
    let dialogs: ProcessDialogs<()> = ProcessDialogs::new();
    assert_eq!(
        dialogs.info_clicked(None, &running(&[7]), 8192, None, 1000),
        DialogAction::Ignore
    );
    assert_eq!(
        dialogs.info_clicked(Some(7), &running(&[7]), 8192, Some(12), 1000),
        request(7)
    );
    assert_eq!(
        dialogs.info_clicked(Some(7), &running(&[7]), 8192, None, 1000),
        DialogAction::ReportClock
    );
}

#[test]
fn an_activated_row_opens_its_process() {
    let mut dialogs = ProcessDialogs::new();
    assert_eq!(
        dialogs.row_activated(u32::MAX, &running(&[-1]), 8192, Some(12), 1000),
        request(-1)
    );
    dialogs.opened(7, ());
    assert_eq!(
        dialogs.row_activated(7, &running(&[7]), 8192, None, 1000),
        DialogAction::Ignore
    );
    assert_eq!(
        dialogs.row_activated(8, &running(&[8]), 8192, None, 1000),
        DialogAction::ReportClock
    );
}

#[test]
fn a_refresh_reaches_the_windows_of_running_processes() {
    let mut dialogs = ProcessDialogs::new();
    dialogs.opened(1, ());
    dialogs.opened(2, ());
    dialogs.opened(3, ());
    match dialogs.refresh(&running(&[1, 3, 4]), Some(5), 1000) {
        DialogRefresh::Update(updates) => {
            let mut pids: Vec<Pid> = updates.iter().map(|update| update.pid).collect();
            pids.sort();
            assert_eq!(pids, vec![1, 3]);
            assert!(updates
                .iter()
                .all(|update| update.running_since == 5 && update.start_time == 1000));
        }
        DialogRefresh::ReportClock => panic!("updates were expected"),
    }
    assert!(dialogs.is_open(2));
}

#[test]
fn updates_follow_the_order_of_the_walk() {
    let update = |pid| DialogUpdate {
        pid,
        running_since: 5,
        start_time: 6,
    };
    assert_eq!(
        updates_in_order(&vec![3, 2, 1], &running(&[1, 3]), 5, 6),
        vec![update(3), update(1)]
    );
}

#[test]
fn only_a_selected_process_that_runs_is_killed() {
    assert_eq!(kill_target(Some(7), &running(&[7])), Some(7));
    assert_eq!(kill_target(Some(7), &running(&[8])), None);
    assert_eq!(kill_target(None, &running(&[7])), None);
}
