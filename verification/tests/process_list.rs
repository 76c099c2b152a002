use process_viewer::process_list::{
    insert_edit, keys_of, refresh_list, update_window, update_window_in_order, ListAction,
    ProcessInfo, RowEdit, SortColumn, SortDirection, Sorting,
};
use std::collections::HashMap;
use sysinfo::Pid;

fn process(pid: Pid, name: &str, cmd: &[&str], cpu: f32, memory: u64) -> ProcessInfo {
    ProcessInfo {
        pid,
        name: name.to_string(),
        cmd: cmd.iter().map(|s| s.to_string()).collect(),
        cpu: cpu.to_bits(),
        memory,
    }
}

fn table(processes: Vec<ProcessInfo>) -> HashMap<Pid, ProcessInfo> {
    processes.into_iter().map(|p| (p.pid, p)).collect()
}

/// Performs the edits on the pid, memory and CPU usage of each row.
fn perform(rows: &[(u32, u64, f32)], edits: &[RowEdit]) -> Vec<(u32, u64, f32)> {
    let mut rows = rows.to_vec();
    let mut at = 0;
    for edit in edits {
        match edit {
            RowEdit::Update { memory, cpu } => {
                rows[at].1 = *memory;
                rows[at].2 = f32::from_bits(*cpu);
                at += 1;
            }
            RowEdit::Remove => {
                rows.remove(at);
            }
            RowEdit::Insert(row) => rows.push((row.pid, row.memory, f32::from_bits(row.cpu))),
        }
    }
    rows
}

#[test]
fn an_empty_list_gets_a_row_for_each_process() {
    let entries = table(vec![process(7, "init", &["/sbin/init", "a b"], 1.5, 42)]);
    let edits = update_window(&vec![], &entries);
    assert_eq!(edits.len(), 1);
    match &edits[0] {
        RowEdit::Insert(row) => {
            assert_eq!(row.pid, 7);
            assert_eq!(row.name, "init");
            assert_eq!(row.command, "[\"/sbin/init\", \"a b\"]");
            assert_eq!(f32::from_bits(row.cpu), 1.5);
            assert_eq!(row.memory, 42);
        }
        _ => panic!("a row was expected"),
    }
}

#[test]
fn the_command_of_a_new_row_is_escaped() {
    let entries = table(vec![process(1, "sh", &["say \"hi\"\n"], 0.0, 0)]);
    let edits = update_window(&vec![], &entries);
    assert!(matches!(&edits[0], RowEdit::Insert(row) if row.command == "[\"say \\\"hi\\\"\\n\"]"));
    let bare = table(vec![process(2, "kthreadd", &[], 0.0, 0)]);
    let edits = update_window(&vec![], &bare);
    assert!(matches!(&edits[0], RowEdit::Insert(row) if row.command == "[]"));
}

#[test]
fn a_negative_pid_keeps_its_bits() {
    let edit = insert_edit(&process(-1, "odd", &[], 0.0, 0), String::from("cmd"));
    assert!(matches!(&edit, RowEdit::Insert(row) if row.pid == u32::MAX && row.command == "cmd"));
    let entries = table(vec![process(-1, "odd", &[], 0.0, 3)]);
    let edits = update_window(&vec![u32::MAX], &entries);
    assert_eq!(edits.len(), 1);
    assert!(matches!(edits[0], RowEdit::Update { memory: 3, cpu: 0 }));
}

#[test]
fn rows_are_updated_or_removed_in_their_order() {
    let entries = table(vec![
        process(1, "a", &[], 0.5, 10),
        process(3, "c", &[], 2.0, 30),
    ]);
    let edits = update_window(&vec![3, 2, 1, 9], &entries);
    assert_eq!(edits.len(), 4);
    assert!(matches!(edits[0], RowEdit::Update { memory: 30, cpu } if cpu == 2.0f32.to_bits()));
    assert!(matches!(edits[1], RowEdit::Remove));
    assert!(matches!(edits[2], RowEdit::Update { memory: 10, cpu } if cpu == 0.5f32.to_bits()));
    assert!(matches!(edits[3], RowEdit::Remove));
}

#[test]
fn the_refreshed_list_shows_the_running_processes() {
    let entries = table(vec![
        process(1, "a", &[], 0.5, 10),
        process(3, "c", &[], 2.0, 30),
        process(4, "d", &[], 4.0, 40),
        process(5, "e", &[], 5.0, 50),
    ]);
    let before = vec![(3, 0, 0.0), (2, 0, 0.0), (1, 0, 0.0)];
    let after = perform(&before, &update_window(&vec![3, 2, 1], &entries));
    assert_eq!(&after[..2], &[(3, 30, 2.0), (1, 10, 0.5)]);
    let mut added = after[2..].to_vec();
    added.sort_by_key(|row| row.0);
    assert_eq!(added, vec![(4, 40, 4.0), (5, 50, 5.0)]);
}

#[test]
fn a_second_refresh_changes_nothing() {
    let entries = table(vec![
        process(1, "a", &[], 0.5, 10),
        process(3, "c", &[], 2.0, 30),
    ]);
    let once = perform(&[(2, 0, 0.0)], &update_window(&vec![2], &entries));
    let numbers = once.iter().map(|row| row.0).collect();
    let twice = perform(&once, &update_window(&numbers, &entries));
    assert_eq!(once, twice);
}

#[test]
fn new_rows_follow_the_order_of_the_walk() {
    let entries = table(vec![
        process(1, "a", &[], 0.0, 1),
        process(2, "b", &[], 0.0, 2),
        process(3, "c", &[], 0.0, 3),
    ]);
    let edits = update_window_in_order(&vec![2], &entries, &vec![3, 2, 1]);
    assert_eq!(
        perform(&[(2, 0, 0.0)], &edits),
        vec![(2, 2, 0.0), (3, 3, 0.0), (1, 1, 0.0)]
    );
}

#[test]
fn every_key_is_walked_once() {
    let map: HashMap<Pid, &str> = vec![(1, "a"), (2, "b"), (-3, "c")].into_iter().collect();
    let mut keys = keys_of(&map);
    keys.sort();
    assert_eq!(keys, vec![-3, 1, 2]);
}

#[test]
fn a_sorted_list_is_sorted_again() {
    let sorting = Sorting {
        column: SortColumn::Index(5),
        direction: SortDirection::Descending,
    };
    let actions = refresh_list(Some(sorting), &vec![8], &HashMap::new());
    assert_eq!(actions.len(), 3);
    assert!(matches!(actions[0], ListAction::Unsort));
    match &actions[1] {
        ListAction::Edit(edits) => {
            assert_eq!(edits.len(), 1);
            assert!(matches!(edits[0], RowEdit::Remove));
        }
        _ => panic!("edits were expected"),
    }
    assert!(matches!(&actions[2], ListAction::Sort(again) if *again == sorting));
}

#[test]
fn an_unsorted_list_stays_unsorted() {
    let actions = refresh_list(None, &vec![], &HashMap::new());
    assert_eq!(actions.len(), 2);
    assert!(matches!(actions[0], ListAction::Unsort));
    assert!(matches!(&actions[1], ListAction::Edit(edits) if edits.is_empty()));
}
