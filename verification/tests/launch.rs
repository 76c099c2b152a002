use process_viewer::launch::{
    can_run, run_command, run_message, start_detached_process, start_failure,
};

#[test]
fn the_program_is_the_first_argument_and_is_passed_too() {
    let launch = start_detached_process("ls -l");
    assert_eq!(launch.command, "ls");
    assert_eq!(launch.args, vec!["ls", "-l"]);
}

#[test]
fn an_empty_line_names_an_empty_program() {
    let launch = start_detached_process("");
    assert_eq!(launch.command, "");
    assert_eq!(launch.args, vec![""]);
}

#[test]
fn a_failed_start_names_the_program() {
    let launch = start_detached_process("nope -x");
    assert_eq!(
        start_failure(&launch, false),
        Some("Failed to start 'nope'".to_string())
    );
    assert_eq!(start_failure(&launch, true), None);
}

#[test]
fn the_message_tells_how_the_start_went() {
    assert_eq!(run_message(None), "The command started successfully");
    let launch = start_detached_process("nope");
    assert_eq!(
        run_message(start_failure(&launch, false)),
        "Failed to start 'nope'"
    );
    let other = start_detached_process("nada");
    assert_ne!(
        run_message(start_failure(&launch, false)),
        run_message(start_failure(&other, false))
    );
}

#[test]
fn without_an_entry_text_nothing_is_run() {
    assert!(run_command(None).is_none());
    let launch = run_command(Some("top -d 1")).unwrap();
    assert_eq!(launch.command, "top");
    assert_eq!(launch.args, vec!["top", "-d", "1"]);
}

#[test]
fn the_run_button_needs_text() {
    assert!(!can_run(None));
    assert!(!can_run(Some("")));
    assert!(can_run(Some(" ")));
    assert!(can_run(Some("ls")));
}
