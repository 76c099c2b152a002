# process_viewer

The decisions of a graphical process viewer, as a verified library, and the application around it.

- `src/command_line.rs`: splitting a typed line into arguments.
- `src/launch.rs`: what is started for a line, and what the user is told.
- `src/process_list.rs`: the edits that bring the process list up to date.
- `src/dialogs.rs`: the windows that show one process each.
- `src/timers.rs`: the timers, and the state that they share with the settings dialog.
- `src/window.rs`: the settings and the main window's reactions.
- `tests/`: tests on concrete values.
- `app/`: the widgets, the timers and the processes, built on GTK and sysinfo.
