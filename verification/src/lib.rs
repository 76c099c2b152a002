//! The decisions of a process viewer: what its process list, its process windows, its timers and
//! its launcher do. The widgets, the timers and the processes themselves belong to the
//! application around this library.
use vstd::prelude::*;

pub mod command_line;
pub mod dialogs;
pub mod launch;
pub mod process_list;
pub mod timers;
pub mod window;

verus! {

/// The identifier under which the application registers itself.
pub const APPLICATION_NAME: &'static str = "com.github.GuillaumeGomez.process-viewer";

} // verus!
