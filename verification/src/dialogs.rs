//! The windows that show one process each, and when they are opened, refreshed and closed.
use crate::process_list::keys_of;
use std::collections::HashMap;
use sysinfo::Pid;
use vstd::prelude::*;

verus! {

/// The open process windows, at most one for each process.
pub struct ProcessDialogs<D> {
    dialogs: HashMap<Pid, D>,
}

impl<D> View for ProcessDialogs<D> {
    type V = Map<Pid, D>;

    closed spec fn view(&self) -> Map<Pid, D> {
        self.dialogs@
    }
}

/// What a new process window is made of, besides the process itself.
#[derive(Clone, Copy, PartialEq, Eq, Debug)]
pub struct DialogRequest {
    pub pid: Pid,
    /// For how long the application has been running, in seconds.
    pub running_since: u64,
    /// When the application was started, in seconds since the epoch.
    pub starting_time: u64,
    /// The memory of the machine, in kB.
    pub total_memory: u64,
}

/// What to do when a process window is asked for.
#[derive(Clone, Copy, PartialEq, Eq, Debug)]
pub enum DialogAction {
    /// The clock went backwards: report it, and open nothing.
    ReportClock,
    /// Nothing is to be done.
    Ignore,
    /// Open a window, and record it with `opened`.
    Open(DialogRequest),
}

/// A process window to bring up to date.
#[derive(Clone, Copy, PartialEq, Eq, Debug)]
pub struct DialogUpdate {
    pub pid: Pid,
    pub running_since: u64,
    pub start_time: u64,
}

/// What the process timer does to the open windows.
pub enum DialogRefresh {
    /// The clock went backwards: report it, and leave the windows as they are.
    ReportClock,
    Update(Vec<DialogUpdate>),
}

/// What to do when the window of `pid` is asked for while the windows in `dialogs` are open and
/// `processes` run. `running_since` is `None` where the clock went backwards.
pub open spec fn dialog_action<D, P>(
    dialogs: Map<Pid, D>,
    processes: Map<Pid, P>,
    pid: Pid,
    total_memory: u64,
    running_since: Option<u64>,
    starting_time: u64,
) -> DialogAction {
    match running_since {
        None => DialogAction::ReportClock,
        Some(running_since) => if !dialogs.contains_key(pid) && processes.contains_key(pid) {
            DialogAction::Open(
                DialogRequest { pid, running_since, starting_time, total_memory },
            )
        } else {
            DialogAction::Ignore
        },
    }
}

/// What to do when the row with the number `row` is activated.
pub open spec fn row_action<D, P>(
    dialogs: Map<Pid, D>,
    processes: Map<Pid, P>,
    row: u32,
    total_memory: u64,
    running_since: Option<u64>,
    starting_time: u64,
) -> DialogAction {
    let pid = crate::process_list::pid_of_row(row);
    if dialogs.contains_key(pid) {
        DialogAction::Ignore
    } else {
        dialog_action(dialogs, processes, pid, total_memory, running_since, starting_time)
    }
}

/// The updates when the open windows are walked in `order`: one for each process that still runs.
pub open spec fn dialog_updates<P>(
    processes: Map<Pid, P>,
    order: Seq<Pid>,
    running_since: u64,
    start_time: u64,
) -> Seq<DialogUpdate>
    decreases order.len(),
{
    if order.len() == 0 {
        Seq::empty()
    } else {
        let earlier = dialog_updates(processes, order.drop_last(), running_since, start_time);
        if processes.contains_key(order.last()) {
            earlier.push(DialogUpdate { pid: order.last(), running_since, start_time })
        } else {
            earlier
        }
    }
}

impl<D> ProcessDialogs<D> {
    /// No window is open.
    pub fn new() -> (dialogs: Self)
        ensures
            dialogs@ == Map::<Pid, D>::empty(),
    {
        ProcessDialogs { dialogs: HashMap::new() }
    }

    /// Whether the window of `pid` is open.
    pub fn is_open(&self, pid: Pid) -> (open: bool)
        ensures
            open == self@.contains_key(pid),
    {
        self.dialogs.contains_key(&pid)
    }

    /// The open window of `pid`.
    pub fn get(&self, pid: Pid) -> (dialog: Option<&D>)
        ensures
            dialog == (if self@.contains_key(pid) {
                Some(&self@[pid])
            } else {
                None
            }),
    {
        self.dialogs.get(&pid)
    }

    /// Decides what to do when the window of `pid` is asked for: it is opened where the process
    /// exists and has no window yet. `running_since` is `None` where the clock went backwards,
    /// which is reported before anything else is looked at.
    pub fn create_new_proc_diag<P>(
        &self,
        pid: Pid,
        processes: &HashMap<Pid, P>,
        total_memory: u64,
        running_since: Option<u64>,
        starting_time: u64,
    ) -> (action: DialogAction)
        ensures
            action == dialog_action(
                self@,
                processes@,
                pid,
                total_memory,
                running_since,
                starting_time,
            ),
            // The clock comes first, then the window is opened where there is none and the process runs.
            running_since is None ==> action is ReportClock,
            running_since is Some && !self@.contains_key(pid) && processes@.contains_key(pid)
                ==> action == DialogAction::Open(
                DialogRequest {
                    pid,
                    running_since: running_since->0,
                    starting_time,
                    total_memory,
                },
            ),
            running_since is Some && (self@.contains_key(pid) || !processes@.contains_key(pid))
                ==> action is Ignore,
    {
        let running_since: u64 = match running_since {
            Some(secs) => secs,
            None => {
                return DialogAction::ReportClock;
            },
        };
        if !self.is_open(pid) && processes.contains_key(&pid) {
            return DialogAction::Open(
                DialogRequest { pid, running_since, starting_time, total_memory },
            );
        }
        DialogAction::Ignore
    }

    /// Decides what the information button does: it asks for the window of the selected process,
    /// if one is selected.
    pub fn info_clicked<P>(
        &self,
        current_pid: Option<Pid>,
        processes: &HashMap<Pid, P>,
        total_memory: u64,
        running_since: Option<u64>,
        starting_time: u64,
    ) -> (action: DialogAction)
        ensures
            action == (match current_pid {
                Some(pid) => dialog_action(
                    self@,
                    processes@,
                    pid,
                    total_memory,
                    running_since,
                    starting_time,
                ),
                None => DialogAction::Ignore,
            }),
            // Without a selection nothing happens, else it is as if the window was asked for.
            current_pid is None ==> action is Ignore,
            current_pid is Some && running_since is None ==> action is ReportClock,
            current_pid is Some && running_since is Some && !self@.contains_key(current_pid->0)
                && processes@.contains_key(current_pid->0) ==> action == DialogAction::Open(
                DialogRequest {
                    pid: current_pid->0,
                    running_since: running_since->0,
                    starting_time,
                    total_memory,
                },
            ),
            current_pid is Some && running_since is Some && (self@.contains_key(current_pid->0)
                || !processes@.contains_key(current_pid->0)) ==> action is Ignore,
    {
        match current_pid {
            Some(pid) => self.create_new_proc_diag(
                pid,
                processes,
                total_memory,
                running_since,
                starting_time,
            ),
            None => DialogAction::Ignore,
        }
    }

    /// Decides what activating the row with the number `row` does: it asks for the window of its
    /// process, unless that is open. The clock is not even looked at then.
    pub fn row_activated<P>(
        &self,
        row: u32,
        processes: &HashMap<Pid, P>,
        total_memory: u64,
        running_since: Option<u64>,
        starting_time: u64,
    ) -> (action: DialogAction)
        ensures
            action == row_action(
                self@,
                processes@,
                row,
                total_memory,
                running_since,
                starting_time,
            ),
            // A window that is open is never opened again, whatever the clock says.
            self@.contains_key(row as Pid) ==> action is Ignore,
            !self@.contains_key(row as Pid) && running_since is None ==> action is ReportClock,
            running_since is Some && !self@.contains_key(row as Pid) && processes@.contains_key(
                row as Pid,
            ) ==> action == DialogAction::Open(
                DialogRequest {
                    pid: row as Pid,
                    running_since: running_since->0,
                    starting_time,
                    total_memory,
                },
            ),
            running_since is Some && !processes@.contains_key(row as Pid) ==> action is Ignore,
    {
        let pid: Pid = row as Pid;
        if self.is_open(pid) {
            DialogAction::Ignore
        } else {
            self.create_new_proc_diag(
                pid,
                processes,
                total_memory,
                running_since,
                starting_time,
            )
        }
    }

    /// Records that the window of `pid` is open.
    pub fn opened(&mut self, pid: Pid, dialog: D)
        ensures
            final(self)@ == old(self)@.insert(pid, dialog),
    {
        self.dialogs.insert(pid, dialog);
    }

    /// Records that the window of `pid` was closed.
    pub fn closed(&mut self, pid: Pid)
        ensures
            final(self)@ == old(self)@.remove(pid),
    {
        self.dialogs.remove(&pid);
    }

    /// Decides which open windows the process timer brings up to date: those whose process still
    /// runs. The window of a process that has ended stays open as it is.
    pub fn refresh<P>(
        &self,
        processes: &HashMap<Pid, P>,
        running_since: Option<u64>,
        start_time: u64,
    ) -> (refresh: DialogRefresh)
        ensures
            match running_since {
                None => refresh is ReportClock,
                Some(secs) => refresh is Update && exists|order: Seq<Pid>| #[trigger]
                    crate::process_list::walks(order, self@) && refresh->Update_0@
                        == dialog_updates(processes@, order, secs, start_time),
            },
            running_since is None ==> refresh is ReportClock,
            // Each update carries the times that were given, and is about an open window whose process
            // runs. Each such window is updated, and none twice.
            running_since matches Some(secs) ==> {
                &&& refresh is Update
                &&& forall|i: int|
                    0 <= i < refresh->Update_0@.len() ==> {
                        &&& (#[trigger] refresh->Update_0@[i]).running_since == secs
                        &&& refresh->Update_0@[i].start_time == start_time
                        &&& self@.contains_key(refresh->Update_0@[i].pid)
                        &&& processes@.contains_key(refresh->Update_0@[i].pid)
                    }
                &&& forall|i: int, j: int|
                    0 <= i < j < refresh->Update_0@.len() ==> (#[trigger] refresh->Update_0@[i]).pid != (
                    #[trigger] refresh->Update_0@[j]).pid
                &&& forall|pid: Pid| #[trigger]
                    self@.contains_key(pid) && processes@.contains_key(pid) ==> exists|i: int|
                        0 <= i < refresh->Update_0@.len() && (#[trigger] refresh->Update_0@[i]).pid == pid
            },
    {
        let secs: u64 = match running_since {
            Some(secs) => secs,
            None => {
                return DialogRefresh::ReportClock;
            },
        };
        let order = keys_of(&self.dialogs);
        assert(crate::process_list::walks(order@, self@));
        proof {
            lemma_updates_tell_the_time(self@, processes@, order@, secs, start_time);
        }
        DialogRefresh::Update(updates_in_order(&order, processes, secs, start_time))
    }
}

/// The updates when the open windows are walked in `order`.
pub fn updates_in_order<P>(
    order: &Vec<Pid>,
    processes: &HashMap<Pid, P>,
    running_since: u64,
    start_time: u64,
) -> (updates: Vec<DialogUpdate>)
    ensures
        updates@ == dialog_updates(processes@, order@, running_since, start_time),
        ({
            let running = processes@;
            updates@ == order@.filter(|pid: Pid| running.contains_key(pid)).map_values(
                |pid: Pid| DialogUpdate { pid, running_since, start_time },
            )
        }),
{
    let mut updates: Vec<DialogUpdate> = Vec::new();
    let mut i: usize = 0;
    while i < order.len()
        invariant
            i <= order.len(),
            updates@ == dialog_updates(
                processes@,
                order@.take(i as int),
                running_since,
                start_time,
            ),
        decreases order.len() - i,
    {
        let pid: Pid = order[i];
        assert(order@.take(i + 1).drop_last() =~= order@.take(i as int));
        if processes.contains_key(&pid) {
            updates.push(DialogUpdate { pid, running_since, start_time });
        }
        i = i + 1;
    }
    assert(order@.take(order@.len() as int) =~= order@);
    proof {
        lemma_updates_are_filtered(processes@, order@, running_since, start_time);
    }
    updates
}

/// The process that the kill button ends: the selected one, if it still runs.
pub fn kill_target<P>(
    current_pid: Option<Pid>,
    processes: &HashMap<Pid, P>,
) -> (target: Option<Pid>)
    ensures
        target == (match current_pid {
            Some(pid) if processes@.contains_key(pid) => Some(pid),
            _ => None,
        }),
{
    match current_pid {
        Some(pid) => if processes.contains_key(&pid) {
            Some(pid)
        } else {
            None
        },
        None => None,
    }
}

/// A process never has two windows: while its window is open, asking for it opens none, and once
/// it is closed it can be opened again, as long as the process runs and the clock is right.
pub proof fn lemma_one_window_each<D, P>(
    dialogs: Map<Pid, D>,
    pid: Pid,
    dialog: D,
    processes: Map<Pid, P>,
    total_memory: u64,
    running_since: Option<u64>,
    starting_time: u64,
)
    ensures
        !(dialog_action(
            dialogs.insert(pid, dialog),
            processes,
            pid,
            total_memory,
            running_since,
            starting_time,
        ) is Open),
        dialog_action(
            dialogs.insert(pid, dialog).remove(pid),
            processes,
            pid,
            total_memory,
            running_since,
            starting_time,
        ) is Open <==> processes.contains_key(pid) && running_since is Some,
{
}

/// The row that the list shows for a running process opens the window of that process.
pub proof fn lemma_row_opens_its_process<D, P>(
    dialogs: Map<Pid, D>,
    processes: Map<Pid, P>,
    pid: Pid,
    total_memory: u64,
    running_since: u64,
    starting_time: u64,
)
    requires
        processes.contains_key(pid),
        !dialogs.contains_key(pid),
    ensures
        row_action(
            dialogs,
            processes,
            crate::process_list::row_of_pid(pid),
            total_memory,
            Some(running_since),
            starting_time,
        ) == DialogAction::Open(
            DialogRequest { pid, running_since, starting_time, total_memory },
        ),
{
    crate::process_list::lemma_row_numbers(pid, 0);
}

/// A refresh reaches each open window whose process runs, once, and no other.
pub proof fn lemma_updates_reach_running<D, P>(
    dialogs: Map<Pid, D>,
    processes: Map<Pid, P>,
    order: Seq<Pid>,
    running_since: u64,
    start_time: u64,
)
    requires
        crate::process_list::walks(order, dialogs),
    ensures
        ({
            let updates = dialog_updates(processes, order, running_since, start_time);
            &&& forall|pid: Pid|
                dialogs.contains_key(pid) && processes.contains_key(pid)
                    <==> #[trigger] updates.contains(
                    DialogUpdate { pid, running_since, start_time },
                )
            &&& updates.no_duplicates()
        }),
{
    let updates = dialog_updates(processes, order, running_since, start_time);
    lemma_updates_of_order(processes, order, running_since, start_time);
    assert forall|pid: Pid|
        dialogs.contains_key(pid) && processes.contains_key(pid) <==> #[trigger] updates.contains(
            DialogUpdate { pid, running_since, start_time },
        ) by {
        assert(order.contains(pid) <==> dialogs.contains_key(pid));
    }
}

proof fn lemma_updates_of_order<P>(
    processes: Map<Pid, P>,
    order: Seq<Pid>,
    running_since: u64,
    start_time: u64,
)
    requires
        order.no_duplicates(),
    ensures
        forall|pid: Pid|
            order.contains(pid) && processes.contains_key(pid) <==> #[trigger] dialog_updates(
                processes,
                order,
                running_since,
                start_time,
            ).contains(DialogUpdate { pid, running_since, start_time }),
        dialog_updates(processes, order, running_since, start_time).no_duplicates(),
    decreases order.len(),
{
    let updates = dialog_updates(processes, order, running_since, start_time);
    if order.len() > 0 {
        let init = order.drop_last();
        let last = order.last();
        let earlier = dialog_updates(processes, init, running_since, start_time);
        let own = DialogUpdate { pid: last, running_since, start_time };
        lemma_updates_of_order(processes, init, running_since, start_time);
        assert(order =~= init.push(last));
        assert(!init.contains(last)) by {
            if init.contains(last) {
                let k = choose|k: int| 0 <= k < init.len() && init[k] == last;
                assert(order[k] == order[order.len() - 1]);
            }
        }
        assert(!earlier.contains(own));
        assert forall|pid: Pid|
            order.contains(pid) && processes.contains_key(pid) <==> #[trigger] updates.contains(
                DialogUpdate { pid, running_since, start_time },
            ) by {
            let update = DialogUpdate { pid, running_since, start_time };
            assert(order.contains(pid) <==> init.contains(pid) || pid == last) by {
                if init.contains(pid) {
                    let k = choose|k: int| 0 <= k < init.len() && init[k] == pid;
                    assert(order[k] == pid);
                }
                if order.contains(pid) && pid != last {
                    let k = choose|k: int| 0 <= k < order.len() && order[k] == pid;
                    assert(init[k] == pid);
                }
                assert(order[order.len() - 1] == last);
            }
            if processes.contains_key(last) {
                assert(updates == earlier.push(own));
                if earlier.contains(update) {
                    let k = choose|k: int| 0 <= k < earlier.len() && earlier[k] == update;
                    assert(updates[k] == update);
                }
                if updates.contains(update) && pid != last {
                    let k = choose|k: int| 0 <= k < updates.len() && updates[k] == update;
                    assert(earlier[k] == update);
                }
                assert(updates[earlier.len() as int] == own);
            }
        }
    }
}

/// The updates are those of the running processes, in the order of the walk, each with the times
/// that were given.
pub proof fn lemma_updates_are_filtered<P>(
    processes: Map<Pid, P>,
    order: Seq<Pid>,
    running_since: u64,
    start_time: u64,
)
    ensures
        dialog_updates(processes, order, running_since, start_time) == order.filter(
            |pid: Pid| processes.contains_key(pid),
        ).map_values(|pid: Pid| DialogUpdate { pid, running_since, start_time }),
    decreases order.len(),
{
    reveal(Seq::filter);
    if order.len() > 0 {
        lemma_updates_are_filtered(processes, order.drop_last(), running_since, start_time);
    }
    assert(dialog_updates(processes, order, running_since, start_time) =~= order.filter(
        |pid: Pid| processes.contains_key(pid),
    ).map_values(|pid: Pid| DialogUpdate { pid, running_since, start_time }));
}

/// Every update of a refresh carries the running time and the start time that the refresh was
/// given, and is about an open window whose process runs. Each such window is updated, and no
/// window twice.
pub proof fn lemma_updates_tell_the_time<D, P>(
    dialogs: Map<Pid, D>,
    processes: Map<Pid, P>,
    order: Seq<Pid>,
    running_since: u64,
    start_time: u64,
)
    requires
        order.no_duplicates(),
        forall|pid: Pid| #[trigger] order.contains(pid) <==> dialogs.contains_key(pid),
    ensures
        ({
            let updates = dialog_updates(processes, order, running_since, start_time);
            &&& forall|i: int|
                0 <= i < updates.len() ==> {
                    &&& (#[trigger] updates[i]).running_since == running_since
                    &&& updates[i].start_time == start_time
                    &&& dialogs.contains_key(updates[i].pid)
                    &&& processes.contains_key(updates[i].pid)
                }
            &&& forall|i: int, j: int|
                0 <= i < j < updates.len() ==> (#[trigger] updates[i]).pid != (
                #[trigger] updates[j]).pid
            &&& forall|pid: Pid| #[trigger]
                dialogs.contains_key(pid) && processes.contains_key(pid) ==> exists|i: int|
                    0 <= i < updates.len() && (#[trigger] updates[i]).pid == pid
        }),
{
    let updates = dialog_updates(processes, order, running_since, start_time);
    let runs = |pid: Pid| processes.contains_key(pid);
    let kept = order.filter(runs);
    lemma_updates_are_filtered(processes, order, running_since, start_time);
    crate::process_list::lemma_filtered_walk(order, runs);
    assert forall|i: int| 0 <= i < updates.len() implies {
        &&& (#[trigger] updates[i]).running_since == running_since
        &&& updates[i].start_time == start_time
        &&& dialogs.contains_key(updates[i].pid)
        &&& processes.contains_key(updates[i].pid)
    } by {
        assert(updates[i].pid == kept[i]);
        assert(kept.contains(kept[i]));
        assert(order.contains(kept[i]));
    }
    assert forall|i: int, j: int| 0 <= i < j < updates.len() implies (#[trigger] updates[i]).pid
        != (#[trigger] updates[j]).pid by {
        assert(updates[i].pid == kept[i]);
        assert(updates[j].pid == kept[j]);
    }
    assert forall|pid: Pid| #[trigger]
        dialogs.contains_key(pid) && processes.contains_key(pid) implies exists|i: int|
        0 <= i < updates.len() && (#[trigger] updates[i]).pid == pid by {
        assert(order.contains(pid));
        assert(kept.contains(pid));
        let i = choose|i: int| 0 <= i < kept.len() && kept[i] == pid;
        assert(updates[i].pid == pid);
    }
}

/// Activating a row never opens a second window for its process, and opens none for a process that
/// does not run, whatever the clock says. It opens the window of the process that the row shows
/// where that runs without one and the clock is right.
pub proof fn lemma_row_opens_no_second_window<D, P>(
    dialogs: Map<Pid, D>,
    processes: Map<Pid, P>,
    row: u32,
    total_memory: u64,
    running_since: Option<u64>,
    starting_time: u64,
)
    ensures
        ({
            let action = row_action(
                dialogs,
                processes,
                row,
                total_memory,
                running_since,
                starting_time,
            );
            &&& dialogs.contains_key(row as Pid) ==> action is Ignore
            &&& !processes.contains_key(row as Pid) ==> !(action is Open)
            &&& action matches DialogAction::Open(request) ==> request.pid == row as Pid
                && Some(request.running_since) == running_since && request.starting_time
                == starting_time && request.total_memory == total_memory
            &&& !dialogs.contains_key(row as Pid) && processes.contains_key(row as Pid)
                && running_since is Some ==> action is Open
            &&& !dialogs.contains_key(row as Pid) && running_since is None ==> action is ReportClock
        }),
{
}

/// Asking for a window opens it exactly where the process runs, has no window yet, and the clock
/// is right, and the request then holds what was asked. A wrong clock is always reported.
pub proof fn lemma_window_opened_when_due<D, P>(
    dialogs: Map<Pid, D>,
    processes: Map<Pid, P>,
    pid: Pid,
    total_memory: u64,
    running_since: Option<u64>,
    starting_time: u64,
)
    ensures
        ({
            let action = dialog_action(
                dialogs,
                processes,
                pid,
                total_memory,
                running_since,
                starting_time,
            );
            &&& action is ReportClock <==> running_since is None
            &&& action is Open <==> running_since is Some && processes.contains_key(pid)
                && !dialogs.contains_key(pid)
            &&& action matches DialogAction::Open(request) ==> request.pid == pid && Some(
                request.running_since,
            ) == running_since && request.starting_time == starting_time && request.total_memory
                == total_memory
        }),
{
}

} // verus!
