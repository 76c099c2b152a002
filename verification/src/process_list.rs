//! Bringing the rows of the process list up to date with the running processes.
//!
//! The list widget itself belongs to the toolkit. What is decided here is which edits it gets: the
//! pids of its rows, top to bottom, and the running processes go in, and the edits to perform, in
//! order, come out.
use std::collections::{HashMap, HashSet};
use sysinfo::{AsU32, Pid};
use vstd::prelude::*;

verus! {

/// What the list shows of a running process.
pub struct ProcessInfo {
    pub pid: Pid,
    pub name: String,
    /// The command line, one string for each argument.
    pub cmd: Vec<String>,
    /// The CPU usage, as the bits of a single precision number.
    pub cpu: u32,
    /// The memory in use, in kB.
    pub memory: u64,
}

/// The values that a new row is made of.
pub struct NewRow {
    pub pid: u32,
    pub command: String,
    pub name: String,
    pub cpu: u32,
    pub memory: u64,
}

/// One edit of the list. `Update` and `Remove` are about the row under a cursor that starts at the
/// top: after `Update` it stands on the next row, after `Remove` on the row that took the place of
/// the removed one. `Insert` leaves the cursor where it is.
pub enum RowEdit {
    /// Shows new usage figures and leaves the rest of the row as it is.
    Update { memory: u64, cpu: u32 },
    /// Takes the row out.
    Remove,
    /// Adds a row at the bottom.
    Insert(NewRow),
}

/// A row of the list.
pub struct Row {
    pub pid: u32,
    pub name: Seq<char>,
    pub command: Seq<char>,
    pub cpu: u32,
    pub memory: u64,
}

/// An edit of the list, over the contents of its strings.
pub enum Edit {
    Update { memory: u64, cpu: u32 },
    Remove,
    Insert(Row),
}

impl View for NewRow {
    type V = Row;

    open spec fn view(&self) -> Row {
        Row {
            pid: self.pid,
            name: self.name@,
            command: self.command@,
            cpu: self.cpu,
            memory: self.memory,
        }
    }
}

impl View for RowEdit {
    type V = Edit;

    open spec fn view(&self) -> Edit {
        match *self {
            RowEdit::Update { memory, cpu } => Edit::Update { memory, cpu },
            RowEdit::Remove => Edit::Remove,
            RowEdit::Insert(row) => Edit::Insert(row@),
        }
    }
}

/// The edits of a sequence, over the contents of their strings.
pub open spec fn edits_view(edits: Seq<RowEdit>) -> Seq<Edit> {
    Seq::new(edits.len(), |i: int| edits[i]@)
}

/// The number under which a row shows the process `pid`.
pub open spec fn row_of_pid(pid: Pid) -> u32 {
    pid as u32
}

/// The process that a row with the number `row` shows.
pub open spec fn pid_of_row(row: u32) -> Pid {
    row as Pid
}

/// How the standard library writes a list of strings for debugging.
pub uninterp spec fn debug_text(strings: Seq<Seq<char>>) -> Seq<char>;

/// The row that is made for `process`, with `command` for its command line.
pub open spec fn row_with_command(process: ProcessInfo, command: Seq<char>) -> Row {
    Row {
        pid: row_of_pid(process.pid),
        name: process.name@,
        command,
        cpu: process.cpu,
        memory: process.memory,
    }
}

/// The row that is made for `process`.
pub open spec fn row_for(process: ProcessInfo) -> Row {
    row_with_command(process, debug_text(crate::command_line::texts(process.cmd@)))
}

/// What becomes of the row with the number `row`.
pub open spec fn edit_for(entries: Map<Pid, ProcessInfo>, row: u32) -> Edit {
    let pid = pid_of_row(row);
    if entries.contains_key(pid) {
        Edit::Update { memory: entries[pid].memory, cpu: entries[pid].cpu }
    } else {
        Edit::Remove
    }
}

/// Whether one of the rows shows `pid`.
pub open spec fn listed(rows: Seq<u32>, pid: Pid) -> bool {
    exists|i: int| 0 <= i < rows.len() && pid_of_row(#[trigger] rows[i]) == pid
}

/// The rows that are added when the processes are walked in `order`: one for each process that no
/// row shows.
pub open spec fn added(rows: Seq<u32>, entries: Map<Pid, ProcessInfo>, order: Seq<Pid>) -> Seq<Row>
    decreases order.len(),
{
    if order.len() == 0 {
        Seq::empty()
    } else {
        let earlier = added(rows, entries, order.drop_last());
        if listed(rows, order.last()) {
            earlier
        } else {
            earlier.push(row_for(entries[order.last()]))
        }
    }
}

/// The edits that bring a list up to date whose rows have the numbers `rows`, when the processes
/// are walked in `order`: first one edit for each row, then the rows to add.
pub open spec fn window_edits(
    rows: Seq<u32>,
    entries: Map<Pid, ProcessInfo>,
    order: Seq<Pid>,
) -> Seq<Edit> {
    Seq::new(rows.len(), |i: int| edit_for(entries, rows[i])) + inserts(
        added(rows, entries, order),
    )
}

/// The edits that add `rows`.
pub open spec fn inserts(rows: Seq<Row>) -> Seq<Edit> {
    Seq::new(rows.len(), |i: int| Edit::Insert(rows[i]))
}

/// Whether `order` walks the keys of `map`, each of them once.
pub open spec fn walks<V>(order: Seq<Pid>, map: Map<Pid, V>) -> bool {
    &&& order.no_duplicates()
    &&& forall|pid: Pid| #[trigger] order.contains(pid) <==> map.contains_key(pid)
}

/// The column that sorts the list.
#[derive(Clone, Copy, PartialEq, Eq, Debug)]
pub enum SortColumn {
    /// The order that the list has by default.
    Default,
    Index(u32),
}

/// The direction in which a column sorts the list.
#[derive(Clone, Copy, PartialEq, Eq, Debug)]
pub enum SortDirection {
    Ascending,
    Descending,
}

/// How the list is sorted.
#[derive(Clone, Copy, PartialEq, Eq, Debug)]
pub struct Sorting {
    pub column: SortColumn,
    pub direction: SortDirection,
}

/// One thing to do to the list when it is refreshed.
pub enum ListAction {
    /// Switches sorting off.
    Unsort,
    /// Edits the rows, from the top.
    Edit(Vec<RowEdit>),
    /// Sorts the list, and keeps it sorted.
    Sort(Sorting),
}

/// How a list is sorted after `actions` that was sorted by `sorting` before them.
pub open spec fn sorting_after(
    sorting: Option<Sorting>,
    actions: Seq<ListAction>,
) -> Option<Sorting>
    decreases actions.len(),
{
    if actions.len() == 0 {
        sorting
    } else {
        match actions.last() {
            ListAction::Unsort => None,
            ListAction::Edit(_) => sorting_after(sorting, actions.drop_last()),
            ListAction::Sort(chosen) => Some(chosen),
        }
    }
}

/// Calls `sysinfo::AsU32::as_u32`, which converts a pid with `as`: the same number where it is not
/// negative, else the number with the same bits.
#[verifier::external_body]
fn pid_as_u32(pid: Pid) -> (row: u32)
    ensures
        row == pid as u32,
{
    pid.as_u32()
}

/// Calls the standard library's debug formatting of a slice of strings, `format!("{:?}", cmd)`:
/// the text depends on the strings alone. Nothing more is said of it.
#[verifier::external_body]
fn debug_format(cmd: &[String]) -> (text: String)
    ensures
        text@ == debug_text(crate::command_line::texts(cmd@)),
{
    format!("{:?}", cmd)
}

/// The edit that adds a row for `process`, with `command` for its command line.
pub fn insert_edit(process: &ProcessInfo, command: String) -> (edit: RowEdit)
    ensures
        edit@ == Edit::Insert(row_with_command(*process, command@)),
        edit matches RowEdit::Insert(row) && row.pid == process.pid as u32 && row.name@
            == process.name@ && row.command@ == command@ && row.cpu == process.cpu && row.memory
            == process.memory,
{
    RowEdit::Insert(
        NewRow {
            pid: pid_as_u32(process.pid),
            command,
            name: process.name.clone(),
            cpu: process.cpu,
            memory: process.memory,
        },
    )
}

/// The edits that bring the list up to date when the processes are walked in `order`.
pub fn update_window_in_order(
    rows: &Vec<u32>,
    entries: &HashMap<Pid, ProcessInfo>,
    order: &Vec<Pid>,
) -> (edits: Vec<RowEdit>)
    requires
        forall|i: int| 0 <= i < order@.len() ==> entries@.contains_key(#[trigger] order@[i]),
    ensures
        edits_view(edits@) == window_edits(rows@, entries@, order@),
        // Each row is updated where its process runs, and else removed.
        forall|i: int|
            0 <= i < rows@.len() ==> if entries@.contains_key(rows@[i] as Pid) {
                #[trigger] edits@[i] == (RowEdit::Update {
                    memory: entries@[rows@[i] as Pid].memory,
                    cpu: entries@[rows@[i] as Pid].cpu,
                })
            } else {
                edits@[i] is Remove
            },
        // Each process that no row shows gets a row, in the order of the walk.
        ({
            let shown = rows@;
            exists|fresh: Seq<Pid>|
                {
                    &&& fresh == order@.filter(
                        |pid: Pid|
                            forall|k: int|
                                0 <= k < shown.len() ==> #[trigger] shown[k] as Pid != pid,
                    )
                    &&& edits@.len() == rows@.len() + #[trigger] fresh.len()
                    &&& forall|j: int|
                        rows@.len() <= j < edits@.len() ==> {
                            &&& #[trigger] edits@[j] is Insert
                            &&& edits@[j]->Insert_0.pid == entries@[fresh[j - rows@.len()]].pid as u32
                            &&& edits@[j]->Insert_0.name@ == entries@[fresh[j - rows@.len()]].name@
                            &&& edits@[j]->Insert_0.command@ == debug_text(
                                entries@[fresh[j - rows@.len()]].cmd.deep_view(),
                            )
                            &&& edits@[j]->Insert_0.cpu == entries@[fresh[j - rows@.len()]].cpu
                            &&& edits@[j]->Insert_0.memory == entries@[fresh[j - rows@.len()]].memory
                        }
                }
        }),
{
    let mut edits: Vec<RowEdit> = Vec::new();
    let mut seen: HashSet<Pid> = HashSet::new();
    let mut i: usize = 0;
    while i < rows.len()
        invariant
            i <= rows.len(),
            edits@.len() == i,
            forall|k: int|
                0 <= k < i ==> (#[trigger] edits@[k])@ == edit_for(entries@, rows@[k]),
            forall|pid: Pid| #[trigger]
                seen@.contains(pid) <==> entries@.contains_key(pid) && listed(
                    rows@.take(i as int),
                    pid,
                ),
        decreases rows.len() - i,
    {
        let pid: Pid = rows[i] as Pid;
        let ghost seen_before = seen@;
        match entries.get(&pid) {
            Some(process) => {
                edits.push(RowEdit::Update { memory: process.memory, cpu: process.cpu });
                seen.insert(pid);
            },
            None => {
                edits.push(RowEdit::Remove);
            },
        }
        proof {
            let before = rows@.take(i as int);
            let now = rows@.take(i + 1);
            assert forall|p: Pid| #[trigger]
                seen@.contains(p) <==> entries@.contains_key(p) && listed(now, p) by {
                lemma_listed_push(before, rows@[i as int], p);
                assert(now =~= before.push(rows@[i as int]));
                assert(seen_before.contains(p) <==> entries@.contains_key(p) && listed(before, p));
            }
        }
        i = i + 1;
    }
    assert(rows@.take(rows@.len() as int) =~= rows@);
    let ghost row_edits = Seq::new(rows@.len(), |k: int| edit_for(entries@, rows@[k]));
    assert(edits_view(edits@) =~= row_edits + inserts(added(rows@, entries@, order@.take(0))));
    let mut j: usize = 0;
    while j < order.len()
        invariant
            j <= order.len(),
            forall|k: int| 0 <= k < order@.len() ==> entries@.contains_key(#[trigger] order@[k]),
            forall|pid: Pid| #[trigger]
                seen@.contains(pid) <==> entries@.contains_key(pid) && listed(rows@, pid),
            edits_view(edits@) == row_edits + inserts(
                added(rows@, entries@, order@.take(j as int)),
            ),
        decreases order.len() - j,
    {
        let pid: Pid = order[j];
        let ghost before = edits@;
        assert(entries@.contains_key(order@[j as int]));
        assert(order@.take(j + 1).drop_last() =~= order@.take(j as int));
        if !seen.contains(&pid) {
            if let Some(process) = entries.get(&pid) {
                let edit = insert_edit(process, debug_format(process.cmd.as_slice()));
                edits.push(edit);
                proof {
                    let earlier = added(rows@, entries@, order@.take(j as int));
                    let row = row_for(entries@[pid]);
                    assert(edit@ == Edit::Insert(row));
                    assert(added(rows@, entries@, order@.take(j + 1)) == earlier.push(row));
                    assert(edits_view(edits@) =~= edits_view(before).push(edit@));
                    assert(inserts(earlier.push(row)) =~= inserts(earlier).push(edit@));
                    assert(edits_view(edits@) =~= row_edits + inserts(earlier.push(row)));
                }
            }
        }
        j = j + 1;
    }
    assert(order@.take(order@.len() as int) =~= order@);
    proof {
        let shown = rows@;
        let fresh = order@.filter(
            |pid: Pid| forall|k: int| 0 <= k < shown.len() ==> #[trigger] shown[k] as Pid != pid,
        );
        lemma_rows_and_processes_answered(edits@, rows@, entries@, order@, fresh);
    }
    edits
}

/// The edits that bring the list up to date whose rows have the numbers `rows`. The rows that are
/// added come in the order in which the process table happens to be walked.
pub fn update_window(rows: &Vec<u32>, entries: &HashMap<Pid, ProcessInfo>) -> (edits: Vec<RowEdit>)
    ensures
        exists|order: Seq<Pid>| #[trigger]
            walks(order, entries@) && edits_view(edits@) == window_edits(rows@, entries@, order),
        // Each row is updated where its process runs, and else removed.
        forall|i: int|
            0 <= i < rows@.len() ==> if entries@.contains_key(rows@[i] as Pid) {
                #[trigger] edits@[i] == (RowEdit::Update {
                    memory: entries@[rows@[i] as Pid].memory,
                    cpu: entries@[rows@[i] as Pid].cpu,
                })
            } else {
                edits@[i] is Remove
            },
        // Each process that no row shows gets one row, and nothing else gets one.
        exists|fresh: Seq<Pid>|
            {
                &&& #[trigger] fresh.no_duplicates()
                &&& forall|pid: Pid| #[trigger]
                    fresh.contains(pid) <==> entries@.contains_key(pid) && forall|k: int|
                        0 <= k < rows@.len() ==> #[trigger] rows@[k] as Pid != pid
                &&& edits@.len() == rows@.len() + fresh.len()
                &&& forall|j: int|
                    rows@.len() <= j < edits@.len() ==> {
                        &&& #[trigger] edits@[j] is Insert
                        &&& edits@[j]->Insert_0.pid == entries@[fresh[j - rows@.len()]].pid as u32
                        &&& edits@[j]->Insert_0.name@ == entries@[fresh[j - rows@.len()]].name@
                        &&& edits@[j]->Insert_0.command@ == debug_text(
                            entries@[fresh[j - rows@.len()]].cmd.deep_view(),
                        )
                        &&& edits@[j]->Insert_0.cpu == entries@[fresh[j - rows@.len()]].cpu
                        &&& edits@[j]->Insert_0.memory == entries@[fresh[j - rows@.len()]].memory
                    }
            },
{
    let order = keys_of(entries);
    assert forall|i: int| 0 <= i < order@.len() implies entries@.contains_key(
        #[trigger] order@[i],
    ) by {
        assert(order@.contains(order@[i]));
    }
    proof {
        let shown = rows@;
        let unlisted = |pid: Pid|
            forall|k: int| 0 <= k < shown.len() ==> #[trigger] shown[k] as Pid != pid;
        lemma_filtered_walk(order@, unlisted);
        let fresh = order@.filter(unlisted);
        assert forall|pid: Pid| #[trigger]
            fresh.contains(pid) <==> entries@.contains_key(pid) && forall|k: int|
                0 <= k < rows@.len() ==> #[trigger] rows@[k] as Pid != pid by {
            assert(order@.contains(pid) <==> entries@.contains_key(pid));
            assert(unlisted(pid) <==> forall|k: int|
                0 <= k < rows@.len() ==> #[trigger] rows@[k] as Pid != pid);
        }
        assert(fresh.no_duplicates());
    }
    update_window_in_order(rows, entries, &order)
}

/// What the process timer does to the list: sorting is off while the rows are edited, and the list
/// is sorted afterwards as it was before.
pub fn refresh_list(
    sorted: Option<Sorting>,
    rows: &Vec<u32>,
    entries: &HashMap<Pid, ProcessInfo>,
) -> (actions: Vec<ListAction>)
    ensures
        actions@.len() == (if sorted is Some {
            3int
        } else {
            2
        }),
        actions@[0] is Unsort,
        actions@[1] is Edit,
        exists|order: Seq<Pid>| #[trigger]
            walks(order, entries@) && edits_view(actions@[1]->Edit_0@) == window_edits(
                rows@,
                entries@,
                order,
            ),
        // Each row is updated where its process runs, and else removed.
        forall|i: int|
            0 <= i < rows@.len() ==> if entries@.contains_key(rows@[i] as Pid) {
                #[trigger] actions@[1]->Edit_0@[i] == (RowEdit::Update {
                    memory: entries@[rows@[i] as Pid].memory,
                    cpu: entries@[rows@[i] as Pid].cpu,
                })
            } else {
                actions@[1]->Edit_0@[i] is Remove
            },
        // Each process that no row shows gets one row, and nothing else gets one.
        exists|fresh: Seq<Pid>|
            {
                &&& #[trigger] fresh.no_duplicates()
                &&& forall|pid: Pid| #[trigger]
                    fresh.contains(pid) <==> entries@.contains_key(pid) && forall|k: int|
                        0 <= k < rows@.len() ==> #[trigger] rows@[k] as Pid != pid
                &&& actions@[1]->Edit_0@.len() == rows@.len() + fresh.len()
                &&& forall|j: int|
                    rows@.len() <= j < actions@[1]->Edit_0@.len() ==> {
                        &&& #[trigger] actions@[1]->Edit_0@[j] is Insert
                        &&& actions@[1]->Edit_0@[j]->Insert_0.pid == entries@[fresh[j - rows@.len()]].pid as u32
                        &&& actions@[1]->Edit_0@[j]->Insert_0.name@ == entries@[fresh[j - rows@.len()]].name@
                        &&& actions@[1]->Edit_0@[j]->Insert_0.command@ == debug_text(
                            entries@[fresh[j - rows@.len()]].cmd.deep_view(),
                        )
                        &&& actions@[1]->Edit_0@[j]->Insert_0.cpu == entries@[fresh[j - rows@.len()]].cpu
                        &&& actions@[1]->Edit_0@[j]->Insert_0.memory == entries@[fresh[j - rows@.len()]].memory
                    }
            },
        sorted matches Some(sorting) ==> actions@[2] == ListAction::Sort(sorting),
        sorting_after(sorted, actions@) == sorted,
{
    let mut actions: Vec<ListAction> = Vec::new();
    actions.push(ListAction::Unsort);
    let ghost unsorted = actions@;
    actions.push(ListAction::Edit(update_window(rows, entries)));
    assert(actions@.drop_last() =~= unsorted);
    assert(sorting_after(sorted, unsorted) is None);
    if let Some(sorting) = sorted {
        actions.push(ListAction::Sort(sorting));
    }
    actions
}

/// The keys of `map`, in the order in which it happens to be walked.
pub fn keys_of<V>(map: &HashMap<Pid, V>) -> (order: Vec<Pid>)
    ensures
        walks(order@, map@),
        order@.no_duplicates(),
        forall|pid: Pid| #[trigger] order@.contains(pid) <==> map@.contains_key(pid),
{
    let ghost walked = vstd::std_specs::iter::IteratorSpec::remaining(
        &vstd::std_specs::hash::spec_keys_iter(map),
    );
    let mut order: Vec<Pid> = Vec::new();
    for pid in it: map.keys()
        invariant
            it.seq() == walked,
            order@.len() == it.index(),
            forall|i: int| 0 <= i < order@.len() ==> order@[i] == *walked[i],
    {
        order.push(*pid);
    }
    proof {
        assert(order@ =~= walked.unref());
        assert forall|pid: Pid| #[trigger] order@.contains(pid) <==> map@.contains_key(pid) by {
            assert(order@.to_set().contains(pid) <==> map@.dom().contains(pid));
        }
        assert(order@.no_duplicates());
    }
    order
}

proof fn lemma_listed_push(rows: Seq<u32>, row: u32, pid: Pid)
    ensures
        listed(rows.push(row), pid) <==> listed(rows, pid) || pid_of_row(row) == pid,
{
    let more = rows.push(row);
    if listed(rows, pid) {
        let i = choose|i: int| 0 <= i < rows.len() && pid_of_row(#[trigger] rows[i]) == pid;
        assert(pid_of_row(more[i]) == pid);
    }
    if pid_of_row(row) == pid {
        assert(pid_of_row(more[rows.len() as int]) == pid);
    }
    if listed(more, pid) && pid_of_row(row) != pid {
        let i = choose|i: int| 0 <= i < more.len() && pid_of_row(#[trigger] more[i]) == pid;
        assert(pid_of_row(rows[i]) == pid);
    }
}

/// The numbers of the rows of a list.
pub open spec fn numbers(rows: Seq<Row>) -> Seq<u32> {
    Seq::new(rows.len(), |i: int| rows[i].pid)
}

/// The list `rows` after `edits`, the cursor on the row `at`.
pub open spec fn replay(rows: Seq<Row>, at: int, edits: Seq<Edit>) -> Seq<Row>
    decreases edits.len(),
{
    if edits.len() == 0 {
        rows
    } else {
        let rest = edits.drop_first();
        match edits[0] {
            Edit::Update { memory, cpu } => {
                replay(rows.update(at, Row { memory, cpu, ..rows[at] }), at + 1, rest)
            },
            Edit::Remove => replay(rows.remove(at), at, rest),
            Edit::Insert(row) => replay(rows.push(row), at, rest),
        }
    }
}

/// The rows whose process still runs, in their order, with its current figures and all else as it
/// was.
pub open spec fn survivors(rows: Seq<Row>, entries: Map<Pid, ProcessInfo>) -> Seq<Row>
    decreases rows.len(),
{
    if rows.len() == 0 {
        rows
    } else {
        let rest = survivors(rows.drop_first(), entries);
        let pid = pid_of_row(rows[0].pid);
        if entries.contains_key(pid) {
            seq![Row { memory: entries[pid].memory, cpu: entries[pid].cpu, ..rows[0] }] + rest
        } else {
            rest
        }
    }
}

/// The list `rows` brought up to date, when the processes are walked in `order`.
pub open spec fn refreshed(
    rows: Seq<Row>,
    entries: Map<Pid, ProcessInfo>,
    order: Seq<Pid>,
) -> Seq<Row> {
    survivors(rows, entries) + added(numbers(rows), entries, order)
}

/// Whether each process is found under its own pid.
pub open spec fn keyed_by_pid(entries: Map<Pid, ProcessInfo>) -> bool {
    forall|pid: Pid| #[trigger] entries.contains_key(pid) ==> entries[pid].pid == pid
}

/// Performed on a list, the edits leave the rows of the processes that still run, up to date, and
/// then the new rows: nothing else is lost, moved or changed.
pub proof fn lemma_edits_refresh(
    rows: Seq<Row>,
    entries: Map<Pid, ProcessInfo>,
    order: Seq<Pid>,
)
    ensures
        replay(rows, 0, window_edits(numbers(rows), entries, order)) == refreshed(
            rows,
            entries,
            order,
        ),
{
    let more = added(numbers(rows), entries, order);
    let head = Seq::new(numbers(rows).len(), |i: int| edit_for(entries, numbers(rows)[i]));
    assert(head =~= row_edits(rows, entries));
    lemma_replay_rows(Seq::empty(), rows, entries, inserts(more));
    assert(Seq::<Row>::empty() + rows =~= rows);
    let left = survivors(rows, entries);
    assert(Seq::<Row>::empty() + left =~= left);
    lemma_replay_inserts(left, left.len() as int, more);
}

spec fn row_edits(rows: Seq<Row>, entries: Map<Pid, ProcessInfo>) -> Seq<Edit> {
    Seq::new(rows.len(), |i: int| edit_for(entries, rows[i].pid))
}

proof fn lemma_replay_rows(
    done: Seq<Row>,
    todo: Seq<Row>,
    entries: Map<Pid, ProcessInfo>,
    tail: Seq<Edit>,
)
    ensures
        replay(done + todo, done.len() as int, row_edits(todo, entries) + tail) == replay(
            done + survivors(todo, entries),
            (done.len() + survivors(todo, entries).len()) as int,
            tail,
        ),
    decreases todo.len(),
{
    let edits = row_edits(todo, entries) + tail;
    if todo.len() == 0 {
        assert(edits =~= tail);
    } else {
        let rest = todo.drop_first();
        let pid = pid_of_row(todo[0].pid);
        assert(edits.drop_first() =~= row_edits(rest, entries) + tail);
        if entries.contains_key(pid) {
            let row = Row { memory: entries[pid].memory, cpu: entries[pid].cpu, ..todo[0] };
            lemma_replay_rows(done.push(row), rest, entries, tail);
            assert((done + todo).update(done.len() as int, row) =~= done.push(row) + rest);
            assert(done.push(row) + survivors(rest, entries) =~= done + survivors(todo, entries));
        } else {
            lemma_replay_rows(done, rest, entries, tail);
            assert((done + todo).remove(done.len() as int) =~= done + rest);
        }
    }
}

proof fn lemma_replay_inserts(rows: Seq<Row>, at: int, more: Seq<Row>)
    ensures
        replay(rows, at, inserts(more)) == rows + more,
    decreases more.len(),
{
    if more.len() == 0 {
        assert(rows + more =~= rows);
    } else {
        assert(inserts(more).drop_first() =~= inserts(more.drop_first()));
        lemma_replay_inserts(rows.push(more[0]), at, more.drop_first());
        assert(rows.push(more[0]) + more.drop_first() =~= rows + more);
    }
}

/// A pid and the number of its row stand for each other: a row is found again for the process it
/// was made for, and for no other.
pub proof fn lemma_row_numbers(pid: Pid, row: u32)
    ensures
        pid_of_row(row_of_pid(pid)) == pid,
        row_of_pid(pid_of_row(row)) == row,
{
    assert((pid as u32) as i32 == pid) by (bit_vector);
    assert((row as i32) as u32 == row) by (bit_vector);
}

/// Whether a row shows a running process, with its current figures.
pub open spec fn current(row: Row, entries: Map<Pid, ProcessInfo>) -> bool {
    let pid = pid_of_row(row.pid);
    entries.contains_key(pid) && row.memory == entries[pid].memory && row.cpu == entries[pid].cpu
}

proof fn lemma_survivors(rows: Seq<Row>, entries: Map<Pid, ProcessInfo>)
    ensures
        forall|i: int|
            0 <= i < survivors(rows, entries).len() ==> current(
                #[trigger] survivors(rows, entries)[i],
                entries,
            ) && numbers(rows).contains(survivors(rows, entries)[i].pid),
        forall|pid: Pid|
            entries.contains_key(pid) && #[trigger] listed(numbers(rows), pid) ==> listed(
                numbers(survivors(rows, entries)),
                pid,
            ),
        numbers(rows).no_duplicates() ==> numbers(survivors(rows, entries)).no_duplicates(),
    decreases rows.len(),
{
    let left = survivors(rows, entries);
    if rows.len() > 0 {
        let tail = rows.drop_first();
        let rest = survivors(tail, entries);
        let first = pid_of_row(rows[0].pid);
        lemma_survivors(tail, entries);
        let skipped: int = if entries.contains_key(first) {
            1
        } else {
            0
        };
        assert(numbers(tail) =~= numbers(rows).drop_first());
        assert forall|i: int| 0 <= i < left.len() implies current(#[trigger] left[i], entries)
            && numbers(rows).contains(left[i].pid) by {
            if i < skipped {
                assert(numbers(rows)[0] == left[i].pid);
            } else {
                assert(left[i] == rest[i - skipped]);
                let k = choose|k: int|
                    0 <= k < numbers(tail).len() && numbers(tail)[k] == left[i].pid;
                assert(numbers(rows)[k + 1] == left[i].pid);
            }
        }
        assert forall|pid: Pid|
            entries.contains_key(pid) && #[trigger] listed(numbers(rows), pid) implies listed(
            numbers(left),
            pid,
        ) by {
            let k = choose|k: int|
                0 <= k < numbers(rows).len() && pid_of_row(#[trigger] numbers(rows)[k]) == pid;
            if k == 0 {
                assert(pid_of_row(numbers(left)[0]) == pid);
            } else {
                assert(pid_of_row(numbers(tail)[k - 1]) == pid);
                assert(listed(numbers(tail), pid));
                let m = choose|m: int|
                    0 <= m < numbers(rest).len() && pid_of_row(#[trigger] numbers(rest)[m]) == pid;
                assert(numbers(left)[m + skipped] == numbers(rest)[m]);
            }
        }
        if numbers(rows).no_duplicates() {
            assert forall|i: int, j: int|
                0 <= i < j < left.len() implies left[i].pid != left[j].pid by {
                assert(left[j] == rest[j - skipped]);
                if i < skipped {
                    assert(numbers(rows)[0] == left[i].pid);
                    let k = choose|k: int|
                        0 <= k < numbers(tail).len() && numbers(tail)[k] == left[j].pid;
                    assert(numbers(rows)[k + 1] == left[j].pid);
                } else {
                    assert(numbers(rest)[i - skipped] == left[i].pid);
                    assert(numbers(rest)[j - skipped] == left[j].pid);
                }
            }
        }
    }
}

proof fn lemma_added(rows: Seq<u32>, entries: Map<Pid, ProcessInfo>, order: Seq<Pid>)
    requires
        keyed_by_pid(entries),
        order.no_duplicates(),
        forall|i: int| 0 <= i < order.len() ==> entries.contains_key(#[trigger] order[i]),
    ensures
        forall|i: int|
            0 <= i < added(rows, entries, order).len() ==> current(
                #[trigger] added(rows, entries, order)[i],
                entries,
            ) && order.contains(pid_of_row(added(rows, entries, order)[i].pid)) && !listed(
                rows,
                pid_of_row(added(rows, entries, order)[i].pid),
            ),
        forall|i: int|
            0 <= i < order.len() && !listed(rows, #[trigger] order[i]) ==> listed(
                numbers(added(rows, entries, order)),
                order[i],
            ),
        numbers(added(rows, entries, order)).no_duplicates(),
    decreases order.len(),
{
    let more = added(rows, entries, order);
    if order.len() > 0 {
        let init = order.drop_last();
        let earlier = added(rows, entries, init);
        let pid = order.last();
        lemma_added(rows, entries, init);
        lemma_row_numbers(pid, 0);
        assert(entries.contains_key(order[order.len() - 1]));
        assert forall|i: int| 0 <= i < more.len() implies current(#[trigger] more[i], entries)
            && order.contains(pid_of_row(more[i].pid)) && !listed(
            rows,
            pid_of_row(more[i].pid),
        ) by {
            if i < earlier.len() {
                assert(more[i] == earlier[i]);
                let k = choose|k: int|
                    0 <= k < init.len() && init[k] == pid_of_row(earlier[i].pid);
                assert(order[k] == pid_of_row(more[i].pid));
            } else {
                assert(more[i] == row_for(entries[pid]));
                assert(order[order.len() - 1] == pid_of_row(more[i].pid));
            }
        }
        assert forall|i: int| 0 <= i < order.len() && !listed(rows, #[trigger] order[i]) implies listed(
            numbers(more),
            order[i],
        ) by {
            if i < init.len() {
                assert(init[i] == order[i]);
                let k = choose|k: int|
                    0 <= k < numbers(earlier).len() && pid_of_row(#[trigger] numbers(earlier)[k])
                        == order[i];
                assert(numbers(more)[k] == numbers(earlier)[k]);
            } else {
                assert(pid_of_row(numbers(more)[earlier.len() as int]) == pid);
            }
        }
        assert forall|i: int, j: int| 0 <= i < j < more.len() implies more[i].pid != more[j].pid by {
            if j < earlier.len() {
                assert(numbers(earlier)[i] == more[i].pid);
                assert(numbers(earlier)[j] == more[j].pid);
            } else {
                assert(more[i] == earlier[i]);
                let k = choose|k: int|
                    0 <= k < init.len() && init[k] == pid_of_row(earlier[i].pid);
                assert(order[k] == pid_of_row(more[i].pid));
                assert(order[order.len() - 1] == pid_of_row(more[j].pid));
            }
        }
    }
}

/// After a refresh the list shows the running processes and nothing else: every row is that of a
/// running process, with its current figures, and every running process has a row. A list that
/// shows no process twice still shows none twice.
pub proof fn lemma_refreshed_list(
    rows: Seq<Row>,
    entries: Map<Pid, ProcessInfo>,
    order: Seq<Pid>,
)
    requires
        keyed_by_pid(entries),
        walks(order, entries),
    ensures
        forall|i: int|
            0 <= i < refreshed(rows, entries, order).len() ==> current(
                #[trigger] refreshed(rows, entries, order)[i],
                entries,
            ),
        forall|pid: Pid| #[trigger]
            entries.contains_key(pid) ==> listed(numbers(refreshed(rows, entries, order)), pid),
        numbers(rows).no_duplicates() ==> numbers(
            refreshed(rows, entries, order),
        ).no_duplicates(),
{
    let left = survivors(rows, entries);
    let more = added(numbers(rows), entries, order);
    let all = refreshed(rows, entries, order);
    assert forall|i: int| 0 <= i < order.len() implies entries.contains_key(#[trigger] order[i]) by {
        assert(order.contains(order[i]));
    }
    lemma_survivors(rows, entries);
    lemma_added(numbers(rows), entries, order);
    assert(numbers(all) =~= numbers(left) + numbers(more));
    assert forall|i: int| 0 <= i < all.len() implies current(#[trigger] all[i], entries) by {
        if i < left.len() {
            assert(all[i] == left[i]);
        } else {
            assert(all[i] == more[i - left.len()]);
        }
    }
    assert forall|pid: Pid| #[trigger] entries.contains_key(pid) implies listed(
        numbers(all),
        pid,
    ) by {
        if listed(numbers(rows), pid) {
            let k = choose|k: int|
                0 <= k < numbers(left).len() && pid_of_row(#[trigger] numbers(left)[k]) == pid;
            assert(numbers(all)[k] == numbers(left)[k]);
        } else {
            assert(order.contains(pid));
            let i = choose|i: int| 0 <= i < order.len() && order[i] == pid;
            assert(!listed(numbers(rows), order[i]));
            let k = choose|k: int|
                0 <= k < numbers(more).len() && pid_of_row(#[trigger] numbers(more)[k]) == pid;
            assert(numbers(all)[k + left.len()] == numbers(more)[k]);
        }
    }
    if numbers(rows).no_duplicates() {
        assert forall|i: int, j: int| 0 <= i < j < all.len() implies all[i].pid != all[j].pid by {
            if j < left.len() {
                assert(numbers(left)[i] == all[i].pid);
                assert(numbers(left)[j] == all[j].pid);
            } else if i >= left.len() {
                assert(numbers(more)[i - left.len()] == all[i].pid);
                assert(numbers(more)[j - left.len()] == all[j].pid);
            } else {
                assert(left[i] == all[i]);
                assert(more[j - left.len()] == all[j]);
                let k = choose|k: int|
                    0 <= k < numbers(rows).len() && numbers(rows)[k] == left[i].pid;
                assert(pid_of_row(numbers(rows)[k]) == pid_of_row(all[i].pid));
                assert(listed(numbers(rows), pid_of_row(all[i].pid)));
            }
        }
    }
}

proof fn lemma_current_survive(rows: Seq<Row>, entries: Map<Pid, ProcessInfo>)
    requires
        forall|i: int| 0 <= i < rows.len() ==> current(#[trigger] rows[i], entries),
    ensures
        survivors(rows, entries) == rows,
    decreases rows.len(),
{
    if rows.len() > 0 {
        assert(current(rows[0], entries));
        assert forall|i: int| 0 <= i < rows.drop_first().len() implies current(
            #[trigger] rows.drop_first()[i],
            entries,
        ) by {
            assert(rows.drop_first()[i] == rows[i + 1]);
        }
        lemma_current_survive(rows.drop_first(), entries);
        assert(survivors(rows, entries) =~= rows);
    }
}

proof fn lemma_nothing_to_add(rows: Seq<u32>, entries: Map<Pid, ProcessInfo>, order: Seq<Pid>)
    requires
        forall|i: int| 0 <= i < order.len() ==> listed(rows, #[trigger] order[i]),
    ensures
        added(rows, entries, order) == Seq::<Row>::empty(),
    decreases order.len(),
{
    if order.len() > 0 {
        assert forall|i: int| 0 <= i < order.drop_last().len() implies listed(
            rows,
            #[trigger] order.drop_last()[i],
        ) by {
            assert(order.drop_last()[i] == order[i]);
        }
        assert(listed(rows, order[order.len() - 1]));
        lemma_nothing_to_add(rows, entries, order.drop_last());
    }
}

/// A second refresh, with the processes unchanged, leaves the list as it is, in whatever order
/// the processes are walked.
pub proof fn lemma_refresh_settles(
    rows: Seq<Row>,
    entries: Map<Pid, ProcessInfo>,
    order: Seq<Pid>,
    later_order: Seq<Pid>,
)
    requires
        keyed_by_pid(entries),
        walks(order, entries),
        walks(later_order, entries),
    ensures
        refreshed(refreshed(rows, entries, order), entries, later_order) == refreshed(
            rows,
            entries,
            order,
        ),
{
    let all = refreshed(rows, entries, order);
    lemma_refreshed_list(rows, entries, order);
    lemma_current_survive(all, entries);
    assert forall|i: int| 0 <= i < later_order.len() implies listed(
        numbers(all),
        #[trigger] later_order[i],
    ) by {
        assert(later_order.contains(later_order[i]));
    }
    lemma_nothing_to_add(numbers(all), entries, later_order);
    assert(all + Seq::<Row>::empty() =~= all);
}

/// A filtered walk passes by the same pids, but for those left out, and by none twice.
pub proof fn lemma_filtered_walk(order: Seq<Pid>, keep: spec_fn(Pid) -> bool)
    ensures
        forall|pid: Pid| #[trigger]
            order.filter(keep).contains(pid) <==> order.contains(pid) && keep(pid),
        order.no_duplicates() ==> order.filter(keep).no_duplicates(),
    decreases order.len(),
{
    reveal(Seq::filter);
    let kept = order.filter(keep);
    if order.len() > 0 {
        let init = order.drop_last();
        let last = order.last();
        let earlier = init.filter(keep);
        lemma_filtered_walk(init, keep);
        assert forall|pid: Pid| #[trigger] kept.contains(pid) <==> order.contains(pid) && keep(
            pid,
        ) by {
            if order.contains(pid) && pid != last {
                let k = choose|k: int| 0 <= k < order.len() && order[k] == pid;
                assert(init[k] == pid);
            }
            if init.contains(pid) {
                let k = choose|k: int| 0 <= k < init.len() && init[k] == pid;
                assert(order[k] == pid);
            }
            assert(order[order.len() - 1] == last);
            if earlier.contains(pid) {
                let k = choose|k: int| 0 <= k < earlier.len() && earlier[k] == pid;
                assert(kept[k] == pid);
            }
            if keep(last) {
                assert(kept[earlier.len() as int] == last);
                if kept.contains(pid) && pid != last {
                    let k = choose|k: int| 0 <= k < kept.len() && kept[k] == pid;
                    assert(earlier[k] == pid);
                }
            }
        }
        if order.no_duplicates() {
            assert(init.no_duplicates());
            assert(!init.contains(last)) by {
                if init.contains(last) {
                    let k = choose|k: int| 0 <= k < init.len() && init[k] == last;
                    assert(order[k] == order[order.len() - 1]);
                }
            }
            assert(!earlier.contains(last));
            assert forall|i: int, j: int| 0 <= i < j < kept.len() implies kept[i] != kept[j] by {
                if j < earlier.len() {
                    assert(kept[i] == earlier[i] && kept[j] == earlier[j]);
                } else {
                    assert(kept[i] == earlier[i]);
                    assert(earlier.contains(earlier[i]));
                }
            }
        }
    }
}

/// The added rows are those of the processes that no row shows, in the order of the walk.
proof fn lemma_added_is_filtered(rows: Seq<u32>, entries: Map<Pid, ProcessInfo>, order: Seq<Pid>)
    ensures
        added(rows, entries, order) == order.filter(
            |pid: Pid| forall|k: int| 0 <= k < rows.len() ==> #[trigger] rows[k] as Pid != pid,
        ).map_values(|pid: Pid| row_for(entries[pid])),
    decreases order.len(),
{
    reveal(Seq::filter);
    let unlisted = |pid: Pid|
        forall|k: int| 0 <= k < rows.len() ==> #[trigger] rows[k] as Pid != pid;
    let show = |pid: Pid| row_for(entries[pid]);
    if order.len() == 0 {
        assert(added(rows, entries, order) =~= order.filter(unlisted).map_values(show));
    } else {
        let init = order.drop_last();
        let last = order.last();
        lemma_added_is_filtered(rows, entries, init);
        if listed(rows, last) {
            let k = choose|k: int| 0 <= k < rows.len() && pid_of_row(#[trigger] rows[k]) == last;
            assert(rows[k] as Pid == last);
        } else {
            assert forall|k: int| 0 <= k < rows.len() implies #[trigger] rows[k] as Pid != last by {
                assert(pid_of_row(rows[k]) != last);
            }
            assert(unlisted(last));
        }
        assert(added(rows, entries, order) =~= order.filter(unlisted).map_values(show));
    }
}

/// Every row and every process is answered, and by its own figures. A row whose process runs gets
/// the memory and the CPU usage of that process, and any other row goes. Each process that no row
/// shows gets a row with its own pid, name, command line, CPU usage and memory, each in its own
/// column, in the order of the walk, and no other row is added.
pub proof fn lemma_rows_and_processes_answered(
    edits: Seq<RowEdit>,
    rows: Seq<u32>,
    entries: Map<Pid, ProcessInfo>,
    order: Seq<Pid>,
    fresh: Seq<Pid>,
)
    requires
        edits_view(edits) == window_edits(rows, entries, order),
        fresh == order.filter(
            |pid: Pid| forall|k: int| 0 <= k < rows.len() ==> #[trigger] rows[k] as Pid != pid,
        ),
    ensures
        forall|i: int|
            0 <= i < rows.len() ==> if entries.contains_key(rows[i] as Pid) {
                #[trigger] edits[i] == (RowEdit::Update {
                    memory: entries[rows[i] as Pid].memory,
                    cpu: entries[rows[i] as Pid].cpu,
                })
            } else {
                edits[i] is Remove
            },
        edits.len() == rows.len() + fresh.len(),
        forall|j: int|
            rows.len() <= j < edits.len() ==> {
                &&& #[trigger] edits[j] is Insert
                &&& edits[j]->Insert_0.pid == entries[fresh[j - rows.len()]].pid as u32
                &&& edits[j]->Insert_0.name@ == entries[fresh[j - rows.len()]].name@
                &&& edits[j]->Insert_0.command@ == debug_text(
                    entries[fresh[j - rows.len()]].cmd.deep_view(),
                )
                &&& edits[j]->Insert_0.cpu == entries[fresh[j - rows.len()]].cpu
                &&& edits[j]->Insert_0.memory == entries[fresh[j - rows.len()]].memory
            },
{
    let all = window_edits(rows, entries, order);
    let more = added(rows, entries, order);
    lemma_added_is_filtered(rows, entries, order);
    assert(edits.len() == edits_view(edits).len());
    assert(inserts(more).len() == more.len());
    assert forall|i: int| 0 <= i < rows.len() implies if entries.contains_key(rows[i] as Pid) {
        #[trigger] edits[i] == (RowEdit::Update {
            memory: entries[rows[i] as Pid].memory,
            cpu: entries[rows[i] as Pid].cpu,
        })
    } else {
        edits[i] is Remove
    } by {
        assert(edits_view(edits)[i] == edits[i]@);
        assert(all[i] == edit_for(entries, rows[i]));
    }
    assert forall|j: int| rows.len() <= j < edits.len() implies {
        &&& #[trigger] edits[j] is Insert
        &&& edits[j]->Insert_0.pid == entries[fresh[j - rows.len()]].pid as u32
        &&& edits[j]->Insert_0.name@ == entries[fresh[j - rows.len()]].name@
        &&& edits[j]->Insert_0.command@ == debug_text(
            entries[fresh[j - rows.len()]].cmd.deep_view(),
        )
        &&& edits[j]->Insert_0.cpu == entries[fresh[j - rows.len()]].cpu
        &&& edits[j]->Insert_0.memory == entries[fresh[j - rows.len()]].memory
    } by {
        let process = entries[fresh[j - rows.len()]];
        assert(edits_view(edits)[j] == edits[j]@);
        assert(all[j] == inserts(more)[j - rows.len()]);
        assert(more[j - rows.len()] == row_for(process));
        assert(crate::command_line::texts(process.cmd@) =~= process.cmd.deep_view());
    }
}

proof fn lemma_survivors_are_filtered(rows: Seq<Row>, entries: Map<Pid, ProcessInfo>)
    ensures
        survivors(rows, entries) == rows.filter(
            |row: Row| entries.contains_key(row.pid as Pid),
        ).map_values(
            |row: Row|
                Row {
                    pid: row.pid,
                    name: row.name,
                    command: row.command,
                    cpu: entries[row.pid as Pid].cpu,
                    memory: entries[row.pid as Pid].memory,
                },
        ),
    decreases rows.len(),
{
    let runs = |row: Row| entries.contains_key(row.pid as Pid);
    let renew = |row: Row|
        Row {
            pid: row.pid,
            name: row.name,
            command: row.command,
            cpu: entries[row.pid as Pid].cpu,
            memory: entries[row.pid as Pid].memory,
        };
    if rows.len() == 0 {
        reveal(Seq::filter);
        assert(survivors(rows, entries) =~= rows.filter(runs).map_values(renew));
    } else {
        let head = seq![rows[0]];
        let tail = rows.drop_first();
        lemma_survivors_are_filtered(tail, entries);
        assert(rows =~= head + tail);
        Seq::filter_distributes_over_add(head, tail, runs);
        assert(head.filter(runs) =~= if runs(rows[0]) {
            head
        } else {
            Seq::empty()
        }) by {
            reveal(Seq::filter);
            assert(head.drop_last() =~= Seq::empty());
            assert(head.drop_last().filter(runs) =~= Seq::empty());
        }
        assert(survivors(rows, entries) =~= rows.filter(runs).map_values(renew));
    }
}

/// What a refresh makes of a list. The rows of the processes that still run stay, in their order,
/// with their name and command line as they were and with the current figures of their process.
/// Behind them comes a row for each process that no row showed, in the order of the walk, with the
/// process's own pid, name, command line, CPU usage and memory.
pub proof fn lemma_refresh_outcome(rows: Seq<Row>, entries: Map<Pid, ProcessInfo>, order: Seq<Pid>)
    ensures
        replay(
            rows,
            0,
            window_edits(rows.map_values(|row: Row| row.pid), entries, order),
        ) == rows.filter(|row: Row| entries.contains_key(row.pid as Pid)).map_values(
            |row: Row|
                Row {
                    pid: row.pid,
                    name: row.name,
                    command: row.command,
                    cpu: entries[row.pid as Pid].cpu,
                    memory: entries[row.pid as Pid].memory,
                },
        ) + order.filter(
            |pid: Pid| forall|k: int| 0 <= k < rows.len() ==> #[trigger] rows[k].pid as Pid != pid,
        ).map_values(
            |pid: Pid|
                Row {
                    pid: entries[pid].pid as u32,
                    name: entries[pid].name@,
                    command: debug_text(entries[pid].cmd.deep_view()),
                    cpu: entries[pid].cpu,
                    memory: entries[pid].memory,
                },
        ),
{
    let ids = numbers(rows);
    assert(ids =~= rows.map_values(|row: Row| row.pid));
    lemma_edits_refresh(rows, entries, order);
    lemma_survivors_are_filtered(rows, entries);
    lemma_added_is_filtered(ids, entries, order);
    let unlisted = |pid: Pid|
        forall|k: int| 0 <= k < rows.len() ==> #[trigger] rows[k].pid as Pid != pid;
    let unlisted_id = |pid: Pid|
        forall|k: int| 0 <= k < ids.len() ==> #[trigger] ids[k] as Pid != pid;
    assert forall|pid: Pid| #[trigger] unlisted(pid) == unlisted_id(pid) by {
        if unlisted(pid) {
            assert forall|k: int| 0 <= k < ids.len() implies #[trigger] ids[k] as Pid != pid by {
                assert(rows[k].pid as Pid != pid);
            }
        }
        if unlisted_id(pid) {
            assert forall|k: int| 0 <= k < rows.len() implies #[trigger] rows[k].pid as Pid
                != pid by {
                assert(ids[k] as Pid != pid);
            }
        }
    }
    assert(unlisted =~= unlisted_id);
    let show = |pid: Pid|
        Row {
            pid: entries[pid].pid as u32,
            name: entries[pid].name@,
            command: debug_text(entries[pid].cmd.deep_view()),
            cpu: entries[pid].cpu,
            memory: entries[pid].memory,
        };
    assert forall|pid: Pid| #[trigger] show(pid) == row_for(entries[pid]) by {
        assert(crate::command_line::texts(entries[pid].cmd@) =~= entries[pid].cmd.deep_view());
    }
    assert(added(ids, entries, order) =~= order.filter(unlisted).map_values(show));
}

} // verus!
