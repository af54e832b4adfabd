//! Tasks, their priorities, and the store that keeps them in order.

use vstd::prelude::*;
use vstd::string::*;
use vstd::utf8::{decode_utf8, encode_utf8, valid_utf8};
use crate::codec::{csv_records, decode, decoded, encode, encoded, table_of, table_text};
use crate::error::{text_result_is, TaskError};
use crate::task_crypto::{decrypt, encrypt, open_spec, seal_spec, sha256, NONCE_LEN};
use crate::text::{
    decimal, folded, format_usize, is_blank, is_word_ignoring_case, matches_word, text_is_blank,
    text_of_bytes, trim, trimmed,
};

verus! {

/// The most tasks that a store takes by `add_task`.
pub const MAX_SIZE: usize = 400000;

/// How pressing a task is, the most pressing first.
#[derive(Debug, Clone, Copy, PartialEq, Eq, Structural)]
pub enum Priority {
    Critical,
    High,
    Medium,
    Low,
}

impl Priority {
    /// The name of a priority as it is written out.
    pub open spec fn label(self) -> Seq<char> {
        match self {
            Priority::Critical => "Critical"@,
            Priority::High => "High"@,
            Priority::Medium => "Medium"@,
            Priority::Low => "Low"@,
        }
    }

    /// The weight of a priority: the more pressing, the larger.
    pub open spec fn rank(self) -> nat {
        match self {
            Priority::Critical => 3,
            Priority::High => 2,
            Priority::Medium => 1,
            Priority::Low => 0,
        }
    }

    /// The priority that a text names, whatever the case of its letters.
    pub open spec fn named(s: Seq<char>) -> Option<Priority> {
        if is_word_ignoring_case(s, "low"@) {
            Some(Priority::Low)
        } else if is_word_ignoring_case(s, "medium"@) {
            Some(Priority::Medium)
        } else if is_word_ignoring_case(s, "high"@) {
            Some(Priority::High)
        } else if is_word_ignoring_case(s, "critical"@) {
            Some(Priority::Critical)
        } else {
            None
        }
    }

    /// What is said of a text that names no priority.
    pub open spec fn complaint(s: Seq<char>) -> Seq<char> {
        "'"@ + s + "' is not a valid priority"@
    }

    /// The name of the priority, with a capital first letter.
    pub fn as_text(&self) -> (r: &'static str)
        ensures
            r@ == self.label(),
    {
        match self {
            Priority::Critical => "Critical",
            Priority::High => "High",
            Priority::Medium => "Medium",
            Priority::Low => "Low",
        }
    }

    /// Reads a priority from its name, in any mix of cases. Another text
    /// gives the complaint about it.
    pub fn from_str(s: &str) -> (r: Result<Priority, String>)
        ensures
            match r {
                Ok(p) => Priority::named(s@) == Some(p),
                Err(msg) => Priority::named(s@) is None && msg@ == Priority::complaint(s@),
            },
    {
        if matches_word(s, "low") {
            Ok(Priority::Low)
        } else if matches_word(s, "medium") {
            Ok(Priority::Medium)
        } else if matches_word(s, "high") {
            Ok(Priority::High)
        } else if matches_word(s, "critical") {
            Ok(Priority::Critical)
        } else {
            let mut msg = String::from_str("'");
            msg.append(s);
            msg.append("' is not a valid priority");
            Err(msg)
        }
    }
}

/// One thing to do.
#[derive(Debug)]
pub struct Task {
    pub id: usize,
    pub title: String,
    pub description: String,
    pub priority: Priority,
    pub completed: bool,
}

/// A task as a plain value.
pub struct TaskView {
    pub id: usize,
    pub title: Seq<char>,
    pub description: Seq<char>,
    pub priority: Priority,
    pub completed: bool,
}

impl View for Task {
    type V = TaskView;

    open spec fn view(&self) -> TaskView {
        TaskView {
            id: self.id,
            title: self.title@,
            description: self.description@,
            priority: self.priority,
            completed: self.completed,
        }
    }
}

/// The views of a sequence of tasks.
pub open spec fn task_views(v: Seq<Task>) -> Seq<TaskView> {
    Seq::new(v.len(), |i: int| v[i]@)
}

/// The line that lists a task: id, title, and the priority in brackets.
pub open spec fn listing_line(t: TaskView) -> Seq<char> {
    decimal(t.id as nat) + ": "@ + t.title + " ["@ + t.priority.label() + "]"@
}

/// The card that shows a task in full, on three lines.
pub open spec fn task_card(t: TaskView) -> Seq<char> {
    "Task "@ + decimal(t.id as nat) + ": "@ + t.title + "  --  "@ + t.priority.label() + "\n"@
        + t.description + "\n"@ + (if t.completed {
        "Completed."@
    } else {
        "Incomplete"@
    })
}

impl Clone for Task {
    fn clone(&self) -> (r: Self)
        ensures
            r@ == self@,
    {
        Task {
            id: self.id,
            title: self.title.clone(),
            description: self.description.clone(),
            priority: self.priority,
            completed: self.completed,
        }
    }
}

impl Task {
    /// A task that is not done yet.
    pub fn new(id: usize, title: String, description: String, priority: Priority) -> (r: Self)
        ensures
            r@ == (TaskView {
                id,
                title: title@,
                description: description@,
                priority,
                completed: false,
            }),
    {
        Self { id, title, description, priority, completed: false }
    }

    /// Marks the task as done.
    pub fn complete(&mut self)
        ensures
            final(self)@ == (TaskView { completed: true, ..old(self)@ }),
    {
        self.completed = true;
    }

    /// The line that lists the task.
    pub fn display(&self) -> (r: String)
        ensures
            r@ == listing_line(self@),
    {
        let mut line = format_usize(self.id);
        line.append(": ");
        line.append(self.title.as_str());
        line.append(" [");
        line.append(self.priority.as_text());
        line.append("]");
        line
    }

    /// The card that shows the task in full.
    pub fn card(&self) -> (r: String)
        ensures
            r@ == task_card(self@),
    {
        let mut text = String::from_str("Task ");
        text.append(format_usize(self.id).as_str());
        text.append(": ");
        text.append(self.title.as_str());
        text.append("  --  ");
        text.append(self.priority.as_text());
        text.append("\n");
        text.append(self.description.as_str());
        text.append("\n");
        if self.completed {
            text.append("Completed.");
        } else {
            text.append("Incomplete");
        }
        text
    }
}

/// Which tasks a listing shows.
#[derive(Debug, Clone, Copy, PartialEq, Eq, Structural)]
pub enum Filter {
    All,
    Completed,
    Uncompleted,
    WithPriority(Priority),
}

impl Filter {
    /// Whether the listing shows the task.
    pub open spec fn admits(self, t: TaskView) -> bool {
        match self {
            Filter::All => true,
            Filter::Completed => t.completed,
            Filter::Uncompleted => !t.completed,
            Filter::WithPriority(p) => t.priority == p,
        }
    }
}

/// The tasks that a listing shows, in the order in which they stand.
pub open spec fn selected(s: Seq<TaskView>, f: Filter) -> Seq<TaskView>
    decreases s.len(),
{
    if s.len() == 0 {
        Seq::empty()
    } else if f.admits(s.last()) {
        selected(s.drop_last(), f).push(s.last())
    } else {
        selected(s.drop_last(), f)
    }
}

/// The tasks in order of priority, the most pressing first; tasks of one
/// priority keep the order in which they stand.
pub open spec fn by_priority(s: Seq<TaskView>) -> Seq<TaskView> {
    selected(s, Filter::WithPriority(Priority::Critical)) + selected(
        s,
        Filter::WithPriority(Priority::High),
    ) + selected(s, Filter::WithPriority(Priority::Medium)) + selected(
        s,
        Filter::WithPriority(Priority::Low),
    )
}

/// Whether some task has the id.
pub open spec fn has_id(s: Seq<TaskView>, id: usize) -> bool {
    exists|i: int| 0 <= i < s.len() && (#[trigger] s[i]).id == id
}

/// Whether `i` is the first place at which a task has the id.
pub open spec fn is_position(s: Seq<TaskView>, id: usize, i: int) -> bool {
    &&& 0 <= i < s.len()
    &&& s[i].id == id
    &&& forall|j: int| 0 <= j < i ==> (#[trigger] s[j]).id != id
}

/// Whether the ids grow along the sequence, so that none occurs twice.
pub open spec fn ids_increasing(s: Seq<TaskView>) -> bool {
    forall|i: int, j: int| 0 <= i < j < s.len() ==> (#[trigger] s[i]).id < (#[trigger] s[j]).id
}

/// The largest id among the tasks, zero where there is none.
pub open spec fn max_id(s: Seq<TaskView>) -> nat
    decreases s.len(),
{
    if s.len() == 0 {
        0
    } else if s.last().id > max_id(s.drop_last()) {
        s.last().id as nat
    } else {
        max_id(s.drop_last())
    }
}

/// What became of a request to mark a task as done.
#[derive(Debug, Clone, Copy, PartialEq, Eq, Structural)]
pub enum Completion {
    Done,
    AlreadyComplete,
    NotFound,
}

/// The store: tasks in the order in which they were added, the id that
/// the next task gets, and a name for display.
pub struct TaskList {
    id_tracker: usize,
    pub(crate) title: String,
    list: Vec<Task>,
}

impl TaskList {
    /// The tasks, in order.
    pub closed spec fn tasks(&self) -> Seq<TaskView> {
        task_views(self.list@)
    }

    /// The id that the next task gets.
    pub closed spec fn next_id(&self) -> usize {
        self.id_tracker
    }

    /// The display name.
    pub closed spec fn name(&self) -> Seq<char> {
        self.title@
    }

    /// Every id in the store lies below the next one to be given out.
    pub open spec fn wf(&self) -> bool {
        forall|i: int| 0 <= i < self.tasks().len() ==> (#[trigger] self.tasks()[i]).id < self.next_id()
    }

    /// Whether `post` is this store after a task with the given fields
    /// was asked for and `r` was answered: the task stands last under
    /// the id that was next, or the store is full and unchanged.
    pub open spec fn added(
        &self,
        title: Seq<char>,
        description: Seq<char>,
        priority: Priority,
        post: &TaskList,
        r: Option<usize>,
    ) -> bool {
        &&& post.name() == self.name()
        &&& match r {
            Some(id) => {
                &&& self.tasks().len() < MAX_SIZE
                &&& self.next_id() < usize::MAX
                &&& id == self.next_id()
                &&& post.next_id() == id + 1
                &&& post.tasks() == self.tasks().push(
                    TaskView { id, title, description, priority, completed: false },
                )
            },
            None => {
                &&& self.tasks().len() >= MAX_SIZE || self.next_id() == usize::MAX
                &&& post.next_id() == self.next_id()
                &&& post.tasks() == self.tasks()
            },
        }
    }

    /// Whether `post` is this store after the removal of `id` was asked
    /// for and `r` was answered: the first task with that id is gone, or
    /// there was none and nothing changed. The next id stays.
    pub open spec fn removed(&self, id: usize, post: &TaskList, r: bool) -> bool {
        &&& post.name() == self.name()
        &&& post.next_id() == self.next_id()
        &&& r == has_id(self.tasks(), id)
        &&& if r {
            exists|i: int| #[trigger]
                is_position(self.tasks(), id, i) && post.tasks() == self.tasks().remove(i)
        } else {
            post.tasks() == self.tasks()
        }
    }

    /// An empty store under a name; the first id is 1.
    pub fn new(title: String) -> (r: Self)
        ensures
            r.wf(),
            r.tasks() == Seq::<TaskView>::empty(),
            r.next_id() == 1,
            r.name() == title@,
    {
        let r = Self { id_tracker: 1, title, list: Vec::new() };
        assert(r.tasks() =~= Seq::<TaskView>::empty());
        r
    }

    /// The number of tasks.
    pub fn len(&self) -> (n: usize)
        ensures
            n == self.tasks().len(),
    {
        self.list.len()
    }

    /// The id that the next task gets.
    pub fn next_task_id(&self) -> (n: usize)
        ensures
            n == self.next_id(),
    {
        self.id_tracker
    }

    /// The display name.
    pub fn display_name(&self) -> (r: &str)
        ensures
            r@ == self.name(),
    {
        self.title.as_str()
    }

    /// Whether the store takes no more tasks: it holds `MAX_SIZE` of them,
    /// or no id is left to give out.
    pub fn is_full(&self) -> (r: bool)
        ensures
            r == (self.tasks().len() >= MAX_SIZE || self.next_id() == usize::MAX),
    {
        self.list.len() >= MAX_SIZE || self.id_tracker == usize::MAX
    }

    /// Adds a task at the end under the next id, and answers that id. A
    /// store that is full takes none.
    pub fn add_task(&mut self, title: String, description: String, priority: Priority) -> (r:
        Option<usize>)
        requires
            old(self).wf(),
        ensures
            final(self).wf(),
            old(self).added(title@, description@, priority, final(self), r),
    {
        if self.is_full() {
            return None;
        }
        let id: usize = self.id_tracker;
        let ghost before = self.tasks();
        self.list.push(Task::new(id, title, description, priority));
        self.id_tracker = id + 1;
        proof {
            let t = TaskView { id, title: title@, description: description@, priority, completed: false };
            assert(self.tasks() =~= before.push(t));
            assert forall|i: int| 0 <= i < self.tasks().len() implies (#[trigger] self.tasks()[i]).id
                < self.next_id() by {
                if i < before.len() {
                    assert(self.tasks()[i] == before[i]);
                }
            }
        }
        Some(id)
    }

    /// The first place at which a task has the id, if any has.
    pub fn get_task_position(&self, id: usize) -> (r: Option<usize>)
        ensures
            match r {
                Some(i) => is_position(self.tasks(), id, i as int),
                None => !has_id(self.tasks(), id),
            },
    {
        let n: usize = self.list.len();
        let mut i: usize = 0;
        while i < n
            invariant
                n == self.list@.len(),
                i <= n,
                forall|j: int| 0 <= j < i ==> (#[trigger] self.tasks()[j]).id != id,
            decreases n - i,
        {
            if self.list[i].id == id {
                assert(self.tasks()[i as int].id == id);
                return Some(i);
            }
            assert(self.tasks()[i as int].id != id);
            i += 1;
        }
        None
    }

    /// The first task with the id, if there is one.
    pub fn find_task_by_id(&self, id: usize) -> (r: Option<&Task>)
        ensures
            match r {
                Some(t) => exists|i: int| #[trigger]
                    is_position(self.tasks(), id, i) && t@ == self.tasks()[i],
                None => !has_id(self.tasks(), id),
            },
    {
        match self.get_task_position(id) {
            Some(pos) => {
                assert(is_position(self.tasks(), id, pos as int));
                Some(&self.list[pos])
            },
            None => None,
        }
    }

    /// The tasks that a listing shows, copied in the store's order.
    pub fn select(&self, f: Filter) -> (out: Vec<Task>)
        ensures
            task_views(out@) == selected(self.tasks(), f),
    {
        let n: usize = self.list.len();
        let mut out: Vec<Task> = Vec::new();
        let mut i: usize = 0;
        let ghost all = self.tasks();
        assert(all.subrange(0, 0) =~= Seq::<TaskView>::empty());
        assert(task_views(out@) =~= Seq::<TaskView>::empty());
        while i < n
            invariant
                n == self.list@.len(),
                all == self.tasks(),
                i <= n,
                task_views(out@) == selected(all.subrange(0, i as int), f),
            decreases n - i,
        {
            let t = &self.list[i];
            let ghost prefix = all.subrange(0, i + 1);
            proof {
                assert(prefix.drop_last() =~= all.subrange(0, i as int));
                assert(prefix.last() == t@);
            }
            let take = match f {
                Filter::All => true,
                Filter::Completed => t.completed,
                Filter::Uncompleted => !t.completed,
                Filter::WithPriority(p) => t.priority == p,
            };
            if take {
                let ghost before = task_views(out@);
                out.push(t.clone());
                assert(task_views(out@) =~= before.push(t@));
            }
            i += 1;
        }
        assert(all.subrange(0, n as int) =~= all);
        out
    }

    /// Every task, in the store's order.
    pub fn list_all_tasks(&self) -> (out: Vec<Task>)
        ensures
            task_views(out@) == self.tasks(),
    {
        proof {
            lemma_selected_all(self.tasks());
        }
        self.select(Filter::All)
    }

    /// The tasks that are done, in the store's order.
    pub fn list_completed_tasks(&self) -> (out: Vec<Task>)
        ensures
            task_views(out@) == selected(self.tasks(), Filter::Completed),
    {
        self.select(Filter::Completed)
    }

    /// The tasks that are not done, in the store's order.
    pub fn list_uncompleted_tasks(&self) -> (out: Vec<Task>)
        ensures
            task_views(out@) == selected(self.tasks(), Filter::Uncompleted),
    {
        self.select(Filter::Uncompleted)
    }

    /// The tasks of one priority, in the store's order.
    pub fn list_by_priority(&self, priority: Priority) -> (out: Vec<Task>)
        ensures
            task_views(out@) == selected(self.tasks(), Filter::WithPriority(priority)),
    {
        self.select(Filter::WithPriority(priority))
    }

    /// The tasks in order of priority, the most pressing first, as a
    /// copy: the store keeps its own order.
    pub fn list_priorities(&self) -> (out: Vec<Task>)
        ensures
            task_views(out@) == by_priority(self.tasks()),
    {
        let mut out = self.select(Filter::WithPriority(Priority::Critical));
        let mut high = self.select(Filter::WithPriority(Priority::High));
        let mut medium = self.select(Filter::WithPriority(Priority::Medium));
        let mut low = self.select(Filter::WithPriority(Priority::Low));
        let ghost a = task_views(out@);
        let ghost b = task_views(high@);
        let ghost c = task_views(medium@);
        let ghost d = task_views(low@);
        out.append(&mut high);
        assert(task_views(out@) =~= a + b);
        out.append(&mut medium);
        assert(task_views(out@) =~= a + b + c);
        out.append(&mut low);
        assert(task_views(out@) =~= a + b + c + d);
        out
    }

    /// Marks the first task with the id as done, and says whether it
    /// did, whether the task was done already, or whether there is none.
    pub fn complete_task(&mut self, id: usize) -> (r: Completion)
        requires
            old(self).wf(),
        ensures
            final(self).wf(),
            final(self).name() == old(self).name(),
            final(self).next_id() == old(self).next_id(),
            match r {
                Completion::Done => exists|i: int| #[trigger]
                    is_position(old(self).tasks(), id, i) && !old(self).tasks()[i].completed
                        && final(self).tasks() == old(self).tasks().update(
                        i,
                        TaskView { completed: true, ..old(self).tasks()[i] },
                    ),
                Completion::AlreadyComplete => final(self).tasks() == old(self).tasks() && exists|
                    i: int,
                | #[trigger] is_position(old(self).tasks(), id, i) && old(self).tasks()[i].completed,
                Completion::NotFound => final(self).tasks() == old(self).tasks() && !has_id(
                    old(self).tasks(),
                    id,
                ),
            },
    {
        match self.get_task_position(id) {
            None => Completion::NotFound,
            Some(pos) => {
                assert(is_position(self.tasks(), id, pos as int));
                if self.list[pos].completed {
                    Completion::AlreadyComplete
                } else {
                    let ghost before = self.tasks();
                    self.list[pos].complete();
                    proof {
                        assert(self.tasks() =~= before.update(
                            pos as int,
                            TaskView { completed: true, ..before[pos as int] },
                        ));
                        assert forall|i: int| 0 <= i < self.tasks().len() implies (
                        #[trigger] self.tasks()[i]).id < self.next_id() by {
                            assert(self.tasks()[i].id == before[i].id);
                        }
                    }
                    Completion::Done
                }
            },
        }
    }

    /// The card of the first task with the id, if there is one.
    pub fn view_task(&self, id: usize) -> (r: Option<String>)
        ensures
            match r {
                Some(text) => exists|i: int| #[trigger]
                    is_position(self.tasks(), id, i) && text@ == task_card(self.tasks()[i]),
                None => !has_id(self.tasks(), id),
            },
    {
        match self.find_task_by_id(id) {
            Some(task) => Some(task.card()),
            None => None,
        }
    }

    /// Removes the first task with the id, and says whether there was
    /// one. The ids that follow are not given again.
    pub fn remove_task(&mut self, id: usize) -> (r: bool)
        requires
            old(self).wf(),
        ensures
            final(self).wf(),
            old(self).removed(id, final(self), r),
    {
        match self.get_task_position(id) {
            Some(pos) => {
                let ghost before = self.tasks();
                assert(is_position(before, id, pos as int));
                self.list.remove(pos);
                proof {
                    assert(self.tasks() =~= before.remove(pos as int));
                    assert forall|i: int| 0 <= i < self.tasks().len() implies (
                    #[trigger] self.tasks()[i]).id < self.next_id() by {
                        if i < pos {
                            assert(self.tasks()[i] == before[i]);
                        } else {
                            assert(self.tasks()[i] == before[i + 1]);
                        }
                    }
                }
                true
            },
            None => false,
        }
    }

    /// Gives the first task with the id a new title and a new
    /// description, each only where the new text is not blank. Says
    /// whether there is such a task.
    pub fn edit_task(&mut self, id: usize, new_title: String, new_description: String) -> (r: bool)
        requires
            old(self).wf(),
        ensures
            final(self).wf(),
            final(self).name() == old(self).name(),
            final(self).next_id() == old(self).next_id(),
            r == has_id(old(self).tasks(), id),
            if r {
                exists|i: int| #[trigger]
                    is_position(old(self).tasks(), id, i) && final(self).tasks() == old(
                        self,
                    ).tasks().update(
                        i,
                        edited(old(self).tasks()[i], new_title@, new_description@),
                    )
            } else {
                final(self).tasks() == old(self).tasks()
            },
    {
        match self.get_task_position(id) {
            None => false,
            Some(pos) => {
                let ghost before = self.tasks();
                assert(is_position(before, id, pos as int));
                if !text_is_blank(new_title.as_str()) {
                    self.list[pos].title = new_title;
                }
                if !text_is_blank(new_description.as_str()) {
                    self.list[pos].description = new_description;
                }
                proof {
                    assert(self.tasks() =~= before.update(
                        pos as int,
                        edited(before[pos as int], new_title@, new_description@),
                    ));
                    assert forall|i: int| 0 <= i < self.tasks().len() implies (
                    #[trigger] self.tasks()[i]).id < self.next_id() by {
                        assert(self.tasks()[i].id == before[i].id);
                    }
                }
                true
            },
        }
    }

    /// Reads a priority as typed, white space around it set aside.
    pub fn set_priority(input: &str) -> (r: Result<Priority, String>)
        ensures
            match r {
                Ok(p) => Priority::named(trimmed(input@)) == Some(p),
                Err(msg) => Priority::named(trimmed(input@)) is None && msg@ == Priority::complaint(
                    trimmed(input@),
                ),
            },
    {
        Priority::from_str(trim(input))
    }

    /// Builds the store from the bytes of its file. With a passphrase
    /// the bytes are a sealed blob and are opened first; without one
    /// they are the table itself. The next id follows the largest id in
    /// the table, and the name is `Initial`. Any failure is reported:
    /// no part of a table is ever given out.
    pub fn load_from_csv(raw: Vec<u8>, passphrase: Option<&str>) -> (r: Result<Self, TaskError>)
        ensures
            match r {
                Ok(store) => {
                    &&& loaded(raw@, pass_view(passphrase)) == Ok::<Seq<TaskView>, TaskError>(
                        store.tasks(),
                    )
                    &&& store.next_id() == max_id(store.tasks()) + 1
                    &&& store.name() == "Initial"@
                    &&& store.wf()
                },
                Err(e) => loaded(raw@, pass_view(passphrase)) == Err::<Seq<TaskView>, TaskError>(e),
            },
    {
        let outer = match text_of_bytes(raw) {
            Some(text) => text,
            None => {
                return Err(TaskError::Encoding);
            },
        };
        let text = match passphrase {
            None => outer,
            Some(p) => {
                let plain = match decrypt(outer.as_str(), p.as_bytes()) {
                    Ok(plain) => plain,
                    Err(e) => {
                        return Err(e);
                    },
                };
                match text_of_bytes(plain) {
                    Some(text) => text,
                    None => {
                        return Err(TaskError::Encoding);
                    },
                }
            },
        };
        assert(plain_text(raw@, pass_view(passphrase)) == Ok::<Seq<char>, TaskError>(text@));
        let list = match decode(text.as_str()) {
            Ok(list) => list,
            Err(e) => {
                return Err(e);
            },
        };
        let ghost all = task_views(list@);
        let n: usize = list.len();
        let mut largest: usize = 0;
        let mut i: usize = 0;
        assert(all.subrange(0, 0) =~= Seq::<TaskView>::empty());
        while i < n
            invariant
                n == list@.len(),
                all == task_views(list@),
                i <= n,
                largest == max_id(all.subrange(0, i as int)),
            decreases n - i,
        {
            let ghost prefix = all.subrange(0, i + 1);
            proof {
                assert(prefix.drop_last() =~= all.subrange(0, i as int));
                assert(prefix.last() == list@[i as int]@);
            }
            if list[i].id > largest {
                largest = list[i].id;
            }
            i += 1;
        }
        assert(all.subrange(0, n as int) =~= all);
        if largest == usize::MAX {
            return Err(TaskError::Format);
        }
        proof {
            lemma_max_id_bounds(all);
        }
        Ok(TaskList { id_tracker: largest + 1, title: String::from_str("Initial"), list })
    }

    /// Writes the store as the text of its file: the table, sealed under
    /// the passphrase where there is one. The tasks go out in the
    /// store's order. What comes out loads again, under the same
    /// passphrase, to the text of the table.
    pub fn save_to_csv(&self, passphrase: Option<&str>) -> (r: Result<String, TaskError>)
        ensures
            encoded(self.tasks()) matches Err(e) ==> r == Err::<String, TaskError>(e),
            encoded(self.tasks()) matches Ok(text) ==> match passphrase {
                None => r matches Ok(out) && out@ == text,
                Some(p) => sealed_under(r, text, p@),
            },
            encoded(self.tasks()) matches Ok(text) ==> (r matches Ok(out) ==> plain_text(
                encode_utf8(out@),
                pass_view(passphrase),
            ) == Ok::<Seq<char>, TaskError>(text)),
    {
        let text = match encode(&self.list) {
            Ok(text) => text,
            Err(e) => {
                return Err(e);
            },
        };
        proof {
            vstd::utf8::encode_utf8_valid_utf8(text@);
            vstd::utf8::encode_utf8_decode_utf8(text@);
        }
        match passphrase {
            None => Ok(text),
            Some(p) => {
                let body = text.as_str();
                let r = encrypt(body.as_bytes(), p.as_bytes());
                proof {
                    assert(body.spec_bytes() == encode_utf8(text@));
                    assert(p.spec_bytes() == encode_utf8(p@));
                    let nonce = choose|nonce: Seq<u8>|
                        nonce.len() == NONCE_LEN && text_result_is(
                            r,
                            #[trigger] seal_spec(encode_utf8(text@), pass_key(p@), nonce),
                        );
                    assert(text_result_is(r, seal_spec(encode_utf8(text@), pass_key(p@), nonce)));
                    assert(sealed_under(r, text@, p@));
                    if r is Ok {
                        let out = r->Ok_0;
                        vstd::utf8::encode_utf8_valid_utf8(out@);
                        vstd::utf8::encode_utf8_decode_utf8(out@);
                        assert(open_spec(out@, pass_key(p@)) == Ok::<Seq<u8>, TaskError>(
                            encode_utf8(text@),
                        ));
                        assert(plain_text(encode_utf8(out@), Some(p@)) == Ok::<
                            Seq<char>,
                            TaskError,
                        >(text@));
                    }
                }
                r
            },
        }
    }

    /// Takes a title as typed if it is not empty and shorter than 24
    /// characters.
    pub fn create_title(input: String) -> (r: Option<String>)
        ensures
            match r {
                Some(title) => title@ == input@ && 0 < input@.len() < 24,
                None => !(0 < input@.len() < 24),
            },
    {
        let n: usize = input.as_str().unicode_len();
        if n > 0 && n < 24 {
            Some(input)
        } else {
            None
        }
    }

    /// Takes a description as typed if it is not empty.
    pub fn create_description(input: String) -> (r: Option<String>)
        ensures
            match r {
                Some(description) => description@ == input@ && input@.len() > 0,
                None => input@.len() == 0,
            },
    {
        if input.as_str().unicode_len() > 0 {
            Some(input)
        } else {
            None
        }
    }
}

/// A task with a new title and a new description, each taken only where
/// the new text is not blank.
pub open spec fn edited(t: TaskView, new_title: Seq<char>, new_description: Seq<char>) -> TaskView {
    TaskView {
        title: if is_blank(new_title) {
            t.title
        } else {
            new_title
        },
        description: if is_blank(new_description) {
            t.description
        } else {
            new_description
        },
        ..t
    }
}

/// A passphrase as a plain value.
pub open spec fn pass_view(passphrase: Option<&str>) -> Option<Seq<char>> {
    match passphrase {
        Some(p) => Some(p@),
        None => None,
    }
}

/// The key of a passphrase: the digest of its UTF-8 bytes.
pub open spec fn pass_key(passphrase: Seq<char>) -> Seq<u8> {
    sha256(encode_utf8(passphrase))
}

/// Whether `r` is what sealing the UTF-8 bytes of a text under the key of
/// a passphrase gives, for some nonce.
pub open spec fn sealed_under(r: Result<String, TaskError>, text: Seq<char>, passphrase: Seq<char>) -> bool {
    exists|nonce: Seq<u8>|
        nonce.len() == NONCE_LEN && text_result_is(
            r,
            #[trigger] seal_spec(encode_utf8(text), pass_key(passphrase), nonce),
        )
}

/// The text of the table in the bytes of a file: the bytes as UTF-8,
/// opened under the key of the passphrase where there is one.
pub open spec fn plain_text(raw: Seq<u8>, passphrase: Option<Seq<char>>) -> Result<
    Seq<char>,
    TaskError,
> {
    if !valid_utf8(raw) {
        Err(TaskError::Encoding)
    } else {
        match passphrase {
            None => Ok(decode_utf8(raw)),
            Some(p) => match open_spec(decode_utf8(raw), pass_key(p)) {
                Err(e) => Err(e),
                Ok(plain) => if valid_utf8(plain) {
                    Ok(decode_utf8(plain))
                } else {
                    Err(TaskError::Encoding)
                },
            },
        }
    }
}

/// The tasks in the bytes of a file. A table that holds the largest id
/// there is leaves no id for the next task, and is a format error.
pub open spec fn loaded(raw: Seq<u8>, passphrase: Option<Seq<char>>) -> Result<
    Seq<TaskView>,
    TaskError,
> {
    match plain_text(raw, passphrase) {
        Err(e) => Err(e),
        Ok(text) => match decoded(text) {
            Err(e) => Err(e),
            Ok(tasks) => if max_id(tasks) >= usize::MAX {
                Err(TaskError::Format)
            } else {
                Ok(tasks)
            },
        },
    }
}

/// The largest id is an id of the sequence, and none is larger.
pub proof fn lemma_max_id_bounds(s: Seq<TaskView>)
    ensures
        forall|i: int| 0 <= i < s.len() ==> (#[trigger] s[i]).id <= max_id(s),
        s.len() > 0 ==> exists|i: int| 0 <= i < s.len() && (#[trigger] s[i]).id == max_id(s),
    decreases s.len(),
{
    if s.len() > 0 {
        let head = s.drop_last();
        lemma_max_id_bounds(head);
        assert forall|i: int| 0 <= i < s.len() implies (#[trigger] s[i]).id <= max_id(s) by {
            if i < head.len() {
                assert(s[i] == head[i]);
            }
        }
        if s.last().id > max_id(head) {
            assert(s[s.len() - 1].id == max_id(s));
        } else if head.len() > 0 {
            let k = choose|k: int| 0 <= k < head.len() && (#[trigger] head[k]).id == max_id(head);
            assert(s[k] == head[k]);
        } else {
            assert(s[s.len() - 1].id == max_id(s));
        }
    }
}

/// An id that left the store does not come back: after a task is
/// removed, the next task added gets the id that was next before, which
/// is larger than every id that remains and is not the id removed.
pub proof fn lemma_removed_id_not_reused(
    before: TaskList,
    between: TaskList,
    after: TaskList,
    id: usize,
    title: Seq<char>,
    description: Seq<char>,
    priority: Priority,
    new_id: usize,
)
    requires
        before.wf(),
        before.removed(id, &between, true),
        between.added(title, description, priority, &after, Some(new_id)),
    ensures
        new_id == before.next_id(),
        new_id != id,
        forall|j: int| 0 <= j < between.tasks().len() ==> (#[trigger] between.tasks()[j]).id < new_id,
        after.tasks().last().id == new_id,
        after.wf(),
{
    let i = choose|i: int| #[trigger]
        is_position(before.tasks(), id, i) && between.tasks() == before.tasks().remove(i);
    assert(before.tasks()[i].id < before.next_id());
    assert forall|j: int| 0 <= j < between.tasks().len() implies (#[trigger] between.tasks()[j]).id
        < new_id by {
        if j < i {
            assert(between.tasks()[j] == before.tasks()[j]);
        } else {
            assert(between.tasks()[j] == before.tasks()[j + 1]);
        }
    }
    assert forall|j: int| 0 <= j < after.tasks().len() implies (#[trigger] after.tasks()[j]).id
        < after.next_id() by {
        if j < between.tasks().len() {
            assert(after.tasks()[j] == between.tasks()[j]);
        }
    }
}

/// Adding a task keeps the ids growing along the store: the new id is
/// larger than every id before it.
pub proof fn lemma_add_keeps_ids_increasing(
    before: TaskList,
    after: TaskList,
    title: Seq<char>,
    description: Seq<char>,
    priority: Priority,
    r: Option<usize>,
)
    requires
        before.wf(),
        ids_increasing(before.tasks()),
        before.added(title, description, priority, &after, r),
    ensures
        ids_increasing(after.tasks()),
{
    let s = before.tasks();
    let t = after.tasks();
    if r is Some {
        assert forall|i: int, j: int| 0 <= i < j < t.len() implies (#[trigger] t[i]).id < (
        #[trigger] t[j]).id by {
            assert(t[i] == s[i]);
            if j < s.len() {
                assert(t[j] == s[j]);
            }
        }
    }
}

/// Removing a task keeps the ids growing along the store.
pub proof fn lemma_remove_keeps_ids_increasing(
    before: TaskList,
    after: TaskList,
    id: usize,
    r: bool,
)
    requires
        ids_increasing(before.tasks()),
        before.removed(id, &after, r),
    ensures
        ids_increasing(after.tasks()),
{
    let s = before.tasks();
    let t = after.tasks();
    if r {
        let k = choose|k: int| #[trigger] is_position(s, id, k) && t == s.remove(k);
        assert forall|i: int, j: int| 0 <= i < j < t.len() implies (#[trigger] t[i]).id < (
        #[trigger] t[j]).id by {
            let a = if i < k { i } else { i + 1 };
            let b = if j < k { j } else { j + 1 };
            assert(t[i] == s[a]);
            assert(t[j] == s[b]);
        }
    }
}

/// Where the next id follows the largest id in the store, and the task
/// removed is not the only one to hold that largest id, the next task
/// added gets the largest id that remains, plus one.
pub proof fn lemma_new_id_follows_largest(
    before: TaskList,
    between: TaskList,
    after: TaskList,
    id: usize,
    title: Seq<char>,
    description: Seq<char>,
    priority: Priority,
    new_id: usize,
)
    requires
        before.wf(),
        before.next_id() == max_id(before.tasks()) + 1,
        id != max_id(before.tasks()),
        before.removed(id, &between, true),
        between.added(title, description, priority, &after, Some(new_id)),
    ensures
        new_id == max_id(between.tasks()) + 1,
{
    let s = before.tasks();
    let t = between.tasks();
    let i = choose|i: int| #[trigger] is_position(s, id, i) && t == s.remove(i);
    lemma_max_id_bounds(s);
    lemma_max_id_bounds(t);
    let m = choose|m: int| 0 <= m < s.len() && (#[trigger] s[m]).id == max_id(s);
    assert(m != i);
    if m < i {
        assert(t[m] == s[m]);
    } else {
        assert(t[m - 1] == s[m]);
    }
    if t.len() > 0 {
        let k = choose|k: int| 0 <= k < t.len() && (#[trigger] t[k]).id == max_id(t);
        if k < i {
            assert(t[k] == s[k]);
        } else {
            assert(t[k] == s[k + 1]);
        }
    }
}

/// Loading what was saved gives the tasks back, field for field and in
/// the same order: where the file opens to the text of the table, the
/// reader finds in that text the records that were written, and an id
/// is left for the next task, the load gives exactly the tasks saved.
pub proof fn lemma_load_after_save(
    tasks: Seq<TaskView>,
    passphrase: Option<Seq<char>>,
    text: Seq<char>,
    saved: Seq<char>,
)
    requires
        plain_text(encode_utf8(saved), passphrase) == Ok::<Seq<char>, TaskError>(text),
        max_id(tasks) < usize::MAX,
    ensures
        csv_records(text) == Some(table_of(tasks)) ==> loaded(encode_utf8(saved), passphrase) == Ok::<
            Seq<TaskView>,
            TaskError,
        >(tasks),
{
    crate::codec::lemma_table_round_trip(tasks);
}

/// The case of letters does not count when a priority is read: two
/// texts that differ only in the case of their ASCII letters name the
/// same priority, or both name none.
pub proof fn lemma_named_ignores_case(a: Seq<char>, b: Seq<char>)
    requires
        a.len() == b.len(),
        forall|i: int| 0 <= i < a.len() ==> folded(#[trigger] a[i]) == folded(b[i]),
    ensures
        Priority::named(a) == Priority::named(b),
{
    assert forall|w: Seq<char>| is_word_ignoring_case(a, w) == is_word_ignoring_case(b, w) by {
        if is_word_ignoring_case(a, w) {
            assert forall|i: int| 0 <= i < b.len() implies folded(#[trigger] b[i]) == crate::text::code(
                w[i],
            ) by {
                assert(folded(a[i]) == folded(b[i]));
            }
        }
        if is_word_ignoring_case(b, w) {
            assert forall|i: int| 0 <= i < a.len() implies folded(#[trigger] a[i]) == crate::text::code(
                w[i],
            ) by {
                assert(folded(a[i]) == folded(b[i]));
                assert(folded(b[i]) == crate::text::code(w[i]));
            }
        }
    }
}

/// A file that holds a character which is no hexadecimal digit is no
/// sealed blob: under any passphrase, loading it is an encoding error.
pub proof fn lemma_plain_file_is_no_blob(raw: Seq<u8>, passphrase: Seq<char>, i: int)
    requires
        valid_utf8(raw),
        0 <= i < decode_utf8(raw).len(),
        crate::task_crypto::char_nibble(decode_utf8(raw)[i]) is None,
    ensures
        loaded(raw, Some(passphrase)) == Err::<Seq<TaskView>, TaskError>(TaskError::Encoding),
{
    assert(!crate::task_crypto::is_hex(decode_utf8(raw)));
}

/// A table that was saved without a passphrase does not load under one:
/// its text begins with a letter of the header, which is no hexadecimal
/// digit, so that loading it is an encoding error.
pub proof fn lemma_plain_table_is_no_blob(tasks: Seq<TaskView>, passphrase: Seq<char>)
    ensures
        loaded(encode_utf8(table_text(tasks)), Some(passphrase)) == Err::<Seq<TaskView>, TaskError>(
            TaskError::Encoding,
        ),
{
    let text = table_text(tasks);
    crate::codec::lemma_table_text_starts(tasks);
    vstd::utf8::encode_utf8_valid_utf8(text);
    vstd::utf8::encode_utf8_decode_utf8(text);
    assert(crate::task_crypto::char_nibble(text[0]) is None);
    lemma_plain_file_is_no_blob(encode_utf8(text), passphrase, 0);
}

/// Every task of a listing by one priority has that priority.
pub proof fn lemma_selected_priority(s: Seq<TaskView>, p: Priority)
    ensures
        forall|k: int|
            0 <= k < selected(s, Filter::WithPriority(p)).len() ==> (#[trigger] selected(
                s,
                Filter::WithPriority(p),
            )[k]).priority == p,
    decreases s.len(),
{
    if s.len() > 0 {
        lemma_selected_priority(s.drop_last(), p);
    }
}

/// The four listings by priority share out the tasks among them: each
/// task stands in them as often as in the sequence.
pub proof fn lemma_selected_share(s: Seq<TaskView>)
    ensures
        selected(s, Filter::WithPriority(Priority::Critical)).to_multiset().add(
            selected(s, Filter::WithPriority(Priority::High)).to_multiset(),
        ).add(selected(s, Filter::WithPriority(Priority::Medium)).to_multiset()).add(
            selected(s, Filter::WithPriority(Priority::Low)).to_multiset(),
        ) =~= s.to_multiset(),
    decreases s.len(),
{
    broadcast use vstd::multiset::group_multiset_axioms;

    if s.len() == 0 {
        assert(s.to_multiset() =~= vstd::multiset::Multiset::<TaskView>::empty()) by {
            s.to_multiset_ensures();
        }
        assert(Seq::<TaskView>::empty().to_multiset() =~= vstd::multiset::Multiset::<TaskView>::empty()) by {
            Seq::<TaskView>::empty().to_multiset_ensures();
        }
    } else {
        let h = s.drop_last();
        let x = s.last();
        lemma_selected_share(h);
        assert(h.push(x) =~= s);
        vstd::seq_lib::to_multiset_build(h, x);
        vstd::seq_lib::to_multiset_build(selected(h, Filter::WithPriority(Priority::Critical)), x);
        vstd::seq_lib::to_multiset_build(selected(h, Filter::WithPriority(Priority::High)), x);
        vstd::seq_lib::to_multiset_build(selected(h, Filter::WithPriority(Priority::Medium)), x);
        vstd::seq_lib::to_multiset_build(selected(h, Filter::WithPriority(Priority::Low)), x);
    }
}

/// A listing in order of priority holds each task as often as the
/// store does, and no task in it comes before a more pressing one.
pub proof fn lemma_by_priority_sorted(s: Seq<TaskView>)
    ensures
        by_priority(s).to_multiset() =~= s.to_multiset(),
        forall|i: int, j: int|
            0 <= i < j < by_priority(s).len() ==> (#[trigger] by_priority(s)[i]).priority.rank() >= (
            #[trigger] by_priority(s)[j]).priority.rank(),
{
    let a = selected(s, Filter::WithPriority(Priority::Critical));
    let b = selected(s, Filter::WithPriority(Priority::High));
    let c = selected(s, Filter::WithPriority(Priority::Medium));
    let d = selected(s, Filter::WithPriority(Priority::Low));
    lemma_selected_priority(s, Priority::Critical);
    lemma_selected_priority(s, Priority::High);
    lemma_selected_priority(s, Priority::Medium);
    lemma_selected_priority(s, Priority::Low);
    lemma_selected_share(s);
    vstd::seq_lib::lemma_multiset_commutative(a, b);
    vstd::seq_lib::lemma_multiset_commutative(a + b, c);
    vstd::seq_lib::lemma_multiset_commutative(a + b + c, d);
    let r = by_priority(s);
    assert(r == a + b + c + d);
    assert forall|i: int| 0 <= i < r.len() implies (#[trigger] r[i]).priority.rank() == (if i
        < a.len() {
        3nat
    } else if i < a.len() + b.len() {
        2nat
    } else if i < a.len() + b.len() + c.len() {
        1nat
    } else {
        0nat
    }) by {
        if i < a.len() {
            assert(r[i] == a[i]);
        } else if i < a.len() + b.len() {
            assert(r[i] == b[i - a.len()]);
        } else if i < a.len() + b.len() + c.len() {
            assert(r[i] == c[i - a.len() - b.len()]);
        } else {
            assert(r[i] == d[i - a.len() - b.len() - c.len()]);
        }
    }
}

/// A listing of everything is the whole sequence.
pub proof fn lemma_selected_all(s: Seq<TaskView>)
    ensures
        selected(s, Filter::All) == s,
    decreases s.len(),
{
    if s.len() > 0 {
        lemma_selected_all(s.drop_last());
        assert(s.drop_last().push(s.last()) =~= s);
    }
}

} // verus!
