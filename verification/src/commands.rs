//! The commands of the prompt, read from a line of input.

use vstd::prelude::*;
use crate::text::{parse_usize, parsed_usize, same_text, split_words, words};

verus! {

/// What the user can ask for.
#[derive(Debug, PartialEq, Eq)]
pub enum Command {
    Add,
    View { task_id: usize },
    ListUncompleted,
    Complete { task_id: usize },
    ListAll,
    ListCompleted,
    ListPrioritized,
    PriorityList { priority: String },
    Edit { task_id: usize },
    Remove { task_id: usize },
    Help,
    Exit,
}

/// A command as a plain value.
pub enum CommandView {
    Add,
    View { task_id: usize },
    ListUncompleted,
    Complete { task_id: usize },
    ListAll,
    ListCompleted,
    ListPrioritized,
    PriorityList { priority: Seq<char> },
    Edit { task_id: usize },
    Remove { task_id: usize },
    Help,
    Exit,
}

impl View for Command {
    type V = CommandView;

    open spec fn view(&self) -> CommandView {
        match *self {
            Command::Add => CommandView::Add,
            Command::View { task_id } => CommandView::View { task_id },
            Command::ListUncompleted => CommandView::ListUncompleted,
            Command::Complete { task_id } => CommandView::Complete { task_id },
            Command::ListAll => CommandView::ListAll,
            Command::ListCompleted => CommandView::ListCompleted,
            Command::ListPrioritized => CommandView::ListPrioritized,
            Command::PriorityList { priority } => CommandView::PriorityList { priority: priority@ },
            Command::Edit { task_id } => CommandView::Edit { task_id },
            Command::Remove { task_id } => CommandView::Remove { task_id },
            Command::Help => CommandView::Help,
            Command::Exit => CommandView::Exit,
        }
    }
}

/// The command that stands alone under a name.
pub open spec fn bare_command(name: Seq<char>) -> Option<CommandView> {
    if name == "add"@ {
        Some(CommandView::Add)
    } else if name == "la"@ {
        Some(CommandView::ListAll)
    } else if name == "lc"@ {
        Some(CommandView::ListCompleted)
    } else if name == "lu"@ {
        Some(CommandView::ListUncompleted)
    } else if name == "lp"@ {
        Some(CommandView::ListPrioritized)
    } else if name == "help"@ {
        Some(CommandView::Help)
    } else if name == "exit"@ {
        Some(CommandView::Exit)
    } else {
        None
    }
}

/// The command that a name makes with the task id given.
pub open spec fn id_command(name: Seq<char>, task_id: usize) -> Option<CommandView> {
    if name == "view"@ {
        Some(CommandView::View { task_id })
    } else if name == "cpl"@ {
        Some(CommandView::Complete { task_id })
    } else if name == "remove"@ {
        Some(CommandView::Remove { task_id })
    } else if name == "edit"@ {
        Some(CommandView::Edit { task_id })
    } else {
        None
    }
}

/// The command that a name makes with one argument: `pl` takes any word,
/// the others a task id.
pub open spec fn unary_command(name: Seq<char>, arg: Seq<char>) -> Option<CommandView> {
    if name == "pl"@ {
        Some(CommandView::PriorityList { priority: arg })
    } else {
        match parsed_usize(arg) {
            Some(task_id) => id_command(name, task_id),
            None => None,
        }
    }
}

/// The command that a line's words spell: a name alone, or a name and
/// one argument. Anything else is no command.
pub open spec fn command_of(line: Seq<Seq<char>>) -> Option<CommandView> {
    if line.len() == 1 {
        bare_command(line[0])
    } else if line.len() == 2 {
        unary_command(line[0], line[1])
    } else {
        None
    }
}

/// Whether the command read is the one that the words spell.
pub open spec fn command_is(r: Option<Command>, m: Option<CommandView>) -> bool {
    match r {
        Some(c) => m == Some(c@),
        None => m is None,
    }
}

impl Command {
    /// The line of the help dialog for each kind of command.
    pub open spec fn help_line(self) -> Seq<char> {
        match self {
            Command::Add => "add - Adds a new task. Requires a title and a description"@,
            Command::View { .. } => "view <id> - Views the task with the entered id."@,
            Command::ListAll => "la - Lists all tasks that exist."@,
            Command::ListCompleted => "lc - Lists all completed tasks"@,
            Command::ListUncompleted => "lu - Lists all uncompleted tasks"@,
            Command::ListPrioritized => "lp - lists all tasks in order of priority"@,
            Command::PriorityList { .. } => "pl <priority> - lists all tasks of the entered priority."@,
            Command::Complete { .. } => "cpl <id> - Completes the task with the entered id"@,
            Command::Edit { .. } => "edit <id> - Changes the title or description of a task"@,
            Command::Remove { .. } => "remove <id> - Deletes the Task with the entered id"@,
            Command::Help => "help - Shows this help dialog"@,
            Command::Exit => "exit - Saves the task list and exits."@,
        }
    }

    /// Reads a command from a line of input. White space around and
    /// between the words does not count.
    pub fn from_input(input: String) -> (r: Option<Self>)
        ensures
            command_is(r, command_of(words(input@))),
    {
        let mut parts = split_words(input.as_str());
        let ghost line = crate::text::texts(parts@);
        if parts.len() == 1 {
            let name = parts[0].as_str();
            assert(name@ == line[0]);
            if same_text(name, "add") {
                Some(Command::Add)
            } else if same_text(name, "la") {
                Some(Command::ListAll)
            } else if same_text(name, "lc") {
                Some(Command::ListCompleted)
            } else if same_text(name, "lu") {
                Some(Command::ListUncompleted)
            } else if same_text(name, "lp") {
                Some(Command::ListPrioritized)
            } else if same_text(name, "help") {
                Some(Command::Help)
            } else if same_text(name, "exit") {
                Some(Command::Exit)
            } else {
                None
            }
        } else if parts.len() == 2 {
            assert(parts[0]@ == line[0] && parts[1]@ == line[1]);
            let arg = parts.pop().unwrap();
            let name = parts[0].as_str();
            if same_text(name, "pl") {
                Some(Command::PriorityList { priority: arg })
            } else {
                match parse_usize(arg.as_str()) {
                    None => None,
                    Some(task_id) => {
                        if same_text(name, "view") {
                            Some(Command::View { task_id })
                        } else if same_text(name, "cpl") {
                            Some(Command::Complete { task_id })
                        } else if same_text(name, "remove") {
                            Some(Command::Remove { task_id })
                        } else if same_text(name, "edit") {
                            Some(Command::Edit { task_id })
                        } else {
                            None
                        }
                    },
                }
            }
        } else {
            None
        }
    }

    /// The help dialog: a heading, then the line of each command.
    pub fn help_menu() -> (lines: Vec<&'static str>)
        ensures
            lines@.len() == 13,
            lines@[0]@ == "Available Commands:"@,
            lines@[1]@ == Command::Add.help_line(),
            lines@[2]@ == (Command::View { task_id: 0 }).help_line(),
            lines@[3]@ == Command::ListAll.help_line(),
            lines@[4]@ == Command::ListCompleted.help_line(),
            lines@[5]@ == Command::ListUncompleted.help_line(),
            lines@[6]@ == Command::ListPrioritized.help_line(),
            lines@[7]@ == "pl <priority> - lists all tasks of the entered priority."@,
            lines@[8]@ == (Command::Complete { task_id: 0 }).help_line(),
            lines@[9]@ == (Command::Remove { task_id: 0 }).help_line(),
            lines@[10]@ == (Command::Edit { task_id: 0 }).help_line(),
            lines@[11]@ == Command::Exit.help_line(),
            lines@[12]@ == Command::Help.help_line(),
    {
        let mut lines: Vec<&'static str> = Vec::new();
        lines.push("Available Commands:");
        lines.push(Command::Add.as_str());
        lines.push((Command::View { task_id: 0 }).as_str());
        lines.push(Command::ListAll.as_str());
        lines.push(Command::ListCompleted.as_str());
        lines.push(Command::ListUncompleted.as_str());
        lines.push(Command::ListPrioritized.as_str());
        lines.push("pl <priority> - lists all tasks of the entered priority.");
        lines.push((Command::Complete { task_id: 0 }).as_str());
        lines.push((Command::Remove { task_id: 0 }).as_str());
        lines.push((Command::Edit { task_id: 0 }).as_str());
        lines.push(Command::Exit.as_str());
        lines.push(Command::Help.as_str());
        lines
    }

    /// The line of the help dialog for this command.
    pub fn as_str(&self) -> (r: &'static str)
        ensures
            r@ == self.help_line(),
    {
        match self {
            Command::Add => "add - Adds a new task. Requires a title and a description",
            Command::View { .. } => "view <id> - Views the task with the entered id.",
            Command::ListAll => "la - Lists all tasks that exist.",
            Command::ListCompleted => "lc - Lists all completed tasks",
            Command::ListUncompleted => "lu - Lists all uncompleted tasks",
            Command::ListPrioritized => "lp - lists all tasks in order of priority",
            Command::PriorityList { .. } => "pl <priority> - lists all tasks of the entered priority.",
            Command::Complete { .. } => "cpl <id> - Completes the task with the entered id",
            Command::Edit { .. } => "edit <id> - Changes the title or description of a task",
            Command::Remove { .. } => "remove <id> - Deletes the Task with the entered id",
            Command::Help => "help - Shows this help dialog",
            Command::Exit => "exit - Saves the task list and exits.",
        }
    }
}

} // verus!
