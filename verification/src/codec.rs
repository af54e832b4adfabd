//! The table of tasks as delimited text: a header row, then one row for
//! each task, with the fields id, title, description, priority, completed.

use vstd::prelude::*;
use vstd::string::*;
use crate::error::{text_result_is, TaskError};
use crate::tasks::{task_views, Priority, Task, TaskView};
use crate::text::{
    decimal, format_usize, lemma_parse_decimal, parse_usize, parsed_usize, same_text, texts,
};

verus! {

/// The error of the delimited-text reader and writer.
#[verifier::external_type_specification]
#[verifier::external_body]
pub struct ExTableError(csv::Error);

/// Whether the delimited-text writer, freshly made, refuses a record.
pub uninterp spec fn csv_refuses(fields: Seq<Seq<char>>) -> bool;

/// The records that the delimited-text reader finds in a text, rows of
/// any length and the first row among them, or nothing where it fails.
pub uninterp spec fn csv_records(text: Seq<char>) -> Option<Seq<Seq<Seq<char>>>>;

/// The views of a sequence of records.
pub open spec fn record_views(v: Seq<Vec<String>>) -> Seq<Seq<Seq<char>>> {
    Seq::new(v.len(), |i: int| texts(v[i]@))
}

/// The header row.
pub open spec fn header() -> Seq<Seq<char>> {
    seq!["id"@, "title"@, "description"@, "priority"@, "completed"@]
}

/// How the flag of a task is written.
pub open spec fn flag_text(b: bool) -> Seq<char> {
    if b {
        "true"@
    } else {
        "false"@
    }
}

/// The flag that a text writes, if it writes one.
pub open spec fn flag_of(s: Seq<char>) -> Option<bool> {
    if s == "true"@ {
        Some(true)
    } else if s == "false"@ {
        Some(false)
    } else {
        None
    }
}

/// The row of a task: its five fields as text.
pub open spec fn row_of(t: TaskView) -> Seq<Seq<char>> {
    seq![decimal(t.id as nat), t.title, t.description, t.priority.label(), flag_text(t.completed)]
}

/// The task that a row stands for: five fields, of which the first is a
/// number, the fourth names a priority and the fifth is a flag.
pub open spec fn task_of(row: Seq<Seq<char>>) -> Option<TaskView> {
    if row.len() != 5 {
        None
    } else {
        match (parsed_usize(row[0]), Priority::named(row[3]), flag_of(row[4])) {
            (Some(id), Some(priority), Some(completed)) => Some(
                TaskView { id, title: row[1], description: row[2], priority, completed },
            ),
            _ => None,
        }
    }
}

/// The records of a table: the header, then the rows of the tasks.
pub open spec fn table_of(tasks: Seq<TaskView>) -> Seq<Seq<Seq<char>>> {
    Seq::new(
        tasks.len() + 1,
        |i: int|
            if i == 0 {
                header()
            } else {
                row_of(tasks[i - 1])
            },
    )
}

/// Whether every record after the first stands for a task.
pub open spec fn rows_are_tasks(records: Seq<Seq<Seq<char>>>) -> bool {
    forall|i: int| 1 <= i < records.len() ==> (#[trigger] task_of(records[i])) is Some
}

/// The tasks that records stand for. No record at all is an empty table;
/// otherwise the first record must be the header and each of the others a
/// task. One bad row spoils the whole.
pub open spec fn tasks_of(records: Seq<Seq<Seq<char>>>) -> Option<Seq<TaskView>> {
    if records.len() == 0 {
        Some(Seq::empty())
    } else if records[0] == header() && rows_are_tasks(records) {
        Some(Seq::new((records.len() - 1) as nat, |i: int| task_of(records[i + 1]).unwrap()))
    } else {
        None
    }
}

/// Whether a character makes quotes necessary around its field: the
/// comma, the quote, and the two line breaks.
pub open spec fn is_special(c: char) -> bool {
    c == ',' || c == '"' || c == '\r' || c == '\n'
}

/// Whether a field must stand in quotes.
pub open spec fn needs_quotes(field: Seq<char>) -> bool {
    exists|i: int| 0 <= i < field.len() && is_special(#[trigger] field[i])
}

/// A text with each quote in it doubled.
pub open spec fn quotes_doubled(field: Seq<char>) -> Seq<char>
    decreases field.len(),
{
    if field.len() == 0 {
        Seq::empty()
    } else if field.last() == '"' {
        quotes_doubled(field.drop_last()) + seq!['"', '"']
    } else {
        quotes_doubled(field.drop_last()).push(field.last())
    }
}

/// A field as it is written: as it is, or, where it must, in quotes with
/// its own quotes doubled.
pub open spec fn field_text(field: Seq<char>) -> Seq<char> {
    if needs_quotes(field) {
        seq!['"'] + quotes_doubled(field) + seq!['"']
    } else {
        field
    }
}

/// The fields of a record as they are written, with commas between them.
pub open spec fn fields_text(fields: Seq<Seq<char>>) -> Seq<char>
    decreases fields.len(),
{
    if fields.len() == 0 {
        Seq::empty()
    } else if fields.len() == 1 {
        field_text(fields[0])
    } else {
        fields_text(fields.drop_last()) + seq![','] + field_text(fields.last())
    }
}

/// The line of a record: its fields and a line feed. A record that would
/// leave the line empty is written as a pair of quotes.
pub open spec fn record_line(fields: Seq<Seq<char>>) -> Seq<char> {
    if fields_text(fields).len() == 0 {
        seq!['"', '"', '\n']
    } else {
        fields_text(fields).push('\n')
    }
}

/// The lines of the records, one after the other.
pub open spec fn lines_text(records: Seq<Seq<Seq<char>>>) -> Seq<char>
    decreases records.len(),
{
    if records.len() == 0 {
        Seq::empty()
    } else {
        lines_text(records.drop_last()) + record_line(records.last())
    }
}

/// Whether the writer refuses one of the records.
pub open spec fn any_refused(records: Seq<Seq<Seq<char>>>) -> bool {
    exists|i: int| 0 <= i < records.len() && csv_refuses(#[trigger] records[i])
}

/// The text of a table of tasks: the header line, then the line of each
/// task in order.
pub open spec fn table_text(tasks: Seq<TaskView>) -> Seq<char> {
    lines_text(table_of(tasks))
}

/// The text of a table of tasks, or a format error where the writer
/// refuses a record.
pub open spec fn encoded(tasks: Seq<TaskView>) -> Result<Seq<char>, TaskError> {
    if any_refused(table_of(tasks)) {
        Err(TaskError::Format)
    } else {
        Ok(table_text(tasks))
    }
}

/// The tasks of a text, or a format error where the reader fails or the
/// records are no table.
pub open spec fn decoded(text: Seq<char>) -> Result<Seq<TaskView>, TaskError> {
    match csv_records(text) {
        None => Err(TaskError::Format),
        Some(records) => match tasks_of(records) {
            Some(tasks) => Ok(tasks),
            None => Err(TaskError::Format),
        },
    }
}

/// Whether an executable result of tasks is the given abstract result.
pub open spec fn tasks_result_is(
    r: Result<Vec<Task>, TaskError>,
    m: Result<Seq<TaskView>, TaskError>,
) -> bool {
    match r {
        Ok(v) => m == Ok::<Seq<TaskView>, TaskError>(task_views(v@)),
        Err(e) => m == Err::<Seq<TaskView>, TaskError>(e),
    }
}

/// The name of each priority reads back as that priority.
pub proof fn lemma_named_label(p: Priority)
    ensures
        Priority::named(p.label()) == Some(p),
{
    reveal_strlit("low");
    reveal_strlit("medium");
    reveal_strlit("high");
    reveal_strlit("critical");
    reveal_strlit("Low");
    reveal_strlit("Medium");
    reveal_strlit("High");
    reveal_strlit("Critical");
}

/// Each way of writing a flag reads back as that flag.
pub proof fn lemma_flag_round_trip(b: bool)
    ensures
        flag_of(flag_text(b)) == Some(b),
{
    reveal_strlit("true");
    reveal_strlit("false");
    assert("true"@.len() == 4 && "false"@.len() == 5);
}

/// The row of a task stands for that task.
pub proof fn lemma_row_round_trip(t: TaskView)
    ensures
        task_of(row_of(t)) == Some(t),
{
    lemma_parse_decimal(t.id);
    lemma_named_label(t.priority);
    lemma_flag_round_trip(t.completed);
}

/// The records of a table stand for its tasks, field for field and in
/// the same order.
pub proof fn lemma_table_round_trip(tasks: Seq<TaskView>)
    ensures
        tasks_of(table_of(tasks)) == Some(tasks),
{
    let records = table_of(tasks);
    assert forall|i: int| 1 <= i < records.len() implies (#[trigger] task_of(records[i])) == Some(
        tasks[i - 1],
    ) by {
        lemma_row_round_trip(tasks[i - 1]);
    }
    assert(rows_are_tasks(records));
    assert(tasks_of(records).unwrap() =~= tasks);
}

/// What is written for several fields begins as what is written for the
/// first of them.
pub proof fn lemma_fields_text_starts(fields: Seq<Seq<char>>)
    requires
        fields.len() >= 1,
        field_text(fields[0]).len() > 0,
    ensures
        fields_text(fields).len() > 0,
        fields_text(fields)[0] == field_text(fields[0])[0],
    decreases fields.len(),
{
    if fields.len() > 1 {
        lemma_fields_text_starts(fields.drop_last());
    }
}

/// The text of several records begins as the line of the first of them.
pub proof fn lemma_lines_text_starts(records: Seq<Seq<Seq<char>>>)
    requires
        records.len() >= 1,
    ensures
        lines_text(records).len() > 0,
        lines_text(records)[0] == record_line(records[0])[0],
    decreases records.len(),
{
    if records.len() > 1 {
        lemma_lines_text_starts(records.drop_last());
    } else {
        assert(lines_text(records.drop_last()) =~= Seq::<char>::empty());
    }
}

/// The text of a table begins with the letter `i` of its header.
pub proof fn lemma_table_text_starts(tasks: Seq<TaskView>)
    ensures
        table_text(tasks).len() > 0,
        table_text(tasks)[0] == 'i',
{
    reveal_strlit("id");
    let first = "id"@;
    assert(!needs_quotes(first)) by {
        assert(first.len() == 2 && first[0] == 'i' && first[1] == 'd');
    }
    assert(header()[0] == first);
    lemma_fields_text_starts(header());
    lemma_lines_text_starts(table_of(tasks));
}

/// Calls `write_record` on a fresh `csv::Writer` with the default
/// settings and takes the line out of it. The contract says what the
/// writer puts out: the fields with commas between them, in quotes where
/// they hold a comma, a quote or a line break, and a line feed. Whether
/// the writer refuses a record is a function of the fields alone.
#[verifier::external_body]
fn write_line(fields: &Vec<String>) -> (r: Result<String, csv::Error>)
    ensures
        match r {
            Ok(line) => !csv_refuses(texts(fields@)) && line@ == record_line(texts(fields@)),
            Err(_) => csv_refuses(texts(fields@)),
        },
{
    let mut writer = csv::Writer::from_writer(Vec::new());
    writer.write_record(fields)?;
    let bytes = writer.into_inner().map_err(|e| csv::Error::from(e.into_error()))?;
    String::from_utf8(bytes).map_err(
        |e| csv::Error::from(std::io::Error::new(std::io::ErrorKind::InvalidData, e)),
    )
}

/// Calls `records` on a `csv::Reader` that takes the first row as a
/// record and rows of any length. The contract names the records, which
/// are a function of the text alone.
#[verifier::external_body]
fn read_records(text: &str) -> (r: Result<Vec<Vec<String>>, csv::Error>)
    ensures
        match r {
            Ok(records) => csv_records(text@) == Some(record_views(records@)),
            Err(_) => csv_records(text@) is None,
        },
{
    csv::ReaderBuilder::new().has_headers(false).flexible(true).from_reader(
        text.as_bytes(),
    ).records().map(|rec| rec.map(|fields| fields.iter().map(String::from).collect())).collect()
}

/// The five fields of a task as text.
pub fn encode_row(task: &Task) -> (row: Vec<String>)
    ensures
        texts(row@) == row_of(task@),
{
    let mut row: Vec<String> = Vec::new();
    row.push(format_usize(task.id));
    row.push(task.title.clone());
    row.push(task.description.clone());
    row.push(String::from_str(task.priority.as_text()));
    row.push(String::from_str(if task.completed { "true" } else { "false" }));
    assert(texts(row@) =~= row_of(task@));
    row
}

/// Reads a task from the fields of a row. A row of another length, an
/// id that is no number, a priority that is not known and a flag that is
/// neither `true` nor `false` are format errors.
pub fn decode_row(row: &Vec<String>) -> (r: Result<Task, TaskError>)
    ensures
        match r {
            Ok(task) => task_of(texts(row@)) == Some(task@),
            Err(e) => e == TaskError::Format && task_of(texts(row@)) is None,
        },
{
    if row.len() != 5 {
        return Err(TaskError::Format);
    }
    let ghost fields = texts(row@);
    assert(fields[0] == row[0]@ && fields[1] == row[1]@ && fields[2] == row[2]@ && fields[3]
        == row[3]@ && fields[4] == row[4]@);
    let id: usize = match parse_usize(row[0].as_str()) {
        Some(id) => id,
        None => {
            return Err(TaskError::Format);
        },
    };
    let priority = match Priority::from_str(row[3].as_str()) {
        Ok(p) => p,
        Err(_) => {
            return Err(TaskError::Format);
        },
    };
    let completed = if same_text(row[4].as_str(), "true") {
        true
    } else if same_text(row[4].as_str(), "false") {
        false
    } else {
        return Err(TaskError::Format);
    };
    Ok(Task { id, title: row[1].clone(), description: row[2].clone(), priority, completed })
}

/// The header row.
pub fn header_row() -> (row: Vec<String>)
    ensures
        texts(row@) == header(),
{
    let mut row: Vec<String> = Vec::new();
    row.push(String::from_str("id"));
    row.push(String::from_str("title"));
    row.push(String::from_str("description"));
    row.push(String::from_str("priority"));
    row.push(String::from_str("completed"));
    assert(texts(row@) =~= header());
    row
}

/// Whether a row is the header row.
pub fn is_header(row: &Vec<String>) -> (r: bool)
    ensures
        r == (texts(row@) == header()),
{
    if row.len() != 5 {
        assert(texts(row@).len() != header().len());
        return false;
    }
    let ghost fields = texts(row@);
    assert(fields[0] == row[0]@ && fields[1] == row[1]@ && fields[2] == row[2]@ && fields[3]
        == row[3]@ && fields[4] == row[4]@);
    let r = same_text(row[0].as_str(), "id") && same_text(row[1].as_str(), "title") && same_text(
        row[2].as_str(),
        "description",
    ) && same_text(row[3].as_str(), "priority") && same_text(row[4].as_str(), "completed");
    if r {
        assert(fields =~= header());
    } else {
        assert(header()[0] == "id"@ && header()[1] == "title"@ && header()[2] == "description"@
            && header()[3] == "priority"@ && header()[4] == "completed"@);
    }
    r
}

/// The records of a table: the header, then a row for each task in order.
pub fn encode_records(tasks: &Vec<Task>) -> (records: Vec<Vec<String>>)
    ensures
        record_views(records@) == table_of(task_views(tasks@)),
{
    let n: usize = tasks.len();
    let mut records: Vec<Vec<String>> = Vec::new();
    records.push(header_row());
    let mut i: usize = 0;
    while i < n
        invariant
            n == tasks@.len(),
            i <= n,
            records@.len() == i + 1,
            texts(records@[0]@) == header(),
            forall|j: int| 0 <= j < i ==> texts(#[trigger] records@[j + 1]@) == row_of(tasks@[j]@),
        decreases n - i,
    {
        records.push(encode_row(&tasks[i]));
        i += 1;
    }
    assert(record_views(records@) =~= table_of(task_views(tasks@))) by {
        assert forall|k: int| 0 <= k < records@.len() implies record_views(records@)[k] == table_of(
            task_views(tasks@),
        )[k] by {
            if k > 0 {
                assert(texts(records@[(k - 1) + 1]@) == row_of(tasks@[k - 1]@));
            }
        }
    }
    records
}

/// Reads the tasks from the records of a table, in order. No record at
/// all gives no task; otherwise the first record must be the header, and
/// one row that is no task makes the whole a format error.
pub fn decode_records(records: &Vec<Vec<String>>) -> (r: Result<Vec<Task>, TaskError>)
    ensures
        match r {
            Ok(tasks) => tasks_of(record_views(records@)) == Some(task_views(tasks@)),
            Err(e) => e == TaskError::Format && tasks_of(record_views(records@)) is None,
        },
{
    let n: usize = records.len();
    let mut tasks: Vec<Task> = Vec::new();
    let ghost all = record_views(records@);
    if n == 0 {
        assert(task_views(tasks@) =~= Seq::<TaskView>::empty());
        return Ok(tasks);
    }
    assert(all[0] == texts(records@[0]@));
    if !is_header(&records[0]) {
        return Err(TaskError::Format);
    }
    let mut i: usize = 1;
    while i < n
        invariant
            n == records@.len(),
            all == record_views(records@),
            1 <= i <= n,
            tasks@.len() == i - 1,
            forall|j: int| 1 <= j < i ==> (#[trigger] task_of(all[j])) == Some(tasks@[j - 1]@),
        decreases n - i,
    {
        assert(all[i as int] == texts(records@[i as int]@));
        match decode_row(&records[i]) {
            Ok(task) => {
                tasks.push(task);
            },
            Err(_) => {
                assert(task_of(all[i as int]) is None);
                return Err(TaskError::Format);
            },
        }
        i += 1;
    }
    assert(rows_are_tasks(all));
    assert(tasks_of(all).unwrap() =~= task_views(tasks@));
    Ok(tasks)
}

/// Writes the table of the tasks as delimited text: the header line, then
/// a line for each task in order, fields quoted where they must be.
pub fn encode(tasks: &Vec<Task>) -> (r: Result<String, TaskError>)
    ensures
        text_result_is(r, encoded(task_views(tasks@))),
{
    let records = encode_records(tasks);
    let n: usize = records.len();
    let ghost all = record_views(records@);
    let mut text = String::new();
    let mut i: usize = 0;
    assert(all.subrange(0, 0) =~= Seq::<Seq<Seq<char>>>::empty());
    while i < n
        invariant
            n == records@.len(),
            all == record_views(records@),
            all == table_of(task_views(tasks@)),
            i <= n,
            forall|j: int| 0 <= j < i ==> !csv_refuses(#[trigger] all[j]),
            text@ == lines_text(all.subrange(0, i as int)),
        decreases n - i,
    {
        let ghost prefix = all.subrange(0, i + 1);
        proof {
            assert(prefix.drop_last() =~= all.subrange(0, i as int));
            assert(prefix.last() == texts(records@[i as int]@));
            assert(all[i as int] == texts(records@[i as int]@));
        }
        match write_line(&records[i]) {
            Ok(line) => {
                text.append(line.as_str());
            },
            Err(_) => {
                assert(csv_refuses(all[i as int]));
                return Err(TaskError::Format);
            },
        }
        i += 1;
    }
    assert(all.subrange(0, n as int) =~= all);
    Ok(text)
}

/// Reads the tasks from delimited text. Any failure of the reader, a
/// wrong header and any row that is no task make the whole a format
/// error: no part of a table is given out.
pub fn decode(text: &str) -> (r: Result<Vec<Task>, TaskError>)
    ensures
        tasks_result_is(r, decoded(text@)),
{
    match read_records(text) {
        Err(_) => Err(TaskError::Format),
        Ok(records) => decode_records(&records),
    }
}

} // verus!
