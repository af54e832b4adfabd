use rtasks::codec::{decode, decode_records, decode_row, encode, encode_records, encode_row};
use rtasks::error::TaskError;
use rtasks::tasks::{Completion, Priority, Task, TaskList, MAX_SIZE};

fn same_task(a: &Task, b: &Task) -> bool {
    a.id == b.id
        && a.title == b.title
        && a.description == b.description
        && a.priority == b.priority
        && a.completed == b.completed
}

fn same_tasks(a: &[Task], b: &[Task]) -> bool {
    a.len() == b.len() && a.iter().zip(b.iter()).all(|(x, y)| same_task(x, y))
}

fn sample_store() -> TaskList {
    let mut store = TaskList::new("Sample".to_string());
    store.add_task("Buy milk".to_string(), "2% milk".to_string(), Priority::Medium);
    store.add_task("Pay rent".to_string(), "due 1st".to_string(), Priority::Critical);
    store.add_task("Call mum".to_string(), "on Sunday".to_string(), Priority::Low);
    store
}

#[test]
fn new_store_is_empty_and_starts_at_one() {
    let store = TaskList::new("Mine".to_string());
    assert!(!store.is_full());
    assert_eq!(store.len(), 0);
    assert_eq!(store.next_task_id(), 1);
    assert_eq!(store.display_name(), "Mine");
}

#[test]
fn new_task_is_not_completed() {
    let mut t = Task::new(4, "a".to_string(), "b".to_string(), Priority::High);
    assert_eq!(t.id, 4);
    assert_eq!(t.title, "a");
    assert_eq!(t.description, "b");
    assert_eq!(t.priority, Priority::High);
    assert!(!t.completed);
    t.complete();
    assert!(t.completed);
}

#[test]
fn display_line_and_card() {
    let mut t = Task::new(12, "Buy milk".to_string(), "2% milk".to_string(), Priority::Medium);
    assert_eq!(t.display(), "12: Buy milk [Medium]");
    assert_eq!(t.card(), "Task 12: Buy milk  --  Medium\n2% milk\nIncomplete");
    t.complete();
    assert_eq!(t.card(), "Task 12: Buy milk  --  Medium\n2% milk\nCompleted.");
}

#[test]
fn scenario_add_save_load() {
    let mut store = TaskList::new("List".to_string());
    let first = store.add_task("Buy milk".to_string(), "2% milk".to_string(), Priority::Medium);
    assert_eq!(first, Some(1));
    assert!(!store.find_task_by_id(1).unwrap().completed);
    let second = store.add_task("Pay rent".to_string(), "due 1st".to_string(), Priority::Critical);
    assert_eq!(second, Some(2));

    let file = store.save_to_csv(Some("secret")).unwrap();
    let back = TaskList::load_from_csv(file.clone().into_bytes(), Some("secret")).unwrap();
    assert_eq!(back.len(), 2);
    assert!(same_tasks(&back.list_all_tasks(), &store.list_all_tasks()));
    let tasks = back.list_all_tasks();
    assert_eq!(tasks[0].id, 1);
    assert_eq!(tasks[0].title, "Buy milk");
    assert_eq!(tasks[0].description, "2% milk");
    assert_eq!(tasks[0].priority, Priority::Medium);
    assert!(!tasks[0].completed);
    assert_eq!(tasks[1].id, 2);
    assert_eq!(tasks[1].title, "Pay rent");
    assert_eq!(tasks[1].priority, Priority::Critical);
    assert_eq!(back.next_task_id(), 3);
    assert_eq!(back.display_name(), "Initial");

    let wrong = TaskList::load_from_csv(file.clone().into_bytes(), Some("wrong"));
    assert_eq!(wrong.err(), Some(TaskError::Crypto));

    let bare = TaskList::load_from_csv(file.into_bytes(), None);
    assert!(matches!(bare.err(), Some(TaskError::Encoding) | Some(TaskError::Format)));
}

#[test]
fn save_then_load_without_passphrase() {
    let mut store = sample_store();
    store.complete_task(2);
    let file = store.save_to_csv(None).unwrap();
    assert_eq!(
        file,
        "id,title,description,priority,completed\n1,Buy milk,2% milk,Medium,false\n2,Pay rent,due 1st,Critical,true\n3,Call mum,on Sunday,Low,false\n"
    );
    let back = TaskList::load_from_csv(file.into_bytes(), None).unwrap();
    assert!(same_tasks(&back.list_all_tasks(), &store.list_all_tasks()));
    assert_eq!(back.next_task_id(), 4);
}

#[test]
fn save_then_load_keeps_awkward_fields() {
    let mut store = TaskList::new("x".to_string());
    store.add_task("a,b".to_string(), "say \"hi\"".to_string(), Priority::High);
    store.add_task("two\nlines".to_string(), " padded ".to_string(), Priority::Low);
    store.add_task("ünï, côdé".to_string(), "\r\n".to_string(), Priority::Critical);
    store.add_task("#hash".to_string(), "'".to_string(), Priority::Medium);
    for pass in [None, Some("pw"), Some("")] {
        let file = store.save_to_csv(pass).unwrap();
        let back = TaskList::load_from_csv(file.into_bytes(), pass).unwrap();
        assert!(same_tasks(&back.list_all_tasks(), &store.list_all_tasks()));
        assert_eq!(back.next_task_id(), 5);
    }
}

#[test]
fn saved_under_a_passphrase_is_one_line_of_lowercase_hex() {
    let file = sample_store().save_to_csv(Some("pw")).unwrap();
    assert!(!file.is_empty());
    assert!(file.chars().all(|c| c.is_ascii_digit() || ('a'..='f').contains(&c)));
}

#[test]
fn wrong_passphrase_is_a_crypto_error() {
    let file = sample_store().save_to_csv(Some("right")).unwrap();
    let r = TaskList::load_from_csv(file.into_bytes(), Some("left"));
    assert_eq!(r.err(), Some(TaskError::Crypto));
}

#[test]
fn plain_file_with_a_passphrase_fails() {
    let file = sample_store().save_to_csv(None).unwrap();
    let r = TaskList::load_from_csv(file.into_bytes(), Some("secret"));
    assert_eq!(r.err(), Some(TaskError::Encoding));
    let empty = TaskList::new("e".to_string()).save_to_csv(None).unwrap();
    assert!(TaskList::load_from_csv(empty.into_bytes(), Some("secret")).is_err());
}

#[test]
fn bytes_that_are_not_utf8_are_an_encoding_error() {
    let r = TaskList::load_from_csv(vec![0xff, 0xfe, 0x00], None);
    assert_eq!(r.err(), Some(TaskError::Encoding));
    let r = TaskList::load_from_csv(vec![0xc3, 0x28], Some("pw"));
    assert_eq!(r.err(), Some(TaskError::Encoding));
}

#[test]
fn empty_file_is_an_empty_store() {
    let store = TaskList::load_from_csv(Vec::new(), None).unwrap();
    assert_eq!(store.len(), 0);
    assert_eq!(store.next_task_id(), 1);
}

#[test]
fn header_alone_is_an_empty_store() {
    let file = TaskList::new("e".to_string()).save_to_csv(None).unwrap();
    assert_eq!(file, "id,title,description,priority,completed\n");
    let store = TaskList::load_from_csv(file.into_bytes(), None).unwrap();
    assert_eq!(store.len(), 0);
    assert_eq!(store.next_task_id(), 1);
}

#[test]
fn next_id_follows_the_largest_id_loaded() {
    let text = "id,title,description,priority,completed\n7,a,b,low,true\n3,c,d,HIGH,false\n";
    let store = TaskList::load_from_csv(text.as_bytes().to_vec(), None).unwrap();
    assert_eq!(store.next_task_id(), 8);
    let tasks = store.list_all_tasks();
    assert_eq!(tasks[0].id, 7);
    assert_eq!(tasks[0].priority, Priority::Low);
    assert!(tasks[0].completed);
    assert_eq!(tasks[1].id, 3);
    assert_eq!(tasks[1].priority, Priority::High);
}

#[test]
fn largest_possible_id_leaves_no_next_id() {
    let text = format!("id,title,description,priority,completed\n{},a,b,Low,true\n", usize::MAX);
    let r = TaskList::load_from_csv(text.into_bytes(), None);
    assert_eq!(r.err(), Some(TaskError::Format));
}

#[test]
fn unknown_priority_is_a_format_error() {
    let text = "id,title,description,priority,completed\n1,a,b,urgent,false\n";
    assert_eq!(decode(text).err(), Some(TaskError::Format));
    let r = TaskList::load_from_csv(text.as_bytes().to_vec(), None);
    assert_eq!(r.err(), Some(TaskError::Format));
}

#[test]
fn priority_is_read_in_any_case() {
    for word in ["low", "Low", "LOW", "lOw"] {
        assert_eq!(Priority::from_str(word), Ok(Priority::Low));
        let text = format!("id,title,description,priority,completed\n1,a,b,{},false\n", word);
        let tasks = decode(&text).unwrap();
        assert_eq!(tasks[0].priority, Priority::Low);
    }
    assert_eq!(Priority::from_str("MEDIUM"), Ok(Priority::Medium));
    assert_eq!(Priority::from_str("hIgH"), Ok(Priority::High));
    assert_eq!(Priority::from_str("critical"), Ok(Priority::Critical));
}

#[test]
fn priority_complaint() {
    assert_eq!(Priority::from_str("urgent"), Err("'urgent' is not a valid priority".to_string()));
    assert_eq!(Priority::from_str(""), Err("'' is not a valid priority".to_string()));
    assert_eq!(Priority::from_str(" low"), Err("' low' is not a valid priority".to_string()));
    assert_eq!(TaskList::set_priority(" low \n"), Ok(Priority::Low));
    assert_eq!(
        TaskList::set_priority(" lo w\n"),
        Err("'lo w' is not a valid priority".to_string())
    );
}

#[test]
fn priority_names() {
    assert_eq!(Priority::Critical.as_text(), "Critical");
    assert_eq!(Priority::High.as_text(), "High");
    assert_eq!(Priority::Medium.as_text(), "Medium");
    assert_eq!(Priority::Low.as_text(), "Low");
}

#[test]
fn malformed_rows_are_format_errors() {
    let head = "id,title,description,priority,completed\n";
    for row in ["x,a,b,Low,true", "1,a,b,Low", "1,a,b,Low,true,extra", "1,a,b,Low,yes", "1,a,b,Low,True", "-1,a,b,Low,true", "1,a,b,,true", ",a,b,Low,true"] {
        let text = format!("{}{}\n", head, row);
        assert_eq!(decode(&text).err(), Some(TaskError::Format));
    }
}

#[test]
fn one_bad_row_spoils_the_whole_table() {
    let text = "id,title,description,priority,completed\n1,a,b,Low,true\n2,c,d,urgent,false\n3,e,f,High,false\n";
    assert_eq!(decode(text).err(), Some(TaskError::Format));
}

#[test]
fn wrong_header_is_a_format_error() {
    assert_eq!(decode("1,a,b,Low,true\n").err(), Some(TaskError::Format));
    assert_eq!(
        decode("id,title,description,completed,priority\n").err(),
        Some(TaskError::Format)
    );
    assert_eq!(decode("id,title,description,priority\n").err(), Some(TaskError::Format));
}

#[test]
fn decode_reads_quoted_fields() {
    let text = "id,title,description,priority,completed\n1,\"a,b\",\"say \"\"hi\"\"\",Low,true\n";
    let tasks = decode(text).unwrap();
    assert_eq!(tasks.len(), 1);
    assert_eq!(tasks[0].title, "a,b");
    assert_eq!(tasks[0].description, "say \"hi\"");
}

#[test]
fn encode_quotes_fields_where_it_must() {
    let tasks = vec![Task::new(1, "a,b".to_string(), "say \"hi\"".to_string(), Priority::Low)];
    assert_eq!(
        encode(&tasks).unwrap(),
        "id,title,description,priority,completed\n1,\"a,b\",\"say \"\"hi\"\"\",Low,false\n"
    );
}

#[test]
fn decode_gives_back_what_encode_took() {
    let store = sample_store();
    let tasks = store.list_all_tasks();
    let back = decode(&encode(&tasks).unwrap()).unwrap();
    assert!(same_tasks(&back, &tasks));
}

#[test]
fn rows_and_records() {
    let mut t = Task::new(30, "t".to_string(), "d".to_string(), Priority::Critical);
    t.complete();
    let row = encode_row(&t);
    assert_eq!(row, vec!["30", "t", "d", "Critical", "true"]);
    assert!(same_task(&decode_row(&row).unwrap(), &t));
    let records = encode_records(&vec![t.clone()]);
    assert_eq!(records.len(), 2);
    assert_eq!(records[0], vec!["id", "title", "description", "priority", "completed"]);
    assert_eq!(records[1], row);
    let back = decode_records(&records).unwrap();
    assert!(same_tasks(&back, &[t]));
    assert_eq!(decode_records(&Vec::new()).unwrap().len(), 0);
    assert_eq!(decode_records(&vec![row]).err(), Some(TaskError::Format));
}

#[test]
fn removed_id_is_not_given_again() {
    let mut store = sample_store();
    assert!(store.remove_task(3));
    let id = store.add_task("new".to_string(), "task".to_string(), Priority::Low);
    assert_eq!(id, Some(4));
    let ids: Vec<usize> = store.list_all_tasks().iter().map(|t| t.id).collect();
    assert_eq!(ids, vec![1, 2, 4]);
}

#[test]
fn new_id_follows_the_largest_that_remains() {
    let mut store = TaskList::new("s".to_string());
    for _ in 0..5 {
        store.add_task("t".to_string(), "d".to_string(), Priority::Low);
    }
    assert!(store.remove_task(3));
    let id = store.add_task("new".to_string(), "task".to_string(), Priority::Low);
    assert_eq!(id, Some(6));
    assert!(store.find_task_by_id(3).is_none());
}

#[test]
fn remove_leaves_the_rest_in_order() {
    let mut store = sample_store();
    assert!(store.remove_task(1));
    assert!(!store.remove_task(1));
    assert!(!store.remove_task(99));
    let ids: Vec<usize> = store.list_all_tasks().iter().map(|t| t.id).collect();
    assert_eq!(ids, vec![2, 3]);
    assert_eq!(store.next_task_id(), 4);
}

#[test]
fn positions_and_lookups() {
    let store = sample_store();
    assert_eq!(store.get_task_position(1), Some(0));
    assert_eq!(store.get_task_position(3), Some(2));
    assert_eq!(store.get_task_position(4), None);
    assert_eq!(store.find_task_by_id(2).unwrap().title, "Pay rent");
    assert!(store.find_task_by_id(0).is_none());
}

#[test]
fn complete_task_outcomes() {
    let mut store = sample_store();
    assert_eq!(store.complete_task(2), Completion::Done);
    assert!(store.find_task_by_id(2).unwrap().completed);
    assert!(!store.find_task_by_id(1).unwrap().completed);
    assert_eq!(store.complete_task(2), Completion::AlreadyComplete);
    assert_eq!(store.complete_task(9), Completion::NotFound);
}

#[test]
fn view_task_shows_the_card() {
    let mut store = sample_store();
    assert_eq!(
        store.view_task(1),
        Some("Task 1: Buy milk  --  Medium\n2% milk\nIncomplete".to_string())
    );
    store.complete_task(1);
    assert_eq!(
        store.view_task(1),
        Some("Task 1: Buy milk  --  Medium\n2% milk\nCompleted.".to_string())
    );
    assert_eq!(store.view_task(8), None);
}

#[test]
fn edit_task_keeps_what_is_left_blank() {
    let mut store = sample_store();
    assert!(store.edit_task(1, "Buy bread".to_string(), "  \n".to_string()));
    let t = store.find_task_by_id(1).unwrap();
    assert_eq!(t.title, "Buy bread");
    assert_eq!(t.description, "2% milk");
    assert!(store.edit_task(1, "".to_string(), "rye".to_string()));
    let t = store.find_task_by_id(1).unwrap();
    assert_eq!(t.title, "Buy bread");
    assert_eq!(t.description, "rye");
    assert!(!store.edit_task(7, "x".to_string(), "y".to_string()));
    assert_eq!(store.len(), 3);
}

#[test]
fn listings_keep_the_stores_order() {
    let mut store = sample_store();
    store.complete_task(1);
    store.complete_task(3);
    let done: Vec<usize> = store.list_completed_tasks().iter().map(|t| t.id).collect();
    let open: Vec<usize> = store.list_uncompleted_tasks().iter().map(|t| t.id).collect();
    let all: Vec<usize> = store.list_all_tasks().iter().map(|t| t.id).collect();
    let low: Vec<usize> = store.list_by_priority(Priority::Low).iter().map(|t| t.id).collect();
    assert_eq!(done, vec![1, 3]);
    assert_eq!(open, vec![2]);
    assert_eq!(all, vec![1, 2, 3]);
    assert_eq!(low, vec![3]);
    assert!(store.list_by_priority(Priority::High).is_empty());
}

#[test]
fn priority_listing_puts_the_most_pressing_first() {
    let mut store = sample_store();
    store.add_task("d".to_string(), "d".to_string(), Priority::High);
    store.add_task("e".to_string(), "e".to_string(), Priority::Medium);
    store.add_task("f".to_string(), "f".to_string(), Priority::Critical);
    let ids: Vec<usize> = store.list_priorities().iter().map(|t| t.id).collect();
    assert_eq!(ids, vec![2, 6, 4, 1, 5, 3]);
}

#[test]
fn priority_listing_leaves_the_saved_order_alone() {
    let store = sample_store();
    let before = store.save_to_csv(None).unwrap();
    let listed = store.list_priorities();
    assert_eq!(listed[0].id, 2);
    let after = store.save_to_csv(None).unwrap();
    assert_eq!(before, after);
    let back = TaskList::load_from_csv(after.into_bytes(), None).unwrap();
    let ids: Vec<usize> = back.list_all_tasks().iter().map(|t| t.id).collect();
    assert_eq!(ids, vec![1, 2, 3]);
}

#[test]
fn titles_and_descriptions_as_typed() {
    assert_eq!(TaskList::create_title("".to_string()), None);
    assert_eq!(TaskList::create_title("a".to_string()), Some("a".to_string()));
    let long23 = "x".repeat(23);
    let long24 = "x".repeat(24);
    assert_eq!(TaskList::create_title(long23.clone()), Some(long23));
    assert_eq!(TaskList::create_title(long24), None);
    assert_eq!(TaskList::create_description("".to_string()), None);
    assert_eq!(TaskList::create_description("d".to_string()), Some("d".to_string()));
}

#[test]
fn a_full_store_takes_no_more() {
    let mut store = TaskList::new("big".to_string());
    for i in 0..MAX_SIZE {
        assert_eq!(store.add_task(String::new(), String::new(), Priority::Low), Some(i + 1));
    }
    assert!(store.is_full());
    assert_eq!(store.add_task("one".to_string(), "more".to_string(), Priority::Low), None);
    assert_eq!(store.len(), MAX_SIZE);
    assert_eq!(store.next_task_id(), MAX_SIZE + 1);
    assert!(store.remove_task(1));
    assert_eq!(
        store.add_task("one".to_string(), "more".to_string(), Priority::Low),
        Some(MAX_SIZE + 1)
    );
}

#[test]
fn encode_quotes_line_breaks_and_leaves_the_rest() {
    let tasks = vec![
        Task::new(1, "".to_string(), "a\rb".to_string(), Priority::Low),
        Task::new(2, "é ü".to_string(), "c\nd".to_string(), Priority::High),
        Task::new(3, "\"".to_string(), " x ".to_string(), Priority::Medium),
    ];
    assert_eq!(
        encode(&tasks).unwrap(),
        "id,title,description,priority,completed\n1,,\"a\rb\",Low,false\n2,é ü,\"c\nd\",High,false\n3,\"\"\"\", x ,Medium,false\n"
    );
    let back = decode(&encode(&tasks).unwrap()).unwrap();
    assert!(same_tasks(&back, &tasks));
}

#[test]
fn decode_takes_either_line_ending() {
    let text = "id,title,description,priority,completed\r\n1,a,b,Low,true\r\n";
    let tasks = decode(text).unwrap();
    assert_eq!(tasks.len(), 1);
    assert_eq!(tasks[0].description, "b");
    assert!(tasks[0].completed);
}

#[test]
fn sealed_file_does_not_load_as_a_table() {
    let file = sample_store().save_to_csv(Some("pw")).unwrap();
    assert_eq!(decode(&file).err(), Some(TaskError::Format));
}
