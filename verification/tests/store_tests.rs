use ram_notes::store::{
    create_note, delete_note, list_notes, note_file_name, note_title, rename_note, save_note,
    write_note, FileOp,
};

fn s(text: &str) -> String {
    text.to_string()
}

#[test]
fn file_name_is_title_and_ending() {
    assert_eq!(note_file_name(&s("alpha")), "alpha.md");
    assert_eq!(note_file_name(&s("")), ".md");
    assert_eq!(note_file_name(&s("a.b")), "a.b.md");
    assert_eq!(note_file_name(&s("héllo")), "héllo.md");
}

#[test]
fn title_is_what_stands_before_the_ending() {
    assert_eq!(note_title(&s("alpha.md")), Some(s("alpha")));
    assert_eq!(note_title(&s("a.b.md")), Some(s("a.b")));
    assert_eq!(note_title(&s("..md")), Some(s(".")));
    assert_eq!(note_title(&s("héllo.md")), Some(s("héllo")));
    assert_eq!(note_title(&s(".md")), None);
    assert_eq!(note_title(&s("md")), None);
    assert_eq!(note_title(&s("")), None);
    assert_eq!(note_title(&s("alpha.txt")), None);
    assert_eq!(note_title(&s("alpha.MD")), None);
    assert_eq!(note_title(&s("alpha.md.bak")), None);
    assert_eq!(note_title(&s("alphamd")), None);
    assert_eq!(note_title(&s("data.json")), None);
}

#[test]
fn created_note_is_listed_once() {
    let plan = create_note(s("alpha"), false);
    let file = match plan {
        Ok(FileOp::Write { file, content }) => {
            assert_eq!(content, "");
            file
        },
        other => panic!("unexpected plan {:?}", other),
    };
    assert_eq!(file, "alpha.md");
    let listing = Ok(vec![s("beta.md"), file, s("data.json")]);
    let titles = list_notes(&listing).unwrap();
    assert_eq!(titles.iter().filter(|t| *t == "alpha").count(), 1);
    assert_eq!(titles, vec![s("beta"), s("alpha")]);
}

#[test]
fn create_note_fails_where_the_note_exists() {
    match create_note(s("alpha"), true) {
        Err(message) => assert_eq!(message, "This topic already exists"),
        Ok(op) => panic!("unexpected plan {:?}", op),
    }
}

#[test]
fn list_notes_keeps_markdown_files_in_order() {
    let listing = Ok(vec![
        s("b.md"),
        s("data.json"),
        s(".md"),
        s("a.md"),
        s("notes"),
        s("c.txt"),
        s("x.y.md"),
    ]);
    assert_eq!(list_notes(&listing), Ok(vec![s("b"), s("a"), s("x.y")]));
    assert_eq!(list_notes(&Ok(Vec::new())), Ok(Vec::<String>::new()));
}

#[test]
fn list_notes_hands_on_the_read_error() {
    assert_eq!(list_notes(&Err(s("permission denied"))), Err(s("permission denied")));
}

#[test]
fn delete_note_that_is_absent_asks_for_nothing() {
    assert!(delete_note(s("alpha"), false).is_none());
}

#[test]
fn delete_note_that_exists_removes_its_file() {
    match delete_note(s("alpha"), true) {
        Some(FileOp::Remove { file }) => {
            assert_eq!(file, "alpha.md");
            let listing = Ok(vec![s("beta.md")]);
            assert!(!list_notes(&listing).unwrap().contains(&s("alpha")));
        },
        other => panic!("unexpected plan {:?}", other),
    }
}

#[test]
fn rename_note_to_used_title_fails() {
    match rename_note(s("alpha"), s("beta"), true, true) {
        Err(message) => assert_eq!(message, "A note has already this name"),
        Ok(plan) => panic!("unexpected plan {:?}", plan),
    }
}

#[test]
fn rename_note_that_is_absent_fails() {
    match rename_note(s("alpha"), s("beta"), false, false) {
        Err(message) => assert_eq!(message, "Original note does not exist"),
        Ok(plan) => panic!("unexpected plan {:?}", plan),
    }
    match rename_note(s("alpha"), s("beta"), false, true) {
        Err(message) => assert_eq!(message, "Original note does not exist"),
        Ok(plan) => panic!("unexpected plan {:?}", plan),
    }
}

#[test]
fn rename_note_to_its_own_title_does_nothing() {
    assert!(matches!(rename_note(s("alpha"), s("alpha"), true, true), Ok(None)));
    assert!(matches!(rename_note(s("alpha"), s("alpha"), false, false), Ok(None)));
}

#[test]
fn rename_note_moves_the_file() {
    match rename_note(s("alpha"), s("beta"), true, false) {
        Ok(Some(FileOp::Rename { from, to })) => {
            assert_eq!(from, "alpha.md");
            assert_eq!(to, "beta.md");
        },
        other => panic!("unexpected plan {:?}", other),
    }
}

#[test]
fn saved_body_is_what_the_file_is_to_hold() {
    match save_note(s("alpha"), s("# Title\n\nbody\n")) {
        FileOp::Write { file, content } => {
            assert_eq!(file, note_file_name(&s("alpha")));
            assert_eq!(content, "# Title\n\nbody\n");
        },
        other => panic!("unexpected plan {:?}", other),
    }
    match write_note(s("alpha"), s("")) {
        FileOp::Write { file, content } => {
            assert_eq!(file, "alpha.md");
            assert_eq!(content, "");
        },
        other => panic!("unexpected plan {:?}", other),
    }
}
