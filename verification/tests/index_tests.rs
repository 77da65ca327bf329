use ram_notes::index::{
    add_tag, can_add_tag, delete_tag, get_all_tags, get_tags, open_document, rename_note_tag, Data,
};
use ram_notes::note::Note;
use ram_notes::tag::Tag;

fn s(text: &str) -> String {
    text.to_string()
}

fn empty() -> Result<Data, String> {
    Ok(Data { notes: Vec::new(), tags: Vec::new() })
}

fn tag(id: u32, label: &str, use_count: i32) -> Tag {
    Tag { id, label: s(label), use_count }
}

fn note(id: u32, title: &str, tags: Vec<Tag>) -> Note {
    Note { id, title: s(title), tags, sub_notes: Vec::new() }
}

fn labels_of(tags: &Vec<Tag>) -> Vec<String> {
    tags.iter().map(|t| t.label.clone()).collect()
}

fn titles_of(data: &Data) -> Vec<String> {
    data.notes.iter().map(|n| n.title.clone()).collect()
}

fn count_of(data: &Data, label: &str) -> Option<i32> {
    data.tags.iter().find(|t| t.label == label).map(|t| t.use_count)
}

#[test]
fn scenario_one_note_one_tag() {
    let doc = add_tag(empty(), s("work"), s("alpha"));
    let loaded = Ok(doc);
    assert_eq!(get_all_tags(&loaded), Ok(vec![s("work")]));
    let doc = delete_tag(loaded, s("work"), s("alpha"));
    let loaded = Ok(doc);
    assert_eq!(get_all_tags(&loaded), Ok(Vec::<String>::new()));
    assert!(loaded.unwrap().notes.is_empty());
}

#[test]
fn add_tag_makes_note_and_tag_with_next_ids() {
    let doc = add_tag(empty(), s("work"), s("alpha"));
    assert_eq!(doc.notes.len(), 1);
    assert_eq!(doc.notes[0].id, 1);
    assert_eq!(doc.notes[0].title, "alpha");
    assert!(doc.notes[0].sub_notes.is_empty());
    assert_eq!(doc.notes[0].tags.len(), 1);
    assert_eq!(doc.notes[0].tags[0].id, 1);
    assert_eq!(doc.notes[0].tags[0].label, "work");
    assert_eq!(doc.notes[0].tags[0].use_count, 1);
    assert_eq!(doc.tags.len(), 1);
    assert_eq!(doc.tags[0].id, 1);
    assert_eq!(doc.tags[0].label, "work");
    assert_eq!(doc.tags[0].use_count, 1);

    let doc = add_tag(Ok(doc), s("home"), s("beta"));
    assert_eq!(doc.notes[1].id, 2);
    assert_eq!(doc.notes[1].title, "beta");
    assert_eq!(doc.tags[1].id, 2);
    assert_eq!(doc.tags[1].label, "home");
    assert_eq!(doc.tags[1].use_count, 1);
}

#[test]
fn add_tag_then_get_tags_contains_label() {
    let doc = add_tag(empty(), s("work"), s("alpha"));
    let doc = add_tag(Ok(doc), s("home"), s("alpha"));
    let loaded = Ok(doc);
    assert_eq!(get_tags(&loaded, s("alpha")), vec![s("work"), s("home")]);
    assert_eq!(get_tags(&loaded, s("beta")), Vec::<String>::new());
}

#[test]
fn add_tag_twice_counts_once() {
    let doc = add_tag(empty(), s("work"), s("alpha"));
    let doc = add_tag(Ok(doc), s("work"), s("alpha"));
    assert_eq!(count_of(&doc, "work"), Some(1));
    assert_eq!(doc.tags.len(), 1);
    assert_eq!(doc.notes.len(), 1);
    assert_eq!(labels_of(&doc.notes[0].tags), vec![s("work")]);
}

#[test]
fn add_tag_to_second_note_counts_twice_and_copies_the_count() {
    let doc = add_tag(empty(), s("work"), s("alpha"));
    let doc = add_tag(Ok(doc), s("work"), s("beta"));
    assert_eq!(count_of(&doc, "work"), Some(2));
    assert_eq!(doc.tags.len(), 1);
    assert_eq!(doc.notes[0].tags[0].use_count, 1);
    assert_eq!(doc.notes[1].tags[0].use_count, 2);
    assert_eq!(doc.notes[1].tags[0].id, 1);
}

#[test]
fn add_tag_with_label_missing_from_catalog_attaches_a_new_tag() {
    let doc = Data { notes: vec![note(1, "alpha", vec![tag(9, "work", 4)])], tags: Vec::new() };
    let doc = add_tag(Ok(doc), s("work"), s("alpha"));
    assert_eq!(count_of(&doc, "work"), Some(1));
    assert_eq!(labels_of(&doc.notes[0].tags), vec![s("work"), s("work")]);
    assert_eq!(doc.notes[0].tags[1].id, 1);
}

#[test]
fn add_tag_on_unreadable_document_starts_from_empty() {
    let doc = add_tag(Err(s("no such file")), s("work"), s("alpha"));
    assert_eq!(titles_of(&doc), vec![s("alpha")]);
    assert_eq!(labels_of(&doc.tags), vec![s("work")]);
}

#[test]
fn add_tag_uses_the_first_note_with_the_title() {
    let doc = Data {
        notes: vec![
            note(1, "alpha", vec![tag(1, "a", 2)]),
            note(2, "alpha", vec![tag(1, "a", 2)]),
        ],
        tags: vec![tag(1, "a", 2)],
    };
    let doc = add_tag(Ok(doc), s("b"), s("alpha"));
    assert_eq!(labels_of(&doc.notes[0].tags), vec![s("a"), s("b")]);
    assert_eq!(labels_of(&doc.notes[1].tags), vec![s("a")]);
}

#[test]
fn can_add_tag_tells_when_counters_are_full() {
    let full = Ok(Data {
        notes: vec![note(1, "alpha", vec![tag(1, "x", 1)])],
        tags: vec![tag(1, "work", i32::MAX), tag(2, "x", 1)],
    });
    assert!(!can_add_tag(&full, &s("work"), &s("alpha")));
    assert!(can_add_tag(&full, &s("x"), &s("alpha")));
    assert!(can_add_tag(&full, &s("new"), &s("alpha")));
    assert!(can_add_tag(&empty(), &s("work"), &s("alpha")));
    assert!(can_add_tag(&Err(s("gone")), &s("work"), &s("alpha")));
}

#[test]
fn label_on_two_notes_leaves_the_catalog_with_the_second() {
    let doc = add_tag(empty(), s("work"), s("one"));
    let doc = add_tag(Ok(doc), s("work"), s("two"));
    let doc = delete_tag(Ok(doc), s("work"), s("one"));
    assert_eq!(count_of(&doc, "work"), Some(1));
    assert_eq!(titles_of(&doc), vec![s("two")]);
    let loaded = Ok(delete_tag(Ok(doc), s("work"), s("two")));
    assert_eq!(get_all_tags(&loaded), Ok(Vec::<String>::new()));
}

#[test]
fn note_without_tags_leaves_the_document() {
    let doc = add_tag(empty(), s("work"), s("alpha"));
    let doc = add_tag(Ok(doc), s("home"), s("beta"));
    let doc = delete_tag(Ok(doc), s("work"), s("alpha"));
    assert_eq!(titles_of(&doc), vec![s("beta")]);
    assert_eq!(labels_of(&doc.tags), vec![s("home")]);
}

#[test]
fn delete_tag_keeps_a_note_that_has_other_tags() {
    let doc = add_tag(empty(), s("work"), s("alpha"));
    let doc = add_tag(Ok(doc), s("home"), s("alpha"));
    let doc = delete_tag(Ok(doc), s("work"), s("alpha"));
    assert_eq!(titles_of(&doc), vec![s("alpha")]);
    assert_eq!(labels_of(&doc.notes[0].tags), vec![s("home")]);
    assert_eq!(labels_of(&doc.tags), vec![s("home")]);
}

#[test]
fn delete_tag_without_the_note_changes_nothing() {
    let doc = Data {
        notes: vec![note(1, "alpha", Vec::new())],
        tags: vec![tag(1, "idle", 0), tag(2, "work", 1)],
    };
    let doc = delete_tag(Ok(doc), s("work"), s("missing"));
    assert_eq!(titles_of(&doc), vec![s("alpha")]);
    assert_eq!(labels_of(&doc.tags), vec![s("idle"), s("work")]);
    assert_eq!(count_of(&doc, "work"), Some(1));
}

#[test]
fn delete_tag_that_the_note_lacks_does_not_count_down() {
    let doc = add_tag(empty(), s("work"), s("alpha"));
    let doc = add_tag(Ok(doc), s("home"), s("beta"));
    let doc = delete_tag(Ok(doc), s("work"), s("beta"));
    assert_eq!(count_of(&doc, "work"), Some(1));
    assert_eq!(count_of(&doc, "home"), Some(1));
    assert_eq!(titles_of(&doc), vec![s("alpha"), s("beta")]);
}

#[test]
fn delete_tag_never_counts_below_zero_and_prunes() {
    let doc = Data {
        notes: vec![
            note(1, "alpha", vec![tag(1, "work", 0), tag(2, "home", 1)]),
            note(2, "bare", Vec::new()),
        ],
        tags: vec![tag(1, "work", 0), tag(2, "home", 1), tag(3, "lost", -2)],
    };
    let doc = delete_tag(Ok(doc), s("work"), s("alpha"));
    assert_eq!(labels_of(&doc.tags), vec![s("home")]);
    assert_eq!(titles_of(&doc), vec![s("alpha")]);
    assert_eq!(labels_of(&doc.notes[0].tags), vec![s("home")]);
}

#[test]
fn delete_tag_on_unreadable_document_gives_the_empty_document() {
    let doc = delete_tag(Err(s("broken")), s("work"), s("alpha"));
    assert!(doc.notes.is_empty());
    assert!(doc.tags.is_empty());
}

#[test]
fn get_tags_is_empty_where_the_document_is_unreadable() {
    let loaded: Result<Data, String> = Err(s("no such file"));
    assert_eq!(get_tags(&loaded, s("alpha")), Vec::<String>::new());
}

#[test]
fn get_all_tags_hands_on_the_load_error() {
    let loaded: Result<Data, String> = Err(s("expected value at line 1 column 1"));
    assert_eq!(get_all_tags(&loaded), Err(s("expected value at line 1 column 1")));
}

#[test]
fn get_all_tags_lists_the_catalog_in_order() {
    let doc = add_tag(empty(), s("b"), s("one"));
    let doc = add_tag(Ok(doc), s("a"), s("one"));
    let doc = add_tag(Ok(doc), s("c"), s("two"));
    assert_eq!(get_all_tags(&Ok(doc)), Ok(vec![s("b"), s("a"), s("c")]));
}

#[test]
fn rename_note_tag_changes_the_title_only() {
    let doc = add_tag(empty(), s("work"), s("alpha"));
    let doc = rename_note_tag(Ok(doc), s("alpha"), s("beta")).expect("the note is there");
    assert_eq!(titles_of(&doc), vec![s("beta")]);
    assert_eq!(doc.notes[0].id, 1);
    assert_eq!(labels_of(&doc.notes[0].tags), vec![s("work")]);
    assert_eq!(count_of(&doc, "work"), Some(1));
    let loaded = Ok(doc);
    assert_eq!(get_tags(&loaded, s("beta")), vec![s("work")]);
    assert_eq!(get_tags(&loaded, s("alpha")), Vec::<String>::new());
}

#[test]
fn rename_note_tag_without_the_note_stores_nothing() {
    let doc = add_tag(empty(), s("work"), s("alpha"));
    assert!(rename_note_tag(Ok(doc), s("gamma"), s("beta")).is_none());
    assert!(rename_note_tag(Err(s("gone")), s("alpha"), s("beta")).is_none());
}

#[test]
fn open_document_is_lenient() {
    let doc = open_document(Err(s("gone")));
    assert!(doc.notes.is_empty() && doc.tags.is_empty());
    let doc = open_document(Ok(Data { notes: Vec::new(), tags: vec![tag(1, "work", 1)] }));
    assert_eq!(labels_of(&doc.tags), vec![s("work")]);
}

#[test]
fn tag_clone_keeps_every_field() {
    let first = tag(7, "work", 3);
    let copy = first.clone();
    assert_eq!(copy.id, 7);
    assert_eq!(copy.label, "work");
    assert_eq!(copy.use_count, 3);
}
