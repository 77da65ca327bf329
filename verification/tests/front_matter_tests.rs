use ram_notes::front_matter::{
    join_front_matter, load_note_with_tags, save_note_with_tags, split_front_matter,
};
use ram_notes::store::FileOp;

fn s(text: &str) -> String {
    text.to_string()
}

fn parts(front: &str, body: &str) -> Option<(String, String)> {
    Some((s(front), s(body)))
}

#[test]
fn split_finds_the_block_between_two_fences() {
    assert_eq!(
        split_front_matter("---\ntags:\n- a\n- b\n---\n\nHello\n"),
        parts("\ntags:\n- a\n- b\n", "Hello\n")
    );
}

#[test]
fn split_without_two_fences_finds_none() {
    assert_eq!(split_front_matter("just text"), None);
    assert_eq!(split_front_matter(""), None);
    assert_eq!(split_front_matter("---\ntags: []\n"), None);
    assert_eq!(split_front_matter("-----"), None);
    assert_eq!(split_front_matter("--"), None);
    assert_eq!(split_front_matter("---"), None);
}

#[test]
fn split_wants_the_first_fence_at_the_start() {
    assert_eq!(split_front_matter("abc---x---y"), None);
    assert_eq!(split_front_matter(" ---x---y"), None);
    assert_eq!(split_front_matter("---x---y"), parts("x", "y"));
}

#[test]
fn split_takes_fences_that_do_not_overlap() {
    assert_eq!(split_front_matter("------"), parts("", ""));
    assert_eq!(split_front_matter("----a---b"), parts("-a", "b"));
    assert_eq!(split_front_matter("---a---b---c"), parts("a", "b---c"));
}

#[test]
fn split_trims_white_space_before_the_body_only() {
    assert_eq!(
        split_front_matter("--- x ---\n\t \u{2003}\u{a0}body \n"),
        parts(" x ", "body \n")
    );
    assert_eq!(split_front_matter("------\u{200b} body"), parts("", "\u{200b} body"));
    assert_eq!(split_front_matter("------ \n "), parts("", ""));
}

#[test]
fn split_counts_characters_not_bytes() {
    assert_eq!(split_front_matter("---\u{e9}\u{fc}---\u{3000}\u{df}"), parts("\u{e9}\u{fc}", "\u{df}"));
}

#[test]
fn join_puts_fences_round_the_front_matter() {
    assert_eq!(join_front_matter("tags:\n- a\n", "Hello"), "---\ntags:\n- a\n---\n\nHello");
    assert_eq!(join_front_matter("", ""), "---\n---\n\n");
}

#[test]
fn joined_text_splits_into_its_parts() {
    let text = join_front_matter("tags:\n- a\n", "Hello\n");
    assert_eq!(split_front_matter(&text), parts("\ntags:\n- a\n", "Hello\n"));
}

#[test]
fn load_gives_the_tags_that_were_read() {
    let block = Some((Ok(Some(vec![s("a"), s("b")])), s("body")));
    assert_eq!(load_note_with_tags(s("---x---body"), block), (vec![s("a"), s("b")], s("body")));
}

#[test]
fn load_without_tags_in_the_block_gives_none() {
    let block = Some((Ok(None), s("body")));
    assert_eq!(load_note_with_tags(s("---x---body"), block), (Vec::<String>::new(), s("body")));
}

#[test]
fn load_with_unreadable_block_is_all_body() {
    let block = Some((Err(s("did not find expected key")), s("body")));
    assert_eq!(
        load_note_with_tags(s("---: :---body"), block),
        (Vec::<String>::new(), s("---: :---body"))
    );
}

#[test]
fn load_without_block_is_all_body() {
    assert_eq!(load_note_with_tags(s("plain"), None), (Vec::<String>::new(), s("plain")));
}

#[test]
fn save_with_tags_writes_block_and_body() {
    match save_note_with_tags(s("alpha"), Ok(s("tags:\n- a\n")), s("Hello")) {
        Ok(FileOp::Write { file, content }) => {
            assert_eq!(file, "alpha.md");
            assert_eq!(content, "---\ntags:\n- a\n---\n\nHello");
        },
        other => panic!("unexpected plan {:?}", other),
    }
}

#[test]
fn save_with_tags_hands_on_the_error() {
    match save_note_with_tags(s("alpha"), Err(s("cannot serialize")), s("Hello")) {
        Err(message) => assert_eq!(message, "cannot serialize"),
        Ok(op) => panic!("unexpected plan {:?}", op),
    }
}
