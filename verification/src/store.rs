//! The note store: one Markdown file per note in one flat directory, named by
//! the note's title.
//!
//! The store decides; it does not touch the disk. Each command takes what a
//! look at the directory gave and answers with the change to make there.

use vstd::prelude::*;
use vstd::string::StringExecFns;
use vstd::string::StrSliceExecFns;
use crate::tag::texts;

verus! {

/// The ending of a note's file name.
pub open spec fn extension() -> Seq<char> {
    seq!['.', 'm', 'd']
}

/// The name of the file that holds the note with this title.
pub open spec fn file_name(title: Seq<char>) -> Seq<char> {
    title + extension()
}

/// The title of the note that a file of this name holds: what stands before
/// the ending, for a name that has the ending and more than the ending.
pub open spec fn title_of(name: Seq<char>) -> Option<Seq<char>> {
    if name.len() > 3 && name.subrange(name.len() - 3, name.len() as int) == extension() {
        Some(name.subrange(0, name.len() - 3))
    } else {
        None
    }
}

/// The titles of the notes among the files of these names, in order.
pub open spec fn listed(names: Seq<Seq<char>>) -> Seq<Seq<char>> {
    names.filter_map(|name: Seq<char>| title_of(name))
}

/// A change to make in the directory.
#[derive(Debug)]
pub enum FileOp {
    /// Make the file, or replace what it holds.
    Write { file: String, content: String },
    /// Remove the file.
    Remove { file: String },
    /// Give the file another name.
    Rename { from: String, to: String },
}

/// The mathematical value of a [`FileOp`].
pub enum FileOpView {
    Write { file: Seq<char>, content: Seq<char> },
    Remove { file: Seq<char> },
    Rename { from: Seq<char>, to: Seq<char> },
}

impl View for FileOp {
    type V = FileOpView;

    open spec fn view(&self) -> FileOpView {
        match *self {
            FileOp::Write { file, content } => FileOpView::Write { file: file@, content: content@ },
            FileOp::Remove { file } => FileOpView::Remove { file: file@ },
            FileOp::Rename { from, to } => FileOpView::Rename { from: from@, to: to@ },
        }
    }
}

/// What creating a note asks for: an empty file, unless the file exists.
pub open spec fn create_plan(title: Seq<char>, exists: bool) -> Result<FileOpView, Seq<char>> {
    if exists {
        Err("This topic already exists"@)
    } else {
        Ok(FileOpView::Write { file: file_name(title), content: Seq::empty() })
    }
}

/// What writing a note asks for: the file with this content, whatever was
/// there.
pub open spec fn write_plan(title: Seq<char>, content: Seq<char>) -> FileOpView {
    FileOpView::Write { file: file_name(title), content }
}

/// What deleting a note asks for: removing the file if it exists, nothing
/// if it does not.
pub open spec fn delete_plan(title: Seq<char>, exists: bool) -> Option<FileOpView> {
    if exists {
        Some(FileOpView::Remove { file: file_name(title) })
    } else {
        None
    }
}

/// What renaming a note asks for: nothing where the two titles are the
/// same; else the file under its new name, if it exists and no file has
/// that name yet.
pub open spec fn rename_plan(
    old_title: Seq<char>,
    new_title: Seq<char>,
    old_exists: bool,
    new_exists: bool,
) -> Result<Option<FileOpView>, Seq<char>> {
    if old_title == new_title {
        Ok(None)
    } else if !old_exists {
        Err("Original note does not exist"@)
    } else if new_exists {
        Err("A note has already this name"@)
    } else {
        Ok(Some(FileOpView::Rename { from: file_name(old_title), to: file_name(new_title) }))
    }
}

/// The name of the file that holds the note titled `word`.
pub fn note_file_name(word: &String) -> (name: String)
    ensures
        name@ == file_name(word@),
{
    let mut name = word.clone();
    proof {
        reveal_strlit(".md");
    }
    name.append(".md");
    assert(".md"@ =~= extension());
    name
}

/// The title of the note that the file named `name` holds, if the name is
/// that of a note's file.
pub fn note_title(name: &String) -> (title: Option<String>)
    ensures
        match title {
            Some(t) => title_of(name@) == Some(t@),
            None => title_of(name@) is None,
        },
{
    let text = name.as_str();
    let n: usize = text.unicode_len();
    if n > 3 && text.get_char(n - 3) == '.' && text.get_char(n - 2) == 'm' && text.get_char(n - 1)
        == 'd' {
        assert(name@.subrange(n - 3, n as int) =~= extension());
        Some(text.substring_char(0, n - 3).to_owned())
    } else {
        proof {
            if n > 3 {
                let ending = name@.subrange(n - 3, n as int);
                assert(ending[0] == name@[n - 3]);
                assert(ending[1] == name@[n - 2]);
                assert(ending[2] == name@[n - 1]);
            }
        }
        None
    }
}

/// The titles of the notes in the directory, in the order of its entries:
/// each entry that is named as a note's file gives its title. Where the
/// directory could not be read, the error of that.
pub fn list_notes(read: &Result<Vec<String>, String>) -> (found: Result<Vec<String>, String>)
    ensures
        match *read {
            Ok(names) => found matches Ok(all) && texts(all@) == listed(texts(names@)),
            Err(error) => found matches Err(e) && e@ == error@,
        },
{
    match read {
        Ok(names) => {
            let ghost entries = texts(names@);
            let ghost pick = |name: Seq<char>| title_of(name);
            let mut all: Vec<String> = Vec::new();
            let mut i: usize = 0;
            assert(texts(all@) =~= entries.take(0).filter_map(pick));
            while i < names.len()
                invariant
                    i <= names.len(),
                    entries == texts(names@),
                    pick == (|name: Seq<char>| title_of(name)),
                    texts(all@) == entries.take(i as int).filter_map(pick),
                decreases names.len() - i,
            {
                proof {
                    entries.lemma_filter_map_take_succ(pick, i as int);
                }
                let ghost before = all@;
                match note_title(&names[i]) {
                    Some(title) => {
                        all.push(title);
                        assert(texts(all@) =~= texts(before).push(title@));
                    },
                    None => {},
                }
                i += 1;
            }
            assert(entries.take(names.len() as int) =~= entries);
            Ok(all)
        },
        Err(error) => Err(error.clone()),
    }
}

/// Decides on creating the note titled `word`, given whether its file
/// exists: an empty file is to be written, unless the note exists already.
pub fn create_note(word: String, exists: bool) -> (plan: Result<FileOp, String>)
    ensures
        match plan {
            Ok(op) => create_plan(word@, exists) == Ok::<FileOpView, Seq<char>>(op@),
            Err(e) => create_plan(word@, exists) == Err::<FileOpView, Seq<char>>(e@),
        },
{
    if exists {
        Err("This topic already exists".to_owned())
    } else {
        Ok(FileOp::Write { file: note_file_name(&word), content: String::new() })
    }
}

/// Decides on writing `content` as the whole note titled `topic`: its file
/// is to hold exactly that, whether it existed or not.
pub fn write_note(topic: String, content: String) -> (op: FileOp)
    ensures
        op@ == write_plan(topic@, content@),
{
    FileOp::Write { file: note_file_name(&topic), content }
}

/// Decides on saving `body` as the whole note titled `word`: as
/// [`write_note`] does.
pub fn save_note(word: String, body: String) -> (op: FileOp)
    ensures
        op@ == write_plan(word@, body@),
{
    write_note(word, body)
}

/// Decides on deleting the note titled `word`, given whether its file
/// exists: the file is to be removed if it does, and nothing is to be done
/// if it does not.
pub fn delete_note(word: String, exists: bool) -> (plan: Option<FileOp>)
    ensures
        match plan {
            Some(op) => delete_plan(word@, exists) == Some(op@),
            None => delete_plan(word@, exists) is None,
        },
{
    if exists {
        Some(FileOp::Remove { file: note_file_name(&word) })
    } else {
        None
    }
}

/// Decides on renaming the note titled `old_word` to `new_word`, given
/// whether the file of each exists.
///
/// Nothing is to be done where the two titles are the same. Else the note
/// must exist and the new title must be free; then the file is to be
/// renamed.
pub fn rename_note(old_word: String, new_word: String, old_exists: bool, new_exists: bool) -> (plan:
    Result<Option<FileOp>, String>)
    ensures
        match plan {
            Ok(Some(op)) => rename_plan(old_word@, new_word@, old_exists, new_exists)
                == Ok::<Option<FileOpView>, Seq<char>>(Some(op@)),
            Ok(None) => rename_plan(old_word@, new_word@, old_exists, new_exists)
                == Ok::<Option<FileOpView>, Seq<char>>(None),
            Err(e) => rename_plan(old_word@, new_word@, old_exists, new_exists)
                == Err::<Option<FileOpView>, Seq<char>>(e@),
        },
{
    if old_word == new_word {
        Ok(None)
    } else if !old_exists {
        Err("Original note does not exist".to_owned())
    } else if new_exists {
        Err("A note has already this name".to_owned())
    } else {
        Ok(Some(FileOp::Rename { from: note_file_name(&old_word), to: note_file_name(&new_word) }))
    }
}

} // verus!
