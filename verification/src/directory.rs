//! The directory of the note store as a map from file names to what the
//! files hold, and what the store's decisions come to when they are carried
//! out there.

use vstd::prelude::*;
use crate::store::{
    FileOpView, extension, file_name, title_of, listed, create_plan, write_plan, delete_plan,
    rename_plan,
};

verus! {

/// The directory after the change has been made in it.
pub open spec fn applied(op: FileOpView, dir: Map<Seq<char>, Seq<char>>) -> Map<
    Seq<char>,
    Seq<char>,
> {
    match op {
        FileOpView::Write { file, content } => dir.insert(file, content),
        FileOpView::Remove { file } => dir.remove(file),
        FileOpView::Rename { from, to } => dir.remove(from).insert(to, dir[from]),
    }
}

/// `names` are the names of the directory's files, each once, in some order.
pub open spec fn is_listing(names: Seq<Seq<char>>, dir: Map<Seq<char>, Seq<char>>) -> bool {
    &&& names.no_duplicates()
    &&& forall|name: Seq<char>| names.contains(name) <==> dir.contains_key(name)
}

/// How often the item stands in the list.
pub open spec fn occurrences(items: Seq<Seq<char>>, item: Seq<char>) -> nat
    decreases items.len(),
{
    if items.len() == 0 {
        0
    } else {
        occurrences(items.drop_last(), item) + if items.last() == item {
            1nat
        } else {
            0nat
        }
    }
}

/// A title that is not empty is the title of its file's name, and a name
/// gives a title only if it is the name of that title's file.
pub proof fn law_title_of_file_name(title: Seq<char>, name: Seq<char>)
    ensures
        title.len() > 0 ==> title_of(file_name(title)) == Some(title),
        title_of(name) == Some(title) ==> name == file_name(title) && title.len() > 0,
{
    let full = file_name(title);
    assert(full.subrange(full.len() - 3, full.len() as int) =~= extension());
    assert(full.subrange(0, full.len() - 3) =~= title);
    if title_of(name) == Some(title) {
        assert(name =~= name.subrange(0, name.len() - 3) + name.subrange(
            name.len() - 3,
            name.len() as int,
        ));
    }
}

/// An item stands once in a list without repetitions that holds it, and not
/// at all in a list that does not.
proof fn lemma_occurrences_distinct(items: Seq<Seq<char>>, item: Seq<char>)
    requires
        items.no_duplicates(),
    ensures
        occurrences(items, item) == if items.contains(item) {
            1nat
        } else {
            0nat
        },
    decreases items.len(),
{
    if items.len() > 0 {
        let rest = items.drop_last();
        lemma_occurrences_distinct(rest, item);
        if items.last() == item {
            if rest.contains(item) {
                let i = choose|i: int| 0 <= i < rest.len() && rest[i] == item;
                assert(items[i] == items[items.len() - 1]);
            }
            assert(items[items.len() - 1] == item);
        } else {
            if items.contains(item) {
                let i = choose|i: int| 0 <= i < items.len() && items[i] == item;
                assert(rest[i] == item);
            }
            if rest.contains(item) {
                let i = choose|i: int| 0 <= i < rest.len() && rest[i] == item;
                assert(items[i] == item);
            }
        }
    }
}

/// A title stands among the listed titles as often as its file's name stands
/// among the names.
proof fn lemma_occurrences_listed(names: Seq<Seq<char>>, title: Seq<char>)
    requires
        title.len() > 0,
    ensures
        occurrences(listed(names), title) == occurrences(names, file_name(title)),
    decreases names.len(),
{
    let pick = |name: Seq<char>| title_of(name);
    if names.len() > 0 {
        let rest = names.drop_last();
        let last = names.last();
        lemma_occurrences_listed(rest, title);
        law_title_of_file_name(title, last);
        match title_of(last) {
            Some(t) => {
                assert(listed(names) == listed(rest) + seq![t]);
                assert(listed(names).drop_last() =~= listed(rest));
                assert(listed(names).last() == t);
            },
            None => {
                assert(listed(names) =~= listed(rest));
            },
        }
    }
}

/// A title stands among the listed titles only if its file's name stands
/// among the names.
proof fn lemma_listed_contains(names: Seq<Seq<char>>, title: Seq<char>)
    requires
        listed(names).contains(title),
    ensures
        names.contains(file_name(title)),
    decreases names.len(),
{
    if names.len() > 0 {
        let rest = names.drop_last();
        let last = names.last();
        law_title_of_file_name(title, last);
        let i = choose|i: int| 0 <= i < listed(names).len() && listed(names)[i] == title;
        let here = match title_of(last) {
            Some(t) => {
                assert(listed(names) == listed(rest) + seq![t]);
                i == listed(rest).len()
            },
            None => {
                assert(listed(names) =~= listed(rest));
                false
            },
        };
        if here {
            assert(names[names.len() - 1] == file_name(title));
        } else {
            assert(listed(rest)[i] == title);
            lemma_listed_contains(rest, title);
            let k = choose|k: int| 0 <= k < rest.len() && rest[k] == file_name(title);
            assert(names[k] == file_name(title));
        }
    }
}

/// After a note has been created, a listing of the directory gives its title
/// exactly once. (A note with the empty title is created but never listed:
/// its file's name is the bare ending.)
pub proof fn law_created_note_is_listed_once(
    dir: Map<Seq<char>, Seq<char>>,
    title: Seq<char>,
    names: Seq<Seq<char>>,
)
    requires
        title.len() > 0,
        create_plan(title, dir.contains_key(file_name(title))) is Ok,
        is_listing(
            names,
            applied(create_plan(title, dir.contains_key(file_name(title)))->Ok_0, dir),
        ),
    ensures
        occurrences(listed(names), title) == 1,
{
    lemma_occurrences_listed(names, title);
    lemma_occurrences_distinct(names, file_name(title));
}

/// Deleting a note that does not exist asks for nothing; after a note that
/// exists has been deleted, no listing of the directory gives its title.
pub proof fn law_deleted_note_is_not_listed(
    dir: Map<Seq<char>, Seq<char>>,
    title: Seq<char>,
    names: Seq<Seq<char>>,
)
    ensures
        !dir.contains_key(file_name(title)) ==> delete_plan(title, false) is None,
        dir.contains_key(file_name(title)) ==> delete_plan(title, true) is Some && (is_listing(
            names,
            applied(delete_plan(title, true)->Some_0, dir),
        ) ==> !listed(names).contains(title)),
{
    if dir.contains_key(file_name(title)) && is_listing(
        names,
        applied(delete_plan(title, true)->Some_0, dir),
    ) && listed(names).contains(title) {
        lemma_listed_contains(names, title);
    }
}

/// Renaming a note to another title that is in use fails, and so asks for no
/// change in the directory.
pub proof fn law_rename_to_used_title_fails(
    old_title: Seq<char>,
    new_title: Seq<char>,
    old_exists: bool,
)
    requires
        old_title != new_title,
    ensures
        rename_plan(old_title, new_title, old_exists, true) is Err,
{
}

/// After a note has been renamed, the file of the new title holds what the
/// file of the old title held, and the old title has no file.
pub proof fn law_renamed_note_keeps_its_content(
    dir: Map<Seq<char>, Seq<char>>,
    old_title: Seq<char>,
    new_title: Seq<char>,
)
    requires
        old_title != new_title,
        dir.contains_key(file_name(old_title)),
        !dir.contains_key(file_name(new_title)),
    ensures
        rename_plan(old_title, new_title, true, false) matches Ok(Some(op)) && ({
            let after = applied(op, dir);
            &&& after.contains_key(file_name(new_title))
            &&& after[file_name(new_title)] == dir[file_name(old_title)]
            &&& !after.contains_key(file_name(old_title))
        }),
{
}

/// After a note has been written, its file holds exactly what was written,
/// whatever the directory held before.
pub proof fn law_written_note_is_read_back(
    dir: Map<Seq<char>, Seq<char>>,
    title: Seq<char>,
    body: Seq<char>,
)
    ensures
        applied(write_plan(title, body), dir).contains_key(file_name(title)),
        applied(write_plan(title, body), dir)[file_name(title)] == body,
{
}

} // verus!
