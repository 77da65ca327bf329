//! The tag index: one document that holds every tagged note and a catalog of
//! the tags in use, with a count of the notes that carry each.
//!
//! Each command is a function of what loading the stored document gave. The
//! commands that change the document return the document to store.

use vstd::prelude::*;
use crate::tag::{
    Tag, TagView, tag_views, texts, labels, carries, tag_position, without_label, in_use,
    is_first, lemma_first_found, lemma_first_place, find_tag, labels_of, strip_label,
    prune_unused,
};
use crate::note::{
    Note, NoteView, note_views, titles, note_position, tagged, find_note, prune_untagged,
};

verus! {

/// The whole index as it is stored.
#[derive(Debug)]
pub struct Data {
    pub notes: Vec<Note>,
    pub tags: Vec<Tag>,
}

/// The mathematical value of a [`Data`].
pub struct DataView {
    pub notes: Seq<NoteView>,
    pub tags: Seq<TagView>,
}

impl View for Data {
    type V = DataView;

    open spec fn view(&self) -> DataView {
        DataView { notes: note_views(self.notes@), tags: tag_views(self.tags@) }
    }
}

/// A note that has just been made for `title`, as the `count`-th-plus-one of
/// the document.
pub open spec fn fresh_note(count: nat, title: Seq<char>) -> NoteView {
    NoteView { id: (count + 1) as int, title, tags: Seq::empty(), sub_notes: Seq::empty() }
}

/// The notes, with a fresh one at the end if none has this title.
pub open spec fn with_note(notes: Seq<NoteView>, title: Seq<char>) -> Seq<NoteView> {
    if note_position(notes, title) is Some {
        notes
    } else {
        notes.push(fresh_note(notes.len(), title))
    }
}

/// The note with one more tag at the end of its list.
pub open spec fn attached(note: NoteView, tag: TagView) -> NoteView {
    NoteView { id: note.id, title: note.title, tags: note.tags.push(tag), sub_notes: note.sub_notes }
}

/// The note without the tags that have this label.
pub open spec fn detached(note: NoteView, label: Seq<char>) -> NoteView {
    NoteView {
        id: note.id,
        title: note.title,
        tags: without_label(note.tags, label),
        sub_notes: note.sub_notes,
    }
}

/// The note under another title.
pub open spec fn retitled(note: NoteView, title: Seq<char>) -> NoteView {
    NoteView { id: note.id, title, tags: note.tags, sub_notes: note.sub_notes }
}

/// The tag with its count changed by `step`.
pub open spec fn counted(tag: TagView, step: int) -> TagView {
    TagView { id: tag.id, label: tag.label, use_count: tag.use_count + step }
}

/// The catalog after one note has given up `label`: the first tag with that
/// label counts one less, unless its count is not positive.
pub open spec fn released(tags: Seq<TagView>, label: Seq<char>) -> Seq<TagView> {
    match tag_position(tags, label) {
        Some(j) => if tags[j].use_count > 0 {
            tags.update(j, counted(tags[j], -1))
        } else {
            tags
        },
        None => tags,
    }
}

impl DataView {
    /// The document with no note and no tag.
    pub open spec fn empty() -> DataView {
        DataView { notes: Seq::empty(), tags: Seq::empty() }
    }

    /// The labels of the first note titled `title`, in order; none if there
    /// is no such note.
    pub open spec fn tags_of(self, title: Seq<char>) -> Seq<Seq<char>> {
        match note_position(self.notes, title) {
            Some(p) => labels(self.notes[p].tags),
            None => Seq::empty(),
        }
    }

    /// The labels of the catalog, in order.
    pub open spec fn all_labels(self) -> Seq<Seq<char>> {
        labels(self.tags)
    }

    /// The document after `label` has been added to the note titled `title`.
    ///
    /// A note is made for the title if there is none. Where the catalog has
    /// the label, the note gets a copy of the catalog's tag and the catalog
    /// counts one more, unless the note carries the label already; where it
    /// has not, a new tag with count one goes to the catalog and to the note.
    pub open spec fn with_tag(self, label: Seq<char>, title: Seq<char>) -> DataView {
        let notes = with_note(self.notes, title);
        let p = note_position(notes, title).unwrap();
        match tag_position(self.tags, label) {
            Some(j) => if carries(notes[p].tags, label) {
                DataView { notes, tags: self.tags }
            } else {
                let tag = counted(self.tags[j], 1);
                DataView {
                    notes: notes.update(p, attached(notes[p], tag)),
                    tags: self.tags.update(j, tag),
                }
            },
            None => {
                let tag = TagView { id: (self.tags.len() + 1) as int, label, use_count: 1 };
                DataView {
                    notes: notes.update(p, attached(notes[p], tag)),
                    tags: self.tags.push(tag),
                }
            },
        }
    }

    /// Whether the identifiers and the count that adding `label` to `title`
    /// would write fit the integers that store them.
    pub open spec fn has_room_for(self, label: Seq<char>, title: Seq<char>) -> bool {
        let notes = with_note(self.notes, title);
        let p = note_position(notes, title).unwrap();
        &&& note_position(self.notes, title) is None ==> self.notes.len() < u32::MAX
        &&& match tag_position(self.tags, label) {
            Some(j) => carries(notes[p].tags, label) || self.tags[j].use_count < i32::MAX,
            None => self.tags.len() < u32::MAX,
        }
    }

    /// The document after `label` has been taken from the note titled
    /// `title`.
    ///
    /// Without such a note the document stays as it is. Otherwise the first
    /// such note loses every tag with the label; if it carried one, the
    /// catalog's tag counts one less. Then the catalog keeps only the tags
    /// with a positive count, and the document only the notes with a tag.
    pub open spec fn without_tag(self, label: Seq<char>, title: Seq<char>) -> DataView {
        match note_position(self.notes, title) {
            Some(p) => {
                let tags = if carries(self.notes[p].tags, label) {
                    released(self.tags, label)
                } else {
                    self.tags
                };
                DataView {
                    notes: tagged(self.notes.update(p, detached(self.notes[p], label))),
                    tags: in_use(tags),
                }
            },
            None => self,
        }
    }

    /// The document after the first note titled `old_title` has been given
    /// the title `new_title`; the same document if there is no such note.
    pub open spec fn with_title(self, old_title: Seq<char>, new_title: Seq<char>) -> DataView {
        match note_position(self.notes, old_title) {
            Some(p) => DataView {
                notes: self.notes.update(p, retitled(self.notes[p], new_title)),
                tags: self.tags,
            },
            None => self,
        }
    }
}

/// The document that a command works on: the loaded one, or the empty one
/// where loading failed.
pub open spec fn document_of(loaded: Result<Data, String>) -> DataView {
    match loaded {
        Ok(data) => data@,
        Err(_) => DataView::empty(),
    }
}

/// Gives the loaded document, or an empty one where loading failed.
pub fn open_document(loaded: Result<Data, String>) -> (data: Data)
    ensures
        data@ == document_of(loaded),
{
    match loaded {
        Ok(data) => data,
        Err(_) => {
            let data = Data { notes: Vec::new(), tags: Vec::new() };
            assert(data@.notes =~= Seq::<NoteView>::empty());
            assert(data@.tags =~= Seq::<TagView>::empty());
            data
        },
    }
}

/// The labels of the note titled `note_title`, in the order in which they
/// were attached. There are none where no note has the title, and none where
/// the document could not be loaded.
pub fn get_tags(loaded: &Result<Data, String>, note_title: String) -> (found: Vec<String>)
    ensures
        texts(found@) == document_of(*loaded).tags_of(note_title@),
{
    match loaded {
        Ok(data) => match find_note(&data.notes, &note_title) {
            Some(p) => labels_of(&data.notes[p].tags),
            None => {
                let found: Vec<String> = Vec::new();
                assert(texts(found@) =~= Seq::<Seq<char>>::empty());
                found
            },
        },
        Err(_) => {
            let found: Vec<String> = Vec::new();
            proof {
                assert(texts(found@) =~= Seq::<Seq<char>>::empty());
                assert(titles(DataView::empty().notes) =~= Seq::<Seq<char>>::empty());
                lemma_first_place(titles(DataView::empty().notes), note_title@);
            }
            found
        },
    }
}

/// Every label of the catalog, in order; the load error where the document
/// could not be loaded.
pub fn get_all_tags(loaded: &Result<Data, String>) -> (found: Result<Vec<String>, String>)
    ensures
        match *loaded {
            Ok(data) => found matches Ok(all) && texts(all@) == data@.all_labels(),
            Err(error) => found matches Err(e) && e@ == error@,
        },
{
    match loaded {
        Ok(data) => Ok(labels_of(&data.tags)),
        Err(error) => Err(error.clone()),
    }
}

/// A list of notes that gains a fresh note for a title it lacks has that
/// note, at its end, as the first with the title.
pub proof fn lemma_with_note(notes: Seq<NoteView>, title: Seq<char>)
    ensures
        match note_position(notes, title) {
            Some(p) => with_note(notes, title) == notes && 0 <= p < notes.len(),
            None => note_position(with_note(notes, title), title) == Some(notes.len() as int),
        },
{
    lemma_first_place(titles(notes), title);
    if note_position(notes, title) is None {
        let grown = notes.push(fresh_note(notes.len(), title));
        assert(titles(grown) =~= titles(notes).push(title));
        assert(is_first(titles(grown), title, notes.len() as int));
        lemma_first_found(titles(grown), title, notes.len() as int);
    }
}

/// Whether [`add_tag`] may be called with these arguments: whether the
/// identifiers and the count that it would write fit their integers.
pub fn can_add_tag(loaded: &Result<Data, String>, tag_label: &String, note_title: &String) -> (fits:
    bool)
    ensures
        fits == document_of(*loaded).has_room_for(tag_label@, note_title@),
{
    proof {
        lemma_with_note(document_of(*loaded).notes, note_title@);
        lemma_first_place(labels(document_of(*loaded).tags), tag_label@);
    }
    match loaded {
        Ok(data) => {
            let place = find_note(&data.notes, note_title);
            let carried = match place {
                Some(p) => find_tag(&data.notes[p].tags, tag_label).is_some(),
                None => false,
            };
            proof {
                lemma_carries(note_views(data.notes@), note_title@, tag_label@);
            }
            let note_fits = place.is_some() || data.notes.len() < u32::MAX as usize;
            let tag_fits = match find_tag(&data.tags, tag_label) {
                Some(j) => carried || data.tags[j].use_count < i32::MAX,
                None => data.tags.len() < u32::MAX as usize,
            };
            note_fits && tag_fits
        },
        Err(_) => {
            proof {
                assert(titles(DataView::empty().notes) =~= Seq::<Seq<char>>::empty());
                assert(labels(DataView::empty().tags) =~= Seq::<Seq<char>>::empty());
            }
            true
        },
    }
}

/// Whether the note that a label would go to carries it already, said of the
/// notes before a fresh note is made.
proof fn lemma_carries(notes: Seq<NoteView>, title: Seq<char>, label: Seq<char>)
    ensures
        ({
            let grown = with_note(notes, title);
            carries(grown[note_position(grown, title).unwrap()].tags, label)
        }) == match note_position(notes, title) {
            Some(p) => tag_position(notes[p].tags, label) is Some,
            None => false,
        },
{
    lemma_with_note(notes, title);
    match note_position(notes, title) {
        Some(p) => {
            lemma_first_place(labels(notes[p].tags), label);
        },
        None => {
            assert(labels(fresh_note(notes.len(), title).tags) =~= Seq::<Seq<char>>::empty());
        },
    }
}

/// Adds `tag_label` to the note titled `note_title` and returns the document
/// to store.
///
/// A document that could not be loaded counts as empty. A note is made for
/// the title if there is none. A label that the note carries already, and
/// that the catalog has, changes nothing.
pub fn add_tag(loaded: Result<Data, String>, tag_label: String, note_title: String) -> (saved: Data)
    requires
        document_of(loaded).has_room_for(tag_label@, note_title@),
    ensures
        saved@ == document_of(loaded).with_tag(tag_label@, note_title@),
{
    let mut data = open_document(loaded);
    let ghost before = data@;
    proof {
        lemma_with_note(before.notes, note_title@);
        lemma_first_place(labels(before.tags), tag_label@);
    }
    let p: usize = match find_note(&data.notes, &note_title) {
        Some(p) => p,
        None => {
            let id: u32 = data.notes.len() as u32 + 1;
            let note = Note {
                id,
                title: note_title.clone(),
                tags: Vec::new(),
                sub_notes: Vec::new(),
            };
            assert(note@.tags =~= Seq::<TagView>::empty());
            assert(note@ == fresh_note(before.notes.len(), note_title@));
            data.notes.push(note);
            assert(note_views(data.notes@) =~= before.notes.push(note@));
            data.notes.len() - 1
        },
    };
    let ghost notes = with_note(before.notes, note_title@);
    assert(note_views(data.notes@) =~~= notes);
    assert(data@.tags == before.tags);
    match find_tag(&data.tags, &tag_label) {
        Some(j) => {
            if find_tag(&data.notes[p].tags, &tag_label).is_none() {
                proof {
                    lemma_first_place(labels(notes[p as int].tags), tag_label@);
                }
                data.tags[j].use_count += 1;
                let copy = data.tags[j].clone();
                data.notes[p].tags.push(copy);
                proof {
                    let tag = counted(before.tags[j as int], 1);
                    assert(data@.tags =~= before.tags.update(j as int, tag));
                    assert(data@.notes[p as int].tags =~= notes[p as int].tags.push(tag));
                    assert(data@.notes =~= notes.update(p as int, attached(notes[p as int], tag)));
                }
            } else {
                proof {
                    lemma_first_place(labels(notes[p as int].tags), tag_label@);
                }
            }
        },
        None => {
            let id: u32 = data.tags.len() as u32 + 1;
            let tag = Tag { id, label: tag_label, use_count: 1 };
            data.tags.push(tag.clone());
            data.notes[p].tags.push(tag);
            proof {
                let made = TagView { id: (before.tags.len() + 1) as int, label: tag_label@, use_count: 1 };
                assert(data@.tags =~= before.tags.push(made));
                assert(data@.notes[p as int].tags =~= notes[p as int].tags.push(made));
                assert(data@.notes =~= notes.update(p as int, attached(notes[p as int], made)));
            }
        },
    }
    data
}

/// Takes `tag_label` from the note titled `note_title` and returns the
/// document to store.
///
/// A document that could not be loaded counts as empty, and a document
/// without such a note is returned as it is. Otherwise the note loses the
/// label, the catalog counts one less for it if the note carried it, and
/// tags without a positive count and notes without a tag leave the document.
pub fn delete_tag(loaded: Result<Data, String>, tag_label: String, note_title: String) -> (saved:
    Data)
    ensures
        saved@ == document_of(loaded).without_tag(tag_label@, note_title@),
{
    let mut data = open_document(loaded);
    let ghost before = data@;
    match find_note(&data.notes, &note_title) {
        Some(p) => {
            let carried = find_tag(&data.notes[p].tags, &tag_label).is_some();
            proof {
                lemma_first_place(labels(before.notes[p as int].tags), tag_label@);
                lemma_first_place(labels(before.tags), tag_label@);
            }
            let mut held: Vec<Tag> = Vec::new();
            std::mem::swap(&mut held, &mut data.notes[p].tags);
            data.notes[p].tags = strip_label(held, &tag_label);
            if carried {
                match find_tag(&data.tags, &tag_label) {
                    Some(j) => {
                        if data.tags[j].use_count > 0 {
                            data.tags[j].use_count -= 1;
                            assert(data@.tags =~= before.tags.update(
                                j as int,
                                counted(before.tags[j as int], -1),
                            ));
                        }
                    },
                    None => {},
                }
            }
            assert(data@.notes =~= before.notes.update(
                p as int,
                detached(before.notes[p as int], tag_label@),
            ));
            let Data { notes, tags } = data;
            Data { notes: prune_untagged(notes), tags: prune_unused(tags) }
        },
        None => data,
    }
}

/// Gives the first note titled `old_word` the title `new_word`. Returns the
/// document to store, or nothing where no note has the title: then nothing
/// is to be stored.
///
/// A document that could not be loaded counts as empty. The catalog stays as
/// it is: it counts the notes that carry a tag and does not name them.
pub fn rename_note_tag(loaded: Result<Data, String>, old_word: String, new_word: String) -> (saved:
    Option<Data>)
    ensures
        match saved {
            Some(data) => note_position(document_of(loaded).notes, old_word@) is Some && data@
                == document_of(loaded).with_title(old_word@, new_word@),
            None => note_position(document_of(loaded).notes, old_word@) is None,
        },
{
    let mut data = open_document(loaded);
    let ghost before = data@;
    match find_note(&data.notes, &old_word) {
        Some(p) => {
            data.notes[p].title = new_word;
            assert(data@.notes =~= before.notes.update(
                p as int,
                retitled(before.notes[p as int], new_word@),
            ));
            Some(data)
        },
        None => None,
    }
}

} // verus!
