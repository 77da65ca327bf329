//! Notes as the index stores them.

use vstd::prelude::*;
use crate::tag::{Tag, TagView, tag_views, lemma_first_found, lemma_first_absent};

verus! {

/// A note of the index: its title is its key, its tags are copies of catalog
/// tags taken when each was attached.
#[derive(Debug)]
pub struct Note {
    pub id: u32,
    pub title: String,
    pub tags: Vec<Tag>,
    pub sub_notes: Vec<Note>,
}

/// The mathematical value of a [`Note`]. The nested notes are reserved: no
/// operation reads them, so the value carries them as they are.
pub struct NoteView {
    pub id: int,
    pub title: Seq<char>,
    pub tags: Seq<TagView>,
    pub sub_notes: Seq<Note>,
}

impl View for Note {
    type V = NoteView;

    open spec fn view(&self) -> NoteView {
        NoteView {
            id: self.id as int,
            title: self.title@,
            tags: tag_views(self.tags@),
            sub_notes: self.sub_notes@,
        }
    }
}

/// The values of a list of notes, in order.
pub open spec fn note_views(notes: Seq<Note>) -> Seq<NoteView> {
    notes.map_values(|n: Note| n@)
}

/// The titles of a list of notes, in order.
pub open spec fn titles(notes: Seq<NoteView>) -> Seq<Seq<char>> {
    notes.map_values(|n: NoteView| n.title)
}

/// Where the first note with this title stands, if there is one.
pub open spec fn note_position(notes: Seq<NoteView>, title: Seq<char>) -> Option<int> {
    titles(notes).index_of_first(title)
}

/// The notes of the list that have at least one tag.
pub open spec fn tagged(notes: Seq<NoteView>) -> Seq<NoteView> {
    notes.filter(|n: NoteView| n.tags.len() > 0)
}

/// Looks for the first note with this title.
pub fn find_note(notes: &Vec<Note>, title: &String) -> (found: Option<usize>)
    ensures
        match found {
            Some(i) => i < notes.len() && note_position(note_views(notes@), title@) == Some(
                i as int,
            ),
            None => note_position(note_views(notes@), title@) is None,
        },
{
    let ghost keys = titles(note_views(notes@));
    let mut i: usize = 0;
    while i < notes.len()
        invariant
            i <= notes.len(),
            keys == titles(note_views(notes@)),
            forall|j: int| 0 <= j < i ==> keys[j] != title@,
        decreases notes.len() - i,
    {
        if notes[i].title == *title {
            proof {
                lemma_first_found(keys, title@, i as int);
            }
            return Some(i);
        }
        i += 1;
    }
    proof {
        lemma_first_absent(keys, title@);
    }
    None
}

/// Keeps the notes that have at least one tag, in order.
pub fn prune_untagged(notes: Vec<Note>) -> (kept: Vec<Note>)
    ensures
        note_views(kept@) == tagged(note_views(notes@)),
{
    let ghost keep = |n: NoteView| n.tags.len() > 0;
    let mut kept: Vec<Note> = Vec::new();
    proof {
        reveal(Seq::filter);
        assert(note_views(notes@.take(0)) =~= Seq::<NoteView>::empty());
        assert(note_views(kept@) =~= Seq::<NoteView>::empty());
    }
    for note in it: notes
        invariant
            it.seq() == notes@,
            keep == (|n: NoteView| n.tags.len() > 0),
            note_views(kept@) == note_views(notes@.take(it.index() as int)).filter(keep),
    {
        proof {
            let i = it.index() as int;
            let before = note_views(notes@.take(i));
            assert(note_views(notes@.take(i + 1)) =~= before.push(note@));
            before.lemma_filter_push(note@, keep);
        }
        let ghost old_kept = kept@;
        if note.tags.len() > 0 {
            kept.push(note);
            assert(note_views(kept@) =~= note_views(old_kept).push(note@));
        }
    }
    assert(notes@.take(notes@.len() as int) == notes@);
    kept
}

} // verus!
