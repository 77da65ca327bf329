//! What holds of the tag index whatever is done with it: the documents that
//! the commands make from a consistent document are consistent, and adding
//! and taking tags undo each other.

use vstd::prelude::*;
use crate::tag::{
    TagView, labels, carries, tag_position, is_first, lemma_first_found, lemma_first_place,
};
use crate::note::{NoteView, titles, note_position, tagged};
use crate::index::{
    DataView, fresh_note, with_note, attached, detached, retitled, counted, released,
    lemma_with_note,
};
use crate::counting::{
    carried, carriers, usage, lemma_carries_push, lemma_carries_without, lemma_carriers_push,
    lemma_carriers_update, lemma_carriers_zero, lemma_carriers_tagged, lemma_usage_update,
    lemma_usage_push, lemma_usage_in_use, lemma_filter_keeps_distinct, lemma_filter_keeps_first,
    lemma_filter_drops_key,
};

verus! {

/// The catalog and the notes agree: every label stands once in the catalog,
/// with a positive count that is the number of notes carrying it; a label
/// that the catalog lacks is carried by no note; and every note has a tag.
pub open spec fn consistent(d: DataView) -> bool {
    &&& labels(d.tags).no_duplicates()
    &&& forall|j: int| 0 <= j < d.tags.len() ==> (#[trigger] d.tags[j]).use_count > 0
    &&& forall|i: int| 0 <= i < d.notes.len() ==> (#[trigger] d.notes[i]).tags.len() > 0
    &&& forall|label: Seq<char>| #[trigger] usage(d.tags, label) == carriers(d.notes, label)
}

/// No two notes have the same title.
pub open spec fn titles_distinct(d: DataView) -> bool {
    titles(d.notes).no_duplicates()
}

/// A fresh note changes no count.
proof fn lemma_carriers_with_note(notes: Seq<NoteView>, title: Seq<char>, label: Seq<char>)
    ensures
        carriers(with_note(notes, title), label) == carriers(notes, label),
{
    if note_position(notes, title) is None {
        let fresh = fresh_note(notes.len(), title);
        lemma_carriers_push(notes, fresh, label);
        assert(labels(fresh.tags) =~= Seq::<Seq<char>>::empty());
    }
}

/// What [`DataView::with_tag`] does to the notes and to the count of the
/// label, whatever the document.
pub proof fn lemma_with_tag_effect(d: DataView, label: Seq<char>, title: Seq<char>) -> (p: int)
    ensures
        ({
            let notes = with_note(d.notes, title);
            let after = d.with_tag(label, title);
            &&& 0 <= p < notes.len()
            &&& after.notes.len() == notes.len()
            &&& titles(after.notes) == titles(notes)
            &&& note_position(notes, title) == Some(p)
            &&& note_position(after.notes, title) == Some(p)
            &&& carries(after.notes[p].tags, label)
            &&& after.notes[p].tags.len() > 0
            &&& forall|i: int| 0 <= i < notes.len() && i != p ==> after.notes[i] == notes[i]
            &&& tag_position(after.tags, label) is Some
            &&& carriers(after.notes, label) == carriers(d.notes, label) + 1 - carried(
                notes[p],
                label,
            )
        }),
{
    let notes = with_note(d.notes, title);
    let after = d.with_tag(label, title);
    lemma_with_note(d.notes, title);
    lemma_first_place(titles(notes), title);
    lemma_first_place(labels(d.tags), label);
    lemma_carriers_with_note(d.notes, title, label);
    let p = note_position(notes, title).unwrap();
    match tag_position(d.tags, label) {
        Some(j) => {
            if carries(notes[p].tags, label) {
                assert(labels(notes[p].tags).len() > 0);
            } else {
                let tag = counted(d.tags[j], 1);
                assert(labels(d.tags)[j] == label);
                lemma_usage_update(d.tags, j, tag, label);
                lemma_carries_push(notes[p].tags, tag, label);
                lemma_carriers_update(notes, p, attached(notes[p], tag), label);
                assert(titles(after.notes) =~= titles(notes));
            }
        },
        None => {
            let tag = TagView { id: (d.tags.len() + 1) as int, label, use_count: 1 };
            lemma_usage_push(d.tags, tag, label);
            lemma_first_place(labels(after.tags), label);
            lemma_carries_push(notes[p].tags, tag, label);
            lemma_carriers_update(notes, p, attached(notes[p], tag), label);
            assert(titles(after.notes) =~= titles(notes));
        },
    }
    p
}

/// What [`DataView::without_tag`] does to the number of notes that carry the
/// label, where it finds the note.
pub proof fn lemma_without_tag_effect(d: DataView, label: Seq<char>, title: Seq<char>)
    requires
        note_position(d.notes, title) is Some,
    ensures
        carriers(d.without_tag(label, title).notes, label) == carriers(d.notes, label) - carried(
            d.notes[note_position(d.notes, title).unwrap()],
            label,
        ),
{
    lemma_first_place(titles(d.notes), title);
    let p = note_position(d.notes, title).unwrap();
    let changed = d.notes.update(p, detached(d.notes[p], label));
    lemma_carriers_tagged(changed, label);
    lemma_carriers_update(d.notes, p, detached(d.notes[p], label), label);
    lemma_carries_without(d.notes[p].tags, label, label);
}

/// The empty document is consistent, and its titles are distinct.
pub proof fn law_empty_is_consistent()
    ensures
        consistent(DataView::empty()),
        titles_distinct(DataView::empty()),
{
    let d = DataView::empty();
    assert(labels(d.tags) =~= Seq::<Seq<char>>::empty());
    assert(titles(d.notes) =~= Seq::<Seq<char>>::empty());
    assert forall|label: Seq<char>| #[trigger] usage(d.tags, label) == carriers(d.notes, label) by {
        lemma_first_place(labels(d.tags), label);
    }
}

/// Adding a tag to a note of a consistent document gives a consistent
/// document.
pub proof fn law_adding_keeps_consistent(d: DataView, label: Seq<char>, title: Seq<char>)
    requires
        consistent(d),
    ensures
        consistent(d.with_tag(label, title)),
{
    let notes = with_note(d.notes, title);
    let after = d.with_tag(label, title);
    let p = lemma_with_tag_effect(d, label, title);
    lemma_with_note(d.notes, title);
    lemma_first_place(labels(d.tags), label);
    assert forall|i: int| 0 <= i < after.notes.len() implies (#[trigger] after.notes[i]).tags.len()
        > 0 by {
        if i != p {
            assert(after.notes[i] == notes[i]);
            assert(notes[i] == d.notes[i]);
        }
    }
    match tag_position(d.tags, label) {
        Some(j) => {
            if carries(notes[p].tags, label) {
                assert(labels(notes[p].tags).len() > 0);
                assert(notes == d.notes);
            } else {
                let tag = counted(d.tags[j], 1);
                assert(labels(d.tags)[j] == label);
                lemma_usage_update(d.tags, j, tag, label);
                assert forall|l: Seq<char>| #[trigger]
                    usage(after.tags, l) == carriers(after.notes, l) by {
                    lemma_usage_update(d.tags, j, tag, l);
                    lemma_carriers_with_note(d.notes, title, l);
                    lemma_carriers_update(notes, p, attached(notes[p], tag), l);
                    lemma_carries_push(notes[p].tags, tag, l);
                    lemma_first_place(labels(d.tags), l);
                    assert(usage(d.tags, l) == carriers(d.notes, l));
                }
            }
        },
        None => {
            let tag = TagView { id: (d.tags.len() + 1) as int, label, use_count: 1 };
            lemma_usage_push(d.tags, tag, label);
            assert forall|l: Seq<char>| #[trigger]
                usage(after.tags, l) == carriers(after.notes, l) by {
                lemma_usage_push(d.tags, tag, l);
                lemma_carriers_with_note(d.notes, title, l);
                lemma_carriers_update(notes, p, attached(notes[p], tag), l);
                lemma_carries_push(notes[p].tags, tag, l);
                assert(usage(d.tags, l) == carriers(d.notes, l));
                if l == label {
                    assert(usage(d.tags, label) == 0);
                    lemma_carriers_zero(notes, label);
                }
            }
        },
    }
}

/// Adding a tag leaves the titles distinct.
pub proof fn law_adding_keeps_titles_distinct(d: DataView, label: Seq<char>, title: Seq<char>)
    requires
        titles_distinct(d),
    ensures
        titles_distinct(d.with_tag(label, title)),
{
    let p = lemma_with_tag_effect(d, label, title);
    lemma_with_note(d.notes, title);
    lemma_first_place(titles(d.notes), title);
    if note_position(d.notes, title) is None {
        assert(titles(with_note(d.notes, title)) =~= titles(d.notes).push(title));
    }
}

/// Taking a tag from a note of a consistent document gives a consistent
/// document.
pub proof fn law_taking_keeps_consistent(d: DataView, label: Seq<char>, title: Seq<char>)
    requires
        consistent(d),
    ensures
        consistent(d.without_tag(label, title)),
{
    lemma_first_place(titles(d.notes), title);
    lemma_first_place(labels(d.tags), label);
    if let Some(p) = note_position(d.notes, title) {
        let after = d.without_tag(label, title);
        let note = detached(d.notes[p], label);
        let changed = d.notes.update(p, note);
        let had = carries(d.notes[p].tags, label);
        let tags = if had {
            released(d.tags, label)
        } else {
            d.tags
        };
        if had {
            lemma_carriers_zero(d.notes, label);
            assert(usage(d.tags, label) == carriers(d.notes, label));
        }
        assert(labels(tags) == labels(d.tags)) by {
            if had {
                let j = tag_position(d.tags, label).unwrap();
                lemma_usage_update(d.tags, j, counted(d.tags[j], -1), label);
            }
        }
        lemma_usage_in_use(tags, label);
        assert forall|i: int| 0 <= i < after.notes.len() implies (#[trigger] after.notes[i]).tags.len()
            > 0 by {
            changed.lemma_filter_pred(|n: NoteView| n.tags.len() > 0, i);
        }
        assert forall|l: Seq<char>| #[trigger]
            usage(after.tags, l) == carriers(after.notes, l) by {
            lemma_usage_in_use(tags, l);
            lemma_carriers_tagged(changed, l);
            lemma_carriers_update(d.notes, p, note, l);
            lemma_carries_without(d.notes[p].tags, label, l);
            lemma_first_place(labels(d.tags), l);
            assert(usage(d.tags, l) == carriers(d.notes, l));
            if had {
                let j = tag_position(d.tags, label).unwrap();
                lemma_usage_update(d.tags, j, counted(d.tags[j], -1), l);
            }
        }
    }
}

/// Taking a tag leaves the titles distinct.
pub proof fn law_taking_keeps_titles_distinct(d: DataView, label: Seq<char>, title: Seq<char>)
    requires
        titles_distinct(d),
    ensures
        titles_distinct(d.without_tag(label, title)),
{
    lemma_first_place(titles(d.notes), title);
    if let Some(p) = note_position(d.notes, title) {
        let changed = d.notes.update(p, detached(d.notes[p], label));
        assert(titles(changed) =~= titles(d.notes));
        lemma_filter_keeps_distinct(
            changed,
            |n: NoteView| n.tags.len() > 0,
            |n: NoteView| n.title,
        );
    }
}

/// Giving a note another title leaves a consistent document consistent; the
/// titles stay distinct if no note has the new title yet.
pub proof fn law_retitling_keeps_consistent(
    d: DataView,
    old_title: Seq<char>,
    new_title: Seq<char>,
)
    requires
        consistent(d),
    ensures
        consistent(d.with_title(old_title, new_title)),
        titles_distinct(d) && !titles(d.notes).contains(new_title) ==> titles_distinct(
            d.with_title(old_title, new_title),
        ),
{
    lemma_first_place(titles(d.notes), old_title);
    if let Some(p) = note_position(d.notes, old_title) {
        let after = d.with_title(old_title, new_title);
        let note = retitled(d.notes[p], new_title);
        assert forall|l: Seq<char>| #[trigger]
            usage(after.tags, l) == carriers(after.notes, l) by {
            lemma_carriers_update(d.notes, p, note, l);
            assert(usage(d.tags, l) == carriers(d.notes, l));
        }
        assert(titles(after.notes) =~= titles(d.notes).update(p, new_title));
        if titles_distinct(d) && !titles(d.notes).contains(new_title) {
            assert forall|i: int, j: int|
                0 <= i < titles(after.notes).len() && 0 <= j < titles(after.notes).len() && i
                    != j implies titles(after.notes)[i] != titles(after.notes)[j] by {
                if i != p {
                    assert(titles(d.notes)[i] != new_title);
                }
                if j != p {
                    assert(titles(d.notes)[j] != new_title);
                }
            }
        }
    }
}

/// After a label has been added to a note, the note's labels hold it.
pub proof fn law_added_tag_is_listed(d: DataView, label: Seq<char>, title: Seq<char>)
    ensures
        d.with_tag(label, title).tags_of(title).contains(label),
{
    let p = lemma_with_tag_effect(d, label, title);
}

/// Adding the same label to the same note a second time changes nothing.
pub proof fn law_adding_twice_is_adding_once(d: DataView, label: Seq<char>, title: Seq<char>)
    ensures
        d.with_tag(label, title).with_tag(label, title) == d.with_tag(label, title),
{
    let p = lemma_with_tag_effect(d, label, title);
    let once = d.with_tag(label, title);
    lemma_with_note(once.notes, title);
}

/// A label that the catalog did not have is counted once after it has been
/// added to a note, and still once after it has been added to that note
/// again.
pub proof fn law_new_label_counts_once(d: DataView, label: Seq<char>, title: Seq<char>)
    requires
        !carries(d.tags, label),
    ensures
        usage(d.with_tag(label, title).tags, label) == 1,
        usage(d.with_tag(label, title).with_tag(label, title).tags, label) == 1,
{
    law_adding_twice_is_adding_once(d, label, title);
    lemma_first_place(labels(d.tags), label);
    let tag = TagView { id: (d.tags.len() + 1) as int, label, use_count: 1 };
    lemma_usage_push(d.tags, tag, label);
}

/// A label that is new to a consistent document and is added to two notes is
/// counted once after it has been taken from the first, and is gone from the
/// catalog after it has been taken from the second.
pub proof fn law_label_leaves_with_its_last_note(
    d: DataView,
    label: Seq<char>,
    first: Seq<char>,
    second: Seq<char>,
)
    requires
        consistent(d),
        !carries(d.tags, label),
        first != second,
    ensures
        ({
            let both = d.with_tag(label, first).with_tag(label, second);
            let one = both.without_tag(label, first);
            let none = one.without_tag(label, second);
            &&& carries(one.tags, label)
            &&& usage(one.tags, label) == 1
            &&& !none.all_labels().contains(label)
        }),
{
    let keep = |n: NoteView| n.tags.len() > 0;
    let once = d.with_tag(label, first);
    let both = once.with_tag(label, second);
    let one = both.without_tag(label, first);
    let none = one.without_tag(label, second);
    law_adding_keeps_consistent(d, label, first);
    law_adding_keeps_consistent(once, label, second);
    law_taking_keeps_consistent(both, label, first);
    law_taking_keeps_consistent(one, label, second);

    // No note of `d` carries the label.
    lemma_first_place(labels(d.tags), label);
    assert(usage(d.tags, label) == carriers(d.notes, label));
    lemma_carriers_zero(d.notes, label);

    // After the first step exactly the first note carries it.
    let grown_once = with_note(d.notes, first);
    let here = lemma_with_tag_effect(d, label, first);
    lemma_with_note(d.notes, first);
    assert(labels(fresh_note(d.notes.len(), first).tags) =~= Seq::<Seq<char>>::empty());
    assert(!carries(grown_once[here].tags, label));
    assert(carriers(once.notes, label) == 1);
    assert forall|i: int| 0 <= i < once.notes.len() && i != here implies !carries(
        once.notes[i].tags,
        label,
    ) by {
        assert(once.notes[i] == grown_once[i]);
        assert(grown_once[i] == d.notes[i]);
    }

    // The second step reaches another note, which then carries it too.
    let grown_twice = with_note(once.notes, second);
    let there = lemma_with_tag_effect(once, label, second);
    lemma_with_note(once.notes, second);
    lemma_first_place(titles(once.notes), first);
    lemma_first_place(titles(grown_twice), second);
    assert(titles(grown_twice)[here] == first) by {
        assert(grown_twice[here] == once.notes[here]);
        assert(titles(once.notes)[here] == first);
    }
    assert(here != there);
    assert(labels(fresh_note(once.notes.len(), second).tags) =~= Seq::<Seq<char>>::empty());
    assert(!carries(grown_twice[there].tags, label));
    assert(carriers(both.notes, label) == 2);

    // The first note is still the first with its title, and carries the label.
    assert(is_first(titles(both.notes), first, here)) by {
        assert forall|j: int| 0 <= j < here implies titles(both.notes)[j] != first by {
            assert(titles(grown_twice)[j] == titles(once.notes)[j]);
        }
    }
    lemma_first_found(titles(both.notes), first, here);
    assert(both.notes[here] == once.notes[here]);
    lemma_without_tag_effect(both, label, first);
    assert(carriers(one.notes, label) == 1);
    assert(usage(one.tags, label) == carriers(one.notes, label));
    lemma_first_place(labels(one.tags), label);

    // The second note stays in the document, first with its title.
    let changed = both.notes.update(here, detached(both.notes[here], label));
    assert(titles(changed) =~= titles(both.notes));
    lemma_first_place(titles(both.notes), second);
    assert(changed[there] == both.notes[there]);
    let k = lemma_filter_keeps_first(changed, keep, |n: NoteView| n.title, second, there);
    assert(titles(one.notes) =~= changed.filter(keep).map_values(|n: NoteView| n.title));
    lemma_first_found(titles(one.notes), second, k);
    lemma_without_tag_effect(one, label, second);
    assert(carriers(none.notes, label) == 0);
    assert(usage(none.tags, label) == carriers(none.notes, label));
    lemma_first_place(labels(none.tags), label);
}

/// Once a tag has been taken from a note that the document has, every note
/// of the document has a tag.
pub proof fn law_taking_leaves_no_untagged_note(d: DataView, label: Seq<char>, title: Seq<char>)
    requires
        note_position(d.notes, title) is Some,
    ensures
        forall|i: int|
            0 <= i < d.without_tag(label, title).notes.len() ==> (#[trigger] d.without_tag(
                label,
                title,
            ).notes[i]).tags.len() > 0,
{
    lemma_first_place(titles(d.notes), title);
    let p = note_position(d.notes, title).unwrap();
    let changed = d.notes.update(p, detached(d.notes[p], label));
    assert forall|i: int| 0 <= i < tagged(changed).len() implies (#[trigger] tagged(
        changed,
    )[i]).tags.len() > 0 by {
        changed.lemma_filter_pred(|n: NoteView| n.tags.len() > 0, i);
    }
}

/// A note whose every tag has the label leaves the document when the label
/// is taken from it: where titles are distinct, no note has its title then.
pub proof fn law_note_leaves_with_its_last_tag(d: DataView, label: Seq<char>, title: Seq<char>)
    requires
        titles_distinct(d),
        note_position(d.notes, title) is Some,
        forall|k: int|
            0 <= k < d.notes[note_position(d.notes, title).unwrap()].tags.len() ==> (
            #[trigger] d.notes[note_position(d.notes, title).unwrap()].tags[k]).label == label,
    ensures
        !titles(d.without_tag(label, title).notes).contains(title),
{
    lemma_first_place(titles(d.notes), title);
    let p = note_position(d.notes, title).unwrap();
    let note = detached(d.notes[p], label);
    let changed = d.notes.update(p, note);
    let keep_tag = |t: TagView| t.label != label;
    if note.tags.len() > 0 {
        d.notes[p].tags.lemma_filter_pred(keep_tag, 0);
        assert(note.tags.contains(note.tags[0]));
        d.notes[p].tags.lemma_filter_contains_rev(keep_tag, note.tags[0]);
    }
    assert forall|i: int| 0 <= i < changed.len() && (#[trigger] changed[i]).title == title implies !(
    changed[i].tags.len() > 0) by {
        if i != p {
            assert(titles(d.notes)[i] == title);
            assert(titles(d.notes)[p] == title);
        }
    }
    lemma_filter_drops_key(changed, |n: NoteView| n.tags.len() > 0, |n: NoteView| n.title, title);
    assert(titles(tagged(changed)) =~= changed.filter(|n: NoteView| n.tags.len() > 0).map_values(
        |n: NoteView| n.title,
    ));
}

} // verus!
