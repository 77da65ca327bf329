//! What the catalog's counts are meant to be: the number of notes that carry
//! each label, and how that number moves when the list of notes changes.

use vstd::prelude::*;
use crate::tag::{
    TagView, labels, carries, tag_position, without_label, in_use, is_first, lemma_first_found,
    lemma_first_place, lemma_first_absent,
};
use crate::note::{NoteView, tagged};

verus! {

/// One if the note carries the label, zero if not.
pub open spec fn carried(note: NoteView, label: Seq<char>) -> nat {
    if carries(note.tags, label) {
        1
    } else {
        0
    }
}

/// How many of the notes carry the label.
pub open spec fn carriers(notes: Seq<NoteView>, label: Seq<char>) -> nat
    decreases notes.len(),
{
    if notes.len() == 0 {
        0
    } else {
        carriers(notes.drop_last(), label) + carried(notes.last(), label)
    }
}

/// The count that the catalog keeps for the label: that of its first tag with
/// the label, zero if it has none.
pub open spec fn usage(tags: Seq<TagView>, label: Seq<char>) -> int {
    match tag_position(tags, label) {
        Some(j) => tags[j].use_count,
        None => 0,
    }
}

/// A list of tags with one more tag carries the labels it carried, and the
/// new tag's.
pub proof fn lemma_carries_push(tags: Seq<TagView>, tag: TagView, label: Seq<char>)
    ensures
        carries(tags.push(tag), label) <==> carries(tags, label) || tag.label == label,
{
    let grown = labels(tags.push(tag));
    assert(grown =~= labels(tags).push(tag.label));
    if carries(tags, label) {
        let i = choose|i: int| 0 <= i < labels(tags).len() && labels(tags)[i] == label;
        assert(grown[i] == label);
    }
    if tag.label == label {
        assert(grown[tags.len() as int] == label);
    }
}

/// A list of tags that has lost one label carries the others as before.
pub proof fn lemma_carries_without(tags: Seq<TagView>, lost: Seq<char>, label: Seq<char>)
    ensures
        carries(without_label(tags, lost), label) <==> label != lost && carries(tags, label),
{
    let keep = |t: TagView| t.label != lost;
    let kept = tags.filter(keep);
    if carries(kept, label) {
        let k = choose|k: int| 0 <= k < labels(kept).len() && labels(kept)[k] == label;
        tags.lemma_filter_pred(keep, k);
        assert(kept.contains(kept[k]));
        tags.lemma_filter_contains_rev(keep, kept[k]);
        let i = choose|i: int| 0 <= i < tags.len() && tags[i] == kept[k];
        assert(labels(tags)[i] == label);
    }
    if label != lost && carries(tags, label) {
        let i = choose|i: int| 0 <= i < labels(tags).len() && labels(tags)[i] == label;
        tags.lemma_filter_contains(keep, i);
        let k = choose|k: int| 0 <= k < kept.len() && kept[k] == tags[i];
        assert(labels(kept)[k] == label);
    }
}

/// A note with no tag carries no label.
pub proof fn lemma_untagged_carries_nothing(note: NoteView, label: Seq<char>)
    requires
        note.tags.len() == 0,
    ensures
        carried(note, label) == 0,
{
}

/// One more note counts for the labels it carries.
pub proof fn lemma_carriers_push(notes: Seq<NoteView>, note: NoteView, label: Seq<char>)
    ensures
        carriers(notes.push(note), label) == carriers(notes, label) + carried(note, label),
{
    assert(notes.push(note).drop_last() =~= notes);
}

/// A note that changes takes its old count out and brings its new one in.
pub proof fn lemma_carriers_update(notes: Seq<NoteView>, p: int, note: NoteView, label: Seq<char>)
    requires
        0 <= p < notes.len(),
    ensures
        carriers(notes.update(p, note), label) == carriers(notes, label) - carried(
            notes[p],
            label,
        ) + carried(note, label),
    decreases notes.len(),
{
    let changed = notes.update(p, note);
    if p == notes.len() - 1 {
        assert(changed.drop_last() =~= notes.drop_last());
    } else {
        assert(changed.drop_last() =~= notes.drop_last().update(p, note));
        lemma_carriers_update(notes.drop_last(), p, note, label);
    }
}

/// A label that no note is counted for is carried by none, and the other
/// way round.
pub proof fn lemma_carriers_zero(notes: Seq<NoteView>, label: Seq<char>)
    ensures
        carriers(notes, label) == 0 <==> forall|i: int|
            0 <= i < notes.len() ==> !carries(#[trigger] notes[i].tags, label),
    decreases notes.len(),
{
    if notes.len() > 0 {
        let rest = notes.drop_last();
        lemma_carriers_zero(rest, label);
        if carriers(notes, label) == 0 {
            assert forall|i: int| 0 <= i < notes.len() implies !carries(
                #[trigger] notes[i].tags,
                label,
            ) by {
                if i < rest.len() {
                    assert(rest[i] == notes[i]);
                }
            }
        } else {
            if carried(notes.last(), label) == 0 {
                let i = choose|i: int| 0 <= i < rest.len() && carries(#[trigger] rest[i].tags, label);
                assert(carries(notes[i].tags, label));
            }
        }
    }
}

/// Notes without a tag count for nothing: leaving them out changes no count.
pub proof fn lemma_carriers_tagged(notes: Seq<NoteView>, label: Seq<char>)
    ensures
        carriers(tagged(notes), label) == carriers(notes, label),
    decreases notes.len(),
{
    let keep = |n: NoteView| n.tags.len() > 0;
    if notes.len() == 0 {
        reveal(Seq::filter);
    } else {
        let rest = notes.drop_last();
        let last = notes.last();
        assert(rest.push(last) =~= notes);
        rest.lemma_filter_push(last, keep);
        lemma_carriers_tagged(rest, label);
        if keep(last) {
            lemma_carriers_push(tagged(rest), last, label);
        } else {
            lemma_untagged_carries_nothing(last, label);
        }
    }
}

/// Changing the count of a tag changes the usage of its label, if it is the
/// first tag with that label, and of no other label.
pub proof fn lemma_usage_update(tags: Seq<TagView>, j: int, tag: TagView, label: Seq<char>)
    requires
        0 <= j < tags.len(),
        tag.label == tags[j].label,
    ensures
        labels(tags.update(j, tag)) == labels(tags),
        tag_position(tags.update(j, tag), label) == tag_position(tags, label),
        usage(tags.update(j, tag), label) == if tag_position(tags, label) == Some(j) {
            tag.use_count
        } else {
            usage(tags, label)
        },
{
    assert(labels(tags.update(j, tag)) =~= labels(tags));
    lemma_first_place(labels(tags), label);
}

/// A tag with a label that the catalog lacks, put at its end, brings its own
/// count and leaves the other labels' usage alone.
pub proof fn lemma_usage_push(tags: Seq<TagView>, tag: TagView, label: Seq<char>)
    requires
        !carries(tags, tag.label),
    ensures
        labels(tags).no_duplicates() ==> labels(tags.push(tag)).no_duplicates(),
        usage(tags.push(tag), label) == if label == tag.label {
            tag.use_count
        } else {
            usage(tags, label)
        },
{
    let keys = labels(tags);
    let grown = labels(tags.push(tag));
    assert(grown =~= keys.push(tag.label));
    lemma_first_place(keys, label);
    lemma_first_place(keys, tag.label);
    if label == tag.label {
        assert(is_first(grown, label, tags.len() as int));
        lemma_first_found(grown, label, tags.len() as int);
    } else {
        match keys.index_of_first(label) {
            Some(i) => {
                assert(is_first(grown, label, i));
                lemma_first_found(grown, label, i);
            },
            None => {
                lemma_first_absent(grown, label);
            },
        }
    }
}

/// Where every label stands once, the usage of a label is the count of the
/// one tag that has it.
pub proof fn lemma_usage_at(tags: Seq<TagView>, j: int)
    requires
        0 <= j < tags.len(),
        labels(tags).no_duplicates(),
    ensures
        tag_position(tags, tags[j].label) == Some(j),
        usage(tags, tags[j].label) == tags[j].use_count,
{
    let keys = labels(tags);
    assert(keys[j] == tags[j].label);
    assert(is_first(keys, tags[j].label, j));
    lemma_first_found(keys, tags[j].label, j);
}

/// Leaving out the tags without a positive count keeps the labels distinct,
/// keeps the usage of a label whose count is positive, and makes that of
/// every other label zero.
pub proof fn lemma_usage_in_use(tags: Seq<TagView>, label: Seq<char>)
    requires
        labels(tags).no_duplicates(),
    ensures
        labels(in_use(tags)).no_duplicates(),
        forall|k: int| 0 <= k < in_use(tags).len() ==> (#[trigger] in_use(tags)[k]).use_count > 0,
        usage(in_use(tags), label) == if usage(tags, label) > 0 {
            usage(tags, label)
        } else {
            0
        },
{
    let keep = |t: TagView| t.use_count > 0;
    let kept = tags.filter(keep);
    lemma_filter_keeps_distinct(tags, keep, |t: TagView| t.label);
    assert forall|k: int| 0 <= k < kept.len() implies (#[trigger] kept[k]).use_count > 0 by {
        tags.lemma_filter_pred(keep, k);
    }
    lemma_first_place(labels(tags), label);
    let absent = match tag_position(tags, label) {
        Some(i) => tags[i].use_count <= 0,
        None => true,
    };
    if absent {
        assert forall|k: int| 0 <= k < labels(kept).len() implies labels(kept)[k] != label by {
            if labels(kept)[k] == label {
                tags.lemma_filter_pred(keep, k);
                assert(kept.contains(kept[k]));
                tags.lemma_filter_contains_rev(keep, kept[k]);
                let i = choose|i: int| 0 <= i < tags.len() && tags[i] == kept[k];
                assert(labels(tags)[i] == label);
            }
        }
        lemma_first_absent(labels(kept), label);
    } else {
        let i = tag_position(tags, label).unwrap();
        tags.lemma_filter_contains(keep, i);
        let k = choose|k: int| 0 <= k < kept.len() && kept[k] == tags[i];
        assert(labels(kept)[k] == label);
        lemma_usage_at(kept, k);
    }
}

/// Leaving items out of a list whose keys are distinct leaves the keys
/// distinct.
pub proof fn lemma_filter_keeps_distinct<A>(
    items: Seq<A>,
    keep: spec_fn(A) -> bool,
    key: spec_fn(A) -> Seq<char>,
)
    requires
        items.map_values(key).no_duplicates(),
    ensures
        items.filter(keep).map_values(key).no_duplicates(),
    decreases items.len(),
{
    if items.len() == 0 {
        reveal(Seq::filter);
    } else {
        let rest = items.drop_last();
        let last = items.last();
        assert(rest.push(last) =~= items);
        rest.lemma_filter_push(last, keep);
        assert forall|i: int, j: int|
            0 <= i < rest.len() && 0 <= j < rest.len() && i != j implies rest.map_values(key)[i]
            != rest.map_values(key)[j] by {
            assert(items.map_values(key)[i] == rest.map_values(key)[i]);
            assert(items.map_values(key)[j] == rest.map_values(key)[j]);
        }
        lemma_filter_keeps_distinct(rest, keep, key);
        if keep(last) {
            let kept = rest.filter(keep);
            let keys = kept.push(last).map_values(key);
            assert forall|i: int, j: int|
                0 <= i < keys.len() && 0 <= j < keys.len() && i != j implies keys[i] != keys[j] by {
                if i < kept.len() && j < kept.len() {
                    assert(kept.map_values(key)[i] != kept.map_values(key)[j]);
                } else {
                    let k = if i < kept.len() {
                        i
                    } else {
                        j
                    };
                    assert(kept.contains(kept[k]));
                    rest.lemma_filter_contains_rev(keep, kept[k]);
                    let m = choose|m: int| 0 <= m < rest.len() && rest[m] == kept[k];
                    assert(items.map_values(key)[m] == key(kept[k]));
                    assert(items.map_values(key)[items.len() - 1] == key(last));
                }
            }
        }
    }
}

/// The first item with a key is still the first with that key after items
/// have been left out, if it stays itself.
pub proof fn lemma_filter_keeps_first<A>(
    items: Seq<A>,
    keep: spec_fn(A) -> bool,
    key: spec_fn(A) -> Seq<char>,
    wanted: Seq<char>,
    q: int,
) -> (k: int)
    requires
        is_first(items.map_values(key), wanted, q),
        keep(items[q]),
    ensures
        is_first(items.filter(keep).map_values(key), wanted, k),
        items.filter(keep)[k] == items[q],
    decreases items.len(),
{
    let rest = items.drop_last();
    let last = items.last();
    assert(rest.push(last) =~= items);
    rest.lemma_filter_push(last, keep);
    let kept = rest.filter(keep);
    let all = items.filter(keep);
    assert(items.map_values(key)[q] == key(items[q]));
    if q == items.len() - 1 {
        assert(all == kept.push(last));
        let k = kept.len() as int;
        assert(all.map_values(key)[k] == key(last));
        assert forall|j: int| 0 <= j < k implies all.map_values(key)[j] != wanted by {
            assert(all[j] == kept[j]);
            assert(kept.contains(kept[j]));
            rest.lemma_filter_contains_rev(keep, kept[j]);
            let m = choose|m: int| 0 <= m < rest.len() && rest[m] == kept[j];
            assert(items.map_values(key)[m] == key(kept[j]));
        }
        k
    } else {
        assert forall|j: int| 0 <= j < q implies rest.map_values(key)[j] != wanted by {
            assert(items.map_values(key)[j] == rest.map_values(key)[j]);
        }
        assert(rest.map_values(key)[q] == key(rest[q]));
        assert(rest[q] == items[q]);
        let k = lemma_filter_keeps_first(rest, keep, key, wanted, q);
        assert(0 <= k < kept.len());
        assert(all[k] == kept[k]);
        assert(all.map_values(key)[k] == kept.map_values(key)[k]);
        assert forall|j: int| 0 <= j < k implies all.map_values(key)[j] != wanted by {
            assert(all[j] == kept[j]);
            assert(kept.map_values(key)[j] == key(kept[j]));
        }
        k
    }
}

/// No item with a key is left after leaving items out if none had the key
/// before, or the only ones that had it are left out.
pub proof fn lemma_filter_drops_key<A>(
    items: Seq<A>,
    keep: spec_fn(A) -> bool,
    key: spec_fn(A) -> Seq<char>,
    wanted: Seq<char>,
)
    requires
        forall|i: int| 0 <= i < items.len() && key(#[trigger] items[i]) == wanted ==> !keep(items[i]),
    ensures
        !items.filter(keep).map_values(key).contains(wanted),
{
    let kept = items.filter(keep);
    assert forall|k: int| 0 <= k < kept.map_values(key).len() implies kept.map_values(key)[k]
        != wanted by {
        items.lemma_filter_pred(keep, k);
        assert(kept.contains(kept[k]));
        items.lemma_filter_contains_rev(keep, kept[k]);
        let m = choose|m: int| 0 <= m < items.len() && items[m] == kept[k];
        assert(key(items[m]) == key(kept[k]));
    }
}

} // verus!
