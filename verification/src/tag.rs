//! Tags, and the operations on lists of tags that the index is built from.

use vstd::prelude::*;

verus! {

/// A tag as the index stores it: in the catalog, and as a copy on each note
/// that carries it.
#[derive(Debug)]
pub struct Tag {
    pub id: u32,
    pub label: String,
    pub use_count: i32,
}

/// The mathematical value of a [`Tag`].
pub struct TagView {
    pub id: int,
    pub label: Seq<char>,
    pub use_count: int,
}

impl View for Tag {
    type V = TagView;

    open spec fn view(&self) -> TagView {
        TagView { id: self.id as int, label: self.label@, use_count: self.use_count as int }
    }
}

impl Clone for Tag {
    fn clone(&self) -> (copy: Self)
        ensures
            copy@ == self@,
    {
        Tag { id: self.id, label: self.label.clone(), use_count: self.use_count }
    }
}

/// The values of a list of tags, in order.
pub open spec fn tag_views(tags: Seq<Tag>) -> Seq<TagView> {
    tags.map_values(|t: Tag| t@)
}

/// The values of a list of strings, in order.
pub open spec fn texts(strings: Seq<String>) -> Seq<Seq<char>> {
    strings.map_values(|s: String| s@)
}

/// The labels of a list of tags, in order.
pub open spec fn labels(tags: Seq<TagView>) -> Seq<Seq<char>> {
    tags.map_values(|t: TagView| t.label)
}

/// Whether some tag of the list has this label.
pub open spec fn carries(tags: Seq<TagView>, label: Seq<char>) -> bool {
    labels(tags).contains(label)
}

/// Where the first tag with this label stands, if there is one.
pub open spec fn tag_position(tags: Seq<TagView>, label: Seq<char>) -> Option<int> {
    labels(tags).index_of_first(label)
}

/// The list without the tags that have this label.
pub open spec fn without_label(tags: Seq<TagView>, label: Seq<char>) -> Seq<TagView> {
    tags.filter(|t: TagView| t.label != label)
}

/// The tags of the list whose count is positive.
pub open spec fn in_use(tags: Seq<TagView>) -> Seq<TagView> {
    tags.filter(|t: TagView| t.use_count > 0)
}

/// `i` is the first place in `keys` that holds `key`.
pub open spec fn is_first(keys: Seq<Seq<char>>, key: Seq<char>, i: int) -> bool {
    &&& 0 <= i < keys.len()
    &&& keys[i] == key
    &&& forall|j: int| 0 <= j < i ==> keys[j] != key
}

/// The first place that holds a key is the one `index_of_first` names.
pub proof fn lemma_first_found(keys: Seq<Seq<char>>, key: Seq<char>, i: int)
    requires
        is_first(keys, key, i),
    ensures
        keys.index_of_first(key) == Some(i),
{
    keys.index_of_first_ensures(key);
    assert(keys.contains(key));
}

/// A key that stands nowhere has no first place.
pub proof fn lemma_first_absent(keys: Seq<Seq<char>>, key: Seq<char>)
    requires
        forall|j: int| 0 <= j < keys.len() ==> keys[j] != key,
    ensures
        keys.index_of_first(key) is None,
        !keys.contains(key),
{
    keys.index_of_first_ensures(key);
}

/// What `index_of_first` says, in terms of [`is_first`].
pub proof fn lemma_first_place(keys: Seq<Seq<char>>, key: Seq<char>)
    ensures
        match keys.index_of_first(key) {
            Some(i) => is_first(keys, key, i) && keys.contains(key),
            None => !keys.contains(key) && forall|j: int| 0 <= j < keys.len() ==> keys[j] != key,
        },
{
    keys.index_of_first_ensures(key);
}

/// Looks for the first tag with this label.
pub fn find_tag(tags: &Vec<Tag>, label: &String) -> (found: Option<usize>)
    ensures
        match found {
            Some(i) => i < tags.len() && tag_position(tag_views(tags@), label@) == Some(i as int),
            None => tag_position(tag_views(tags@), label@) is None,
        },
{
    let ghost keys = labels(tag_views(tags@));
    let mut i: usize = 0;
    while i < tags.len()
        invariant
            i <= tags.len(),
            keys == labels(tag_views(tags@)),
            forall|j: int| 0 <= j < i ==> keys[j] != label@,
        decreases tags.len() - i,
    {
        if tags[i].label == *label {
            proof {
                lemma_first_found(keys, label@, i as int);
            }
            return Some(i);
        }
        i += 1;
    }
    proof {
        lemma_first_absent(keys, label@);
    }
    None
}

/// Copies out the labels of a list of tags, in order.
pub fn labels_of(tags: &Vec<Tag>) -> (out: Vec<String>)
    ensures
        texts(out@) == labels(tag_views(tags@)),
{
    let mut out: Vec<String> = Vec::new();
    let mut i: usize = 0;
    while i < tags.len()
        invariant
            i <= tags.len(),
            out.len() == i,
            forall|j: int| 0 <= j < i ==> out[j]@ == tags[j].label@,
        decreases tags.len() - i,
    {
        out.push(tags[i].label.clone());
        i += 1;
    }
    assert(texts(out@) =~= labels(tag_views(tags@)));
    out
}

/// Keeps the tags whose label differs from `label`, in order.
pub fn strip_label(tags: Vec<Tag>, label: &String) -> (kept: Vec<Tag>)
    ensures
        tag_views(kept@) == without_label(tag_views(tags@), label@),
{
    let ghost keep = |t: TagView| t.label != label@;
    let mut kept: Vec<Tag> = Vec::new();
    proof {
        reveal(Seq::filter);
        assert(tag_views(tags@.take(0)) =~= Seq::<TagView>::empty());
        assert(tag_views(kept@) =~= Seq::<TagView>::empty());
    }
    for tag in it: tags
        invariant
            it.seq() == tags@,
            keep == (|t: TagView| t.label != label@),
            tag_views(kept@) == tag_views(tags@.take(it.index() as int)).filter(keep),
    {
        proof {
            let i = it.index() as int;
            let before = tag_views(tags@.take(i));
            assert(tag_views(tags@.take(i + 1)) =~= before.push(tag@));
            before.lemma_filter_push(tag@, keep);
        }
        let ghost old_kept = kept@;
        if tag.label != *label {
            kept.push(tag);
            assert(tag_views(kept@) =~= tag_views(old_kept).push(tag@));
        }
    }
    assert(tags@.take(tags@.len() as int) == tags@);
    kept
}

/// Keeps the tags whose count is positive, in order.
pub fn prune_unused(tags: Vec<Tag>) -> (kept: Vec<Tag>)
    ensures
        tag_views(kept@) == in_use(tag_views(tags@)),
{
    let ghost keep = |t: TagView| t.use_count > 0;
    let mut kept: Vec<Tag> = Vec::new();
    proof {
        reveal(Seq::filter);
        assert(tag_views(tags@.take(0)) =~= Seq::<TagView>::empty());
        assert(tag_views(kept@) =~= Seq::<TagView>::empty());
    }
    for tag in it: tags
        invariant
            it.seq() == tags@,
            keep == (|t: TagView| t.use_count > 0),
            tag_views(kept@) == tag_views(tags@.take(it.index() as int)).filter(keep),
    {
        proof {
            let i = it.index() as int;
            let before = tag_views(tags@.take(i));
            assert(tag_views(tags@.take(i + 1)) =~= before.push(tag@));
            before.lemma_filter_push(tag@, keep);
        }
        let ghost old_kept = kept@;
        if tag.use_count > 0 {
            kept.push(tag);
            assert(tag_views(kept@) =~= tag_views(old_kept).push(tag@));
        }
    }
    assert(tags@.take(tags@.len() as int) == tags@);
    kept
}

} // verus!
