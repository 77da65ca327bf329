//! The front matter of a note's file: a block between two `---` fences at
//! the start of the text, which holds the note's tags, before the body.
//!
//! This module frames the text and decides what a note's file gives. The
//! block itself is read and written by the caller.

use vstd::prelude::*;
use vstd::string::StringExecFns;
use vstd::string::StrSliceExecFns;
use crate::store::{FileOp, write_plan, write_note};

verus! {

/// Whether the character has Unicode's `White_Space` property.
pub uninterp spec fn is_white_space(c: char) -> bool;

/// `char::is_whitespace` of the standard library says whether a character has
/// the `White_Space` property of the Unicode character database: that
/// property is what [`is_white_space`] names.
pub assume_specification[ char::is_whitespace ](c: char) -> (white: bool)
    ensures
        white == is_white_space(c),
;

/// Whether a fence, three hyphens, starts at place `i` of the text.
pub open spec fn fence_at(text: Seq<char>, i: int) -> bool {
    &&& 0 <= i
    &&& i + 3 <= text.len()
    &&& text[i] == '-'
    &&& text[i + 1] == '-'
    &&& text[i + 2] == '-'
}

/// `i` is the first place at or after `from` where a fence starts.
pub open spec fn is_next_fence(text: Seq<char>, from: int, i: int) -> bool {
    &&& from <= i
    &&& fence_at(text, i)
    &&& forall|j: int| from <= j < i ==> !fence_at(text, j)
}

/// The first place at or after `from` where a fence starts, if there is one.
pub open spec fn next_fence(text: Seq<char>, from: int) -> Option<int> {
    if exists|i: int| is_next_fence(text, from, i) {
        Some(choose|i: int| is_next_fence(text, from, i))
    } else {
        None
    }
}

/// How many white-space characters the text starts with.
pub open spec fn leading_space(text: Seq<char>) -> nat
    decreases text.len(),
{
    if text.len() > 0 && is_white_space(text[0]) {
        1 + leading_space(text.drop_first())
    } else {
        0
    }
}

/// The text without the white space it starts with.
pub open spec fn trimmed(text: Seq<char>) -> Seq<char> {
    text.skip(leading_space(text) as int)
}

/// The front matter of a note's text, and the body after it.
///
/// A text has a front matter if it starts with a fence and has a second
/// fence after the first has ended. The front matter is what stands between
/// the two, and the body after it is what follows the second, without the
/// white space that it starts with.
pub open spec fn framed(text: Seq<char>) -> Option<(Seq<char>, Seq<char>)> {
    if fence_at(text, 0) {
        match next_fence(text, 3) {
            Some(b) => Some(
                (text.subrange(3, b), trimmed(text.subrange(b + 3, text.len() as int))),
            ),
            None => None,
        }
    } else {
        None
    }
}

/// The text of a note with this front matter and this body: a fence and a
/// line break, the front matter, a fence and an empty line, the body.
pub open spec fn composed(front: Seq<char>, body: Seq<char>) -> Seq<char> {
    "---\n"@ + front + "---\n\n"@ + body
}

/// The first fence that a search finds is the next fence.
proof fn lemma_next_fence(text: Seq<char>, from: int, i: int)
    requires
        is_next_fence(text, from, i),
    ensures
        next_fence(text, from) == Some(i),
{
    let chosen = choose|k: int| is_next_fence(text, from, k);
    assert(is_next_fence(text, from, chosen));
    if chosen < i {
        assert(!fence_at(text, chosen));
    }
    if i < chosen {
        assert(!fence_at(text, i));
    }
}

/// The characters of a text, in order.
fn chars_of(text: &str) -> (chars: Vec<char>)
    ensures
        chars@ == text@,
{
    let mut chars: Vec<char> = Vec::new();
    for c in it: text.chars()
        invariant
            it.seq() == text@,
            chars@ == text@.take(it.index() as int),
    {
        chars.push(c);
        assert(text@.take(it.index() + 1) =~= text@.take(it.index() as int).push(c));
    }
    assert(text@.take(text@.len() as int) =~= text@);
    chars
}

/// Looks for the first fence at or after `from`.
fn find_fence(chars: &Vec<char>, from: usize) -> (found: Option<usize>)
    ensures
        match found {
            Some(i) => next_fence(chars@, from as int) == Some(i as int) && i + 3 <= chars.len(),
            None => next_fence(chars@, from as int) is None,
        },
{
    let n: usize = chars.len();
    if n < 3 {
        return None;
    }
    let mut i: usize = from;
    while i <= n - 3
        invariant
            n == chars.len(),
            n >= 3,
            from <= i,
            forall|j: int| from <= j < i ==> !fence_at(chars@, j),
        decreases n - i,
    {
        if chars[i] == '-' && chars[i + 1] == '-' && chars[i + 2] == '-' {
            proof {
                lemma_next_fence(chars@, from as int, i as int);
            }
            return Some(i);
        }
        i += 1;
    }
    None
}

/// Counts the white space that the text has from place `from` on.
fn skip_space(chars: &Vec<char>, from: usize) -> (stop: usize)
    requires
        from <= chars.len(),
    ensures
        from <= stop <= chars.len(),
        stop == from + leading_space(chars@.skip(from as int)),
{
    let mut i: usize = from;
    while i < chars.len() && chars[i].is_whitespace()
        invariant
            from <= i <= chars.len(),
            leading_space(chars@.skip(from as int)) == (i - from) + leading_space(
                chars@.skip(i as int),
            ),
        decreases chars.len() - i,
    {
        assert(chars@.skip(i as int).drop_first() =~= chars@.skip(i + 1));
        i += 1;
    }
    i
}

/// Parts a note's text into its front matter and the body after it, if it
/// has a front matter.
pub fn split_front_matter(content: &str) -> (parts: Option<(String, String)>)
    ensures
        match parts {
            Some((front, body)) => framed(content@) == Some((front@, body@)),
            None => framed(content@) is None,
        },
{
    let chars = chars_of(content);
    if chars.len() < 3 || chars[0] != '-' || chars[1] != '-' || chars[2] != '-' {
        return None;
    }
    match find_fence(&chars, 3) {
        Some(b) => {
            let front = content.substring_char(3, b).to_owned();
            let start: usize = skip_space(&chars, b + 3);
            let body = content.substring_char(start, chars.len()).to_owned();
            proof {
                let rest = content@.subrange(b + 3, content@.len() as int);
                assert(rest =~= chars@.skip(b + 3));
                assert(rest.skip(leading_space(rest) as int) =~= content@.subrange(
                    start as int,
                    chars.len() as int,
                ));
            }
            Some((front, body))
        },
        None => None,
    }
}

/// Puts a front matter and a body together as a note's text.
pub fn join_front_matter(front: &str, body: &str) -> (content: String)
    ensures
        content@ == composed(front@, body@),
{
    let mut content = "---\n".to_owned();
    content.append(front);
    content.append("---\n\n");
    content.append(body);
    content
}

/// The tags and the body of a note, from the text of its file and from what
/// reading its front matter gave: `block` holds that, and the body after the
/// front matter, where the text has a front matter.
///
/// A front matter that was read gives its tags, none if it names none, and
/// leaves the body after it. A text without a front matter, or with one that
/// could not be read, is all body and has no tags.
pub fn load_note_with_tags(
    content: String,
    block: Option<(Result<Option<Vec<String>>, String>, String)>,
) -> (parts: (Vec<String>, String))
    ensures
        match block {
            Some((Ok(Some(tags)), body)) => parts.0 == tags && parts.1 == body,
            Some((Ok(None), body)) => parts.0@.len() == 0 && parts.1 == body,
            Some((Err(_), _)) => parts.0@.len() == 0 && parts.1 == content,
            None => parts.0@.len() == 0 && parts.1 == content,
        },
{
    match block {
        Some((Ok(Some(tags)), body)) => (tags, body),
        Some((Ok(None), body)) => (Vec::new(), body),
        Some((Err(_), _)) => (Vec::new(), content),
        None => (Vec::new(), content),
    }
}

/// Decides on saving the note titled `word` with a front matter, from what
/// writing the front matter gave: the file is to hold the front matter
/// between fences and then `body`; where the front matter could not be
/// written, the error of that.
pub fn save_note_with_tags(word: String, front: Result<String, String>, body: String) -> (plan:
    Result<FileOp, String>)
    ensures
        match front {
            Ok(text) => plan matches Ok(op) && op@ == write_plan(word@, composed(text@, body@)),
            Err(error) => plan matches Err(e) && e == error,
        },
{
    match front {
        Ok(text) => Ok(write_note(word, join_front_matter(text.as_str(), body.as_str()))),
        Err(error) => Err(error),
    }
}

} // verus!
