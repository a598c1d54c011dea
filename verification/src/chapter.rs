//! Choice of one chapter from a group of equivalent chapters, by the
//! reader's ordered list of preferred translation groups.

use vstd::prelude::*;
use vstd::string::*;
use crate::prefs::{HostValue, Preferences};
use crate::text::{contents, split, split_on, texts, trim, trimmed};

verus! {

/// A chapter as the catalogue lists it: the translation group that made
/// it, and the host's own record of the chapter, which the library
/// carries along without reading it.
#[derive(Clone, Debug)]
pub struct Chapter<T> {
    pub scanlator: String,
    pub record: T,
}

/// The trimmed pieces that are not empty, in the order of the pieces.
pub open spec fn trimmed_nonempty(pieces: Seq<Seq<char>>) -> Seq<Seq<char>>
    decreases pieces.len(),
{
    if pieces.len() == 0 {
        Seq::empty()
    } else {
        let earlier = trimmed_nonempty(pieces.drop_last());
        let name = trim(pieces.last());
        if name.len() == 0 {
            earlier
        } else {
            earlier.push(name)
        }
    }
}

/// The priority list written in a setting text: the text is split at
/// commas, each piece is trimmed, and pieces that are empty after
/// trimming are left out.
pub open spec fn priorities_in(text: Seq<char>) -> Seq<Seq<char>> {
    trimmed_nonempty(split(text, ','))
}

/// The reader's priority list: the one written in the priority setting
/// when that setting is a string, the empty list otherwise.
pub open spec fn priorities_of(prefs: Preferences) -> Seq<Seq<char>> {
    match prefs.priority_text() {
        Some(text) => priorities_in(text),
        None => Seq::empty(),
    }
}

/// Whether the chapter at `i` was made by the translation group `name`.
pub open spec fn made_by<T>(group: Seq<Chapter<T>>, i: int, name: Seq<char>) -> bool {
    0 <= i < group.len() && group[i].scanlator@ == name
}

/// Whether any chapter of the group was made by `name`.
pub open spec fn has_chapter_by<T>(group: Seq<Chapter<T>>, name: Seq<char>) -> bool {
    exists|i: int| made_by(group, i, name)
}

/// The position of the first chapter made by `name`; the group's length
/// when there is none.
pub open spec fn first_by<T>(group: Seq<Chapter<T>>, name: Seq<char>) -> int
    decreases group.len(),
{
    if group.len() == 0 {
        0
    } else if group[0].scanlator@ == name {
        0
    } else {
        1 + first_by(group.skip(1), name)
    }
}

/// The position of the chapter to keep: the first chapter of the
/// earliest priority that has any chapter in the group, or position 0
/// when no priority has one.
pub open spec fn chosen_index<T>(group: Seq<Chapter<T>>, priorities: Seq<Seq<char>>) -> int
    decreases priorities.len(),
{
    if priorities.len() == 0 {
        0
    } else if first_by(group, priorities[0]) < group.len() {
        first_by(group, priorities[0])
    } else {
        chosen_index(group, priorities.skip(1))
    }
}

/// The chapter to keep from a group: none for an empty group, else the
/// chapter at the chosen position.
pub open spec fn chosen<T>(group: Seq<Chapter<T>>, priorities: Seq<Seq<char>>) -> Option<
    Chapter<T>,
> {
    if group.len() == 0 {
        None
    } else {
        Some(group[chosen_index(group, priorities)])
    }
}

/// `first_by` is the least position of a chapter made by `name`.
pub proof fn lemma_first_by<T>(group: Seq<Chapter<T>>, name: Seq<char>)
    ensures
        0 <= first_by(group, name) <= group.len(),
        first_by(group, name) < group.len() ==> made_by(group, first_by(group, name), name),
        forall|j: int| 0 <= j < first_by(group, name) ==> !made_by(group, j, name),
        first_by(group, name) < group.len() <==> has_chapter_by(group, name),
    decreases group.len(),
{
    if group.len() > 0 && group[0].scanlator@ != name {
        let rest = group.skip(1);
        lemma_first_by(rest, name);
        assert forall|j: int| 0 <= j < first_by(group, name) implies !made_by(group, j, name) by {
            if j > 0 {
                assert(rest[j - 1] == group[j]);
                assert(!made_by(rest, j - 1, name));
            }
        }
        if first_by(group, name) < group.len() {
            assert(rest[first_by(rest, name)] == group[first_by(group, name)]);
            assert(made_by(group, first_by(group, name), name));
        }
    }
    if has_chapter_by(group, name) {
        let i = choose|i: int| made_by(group, i, name);
        if first_by(group, name) >= group.len() {
            assert(!made_by(group, i, name));
        }
    }
}

/// The chosen position lies inside a group that has chapters.
pub proof fn lemma_chosen_index_in_range<T>(group: Seq<Chapter<T>>, priorities: Seq<Seq<char>>)
    requires
        group.len() > 0,
    ensures
        0 <= chosen_index(group, priorities) < group.len(),
    decreases priorities.len(),
{
    if priorities.len() > 0 {
        lemma_first_by(group, priorities[0]);
        lemma_chosen_index_in_range(group, priorities.skip(1));
    }
}

/// Whatever the priorities, a group that has chapters yields one of its
/// own chapters.
pub proof fn lemma_chosen_is_member<T>(group: Seq<Chapter<T>>, priorities: Seq<Seq<char>>)
    requires
        group.len() > 0,
    ensures
        chosen(group, priorities) is Some,
        group.contains(chosen(group, priorities)->0),
{
    lemma_chosen_index_in_range(group, priorities);
}

/// When the priority at `k` is the earliest one with a chapter in the
/// group, the chapter kept is the group's first chapter made by it.
pub proof fn lemma_chosen_follows_earliest_priority<T>(
    group: Seq<Chapter<T>>,
    priorities: Seq<Seq<char>>,
    k: int,
)
    requires
        0 <= k < priorities.len(),
        has_chapter_by(group, priorities[k]),
        forall|j: int| 0 <= j < k ==> !has_chapter_by(group, #[trigger] priorities[j]),
    ensures
        chosen(group, priorities) is Some,
        chosen(group, priorities)->0.scanlator@ == priorities[k],
        chosen_index(group, priorities) == first_by(group, priorities[k]),
    decreases k,
{
    lemma_first_by(group, priorities[0]);
    if k > 0 {
        let rest = priorities.skip(1);
        assert(!has_chapter_by(group, priorities[0]));
        assert(rest[k - 1] == priorities[k]);
        assert forall|j: int| 0 <= j < k - 1 implies !has_chapter_by(group, #[trigger] rest[j]) by {
            assert(rest[j] == priorities[j + 1]);
        }
        lemma_chosen_follows_earliest_priority(group, rest, k - 1);
    }
}

/// When no priority has a chapter in the group, the chapter kept is the
/// group's first.
pub proof fn lemma_chosen_falls_back_to_first<T>(
    group: Seq<Chapter<T>>,
    priorities: Seq<Seq<char>>,
)
    requires
        group.len() > 0,
        forall|k: int|
            0 <= k < priorities.len() ==> !has_chapter_by(group, #[trigger] priorities[k]),
    ensures
        chosen(group, priorities) == Some(group[0]),
    decreases priorities.len(),
{
    if priorities.len() > 0 {
        lemma_first_by(group, priorities[0]);
        assert(!has_chapter_by(group, priorities[0]));
        let rest = priorities.skip(1);
        assert forall|k: int| 0 <= k < rest.len() implies !has_chapter_by(
            group,
            #[trigger] rest[k],
        ) by {
            assert(rest[k] == priorities[k + 1]);
        }
        lemma_chosen_falls_back_to_first(group, rest);
    }
}

/// Reads a priority list from the text of the priority setting.
pub fn parse_priorities(text: &str) -> (names: Vec<String>)
    ensures
        texts(names@) == priorities_in(text@),
{
    let pieces: Vec<Vec<char>> = split_on(text, ',');
    let mut names: Vec<String> = Vec::new();
    let n: usize = pieces.len();
    let mut i: usize = 0;
    proof {
        assert(contents(pieces@).take(0) == Seq::<Seq<char>>::empty());
        assert(texts(names@) == Seq::<Seq<char>>::empty());
    }
    while i < n
        invariant
            n == pieces@.len(),
            i <= n,
            contents(pieces@) == split(text@, ','),
            texts(names@) == trimmed_nonempty(contents(pieces@).take(i as int)),
        decreases n - i,
    {
        let name: String = trimmed(&pieces[i]);
        proof {
            let all = contents(pieces@);
            assert(all.take(i + 1).drop_last() == all.take(i as int));
            assert(all.take(i + 1).last() == pieces@[i as int]@);
        }
        if !name.as_str().is_empty() {
            proof {
                assert(texts(names@.push(name)) == texts(names@).push(name@));
            }
            names.push(name);
        }
        i = i + 1;
    }
    proof {
        assert(contents(pieces@).take(n as int) == contents(pieces@));
    }
    names
}

/// The reader's priority list, read from the settings. A missing
/// setting, or one that is not a string, gives the empty list.
pub fn scanlator_priorities(prefs: &Preferences) -> (names: Vec<String>)
    ensures
        texts(names@) == priorities_of(*prefs),
{
    match &prefs.scanlator_priorities {
        HostValue::Text(text) => parse_priorities(text.as_str()),
        _ => {
            let names: Vec<String> = Vec::new();
            proof {
                assert(texts(names@) == Seq::<Seq<char>>::empty());
            }
            names
        },
    }
}

/// The position of the first chapter of the group made by `name`, or
/// the group's length when there is none.
fn position_by<T>(group: &Vec<Chapter<T>>, name: &String) -> (pos: usize)
    ensures
        pos == first_by(group@, name@),
{
    let n: usize = group.len();
    let mut i: usize = 0;
    proof {
        assert(group@.skip(0) == group@);
    }
    while i < n
        invariant
            n == group@.len(),
            i <= n,
            first_by(group@, name@) == i + first_by(group@.skip(i as int), name@),
        decreases n - i,
    {
        proof {
            let rest = group@.skip(i as int);
            assert(rest[0] == group@[i as int]);
            assert(rest.skip(1) == group@.skip(i + 1));
        }
        if group[i].scanlator == *name {
            return i;
        }
        i = i + 1;
    }
    i
}

/// Picks the chapter to keep from a group, for a given priority list:
/// the first chapter of the earliest priority that has a chapter in the
/// group, else the group's first chapter. An empty group gives `None`.
pub fn select_chapter<T>(group: Vec<Chapter<T>>, priorities: &Vec<String>) -> (res: Option<
    Chapter<T>,
>)
    ensures
        res == chosen(group@, texts(priorities@)),
        res is None <==> group@.len() == 0,
{
    if group.len() == 0 {
        return None;
    }
    let ghost all = texts(priorities@);
    let mut chapters = group;
    let n: usize = priorities.len();
    let mut p: usize = 0;
    proof {
        assert(all.skip(0) == all);
    }
    while p < n
        invariant
            n == priorities@.len(),
            p <= n,
            all == texts(priorities@),
            chapters@ == group@,
            group@.len() > 0,
            chosen_index(group@, all) == chosen_index(group@, all.skip(p as int)),
        decreases n - p,
    {
        let pos: usize = position_by(&chapters, &priorities[p]);
        proof {
            let rest = all.skip(p as int);
            assert(rest[0] == priorities@[p as int]@);
            assert(rest.skip(1) == all.skip(p + 1));
        }
        if pos < chapters.len() {
            return Some(chapters.swap_remove(pos));
        }
        p = p + 1;
    }
    Some(chapters.swap_remove(0))
}

/// Picks the chapter to keep from a group, by the reader's settings.
pub fn take_chapter<T>(group: Vec<Chapter<T>>, prefs: &Preferences) -> (res: Option<Chapter<T>>)
    ensures
        res == chosen(group@, priorities_of(*prefs)),
        res is None <==> group@.len() == 0,
{
    let priorities: Vec<String> = scanlator_priorities(prefs);
    select_chapter(group, &priorities)
}

} // verus!
