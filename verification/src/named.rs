//! Lists of named things, where the first of a name is the one found.
use crate::text::same_text;
use vstd::prelude::*;

verus! {

/// The contents of a list of named things.
pub open spec fn named_view<T>(list: Seq<(String, T)>) -> Seq<(Seq<char>, T)> {
    list.map_values(|e: (String, T)| (e.0@, e.1))
}

/// The first thing of a name, from a position on.
pub open spec fn named_from<T>(list: Seq<(Seq<char>, T)>, name: Seq<char>, from: nat) -> Option<T>
    decreases list.len() - from,
{
    if from >= list.len() {
        None
    } else if list[from as int].0 == name {
        Some(list[from as int].1)
    } else {
        named_from(list, name, from + 1)
    }
}

/// The first thing of a name.
pub open spec fn named<T>(list: Seq<(Seq<char>, T)>, name: Seq<char>) -> Option<T> {
    named_from(list, name, 0)
}

/// Finds the first thing of a name.
pub fn find_named<T: Copy>(list: &Vec<(String, T)>, name: &str) -> (r: Option<T>)
    ensures
        r == named(named_view(list@), name@),
{
    let mut i: usize = 0;
    while i < list.len()
        invariant
            i <= list@.len(),
            named(named_view(list@), name@) == named_from(named_view(list@), name@, i as nat),
        decreases list@.len() - i,
    {
        if same_text(list[i].0.as_str(), name) {
            return Some(list[i].1);
        }
        i = i + 1;
    }
    None
}

proof fn lemma_named_prefix<T>(list: Seq<(Seq<char>, T)>, entry: (Seq<char>, T), name: Seq<char>, from: nat)
    requires
        from <= list.len(),
    ensures
        named_from(list, name, from) is Some ==> named_from(list.push(entry), name, from)
            == named_from(list, name, from),
        named_from(list, name, from) is None ==> named_from(list.push(entry), name, from) == (
        if entry.0 == name {
            Some(entry.1)
        } else {
            None
        }),
    decreases list.len() - from,
{
    reveal_with_fuel(named_from, 2);
    if from < list.len() {
        lemma_named_prefix(list, entry, name, from + 1);
    }
}

/// A name keeps what it first stood for: a later entry is found only under a name that had
/// none.
pub proof fn law_first_of_a_name_wins<T>(
    list: Seq<(Seq<char>, T)>,
    entry: (Seq<char>, T),
    name: Seq<char>,
)
    ensures
        named(list, name) is Some ==> named(list.push(entry), name) == named(list, name),
        named(list, name) is None ==> named(list.push(entry), name) == (if entry.0 == name {
            Some(entry.1)
        } else {
            None
        }),
{
    lemma_named_prefix(list, entry, name, 0);
}

} // verus!
