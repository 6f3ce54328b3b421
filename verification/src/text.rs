//! Models of the string containers that the crate hands around, and the
//! few facts about them that the proofs need.

use vstd::prelude::*;

verus! {

/// The texts of a sequence of strings.
pub open spec fn texts(strings: Seq<String>) -> Seq<Seq<char>> {
    Seq::new(strings.len(), |i: int| strings[i]@)
}

/// The texts of a sequence of pairs of strings.
pub open spec fn pairs(strings: Seq<(String, String)>) -> Seq<(Seq<char>, Seq<char>)> {
    Seq::new(strings.len(), |i: int| (strings[i].0@, strings[i].1@))
}

/// The texts of a sequence of rows of strings.
pub open spec fn grid(rows: Seq<Vec<String>>) -> Seq<Seq<Seq<char>>> {
    Seq::new(rows.len(), |i: int| texts(rows[i]@))
}

/// The texts of a sequence of lists of pairs.
pub open spec fn pair_lists(lists: Seq<Vec<(String, String)>>) -> Seq<
    Seq<(Seq<char>, Seq<char>)>,
> {
    Seq::new(lists.len(), |i: int| pairs(lists[i]@))
}

/// Pushing a string pushes its text.
pub proof fn lemma_texts_push(before: Seq<String>, last: String)
    ensures
        texts(before.push(last)) == texts(before).push(last@),
{
    assert(texts(before.push(last)) =~= texts(before).push(last@));
}

/// Pushing a pair pushes its texts.
pub proof fn lemma_pairs_push(before: Seq<(String, String)>, last: (String, String))
    ensures
        pairs(before.push(last)) == pairs(before).push((last.0@, last.1@)),
{
    assert(pairs(before.push(last)) =~= pairs(before).push((last.0@, last.1@)));
}

/// Pushing a row pushes its texts.
pub proof fn lemma_grid_push(before: Seq<Vec<String>>, last: Vec<String>)
    ensures
        grid(before.push(last)) == grid(before).push(texts(last@)),
{
    assert(grid(before.push(last)) =~= grid(before).push(texts(last@)));
}

/// Pushing a list of pairs pushes its texts.
pub proof fn lemma_pair_lists_push(before: Seq<Vec<(String, String)>>, last: Vec<(String, String)>)
    ensures
        pair_lists(before.push(last)) == pair_lists(before).push(pairs(last@)),
{
    assert(pair_lists(before.push(last)) =~= pair_lists(before).push(pairs(last@)));
}

/// A copy of a list of strings.
pub fn copy_strings(strings: &Vec<String>) -> (copy: Vec<String>)
    ensures
        texts(copy@) == texts(strings@),
        copy@.len() == strings@.len(),
{
    let mut copy: Vec<String> = Vec::new();
    let mut i: usize = 0;
    while i < strings.len()
        invariant
            i <= strings.len(),
            copy@.len() == i,
            forall|k: int| 0 <= k < i ==> (#[trigger] copy@[k])@ == strings@[k]@,
        decreases strings.len() - i,
    {
        copy.push(strings[i].clone());
        i += 1;
    }
    proof {
        assert(texts(copy@) =~= texts(strings@));
    }
    copy
}

} // verus!
