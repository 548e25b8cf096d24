//! Table access for skill groups and workspaces.

pub mod installed_skills;
pub mod skill_groups;
pub mod workspaces;

use crate::database::{text_at, SqlValue};
use vstd::prelude::*;

verus! {

/// The view of a list of `(owner id, member id)` pairs.
pub open spec fn pairs_view(pairs: Seq<(String, String)>) -> Seq<(Seq<char>, Seq<char>)> {
    pairs.map_values(|p: (String, String)| (p.0@, p.1@))
}

/// Columns 0 and 1 of every row as a pair of texts, where every row holds
/// text in both.
pub open spec fn text_pairs_of(rows: Seq<Seq<SqlValue>>) -> Option<Seq<(Seq<char>, Seq<char>)>> {
    if forall|i: int| 0 <= i < rows.len() ==> #[trigger] text_at(rows[i], 0) is Some && text_at(rows[i], 1) is Some {
        Some(Seq::new(rows.len(), |i: int| (text_at(rows[i], 0)->0, text_at(rows[i], 1)->0)))
    } else {
        None
    }
}

/// The member ids of the pairs whose owner is `owner`, in the order of the
/// pairs.
pub open spec fn owned_ids(pairs: Seq<(Seq<char>, Seq<char>)>, owner: Seq<char>) -> Seq<Seq<char>>
    decreases pairs.len(),
{
    if pairs.len() == 0 {
        Seq::empty()
    } else {
        let rest = owned_ids(pairs.drop_last(), owner);
        if pairs.last().0 == owner {
            rest.push(pairs.last().1)
        } else {
            rest
        }
    }
}

/// The join of a membership table to its owners: an id is among those
/// `owned_ids` gives `owner` exactly when the pair `(owner, id)` is among the
/// pairs; where no pair occurs twice (the table's key), no id occurs twice.
pub proof fn lemma_owned_ids_are_the_joined_pairs(pairs: Seq<(Seq<char>, Seq<char>)>, owner: Seq<char>)
    ensures
        forall|x: Seq<char>| #[trigger] owned_ids(pairs, owner).contains(x) <==> pairs.contains((owner, x)),
        pairs.no_duplicates() ==> owned_ids(pairs, owner).no_duplicates(),
    decreases pairs.len(),
{
    if pairs.len() > 0 {
        let init = pairs.drop_last();
        lemma_owned_ids_are_the_joined_pairs(init, owner);
        let rest = owned_ids(init, owner);
        assert forall|x: Seq<char>| #[trigger] owned_ids(pairs, owner).contains(x) <==> pairs.contains((owner, x)) by {
            if pairs.contains((owner, x)) {
                let k = choose|k: int| 0 <= k < pairs.len() && pairs[k] == (owner, x);
                if k < pairs.len() - 1 {
                    assert(init[k] == (owner, x));
                    assert(init.contains((owner, x)));
                    assert(rest.contains(x));
                    let i = choose|i: int| 0 <= i < rest.len() && rest[i] == x;
                    if pairs.last().0 == owner {
                        assert(owned_ids(pairs, owner) == rest.push(pairs.last().1));
                        assert(rest.push(pairs.last().1)[i] == x);
                    } else {
                        assert(owned_ids(pairs, owner) == rest);
                    }
                } else {
                    assert(pairs.last() == (owner, x));
                    assert(owned_ids(pairs, owner) == rest.push(x));
                    assert(rest.push(x)[rest.len() as int] == x);
                }
            }
            if owned_ids(pairs, owner).contains(x) {
                if pairs.last().0 == owner {
                    assert(owned_ids(pairs, owner) == rest.push(pairs.last().1));
                    let r = rest.push(pairs.last().1);
                    let k = choose|k: int| 0 <= k < r.len() && r[k] == x;
                    if k < rest.len() {
                        assert(rest[k] == x);
                        assert(rest.contains(x));
                        let j = choose|j: int| 0 <= j < init.len() && init[j] == (owner, x);
                        assert(pairs[j] == (owner, x));
                    } else {
                        assert(pairs[pairs.len() - 1] == (owner, x));
                    }
                } else {
                    assert(owned_ids(pairs, owner) == rest);
                    let j = choose|j: int| 0 <= j < init.len() && init[j] == (owner, x);
                    assert(pairs[j] == (owner, x));
                }
            }
        }
        if pairs.no_duplicates() {
            assert(init.no_duplicates()) by {
                assert forall|i: int, j: int| 0 <= i < init.len() && 0 <= j < init.len() && i != j implies init[i]
                    != init[j] by {
                    assert(pairs[i] == init[i] && pairs[j] == init[j]);
                }
            }
            if pairs.last().0 == owner {
                let y = pairs.last().1;
                if rest.contains(y) {
                    let j = choose|j: int| 0 <= j < init.len() && init[j] == (owner, y);
                    assert(pairs[j] == pairs[pairs.len() - 1]);
                }
                let r = rest.push(y);
                assert forall|i: int, j: int| 0 <= i < r.len() && 0 <= j < r.len() && i != j implies r[i] != r[j] by {
                    if i < rest.len() && j < rest.len() {
                    } else if i < rest.len() {
                        assert(rest.contains(rest[i]));
                    } else {
                        assert(rest.contains(rest[j]));
                    }
                }
            }
        }
    }
}

/// The member ids that the pairs give `owner`, in the order of the pairs:
/// how a membership table is joined to the rows that own it.
pub fn ids_for_owner(pairs: &Vec<(String, String)>, owner: &String) -> (res: Vec<String>)
    ensures
        res.deep_view() == owned_ids(pairs_view(pairs@), owner@),
{
    let mut out: Vec<String> = Vec::new();
    let mut i: usize = 0;
    while i < pairs.len()
        invariant
            i <= pairs.len(),
            out.deep_view() == owned_ids(pairs_view(pairs@.take(i as int)), owner@),
        decreases pairs.len() - i,
    {
        proof {
            assert(pairs_view(pairs@.take(i + 1)).drop_last() =~= pairs_view(pairs@.take(i as int)));
        }
        let ghost before = out.deep_view();
        if pairs[i].0 == *owner {
            out.push(pairs[i].1.clone());
            assert(out.deep_view() =~= before.push(pairs@[i as int].1@));
        }
        i = i + 1;
    }
    assert(pairs@.take(pairs.len() as int) =~= pairs@);
    out
}

} // verus!
