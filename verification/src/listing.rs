//! How a sequence of ids is written for the host: comma-joined, between
//! square brackets.

use vstd::prelude::*;

verus! {

/// The views of a sequence of strings.
pub open spec fn views(ids: Seq<String>) -> Seq<Seq<char>> {
    ids.map_values(|id: String| id@)
}

/// `order` names every key of `keys`, each exactly once, and nothing else.
pub open spec fn lists_each_once(order: Seq<Seq<char>>, keys: Set<Seq<char>>) -> bool {
    &&& order.no_duplicates()
    &&& forall|id: Seq<char>| order.contains(id) <==> keys.contains(id)
}

/// The ids one after the other, with a comma between neighbours.
pub open spec fn joined(ids: Seq<Seq<char>>) -> Seq<char>
    decreases ids.len(),
{
    if ids.len() == 0 {
        Seq::empty()
    } else if ids.len() == 1 {
        ids[0]
    } else {
        joined(ids.drop_last()) + seq![','] + ids.last()
    }
}

/// The joined ids between an opening and a closing square bracket.
pub open spec fn bracketed(ids: Seq<Seq<char>>) -> Seq<char> {
    seq!['['] + joined(ids) + seq![']']
}

/// Writes `ids` as the host reads them: `[]` for none, `[a]` for one,
/// `[a,b,c]` for several.
pub fn bracket(ids: &Vec<String>) -> (text: String)
    ensures
        text@ == bracketed(views(ids@)),
{
    proof {
        reveal_strlit("[");
        reveal_strlit(",");
        reveal_strlit("]");
    }
    let ghost all = views(ids@);
    let mut text = String::from_str("[");
    assert(text@ =~= seq!['['] + joined(all.take(0)));
    let mut i: usize = 0;
    while i < ids.len()
        invariant
            i <= ids@.len(),
            all == views(ids@),
            ","@ == seq![','],
            text@ == seq!['['] + joined(all.take(i as int)),
        decreases ids@.len() - i,
    {
        let ghost before = text@;
        if i > 0 {
            text.append(",");
        }
        text.append(ids[i].as_str());
        proof {
            let prefix = all.take(i as int + 1);
            assert(prefix.drop_last() =~= all.take(i as int));
            assert(prefix.last() == ids@[i as int]@);
            if i == 0 {
                assert(text@ =~= seq!['['] + joined(prefix));
            } else {
                assert(text@ =~= before + seq![','] + ids@[i as int]@);
                assert(text@ =~= seq!['['] + joined(prefix));
            }
        }
        i += 1;
    }
    assert(all.take(i as int) =~= all);
    text.append("]");
    text
}

} // verus!
