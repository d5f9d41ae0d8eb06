//! Putting a graph together from named nodes.

use crate::text::same_text;
use crate::views::views;
use vstd::prelude::*;

verus! {

/// Where the node of a name stands: the last one that was given it.
pub open spec fn place_of_name(names: Seq<Seq<char>>, name: Seq<char>) -> Option<usize>
    decreases names.len(),
{
    if names.len() == 0 {
        None
    } else if names.last() == name {
        Some((names.len() - 1) as usize)
    } else {
        place_of_name(names.drop_last(), name)
    }
}

/// Finds where the node of a name stands.
pub fn find_place_of_name(names: &Vec<String>, name: &str) -> (i: Option<usize>)
    ensures
        i == place_of_name(views(names@), name@),
        i matches Some(k) ==> k < names.len(),
{
    let ghost all = views(names@);
    let mut n: usize = names.len();
    assert(all.take(n as int) =~= all);
    while n > 0
        invariant
            n <= names.len(),
            all == views(names@),
            place_of_name(all, name@) == place_of_name(all.take(n as int), name@),
        decreases n,
    {
        n = n - 1;
        assert(all.take(n as int + 1).last() == names@[n as int]@);
        assert(all.take(n as int + 1).drop_last() =~= all.take(n as int));
        if same_text(names[n].as_str(), name) {
            return Some(n);
        }
    }
    None
}

/// Whether an edge joins two names that nodes have.
pub open spec fn joins(names: Seq<Seq<char>>, ends: (String, String)) -> bool {
    place_of_name(names, ends.0@) is Some && place_of_name(names, ends.1@) is Some
}

/// Finds the nodes that edges join by name. Fails with the first edge that names
/// a node which was never added.
pub fn join_named(names: &Vec<String>, edges: &Vec<(String, String)>) -> (r: Result<
    Vec<(usize, usize)>,
    usize,
>)
    ensures
        r is Ok <==> forall|k: int|
            0 <= k < edges@.len() ==> joins(views(names@), #[trigger] edges@[k]),
        match r {
            Ok(ends) => ends@.len() == edges@.len() && forall|k: int|
                0 <= k < ends@.len() ==> {
                    let (source, target) = #[trigger] ends@[k];
                    &&& Some(source) == place_of_name(views(names@), edges@[k].0@)
                    &&& Some(target) == place_of_name(views(names@), edges@[k].1@)
                    &&& source < names@.len()
                    &&& target < names@.len()
                },
            Err(k) => k < edges@.len() && !joins(views(names@), edges@[k as int]) && forall|j: int|
                0 <= j < k ==> joins(views(names@), #[trigger] edges@[j]),
        },
{
    let mut ends: Vec<(usize, usize)> = Vec::new();
    let mut i: usize = 0;
    while i < edges.len()
        invariant
            i <= edges.len(),
            ends@.len() == i,
            forall|j: int| 0 <= j < i ==> joins(views(names@), #[trigger] edges@[j]),
            forall|k: int|
                0 <= k < i ==> {
                    let (source, target) = #[trigger] ends@[k];
                    &&& Some(source) == place_of_name(views(names@), edges@[k].0@)
                    &&& Some(target) == place_of_name(views(names@), edges@[k].1@)
                    &&& source < names@.len()
                    &&& target < names@.len()
                },
        decreases edges.len() - i,
    {
        let source = find_place_of_name(names, edges[i].0.as_str());
        let target = find_place_of_name(names, edges[i].1.as_str());
        match (source, target) {
            (Some(s), Some(t)) => {
                ends.push((s, t));
            },
            _ => {
                assert(!joins(views(names@), edges@[i as int]));
                return Err(i);
            },
        }
        i = i + 1;
    }
    Ok(ends)
}

} // verus!
