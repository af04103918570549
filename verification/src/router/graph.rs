//! The live agent graph as a vector of `(id, node)` entries with unique ids,
//! viewed as a map from id text to node, and the lemmas that relate vector
//! edits to map edits.

use super::types::{AgentNode, NodeView};
use crate::id::AgentId;
use vstd::prelude::*;

verus! {

/// Entries of the agent graph.
pub type Entries = Seq<(AgentId, AgentNode)>;

/// No two entries share an id.
pub open spec fn keys_unique(g: Entries) -> bool {
    forall|i: int, j: int| 0 <= i < j < g.len() ==> g[i].0@ != g[j].0@
}

/// Some entry has id `k`.
pub open spec fn has_key(g: Entries, k: Seq<char>) -> bool {
    exists|i: int| 0 <= i < g.len() && g[i].0@ == k
}

/// The graph as a map from id text to node.
pub open spec fn gmap(g: Entries) -> Map<Seq<char>, NodeView>
    decreases g.len(),
{
    if g.len() == 0 {
        Map::empty()
    } else {
        gmap(g.drop_last()).insert(g.last().0@, g.last().1@)
    }
}

/// The map's domain is exactly the set of entry ids.
pub proof fn lemma_gmap_dom(g: Entries, k: Seq<char>)
    ensures
        gmap(g).contains_key(k) <==> has_key(g, k),
    decreases g.len(),
{
    if g.len() > 0 {
        lemma_gmap_dom(g.drop_last(), k);
        if has_key(g, k) {
            let i = choose|i: int| 0 <= i < g.len() && g[i].0@ == k;
            if i < g.len() - 1 {
                assert(g.drop_last()[i].0@ == k);
            }
        }
        if has_key(g.drop_last(), k) {
            let i = choose|i: int| 0 <= i < g.drop_last().len() && g.drop_last()[i].0@ == k;
            assert(g[i].0@ == k);
        }
    }
}

/// The map holds each entry's node under the entry's id.
pub proof fn lemma_gmap_index(g: Entries, i: int)
    requires
        keys_unique(g),
        0 <= i < g.len(),
    ensures
        gmap(g).contains_key(g[i].0@),
        gmap(g)[g[i].0@] == g[i].1@,
    decreases g.len(),
{
    if i < g.len() - 1 {
        lemma_gmap_index(g.drop_last(), i);
    }
}

/// Replacing an entry's node (same id) updates the map at that id.
pub proof fn lemma_gmap_update(g: Entries, i: int, e: (AgentId, AgentNode))
    requires
        keys_unique(g),
        0 <= i < g.len(),
        e.0@ == g[i].0@,
    ensures
        keys_unique(g.update(i, e)),
        gmap(g.update(i, e)) == gmap(g).insert(e.0@, e.1@),
    decreases g.len(),
{
    let u = g.update(i, e);
    if i == g.len() - 1 {
        assert(u.drop_last() =~= g.drop_last());
        lemma_gmap_dom(g.drop_last(), e.0@);
        assert(gmap(u) =~= gmap(g).insert(e.0@, e.1@));
    } else {
        lemma_gmap_update(g.drop_last(), i, e);
        assert(u.drop_last() =~= g.drop_last().update(i, e));
        assert(g.last().0@ != e.0@);
        assert(gmap(u) =~= gmap(g).insert(e.0@, e.1@));
    }
}

/// Removing an entry removes its id from the map.
pub proof fn lemma_gmap_remove(g: Entries, i: int)
    requires
        keys_unique(g),
        0 <= i < g.len(),
    ensures
        keys_unique(g.remove(i)),
        gmap(g.remove(i)) == gmap(g).remove(g[i].0@),
    decreases g.len(),
{
    let r = g.remove(i);
    let k = g[i].0@;
    assert forall|a: int, b: int| 0 <= a < b < r.len() implies r[a].0@ != r[b].0@ by {
        let a2 = if a < i { a } else { a + 1 };
        let b2 = if b < i { b } else { b + 1 };
        assert(r[a] == g[a2]);
        assert(r[b] == g[b2]);
    }
    if i == g.len() - 1 {
        assert(r =~= g.drop_last());
        lemma_gmap_dom(g.drop_last(), k);
        assert(gmap(r) =~= gmap(g).remove(k));
    } else {
        lemma_gmap_remove(g.drop_last(), i);
        assert(r.drop_last() =~= g.drop_last().remove(i));
        assert(r.last() == g.last());
        assert(g.last().0@ != k);
        assert(gmap(r) =~= gmap(g).remove(k));
    }
}

/// Appending an entry with a fresh id inserts it into the map.
pub proof fn lemma_gmap_push(g: Entries, e: (AgentId, AgentNode))
    requires
        keys_unique(g),
        !has_key(g, e.0@),
    ensures
        keys_unique(g.push(e)),
        gmap(g.push(e)) == gmap(g).insert(e.0@, e.1@),
{
    let p = g.push(e);
    assert(p.drop_last() =~= g);
    assert forall|a: int, b: int| 0 <= a < b < p.len() implies p[a].0@ != p[b].0@ by {
        if b == g.len() {
            assert(p[a] == g[a]);
        } else {
            assert(p[a] == g[a]);
            assert(p[b] == g[b]);
        }
    }
}

/// Index of the entry with id `id`, if any.
pub fn find(g: &Vec<(AgentId, AgentNode)>, id: &AgentId) -> (r: Option<usize>)
    requires
        keys_unique(g@),
    ensures
        match r {
            Some(i) => i < g@.len() && g@[i as int].0@ == id@,
            None => !has_key(g@, id@),
        },
        r is Some <==> gmap(g@).contains_key(id@),
        r matches Some(i) ==> gmap(g@)[id@] == g@[i as int].1@,
{
    let mut i: usize = 0;
    while i < g.len()
        invariant
            i <= g@.len(),
            keys_unique(g@),
            forall|j: int| 0 <= j < i ==> g@[j].0@ != id@,
        decreases g@.len() - i,
    {
        if g[i].0.same(id) {
            proof {
                lemma_gmap_dom(g@, id@);
                lemma_gmap_index(g@, i as int);
            }
            return Some(i);
        }
        i = i + 1;
    }
    proof {
        lemma_gmap_dom(g@, id@);
    }
    None
}

} // verus!
