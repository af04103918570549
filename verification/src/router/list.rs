//! The `list` tool: the caller's tab (or its subtree), sorted by id.

use super::graph::lemma_gmap_index;
use super::types::{ListEntry, NodeStatus, clone_opt_id, opt_id_view};
use super::AgentRouter;
use crate::id::AgentId;
use vstd::prelude::*;

verus! {

/// Lexicographic order on texts, character by character (the order of
/// `String`'s `Ord`: UTF-8 byte order agrees with code point order).
pub open spec fn lex_lt(a: Seq<char>, b: Seq<char>) -> bool
    decreases a.len(),
{
    if b.len() == 0 {
        false
    } else if a.len() == 0 {
        true
    } else if a[0] != b[0] {
        (a[0] as int) < (b[0] as int)
    } else {
        lex_lt(a.drop_first(), b.drop_first())
    }
}

/// No text precedes itself.
pub proof fn lemma_lex_irreflexive(a: Seq<char>)
    ensures
        !lex_lt(a, a),
    decreases a.len(),
{
    if a.len() > 0 {
        lemma_lex_irreflexive(a.drop_first());
    }
}

/// Two different texts are ordered one way or the other.
pub proof fn lemma_lex_total(a: Seq<char>, b: Seq<char>)
    requires
        a != b,
    ensures
        lex_lt(a, b) || lex_lt(b, a),
    decreases a.len(),
{
    if a.len() > 0 && b.len() > 0 && a[0] == b[0] {
        if a.drop_first() == b.drop_first() {
            assert(a =~= seq![a[0]] + a.drop_first());
            assert(b =~= seq![b[0]] + b.drop_first());
        }
        lemma_lex_total(a.drop_first(), b.drop_first());
    } else if a.len() == 0 && b.len() == 0 {
        assert(a =~= b);
    } else if a.len() > 0 && b.len() > 0 {
        assert((a[0] as int) != (b[0] as int));
    }
}

/// The order is transitive.
pub proof fn lemma_lex_transitive(a: Seq<char>, b: Seq<char>, c: Seq<char>)
    requires
        lex_lt(a, b),
        lex_lt(b, c),
    ensures
        lex_lt(a, c),
    decreases a.len(),
{
    if a.len() > 0 && b.len() > 0 && c.len() > 0 && a[0] == b[0] && b[0] == c[0] {
        lemma_lex_transitive(a.drop_first(), b.drop_first(), c.drop_first());
    }
}

/// Whether `a` precedes `b` in the order of `lex_lt`.
pub fn lex_less(a: &str, b: &str) -> (r: bool)
    ensures
        r == lex_lt(a@, b@),
{
    let la = a.unicode_len();
    let lb = b.unicode_len();
    let mut i: usize = 0;
    proof {
        assert(a@.skip(0) =~= a@);
        assert(b@.skip(0) =~= b@);
    }
    while i < la && i < lb
        invariant
            la == a@.len(),
            lb == b@.len(),
            i <= la,
            i <= lb,
            lex_lt(a@, b@) == lex_lt(a@.skip(i as int), b@.skip(i as int)),
        decreases la - i,
    {
        let ca = a.get_char(i);
        let cb = b.get_char(i);
        proof {
            assert(a@.skip(i as int)[0] == ca);
            assert(b@.skip(i as int)[0] == cb);
            assert(a@.skip(i as int).drop_first() =~= a@.skip(i + 1));
            assert(b@.skip(i as int).drop_first() =~= b@.skip(i + 1));
        }
        if ca != cb {
            return (ca as u32) < (cb as u32);
        }
        i = i + 1;
    }
    i < lb
}

/// Mathematical view of a [`ListEntry`].
pub struct ListView {
    pub id: Seq<char>,
    pub parent: Option<Seq<char>>,
    pub status: NodeStatus,
}

impl View for ListEntry {
    type V = ListView;

    open spec fn view(&self) -> ListView {
        ListView { id: self.id@, parent: opt_id_view(self.parent), status: self.status }
    }
}

/// Entries strictly increasing by id.
pub open spec fn sorted_by_id(es: Seq<ListEntry>) -> bool {
    forall|i: int, j: int| 0 <= i < j < es.len() ==> lex_lt(es[i]@.id, es[j]@.id)
}

/// A listing names each agent once: its entries, strictly increasing by
/// id, have pairwise different ids.
pub proof fn lemma_listing_names_each_once(es: Seq<ListEntry>, i: int, j: int)
    requires
        sorted_by_id(es),
        0 <= i < j < es.len(),
    ensures
        es[i]@.id != es[j]@.id,
{
    lemma_lex_irreflexive(es[i]@.id);
}

impl AgentRouter {
    /// `k` is listed for `caller`: live in the caller's tab and, for a
    /// subtree listing, the caller or one of its descendants.
    pub open spec fn listed(&self, caller: Seq<char>, subtree: bool, k: Seq<char>) -> bool {
        &&& self.nodes().contains_key(k)
        &&& self.nodes()[k].root == self.nodes()[caller].root
        &&& (!subtree || self.descends_spec(k, caller))
    }

    /// The caller's tab members (or its subtree), sorted by id; `None` for
    /// an unknown caller.
    pub fn handle_list(&self, caller: &AgentId, subtree: bool) -> (r: Option<Vec<ListEntry>>)
        requires
            self.wf(),
        ensures
            r is None <==> !self.nodes().contains_key(caller@),
            r matches Some(es) ==> {
                &&& sorted_by_id(es@)
                &&& forall|i: int| 0 <= i < es@.len() ==> {
                    &&& self.listed(caller@, subtree, #[trigger] es@[i]@.id)
                    &&& es@[i]@.parent == self.nodes()[es@[i]@.id].parent
                    &&& es@[i]@.status == self.nodes()[es@[i]@.id].status
                }
                &&& forall|k: Seq<char>| #[trigger] self.listed(caller@, subtree, k)
                    ==> exists|i: int| 0 <= i < es@.len() && es@[i]@.id == k
            },
    {
        let ci = match super::graph::find(&self.graph, caller) {
            None => {
                return None;
            },
            Some(ci) => ci,
        };
        let mut out: Vec<ListEntry> = Vec::new();
        let mut i: usize = 0;
        while i < self.graph.len()
            invariant
                self.wf(),
                ci < self.graph@.len(),
                self.graph@[ci as int].0@ == caller@,
                self.nodes().contains_key(caller@),
                self.nodes()[caller@] == self.graph@[ci as int].1@,
                i <= self.graph@.len(),
                sorted_by_id(out@),
                forall|j: int| 0 <= j < out@.len() ==> {
                    &&& self.listed(caller@, subtree, #[trigger] out@[j]@.id)
                    &&& out@[j]@.parent == self.nodes()[out@[j]@.id].parent
                    &&& out@[j]@.status == self.nodes()[out@[j]@.id].status
                    &&& exists|t: int| 0 <= t < i && self.graph@[t].0@ == out@[j]@.id
                },
                forall|t: int| 0 <= t < i && #[trigger] self.listed(caller@, subtree, self.graph@[t].0@)
                    ==> exists|j: int| 0 <= j < out@.len() && out@[j]@.id == self.graph@[t].0@,
            decreases self.graph@.len() - i,
        {
            let (id, node) = (&self.graph[i].0, &self.graph[i].1);
            proof {
                lemma_gmap_index(self.graph@, i as int);
            }
            let member = node.root.same(&self.graph[ci].1.root) && (!subtree || self.descends(id, caller));
            if member {
                // find the insertion point: the first entry ordered after `id`
                let mut p: usize = 0;
                while p < out.len() && !lex_less(id.as_str(), out[p].id.as_str())
                    invariant
                        p <= out@.len(),
                        forall|j: int| 0 <= j < p ==> !lex_lt(id@, #[trigger] out@[j]@.id),
                    decreases out@.len() - p,
                {
                    p = p + 1;
                }
                let entry = ListEntry { id: id.clone(), parent: clone_opt_id(&node.parent), status: node.status };
                let ghost o0 = out@;
                proof {
                    // the new id differs from every listed one (ids are unique)
                    assert forall|j: int| 0 <= j < o0.len() implies #[trigger] o0[j]@.id != id@ by {
                        let t = choose|t: int| 0 <= t < i && self.graph@[t].0@ == o0[j]@.id;
                        assert(self.graph@[t].0@ != self.graph@[i as int].0@);
                    }
                    assert forall|j: int| 0 <= j < p implies lex_lt(#[trigger] o0[j]@.id, id@) by {
                        lemma_lex_total(o0[j]@.id, id@);
                    }
                    assert forall|j: int| p <= j < o0.len() implies lex_lt(id@, #[trigger] o0[j]@.id) by {
                        if j > p {
                            lemma_lex_transitive(id@, o0[p as int]@.id, o0[j]@.id);
                        }
                    }
                }
                out.insert(p, entry);
                proof {
                    assert forall|a: int, b: int| 0 <= a < b < out@.len() implies lex_lt(out@[a]@.id, out@[b]@.id) by {
                        if a < p && b < p {
                            assert(out@[a] == o0[a] && out@[b] == o0[b]);
                        } else if a < p && b == p {
                            assert(out@[a] == o0[a]);
                        } else if a < p {
                            assert(out@[a] == o0[a] && out@[b] == o0[b - 1]);
                            lemma_lex_transitive(o0[a]@.id, id@, o0[b - 1]@.id);
                        } else if a == p {
                            assert(out@[b] == o0[b - 1]);
                        } else {
                            assert(out@[a] == o0[a - 1] && out@[b] == o0[b - 1]);
                        }
                    }
                    assert forall|j: int| 0 <= j < out@.len() implies {
                        &&& self.listed(caller@, subtree, #[trigger] out@[j]@.id)
                        &&& out@[j]@.parent == self.nodes()[out@[j]@.id].parent
                        &&& out@[j]@.status == self.nodes()[out@[j]@.id].status
                        &&& exists|t: int| 0 <= t < i + 1 && self.graph@[t].0@ == out@[j]@.id
                    } by {
                        if j < p {
                            assert(out@[j] == o0[j]);
                        } else if j > p {
                            assert(out@[j] == o0[j - 1]);
                        } else {
                            assert(self.graph@[i as int].0@ == out@[j]@.id);
                        }
                    }
                    assert forall|t: int| 0 <= t < i + 1 && #[trigger] self.listed(caller@, subtree, self.graph@[t].0@)
                        implies exists|j: int| 0 <= j < out@.len() && out@[j]@.id == self.graph@[t].0@ by {
                        if t < i {
                            let j = choose|j: int| 0 <= j < o0.len() && o0[j]@.id == self.graph@[t].0@;
                            if j < p {
                                assert(out@[j] == o0[j]);
                            } else {
                                assert(out@[j + 1] == o0[j]);
                            }
                        } else {
                            assert(out@[p as int]@.id == self.graph@[t].0@);
                        }
                    }
                }
            } else {
                proof {
                    assert(!self.listed(caller@, subtree, self.graph@[i as int].0@));
                }
            }
            i = i + 1;
        }
        proof {
            assert forall|k: Seq<char>| #[trigger] self.listed(caller@, subtree, k)
                implies exists|j: int| 0 <= j < out@.len() && out@[j]@.id == k by {
                super::graph::lemma_gmap_dom(self.graph@, k);
                let t = choose|t: int| 0 <= t < self.graph@.len() && self.graph@[t].0@ == k;
                assert(self.listed(caller@, subtree, self.graph@[t].0@));
            }
        }
        Some(out)
    }
}

} // verus!
