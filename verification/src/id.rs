//! Agent identifiers: human-readable names, compared by their text.

use crate::text::joined;
use vstd::prelude::*;
use vstd::std_specs::cmp::PartialEqSpecImpl;
use vstd::std_specs::convert::FromSpecImpl;

verus! {

/// How many candidate names one `generate` call produces.
pub const PATIENCE: usize = 3;

/// Words per generated name.
pub const WORDS: u8 = 3;

/// Joins the words of a generated name.
pub const SEPARATOR: &'static str = "-";

/// `name` is `words` non-empty words joined by `sep`.
pub open spec fn is_petname(name: Seq<char>, words: nat, sep: Seq<char>) -> bool {
    exists|ps: Seq<Seq<char>>|
        #![trigger joined(ps, sep)]
        ps.len() == words && (forall|j: int| 0 <= j < ps.len() ==> #[trigger] ps[j].len() > 0)
            && name == joined(ps, sep)
}

/// The identifier of an agent; two ids are equal iff their texts are.
#[derive(Debug)]
pub struct AgentId(String);

impl View for AgentId {
    type V = Seq<char>;

    closed spec fn view(&self) -> Seq<char> {
        self.0@
    }
}

impl AgentId {
    /// Wraps a name.
    pub fn new(name: String) -> (id: Self)
        ensures
            id@ == name@,
    {
        AgentId(name)
    }

    /// The name as a string slice.
    pub fn as_str(&self) -> (s: &str)
        ensures
            s@ == self@,
    {
        self.0.as_str()
    }

    /// The name as an owned string (what `Display` would print).
    pub fn to_string(&self) -> (s: String)
        ensures
            s@ == self@,
    {
        self.0.clone()
    }

    /// Text equality of two ids.
    pub fn same(&self, other: &AgentId) -> (eq: bool)
        ensures
            eq == (self@ == other@),
    {
        self.0 == other.0
    }

    /// `PATIENCE` random names of `WORDS` words joined by `SEPARATOR`,
    /// drawn one after the other.
    pub fn generate() -> (ids: Vec<AgentId>)
        ensures
            ids.len() == PATIENCE,
            forall|i: int| 0 <= i < ids.len() ==> #[trigger] ids[i]@.len() > 0,
            forall|i: int| 0 <= i < ids.len() ==> is_petname(#[trigger] ids[i]@, WORDS as nat, SEPARATOR@),
    {
        let mut ids: Vec<AgentId> = Vec::new();
        while ids.len() < PATIENCE
            invariant
                ids.len() <= PATIENCE,
                forall|i: int| 0 <= i < ids.len() ==> #[trigger] ids[i]@.len() > 0,
                forall|i: int| 0 <= i < ids.len() ==> is_petname(#[trigger] ids[i]@, WORDS as nat, SEPARATOR@),
            decreases PATIENCE - ids.len(),
        {
            match draw_name(WORDS, SEPARATOR) {
                Some(name) => ids.push(AgentId(name)),
                None => {},
            }
        }
        ids
    }
}

/// One name from `petname::Namer::iter` over `petname::Petnames::small()`
/// with `words` words joined by `separator`, drawn with `rand::rng()`. The
/// namer writes `words - 2` adverbs and an adjective, each followed by the
/// separator, then a noun (one noun alone for one word, an adjective and a
/// noun for two); the small lists are not empty and hold words split on
/// whitespace, so each word is non-empty and, with at least one word asked
/// for, a name is always yielded. Which words are drawn is random and is not
/// stated.
#[verifier::external_body]
fn draw_name(words: u8, separator: &str) -> (r: Option<String>)
    ensures
        words >= 1 ==> r is Some,
        r matches Some(name) ==> name@.len() > 0,
        r matches Some(name) ==> is_petname(name@, words as nat, separator@),
{
    petname::Petnames::small().namer(words, separator).iter(&mut rand::rng()).next()
}

impl Clone for AgentId {
    fn clone(&self) -> (copy: Self)
        ensures
            copy@ == self@,
    {
        AgentId(self.0.clone())
    }
}

impl PartialEq for AgentId {
    fn eq(&self, other: &Self) -> (eq: bool) {
        self.0 == other.0
    }
}

impl PartialEqSpecImpl for AgentId {
    open spec fn obeys_eq_spec() -> bool {
        true
    }

    open spec fn eq_spec(&self, other: &AgentId) -> bool {
        self@ == other@
    }
}

impl Eq for AgentId {}

impl From<String> for AgentId {
    fn from(name: String) -> (id: Self)
        ensures
            id@ == name@,
    {
        AgentId(name)
    }
}

impl FromSpecImpl<String> for AgentId {
    open spec fn obeys_from_spec() -> bool {
        true
    }

    closed spec fn from_spec(name: String) -> AgentId {
        AgentId(name)
    }
}

} // verus!
