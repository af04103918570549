//! Configuration rules: list helpers, shell expansion of configured paths,
//! and the cross-reference checks between assistants and providers.

use vstd::prelude::*;

verus! {

/// The views of a sequence of strings.
pub open spec fn strs_view(v: Seq<String>) -> Seq<Seq<char>> {
    v.map_values(|s: String| s@)
}

/// Owned copies of `values`, in order.
pub fn vec(values: &[&str]) -> (r: Vec<String>)
    ensures
        r@.len() == values@.len(),
        forall|i: int| 0 <= i < values@.len() ==> #[trigger] r@[i]@ == values@[i]@,
{
    let mut r: Vec<String> = Vec::new();
    let mut i: usize = 0;
    while i < values.len()
        invariant
            i <= values@.len(),
            r@.len() == i,
            forall|j: int| 0 <= j < i ==> #[trigger] r@[j]@ == values@[j]@,
        decreases values@.len() - i,
    {
        r.push(String::from_str(values[i]));
        i = i + 1;
    }
    r
}

/// The successful expansions, in order.
pub open spec fn flatten(o: Seq<Option<Seq<char>>>) -> Seq<Seq<char>>
    decreases o.len(),
{
    if o.len() == 0 {
        Seq::empty()
    } else {
        match o.last() {
            Some(s) => flatten(o.drop_last()).push(s),
            None => flatten(o.drop_last()),
        }
    }
}

/// The views of optional strings.
pub open spec fn opts_view(o: Seq<Option<String>>) -> Seq<Option<Seq<char>>> {
    o.map_values(|x: Option<String>| match x {
        Some(s) => Some(s@),
        None => None,
    })
}

/// Keeps the values whose expansion succeeded, in order.
pub fn keep_expanded(outcomes: Vec<Option<String>>) -> (r: Vec<String>)
    ensures
        strs_view(r@) == flatten(opts_view(outcomes@)),
{
    let ghost o = opts_view(outcomes@);
    let mut r: Vec<String> = Vec::new();
    let mut rest = outcomes;
    let mut taken: Ghost<Seq<Option<String>>> = Ghost(Seq::empty());
    while rest.len() > 0
        invariant
            taken@ + rest@ == outcomes@,
            strs_view(r@) == flatten(opts_view(taken@)),
        decreases rest@.len(),
    {
        let x = rest.remove(0);
        let ghost t0 = taken@;
        proof {
            taken@ = t0.push(x);
            assert(opts_view(taken@).drop_last() =~= opts_view(t0));
            assert(t0.push(x) + rest@ =~= outcomes@);
        }
        match x {
            Some(s) => {
                let ghost r0 = r@;
                r.push(s);
                proof {
                    assert(strs_view(r@) =~= strs_view(r0).push(s@));
                }
            },
            None => {},
        }
    }
    proof {
        assert(taken@ =~= outcomes@);
    }
    r
}

/// A value shell expansion leaves alone: no `$` anywhere, no leading `~`.
pub open spec fn plain(value: Seq<char>) -> bool {
    &&& !value.contains('$')
    &&& !(value.len() > 0 && value[0] == '~')
}

/// The outcomes of expanding `values`: a plain value expands to itself.
pub open spec fn expansion_outcomes(o: Seq<Option<Seq<char>>>, values: Seq<Seq<char>>) -> bool {
    &&& o.len() == values.len()
    &&& forall|i: int| 0 <= i < values.len() && plain(#[trigger] values[i]) ==> o[i] == Some(values[i])
}

/// Shell-expands one configured value (`~`, `$VAR`, `${VAR}`) with
/// `shellexpand::full`; `None` when a variable lookup fails. What a `~` or
/// a variable becomes depends on the process environment and home
/// directory, so only this is stated: a value without `$` and without a
/// leading `~` comes back unchanged (the source returns it borrowed).
#[verifier::external_body]
fn shell_expand(value: &str) -> (r: Option<String>)
    ensures
        r is Some || !plain(value@),
        r matches Some(s) ==> (plain(value@) ==> s@ == value@),
{
    shellexpand::full(value).ok().map(|expanded| expanded.into_owned())
}

/// Shell-expands each value, dropping those whose expansion fails.
pub fn expand_vec(values: &Vec<String>) -> (r: Vec<String>)
    ensures
        exists|o: Seq<Option<Seq<char>>>| expansion_outcomes(o, strs_view(values@)) && strs_view(r@) == flatten(o),
{
    let mut outcomes: Vec<Option<String>> = Vec::new();
    let mut i: usize = 0;
    while i < values.len()
        invariant
            i <= values@.len(),
            outcomes@.len() == i,
            forall|j: int| 0 <= j < i && plain(#[trigger] values@[j]@) ==> opts_view(outcomes@)[j] == Some(values@[j]@),
        decreases values@.len() - i,
    {
        let e = shell_expand(values[i].as_str());
        let ghost o0 = outcomes@;
        outcomes.push(e);
        proof {
            assert forall|j: int| 0 <= j < i + 1 && plain(#[trigger] values@[j]@) implies opts_view(outcomes@)[j] == Some(values@[j]@) by {
                if j < i {
                    assert(outcomes@[j] == o0[j]);
                }
            }
        }
        i = i + 1;
    }
    let ghost o = opts_view(outcomes@);
    let r = keep_expanded(outcomes);
    proof {
        assert forall|j: int| 0 <= j < strs_view(values@).len() && plain(#[trigger] strs_view(values@)[j]) implies o[j] == Some(strs_view(values@)[j]) by {
            assert(strs_view(values@)[j] == values@[j]@);
        }
        assert(expansion_outcomes(o, strs_view(values@)));
    }
    r
}

/// An assistant's id and the provider it references.
#[derive(Debug)]
pub struct AssistantRef {
    pub id: String,
    pub provider: String,
}

/// The cross-references of a configuration, in file order.
#[derive(Debug)]
pub struct ConfigRefs {
    pub providers: Vec<String>,
    pub assistants: Vec<AssistantRef>,
    /// assistants for new tabs (round robin)
    pub primary_assistant: Vec<String>,
    /// if empty, subagents inherit their parent's assistant
    pub subagent_assistant: Vec<String>,
}

/// A broken cross-reference.
#[derive(Debug)]
pub enum ConfigError {
    UnknownProvider { assistant: String, provider: String },
    EmptyAssistant,
    UnknownAssistant(String),
}

/// Mathematical view of a [`ConfigError`].
pub enum ConfigErrorView {
    UnknownProvider(Seq<char>, Seq<char>),
    EmptyAssistant,
    UnknownAssistant(Seq<char>),
}

impl View for ConfigError {
    type V = ConfigErrorView;

    open spec fn view(&self) -> ConfigErrorView {
        match self {
            ConfigError::UnknownProvider { assistant, provider } => ConfigErrorView::UnknownProvider(assistant@, provider@),
            ConfigError::EmptyAssistant => ConfigErrorView::EmptyAssistant,
            ConfigError::UnknownAssistant(id) => ConfigErrorView::UnknownAssistant(id@),
        }
    }
}

/// `Debug` rendering of a string (quoted, escaped).
pub uninterp spec fn debug_quoted(s: Seq<char>) -> Seq<char>;

/// `format!("{s:?}")`: the string's `Debug` rendering.
#[verifier::external_body]
fn debug_str(s: &str) -> (r: String)
    ensures
        r@ == debug_quoted(s@),
{
    format!("{s:?}")
}

/// The message of a configuration error.
pub open spec fn config_error_message(e: ConfigErrorView) -> Seq<char> {
    match e {
        ConfigErrorView::UnknownProvider(a, p) =>
            "assistant '"@ + debug_quoted(a) + "' references unknown provider '"@ + debug_quoted(p) + "'"@,
        ConfigErrorView::EmptyAssistant => "assistant must not be empty"@,
        ConfigErrorView::UnknownAssistant(id) => "unknown assistant '"@ + debug_quoted(id) + "'"@,
    }
}

impl ConfigError {
    /// The error's message.
    pub fn message(&self) -> (s: String)
        ensures
            s@ == config_error_message(self@),
    {
        match self {
            ConfigError::UnknownProvider { assistant, provider } => {
                let mut s = String::from_str("assistant '");
                let a = debug_str(assistant.as_str());
                s.append(a.as_str());
                s.append("' references unknown provider '");
                let p = debug_str(provider.as_str());
                s.append(p.as_str());
                s.append("'");
                s
            },
            ConfigError::EmptyAssistant => String::from_str("assistant must not be empty"),
            ConfigError::UnknownAssistant(id) => {
                let mut s = String::from_str("unknown assistant '");
                let d = debug_str(id.as_str());
                s.append(d.as_str());
                s.append("'");
                s
            },
        }
    }
}

/// `x` is one of `v`.
pub open spec fn listed(v: Seq<String>, x: Seq<char>) -> bool {
    exists|j: int| 0 <= j < v.len() && v[j]@ == x
}

fn contains_str(v: &Vec<String>, x: &String) -> (r: bool)
    ensures
        r == listed(v@, x@),
{
    let mut j: usize = 0;
    while j < v.len()
        invariant
            j <= v@.len(),
            forall|t: int| 0 <= t < j ==> v@[t]@ != x@,
        decreases v@.len() - j,
    {
        if v[j] == *x {
            return true;
        }
        j = j + 1;
    }
    false
}

/// The first broken reference of an assistant list, if any: an empty list,
/// or the first id that names no assistant.
pub open spec fn assistant_list_error(c: ConfigRefs, list: Seq<String>) -> Option<ConfigErrorView> {
    if list.len() == 0 {
        Some(ConfigErrorView::EmptyAssistant)
    } else if exists|i: int| 0 <= i < list.len() && !known_assistant(c, list[i]@) {
        let i = choose|i: int| 0 <= i < list.len() && !known_assistant(c, list[i]@)
            && forall|j: int| 0 <= j < i ==> known_assistant(c, list[j]@);
        Some(ConfigErrorView::UnknownAssistant(list[i]@))
    } else {
        None
    }
}

/// `id` names a configured assistant.
pub open spec fn known_assistant(c: ConfigRefs, id: Seq<char>) -> bool {
    exists|j: int| 0 <= j < c.assistants@.len() && c.assistants@[j].id@ == id
}

impl ConfigRefs {
    /// The provider ids, and the assistant ids, are each distinct: they are
    /// the keys of the configuration's provider and assistant tables.
    pub open spec fn wf(&self) -> bool {
        &&& forall|i: int, j: int| 0 <= i < j < self.providers@.len() ==> self.providers@[i]@ != self.providers@[j]@
        &&& forall|i: int, j: int| 0 <= i < j < self.assistants@.len() ==> self.assistants@[i].id@ != self.assistants@[j].id@
    }

    /// Whether no provider id and no assistant id occurs twice.
    pub fn keys_distinct(&self) -> (b: bool)
        ensures
            b == self.wf(),
    {
        let mut i: usize = 0;
        while i < self.providers.len()
            invariant
                i <= self.providers@.len(),
                forall|a: int, b: int| 0 <= a < b < self.providers@.len() && a < i ==> self.providers@[a]@ != self.providers@[b]@,
            decreases self.providers@.len() - i,
        {
            let mut j: usize = i + 1;
            while j < self.providers.len()
                invariant
                    i < self.providers@.len(),
                    i + 1 <= j <= self.providers@.len(),
                    forall|a: int, b: int| 0 <= a < b < self.providers@.len() && a < i ==> self.providers@[a]@ != self.providers@[b]@,
                    forall|b: int| i < b < j ==> self.providers@[i as int]@ != self.providers@[b]@,
                decreases self.providers@.len() - j,
            {
                if self.providers[i] == self.providers[j] {
                    return false;
                }
                j = j + 1;
            }
            i = i + 1;
        }
        let mut i: usize = 0;
        while i < self.assistants.len()
            invariant
                i <= self.assistants@.len(),
                forall|a: int, b: int| 0 <= a < b < self.providers@.len() ==> self.providers@[a]@ != self.providers@[b]@,
                forall|a: int, b: int| 0 <= a < b < self.assistants@.len() && a < i ==> self.assistants@[a].id@ != self.assistants@[b].id@,
            decreases self.assistants@.len() - i,
        {
            let mut j: usize = i + 1;
            while j < self.assistants.len()
                invariant
                    i < self.assistants@.len(),
                    i + 1 <= j <= self.assistants@.len(),
                    forall|a: int, b: int| 0 <= a < b < self.assistants@.len() && a < i ==> self.assistants@[a].id@ != self.assistants@[b].id@,
                    forall|b: int| i < b < j ==> self.assistants@[i as int].id@ != self.assistants@[b].id@,
                decreases self.assistants@.len() - j,
            {
                if self.assistants[i].id == self.assistants[j].id {
                    return false;
                }
                j = j + 1;
            }
            i = i + 1;
        }
        true
    }

    fn is_assistant(&self, id: &String) -> (r: bool)
        ensures
            r == known_assistant(*self, id@),
    {
        let mut j: usize = 0;
        while j < self.assistants.len()
            invariant
                j <= self.assistants@.len(),
                forall|t: int| 0 <= t < j ==> self.assistants@[t].id@ != id@,
            decreases self.assistants@.len() - j,
        {
            if self.assistants[j].id == *id {
                return true;
            }
            j = j + 1;
        }
        false
    }

    /// An assistant list must be non-empty and name configured assistants.
    pub fn validate_assistant(&self, list: &Vec<String>) -> (r: Result<(), ConfigError>)
        ensures
            match assistant_list_error(*self, list@) {
                None => r is Ok,
                Some(e) => r matches Err(x) && x@ == e,
            },
    {
        if list.len() == 0 {
            return Err(ConfigError::EmptyAssistant);
        }
        let mut i: usize = 0;
        while i < list.len()
            invariant
                i <= list@.len(),
                list@.len() > 0,
                forall|j: int| 0 <= j < i ==> known_assistant(*self, list@[j]@),
            decreases list@.len() - i,
        {
            if !self.is_assistant(&list[i]) {
                proof {
                    let c = choose|k: int| 0 <= k < list@.len() && !known_assistant(*self, list@[k]@)
                        && forall|j: int| 0 <= j < k ==> known_assistant(*self, list@[j]@);
                    assert(0 <= i < list@.len() && !known_assistant(*self, list@[i as int]@)
                        && forall|j: int| 0 <= j < i ==> known_assistant(*self, list@[j]@));
                    if c < i {
                    } else if c > i {
                        assert(known_assistant(*self, list@[i as int]@));
                    }
                }
                return Err(ConfigError::UnknownAssistant(list[i].clone()));
            }
            i = i + 1;
        }
        Ok(())
    }

    /// Every assistant references a configured provider, the primary list
    /// is valid, and so is the subagent list unless it is empty. The first
    /// violation, in that order, is the error.
    pub fn validate(&self) -> (r: Result<(), ConfigError>)
        ensures
            (exists|i: int| 0 <= i < self.assistants@.len() && !listed(self.providers@, self.assistants@[i].provider@)) ==> {
                let i = choose|i: int| 0 <= i < self.assistants@.len() && !listed(self.providers@, self.assistants@[i].provider@)
                    && forall|j: int| 0 <= j < i ==> listed(self.providers@, self.assistants@[j].provider@);
                r matches Err(x) && x@ == ConfigErrorView::UnknownProvider(self.assistants@[i].id@, self.assistants@[i].provider@)
            },
            (forall|i: int| 0 <= i < self.assistants@.len() ==> listed(self.providers@, self.assistants@[i].provider@)) ==> {
                match assistant_list_error(*self, self.primary_assistant@) {
                    Some(e) => r matches Err(x) && x@ == e,
                    None => if self.subagent_assistant@.len() == 0 {
                        r is Ok
                    } else {
                        match assistant_list_error(*self, self.subagent_assistant@) {
                            Some(e) => r matches Err(x) && x@ == e,
                            None => r is Ok,
                        }
                    },
                }
            },
    {
        let mut i: usize = 0;
        while i < self.assistants.len()
            invariant
                i <= self.assistants@.len(),
                forall|j: int| 0 <= j < i ==> listed(self.providers@, self.assistants@[j].provider@),
            decreases self.assistants@.len() - i,
        {
            if !contains_str(&self.providers, &self.assistants[i].provider) {
                proof {
                    let c = choose|k: int| 0 <= k < self.assistants@.len() && !listed(self.providers@, self.assistants@[k].provider@)
                        && forall|j: int| 0 <= j < k ==> listed(self.providers@, self.assistants@[j].provider@);
                    assert(0 <= i < self.assistants@.len() && !listed(self.providers@, self.assistants@[i as int].provider@)
                        && forall|j: int| 0 <= j < i ==> listed(self.providers@, self.assistants@[j].provider@));
                    if c > i {
                        assert(listed(self.providers@, self.assistants@[i as int].provider@));
                    }
                }
                return Err(ConfigError::UnknownProvider {
                    assistant: self.assistants[i].id.clone(),
                    provider: self.assistants[i].provider.clone(),
                });
            }
            i = i + 1;
        }
        self.validate_assistant(&self.primary_assistant)?;
        if self.subagent_assistant.len() > 0 {
            self.validate_assistant(&self.subagent_assistant)?;
        }
        Ok(())
    }
}

} // verus!
