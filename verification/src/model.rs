//! The data model of the verb ledger: verbs, entries, actions and query
//! filters, with their mathematical views.

use vstd::prelude::*;
use crate::text::str_eq;

verus! {

/// One of the fixed set of fact types the ledger records.
#[derive(Clone, Copy, Debug, PartialEq, Eq, Structural)]
pub enum Verb {
    Be,
    Have,
    Do,
    At,
    Relate,
    React,
    Communicate,
}

impl Verb {
    /// The canonical spelling of the verb.
    pub open spec fn spec_name(self) -> Seq<char> {
        match self {
            Verb::Be => seq!['b', 'e'],
            Verb::Have => seq!['h', 'a', 'v', 'e'],
            Verb::Do => seq!['d', 'o'],
            Verb::At => seq!['a', 't'],
            Verb::Relate => seq!['r', 'e', 'l', 'a', 't', 'e'],
            Verb::React => seq!['r', 'e', 'a', 'c', 't'],
            Verb::Communicate => seq!['c', 'o', 'm', 'm', 'u', 'n', 'i', 'c', 'a', 't', 'e'],
        }
    }

    /// The verb a name denotes; `do` is also accepted in its
    /// table spelling `do_`.
    pub open spec fn spec_parse(s: Seq<char>) -> Option<Verb> {
        if s == Verb::Be.spec_name() {
            Some(Verb::Be)
        } else if s == Verb::Have.spec_name() {
            Some(Verb::Have)
        } else if s == Verb::Do.spec_name() || s == seq!['d', 'o', '_'] {
            Some(Verb::Do)
        } else if s == Verb::At.spec_name() {
            Some(Verb::At)
        } else if s == Verb::Relate.spec_name() {
            Some(Verb::Relate)
        } else if s == Verb::React.spec_name() {
            Some(Verb::React)
        } else if s == Verb::Communicate.spec_name() {
            Some(Verb::Communicate)
        } else {
            None
        }
    }

    /// Every verb, in the order the fan-out query visits them.
    pub open spec fn spec_all() -> Seq<Verb> {
        seq![
            Verb::Be,
            Verb::Do,
            Verb::Have,
            Verb::At,
            Verb::Relate,
            Verb::React,
            Verb::Communicate,
        ]
    }

    /// The canonical spelling of the verb.
    pub fn name(self) -> (r: &'static str)
        ensures
            r@ == self.spec_name(),
    {
        proof {
            reveal_strlit("be");
            reveal_strlit("have");
            reveal_strlit("do");
            reveal_strlit("at");
            reveal_strlit("relate");
            reveal_strlit("react");
            reveal_strlit("communicate");
            assert("be"@ =~= Verb::Be.spec_name());
            assert("have"@ =~= Verb::Have.spec_name());
            assert("do"@ =~= Verb::Do.spec_name());
            assert("at"@ =~= Verb::At.spec_name());
            assert("relate"@ =~= Verb::Relate.spec_name());
            assert("react"@ =~= Verb::React.spec_name());
            assert("communicate"@ =~= Verb::Communicate.spec_name());
        }
        match self {
            Verb::Be => "be",
            Verb::Have => "have",
            Verb::Do => "do",
            Verb::At => "at",
            Verb::Relate => "relate",
            Verb::React => "react",
            Verb::Communicate => "communicate",
        }
    }

    /// Parses a verb name; accepts `do_` for `do`.
    pub fn parse(s: &str) -> (r: Option<Verb>)
        ensures
            r == Verb::spec_parse(s@),
    {
        proof {
            reveal_strlit("be");
            reveal_strlit("have");
            reveal_strlit("do");
            reveal_strlit("do_");
            reveal_strlit("at");
            reveal_strlit("relate");
            reveal_strlit("react");
            reveal_strlit("communicate");
            assert("be"@ =~= Verb::Be.spec_name());
            assert("have"@ =~= Verb::Have.spec_name());
            assert("do"@ =~= Verb::Do.spec_name());
            assert("do_"@ =~= seq!['d', 'o', '_']);
            assert("at"@ =~= Verb::At.spec_name());
            assert("relate"@ =~= Verb::Relate.spec_name());
            assert("react"@ =~= Verb::React.spec_name());
            assert("communicate"@ =~= Verb::Communicate.spec_name());
        }
        if str_eq(s, "be") {
            Some(Verb::Be)
        } else if str_eq(s, "have") {
            Some(Verb::Have)
        } else if str_eq(s, "do") || str_eq(s, "do_") {
            Some(Verb::Do)
        } else if str_eq(s, "at") {
            Some(Verb::At)
        } else if str_eq(s, "relate") {
            Some(Verb::Relate)
        } else if str_eq(s, "react") {
            Some(Verb::React)
        } else if str_eq(s, "communicate") {
            Some(Verb::Communicate)
        } else {
            None
        }
    }

    /// Every verb, in the order the fan-out query visits them.
    pub fn all() -> (r: Vec<Verb>)
        ensures
            r@ == Verb::spec_all(),
    {
        let mut v: Vec<Verb> = Vec::new();
        v.push(Verb::Be);
        v.push(Verb::Do);
        v.push(Verb::Have);
        v.push(Verb::At);
        v.push(Verb::Relate);
        v.push(Verb::React);
        v.push(Verb::Communicate);
        proof {
            assert(v@ =~= Verb::spec_all());
        }
        v
    }
}

/// One recorded fact: an immutable row of a verb table.
#[derive(Debug, Clone)]
pub struct Entry {
    pub verb: Verb,
    pub context_id: String,
    pub key: String,
    pub value: String,
    pub timestamp: String,
}

/// The mathematical view of an [`Entry`].
pub ghost struct EntryView {
    pub verb: Verb,
    pub context_id: Seq<char>,
    pub key: Seq<char>,
    pub value: Seq<char>,
    pub timestamp: Seq<char>,
}

impl View for Entry {
    type V = EntryView;

    open spec fn view(&self) -> EntryView {
        EntryView {
            verb: self.verb,
            context_id: self.context_id@,
            key: self.key@,
            value: self.value@,
            timestamp: self.timestamp@,
        }
    }
}

impl Entry {
    /// A field-for-field copy.
    pub fn duplicate(&self) -> (r: Entry)
        ensures
            r@ == self@,
    {
        Entry {
            verb: self.verb,
            context_id: self.context_id.clone(),
            key: self.key.clone(),
            value: self.value.clone(),
            timestamp: self.timestamp.clone(),
        }
    }
}

/// The view of a sequence of entries.
pub open spec fn entries_view(s: Seq<Entry>) -> Seq<EntryView> {
    s.map_values(|e: Entry| e@)
}

/// One action under a verb: a key, a value and the insertion timestamp.
#[derive(Debug, Clone)]
pub struct Action {
    pub key: String,
    pub value: String,
    pub timestamp: String,
}

/// The mathematical view of an [`Action`].
pub ghost struct ActionView {
    pub key: Seq<char>,
    pub value: Seq<char>,
    pub timestamp: Seq<char>,
}

impl View for Action {
    type V = ActionView;

    open spec fn view(&self) -> ActionView {
        ActionView { key: self.key@, value: self.value@, timestamp: self.timestamp@ }
    }
}

/// A query request: a verb name (or `all` for the fan-out mode) and
/// optional predicates over the entry columns, with pagination.
#[derive(Debug, Clone)]
pub struct GetFilter {
    pub verb: String,
    pub context_id: Option<String>,
    pub key: Option<String>,
    pub value: Option<String>,
    pub since: Option<String>,
    pub until: Option<String>,
    pub limit: Option<usize>,
    pub offset: Option<usize>,
}

/// The view of an optional string.
pub open spec fn opt_view(o: Option<String>) -> Option<Seq<char>> {
    match o {
        Some(s) => Some(s@),
        None => None,
    }
}

/// The mathematical view of a [`GetFilter`].
pub ghost struct FilterView {
    pub verb: Seq<char>,
    pub context_id: Option<Seq<char>>,
    pub key: Option<Seq<char>>,
    pub value: Option<Seq<char>>,
    pub since: Option<Seq<char>>,
    pub until: Option<Seq<char>>,
    pub limit: Option<usize>,
    pub offset: Option<usize>,
}

impl View for GetFilter {
    type V = FilterView;

    open spec fn view(&self) -> FilterView {
        FilterView {
            verb: self.verb@,
            context_id: opt_view(self.context_id),
            key: opt_view(self.key),
            value: opt_view(self.value),
            since: opt_view(self.since),
            until: opt_view(self.until),
            limit: self.limit,
            offset: self.offset,
        }
    }
}

impl GetFilter {
    /// A filter that selects every entry of one verb name.
    pub fn for_verb(verb: &str) -> (r: GetFilter)
        ensures
            r@.verb == verb@,
            r@.context_id is None,
            r@.key is None,
            r@.value is None,
            r@.since is None,
            r@.until is None,
            r@.limit is None,
            r@.offset is None,
    {
        GetFilter {
            verb: verb.to_owned(),
            context_id: None,
            key: None,
            value: None,
            since: None,
            until: None,
            limit: None,
            offset: None,
        }
    }
}

} // verus!
