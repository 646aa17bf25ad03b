//! An in-memory record of verb actions, one list per verb, each action
//! timestamped when it is recorded.

use vstd::prelude::*;
use crate::errors::MeError;
use crate::me::now_rfc3339;
use crate::model::{Action, ActionView};

verus! {

/// The view of a list of actions.
pub open spec fn actions_view(s: Seq<Action>) -> Seq<ActionView> {
    s.map_values(|a: Action| a@)
}

/// In-memory verb lists: what an identity is, has, where it is, whom it
/// relates and reacts to, and what it says.
#[derive(Debug)]
pub struct Verbs {
    pub be: Vec<Action>,
    pub have: Vec<Action>,
    pub at: Vec<Action>,
    pub relate: Vec<Action>,
    pub react: Vec<Action>,
    pub say: Vec<Action>,
}

/// All six lists are empty.
pub open spec fn verbs_empty(v: &Verbs) -> bool {
    v.be@.len() == 0 && v.have@.len() == 0 && v.at@.len() == 0 && v.relate@.len() == 0
        && v.react@.len() == 0 && v.say@.len() == 0
}

/// One list grew by one action holding the key and value, timestamped at
/// the call; every sequence named here is the view of the matching field.
pub open spec fn appended(
    pre: Seq<Action>,
    post: Seq<Action>,
    key: Seq<char>,
    value: Seq<char>,
) -> bool {
    exists|ts: Seq<char>|
        actions_view(post) == actions_view(pre).push(
            ActionView { key: key, value: value, timestamp: ts },
        )
}

impl Verbs {
    /// A fresh record with every list empty.
    pub fn new() -> (r: Verbs)
        ensures
            verbs_empty(&r),
    {
        Verbs {
            be: Vec::new(),
            have: Vec::new(),
            at: Vec::new(),
            relate: Vec::new(),
            react: Vec::new(),
            say: Vec::new(),
        }
    }

    /// Records what the identity is.
    pub fn be(&mut self, key: &str, value: &str) -> (r: Result<(), MeError>)
        ensures
            r is Ok,
            appended(old(self).be@, final(self).be@, key@, value@),
            final(self).have@ == old(self).have@,
            final(self).at@ == old(self).at@,
            final(self).relate@ == old(self).relate@,
            final(self).react@ == old(self).react@,
            final(self).say@ == old(self).say@,
    {
        let a = Action { key: key.to_owned(), value: value.to_owned(), timestamp: now_rfc3339() };
        let ghost av = a@;
        let ghost pre = self.be@;
        self.be.push(a);
        proof {
            assert(actions_view(self.be@) =~= actions_view(pre).push(av));
        }
        Ok(())
    }

    /// Records what the identity has.
    pub fn have(&mut self, key: &str, value: &str) -> (r: Result<(), MeError>)
        ensures
            r is Ok,
            appended(old(self).have@, final(self).have@, key@, value@),
            final(self).be@ == old(self).be@,
            final(self).at@ == old(self).at@,
            final(self).relate@ == old(self).relate@,
            final(self).react@ == old(self).react@,
            final(self).say@ == old(self).say@,
    {
        let a = Action { key: key.to_owned(), value: value.to_owned(), timestamp: now_rfc3339() };
        let ghost av = a@;
        let ghost pre = self.have@;
        self.have.push(a);
        proof {
            assert(actions_view(self.have@) =~= actions_view(pre).push(av));
        }
        Ok(())
    }

    /// Records where the identity is.
    pub fn at(&mut self, key: &str, value: &str) -> (r: Result<(), MeError>)
        ensures
            r is Ok,
            appended(old(self).at@, final(self).at@, key@, value@),
            final(self).be@ == old(self).be@,
            final(self).have@ == old(self).have@,
            final(self).relate@ == old(self).relate@,
            final(self).react@ == old(self).react@,
            final(self).say@ == old(self).say@,
    {
        let a = Action { key: key.to_owned(), value: value.to_owned(), timestamp: now_rfc3339() };
        let ghost av = a@;
        let ghost pre = self.at@;
        self.at.push(a);
        proof {
            assert(actions_view(self.at@) =~= actions_view(pre).push(av));
        }
        Ok(())
    }

    /// Records a relation of the identity to something.
    pub fn relate(&mut self, key: &str, value: &str) -> (r: Result<(), MeError>)
        ensures
            r is Ok,
            appended(old(self).relate@, final(self).relate@, key@, value@),
            final(self).be@ == old(self).be@,
            final(self).have@ == old(self).have@,
            final(self).at@ == old(self).at@,
            final(self).react@ == old(self).react@,
            final(self).say@ == old(self).say@,
    {
        let a = Action { key: key.to_owned(), value: value.to_owned(), timestamp: now_rfc3339() };
        let ghost av = a@;
        let ghost pre = self.relate@;
        self.relate.push(a);
        proof {
            assert(actions_view(self.relate@) =~= actions_view(pre).push(av));
        }
        Ok(())
    }

    /// Records a reaction of the identity to something.
    pub fn react(&mut self, key: &str, value: &str) -> (r: Result<(), MeError>)
        ensures
            r is Ok,
            appended(old(self).react@, final(self).react@, key@, value@),
            final(self).be@ == old(self).be@,
            final(self).have@ == old(self).have@,
            final(self).at@ == old(self).at@,
            final(self).relate@ == old(self).relate@,
            final(self).say@ == old(self).say@,
    {
        let a = Action { key: key.to_owned(), value: value.to_owned(), timestamp: now_rfc3339() };
        let ghost av = a@;
        let ghost pre = self.react@;
        self.react.push(a);
        proof {
            assert(actions_view(self.react@) =~= actions_view(pre).push(av));
        }
        Ok(())
    }

    /// Records something the identity says.
    pub fn say(&mut self, key: &str, value: &str) -> (r: Result<(), MeError>)
        ensures
            r is Ok,
            appended(old(self).say@, final(self).say@, key@, value@),
            final(self).be@ == old(self).be@,
            final(self).have@ == old(self).have@,
            final(self).at@ == old(self).at@,
            final(self).relate@ == old(self).relate@,
            final(self).react@ == old(self).react@,
    {
        let a = Action { key: key.to_owned(), value: value.to_owned(), timestamp: now_rfc3339() };
        let ghost av = a@;
        let ghost pre = self.say@;
        self.say.push(a);
        proof {
            assert(actions_view(self.say@) =~= actions_view(pre).push(av));
        }
        Ok(())
    }
}

impl Default for Verbs {
    /// A fresh record with every list empty.
    fn default() -> (r: Verbs)
        ensures
            verbs_empty(&r),
    {
        Verbs::new()
    }
}

} // verus!
