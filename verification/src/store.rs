//! The verb ledger store: one backend-neutral interface, implemented here by
//! an in-memory engine; persistent adapters implement the same interface
//! against their own storage.

use vstd::prelude::*;
use crate::errors::MeError;
use crate::model::{entries_view, Entry, EntryView, GetFilter, Verb};
use crate::query::{apply_filter, spec_get};
use crate::text::str_eq;

verus! {

/// One identity row as persisted: the username key, the public key, the
/// encrypted private key and the creation timestamp, all as text.
pub struct IdentityRow {
    pub username: String,
    pub public_key: String,
    pub encrypted_private_key: String,
    pub created_at: String,
}

/// The mathematical view of an identity record, keyed by username in the
/// store's map.
pub ghost struct IdentityView {
    pub public_key: Seq<char>,
    pub encrypted_private_key: Seq<char>,
    pub created_at: Seq<char>,
}

impl View for IdentityRow {
    type V = IdentityView;

    open spec fn view(&self) -> IdentityView {
        IdentityView {
            public_key: self.public_key@,
            encrypted_private_key: self.encrypted_private_key@,
            created_at: self.created_at@,
        }
    }
}

/// The identity table a sequence of rows denotes; an earlier row shadows a
/// later row with the same username.
pub open spec fn rows_map(rows: Seq<IdentityRow>) -> Map<Seq<char>, IdentityView>
    decreases rows.len(),
{
    if rows.len() == 0 {
        Map::empty()
    } else {
        rows_map(rows.drop_first()).insert(rows[0].username@, rows[0]@)
    }
}

/// Storage-backend-agnostic interface of the identity table and the verb
/// ledger. Append and query typed facts scoped by context; semantic
/// failures (not-found, already-exists, bad input) are distinguished from
/// connectivity failures, which a caller may retry.
pub trait MeStore: Sized {
    /// The identity table: username to persisted record. An engine gives
    /// this its own meaning; an unverified adapter may leave the default.
    open spec fn identities(&self) -> Map<Seq<char>, IdentityView> {
        Map::empty()
    }

    /// The verb ledger, in insertion order. An engine gives this its own
    /// meaning; an unverified adapter may leave the default.
    open spec fn ledger(&self) -> Seq<EntryView> {
        Seq::empty()
    }

    /// Records a new identity; rejects a username that is already present.
    fn create_identity(
        &mut self,
        username: &str,
        public_key: &str,
        encrypted_private_key: &str,
        created_at: &str,
    ) -> (r: Result<(), MeError>)
        ensures
            match r {
                Ok(()) => ({
                    &&& !old(self).identities().dom().contains(username@)
                    &&& final(self).identities() == old(self).identities().insert(
                        username@,
                        IdentityView {
                            public_key: public_key@,
                            encrypted_private_key: encrypted_private_key@,
                            created_at: created_at@,
                        },
                    )
                    &&& final(self).ledger() == old(self).ledger()
                }),
                Err(e) => match e {
                    MeError::AlreadyExists => ({
                        &&& old(self).identities().dom().contains(username@)
                        &&& final(self).identities() == old(self).identities()
                        &&& final(self).ledger() == old(self).ledger()
                    }),
                    MeError::StoreConnectivity => ({
                        &&& final(self).identities() == old(self).identities()
                        &&& final(self).ledger() == old(self).ledger()
                    }),
                    _ => false,
                },
            },
    ;

    /// Reads the public key and the encrypted private key of an identity.
    fn load_keys(&self, username: &str) -> (r: Result<(String, String), MeError>)
        ensures
            match r {
                Ok(keys) => ({
                    &&& self.identities().dom().contains(username@)
                    &&& self.identities()[username@].public_key == keys.0@
                    &&& self.identities()[username@].encrypted_private_key == keys.1@
                }),
                Err(e) => match e {
                    MeError::NotFound => !self.identities().dom().contains(username@),
                    MeError::StoreConnectivity => true,
                    _ => false,
                },
            },
    ;

    /// Overwrites the encrypted private key of an identity; on any failure
    /// the previously stored record remains as it was.
    fn update_encrypted_private(&mut self, username: &str, encrypted: &str) -> (r: Result<
        (),
        MeError,
    >)
        ensures
            match r {
                Ok(()) => ({
                    &&& old(self).identities().dom().contains(username@)
                    &&& final(self).identities() == old(self).identities().insert(
                        username@,
                        IdentityView {
                            public_key: old(self).identities()[username@].public_key,
                            encrypted_private_key: encrypted@,
                            created_at: old(self).identities()[username@].created_at,
                        },
                    )
                    &&& final(self).ledger() == old(self).ledger()
                }),
                Err(e) => match e {
                    MeError::NotFound => ({
                        &&& !old(self).identities().dom().contains(username@)
                        &&& final(self).identities() == old(self).identities()
                        &&& final(self).ledger() == old(self).ledger()
                    }),
                    MeError::StoreConnectivity => ({
                        &&& final(self).identities() == old(self).identities()
                        &&& final(self).ledger() == old(self).ledger()
                    }),
                    _ => false,
                },
            },
    ;

    /// Appends one immutable row under the named verb; rejects an unknown
    /// verb name.
    fn insert(
        &mut self,
        verb: &str,
        context_id: &str,
        key: &str,
        value: &str,
        timestamp: &str,
    ) -> (r: Result<(), MeError>)
        ensures
            match r {
                Ok(()) => ({
                    let appended = old(self).ledger();
                    &&& Verb::spec_parse(verb@) matches Some(vb) && final(self).ledger()
                        == appended.push(
                        EntryView {
                            verb: vb,
                            context_id: context_id@,
                            key: key@,
                            value: value@,
                            timestamp: timestamp@,
                        },
                    )
                    &&& final(self).identities() == old(self).identities()
                }),
                Err(e) => match e {
                    MeError::Validation => ({
                        &&& Verb::spec_parse(verb@) is None
                        &&& final(self).ledger() == old(self).ledger()
                        &&& final(self).identities() == old(self).identities()
                    }),
                    MeError::StoreConnectivity => ({
                        &&& final(self).identities() == old(self).identities()
                        &&& final(self).ledger() == old(self).ledger()
                    }),
                    _ => false,
                },
            },
    ;

    /// Runs a query; the result is exactly what [`spec_get`] denotes on the
    /// ledger.
    fn get(&self, filter: &GetFilter) -> (r: Result<Vec<Entry>, MeError>)
        ensures
            match r {
                Ok(out) => spec_get(self.ledger(), filter@) == Some(entries_view(out@)),
                Err(e) => match e {
                    MeError::Validation => spec_get(self.ledger(), filter@) is None,
                    MeError::StoreConnectivity => true,
                    _ => false,
                },
            },
    ;
}

/// The embedded in-memory engine: rows and entries held in vectors, the
/// reference implementation of [`MeStore`].
pub struct MemStore {
    rows: Vec<IdentityRow>,
    entries: Vec<Entry>,
}

proof fn lemma_rows_map_first(rows: Seq<IdentityRow>, i: int)
    requires
        0 <= i < rows.len(),
        forall|k: int| 0 <= k < i ==> (#[trigger] rows[k].username)@ != rows[i].username@,
    ensures
        rows_map(rows).dom().contains(rows[i].username@),
        rows_map(rows)[rows[i].username@] == rows[i]@,
    decreases rows.len(),
{
    if i > 0 {
        let rest = rows.drop_first();
        assert forall|k: int| 0 <= k < i - 1 implies (#[trigger] rest[k].username)@ != rest[i
            - 1].username@ by {
            assert(rows[k + 1].username@ != rows[i].username@);
        }
        lemma_rows_map_first(rest, i - 1);
    }
}

proof fn lemma_rows_map_absent(rows: Seq<IdentityRow>, u: Seq<char>)
    requires
        forall|k: int| 0 <= k < rows.len() ==> (#[trigger] rows[k].username)@ != u,
    ensures
        !rows_map(rows).dom().contains(u),
    decreases rows.len(),
{
    if rows.len() > 0 {
        let rest = rows.drop_first();
        assert forall|k: int| 0 <= k < rest.len() implies (#[trigger] rest[k].username)@ != u by {
            assert(rows[k + 1].username@ != u);
        }
        lemma_rows_map_absent(rest, u);
        assert(rows[0].username@ != u);
    }
}

proof fn lemma_rows_map_push_absent(rows: Seq<IdentityRow>, row: IdentityRow)
    requires
        forall|k: int| 0 <= k < rows.len() ==> (#[trigger] rows[k].username)@ != row.username@,
    ensures
        rows_map(rows.push(row)) == rows_map(rows).insert(row.username@, row@),
    decreases rows.len(),
{
    let ext = rows.push(row);
    if rows.len() == 0 {
        assert(ext.drop_first() =~= Seq::<IdentityRow>::empty());
        assert(ext[0] == row);
        assert(rows_map(Seq::<IdentityRow>::empty()) == Map::<Seq<char>, IdentityView>::empty());
        assert(rows =~= Seq::<IdentityRow>::empty());
        assert(rows_map(ext) =~= rows_map(rows).insert(row.username@, row@));
    } else {
        assert(ext.drop_first() =~= rows.drop_first().push(row));
        let rest = rows.drop_first();
        assert forall|k: int| 0 <= k < rest.len() implies (#[trigger] rest[k].username)@
            != row.username@ by {
            assert(rows[k + 1].username@ != row.username@);
        }
        lemma_rows_map_push_absent(rest, row);
        assert(rows[0].username@ != row.username@);
        assert(rows_map(rows) == rows_map(rest).insert(rows[0].username@, rows[0]@));
        assert(ext[0] == rows[0]);
        assert(rows_map(ext) == rows_map(rest.push(row)).insert(rows[0].username@, rows[0]@));
        assert(rows_map(ext) =~= rows_map(rows).insert(row.username@, row@));
    }
}

proof fn lemma_rows_map_update_first(rows: Seq<IdentityRow>, i: int, row: IdentityRow)
    requires
        0 <= i < rows.len(),
        rows[i].username@ == row.username@,
        forall|k: int| 0 <= k < i ==> (#[trigger] rows[k].username)@ != row.username@,
    ensures
        rows_map(rows.update(i, row)) == rows_map(rows).insert(row.username@, row@),
    decreases rows.len(),
{
    let upd = rows.update(i, row);
    if i == 0 {
        assert(upd.drop_first() =~= rows.drop_first());
        assert(upd[0] == row);
        assert(rows_map(upd) =~= rows_map(rows).insert(row.username@, row@));
    } else {
        let rest = rows.drop_first();
        assert(upd.drop_first() =~= rest.update(i - 1, row));
        assert forall|k: int| 0 <= k < i - 1 implies (#[trigger] rest[k].username)@
            != row.username@ by {
            assert(rows[k + 1].username@ != row.username@);
        }
        assert(rest[i - 1].username@ == row.username@);
        lemma_rows_map_update_first(rest, i - 1, row);
        assert(upd[0] == rows[0]);
        assert(rows[0].username@ != row.username@);
        assert(rows_map(upd) =~= rows_map(rows).insert(row.username@, row@));
    }
}

impl MemStore {
    /// An empty store: no identities, an empty ledger.
    pub fn new() -> (r: MemStore)
        ensures
            r.identities() == Map::<Seq<char>, IdentityView>::empty(),
            r.ledger() == Seq::<EntryView>::empty(),
    {
        MemStore { rows: Vec::new(), entries: Vec::new() }
    }

    /// The index of the first row with the given username.
    fn find_row(&self, username: &str) -> (r: Option<usize>)
        ensures
            match r {
                Some(i) => i < self.rows@.len() && self.rows@[i as int].username@ == username@
                    && forall|k: int|
                    0 <= k < i ==> (#[trigger] self.rows@[k].username)@ != username@,
                None => forall|k: int|
                    0 <= k < self.rows@.len() ==> (#[trigger] self.rows@[k].username)@
                        != username@,
            },
    {
        let n = self.rows.len();
        let mut i: usize = 0;
        while i < n
            invariant
                0 <= i <= n,
                n == self.rows@.len(),
                forall|k: int| 0 <= k < i ==> (#[trigger] self.rows@[k].username)@ != username@,
            decreases n - i,
        {
            if str_eq(self.rows[i].username.as_str(), username) {
                return Some(i);
            }
            i = i + 1;
        }
        None
    }
}

impl MeStore for MemStore {
    closed spec fn identities(&self) -> Map<Seq<char>, IdentityView> {
        rows_map(self.rows@)
    }

    closed spec fn ledger(&self) -> Seq<EntryView> {
        entries_view(self.entries@)
    }

    fn create_identity(
        &mut self,
        username: &str,
        public_key: &str,
        encrypted_private_key: &str,
        created_at: &str,
    ) -> (r: Result<(), MeError>)
        ensures
            r is Ok <==> !old(self).identities().dom().contains(username@),
    {
        match self.find_row(username) {
            Some(i) => {
                proof {
                    lemma_rows_map_first(self.rows@, i as int);
                }
                Err(MeError::AlreadyExists)
            },
            None => {
                proof {
                    lemma_rows_map_absent(self.rows@, username@);
                }
                let row = IdentityRow {
                    username: username.to_owned(),
                    public_key: public_key.to_owned(),
                    encrypted_private_key: encrypted_private_key.to_owned(),
                    created_at: created_at.to_owned(),
                };
                proof {
                    lemma_rows_map_push_absent(self.rows@, row);
                }
                self.rows.push(row);
                Ok(())
            },
        }
    }

    fn load_keys(&self, username: &str) -> (r: Result<(String, String), MeError>)
        ensures
            r is Ok <==> self.identities().dom().contains(username@),
    {
        match self.find_row(username) {
            Some(i) => {
                proof {
                    lemma_rows_map_first(self.rows@, i as int);
                }
                Ok(
                    (
                        self.rows[i].public_key.clone(),
                        self.rows[i].encrypted_private_key.clone(),
                    ),
                )
            },
            None => {
                proof {
                    lemma_rows_map_absent(self.rows@, username@);
                }
                Err(MeError::NotFound)
            },
        }
    }

    fn update_encrypted_private(&mut self, username: &str, encrypted: &str) -> (r: Result<
        (),
        MeError,
    >)
        ensures
            r is Ok <==> old(self).identities().dom().contains(username@),
    {
        match self.find_row(username) {
            Some(i) => {
                proof {
                    lemma_rows_map_first(self.rows@, i as int);
                }
                let row = IdentityRow {
                    username: self.rows[i].username.clone(),
                    public_key: self.rows[i].public_key.clone(),
                    encrypted_private_key: encrypted.to_owned(),
                    created_at: self.rows[i].created_at.clone(),
                };
                proof {
                    lemma_rows_map_update_first(self.rows@, i as int, row);
                }
                self.rows.set(i, row);
                Ok(())
            },
            None => {
                proof {
                    lemma_rows_map_absent(self.rows@, username@);
                }
                Err(MeError::NotFound)
            },
        }
    }

    fn insert(
        &mut self,
        verb: &str,
        context_id: &str,
        key: &str,
        value: &str,
        timestamp: &str,
    ) -> (r: Result<(), MeError>)
        ensures
            r is Ok <==> Verb::spec_parse(verb@) is Some,
    {
        match Verb::parse(verb) {
            Some(vb) => {
                let ghost pre = entries_view(self.entries@);
                let e = Entry {
                    verb: vb,
                    context_id: context_id.to_owned(),
                    key: key.to_owned(),
                    value: value.to_owned(),
                    timestamp: timestamp.to_owned(),
                };
                let ghost ev = e@;
                self.entries.push(e);
                proof {
                    assert(entries_view(self.entries@) =~= pre.push(ev));
                }
                Ok(())
            },
            None => Err(MeError::Validation),
        }
    }

    fn get(&self, filter: &GetFilter) -> (r: Result<Vec<Entry>, MeError>)
        ensures
            r is Ok <==> spec_get(self.ledger(), filter@) is Some,
    {
        apply_filter(&self.entries, filter)
    }
}

} // verus!
