//! The user store: records keyed by email, each email at most once.

use vstd::prelude::*;

verus! {

/// A stored user: the normalised email and the password hash, never the
/// plaintext.
pub struct User {
    pub email: String,
    pub password_hash: String,
}

/// A record as the contracts see it: email and password hash.
pub type Record = (Seq<char>, Seq<char>);

impl User {
    pub open spec fn record(&self) -> Record {
        (self.email@, self.password_hash@)
    }
}

/// Why an insert was refused.
#[derive(Clone, Copy, Debug, PartialEq, Eq, Structural)]
pub enum StoreError {
    /// A record with the same email is already stored.
    DuplicateKey,
}

pub open spec fn has_email(records: Seq<Record>, email: Seq<char>) -> bool {
    exists|i: int| 0 <= i < records.len() && (#[trigger] records[i]).0 == email
}

/// No email occurs in two records.
pub open spec fn unique_emails(records: Seq<Record>) -> bool {
    forall|i: int, j: int|
        0 <= i < records.len() && 0 <= j < records.len() && i != j ==> (#[trigger] records[i]).0
            != (#[trigger] records[j]).0
}

/// Inserting `rec`: the records afterwards, and whether it was taken.
pub open spec fn insert_outcome(records: Seq<Record>, rec: Record) -> (Seq<Record>, bool) {
    if has_email(records, rec.0) {
        (records, false)
    } else {
        (records.push(rec), true)
    }
}

/// Whether each of `recs`, inserted one after another, was taken.
pub open spec fn insert_each(records: Seq<Record>, recs: Seq<Record>) -> Seq<bool>
    decreases recs.len(),
{
    if recs.len() == 0 {
        Seq::empty()
    } else {
        let (next, taken) = insert_outcome(records, recs[0]);
        seq![taken] + insert_each(next, recs.drop_first())
    }
}

/// Users held in memory, with the same uniqueness rule as a unique index.
pub struct UserStore {
    users: Vec<User>,
}

impl UserStore {
    pub closed spec fn view(&self) -> Seq<Record> {
        self.users@.map_values(|u: User| u.record())
    }

    pub open spec fn wf(&self) -> bool {
        unique_emails(self@)
    }

    /// An empty store.
    pub fn new() -> (r: UserStore)
        ensures
            r@ == Seq::<Record>::empty(),
            r.wf(),
    {
        let r = UserStore { users: Vec::new() };
        proof {
            assert(r@ =~= Seq::<Record>::empty());
        }
        r
    }

    /// Number of stored users.
    pub fn len(&self) -> (r: usize)
        ensures
            r == self@.len(),
    {
        self.users.len()
    }

    /// Position of the record for `email`, if there is one.
    fn position_of(&self, email: &String) -> (r: Option<usize>)
        ensures
            r matches Some(i) ==> i < self@.len() && self@[i as int].0 == email@,
            r is None <==> !has_email(self@, email@),
    {
        let mut i: usize = 0;
        while i < self.users.len()
            invariant
                i <= self.users.len(),
                self@.len() == self.users.len(),
                forall|j: int| 0 <= j < i ==> (#[trigger] self@[j]).0 != email@,
            decreases self.users.len() - i,
        {
            assert(self@[i as int] == self.users[i as int].record());
            if self.users[i].email == *email {
                return Some(i);
            }
            i = i + 1;
        }
        None
    }

    /// The stored user with `email`, if there is one.
    pub fn find_by_email(&self, email: &String) -> (r: Option<&User>)
        ensures
            r matches Some(u) ==> u.email@ == email@ && self@.contains(u.record()),
            r is None <==> !has_email(self@, email@),
    {
        match self.position_of(email) {
            Some(i) => {
                let u = &self.users[i];
                assert(self@[i as int] == u.record());
                Some(u)
            },
            None => None,
        }
    }

    /// Stores `user` unless its email is already present; the check and the
    /// write are one step, so of two inserts with one email only the first
    /// is taken.
    pub fn insert(&mut self, user: User) -> (r: Result<(), StoreError>)
        requires
            old(self).wf(),
        ensures
            final(self).wf(),
            (final(self)@, r is Ok) == insert_outcome(old(self)@, user.record()),
            r is Err ==> r == Err::<(), StoreError>(StoreError::DuplicateKey),
    {
        match self.position_of(&user.email) {
            Some(_) => Err(StoreError::DuplicateKey),
            None => {
                let ghost rec = user.record();
                self.users.push(user);
                proof {
                    assert(self@ =~= old(self)@.push(rec));
                    assert forall|i: int, j: int|
                        0 <= i < self@.len() && 0 <= j < self@.len() && i != j implies (
                        #[trigger] self@[i]).0 != (#[trigger] self@[j]).0 by {
                        if i == old(self)@.len() as int {
                            assert(old(self)@[j] == self@[j]);
                        } else if j == old(self)@.len() as int {
                            assert(old(self)@[i] == self@[i]);
                        }
                    }
                }
                Ok(())
            },
        }
    }
}

/// Of inserts with one email into a store that lacks it, the first is
/// taken and every later one is refused.
pub proof fn lemma_one_insert_per_email(records: Seq<Record>, recs: Seq<Record>, email: Seq<char>)
    requires
        recs.len() > 0,
        forall|i: int| 0 <= i < recs.len() ==> (#[trigger] recs[i]).0 == email,
        !has_email(records, email),
    ensures
        insert_each(records, recs).len() == recs.len(),
        insert_each(records, recs)[0],
        forall|i: int| 1 <= i < recs.len() ==> !(#[trigger] insert_each(records, recs)[i]),
{
    let next = records.push(recs[0]);
    assert(next[records.len() as int].0 == email);
    lemma_inserts_refused(next, recs.drop_first(), email);
    assert forall|i: int| 1 <= i < recs.len() implies !(#[trigger] insert_each(records, recs)[i]) by {
        assert(insert_each(records, recs)[i] == insert_each(next, recs.drop_first())[i - 1]);
    }
}

/// Of inserts with an email that the store already holds, every one is
/// refused and the records stay as they were.
pub proof fn lemma_inserts_refused(records: Seq<Record>, recs: Seq<Record>, email: Seq<char>)
    requires
        forall|i: int| 0 <= i < recs.len() ==> (#[trigger] recs[i]).0 == email,
        has_email(records, email),
    ensures
        insert_each(records, recs).len() == recs.len(),
        forall|i: int| 0 <= i < recs.len() ==> !(#[trigger] insert_each(records, recs)[i]),
    decreases recs.len(),
{
    if recs.len() > 0 {
        let rest = recs.drop_first();
        assert forall|i: int| 0 <= i < rest.len() implies (#[trigger] rest[i]).0 == email by {
            assert(rest[i] == recs[i + 1]);
        }
        lemma_inserts_refused(records, rest, email);
        assert forall|i: int| 0 <= i < recs.len() implies !(#[trigger] insert_each(records, recs)[i]) by {
            if i > 0 {
                assert(insert_each(records, recs)[i] == insert_each(records, rest)[i - 1]);
            }
        }
    }
}

} // verus!
