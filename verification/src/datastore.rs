use vstd::prelude::*;
use vstd::string::StringExecFns;

use crate::names::{contains_name, distinct, lemma_push_contains, lemma_push_distinct, name_views,
    push_name};

verus! {

/// The messages of `log` at index `cursor` and above, in log order; empty
/// when `cursor` lies at or past the end of the log.
pub open spec fn log_suffix(log: Seq<Seq<char>>, cursor: int) -> Seq<Seq<char>> {
    if 0 <= cursor <= log.len() {
        log.subrange(cursor, log.len() as int)
    } else {
        Seq::empty()
    }
}

/// In-memory store owning the set of ever-registered usernames and the
/// global, append-only message log.
pub struct DataStore {
    users: Vec<String>,
    messages: Vec<String>,
}

impl DataStore {
    /// The registered usernames, in registration order.
    pub closed spec fn reg_names(self) -> Seq<Seq<char>> {
        name_views(self.users@)
    }

    /// Whether `u` has ever been registered.
    pub open spec fn is_registered(self, u: Seq<char>) -> bool {
        self.reg_names().contains(u)
    }

    /// The message log, in append order.
    pub closed spec fn log(self) -> Seq<Seq<char>> {
        self.messages@.map_values(|m: String| m@)
    }

    /// Registered usernames are pairwise distinct.
    pub open spec fn wf(self) -> bool {
        distinct(self.reg_names())
    }

    /// A fresh store: no registered user, empty log.
    pub fn new() -> (r: DataStore)
        ensures
            r.wf(),
            r.log() == Seq::<Seq<char>>::empty(),
            forall|u: Seq<char>| !r.is_registered(u),
    {
        let r = DataStore { users: Vec::new(), messages: Vec::new() };
        proof {
            assert(r.reg_names() =~= Seq::<Seq<char>>::empty());
            assert(r.log() =~= Seq::<Seq<char>>::empty());
        }
        r
    }

    /// Registers `username`; returns `true` iff it was not registered before.
    /// The log is untouched either way, and no other name's registration
    /// status changes.
    pub fn create_user(&mut self, username: &str) -> (r: bool)
        requires
            old(self).wf(),
        ensures
            final(self).wf(),
            r == !old(self).is_registered(username@),
            final(self).log() == old(self).log(),
            forall|u: Seq<char>|
                final(self).is_registered(u) == (old(self).is_registered(u) || u == username@),
    {
        if self.user_exists(username) {
            false
        } else {
            let uname = String::from_str(username);
            proof {
                lemma_push_distinct(old(self).reg_names(), username@);
            }
            push_name(&mut self.users, uname);
            proof {
                assert forall|u: Seq<char>|
                    self.is_registered(u) == (old(self).is_registered(u) || u == username@) by {
                    lemma_push_contains(old(self).reg_names(), username@, u);
                }
            }
            true
        }
    }

    /// Whether `username` has ever been registered.
    pub fn user_exists(&self, username: &str) -> (r: bool)
        ensures
            r == self.is_registered(username@),
    {
        let uname = String::from_str(username);
        contains_name(&self.users, &uname)
    }

    /// Appends `message` at the end of the log; it receives the next index.
    /// Registrations are untouched.
    pub fn add_message(&mut self, message: String)
        ensures
            final(self).log() == old(self).log().push(message@),
            final(self).reg_names() == old(self).reg_names(),
    {
        let ghost oldlog = self.log();
        self.messages.push(message);
        proof {
            assert(self.log() =~= oldlog.push(message@));
        }
    }

    /// A snapshot copy of every message at index `cursor` and above, in log
    /// order; empty when `cursor` lies at or past the end of the log.
    pub fn get_messages(&self, cursor: usize) -> (r: Vec<String>)
        ensures
            r@.map_values(|m: String| m@) == log_suffix(self.log(), cursor as int),
    {
        let n = self.messages.len();
        let mut out: Vec<String> = Vec::new();
        if cursor >= n {
            proof {
                assert(out@.map_values(|m: String| m@) =~= log_suffix(self.log(), cursor as int));
            }
            return out;
        }
        let mut i: usize = cursor;
        while i < n
            invariant
                n == self.messages.len(),
                cursor <= i <= n,
                out@.map_values(|m: String| m@) =~= self.log().subrange(cursor as int, i as int),
            decreases n - i,
        {
            let ghost prev = out@.map_values(|m: String| m@);
            out.push(self.messages[i].clone());
            proof {
                assert(out@.map_values(|m: String| m@) =~= prev.push(self.log()[i as int]));
                assert(out@.map_values(|m: String| m@) =~= self.log().subrange(
                    cursor as int,
                    i as int + 1,
                ));
            }
            i += 1;
        }
        proof {
            assert(out@.map_values(|m: String| m@) =~= log_suffix(self.log(), cursor as int));
        }
        out
    }
}

} // verus!
