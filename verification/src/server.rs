use vstd::prelude::*;
use vstd::string::StringExecFns;

use tokio::sync::mpsc::UnboundedReceiver;
use tokio::sync::mpsc::UnboundedSender;

use crate::channel::{closed, paired, receiver_open, send_connected, send_line, sent,
    unbounded_message_channel};
use crate::datastore::{log_suffix, DataStore};
use crate::messages::{format_logged_on, format_logged_out, format_user_msg, logged_on_msg,
    logged_out_msg, user_msg};
use crate::names::{contains_name, distinct, lemma_push_contains, lemma_push_distinct, name_views,
    push_name, remove_name};

verus! {

/// A live delivery channel together with the username that opened it.
pub struct Subscription {
    username: String,
    tx: UnboundedSender<String>,
}

impl Subscription {
    /// The username this subscription was opened under.
    pub closed spec fn name(self) -> Seq<char> {
        self.username@
    }

    /// Everything enqueued on this subscription's channel so far, oldest
    /// first: the replayed backlog, then each delivered broadcast or probe.
    pub closed spec fn sent_msgs(self) -> Seq<Seq<char>> {
        sent(self.tx)
    }

    /// Whether this subscription's channel is known dead: its consumer has
    /// closed or dropped the receive half, which in tokio is permanent.
    pub closed spec fn channel_closed(self) -> bool {
        closed(self.tx)
    }
}

/// The usernames of a row of subscriptions, in table order.
spec fn sub_views(s: Seq<Subscription>) -> Seq<Seq<char>> {
    s.map_values(|x: Subscription| x.username@)
}

/// How one broadcast of `msg` relates a subscriber table to its successor:
/// every subscription keeps its username and its place, and `msg` was
/// enqueued on its channel, unless that channel is closed, in which case
/// the channel is untouched. One subscriber's dead channel never prevents
/// delivery to the others, and a dead channel stays marked dead.
pub open spec fn fanned_out(pre: Seq<Subscription>, post: Seq<Subscription>, msg: Seq<char>) -> bool {
    &&& post.len() == pre.len()
    &&& forall|k: int|
        0 <= k < pre.len() ==> {
            &&& (#[trigger] post[k]).name() == pre[k].name()
            &&& (post[k].sent_msgs() == pre[k].sent_msgs().push(msg) || (post[k].sent_msgs()
                == pre[k].sent_msgs() && post[k].channel_closed()))
            &&& (pre[k].channel_closed() ==> post[k].channel_closed())
        }
}

/// `post` extends `pre` by, in order, some of the messages of `msgs`: each
/// broadcast in a run reaches the channels that are still open and misses
/// the closed ones.
pub open spec fn grew_by_some_of(
    pre: Seq<Seq<char>>,
    post: Seq<Seq<char>>,
    msgs: Seq<Seq<char>>,
) -> bool
    decreases msgs.len(),
{
    if msgs.len() == 0 {
        post == pre
    } else {
        grew_by_some_of(pre, post, msgs.drop_last()) || (post.len() > 0 && post.last()
            == msgs.last() && grew_by_some_of(pre, post.drop_last(), msgs.drop_last()))
    }
}

/// The chat-room engine: the store of registered users and the message log,
/// the set of usernames currently online, and the subscriber table that
/// every broadcast fans out to.
pub struct MyChatRoom {
    data_store: DataStore,
    subscriptions: Vec<Subscription>,
    online_users: Vec<String>,
}

impl MyChatRoom {
    /// The message log, in append order.
    pub closed spec fn log(self) -> Seq<Seq<char>> {
        self.data_store.log()
    }

    /// Whether `u` has ever been registered.
    pub closed spec fn is_registered(self, u: Seq<char>) -> bool {
        self.data_store.is_registered(u)
    }

    /// The usernames currently online, each at most once.
    pub closed spec fn online_names(self) -> Seq<Seq<char>> {
        name_views(self.online_users@)
    }

    /// Whether `u` currently has an un-evicted session.
    pub open spec fn is_online(self, u: Seq<char>) -> bool {
        self.online_names().contains(u)
    }

    /// The current subscriptions, in table order.
    pub closed spec fn subs(self) -> Seq<Subscription> {
        self.subscriptions@
    }

    /// The usernames of the current subscriptions, in table order; a name
    /// may appear more than once.
    pub closed spec fn sub_names(self) -> Seq<Seq<char>> {
        sub_views(self.subscriptions@)
    }

    /// A login of `u` succeeds exactly when `u` is not both registered and
    /// currently online.
    pub open spec fn login_allowed(self, u: Seq<char>) -> bool {
        !self.is_registered(u) || !self.is_online(u)
    }

    /// The store's names are distinct, the online names are distinct, and
    /// every online username is registered.
    pub closed spec fn wf(self) -> bool {
        &&& self.data_store.wf()
        &&& distinct(self.online_names())
        &&& forall|u: Seq<char>| self.is_online(u) ==> self.is_registered(u)
    }

    /// A fresh room: empty log, nobody registered, online or subscribed.
    pub fn new() -> (r: MyChatRoom)
        ensures
            r.wf(),
            r.log() == Seq::<Seq<char>>::empty(),
            forall|u: Seq<char>| !r.is_registered(u),
            forall|u: Seq<char>| !r.is_online(u),
            r.subs() == Seq::<Subscription>::empty(),
            r.sub_names() == Seq::<Seq<char>>::empty(),
    {
        let r = MyChatRoom {
            data_store: DataStore::new(),
            subscriptions: Vec::new(),
            online_users: Vec::new(),
        };
        proof {
            assert(r.online_names() =~= Seq::<Seq<char>>::empty());
            assert(r.sub_names() =~= Seq::<Seq<char>>::empty());
        }
        r
    }

    /// Appends `message` to the log and fans it out: the message is
    /// enqueued on every current subscriber's channel, except those whose
    /// channel is closed, which stay untouched until the Liveness Monitor
    /// evicts them. Nothing else changes.
    pub fn add_message(&mut self, message: String)
        ensures
            final(self).log() == old(self).log().push(message@),
            forall|u: Seq<char>|
                final(self).is_registered(u) == old(self).is_registered(u),
            final(self).online_names() == old(self).online_names(),
            fanned_out(old(self).subs(), final(self).subs(), message@),
            final(self).sub_names() == old(self).sub_names(),
            final(self).wf() == old(self).wf(),
    {
        self.data_store.add_message(message.clone());
        broadcast_to(&mut self.subscriptions, &message);
        proof {
            assert forall|u: Seq<char>|
                self.is_registered(u) == old(self).is_registered(u) && self.is_online(u) == old(
                    self,
                ).is_online(u) by {
                assert(self.data_store.reg_names() == old(self).data_store.reg_names());
            }
            assert(self.sub_names() =~= old(self).sub_names());
            assert(self.data_store.wf() == old(self).data_store.wf());
            assert(self.wf() == old(self).wf());
        }
    }

    /// Handles a `Login` request. A username that was never registered is
    /// registered and logged in; a registered, offline username is logged
    /// back in; a registered, online username is rejected with no state
    /// change. On success the username is marked online and the
    /// "logged on!" notice is appended and broadcast.
    pub fn login(&mut self, username: &str) -> (ok: bool)
        requires
            old(self).wf(),
        ensures
            final(self).wf(),
            login_post(*old(self), *final(self), username@, ok),
    {
        let registered = self.data_store.user_exists(username);
        let login_success: bool = if !registered {
            self.data_store.create_user(username)
        } else {
            !contains_name(&self.online_users, &String::from_str(username))
        };
        if login_success {
            proof {
                assert(self.online_names() == old(self).online_names());
                if !registered {
                    assert(!old(self).is_registered(username@));
                    assert(!old(self).is_online(username@));
                }
                assert(!self.online_names().contains(username@));
                lemma_push_distinct(self.online_names(), username@);
            }
            push_name(&mut self.online_users, String::from_str(username));
            proof {
                assert forall|v: Seq<char>|
                    self.is_online(v) == (old(self).is_online(v) || v == username@) by {
                    lemma_push_contains(old(self).online_names(), username@, v);
                }
            }
            let msg = format_logged_on(username);
            self.add_message(msg);
        }
        login_success
    }

    /// Handles a `SendMessage` request: a message from a registered
    /// username (online or not) is appended and broadcast as
    /// "`username`: `message`"; one from an unregistered username is
    /// rejected with no state change.
    pub fn send_message(&mut self, username: &str, message: &str) -> (ok: bool)
        requires
            old(self).wf(),
        ensures
            final(self).wf(),
            send_post(*old(self), *final(self), username@, message@, ok),
    {
        if !self.data_store.user_exists(username) {
            return false;
        }
        let msg = format_user_msg(username, message);
        self.add_message(msg);
        true
    }

    /// Handles a `GetMessageStream` request: atomically enqueues the log
    /// from `cursor` on, in order, onto a fresh channel and registers the
    /// channel in the subscriber table, so no broadcast falls between
    /// replay and registration. Returns the receive half of that channel;
    /// it yields the backlog and then every later broadcast and probe,
    /// until its channel fails and the Liveness Monitor evicts it.
    pub fn get_message_stream(&mut self, username: &str, cursor: usize) -> (rx: UnboundedReceiver<
        String,
    >)
        requires
            old(self).wf(),
        ensures
            final(self).wf(),
            stream_post(*old(self), *final(self), username@, cursor as int),
    {
        let (tx, rx) = unbounded_message_channel();
        let mut tx = tx;
        let backlog = self.data_store.get_messages(cursor);
        let ghost suffix = log_suffix(self.log(), cursor as int);
        let n = backlog.len();
        let mut i: usize = 0;
        proof {
            assert(suffix.subrange(0, 0) =~= Seq::<Seq<char>>::empty());
        }
        while i < n
            invariant
                n == backlog.len(),
                i <= n,
                *self == *old(self),
                backlog@.map_values(|m: String| m@) == suffix,
                sent(tx) == suffix.subrange(0, i as int),
                paired(tx, rx),
                receiver_open(rx),
            decreases n - i,
        {
            tx = send_connected(tx, &rx, backlog[i].clone());
            proof {
                assert(backlog@[i as int]@ == suffix[i as int]);
                assert(sent(tx) =~= suffix.subrange(0, i as int + 1));
            }
            i += 1;
        }
        proof {
            assert(sent(tx) =~= suffix);
        }
        let sub = Subscription { username: String::from_str(username), tx };
        self.subscriptions.push(sub);
        proof {
            assert(self.sub_names() =~= old(self).sub_names().push(username@));
            assert(self.subs().subrange(0, old(self).subs().len() as int) =~= old(self).subs());
            assert forall|u: Seq<char>|
                self.is_registered(u) == old(self).is_registered(u) && self.is_online(u) == old(
                    self,
                ).is_online(u) by {
                assert(self.data_store == old(self).data_store);
            }
            assert(self.online_names() == old(self).online_names());
            assert(self.wf());
        }
        rx
    }
}

/// Sends `message` to every subscription in `subs`, in table order: each
/// subscription's channel receives it unless the channel is closed, and a
/// closed channel is left as it was — a failed send is never retried and
/// never stops delivery to the remaining subscribers; eviction is the
/// Liveness Monitor's.
fn broadcast_to(subs: &mut Vec<Subscription>, message: &String)
    ensures
        fanned_out(old(subs)@, final(subs)@, message@),
{
    let ghost s0 = subs@;
    let n = subs.len();
    let mut done: Vec<Subscription> = Vec::new();
    let mut i: usize = 0;
    while i < n
        invariant
            n == s0.len(),
            i <= n,
            s0 == old(subs)@,
            subs@ == s0.subrange(i as int, n as int),
            done@.len() == i,
            forall|k: int|
                0 <= k < i ==> {
                    &&& (#[trigger] done@[k]).name() == s0[k].name()
                    &&& (done@[k].sent_msgs() == s0[k].sent_msgs().push(message@) || (
                    done@[k].sent_msgs() == s0[k].sent_msgs() && done@[k].channel_closed()))
                    &&& (s0[k].channel_closed() ==> done@[k].channel_closed())
                }
        decreases n - i,
    {
        let Subscription { username, tx } = subs.remove(0);
        let (tx, _delivered) = send_line(tx, message.clone());
        done.push(Subscription { username, tx });
        proof {
            assert(s0.subrange(i as int, n as int)[0] == s0[i as int]);
            assert(subs@ =~= s0.subrange(i as int + 1, n as int));
            assert(done@[i as int].name() == s0[i as int].name());
        }
        i += 1;
    }
    *subs = done;
    proof {
        assert(fanned_out(old(subs)@, subs@, message@));
    }
}

/// The indices in `s` are strictly ascending.
pub open spec fn strictly_increasing(s: Seq<usize>) -> bool {
    forall|a: int, b: int| 0 <= a < b < s.len() ==> s[a] < s[b]
}

/// Every index in `s` lies below `n`.
pub open spec fn all_below(s: Seq<usize>, n: int) -> bool {
    forall|k: int| 0 <= k < s.len() ==> (s[k] as int) < n
}

/// Whether the position `pos` is listed in `dead`.
pub open spec fn marks(dead: Seq<usize>, pos: int) -> bool {
    exists|k: int| 0 <= k < dead.len() && (dead[k] as int) == pos
}

/// The elements of `s` whose positions are not listed in `dead`, in order.
pub open spec fn drop_marked<T>(s: Seq<T>, dead: Seq<usize>) -> Seq<T>
    decreases s.len(),
{
    if s.len() == 0 {
        Seq::empty()
    } else if marks(dead, s.len() - 1) {
        drop_marked(s.drop_last(), dead)
    } else {
        drop_marked(s.drop_last(), dead).push(s.last())
    }
}

/// The names of `s` at the positions listed in `dead`, in that order.
pub open spec fn names_at(s: Seq<Seq<char>>, dead: Seq<usize>) -> Seq<Seq<char>> {
    dead.map_values(|i: usize| s[i as int])
}

/// Positions at or past `s.len()` play no part in `drop_marked`: two
/// marking lists that agree on the positions inside `s` drop the same
/// elements.
proof fn lemma_drop_marked_same_marks<T>(s: Seq<T>, dead1: Seq<usize>, dead2: Seq<usize>)
    requires
        forall|p: int| 0 <= p < s.len() ==> (marks(dead1, p) == marks(dead2, p)),
    ensures
        drop_marked(s, dead1) == drop_marked(s, dead2),
    decreases s.len(),
{
    if s.len() > 0 {
        lemma_drop_marked_same_marks(s.drop_last(), dead1, dead2);
        assert(marks(dead1, s.len() - 1) == marks(dead2, s.len() - 1));
    }
}

/// Dropping the elements at `dead.len()` distinct in-bounds positions
/// shrinks a sequence by exactly `dead.len()`.
pub proof fn lemma_drop_marked_len<T>(s: Seq<T>, dead: Seq<usize>)
    requires
        strictly_increasing(dead),
        all_below(dead, s.len() as int),
    ensures
        drop_marked(s, dead).len() == s.len() - dead.len(),
    decreases s.len(),
{
    if s.len() == 0 {
        if dead.len() > 0 {
            assert((dead[0] as int) < 0);
        }
    } else {
        let n = s.len() as int;
        if marks(dead, n - 1) {
            let t = choose|t: int| 0 <= t < dead.len() && (dead[t] as int) == n - 1;
            if t < dead.len() - 1 {
                assert(dead[t] < dead[dead.len() - 1]);
                assert((dead[dead.len() - 1] as int) < n);
                assert(false);
            }
            assert(t == dead.len() - 1);
            let dead2 = dead.drop_last();
            assert forall|p: int| 0 <= p < s.drop_last().len() implies (marks(dead, p) == marks(
                dead2,
                p,
            )) by {
                if marks(dead, p) {
                    let t3 = choose|t3: int| 0 <= t3 < dead.len() && (dead[t3] as int) == p;
                    assert(t3 < dead.len() - 1);
                    assert((dead2[t3] as int) == p);
                }
                if marks(dead2, p) {
                    let t3 = choose|t3: int| 0 <= t3 < dead2.len() && (dead2[t3] as int) == p;
                    assert((dead[t3] as int) == p);
                }
            }
            lemma_drop_marked_same_marks(s.drop_last(), dead, dead2);
            assert forall|a: int, b: int| 0 <= a < b < dead2.len() implies dead2[a] < dead2[b] by {
                assert(dead[a] < dead[b]);
            }
            assert forall|k: int| 0 <= k < dead2.len() implies (dead2[k] as int) < n - 1 by {
                assert(dead[k] < dead[dead.len() - 1]);
            }
            lemma_drop_marked_len(s.drop_last(), dead2);
        } else {
            assert forall|k: int| 0 <= k < dead.len() implies (dead[k] as int) < n - 1 by {
                if (dead[k] as int) == n - 1 {
                    assert(marks(dead, n - 1));
                }
            }
            lemma_drop_marked_len(s.drop_last(), dead);
        }
    }
}

/// How one Liveness Monitor probe pass relates the state before to the
/// state after, with `dead` the table positions whose channel failed: the
/// log, the registrations, the online set and the table itself are
/// untouched, except that each subscriber whose channel is still open
/// received the empty-string probe; a failed channel is left as it was.
pub open spec fn probe_post(pre: MyChatRoom, post: MyChatRoom, dead: Seq<usize>) -> bool {
    &&& post.log() == pre.log()
    &&& (forall|v: Seq<char>| post.is_registered(v) == pre.is_registered(v))
    &&& post.online_names() == pre.online_names()
    &&& post.subs().len() == pre.subs().len()
    &&& (forall|k: int|
        0 <= k < pre.subs().len() ==> {
            &&& (#[trigger] post.subs()[k]).name() == pre.subs()[k].name()
            &&& (marks(dead, k) ==> post.subs()[k].sent_msgs() == pre.subs()[k].sent_msgs()
                && post.subs()[k].channel_closed())
            &&& (!marks(dead, k) ==> post.subs()[k].sent_msgs() == pre.subs()[k].sent_msgs().push(
                Seq::<char>::empty(),
            ))
        })
    &&& post.sub_names() == pre.sub_names()
}

/// How evicting the subscriptions at positions `dead` relates the state
/// before to the state after: those subscriptions leave the table, each
/// evicted username goes offline, and exactly one logged-out notice per
/// eviction is appended, in table order and broadcast to the kept
/// subscribers — each kept subscription keeps its username and its channel
/// receives, in order, those of the notices it was open for. Registrations
/// never change.
pub open spec fn evict_post(pre: MyChatRoom, post: MyChatRoom, dead: Seq<usize>) -> bool {
    let evicted = names_at(pre.sub_names(), dead);
    let notices = evicted.map_values(|u: Seq<char>| logged_out_msg(u));
    let kept = drop_marked(pre.subs(), dead);
    &&& (forall|v: Seq<char>| post.is_registered(v) == pre.is_registered(v))
    &&& post.log() == pre.log() + notices
    &&& post.sub_names() == drop_marked(pre.sub_names(), dead)
    &&& (forall|v: Seq<char>| post.is_online(v) == (pre.is_online(v) && !evicted.contains(v)))
    &&& post.subs().len() == kept.len()
    &&& (forall|k: int|
        0 <= k < kept.len() ==> {
            &&& (#[trigger] post.subs()[k]).name() == kept[k].name()
            &&& grew_by_some_of(kept[k].sent_msgs(), post.subs()[k].sent_msgs(), notices)
            &&& (post.subs()[k].sent_msgs() == kept[k].sent_msgs() + notices
                || post.subs()[k].channel_closed())
        })
}

/// One fan-out step extends a some-of growth by one more optional message:
/// a channel that grew by some of `msgs` and then received `x`, or missed
/// it, has grown by some of `msgs.push(x)`.
proof fn lemma_grew_step(
    pre: Seq<Seq<char>>,
    cur: Seq<Seq<char>>,
    post: Seq<Seq<char>>,
    msgs: Seq<Seq<char>>,
    x: Seq<char>,
)
    requires
        grew_by_some_of(pre, cur, msgs),
        post == cur.push(x) || post == cur,
    ensures
        grew_by_some_of(pre, post, msgs.push(x)),
{
    let m1 = msgs.push(x);
    assert(m1.drop_last() =~= msgs);
    assert(m1.last() == x);
    assert(grew_by_some_of(pre, cur, m1.drop_last()));
    if post == cur {
        assert(grew_by_some_of(pre, post, m1.drop_last()));
        assert(grew_by_some_of(pre, post, m1));
    } else {
        assert(post.drop_last() =~= cur);
        assert(grew_by_some_of(pre, post.drop_last(), m1.drop_last()));
        assert(grew_by_some_of(pre, post, m1));
    }
}

/// The usernames of a table with marked rows dropped are the usernames with
/// the same rows dropped.
proof fn lemma_drop_marked_names(s: Seq<Subscription>, dead: Seq<usize>)
    ensures
        sub_views(drop_marked(s, dead)) == drop_marked(sub_views(s), dead),
    decreases s.len(),
{
    if s.len() == 0 {
        assert(sub_views(s) =~= Seq::<Seq<char>>::empty());
        assert(sub_views(drop_marked(s, dead)) =~= Seq::<Seq<char>>::empty());
    } else {
        lemma_drop_marked_names(s.drop_last(), dead);
        assert(sub_views(s).drop_last() =~= sub_views(s.drop_last()));
        assert(sub_views(s).len() == s.len());
        if !marks(dead, s.len() - 1) {
            assert(sub_views(drop_marked(s, dead)) =~= sub_views(
                drop_marked(s.drop_last(), dead),
            ).push(s.last().username@));
        }
    }
}

impl MyChatRoom {
    /// Sends the empty-string liveness probe to every subscriber and
    /// returns the positions whose channel is gone, in ascending order.
    /// Which probes fail depends on the consumers, so only the shape of the
    /// result is promised.
    pub fn probe_subscribers(&mut self) -> (dead: Vec<usize>)
        requires
            old(self).wf(),
        ensures
            final(self).wf(),
            strictly_increasing(dead@),
            all_below(dead@, old(self).sub_names().len() as int),
            probe_post(*old(self), *final(self), dead@),
    {
        let ghost s0 = self.subscriptions@;
        let n = self.subscriptions.len();
        let mut done: Vec<Subscription> = Vec::new();
        let mut dead: Vec<usize> = Vec::new();
        let mut i: usize = 0;
        while i < n
            invariant
                n == s0.len(),
                i <= n,
                s0 == old(self).subscriptions@,
                self.data_store == old(self).data_store,
                self.online_users == old(self).online_users,
                self.subscriptions@ == s0.subrange(i as int, n as int),
                strictly_increasing(dead@),
                all_below(dead@, i as int),
                done@.len() == i,
                forall|k: int|
                    0 <= k < i ==> {
                        &&& (#[trigger] done@[k]).name() == s0[k].name()
                        &&& (marks(dead@, k) ==> done@[k].sent_msgs() == s0[k].sent_msgs()
                            && done@[k].channel_closed())
                        &&& (!marks(dead@, k) ==> done@[k].sent_msgs()
                            == s0[k].sent_msgs().push(Seq::<char>::empty()))
                    },
            decreases n - i,
        {
            let ghost dead0 = dead@;
            let Subscription { username, tx } = self.subscriptions.remove(0);
            let (tx, delivered) = send_line(tx, String::new());
            if !delivered {
                dead.push(i);
            }
            done.push(Subscription { username, tx });
            proof {
                assert(s0.subrange(i as int, n as int)[0] == s0[i as int]);
                assert(self.subscriptions@ =~= s0.subrange(i as int + 1, n as int));
                if !delivered {
                    assert(marks(dead@, i as int)) by {
                        assert((dead@[dead0.len() as int] as int) == i as int);
                    }
                    assert forall|a: int, b: int| 0 <= a < b < dead@.len() implies dead@[a]
                        < dead@[b] by {
                        if b < dead0.len() {
                            assert(dead0[a] < dead0[b]);
                        } else {
                            assert((dead0[a] as int) < i as int);
                        }
                    }
                } else {
                    if marks(dead@, i as int) {
                        let t = choose|t: int|
                            0 <= t < dead@.len() && (dead@[t] as int) == i as int;
                        assert((dead0[t] as int) < i as int);
                    }
                }
                assert forall|k: int| 0 <= k < i implies marks(dead@, k) == marks(dead0, k) by {
                    if marks(dead0, k) {
                        let t = choose|t: int|
                            0 <= t < dead0.len() && (dead0[t] as int) == k;
                        assert((dead@[t] as int) == k);
                    }
                    if marks(dead@, k) {
                        let t = choose|t: int| 0 <= t < dead@.len() && (dead@[t] as int) == k;
                        if t < dead0.len() {
                            assert((dead0[t] as int) == k);
                        } else {
                            assert((dead@[t] as int) == i as int);
                        }
                    }
                }
                assert forall|k: int| 0 <= k < i + 1 implies ((#[trigger] done@[k]).name()
                    == s0[k].name() && (marks(dead@, k) ==> done@[k].sent_msgs()
                    == s0[k].sent_msgs() && done@[k].channel_closed()) && (!marks(dead@, k)
                    ==> done@[k].sent_msgs() == s0[k].sent_msgs().push(Seq::<char>::empty()))) by {
                    if k == i {
                        assert(done@[i as int].name() == s0[i as int].name());
                    }
                }
            }
            i += 1;
        }
        self.subscriptions = done;
        proof {
            assert(self.sub_names() =~= old(self).sub_names());
            assert forall|u: Seq<char>|
                self.is_registered(u) == old(self).is_registered(u) && self.is_online(u) == old(
                    self,
                ).is_online(u) by {
                assert(self.data_store == old(self).data_store);
                assert(self.online_users == old(self).online_users);
            }
            assert(self.online_names() == old(self).online_names());
            assert(self.wf());
        }
        dead
    }

    /// Evicts the subscriptions at the ascending positions `dead`: removes
    /// them from the table, drops each evicted username from the online
    /// set, and appends and broadcasts one "logged out!" notice per
    /// eviction, in table order.
    pub fn evict_subscribers(&mut self, dead: &Vec<usize>)
        requires
            old(self).wf(),
            strictly_increasing(dead@),
            all_below(dead@, old(self).sub_names().len() as int),
        ensures
            final(self).wf(),
            evict_post(*old(self), *final(self), dead@),
    {
        let ghost pre = *old(self);
        let ghost s0 = self.subscriptions@;

        // The usernames being evicted, in table order.
        let mut names: Vec<String> = Vec::new();
        let nd = dead.len();
        let mut k: usize = 0;
        while k < nd
            invariant
                nd == dead@.len(),
                k <= nd,
                pre == *old(self),
                *self == pre,
                s0 == self.subscriptions@,
                all_below(dead@, s0.len() as int),
                name_views(names@) == names_at(pre.sub_names(), dead@.subrange(0, k as int)),
            decreases nd - k,
        {
            let idx = dead[k];
            let uname = self.subscriptions[idx].username.clone();
            proof {
                assert(name_views(names@).len() == k as int);
                assert(names@.len() == k as int);
                assert(uname@ == s0[idx as int].username@);
            }
            names.push(uname);
            proof {
                assert(pre.sub_names() == sub_views(s0));
                assert(pre.sub_names()[idx as int] == s0[idx as int].username@);
                let lhs = name_views(names@);
                let rhs = names_at(pre.sub_names(), dead@.subrange(0, k as int + 1));
                let prev = names_at(pre.sub_names(), dead@.subrange(0, k as int));
                assert(lhs.len() == rhs.len());
                assert forall|t: int| 0 <= t < lhs.len() implies lhs[t] == rhs[t] by {
                    if t < k as int {
                        assert(lhs[t] == prev[t]);
                        assert(rhs[t] == pre.sub_names()[dead@[t] as int]);
                    } else {
                        assert(lhs[t] == uname@);
                        assert(rhs[t] == pre.sub_names()[idx as int]);
                    }
                }
                assert(lhs =~= rhs);
            }
            k += 1;
        }
        proof {
            assert(dead@.subrange(0, nd as int) =~= dead@);
        }
        let ghost evicted = names_at(pre.sub_names(), dead@);

        // Remove the marked subscriptions, keeping the others in order.
        let n = self.subscriptions.len();
        let mut kept: Vec<Subscription> = Vec::new();
        let mut j: usize = 0;
        let mut i: usize = 0;
        while i < n
            invariant
                pre == *old(self),
                n == s0.len(),
                i <= n,
                nd == dead@.len(),
                j <= nd,
                strictly_increasing(dead@),
                all_below(dead@, n as int),
                self.subscriptions@ == s0.subrange(i as int, n as int),
                self.data_store == old(self).data_store,
                self.online_users == old(self).online_users,
                forall|t: int| 0 <= t < j ==> (dead@[t] as int) < i as int,
                forall|t: int| j <= t < nd ==> (dead@[t] as int) >= i as int,
                kept@ == drop_marked(s0.subrange(0, i as int), dead@),
            decreases n - i,
        {
            let sub = self.subscriptions.remove(0);
            proof {
                assert(sub == s0[i as int]);
                assert(self.subscriptions@ =~= s0.subrange(i as int + 1, n as int));
            }
            let is_dead = j < nd && dead[j] == i;
            proof {
                if is_dead {
                    assert(marks(dead@, i as int)) by {
                        assert((dead@[j as int] as int) == i as int);
                    }
                } else if marks(dead@, i as int) {
                    let t = choose|t: int| 0 <= t < dead@.len() && (dead@[t] as int) == i as int;
                    if t < j {
                        assert((dead@[t] as int) < i as int);
                    } else {
                        assert(j < nd);
                        if t > j {
                            assert(dead@[j as int] < dead@[t]);
                        }
                    }
                    assert(false);
                }
                let prefix_i = s0.subrange(0, i as int);
                let prefix_i1 = s0.subrange(0, i as int + 1);
                assert(prefix_i1.drop_last() =~= prefix_i);
                assert(prefix_i1.last() == s0[i as int]);
            }
            if is_dead {
                j += 1;
            } else {
                kept.push(sub);
            }
            proof {
                assert(kept@ == drop_marked(s0.subrange(0, i as int + 1), dead@));
            }
            i += 1;
        }
        self.subscriptions = kept;
        proof {
            assert(s0.subrange(0, n as int) =~= s0);
            assert(self.subs() == drop_marked(pre.subs(), dead@));
            lemma_drop_marked_names(pre.subs(), dead@);
            assert(self.sub_names() == drop_marked(pre.sub_names(), dead@));
            assert forall|u: Seq<char>|
                self.is_online(u) == pre.is_online(u) && self.is_registered(u)
                    == pre.is_registered(u) by {
                assert(self.data_store == pre.data_store);
                assert(self.online_users == pre.online_users);
            }
            assert(self.online_names() == pre.online_names());
            assert forall|u: Seq<char>| self.is_online(u) implies self.is_registered(u) by {
                assert(pre.is_online(u));
                assert(pre.is_registered(u));
            }
            assert(self.data_store.wf());
            assert(self.wf());
        }

        // Drop each evicted username from the online set and broadcast its
        // logged-out notice to the remaining subscribers.
        let ghost keptseq = drop_marked(pre.subs(), dead@);
        let nn = names.len();
        let mut k2: usize = 0;
        proof {
            assert(evicted.subrange(0, 0) =~= Seq::<Seq<char>>::empty());
            assert(self.log() =~= pre.log() + evicted.subrange(0, 0).map_values(
                |u: Seq<char>| logged_out_msg(u),
            ));
            assert forall|v: Seq<char>|
                self.is_online(v) == (pre.is_online(v) && !evicted.subrange(0, 0).contains(v)) by {
                if evicted.subrange(0, 0).contains(v) {
                    let t = choose|t: int|
                        0 <= t < evicted.subrange(0, 0).len() && evicted.subrange(0, 0)[t] == v;
                }
            }
            assert(evicted.subrange(0, 0).map_values(|u: Seq<char>| logged_out_msg(u)) =~= Seq::<
                Seq<char>,
            >::empty());
            assert forall|t: int| 0 <= t < keptseq.len() implies ((#[trigger] self.subs()[t]).name()
                == keptseq[t].name() && grew_by_some_of(
                keptseq[t].sent_msgs(),
                self.subs()[t].sent_msgs(),
                evicted.subrange(0, 0).map_values(|u: Seq<char>| logged_out_msg(u)),
            ) && (self.subs()[t].sent_msgs() == keptseq[t].sent_msgs() + evicted.subrange(
                0,
                0,
            ).map_values(|u: Seq<char>| logged_out_msg(u)) || self.subs()[t].channel_closed())) by {
                assert(self.subs()[t] == keptseq[t]);
                assert(keptseq[t].sent_msgs() + evicted.subrange(0, 0).map_values(
                    |u: Seq<char>| logged_out_msg(u),
                ) =~= keptseq[t].sent_msgs());
            }
        }
        while k2 < nn
            invariant
                pre == *old(self),
                nn == names@.len(),
                k2 <= nn,
                name_views(names@) == evicted,
                evicted == names_at(pre.sub_names(), dead@),
                nn == evicted.len(),
                self.wf(),
                self.log() == pre.log() + evicted.subrange(0, k2 as int).map_values(
                    |u: Seq<char>| logged_out_msg(u),
                ),
                forall|v: Seq<char>| self.is_registered(v) == pre.is_registered(v),
                forall|v: Seq<char>|
                    self.is_online(v) == (pre.is_online(v) && !evicted.subrange(
                        0,
                        k2 as int,
                    ).contains(v)),
                self.sub_names() == drop_marked(pre.sub_names(), dead@),
                keptseq == drop_marked(pre.subs(), dead@),
                self.subs().len() == keptseq.len(),
                forall|t: int|
                    0 <= t < keptseq.len() ==> {
                        &&& (#[trigger] self.subs()[t]).name() == keptseq[t].name()
                        &&& grew_by_some_of(
                            keptseq[t].sent_msgs(),
                            self.subs()[t].sent_msgs(),
                            evicted.subrange(0, k2 as int).map_values(
                                |u: Seq<char>| logged_out_msg(u),
                            ),
                        )
                        &&& (self.subs()[t].sent_msgs() == keptseq[t].sent_msgs()
                            + evicted.subrange(0, k2 as int).map_values(
                            |u: Seq<char>| logged_out_msg(u),
                        ) || self.subs()[t].channel_closed())
                    },
            decreases nn - k2,
        {
            let ghost e_k = evicted.subrange(0, k2 as int);
            let ghost e_k1 = evicted.subrange(0, k2 as int + 1);
            let ghost room_k = *self;
            remove_name(&mut self.online_users, &names[k2]);
            proof {
                assert(names@[k2 as int]@ == evicted[k2 as int]);
                assert(self.data_store == room_k.data_store);
                assert(self.data_store.wf());
                assert(distinct(self.online_names()));
                assert forall|v: Seq<char>| self.is_online(v) implies self.is_registered(v) by {
                    assert(room_k.is_online(v));
                    assert(room_k.is_registered(v));
                }
                assert(self.wf());
            }
            let msg = format_logged_out(names[k2].as_str());
            self.add_message(msg);
            proof {
                assert(e_k1 =~= e_k.push(evicted[k2 as int]));
                assert(e_k1.map_values(|u: Seq<char>| logged_out_msg(u)) =~= e_k.map_values(
                    |u: Seq<char>| logged_out_msg(u),
                ).push(logged_out_msg(evicted[k2 as int])));
                assert(self.log() =~= pre.log() + e_k1.map_values(
                    |u: Seq<char>| logged_out_msg(u),
                ));
                assert forall|v: Seq<char>|
                    self.is_online(v) == (pre.is_online(v) && !e_k1.contains(v)) by {
                    lemma_push_contains(e_k, evicted[k2 as int], v);
                }
                let x = logged_out_msg(evicted[k2 as int]);
                let notices_k = e_k.map_values(|u: Seq<char>| logged_out_msg(u));
                let notices_k1 = e_k1.map_values(|u: Seq<char>| logged_out_msg(u));
                assert(notices_k1.len() == e_k.len() + 1);
                assert(notices_k1.drop_last() =~= notices_k);
                assert(notices_k1.last() == x);
                assert forall|t: int| 0 <= t < keptseq.len() implies ((
                #[trigger] self.subs()[t]).name() == keptseq[t].name() && grew_by_some_of(
                    keptseq[t].sent_msgs(),
                    self.subs()[t].sent_msgs(),
                    notices_k1,
                ) && (self.subs()[t].sent_msgs() == keptseq[t].sent_msgs() + notices_k1
                    || self.subs()[t].channel_closed())) by {
                    assert(room_k.subs()[t].name() == keptseq[t].name());
                    assert(grew_by_some_of(
                        keptseq[t].sent_msgs(),
                        room_k.subs()[t].sent_msgs(),
                        notices_k,
                    ));
                    let base = keptseq[t].sent_msgs();
                    let cur = room_k.subs()[t].sent_msgs();
                    let cur2 = self.subs()[t].sent_msgs();
                    assert(cur2 == cur.push(x) || (cur2 == cur
                        && self.subs()[t].channel_closed()));
                    lemma_grew_step(base, cur, cur2, notices_k, x);
                    assert(notices_k.push(x) =~= notices_k1);
                    assert(grew_by_some_of(base, cur2, notices_k1));
                    if cur == base + notices_k && cur2 == cur.push(x) {
                        assert(cur2 =~= base + notices_k1);
                    }
                }
            }
            k2 += 1;
        }
        proof {
            assert(evicted.subrange(0, nn as int) =~= evicted);
        }
    }

    /// One Liveness Monitor iteration: probes every subscriber with the
    /// empty-string message and evicts those whose channel is gone, each
    /// with its logged-out notice. Which subscribers fail the probe depends
    /// on their consumers, so the contract promises that the sweep equals a
    /// probe pass followed by an eviction of the same ascending set of
    /// table positions.
    pub fn heartbeat_sweep(&mut self)
        requires
            old(self).wf(),
        ensures
            final(self).wf(),
            exists|mid: MyChatRoom, dead: Seq<usize>|
                #[trigger] probe_post(*old(self), mid, dead) && #[trigger] evict_post(
                    mid,
                    *final(self),
                    dead,
                ) && strictly_increasing(dead) && all_below(
                    dead,
                    old(self).sub_names().len() as int,
                ),
            forall|u: Seq<char>| final(self).is_registered(u) == old(self).is_registered(u),
            forall|u: Seq<char>| final(self).is_online(u) ==> old(self).is_online(u),
            old(self).log().is_prefix_of(final(self).log()),
    {
        let dead = self.probe_subscribers();
        let ghost mid = *self;
        self.evict_subscribers(&dead);
        proof {
            assert(probe_post(*old(self), mid, dead@));
            assert(evict_post(mid, *self, dead@));
            let suffix = names_at(mid.sub_names(), dead@).map_values(
                |u: Seq<char>| logged_out_msg(u),
            );
            assert(self.log() == old(self).log() + suffix);
            assert(old(self).log() =~= self.log().subrange(0, old(self).log().len() as int));
        }
    }
}

/// How a `login` call relates the state before it, the state after it, the
/// username `u` and the returned `ok`.
pub open spec fn login_post(pre: MyChatRoom, post: MyChatRoom, u: Seq<char>, ok: bool) -> bool {
    &&& ok == pre.login_allowed(u)
    &&& (ok ==> {
        &&& post.log() == pre.log().push(logged_on_msg(u))
        &&& (forall|v: Seq<char>| post.is_registered(v) == (pre.is_registered(v) || v == u))
        &&& (forall|v: Seq<char>| post.is_online(v) == (pre.is_online(v) || v == u))
        &&& fanned_out(pre.subs(), post.subs(), logged_on_msg(u))
        &&& post.sub_names() == pre.sub_names()
    })
    &&& (!ok ==> post == pre)
}

/// How a `send_message` call relates the state before it, the state after
/// it, the username `u`, the text `m` and the returned `ok`.
pub open spec fn send_post(
    pre: MyChatRoom,
    post: MyChatRoom,
    u: Seq<char>,
    m: Seq<char>,
    ok: bool,
) -> bool {
    &&& ok == pre.is_registered(u)
    &&& (ok ==> {
        &&& post.log() == pre.log().push(user_msg(u, m))
        &&& (forall|v: Seq<char>| post.is_registered(v) == pre.is_registered(v))
        &&& post.online_names() == pre.online_names()
        &&& fanned_out(pre.subs(), post.subs(), user_msg(u, m))
        &&& post.sub_names() == pre.sub_names()
    })
    &&& (!ok ==> post == pre)
}

/// How a `get_message_stream` call relates the state before it, the state
/// after it, the username `u` and the starting `cursor`: one subscription
/// under `u` is appended to the table, its channel pre-loaded with exactly
/// the backlog `log[cursor..]` in log order; the existing subscriptions,
/// channels included, and everything else are untouched.
pub open spec fn stream_post(pre: MyChatRoom, post: MyChatRoom, u: Seq<char>, cursor: int) -> bool {
    &&& post.log() == pre.log()
    &&& (forall|v: Seq<char>| post.is_registered(v) == pre.is_registered(v))
    &&& post.online_names() == pre.online_names()
    &&& post.subs().len() == pre.subs().len() + 1
    &&& post.subs().subrange(0, pre.subs().len() as int) == pre.subs()
    &&& post.subs().last().name() == u
    &&& post.subs().last().sent_msgs() == log_suffix(pre.log(), cursor)
    &&& post.sub_names() == pre.sub_names().push(u)
}

/// What well-formedness guarantees, readable from outside this module:
/// every online username is registered, and no username is listed online
/// twice.
pub proof fn lemma_wf_online(s: MyChatRoom)
    requires
        s.wf(),
    ensures
        distinct(s.online_names()),
        forall|u: Seq<char>| s.is_online(u) ==> s.is_registered(u),
{
}

/// Registration idempotence, first half: right after a successful login of
/// `u`, and as long as `u` has not been evicted, a second login of `u` is
/// rejected.
pub proof fn lemma_relogin_rejected_while_online(pre: MyChatRoom, post: MyChatRoom, u: Seq<char>)
    requires
        login_post(pre, post, u, true),
    ensures
        !post.login_allowed(u),
{
    assert(post.is_registered(u));
    assert(post.is_online(u));
}

/// Registration idempotence, second half: once `u` is offline — in
/// particular right after the Liveness Monitor evicted `u` — a login of `u`
/// succeeds again.
pub proof fn lemma_relogin_allowed_after_eviction(s: MyChatRoom, u: Seq<char>)
    requires
        !s.is_online(u),
    ensures
        s.login_allowed(u),
{
}

/// Append monotonicity: a successful broadcast appends its entry at the
/// index `pre.log().len()` of its starting state. When broadcast A (entry
/// `ma`) completes before broadcast B (entry `mb`) begins — so A's appended
/// log is a prefix of B's starting log — A's index is strictly below B's,
/// and both entries still sit at their indices in the final log.
pub proof fn lemma_append_monotonicity(
    a_pre: MyChatRoom,
    a_post: MyChatRoom,
    ma: Seq<char>,
    b_pre: MyChatRoom,
    b_post: MyChatRoom,
    mb: Seq<char>,
)
    requires
        a_post.log() == a_pre.log().push(ma),
        a_post.log().is_prefix_of(b_pre.log()),
        b_post.log() == b_pre.log().push(mb),
    ensures
        a_pre.log().len() < b_pre.log().len(),
        b_post.log()[a_pre.log().len() as int] == ma,
        b_post.log()[b_pre.log().len() as int] == mb,
{
    let ia = a_pre.log().len() as int;
    assert(a_post.log()[ia] == ma);
    assert(b_pre.log()[ia] == a_post.log()[ia]);
}

/// Liveness eviction: after evicting the subscriptions at the ascending,
/// in-bounds positions `dead`, exactly one logged-out notice was appended
/// per eviction — the one for the `k`-th evicted subscriber at log index
/// `pre.log().len() + k` — and that subscriber's username is offline.
pub proof fn lemma_liveness_eviction(
    pre: MyChatRoom,
    post: MyChatRoom,
    dead: Seq<usize>,
    k: int,
)
    requires
        evict_post(pre, post, dead),
        strictly_increasing(dead),
        all_below(dead, pre.sub_names().len() as int),
        0 <= k < dead.len(),
    ensures
        post.log().len() == pre.log().len() + dead.len(),
        post.log()[pre.log().len() + k] == logged_out_msg(pre.sub_names()[dead[k] as int]),
        !post.is_online(pre.sub_names()[dead[k] as int]),
        post.sub_names().len() == pre.sub_names().len() - dead.len(),
{
    let evicted = names_at(pre.sub_names(), dead);
    assert(evicted.len() == dead.len());
    lemma_drop_marked_len(pre.sub_names(), dead);
    assert(evicted[k] == pre.sub_names()[dead[k] as int]);
    assert(evicted.contains(pre.sub_names()[dead[k] as int]));
    assert(post.log()[pre.log().len() + k] == evicted.map_values(
        |u: Seq<char>| logged_out_msg(u),
    )[k]);
}

} // verus!
