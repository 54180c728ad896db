//! The keyspace and the registry of replicas.
//!
//! One `Store` owns all keys, values and deadlines, and the sinks of the
//! replicas that have registered. It is driven by one command at a time, with
//! the current time handed in, so that its behaviour is a function of the
//! commands it has seen.
//!
//! Expiry is lazy: a key whose deadline has passed stays in the keyspace until
//! the next `get` of that key removes it.

use vstd::prelude::*;
use vstd::slice::slice_to_vec;
use crate::lines::str_eq;
use crate::commands::{encode, Command, CommandView};

verus! {

/// What the keyspace holds for one key.
pub struct EntryView {
    pub value: Seq<char>,
    /// The time, in milliseconds, after which the key counts as absent.
    pub expire_at: Option<u64>,
}

/// Where a mutation comes from.
#[derive(Debug, PartialEq, Eq, Clone, Copy, Structural)]
pub enum Origin {
    /// An ordinary client.
    Client,
    /// The stream of commands that a replica applies for its primary.
    Primary,
}

/// A command to the store. `S` is the type of a replica's sink.
pub enum StoreCmd<S> {
    /// Look a key up.
    Get(String),
    /// Bind a key to a value, for a time to live in milliseconds if one is
    /// given.
    SetKey(String, String, Option<u64>, Origin),
    /// Register the sink of a replica that has completed its resynchronisation.
    NewReplica(S),
}

/// A command to the store with its texts as sequences of characters, and the
/// time at which the store handles it.
pub enum Event<S> {
    Get(Seq<char>, u64),
    SetKey(Seq<char>, Seq<char>, Option<u64>, Origin, u64),
    NewReplica(S),
}

impl<S> StoreCmd<S> {
    /// The event of handling this command at time `now`.
    pub open spec fn at(self, now: u64) -> Event<S> {
        match self {
            StoreCmd::Get(key) => Event::Get(key@, now),
            StoreCmd::SetKey(key, value, ttl, origin) => Event::SetKey(
                key@,
                value@,
                ttl,
                origin,
                now,
            ),
            StoreCmd::NewReplica(sink) => Event::NewReplica(sink),
        }
    }
}

/// What the store answers to a command.
pub enum StoreReply {
    /// The value of the key looked up, if it has one.
    Value(Option<String>),
    /// The key is bound. If a frame comes with it, the caller writes that
    /// frame to every registered sink.
    Stored(Option<Vec<u8>>),
    /// Whether the sink was registered: only a primary has replicas.
    Registered(bool),
}

/// A reply with its texts and bytes as sequences.
pub enum ReplyView {
    Value(Option<Seq<char>>),
    Stored(Option<Seq<u8>>),
    Registered(bool),
}

impl View for StoreReply {
    type V = ReplyView;

    open spec fn view(&self) -> ReplyView {
        match self {
            StoreReply::Value(Some(value)) => ReplyView::Value(Some(value@)),
            StoreReply::Value(None) => ReplyView::Value(None),
            StoreReply::Stored(Some(frame)) => ReplyView::Stored(Some(frame@)),
            StoreReply::Stored(None) => ReplyView::Stored(None),
            StoreReply::Registered(done) => ReplyView::Registered(*done),
        }
    }
}

/// The state of a store as contracts see it.
pub struct StoreView<S> {
    /// The keyspace.
    pub keys: Map<Seq<char>, EntryView>,
    /// The sinks of the registered replicas, in the order of registration.
    pub replicas: Seq<S>,
    /// Whether the store serves a primary.
    pub primary: bool,
}

/// The deadline of a key bound at time `now` with time to live `ttl`. A
/// deadline beyond the end of time is the end of time.
pub open spec fn deadline(ttl: Option<u64>, now: u64) -> Option<u64> {
    match ttl {
        Some(ms) => Some(
            if now + ms > u64::MAX {
                u64::MAX
            } else {
                (now + ms) as u64
            },
        ),
        None => None,
    }
}

/// The entry's deadline has passed at time `now`.
pub open spec fn expired(entry: EntryView, now: u64) -> bool {
    entry.expire_at matches Some(at) && at < now
}

/// What a lookup of `key` at time `now` returns: the value, unless the key
/// is absent or its deadline has passed.
pub open spec fn lookup(keys: Map<Seq<char>, EntryView>, key: Seq<char>, now: u64) -> Option<
    Seq<char>,
> {
    if keys.dom().contains(key) && !expired(keys[key], now) {
        Some(keys[key].value)
    } else {
        None
    }
}

/// The keyspace after a lookup of `key` at time `now`: a key whose deadline
/// has passed is removed.
pub open spec fn purge(keys: Map<Seq<char>, EntryView>, key: Seq<char>, now: u64) -> Map<
    Seq<char>,
    EntryView,
> {
    if keys.dom().contains(key) && expired(keys[key], now) {
        keys.remove(key)
    } else {
        keys
    }
}

/// The frame that carries a mutation to the replicas.
pub open spec fn propagation(key: Seq<char>, value: Seq<char>, ttl: Option<u64>) -> Seq<u8> {
    encode(
        CommandView::SetKey(vstd::utf8::encode_utf8(key), vstd::utf8::encode_utf8(value), ttl),
    )
}

/// The store after `event`.
pub open spec fn step<S>(s: StoreView<S>, event: Event<S>) -> StoreView<S> {
    match event {
        Event::Get(key, now) => StoreView { keys: purge(s.keys, key, now), ..s },
        Event::SetKey(key, value, ttl, _, now) => StoreView {
            keys: s.keys.insert(key, EntryView { value, expire_at: deadline(ttl, now) }),
            ..s
        },
        Event::NewReplica(sink) => if s.primary {
            StoreView { replicas: s.replicas.push(sink), ..s }
        } else {
            s
        },
    }
}

/// What the store in state `s` answers to `event`.
pub open spec fn reply<S>(s: StoreView<S>, event: Event<S>) -> ReplyView {
    match event {
        Event::Get(key, now) => ReplyView::Value(lookup(s.keys, key, now)),
        Event::SetKey(key, value, ttl, origin, _) => ReplyView::Stored(
            if s.primary && origin == Origin::Client {
                Some(propagation(key, value, ttl))
            } else {
                None
            },
        ),
        Event::NewReplica(_) => ReplyView::Registered(s.primary),
    }
}

/// The store after the events of `events`, one after the other.
pub open spec fn run<S>(s: StoreView<S>, events: Seq<Event<S>>) -> StoreView<S>
    decreases events.len(),
{
    if events.len() == 0 {
        s
    } else {
        run(step(s, events.first()), events.drop_first())
    }
}

/// The frames written to the sink at position `sink` of the registry while
/// the store, starting in state `s`, handles `events`: each frame that a
/// reply carries goes to every sink registered at that moment.
pub open spec fn delivered<S>(s: StoreView<S>, events: Seq<Event<S>>, sink: int) -> Seq<Seq<u8>>
    decreases events.len(),
{
    if events.len() == 0 {
        Seq::empty()
    } else {
        let rest = delivered(step(s, events.first()), events.drop_first(), sink);
        match reply(s, events.first()) {
            ReplyView::Stored(Some(frame)) => if 0 <= sink < s.replicas.len() {
                seq![frame] + rest
            } else {
                rest
            },
            _ => rest,
        }
    }
}

/// One key with its value and deadline.
struct Entry {
    key: String,
    value: String,
    expire_at: Option<u64>,
}

/// No key stands twice in `entries`.
spec fn unique_keys(entries: Seq<Entry>) -> bool {
    forall|i: int, j: int|
        0 <= i < j < entries.len() ==> (#[trigger] entries[i]).key@ != (#[trigger] entries[j]).key@
}

/// `key` stands at position `i` of `entries`.
spec fn key_at(entries: Seq<Entry>, i: int, key: Seq<char>) -> bool {
    0 <= i < entries.len() && entries[i].key@ == key
}

/// The keyspace that `entries` holds.
spec fn keyspace(entries: Seq<Entry>) -> Map<Seq<char>, EntryView> {
    Map::new(
        |key: Seq<char>| exists|i: int| key_at(entries, i, key),
        |key: Seq<char>|
            {
                let i = choose|i: int| key_at(entries, i, key);
                EntryView { value: entries[i].value@, expire_at: entries[i].expire_at }
            },
    )
}

/// In a list without double keys, the entry at position `i` is what the
/// keyspace holds for its key.
proof fn lemma_keyspace_at(entries: Seq<Entry>, i: int)
    requires
        unique_keys(entries),
        0 <= i < entries.len(),
    ensures
        keyspace(entries).dom().contains(entries[i].key@),
        keyspace(entries)[entries[i].key@] == (EntryView {
            value: entries[i].value@,
            expire_at: entries[i].expire_at,
        }),
{
    let key = entries[i].key@;
    assert(key_at(entries, i, key));
    let k = choose|k: int| key_at(entries, k, key);
    if k < i {
        assert(entries[k].key@ != entries[i].key@);
    }
    if i < k {
        assert(entries[i].key@ != entries[k].key@);
    }
}

/// Taking the entry at position `i` out of the list, by moving the last
/// entry into its place, takes its key out of the keyspace and nothing else.
proof fn lemma_swap_remove(before: Seq<Entry>, i: int)
    requires
        unique_keys(before),
        0 <= i < before.len(),
    ensures
        unique_keys(before.update(i, before.last()).drop_last()),
        keyspace(before.update(i, before.last()).drop_last()) == keyspace(before).remove(
            before[i].key@,
        ),
{
    let after = before.update(i, before.last()).drop_last();
    let key = before[i].key@;
    let last = before.len() - 1;
    let origin = |a: int|
        if a == i {
            last
        } else {
            a
        };
    assert forall|a: int| 0 <= a < after.len() implies after[a] == before[origin(a)] by {}
    assert forall|a: int, b: int| 0 <= a < b < after.len() implies (#[trigger] after[a]).key@ != (
    #[trigger] after[b]).key@ by {
        if origin(a) < origin(b) {
            assert(before[origin(a)].key@ != before[origin(b)].key@);
        } else {
            assert(before[origin(b)].key@ != before[origin(a)].key@);
        }
    }
    assert forall|k: Seq<char>|
        keyspace(after).dom().contains(k) <==> keyspace(before).remove(key).dom().contains(k) by {
        if keyspace(after).dom().contains(k) {
            let a = choose|a: int| key_at(after, a, k);
            assert(key_at(before, origin(a), k));
            if origin(a) < i {
                assert(before[origin(a)].key@ != before[i].key@);
            } else {
                assert(before[i].key@ != before[origin(a)].key@);
            }
        }
        if keyspace(before).remove(key).dom().contains(k) {
            let b = choose|b: int| key_at(before, b, k);
            let a = if b == last {
                i
            } else {
                b
            };
            assert(key_at(after, a, k));
        }
    }
    assert forall|k: Seq<char>| keyspace(after).dom().contains(k) implies keyspace(after)[k]
        == keyspace(before).remove(key)[k] by {
        let a = choose|a: int| key_at(after, a, k);
        lemma_keyspace_at(after, a);
        lemma_keyspace_at(before, origin(a));
    }
    assert(keyspace(after) =~= keyspace(before).remove(key));
}

/// Putting an entry in the place of the entry with the same key binds the
/// key anew and changes nothing else.
proof fn lemma_replace(before: Seq<Entry>, i: int, entry: Entry)
    requires
        unique_keys(before),
        0 <= i < before.len(),
        before[i].key@ == entry.key@,
    ensures
        unique_keys(before.update(i, entry)),
        keyspace(before.update(i, entry)) == keyspace(before).insert(
            entry.key@,
            EntryView { value: entry.value@, expire_at: entry.expire_at },
        ),
{
    let after = before.update(i, entry);
    let fresh = EntryView { value: entry.value@, expire_at: entry.expire_at };
    assert forall|a: int| 0 <= a < after.len() implies (#[trigger] after[a]).key@
        == before[a].key@ by {}
    assert forall|a: int, b: int| 0 <= a < b < after.len() implies (#[trigger] after[a]).key@ != (
    #[trigger] after[b]).key@ by {
        assert(before[a].key@ != before[b].key@);
    }
    assert forall|k: Seq<char>|
        keyspace(after).dom().contains(k) <==> keyspace(before).insert(
            entry.key@,
            fresh,
        ).dom().contains(k) by {
        if keyspace(after).dom().contains(k) {
            let a = choose|a: int| key_at(after, a, k);
            assert(key_at(before, a, k));
        }
        if keyspace(before).dom().contains(k) {
            let b = choose|b: int| key_at(before, b, k);
            assert(key_at(after, b, k));
        }
        if k == entry.key@ {
            assert(key_at(after, i, k));
        }
    }
    assert forall|k: Seq<char>| keyspace(after).dom().contains(k) implies keyspace(after)[k]
        == keyspace(before).insert(entry.key@, fresh)[k] by {
        let a = choose|a: int| key_at(after, a, k);
        lemma_keyspace_at(after, a);
        if a != i {
            lemma_keyspace_at(before, a);
            if a < i {
                assert(before[a].key@ != before[i].key@);
            } else {
                assert(before[i].key@ != before[a].key@);
            }
        }
    }
    assert(keyspace(after) =~= keyspace(before).insert(entry.key@, fresh));
}

/// Adding an entry whose key the list does not hold binds the key and
/// changes nothing else.
proof fn lemma_push(before: Seq<Entry>, entry: Entry)
    requires
        unique_keys(before),
        !keyspace(before).dom().contains(entry.key@),
    ensures
        unique_keys(before.push(entry)),
        keyspace(before.push(entry)) == keyspace(before).insert(
            entry.key@,
            EntryView { value: entry.value@, expire_at: entry.expire_at },
        ),
{
    let after = before.push(entry);
    let fresh = EntryView { value: entry.value@, expire_at: entry.expire_at };
    let last = before.len() as int;
    assert forall|a: int, b: int| 0 <= a < b < after.len() implies (#[trigger] after[a]).key@ != (
    #[trigger] after[b]).key@ by {
        if b < last {
            assert(before[a].key@ != before[b].key@);
        } else {
            assert(key_at(before, a, before[a].key@));
        }
    }
    assert forall|k: Seq<char>|
        keyspace(after).dom().contains(k) <==> keyspace(before).insert(
            entry.key@,
            fresh,
        ).dom().contains(k) by {
        if keyspace(after).dom().contains(k) {
            let a = choose|a: int| key_at(after, a, k);
            if a < last {
                assert(key_at(before, a, k));
            }
        }
        if keyspace(before).dom().contains(k) {
            let b = choose|b: int| key_at(before, b, k);
            assert(key_at(after, b, k));
        }
        if k == entry.key@ {
            assert(key_at(after, last, k));
        }
    }
    assert forall|k: Seq<char>| keyspace(after).dom().contains(k) implies keyspace(after)[k]
        == keyspace(before).insert(entry.key@, fresh)[k] by {
        let a = choose|a: int| key_at(after, a, k);
        lemma_keyspace_at(after, a);
        if a < last {
            lemma_keyspace_at(before, a);
            assert(key_at(before, a, k));
        }
    }
    assert(keyspace(after) =~= keyspace(before).insert(entry.key@, fresh));
}

/// The keyspace and the replicas of a server.
pub struct Store<S> {
    entries: Vec<Entry>,
    replica: Vec<S>,
    primary: bool,
}

impl<S> View for Store<S> {
    type V = StoreView<S>;

    closed spec fn view(&self) -> StoreView<S> {
        StoreView { keys: keyspace(self.entries@), replicas: self.replica@, primary: self.primary }
    }
}

impl<S> Store<S> {
    /// No key stands twice in the store, and only a primary has replicas.
    #[verifier::type_invariant]
    spec fn well_formed(self) -> bool {
        unique_keys(self.entries@) && (self.primary || self.replica@.len() == 0)
    }

    /// An empty store, for a primary or for a replica.
    pub fn new(primary: bool) -> (store: Store<S>)
        ensures
            store@ == (StoreView::<S> { keys: Map::empty(), replicas: Seq::empty(), primary }),
    {
        let store = Store { entries: Vec::new(), replica: Vec::new(), primary };
        assert(store@.keys =~= Map::empty());
        store
    }

    /// Where `key` stands in the list of entries.
    fn find(&self, key: &str) -> (r: Option<usize>)
        ensures
            match r {
                Some(i) => key_at(self.entries@, i as int, key@),
                None => !self@.keys.dom().contains(key@),
            },
    {
        let mut i: usize = 0;
        while i < self.entries.len()
            invariant
                i <= self.entries@.len(),
                forall|j: int| 0 <= j < i ==> !key_at(self.entries@, j, key@),
            decreases self.entries@.len() - i,
        {
            if str_eq(self.entries[i].key.as_str(), key) {
                return Some(i);
            }
            i = i + 1;
        }
        None
    }

    /// Whether the keyspace holds `key`. A key whose deadline has passed is
    /// held until a `get` removes it.
    pub fn contains_key(&self, key: &str) -> (r: bool)
        ensures
            r == self@.keys.dom().contains(key@),
    {
        match self.find(key) {
            Some(i) => {
                assert(key_at(self.entries@, i as int, key@));
                true
            },
            None => false,
        }
    }

    /// The value of `key` at time `now`. A key whose deadline has passed is
    /// removed and has no value.
    pub fn get(&mut self, key: &str, now: u64) -> (r: Option<String>)
        ensures
            final(self)@ == step(old(self)@, Event::Get(key@, now)),
            match r {
                Some(value) => lookup(old(self)@.keys, key@, now) == Some(value@),
                None => lookup(old(self)@.keys, key@, now) is None,
            },
    {
        proof {
            use_type_invariant(&*self);
        }
        match self.find(key) {
            None => None,
            Some(i) => {
                proof {
                    lemma_keyspace_at(self.entries@, i as int);
                }
                let expired: bool = match self.entries[i].expire_at {
                    Some(at) => at < now,
                    None => false,
                };
                if expired {
                    proof {
                        lemma_swap_remove(self.entries@, i as int);
                    }
                    // The list leaves the store while it changes, so that the store
                    // is well formed whenever it is looked at.
                    let mut entries: Vec<Entry> = Vec::new();
                    core::mem::swap(&mut entries, &mut self.entries);
                    entries.swap_remove(i);
                    self.entries = entries;
                    None
                } else {
                    Some(self.entries[i].value.clone())
                }
            },
        }
    }

    /// Binds `key` to `value` at time `now`, for `ttl` milliseconds if a time
    /// to live is given, whatever the key was bound to before. What comes back
    /// is the frame to write to every registered sink, if the store serves a
    /// primary and the mutation comes from a client.
    pub fn set(
        &mut self,
        key: String,
        value: String,
        ttl: Option<u64>,
        now: u64,
        origin: Origin,
    ) -> (r: Option<Vec<u8>>)
        ensures
            final(self)@ == step(old(self)@, Event::SetKey(key@, value@, ttl, origin, now)),
            match r {
                Some(frame) => reply(old(self)@, Event::SetKey(key@, value@, ttl, origin, now))
                    == ReplyView::Stored(Some(frame@)),
                None => reply(old(self)@, Event::SetKey(key@, value@, ttl, origin, now))
                    == ReplyView::Stored(None),
            },
    {
        proof {
            use_type_invariant(&*self);
        }
        let frame: Option<Vec<u8>> = if self.primary && origin == Origin::Client {
            let resp = Command::SetKey(key.as_str(), value.as_str(), ttl).encode();
            Some(slice_to_vec(resp.as_bytes()))
        } else {
            None
        };
        let expire_at: Option<u64> = match ttl {
            Some(ms) => Some(
                if ms > u64::MAX - now {
                    u64::MAX
                } else {
                    now + ms
                },
            ),
            None => None,
        };
        let found: Option<usize> = self.find(key.as_str());
        let entry = Entry { key, value, expire_at };
        let mut entries: Vec<Entry> = Vec::new();
        core::mem::swap(&mut entries, &mut self.entries);
        match found {
            Some(i) => {
                proof {
                    lemma_replace(entries@, i as int, entry);
                }
                entries[i] = entry;
            },
            None => {
                proof {
                    lemma_push(entries@, entry);
                }
                entries.push(entry);
            },
        }
        self.entries = entries;
        frame
    }

    /// Registers the sink of a replica, behind those registered before. A
    /// store that does not serve a primary takes no replica and drops the sink.
    pub fn register(&mut self, sink: S) -> (r: bool)
        ensures
            final(self)@ == step(old(self)@, Event::NewReplica(sink)),
            r == old(self)@.primary,
    {
        proof {
            use_type_invariant(&*self);
        }
        if self.primary {
            let mut sinks: Vec<S> = Vec::new();
            core::mem::swap(&mut sinks, &mut self.replica);
            sinks.push(sink);
            self.replica = sinks;
            true
        } else {
            false
        }
    }

    /// The sinks of the registered replicas, in the order of registration.
    /// Only a primary has any.
    pub fn replicas(&self) -> (r: &[S])
        ensures
            r@ == self@.replicas,
            self@.primary || r@.len() == 0,
    {
        proof {
            use_type_invariant(self);
        }
        self.replica.as_slice()
    }

    /// Handles one command at time `now`.
    pub fn apply(&mut self, cmd: StoreCmd<S>, now: u64) -> (r: StoreReply)
        ensures
            final(self)@ == step(old(self)@, cmd.at(now)),
            r@ == reply(old(self)@, cmd.at(now)),
    {
        match cmd {
            StoreCmd::Get(key) => StoreReply::Value(self.get(key.as_str(), now)),
            StoreCmd::SetKey(key, value, ttl, origin) => StoreReply::Stored(
                self.set(key, value, ttl, now, origin),
            ),
            StoreCmd::NewReplica(sink) => StoreReply::Registered(self.register(sink)),
        }
    }
}

} // verus!
