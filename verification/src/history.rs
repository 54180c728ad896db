//! What holds of a store over a whole history of commands.

use vstd::prelude::*;
use vstd::utf8::encode_utf8;
use crate::lines::has_crlf;
use crate::commands::{spec_parse_cmd, CommandView, ParseError};
use crate::roundtrip::thm_encode_then_parse;
use crate::store::{
    delivered, propagation, reply, run, step, EntryView, Event, Origin, ReplyView, StoreView,
};

verus! {

/// `event` binds `key`.
pub open spec fn binds<S>(event: Event<S>, key: Seq<char>) -> bool {
    event matches Event::SetKey(k, _, _, _, _) && k == key
}

/// `events` binds `key` nowhere.
pub open spec fn never_binds<S>(events: Seq<Event<S>>, key: Seq<char>) -> bool {
    forall|i: int| 0 <= i < events.len() ==> !binds(#[trigger] events[i], key)
}

/// The frames of the mutations that clients ask for in `events`, in the order
/// in which they are asked for.
pub open spec fn mutations<S>(events: Seq<Event<S>>) -> Seq<Seq<u8>>
    decreases events.len(),
{
    if events.len() == 0 {
        Seq::empty()
    } else {
        let rest = mutations(events.drop_first());
        match events.first() {
            Event::SetKey(key, value, ttl, Origin::Client, _) => seq![
                propagation(key, value, ttl),
            ] + rest,
            _ => rest,
        }
    }
}

/// Handling `a + b` is handling `a` and then `b`, and the frames delivered to
/// a sink meanwhile are those delivered during `a`, then those during `b`.
pub proof fn lemma_run_concat<S>(s: StoreView<S>, a: Seq<Event<S>>, b: Seq<Event<S>>, sink: int)
    ensures
        run(s, a + b) == run(run(s, a), b),
        delivered(s, a + b, sink) == delivered(s, a, sink) + delivered(run(s, a), b, sink),
    decreases a.len(),
{
    if a.len() == 0 {
        assert(a + b =~= b);
        assert(delivered(s, a, sink) + delivered(run(s, a), b, sink) =~= delivered(s, b, sink));
    } else {
        assert((a + b).first() == a.first());
        assert((a + b).drop_first() =~= a.drop_first() + b);
        lemma_run_concat(step(s, a.first()), a.drop_first(), b, sink);
        let rest_a = delivered(step(s, a.first()), a.drop_first(), sink);
        let rest_b = delivered(run(s, a), b, sink);
        match reply(s, a.first()) {
            ReplyView::Stored(Some(frame)) => {
                assert((seq![frame] + rest_a) + rest_b =~= seq![frame] + (rest_a + rest_b));
            },
            _ => {},
        }
    }
}

/// No history takes a sink out of the registry or changes the role of the
/// store.
pub proof fn lemma_registry_grows<S>(s: StoreView<S>, events: Seq<Event<S>>)
    ensures
        run(s, events).primary == s.primary,
        s.replicas.is_prefix_of(run(s, events).replicas),
    decreases events.len(),
{
    if events.len() > 0 {
        let next = step(s, events.first());
        assert(s.replicas.is_prefix_of(next.replicas));
        lemma_registry_grows(next, events.drop_first());
    }
}

/// A sink receives nothing before it is registered.
pub proof fn lemma_nothing_before_registration<S>(
    s: StoreView<S>,
    events: Seq<Event<S>>,
    sink: int,
)
    requires
        run(s, events).replicas.len() <= sink,
    ensures
        delivered(s, events, sink) == Seq::<Seq<u8>>::empty(),
    decreases events.len(),
{
    if events.len() > 0 {
        lemma_registry_grows(s, events);
        lemma_nothing_before_registration(step(s, events.first()), events.drop_first(), sink);
    }
}

/// A sink in the registry of a primary receives every mutation that clients
/// ask for, in order, and nothing else.
pub proof fn lemma_everything_after_registration<S>(
    s: StoreView<S>,
    events: Seq<Event<S>>,
    sink: int,
)
    requires
        s.primary,
        0 <= sink < s.replicas.len(),
    ensures
        delivered(s, events, sink) == mutations(events),
    decreases events.len(),
{
    if events.len() > 0 {
        lemma_everything_after_registration(step(s, events.first()), events.drop_first(), sink);
    }
}

/// A key that is bound without a time to live has the value it was bound to:
/// after `SET key value`, `GET key` returns `value`, whatever the store held
/// and whenever the two happen.
pub proof fn thm_get_after_set<S>(
    s: StoreView<S>,
    key: Seq<char>,
    value: Seq<char>,
    origin: Origin,
    set_at: u64,
    get_at: u64,
)
    ensures
        reply(step(s, Event::SetKey(key, value, None, origin, set_at)), Event::Get(key, get_at))
            == ReplyView::Value(Some(value)),
{
}

/// The last writer wins: binding a key replaces whatever value and time to
/// live it was bound to before, and leaves no trace of them.
pub proof fn thm_last_writer_wins<S>(
    s: StoreView<S>,
    key: Seq<char>,
    earlier: Event<S>,
    later: Event<S>,
)
    requires
        binds(earlier, key),
        binds(later, key),
    ensures
        step(step(s, earlier), later) == step(s, later),
{
    assert(step(step(s, earlier), later).keys =~= step(s, later).keys);
}

/// A key that was never bound has no value: after any history from an empty
/// store that binds `key` nowhere, `GET key` returns nil.
pub proof fn thm_get_never_set<S>(
    primary: bool,
    events: Seq<Event<S>>,
    key: Seq<char>,
    now: u64,
)
    requires
        never_binds(events, key),
    ensures
        reply(
            run(StoreView::<S> { keys: Map::empty(), replicas: Seq::empty(), primary }, events),
            Event::Get(key, now),
        ) == ReplyView::Value(None),
{
    let s = StoreView::<S> { keys: Map::empty(), replicas: Seq::empty(), primary };
    lemma_stays_unbound(s, events, key);
}

/// A key that a store does not hold stays out of it as long as it is not
/// bound.
pub proof fn lemma_stays_unbound<S>(s: StoreView<S>, events: Seq<Event<S>>, key: Seq<char>)
    requires
        !s.keys.dom().contains(key),
        never_binds(events, key),
    ensures
        !run(s, events).keys.dom().contains(key),
    decreases events.len(),
{
    if events.len() > 0 {
        let first = events.first();
        assert(events[0] == first);
        let rest = events.drop_first();
        assert(never_binds(rest, key)) by {
            assert forall|i: int| 0 <= i < rest.len() implies binds(#[trigger] rest[i], key)
                == binds(events[i + 1], key) by {}
        }
        lemma_stays_unbound(step(s, first), rest, key);
    }
}

/// A time to live ends: after `SET key value PX ms` at time `set_at`, a
/// `GET key` more than `ms` milliseconds later returns nil, and the key is
/// gone from the keyspace from then on.
pub proof fn thm_expired_after_ttl<S>(
    s: StoreView<S>,
    key: Seq<char>,
    value: Seq<char>,
    ms: u64,
    origin: Origin,
    set_at: u64,
    get_at: u64,
)
    requires
        get_at > set_at + ms,
    ensures
        reply(
            step(s, Event::SetKey(key, value, Some(ms), origin, set_at)),
            Event::Get(key, get_at),
        ) == ReplyView::Value(None),
        !step(
            step(s, Event::SetKey(key, value, Some(ms), origin, set_at)),
            Event::Get(key, get_at),
        ).keys.dom().contains(key),
{
}

/// A time to live lasts: after `SET key value PX ms` at time `set_at`, a
/// `GET key` at most `ms` milliseconds later returns `value`.
pub proof fn thm_alive_within_ttl<S>(
    s: StoreView<S>,
    key: Seq<char>,
    value: Seq<char>,
    ms: u64,
    origin: Origin,
    set_at: u64,
    get_at: u64,
)
    requires
        get_at <= set_at + ms,
    ensures
        reply(
            step(s, Event::SetKey(key, value, Some(ms), origin, set_at)),
            Event::Get(key, get_at),
        ) == ReplyView::Value(Some(value)),
{
}

/// Without a time to live nothing expires: after `SET key value`, and then
/// any history that does not bind `key` again, `GET key` returns `value`.
pub proof fn thm_persists_without_ttl<S>(
    s: StoreView<S>,
    key: Seq<char>,
    value: Seq<char>,
    origin: Origin,
    set_at: u64,
    events: Seq<Event<S>>,
    now: u64,
)
    requires
        never_binds(events, key),
    ensures
        reply(
            run(step(s, Event::SetKey(key, value, None, origin, set_at)), events),
            Event::Get(key, now),
        ) == ReplyView::Value(Some(value)),
{
    let bound = step(s, Event::SetKey(key, value, None, origin, set_at));
    lemma_stays_bound(bound, events, key, value);
}

/// A key bound without a deadline stays bound to its value as long as it is
/// not bound again.
pub proof fn lemma_stays_bound<S>(
    s: StoreView<S>,
    events: Seq<Event<S>>,
    key: Seq<char>,
    value: Seq<char>,
)
    requires
        s.keys.dom().contains(key),
        s.keys[key] == (EntryView { value, expire_at: None }),
        never_binds(events, key),
    ensures
        run(s, events).keys.dom().contains(key),
        run(s, events).keys[key] == (EntryView { value, expire_at: None }),
    decreases events.len(),
{
    if events.len() > 0 {
        let first = events.first();
        assert(events[0] == first);
        let rest = events.drop_first();
        assert(never_binds(rest, key)) by {
            assert forall|i: int| 0 <= i < rest.len() implies binds(#[trigger] rest[i], key)
                == binds(events[i + 1], key) by {}
        }
        lemma_stays_bound(step(s, first), rest, key, value);
    }
}

/// A replica receives exactly what was accepted after it registered: the
/// sink that a primary registers after the history `before` is written, during
/// the history `after`, the frames of the mutations that clients ask for in
/// `after`, in their order, and nothing of `before`.
pub proof fn thm_replica_receives_later_mutations<S>(
    s: StoreView<S>,
    before: Seq<Event<S>>,
    sink: S,
    after: Seq<Event<S>>,
)
    requires
        s.primary,
    ensures
        ({
            let position = run(s, before).replicas.len() as int;
            let history = before + seq![Event::NewReplica(sink)] + after;
            &&& run(s, before + seq![Event::NewReplica(sink)]).replicas[position] == sink
            &&& delivered(s, history, position) == mutations(after)
        }),
{
    let position = run(s, before).replicas.len() as int;
    let registration = seq![Event::NewReplica(sink)];
    let at_registration = run(s, before);
    let registered = step(at_registration, Event::NewReplica(sink));
    lemma_registry_grows(s, before);
    lemma_run_concat(s, before, registration, position);
    assert(registration.first() == Event::NewReplica(sink));
    assert(registration.drop_first().len() == 0);
    assert(run(registered, registration.drop_first()) == registered);
    assert(delivered(registered, registration.drop_first(), position) =~= Seq::<Seq<u8>>::empty());
    assert(run(at_registration, registration) == registered);
    assert(delivered(at_registration, registration, position) =~= Seq::<Seq<u8>>::empty());
    lemma_nothing_before_registration(s, before, position);
    lemma_run_concat(s, before + registration, after, position);
    lemma_everything_after_registration(registered, after, position);
    assert(delivered(s, before + registration + after, position) =~= mutations(after));
}

/// A replica forwards nothing: whatever a store that does not serve a
/// primary handles, no sink is registered and no frame is handed out.
pub proof fn thm_replica_forwards_nothing<S>(s: StoreView<S>, events: Seq<Event<S>>, sink: int)
    requires
        !s.primary,
        s.replicas.len() == 0,
    ensures
        run(s, events).replicas.len() == 0,
        delivered(s, events, sink) == Seq::<Seq<u8>>::empty(),
    decreases events.len(),
{
    if events.len() > 0 {
        thm_replica_forwards_nothing(step(s, events.first()), events.drop_first(), sink);
    }
}

/// A replica reads what its primary forwards: the frame of a mutation whose
/// key and value hold no CRLF is read as the `SET` of that key, value and time
/// to live, whatever follows it in the stream.
pub proof fn thm_replica_reads_the_propagation(
    key: Seq<char>,
    value: Seq<char>,
    ttl: Option<u64>,
    stream: Seq<u8>,
)
    requires
        !has_crlf(encode_utf8(key)),
        !has_crlf(encode_utf8(value)),
    ensures
        spec_parse_cmd(propagation(key, value, ttl) + stream) == Ok::<
            (CommandView, Seq<u8>),
            ParseError,
        >((CommandView::SetKey(encode_utf8(key), encode_utf8(value), ttl), stream)),
{
    thm_encode_then_parse(CommandView::SetKey(encode_utf8(key), encode_utf8(value), ttl), stream);
}

} // verus!
