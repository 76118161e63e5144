//! What the functions on sources do, told by what they are called with and what they answer.
use vstd::prelude::*;
use vstd::std_specs::cmp::PartialEqSpec;

use crate::pre_filter::ShmPreFilter;
use crate::source::find_source;
use crate::source::find_stream;
use crate::source::keep_parsed;
use crate::source::missing;
use crate::source::named;
use crate::source::stale;
use crate::source::subscription_start;
use crate::source::Backoff;
use crate::source::Parsed;
use crate::source::PollAction;
use crate::source::ReceiveError;
use crate::source::Reconnect;
use crate::source::ReconnectAction;
use crate::source::ReconnectEvent;
use crate::source::Reload;
use crate::source::SourceConfig;
use crate::source::SourceNames;
use crate::source::Subscription;
use crate::source::SubscriptionStart;
use crate::source::Subscriptions;
use crate::source_laws::distinct_sources;
use crate::source_laws::distinct_streams;
use crate::source_laws::lemma_filter_keeps_distinct;
use crate::source_laws::lemma_filter_members;
use crate::source_laws::lemma_find_source;
use crate::source_laws::lemma_find_stream;
use crate::source_laws::lemma_poll_order;
use crate::source_laws::lemma_round_ends_after_all;
use crate::source_laws::lemma_round_polls_each_once;
use crate::source_laws::polled;

verus! {

// --- Polling ---

/// A round begins by asking for the stream after the one that was polled last, going round.
pub proof fn lemma_round_begins_after_last_polled<C, S>(
    s: &mut Subscriptions<C, S>,
    init: usize,
    action: PollAction,
)
    requires
        call_ensures(Subscriptions::<C, S>::poll_begin, (s,), (init, action)),
        s.streams@.len() > 0,
    ensures
        init == old(s).last_polled,
        action matches PollAction::Poll(i) && i as int == (init + 1) % (old(s).streams@.len() as int)
            && final(s).last_polled == i,
        final(s).streams == old(s).streams,
{
    vstd::arithmetic::div_mod::lemma_mod_bound(
        old(s).last_polled + 1,
        old(s).streams@.len() as int,
    );
}

/// A round goes on with the stream after the one that was just polled, going round, until the one
/// that it began after was polled; a stream that has something ends it at once.
pub proof fn lemma_round_goes_on<C, S>(
    s: &mut Subscriptions<C, S>,
    init: usize,
    ready: bool,
    action: PollAction,
)
    requires
        call_ensures(Subscriptions::<C, S>::poll_next, (s, init, ready), action),
        s.streams@.len() > 0,
    ensures
        ready <==> action is Ready,
        !ready && old(s).last_polled == init <==> action is Pending,
        !ready && old(s).last_polled != init ==> (action matches PollAction::Poll(i) && i as int == (
        old(s).last_polled + 1) % (old(s).streams@.len() as int) && final(s).last_polled == i),
        !(action is Poll) ==> final(s).last_polled == old(s).last_polled,
        final(s).streams == old(s).streams,
{
    vstd::arithmetic::div_mod::lemma_mod_bound(
        old(s).last_polled + 1,
        old(s).streams@.len() as int,
    );
}

/// The `k`-th poll of a round in which every stream is pending asks for stream
/// `(init + k) % count`, up to the last stream. `calls` are the subscriptions as each `poll_next`
/// of the round takes them over from the call before, and `actions` are the answers.
pub proof fn lemma_round_asks_in_turn<C, S>(
    s: &mut Subscriptions<C, S>,
    init: usize,
    calls: Seq<&mut Subscriptions<C, S>>,
    actions: Seq<PollAction>,
    k: int,
)
    requires
        s.wf(),
        s.streams@.len() > 0,
        actions.len() == calls.len() + 1,
        call_ensures(Subscriptions::<C, S>::poll_begin, (s,), (init, actions[0])),
        calls.len() > 0 ==> *calls[0] == *final(s),
        forall|j: int|
            0 <= j < calls.len() ==> call_ensures(
                Subscriptions::<C, S>::poll_next,
                (#[trigger] calls[j], init, false),
                actions[j + 1],
            ),
        forall|j: int|
            #![trigger calls[j]]
            1 <= j < calls.len() ==> *calls[j] == *final(calls[j - 1]),
        1 <= k <= s.streams@.len(),
        k <= actions.len(),
    ensures
        ({
            let count = old(s).streams@.len() as int;
            &&& actions[k - 1] matches PollAction::Poll(i) && i as int == (init + k) % count
            &&& k == 1 ==> final(s).last_polled as int == (init + k) % count && final(s).streams
                == old(s).streams
            &&& k > 1 ==> final(calls[k - 2]).last_polled as int == (init + k) % count
            &&& k > 1 ==> final(calls[k - 2]).streams == old(s).streams
        }),
    decreases k,
{
    let count = old(s).streams@.len() as int;
    lemma_round_begins_after_last_polled(s, init, actions[0]);
    vstd::arithmetic::div_mod::lemma_mod_bound(init + k, count);
    if k > 1 {
        lemma_round_asks_in_turn(s, init, calls, actions, k - 1);
        let t = calls[k - 2];
        assert(call_ensures(
            Subscriptions::<C, S>::poll_next,
            (calls[k - 2], init, false),
            actions[k - 2 + 1],
        ));
        lemma_round_goes_on(t, init, false, actions[k - 1]);
        lemma_round_ends_after_all(init as int, count, k - 1);
        lemma_poll_order(init as int, count, k - 1);
    }
}

/// A round in which every stream is pending asks for each stream exactly once, and then answers
/// that nothing is there.
pub proof fn lemma_round_asks_each_stream_once<C, S>(
    s: &mut Subscriptions<C, S>,
    init: usize,
    calls: Seq<&mut Subscriptions<C, S>>,
    actions: Seq<PollAction>,
    stream: usize,
)
    requires
        s.wf(),
        stream < s.streams@.len(),
        calls.len() == s.streams@.len(),
        actions.len() == calls.len() + 1,
        call_ensures(Subscriptions::<C, S>::poll_begin, (s,), (init, actions[0])),
        *calls[0] == *final(s),
        forall|j: int|
            0 <= j < calls.len() ==> call_ensures(
                Subscriptions::<C, S>::poll_next,
                (#[trigger] calls[j], init, false),
                actions[j + 1],
            ),
        forall|j: int|
            #![trigger calls[j]]
            1 <= j < calls.len() ==> *calls[j] == *final(calls[j - 1]),
    ensures
        actions.last() is Pending,
        exists|k: int|
            0 <= k < old(s).streams@.len() && #[trigger] actions[k] == PollAction::Poll(stream),
        forall|a: int, b: int|
            0 <= a < b < old(s).streams@.len() ==> #[trigger] actions[a] != #[trigger] actions[b],
        forall|a: int| 0 <= a < old(s).streams@.len() ==> #[trigger] actions[a] is Poll,
{
    let count = old(s).streams@.len() as int;
    lemma_round_begins_after_last_polled(s, init, actions[0]);
    assert forall|a: int| 0 <= a < count implies #[trigger] actions[a] is Poll && actions[a]->Poll_0
        as int == polled(init as int, count, a + 1) by {
        lemma_round_asks_in_turn(s, init, calls, actions, a + 1);
    }
    lemma_round_polls_each_once(init as int, count, stream as int);
    let k = choose|k: int|
        1 <= k <= count && #[trigger] polled(init as int, count, k) == stream as int;
    assert(actions[k - 1] == PollAction::Poll(stream));
    assert forall|a: int, b: int| 0 <= a < b < count implies #[trigger] actions[a]
        != #[trigger] actions[b] by {
        assert(polled(init as int, count, a + 1) != polled(init as int, count, b + 1));
    }
    lemma_round_asks_in_turn(s, init, calls, actions, count);
    lemma_round_ends_after_all(init as int, count, count);
    assert(call_ensures(
        Subscriptions::<C, S>::poll_next,
        (calls[count - 1], init, false),
        actions[count - 1 + 1],
    ));
    lemma_round_goes_on(calls[count - 1], init, false, actions[count]);
}

/// Subscriptions can be polled while the stream that was polled last is one of the streams.
pub proof fn lemma_pollable<C, S>(s: Subscriptions<C, S>)
    requires
        s.streams@.len() > 0 ==> s.last_polled < s.streams@.len(),
    ensures
        s.wf(),
{
}

/// New subscriptions have the streams that they are given, and begin with the first; the name of
/// the stream that was polled last is that stream's.
pub proof fn lemma_subscriptions_begin<C, S>(
    streams: Vec<Subscription<C, S>>,
    s: Subscriptions<C, S>,
    name: &str,
)
    requires
        call_ensures(Subscriptions::<C, S>::new, (streams,), s),
        call_ensures(Subscriptions::<C, S>::get_last_polled_name, (&s,), name),
    ensures
        s.streams@ == streams@,
        s.last_polled == 0,
        streams@.len() > 0 ==> name@ == streams@[0].name@,
{
}

/// The name of the stream that was polled last.
pub proof fn lemma_last_polled_name<C, S>(s: &Subscriptions<C, S>, name: &str)
    requires
        call_ensures(Subscriptions::<C, S>::get_last_polled_name, (s,), name),
    ensures
        name@ == s.streams@[s.last_polled as int].name@,
{
}

// --- Reloading ---

/// A stream is to be removed exactly if no new source has its name and its configuration: a stream
/// whose source is gone, or is configured differently, goes, and no other does.
pub proof fn lemma_reload_removes_what_changed<C: PartialEq, S>(
    s: &Subscriptions<C, S>,
    sources: Vec<SourceConfig<C>>,
    r: Reload<C>,
    i: int,
)
    requires
        call_ensures(Subscriptions::<C, S>::prepare_reload, (s, sources), r),
        distinct_streams(s.streams@),
        distinct_sources(sources@),
        0 <= i < s.streams@.len(),
    ensures
        (exists|k: int|
            0 <= k < r.to_remove@.len() && #[trigger] r.to_remove@[k]@ == s.streams@[i].name@)
            <==> !(exists|j: int|
            0 <= j < sources@.len() && #[trigger] sources@[j].name@ == s.streams@[i].name@
                && s.streams@[i].config.eq_spec(&sources@[j].config)),
{
    let streams = s.streams@;
    let out = |t: Subscription<C, S>| stale(t, sources@);
    let gone = streams.filter(out);
    assert(r.to_remove@ == gone.map_values(|t: Subscription<C, S>| t.name));
    lemma_find_source(sources@, streams[i].name@);
    lemma_filter_members(streams, out, streams[i]);
    assert(streams.contains(streams[i]));
    if stale(streams[i], sources@) {
        let k = choose|k: int| 0 <= k < gone.len() && gone[k] == streams[i];
        assert(r.to_remove@[k]@ == streams[i].name@);
        if exists|j: int|
            0 <= j < sources@.len() && #[trigger] sources@[j].name@ == streams[i].name@
                && streams[i].config.eq_spec(&sources@[j].config) {
            let j = choose|j: int|
                0 <= j < sources@.len() && #[trigger] sources@[j].name@ == streams[i].name@
                    && streams[i].config.eq_spec(&sources@[j].config);
            let m = find_source(sources@, streams[i].name@).unwrap();
            if m != j {
                assert(sources@[m].name@ != sources@[j].name@);
            }
        }
    } else {
        let m = find_source(sources@, streams[i].name@).unwrap();
        assert(sources@[m].name@ == streams[i].name@);
        if exists|k: int|
            0 <= k < r.to_remove@.len() && #[trigger] r.to_remove@[k]@ == streams[i].name@ {
            let k = choose|k: int|
                0 <= k < r.to_remove@.len() && #[trigger] r.to_remove@[k]@ == streams[i].name@;
            assert(gone.contains(gone[k]));
            lemma_filter_members(streams, out, gone[k]);
            let n = choose|n: int| 0 <= n < streams.len() && streams[n] == gone[k];
            if n != i {
                assert(streams[n].name@ != streams[i].name@);
            }
        }
    }
}

/// A source is to be added exactly if no stream has its name and its configuration: a source that
/// is new, or is configured differently, is subscribed to, and no other is.
pub proof fn lemma_reload_adds_what_changed<C: PartialEq, S>(
    s: &Subscriptions<C, S>,
    sources: Vec<SourceConfig<C>>,
    r: Reload<C>,
    j: int,
)
    requires
        call_ensures(Subscriptions::<C, S>::prepare_reload, (s, sources), r),
        distinct_streams(s.streams@),
        distinct_sources(sources@),
        0 <= j < sources@.len(),
    ensures
        r.to_add@.contains(sources@[j]) <==> !(exists|i: int|
            0 <= i < s.streams@.len() && #[trigger] s.streams@[i].name@ == sources@[j].name@
                && s.streams@[i].config.eq_spec(&sources@[j].config)),
        forall|k: int| 0 <= k < r.to_add@.len() ==> sources@.contains(#[trigger] r.to_add@[k]),
{
    let streams = s.streams@;
    let want = |t: SourceConfig<C>| missing(t, streams);
    let source = sources@[j];
    lemma_find_stream(streams, source.name@);
    lemma_filter_members(sources@, want, source);
    assert(sources@.contains(source));
    if missing(source, streams) {
        if exists|i: int|
            0 <= i < streams.len() && #[trigger] streams[i].name@ == source.name@
                && streams[i].config.eq_spec(&source.config) {
            let i = choose|i: int|
                0 <= i < streams.len() && #[trigger] streams[i].name@ == source.name@
                    && streams[i].config.eq_spec(&source.config);
            let m = find_stream(streams, source.name@).unwrap();
            if m != i {
                assert(streams[m].name@ != streams[i].name@);
            }
        }
    } else {
        let m = find_stream(streams, source.name@).unwrap();
        assert(streams[m].name@ == source.name@);
    }
    assert forall|k: int| 0 <= k < r.to_add@.len() implies sources@.contains(
        #[trigger] r.to_add@[k],
    ) by {
        assert(r.to_add@.contains(r.to_add@[k]));
        lemma_filter_members(sources@, want, r.to_add@[k]);
    }
}

/// No stream is removed twice and no source is added twice, and what is removed is a stream.
pub proof fn lemma_reload_names_nothing_twice<C: PartialEq, S>(
    s: &Subscriptions<C, S>,
    sources: Vec<SourceConfig<C>>,
    r: Reload<C>,
    k: int,
)
    requires
        call_ensures(Subscriptions::<C, S>::prepare_reload, (s, sources), r),
        distinct_streams(s.streams@),
        distinct_sources(sources@),
    ensures
        forall|a: int, b: int|
            0 <= a < b < r.to_remove@.len() ==> #[trigger] r.to_remove@[a]@
                != #[trigger] r.to_remove@[b]@,
        forall|a: int, b: int|
            0 <= a < b < r.to_add@.len() ==> #[trigger] r.to_add@[a].name@
                != #[trigger] r.to_add@[b].name@,
        0 <= k < r.to_remove@.len() ==> exists|i: int|
            0 <= i < s.streams@.len() && #[trigger] s.streams@[i].name@ == r.to_remove@[k]@,
{
    let streams = s.streams@;
    let out = |t: Subscription<C, S>| stale(t, sources@);
    let want = |t: SourceConfig<C>| missing(t, streams);
    let gone = streams.filter(out);
    lemma_filter_keeps_distinct(streams, out, |t: Subscription<C, S>| t.name@);
    lemma_filter_keeps_distinct(sources@, want, |t: SourceConfig<C>| t.name@);
    assert forall|a: int, b: int| 0 <= a < b < r.to_remove@.len() implies #[trigger] r.to_remove@[a]@
        != #[trigger] r.to_remove@[b]@ by {
        assert(gone[a].name@ != gone[b].name@);
    }
    if 0 <= k < r.to_remove@.len() {
        assert(gone.contains(gone[k]));
        lemma_filter_members(streams, out, gone[k]);
        let i = choose|i: int| 0 <= i < streams.len() && streams[i] == gone[k];
        assert(streams[i].name@ == r.to_remove@[k]@);
    }
}

/// Sources are added in the order in which they are configured.
pub proof fn lemma_reload_adds_first_first<C: PartialEq, S>(
    s: &Subscriptions<C, S>,
    sources: Vec<SourceConfig<C>>,
    r: Reload<C>,
    i: int,
    j: int,
)
    requires
        call_ensures(Subscriptions::<C, S>::prepare_reload, (s, sources), r),
        0 <= i < j < sources@.len(),
        forall|k: int| 0 <= k < s.streams@.len() ==> #[trigger] s.streams@[k].name@
            != sources@[i].name@,
        forall|k: int| 0 <= k < s.streams@.len() ==> #[trigger] s.streams@[k].name@
            != sources@[j].name@,
    ensures
        exists|a: int, b: int|
            0 <= a < b < r.to_add@.len() && #[trigger] r.to_add@[a] == sources@[i]
                && #[trigger] r.to_add@[b] == sources@[j],
{
    let want = |t: SourceConfig<C>| missing(t, s.streams@);
    lemma_find_stream(s.streams@, sources@[i].name@);
    lemma_find_stream(s.streams@, sources@[j].name@);
    assert(want(sources@[i]) && want(sources@[j]));
    lemma_filter_order(sources@, want, i, j);
}

/// Applying a reload to streams with different names keeps none of them twice.
pub proof fn lemma_apply_reload_keeps_none_twice<C, S>(
    s: &mut Subscriptions<C, S>,
    to_remove: Vec<String>,
    new_streams: Vec<Subscription<C, S>>,
    r: usize,
    a: int,
    b: int,
)
    requires
        call_ensures(Subscriptions::<C, S>::apply_reload, (s, to_remove, new_streams), r),
        distinct_streams(s.streams@),
        0 <= a < b < final(s).streams@.len() - new_streams@.len(),
    ensures
        final(s).streams@[a].name@ != final(s).streams@[b].name@,
{
    let keep = |t: Subscription<C, S>| !named(to_remove@, t.name@);
    let stay = old(s).streams@.filter(keep);
    lemma_filter_keeps_distinct(old(s).streams@, keep, |t: Subscription<C, S>| t.name@);
    assert(final(s).streams@[a] == stay[a] && final(s).streams@[b] == stay[b]);
}

/// Applying a reload drops exactly the streams whose names are given, keeps the others, and puts
/// the new streams behind them in their order; polling starts over.
pub proof fn lemma_apply_reload_keeps_and_adds<C, S>(
    s: &mut Subscriptions<C, S>,
    to_remove: Vec<String>,
    new_streams: Vec<Subscription<C, S>>,
    r: usize,
    i: int,
)
    requires
        call_ensures(Subscriptions::<C, S>::apply_reload, (s, to_remove, new_streams), r),
    ensures
        ({
            let after = final(s).streams@;
            let kept = after.len() - new_streams@.len();
            &&& 0 <= kept <= old(s).streams@.len()
            &&& 0 <= i < old(s).streams@.len() ==> (after.take(kept).contains(old(s).streams@[i])
                <==> !(exists|k: int|
                0 <= k < to_remove@.len() && #[trigger] to_remove@[k]@ == old(
                    s).streams@[i].name@))
            &&& 0 <= i < kept ==> old(s).streams@.contains(after[i])
            &&& 0 <= i < new_streams@.len() ==> after[kept + i] == new_streams@[i]
            &&& r == after.len()
        }),
        final(s).last_polled == 0,
{
    let keep = |t: Subscription<C, S>| !named(to_remove@, t.name@);
    let before = old(s).streams@;
    let after = final(s).streams@;
    let stay = before.filter(keep);
    before.lemma_filter_len(keep);
    assert(after.take(stay.len() as int) =~= stay);
    if 0 <= i < before.len() {
        lemma_filter_members(before, keep, before[i]);
        assert(before.contains(before[i]));
    }
    if 0 <= i < stay.len() {
        assert(stay.contains(stay[i]));
        lemma_filter_members(before, keep, stay[i]);
    }
}

/// Where no stream has a name that is given, all streams are kept in their order.
pub proof fn lemma_apply_reload_keeps_order<C, S>(
    s: &mut Subscriptions<C, S>,
    to_remove: Vec<String>,
    new_streams: Vec<Subscription<C, S>>,
    r: usize,
)
    requires
        call_ensures(Subscriptions::<C, S>::apply_reload, (s, to_remove, new_streams), r),
        forall|i: int, k: int|
            0 <= i < s.streams@.len() && 0 <= k < to_remove@.len()
                ==> #[trigger] s.streams@[i].name@ != #[trigger] to_remove@[k]@,
    ensures
        final(s).streams@ == old(s).streams@ + new_streams@,
{
    let keep = |t: Subscription<C, S>| !named(to_remove@, t.name@);
    let before = old(s).streams@;
    assert forall|i: int| 0 <= i < before.len() implies keep(#[trigger] before[i]) by {
        if named(to_remove@, before[i].name@) {
            let k = choose|k: int|
                0 <= k < to_remove@.len() && #[trigger] to_remove@[k]@ == before[i].name@;
        }
    }
    lemma_filter_all(before, keep);
}

/// A sequence whose elements all pass is itself once filtered.
proof fn lemma_filter_all<A>(s: Seq<A>, pred: spec_fn(A) -> bool)
    requires
        forall|i: int| 0 <= i < s.len() ==> pred(#[trigger] s[i]),
    ensures
        s.filter(pred) == s,
    decreases s.len(),
{
    reveal(Seq::filter);
    if s.len() > 0 {
        let front = s.drop_last();
        assert forall|i: int| 0 <= i < front.len() implies pred(#[trigger] front[i]) by {
            assert(front[i] == s[i]);
        }
        lemma_filter_all(front, pred);
        assert(s =~= front.push(s.last()));
    } else {
        assert(s.filter(pred) =~= s);
    }
}

/// Streams that stay keep their order, wherever other streams go: of two streams, the one that was
/// first comes first.
pub proof fn lemma_apply_reload_keeps_first_first<C, S>(
    s: &mut Subscriptions<C, S>,
    to_remove: Vec<String>,
    new_streams: Vec<Subscription<C, S>>,
    r: usize,
    i: int,
    j: int,
)
    requires
        call_ensures(Subscriptions::<C, S>::apply_reload, (s, to_remove, new_streams), r),
        0 <= i < j < s.streams@.len(),
        forall|k: int|
            0 <= k < to_remove@.len() ==> #[trigger] to_remove@[k]@ != s.streams@[i].name@,
        forall|k: int|
            0 <= k < to_remove@.len() ==> #[trigger] to_remove@[k]@ != s.streams@[j].name@,
    ensures
        exists|a: int, b: int|
            0 <= a < b < final(s).streams@.len() && #[trigger] final(s).streams@[a] == old(
                s).streams@[i] && #[trigger] final(s).streams@[b] == old(s).streams@[j],
{
    let keep = |t: Subscription<C, S>| !named(to_remove@, t.name@);
    let before = old(s).streams@;
    let after = final(s).streams@;
    assert(keep(before[i]) && keep(before[j]));
    lemma_filter_order(before, keep, i, j);
    let stay = before.filter(keep);
    let (a, b) = choose|a: int, b: int|
        0 <= a < b < stay.len() && #[trigger] stay[a] == before[i] && #[trigger] stay[b]
            == before[j];
    assert(after[a] == before[i] && after[b] == before[j]);
}

/// Of two elements that pass, the first one comes first once the sequence is filtered.
proof fn lemma_filter_order<A>(s: Seq<A>, pred: spec_fn(A) -> bool, i: int, j: int)
    requires
        0 <= i < j < s.len(),
        pred(s[i]),
        pred(s[j]),
    ensures
        exists|a: int, b: int|
            0 <= a < b < s.filter(pred).len() && #[trigger] s.filter(pred)[a] == s[i]
                && #[trigger] s.filter(pred)[b] == s[j],
    decreases s.len(),
{
    reveal(Seq::filter);
    let front = s.drop_last();
    let kept = front.filter(pred);
    let all = s.filter(pred);
    if j < front.len() {
        lemma_filter_order(front, pred, i, j);
        let (a, b) = choose|a: int, b: int|
            0 <= a < b < kept.len() && #[trigger] kept[a] == front[i] && #[trigger] kept[b]
                == front[j];
        assert(all[a] == s[i] && all[b] == s[j]);
    } else {
        assert(front[i] == s[i]);
        assert(front.contains(s[i]));
        lemma_filter_members(front, pred, s[i]);
        let a = choose|a: int| 0 <= a < kept.len() && kept[a] == s[i];
        assert(all[a] == s[i] && all[kept.len() as int] == s[j]);
    }
}

// --- Messages ---

/// What a subscriber gets: errors are passed on, keep-alives are not; a message is passed on as it
/// is, unless it names accounts and the exact check does not confirm them.
pub proof fn lemma_kept_messages<M, E>(
    filter: &ShmPreFilter,
    parsed: Parsed<M, E>,
    r: Option<Result<M, ReceiveError<E>>>,
    confirmed: bool,
)
    requires
        call_ensures(keep_parsed, (filter, parsed), r),
        parsed matches Parsed::Message { account_keys: Some(keys), .. } ==> call_ensures(
            ShmPreFilter::confirms,
            (filter, &keys),
            confirmed,
        ),
    ensures
        parsed is Ping ==> r is None,
        parsed matches Parsed::Error(error) ==> r == Some(
            Err::<M, ReceiveError<E>>(ReceiveError::Parse(error)),
        ),
        parsed matches Parsed::Message { message, account_keys: None } ==> r == Some(
            Ok::<M, ReceiveError<E>>(message),
        ),
        parsed matches Parsed::Message { message, account_keys: Some(_) } ==> {
            &&& confirmed ==> r == Some(Ok::<M, ReceiveError<E>>(message))
            &&& !confirmed ==> r is None
        },
{
}

// --- Backoff ---

/// The interval goes on to the scaled one, but never beyond the largest, and goes back to the first
/// when the backoff starts over; the first and the largest one never change.
pub proof fn lemma_backoff_intervals(
    initial_interval: u128,
    max_interval: u128,
    fresh: Backoff,
    b: &mut Backoff,
    scaled: u128,
    after: &mut Backoff,
)
    requires
        call_ensures(Backoff::new, (initial_interval, max_interval), fresh),
        call_ensures(Backoff::advance, (b, scaled), ()),
        *after == *final(b),
        call_ensures(Backoff::reset, (after,), ()),
    ensures
        fresh.current_interval == initial_interval,
        fresh.initial_interval == initial_interval,
        fresh.max_interval == max_interval,
        final(b).current_interval <= old(b).max_interval,
        final(b).current_interval <= scaled,
        final(b).current_interval == scaled || final(b).current_interval == old(b).max_interval,
        final(b).initial_interval == old(b).initial_interval,
        final(b).max_interval == old(b).max_interval,
        final(after).current_interval == old(b).initial_interval,
        final(after).initial_interval == old(b).initial_interval,
        final(after).max_interval == old(b).max_interval,
{
}

// --- Reconnecting ---

/// A reconnecting source that is subscribed starts its backoff over and receives; it hands every
/// message on and receives again; it sleeps after whatever goes wrong, and subscribes after it
/// slept.
pub proof fn lemma_reconnect_steps(
    source: &mut Reconnect,
    event: ReconnectEvent,
    action: ReconnectAction,
)
    requires
        call_ensures(Reconnect::step, (source, event), action),
    ensures
        event is Subscribed ==> action is ResetAndReceive && final(source).phase is Receive,
        event is Message ==> action is Deliver && final(source).phase is Receive,
        event is SubscribeFailed || event is ReceiveFailed || event is Ended ==> action is Sleep
            && final(source).phase is Sleep,
        event is Slept ==> action is Subscribe && final(source).phase is Subscribe,
        event is ReplayFailed ==> action is ReportReplayFailed && final(source).phase
            is ReplayVerdict,
        event == ReconnectEvent::ReplayVerdict(false) ==> action is Sleep && final(source).phase
            is Sleep,
        event == ReconnectEvent::ReplayVerdict(true) ==> action is FailReplay && final(
            source).phase is Failed,
{
}

/// After each step the source takes whatever can come of what it asked for.
pub proof fn lemma_reconnect_takes_what_can_come(
    source: &mut Reconnect,
    event: ReconnectEvent,
    action: ReconnectAction,
    fresh: Reconnect,
    last: bool,
)
    requires
        call_ensures(Reconnect::step, (source, event), action),
        call_ensures(Reconnect::new, (), fresh),
    ensures
        fresh.expects(ReconnectEvent::Subscribed) && fresh.expects(ReconnectEvent::SubscribeFailed),
        action is Subscribe ==> final(source).expects(ReconnectEvent::Subscribed) && final(
            source).expects(ReconnectEvent::SubscribeFailed),
        action is ResetAndReceive || action is Receive || action is Deliver ==> {
            &&& final(source).expects(ReconnectEvent::Message)
            &&& final(source).expects(ReconnectEvent::ReplayFailed)
            &&& final(source).expects(ReconnectEvent::ReceiveFailed)
            &&& final(source).expects(ReconnectEvent::Ended)
        },
        action is ReportReplayFailed ==> final(source).expects(ReconnectEvent::ReplayVerdict(last)),
        action is Sleep ==> final(source).expects(ReconnectEvent::Slept),
{
}

/// A source that lost its subscription subscribes again, and then receives again: whatever it was
/// that went wrong, three steps later it is where it was.
pub proof fn lemma_reconnect_recovers(
    lost: &mut Reconnect,
    event: ReconnectEvent,
    a: ReconnectAction,
    slept: &mut Reconnect,
    b: ReconnectAction,
    subscribed: &mut Reconnect,
    c: ReconnectAction,
)
    requires
        call_ensures(Reconnect::step, (lost, event), a),
        event is ReceiveFailed || event is Ended,
        *slept == *final(lost),
        call_ensures(Reconnect::step, (slept, ReconnectEvent::Slept), b),
        *subscribed == *final(slept),
        call_ensures(Reconnect::step, (subscribed, ReconnectEvent::Subscribed), c),
    ensures
        a is Sleep,
        b is Subscribe,
        c is ResetAndReceive,
        final(subscribed).phase is Receive,
        old(lost).phase is Receive ==> *final(subscribed) == *old(lost),
{
}

/// A new source is about to subscribe; one that is configured to reconnect does so when it is first
/// polled, with the configured intervals, and one that is not does so first of all.
pub proof fn lemma_start_of_a_source(
    reconnect: Option<(u128, u128)>,
    r: SubscriptionStart,
    fresh: Reconnect,
)
    requires
        call_ensures(subscription_start, (reconnect,), r),
        call_ensures(Reconnect::new, (), fresh),
    ensures
        fresh.phase is Subscribe,
        reconnect is None <==> r is SubscribeFirst,
        reconnect matches Some((initial, max)) ==> (r matches SubscriptionStart::Lazy {
            source,
            backoff,
        } && source.phase is Subscribe && backoff.current_interval == initial
            && backoff.initial_interval == initial && backoff.max_interval == max),
{
}

/// A subscription has the name and the configuration of its source and the stream that was got for
/// it; where none was got, the error is passed on.
pub proof fn lemma_subscription_keeps_its_source<C, S, E>(
    source: SourceConfig<C>,
    stream: Result<S, E>,
    r: Result<Subscription<C, S>, E>,
)
    requires
        call_ensures(Subscription::<C, S>::new::<E>, (source, stream), r),
    ensures
        stream matches Ok(s) ==> (r matches Ok(sub) && sub.name@ == source.name@ && sub.config
            == source.config && sub.stream == s),
        stream matches Err(error) ==> (r matches Err(e) && e == error),
{
}

/// A name keeps its place: two names get the same place exactly if they are the same name, and the
/// place of a name does not change when others come.
pub proof fn lemma_names_keep_their_places(
    names: &mut SourceNames,
    a: &String,
    i: usize,
    later: &mut SourceNames,
    b: &String,
    j: usize,
)
    requires
        names.wf(),
        call_ensures(SourceNames::get_static_name, (names, a), i),
        *later == *final(names),
        call_ensures(SourceNames::get_static_name, (later, b), j),
    ensures
        i == j <==> a@ == b@,
        final(later).names@[i as int]@ == a@,
        final(later).names@[j as int]@ == b@,
        forall|k: int|
            0 <= k < old(names).names@.len() ==> #[trigger] final(later).names@[k] == old(
                names).names@[k],
        final(later).names@.len() <= old(names).names@.len() + 2,
{
    if a@ == b@ && i != j {
        if i < j {
            assert(final(later).names@[i as int]@ != final(later).names@[j as int]@);
        } else {
            assert(final(later).names@[j as int]@ != final(later).names@[i as int]@);
        }
    }
}

} // verus!
