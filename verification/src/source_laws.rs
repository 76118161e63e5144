//! What polling and reloading promise of all sources together.
use vstd::prelude::*;
use vstd::std_specs::cmp::PartialEqSpec;

use crate::journal::lemma_remainder_moves;
use crate::journal::lemma_slots_differ;
use crate::source::find_source;
use crate::source::find_stream;
use crate::source::missing;
use crate::source::named;
use crate::source::stale;
use crate::source::SourceConfig;
use crate::source::Subscription;

verus! {

// --- Polling ---

/// The stream that the `k`-th poll of a round looks at, where `init` was polled last before the
/// round and there are `count` streams.
pub open spec fn polled(init: int, count: int, k: int) -> int {
    (init + k) % count
}

/// Each poll looks at the stream that follows the last polled one.
pub proof fn lemma_poll_order(init: int, count: int, k: int)
    requires
        0 <= init < count,
        0 <= k,
    ensures
        polled(init, count, 0) == init,
        polled(init, count, k + 1) == (polled(init, count, k) + 1) % count,
{
    vstd::arithmetic::div_mod::lemma_small_mod(init as nat, count as nat);
    lemma_remainder_moves(init + k, 1, count);
}

/// A round in which every stream is pending is over exactly after each stream was polled once:
/// the stream polled last before the round comes up again with the last poll, and not before.
pub proof fn lemma_round_ends_after_all(init: int, count: int, k: int)
    requires
        0 <= init < count,
        1 <= k <= count,
    ensures
        polled(init, count, k) == init <==> k == count,
{
    vstd::arithmetic::div_mod::lemma_small_mod(init as nat, count as nat);
    if k == count {
        vstd::arithmetic::div_mod::lemma_mod_add_multiples_vanish(init, count);
    } else {
        lemma_slots_differ(init, init + k, count);
    }
}

/// No stream is starved: in a round, every stream is polled, and no two polls look at the same
/// one.
pub proof fn lemma_round_polls_each_once(init: int, count: int, stream: int)
    requires
        0 <= init < count,
        0 <= stream < count,
    ensures
        exists|k: int| 1 <= k <= count && #[trigger] polled(init, count, k) == stream,
        forall|a: int, b: int|
            1 <= a < b <= count ==> #[trigger] polled(init, count, a) != #[trigger] polled(
                init,
                count,
                b,
            ),
{
    let k = if stream > init {
        stream - init
    } else {
        stream - init + count
    };
    if stream > init {
        vstd::arithmetic::div_mod::lemma_small_mod(stream as nat, count as nat);
    } else {
        vstd::arithmetic::div_mod::lemma_mod_add_multiples_vanish(stream, count);
        vstd::arithmetic::div_mod::lemma_small_mod(stream as nat, count as nat);
    }
    assert(polled(init, count, k) == stream);
    assert forall|a: int, b: int| 1 <= a < b <= count implies #[trigger] polled(init, count, a)
        != #[trigger] polled(init, count, b) by {
        lemma_slots_differ(init + a, init + b, count);
    }
}

// --- Reloading ---

/// No two sources have the same name.
pub open spec fn distinct_sources<C>(sources: Seq<SourceConfig<C>>) -> bool {
    forall|i: int, j: int|
        0 <= i < j < sources.len() ==> #[trigger] sources[i].name@ != #[trigger] sources[j].name@
}

/// No two streams have the same name.
pub open spec fn distinct_streams<C, S>(streams: Seq<Subscription<C, S>>) -> bool {
    forall|i: int, j: int|
        0 <= i < j < streams.len() ==> #[trigger] streams[i].name@ != #[trigger] streams[j].name@
}

/// The stream serves the source: it has its name, and its configuration is the same.
pub open spec fn serves<C: PartialEq, S>(
    stream: Subscription<C, S>,
    source: SourceConfig<C>,
) -> bool {
    &&& stream.name@ == source.name@
    &&& stream.config == source.config || stream.config.eq_spec(&source.config)
}

/// `added` are the subscriptions to `sources`, one for one.
pub open spec fn subscribed_to<C, S>(
    added: Seq<Subscription<C, S>>,
    sources: Seq<SourceConfig<C>>,
) -> bool {
    &&& added.len() == sources.len()
    &&& forall|i: int|
        0 <= i < added.len() ==> (#[trigger] added[i]).name@ == sources[i].name@ && added[i].config
            == sources[i].config
}

/// The streams after a reload to `sources`, where `added` are the subscriptions to the sources
/// that were to be added.
pub open spec fn reloaded<C: PartialEq, S>(
    streams: Seq<Subscription<C, S>>,
    sources: Seq<SourceConfig<C>>,
    added: Seq<Subscription<C, S>>,
) -> Seq<Subscription<C, S>> {
    let to_remove = streams.filter(|s: Subscription<C, S>| stale(s, sources)).map_values(
        |s: Subscription<C, S>| s.name,
    );
    streams.filter(|s: Subscription<C, S>| !named(to_remove, s.name@)) + added
}

/// An element of a filtered sequence is one of the sequence that passes.
pub proof fn lemma_filter_members<A>(s: Seq<A>, pred: spec_fn(A) -> bool, x: A)
    ensures
        s.filter(pred).contains(x) <==> s.contains(x) && pred(x),
    decreases s.len(),
{
    reveal(Seq::filter);
    if s.len() > 0 {
        let front = s.drop_last();
        lemma_filter_members(front, pred, x);
        let kept = front.filter(pred);
        if s.contains(x) {
            let i = choose|i: int| 0 <= i < s.len() && s[i] == x;
            if i < s.len() - 1 {
                assert(front[i] == x);
                assert(front.contains(x));
            }
        }
        if front.contains(x) {
            let i = choose|i: int| 0 <= i < front.len() && front[i] == x;
            assert(s[i] == x);
        }
        assert(s.last() == s[s.len() - 1]);
        if pred(s.last()) {
            assert(s.filter(pred) == kept.push(s.last()));
            assert(kept.push(s.last())[kept.len() as int] == s.last());
            if kept.contains(x) {
                let i = choose|i: int| 0 <= i < kept.len() && kept[i] == x;
                assert(kept.push(s.last())[i] == x);
            }
            if kept.push(s.last()).contains(x) {
                let i = choose|i: int|
                    0 <= i < kept.push(s.last()).len() && kept.push(s.last())[i] == x;
                if i < kept.len() {
                    assert(kept[i] == x);
                }
            }
        }
    }
}

/// Where `f` tells the elements of a sequence apart, it tells those of a filtered one apart.
pub proof fn lemma_filter_keeps_distinct<A>(
    s: Seq<A>,
    pred: spec_fn(A) -> bool,
    f: spec_fn(A) -> Seq<char>,
)
    requires
        forall|i: int, j: int| 0 <= i < j < s.len() ==> f(#[trigger] s[i]) != f(#[trigger] s[j]),
    ensures
        forall|i: int, j: int|
            0 <= i < j < s.filter(pred).len() ==> f(#[trigger] s.filter(pred)[i]) != f(
                #[trigger] s.filter(pred)[j],
            ),
    decreases s.len(),
{
    reveal(Seq::filter);
    if s.len() > 0 {
        let front = s.drop_last();
        assert forall|i: int, j: int| 0 <= i < j < front.len() implies f(#[trigger] front[i]) != f(
            #[trigger] front[j],
        ) by {
            assert(front[i] == s[i] && front[j] == s[j]);
        }
        lemma_filter_keeps_distinct(front, pred, f);
        let kept = front.filter(pred);
        assert forall|i: int| 0 <= i < kept.len() implies f(#[trigger] kept[i]) != f(s.last()) by {
            assert(kept.contains(kept[i]));
            lemma_filter_members(front, pred, kept[i]);
            let k = choose|k: int| 0 <= k < front.len() && front[k] == kept[i];
            assert(s[k] == kept[i] && s[s.len() - 1] == s.last());
        }
    }
}

/// A sequence that has no element which passes is empty once filtered.
proof fn lemma_filter_none<A>(s: Seq<A>, pred: spec_fn(A) -> bool)
    requires
        forall|i: int| 0 <= i < s.len() ==> !pred(#[trigger] s[i]),
    ensures
        s.filter(pred) == Seq::<A>::empty(),
{
    if s.filter(pred).len() > 0 {
        let x = s.filter(pred)[0];
        assert(s.filter(pred).contains(x));
        lemma_filter_members(s, pred, x);
        let i = choose|i: int| 0 <= i < s.len() && s[i] == x;
        assert(!pred(s[i]));
    }
}

/// A source found by name has the name; one that is there is found.
pub proof fn lemma_find_source<C>(sources: Seq<SourceConfig<C>>, name: Seq<char>)
    ensures
        match find_source(sources, name) {
            Some(i) => 0 <= i < sources.len() && sources[i].name@ == name,
            None => forall|i: int| 0 <= i < sources.len() ==> #[trigger] sources[i].name@ != name,
        },
    decreases sources.len(),
{
    if sources.len() > 0 {
        lemma_find_source(sources.drop_last(), name);
        if find_source(sources, name) is None {
            assert forall|i: int| 0 <= i < sources.len() implies #[trigger] sources[i].name@ != name by {
                if i < sources.len() - 1 {
                    assert(sources.drop_last()[i] == sources[i]);
                }
            }
        }
    }
}

/// A stream found by name has the name; one that is there is found.
pub proof fn lemma_find_stream<C, S>(streams: Seq<Subscription<C, S>>, name: Seq<char>)
    ensures
        match find_stream(streams, name) {
            Some(i) => 0 <= i < streams.len() && streams[i].name@ == name,
            None => forall|i: int| 0 <= i < streams.len() ==> #[trigger] streams[i].name@ != name,
        },
    decreases streams.len(),
{
    if streams.len() > 0 {
        lemma_find_stream(streams.drop_last(), name);
        if find_stream(streams, name) is None {
            assert forall|i: int| 0 <= i < streams.len() implies #[trigger] streams[i].name@ != name by {
                if i < streams.len() - 1 {
                    assert(streams.drop_last()[i] == streams[i]);
                }
            }
        }
    }
}

/// A stream stays in a reload exactly if it is not stale.
proof fn lemma_kept_streams<C: PartialEq, S>(
    streams: Seq<Subscription<C, S>>,
    sources: Seq<SourceConfig<C>>,
    i: int,
)
    requires
        distinct_streams(streams),
        0 <= i < streams.len(),
    ensures
        ({
            let to_remove = streams.filter(
                |s: Subscription<C, S>| stale(s, sources),
            ).map_values(|s: Subscription<C, S>| s.name);
            named(to_remove, streams[i].name@) <==> stale(streams[i], sources)
        }),
{
    let out = |s: Subscription<C, S>| stale(s, sources);
    let gone = streams.filter(out);
    let to_remove = gone.map_values(|s: Subscription<C, S>| s.name);
    lemma_filter_members(streams, out, streams[i]);
    if stale(streams[i], sources) {
        assert(streams.contains(streams[i]));
        assert(gone.contains(streams[i]));
        let k = choose|k: int| 0 <= k < gone.len() && gone[k] == streams[i];
        assert(to_remove[k]@ == streams[i].name@);
    }
    if named(to_remove, streams[i].name@) {
        let k = choose|k: int|
            0 <= k < to_remove.len() && #[trigger] to_remove[k]@ == streams[i].name@;
        let other = gone[k];
        assert(gone.contains(other));
        lemma_filter_members(streams, out, other);
        let j = choose|j: int| 0 <= j < streams.len() && streams[j] == other;
        if j != i {
            assert(streams[j].name@ != streams[i].name@);
        }
    }
}

/// After a reload, what is subscribed to is what was asked for: every source has a stream that
/// serves it, and every stream serves a source.
pub proof fn lemma_reload_serves_sources<C: PartialEq, S>(
    streams: Seq<Subscription<C, S>>,
    sources: Seq<SourceConfig<C>>,
    added: Seq<Subscription<C, S>>,
)
    requires
        distinct_streams(streams),
        distinct_sources(sources),
        subscribed_to(added, sources.filter(|s: SourceConfig<C>| missing(s, streams))),
    ensures
        forall|j: int|
            0 <= j < sources.len() ==> exists|i: int|
                0 <= i < reloaded(streams, sources, added).len() && serves(
                    #[trigger] reloaded(streams, sources, added)[i],
                    #[trigger] sources[j],
                ),
        forall|i: int|
            0 <= i < reloaded(streams, sources, added).len() ==> exists|j: int|
                0 <= j < sources.len() && serves(
                    #[trigger] reloaded(streams, sources, added)[i],
                    #[trigger] sources[j],
                ),
{
    let after = reloaded(streams, sources, added);
    let to_remove = streams.filter(|s: Subscription<C, S>| stale(s, sources)).map_values(
        |s: Subscription<C, S>| s.name,
    );
    let keep = |s: Subscription<C, S>| !named(to_remove, s.name@);
    let want = |s: SourceConfig<C>| missing(s, streams);
    let kept = streams.filter(keep);
    let to_add = sources.filter(want);
    assert forall|j: int| 0 <= j < sources.len() implies exists|i: int|
        0 <= i < after.len() && serves(#[trigger] after[i], #[trigger] sources[j]) by {
        let source = sources[j];
        assert(sources.contains(source));
        lemma_filter_members(sources, want, source);
        if missing(source, streams) {
            let k = choose|k: int| 0 <= k < to_add.len() && to_add[k] == source;
            assert(added[k].name@ == to_add[k].name@);
            assert(after[kept.len() + k] == added[k]);
            assert(serves(after[kept.len() + k], sources[j]));
        } else {
            lemma_find_stream(streams, source.name@);
            let i = find_stream(streams, source.name@).unwrap();
            lemma_find_source(sources, streams[i].name@);
            let m = find_source(sources, streams[i].name@).unwrap();
            if m != j {
                assert(sources[m].name@ != sources[j].name@);
            }
            assert(!stale(streams[i], sources));
            lemma_kept_streams(streams, sources, i);
            assert(streams.contains(streams[i]));
            lemma_filter_members(streams, keep, streams[i]);
            let k = choose|k: int| 0 <= k < kept.len() && kept[k] == streams[i];
            assert(after[k] == streams[i]);
            assert(serves(after[k], sources[j]));
        }
    }
    assert forall|i: int| 0 <= i < after.len() implies exists|j: int|
        0 <= j < sources.len() && serves(#[trigger] after[i], #[trigger] sources[j]) by {
        if i < kept.len() {
            let stream = kept[i];
            assert(after[i] == stream);
            assert(kept.contains(stream));
            lemma_filter_members(streams, keep, stream);
            let k = choose|k: int| 0 <= k < streams.len() && streams[k] == stream;
            lemma_kept_streams(streams, sources, k);
            lemma_find_source(sources, stream.name@);
            let j = find_source(sources, stream.name@).unwrap();
            assert(serves(after[i], sources[j]));
        } else {
            let k = i - kept.len();
            assert(after[i] == added[k]);
            assert(to_add.contains(to_add[k]));
            lemma_filter_members(sources, want, to_add[k]);
            let j = choose|j: int| 0 <= j < sources.len() && sources[j] == to_add[k];
            assert(serves(after[i], sources[j]));
        }
    }
}

/// A reload leaves a stream alone whose source is still configured the same way.
pub proof fn lemma_reload_keeps_unchanged<C: PartialEq, S>(
    streams: Seq<Subscription<C, S>>,
    sources: Seq<SourceConfig<C>>,
    added: Seq<Subscription<C, S>>,
    i: int,
)
    requires
        distinct_streams(streams),
        0 <= i < streams.len(),
        !stale(streams[i], sources),
    ensures
        reloaded(streams, sources, added).contains(streams[i]),
{
    let to_remove = streams.filter(|s: Subscription<C, S>| stale(s, sources)).map_values(
        |s: Subscription<C, S>| s.name,
    );
    let keep = |s: Subscription<C, S>| !named(to_remove, s.name@);
    let kept = streams.filter(keep);
    lemma_kept_streams(streams, sources, i);
    assert(streams.contains(streams[i]));
    lemma_filter_members(streams, keep, streams[i]);
    let k = choose|k: int| 0 <= k < kept.len() && kept[k] == streams[i];
    assert(reloaded(streams, sources, added)[k] == streams[i]);
}

/// The source of a stream that is not stale has that stream, and is not subscribed to again.
pub proof fn lemma_unchanged_source_not_added<C: PartialEq, S>(
    streams: Seq<Subscription<C, S>>,
    sources: Seq<SourceConfig<C>>,
    i: int,
    j: int,
)
    requires
        distinct_streams(streams),
        distinct_sources(sources),
        0 <= i < streams.len(),
        0 <= j < sources.len(),
        streams[i].name@ == sources[j].name@,
        !stale(streams[i], sources),
    ensures
        !missing(sources[j], streams),
{
    lemma_find_source(sources, streams[i].name@);
    let m = find_source(sources, streams[i].name@).unwrap();
    if m != j {
        assert(sources[m].name@ != sources[j].name@);
    }
    lemma_find_stream(streams, sources[j].name@);
    let k = find_stream(streams, sources[j].name@).unwrap();
    if k != i {
        assert(streams[k].name@ != streams[i].name@);
    }
}

/// No two streams have the same name after a reload either.
pub proof fn lemma_reload_keeps_distinct<C: PartialEq, S>(
    streams: Seq<Subscription<C, S>>,
    sources: Seq<SourceConfig<C>>,
    added: Seq<Subscription<C, S>>,
)
    requires
        distinct_streams(streams),
        distinct_sources(sources),
        subscribed_to(added, sources.filter(|s: SourceConfig<C>| missing(s, streams))),
    ensures
        distinct_streams(reloaded(streams, sources, added)),
{
    let after = reloaded(streams, sources, added);
    let to_remove = streams.filter(|s: Subscription<C, S>| stale(s, sources)).map_values(
        |s: Subscription<C, S>| s.name,
    );
    let keep = |s: Subscription<C, S>| !named(to_remove, s.name@);
    let want = |s: SourceConfig<C>| missing(s, streams);
    let kept = streams.filter(keep);
    let to_add = sources.filter(want);
    lemma_filter_keeps_distinct(streams, keep, |s: Subscription<C, S>| s.name@);
    lemma_filter_keeps_distinct(sources, want, |s: SourceConfig<C>| s.name@);
    assert forall|i: int, j: int| 0 <= i < j < after.len() implies #[trigger] after[i].name@
        != #[trigger] after[j].name@ by {
        if j < kept.len() {
            assert(after[i] == kept[i] && after[j] == kept[j]);
        } else if i >= kept.len() {
            let a = i - kept.len();
            let b = j - kept.len();
            assert(after[i] == added[a] && after[j] == added[b]);
            assert(to_add[a].name@ != to_add[b].name@);
        } else if after[i].name@ == after[j].name@ {
            let b = j - kept.len();
            assert(after[i] == kept[i] && after[j] == added[b]);
            assert(kept.contains(kept[i]));
            lemma_filter_members(streams, keep, kept[i]);
            let k = choose|k: int| 0 <= k < streams.len() && streams[k] == kept[i];
            lemma_kept_streams(streams, sources, k);
            assert(to_add.contains(to_add[b]));
            lemma_filter_members(sources, want, to_add[b]);
            let m = choose|m: int| 0 <= m < sources.len() && sources[m] == to_add[b];
            lemma_unchanged_source_not_added(streams, sources, k, m);
        }
    }
}

/// `pairing` pairs streams and sources one to one: stream `i` serves source `pairing[i]`.
pub open spec fn paired<C: PartialEq, S>(
    streams: Seq<Subscription<C, S>>,
    sources: Seq<SourceConfig<C>>,
    pairing: Seq<int>,
) -> bool {
    &&& streams.len() == sources.len()
    &&& pairing.len() == sources.len()
    &&& pairing.no_duplicates()
    &&& forall|i: int|
        0 <= i < pairing.len() ==> 0 <= #[trigger] pairing[i] < sources.len() && serves(
            streams[i],
            sources[pairing[i]],
        )
}

/// After a reload, each source has exactly one stream: up to their order, the streams are those
/// of the sources, no more and no less.
pub proof fn lemma_reload_pairs_sources<C: PartialEq, S>(
    streams: Seq<Subscription<C, S>>,
    sources: Seq<SourceConfig<C>>,
    added: Seq<Subscription<C, S>>,
)
    requires
        distinct_streams(streams),
        distinct_sources(sources),
        subscribed_to(added, sources.filter(|s: SourceConfig<C>| missing(s, streams))),
    ensures
        exists|pairing: Seq<int>| paired(reloaded(streams, sources, added), sources, pairing),
{
    let after = reloaded(streams, sources, added);
    lemma_reload_serves_sources(streams, sources, added);
    lemma_reload_keeps_distinct(streams, sources, added);
    let served = |i: int|
        choose|j: int| 0 <= j < sources.len() && serves(after[i], #[trigger] sources[j]);
    let pairing = Seq::new(after.len(), served);
    assert forall|i: int| 0 <= i < after.len() implies 0 <= #[trigger] pairing[i] < sources.len()
        && serves(after[i], sources[pairing[i]]) by {
        let stream = after[i];
        assert(exists|j: int| 0 <= j < sources.len() && serves(stream, #[trigger] sources[j]));
    }
    assert forall|i: int, k: int| 0 <= i < k < after.len() implies #[trigger] pairing[i]
        != #[trigger] pairing[k] by {
        assert(after[i].name@ != after[k].name@);
    }
    // the names of the streams and of the sources are the same set
    let stream_names = after.map_values(|s: Subscription<C, S>| s.name@);
    let source_names = sources.map_values(|s: SourceConfig<C>| s.name@);
    assert(stream_names.no_duplicates());
    assert(source_names.no_duplicates());
    assert forall|name: Seq<char>| stream_names.contains(name) implies source_names.contains(
        name,
    ) by {
        let i = choose|i: int| 0 <= i < stream_names.len() && stream_names[i] == name;
        assert(source_names[pairing[i]] == name);
    }
    assert forall|name: Seq<char>| source_names.contains(name) implies stream_names.contains(
        name,
    ) by {
        let j = choose|j: int| 0 <= j < source_names.len() && source_names[j] == name;
        let source = sources[j];
        let i = choose|i: int| 0 <= i < after.len() && serves(#[trigger] after[i], source);
        assert(stream_names[i] == name);
    }
    assert(stream_names.to_set() =~= source_names.to_set());
    stream_names.unique_seq_to_set();
    source_names.unique_seq_to_set();
    assert(paired(after, sources, pairing));
}

/// A second reload to the same sources has nothing to do: no stream is to be removed, and no
/// source is to be added. This takes sources whose configurations equal themselves.
pub proof fn lemma_second_reload_changes_nothing<C: PartialEq, S>(
    streams: Seq<Subscription<C, S>>,
    sources: Seq<SourceConfig<C>>,
    added: Seq<Subscription<C, S>>,
)
    requires
        distinct_streams(streams),
        distinct_sources(sources),
        subscribed_to(added, sources.filter(|s: SourceConfig<C>| missing(s, streams))),
        forall|j: int|
            0 <= j < sources.len() ==> (#[trigger] sources[j]).config.eq_spec(&sources[j].config),
    ensures
        ({
            let after = reloaded(streams, sources, added);
            &&& after.filter(|s: Subscription<C, S>| stale(s, sources)).map_values(
                |s: Subscription<C, S>| s.name,
            ) == Seq::<String>::empty()
            &&& sources.filter(|s: SourceConfig<C>| missing(s, after)) == Seq::<
                SourceConfig<C>,
            >::empty()
        }),
{
    let after = reloaded(streams, sources, added);
    let out = |s: Subscription<C, S>| stale(s, sources);
    let want = |s: SourceConfig<C>| missing(s, after);
    lemma_reload_serves_sources(streams, sources, added);
    lemma_reload_keeps_distinct(streams, sources, added);
    assert forall|i: int| 0 <= i < after.len() implies !out(#[trigger] after[i]) by {
        let j = choose|j: int| 0 <= j < sources.len() && serves(after[i], #[trigger] sources[j]);
        lemma_find_source(sources, after[i].name@);
        let m = find_source(sources, after[i].name@).unwrap();
        if m != j {
            assert(sources[m].name@ != sources[j].name@);
        }
    }
    lemma_filter_none(after, out);
    assert forall|j: int| 0 <= j < sources.len() implies !want(#[trigger] sources[j]) by {
        let i = choose|i: int| 0 <= i < after.len() && serves(#[trigger] after[i], sources[j]);
        lemma_find_stream(after, sources[j].name@);
        let k = find_stream(after, sources[j].name@).unwrap();
        if k != i {
            assert(after[k].name@ != after[i].name@);
        }
    }
    lemma_filter_none(sources, want);
    assert(after.filter(out).map_values(|s: Subscription<C, S>| s.name) =~= Seq::<
        String,
    >::empty());
}

} // verus!
