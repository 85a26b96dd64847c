//! The service over time: a model of the calls that a host makes, and what
//! holds of every sequence of them.
//!
//! The model keeps what the executable types keep, a supervisor and the
//! mapping from id to source, and takes each call to the mapping that the
//! contract of its executable counterpart states. A lock around the
//! registry makes the calls of several callers one sequence; what is proved
//! here of all sequences then holds of every interleaving.

use crate::listing::lists_each_once;
use crate::supervisor::{Supervisor, SILENCE_THRESHOLD, TIME_UNIT};
use vstd::prelude::*;

verus! {

/// One call on the service.
pub enum Call<S> {
    /// `Supervisor::start` at `now`.
    Start { now: u64 },
    /// `Supervisor::heartbeat` at `now`.
    Heartbeat { now: u64 },
    /// One tick of a timer at `now`: `Supervisor::sweep`.
    Tick { now: u64 },
    /// `Registry::create` of `source` under `id`.
    Create { id: Seq<char>, source: S },
    /// `Registry::destroy` of `id`.
    Destroy { id: Seq<char> },
    /// An update in place through `Registry::source_mut`, which leaves
    /// `source` under `id` where `id` is registered.
    Update { id: Seq<char>, source: S },
    /// `Registry::list` or `Registry::ids`.
    List,
}

/// What the service holds between two calls.
pub struct Service<S> {
    pub supervisor: Supervisor,
    pub sources: Map<Seq<char>, S>,
}

/// The service after `call`.
pub open spec fn step<S>(service: Service<S>, call: Call<S>) -> Service<S> {
    match call {
        Call::Start { now } => Service {
            supervisor: Supervisor::Armed { last_heartbeat: now },
            sources: service.sources,
        },
        Call::Heartbeat { now } => Service {
            supervisor: service.supervisor.beat(now),
            sources: service.sources,
        },
        Call::Tick { now } => if service.supervisor.silent_at(now) {
            Service { supervisor: service.supervisor, sources: Map::empty() }
        } else {
            service
        },
        Call::Create { id, source } => Service {
            supervisor: service.supervisor,
            sources: service.sources.insert(id, source),
        },
        Call::Destroy { id } => Service {
            supervisor: service.supervisor,
            sources: service.sources.remove(id),
        },
        Call::Update { id, source } => if service.sources.contains_key(id) {
            Service { supervisor: service.supervisor, sources: service.sources.insert(id, source) }
        } else {
            service
        },
        Call::List => service,
    }
}

/// The service after `calls`, made one after the other.
pub open spec fn run<S>(service: Service<S>, calls: Seq<Call<S>>) -> Service<S>
    decreases calls.len(),
{
    if calls.len() == 0 {
        service
    } else {
        run(step(service, calls.first()), calls.drop_first())
    }
}

/// Whether `call`, made on `service`, takes `id` out of the registry: it
/// destroys `id`, or it is a tick that finds the host silent.
pub open spec fn removes<S>(service: Service<S>, call: Call<S>, id: Seq<char>) -> bool {
    match call {
        Call::Destroy { id: destroyed } => destroyed == id,
        Call::Tick { now } => service.supervisor.silent_at(now),
        _ => false,
    }
}

/// No call of `calls`, made one after the other on `service`, takes `id`
/// out of the registry.
pub open spec fn spares<S>(service: Service<S>, calls: Seq<Call<S>>, id: Seq<char>) -> bool
    decreases calls.len(),
{
    calls.len() == 0 || {
        &&& !removes(service, calls.first(), id)
        &&& spares(step(service, calls.first()), calls.drop_first(), id)
    }
}

/// `calls` holds neither a start nor a heartbeat.
pub open spec fn is_quiet<S>(calls: Seq<Call<S>>) -> bool {
    forall|i: int|
        0 <= i < calls.len() ==> !(#[trigger] calls[i] is Start) && !(calls[i] is Heartbeat)
}

/// The host keeps its pace through `calls`: whenever it sends a heartbeat
/// and whenever a timer ticks, at most one time unit has passed since the
/// heartbeat or start before, the first of them since `last`.
pub open spec fn paced<S>(last: u64, calls: Seq<Call<S>>) -> bool
    decreases calls.len(),
{
    calls.len() == 0 || match calls.first() {
        Call::Start { now } => paced(now, calls.drop_first()),
        Call::Heartbeat { now } => now - last <= TIME_UNIT && paced(now, calls.drop_first()),
        Call::Tick { now } => now - last <= TIME_UNIT && paced(last, calls.drop_first()),
        _ => paced(last, calls.drop_first()),
    }
}

/// `calls` holds no call that destroys `id`.
pub open spec fn never_destroys<S>(calls: Seq<Call<S>>, id: Seq<char>) -> bool {
    forall|i: int| 0 <= i < calls.len() ==> #[trigger] calls[i] != (Call::<S>::Destroy { id })
}

/// `calls` holds a call that creates a source under `id`.
pub open spec fn creates<S>(calls: Seq<Call<S>>, id: Seq<char>) -> bool {
    exists|i: int|
        0 <= i < calls.len() && #[trigger] calls[i] is Create && target(calls[i]) == Some(id)
}

/// The id that a call on the registry addresses.
pub open spec fn target<S>(call: Call<S>) -> Option<Seq<char>> {
    match call {
        Call::Create { id, .. } => Some(id),
        Call::Destroy { id } => Some(id),
        Call::Update { id, .. } => Some(id),
        _ => None,
    }
}

/// `call` is one on the registry: create, destroy, update or list.
pub open spec fn is_registry_call<S>(call: Call<S>) -> bool {
    target(call) is Some || call is List
}

/// The two calls do not address the same id.
pub open spec fn independent<S>(ours: Call<S>, theirs: Call<S>) -> bool {
    target(ours) is None || target(theirs) is None || target(ours) != target(theirs)
}

/// Every call of `calls` is one on the registry.
pub open spec fn on_registry<S>(calls: Seq<Call<S>>) -> bool {
    forall|i: int| 0 <= i < calls.len() ==> is_registry_call(#[trigger] calls[i])
}

/// No call of `ours` addresses an id that a call of `theirs` addresses.
pub open spec fn on_distinct_ids<S>(ours: Seq<Call<S>>, theirs: Seq<Call<S>>) -> bool {
    forall|i: int, j: int|
        0 <= i < ours.len() && 0 <= j < theirs.len() ==> independent(
            #[trigger] ours[i],
            #[trigger] theirs[j],
        )
}

/// `merged` holds the calls of `ours` and of `theirs`, each sequence in its
/// own order, woven into one in any way.
pub open spec fn interleaves<S>(
    merged: Seq<Call<S>>,
    ours: Seq<Call<S>>,
    theirs: Seq<Call<S>>,
) -> bool
    decreases merged.len(),
{
    if merged.len() == 0 {
        ours.len() == 0 && theirs.len() == 0
    } else {
        ||| {
            &&& ours.len() > 0
            &&& merged.first() == ours.first()
            &&& interleaves(merged.drop_first(), ours.drop_first(), theirs)
        }
        ||| {
            &&& theirs.len() > 0
            &&& merged.first() == theirs.first()
            &&& interleaves(merged.drop_first(), ours, theirs.drop_first())
        }
    }
}

/// Running `calls` and then `call` is running `calls` with `call` at its
/// end.
pub proof fn lemma_run_push<S>(service: Service<S>, calls: Seq<Call<S>>, call: Call<S>)
    ensures
        run(service, calls.push(call)) == step(run(service, calls), call),
    decreases calls.len(),
{
    let longer = calls.push(call);
    if calls.len() == 0 {
        assert(longer.drop_first() =~= Seq::<Call<S>>::empty());
        assert(run(step(service, call), longer.drop_first()) == step(service, call));
    } else {
        assert(longer.drop_first() =~= calls.drop_first().push(call));
        lemma_run_push(step(service, calls.first()), calls.drop_first(), call);
    }
}

/// An id that is registered stays registered through every sequence of
/// calls of which none destroys it and none is a tick that finds the host
/// silent.
pub proof fn lemma_registered_until_removed<S>(
    service: Service<S>,
    calls: Seq<Call<S>>,
    id: Seq<char>,
)
    requires
        service.sources.contains_key(id),
        spares(service, calls, id),
    ensures
        run(service, calls).sources.contains_key(id),
    decreases calls.len(),
{
    if calls.len() > 0 {
        lemma_registered_until_removed(step(service, calls.first()), calls.drop_first(), id);
    }
}

/// After `create` of `id`, and until a call destroys `id` or a tick finds
/// the host silent, every listing of the registry holds `id` exactly once.
pub proof fn lemma_created_id_is_listed_once<S>(
    service: Service<S>,
    id: Seq<char>,
    source: S,
    later: Seq<Call<S>>,
    listing: Seq<Seq<char>>,
)
    requires
        spares(step(service, Call::Create { id, source }), later, id),
        lists_each_once(
            listing,
            run(step(service, Call::Create { id, source }), later).sources.dom(),
        ),
    ensures
        listing.to_multiset().count(id) == 1,
{
    lemma_registered_until_removed(step(service, Call::Create { id, source }), later, id);
    assert(listing.contains(id));
    listing.to_multiset_ensures();
    listing.lemma_multiset_has_no_duplicates();
}

/// Creating twice under one id keeps the second source only, and one
/// destroy then leaves nothing under that id: where the id was free before,
/// the registry is back to what it held before the first create.
pub proof fn lemma_overwrite_then_destroy<S>(
    service: Service<S>,
    id: Seq<char>,
    first: S,
    second: S,
)
    ensures
        run(
            service,
            seq![Call::Create { id, source: first }, Call::Create { id, source: second }],
        ).sources == service.sources.insert(id, second),
        run(
            service,
            seq![
                Call::Create { id, source: first },
                Call::Create { id, source: second },
                Call::Destroy { id },
            ],
        ).sources == service.sources.remove(id),
        !service.sources.contains_key(id) ==> run(
            service,
            seq![
                Call::Create { id, source: first },
                Call::Create { id, source: second },
                Call::Destroy { id },
            ],
        ).sources == service.sources,
{
    let create_first = Call::Create { id, source: first };
    let create_second = Call::Create { id, source: second };
    let destroy = Call::<S>::Destroy { id };
    let two = seq![create_first, create_second];
    let three = seq![create_first, create_second, destroy];
    assert(two =~= Seq::empty().push(create_first).push(create_second));
    assert(three =~= two.push(destroy));
    lemma_run_push(service, Seq::empty(), create_first);
    lemma_run_push(service, Seq::empty().push(create_first), create_second);
    lemma_run_push(service, two, destroy);
    assert(run(service, two).sources =~= service.sources.insert(id, second));
    assert(run(service, three).sources =~= service.sources.remove(id));
    if !service.sources.contains_key(id) {
        assert(service.sources.remove(id) =~= service.sources);
    }
}

/// Calls that are neither a start nor a heartbeat leave the supervisor as
/// it is.
pub proof fn lemma_quiet_keeps_supervisor<S>(service: Service<S>, calls: Seq<Call<S>>)
    requires
        is_quiet(calls),
    ensures
        run(service, calls).supervisor == service.supervisor,
    decreases calls.len(),
{
    if calls.len() > 0 {
        let rest = calls.drop_first();
        assert(!(calls[0] is Start) && !(calls[0] is Heartbeat));
        assert forall|i: int| 0 <= i < rest.len() implies !(#[trigger] rest[i] is Start) && !(
        rest[i] is Heartbeat) by {
            assert(rest[i] == calls[i + 1]);
        }
        lemma_quiet_keeps_supervisor(step(service, calls.first()), rest);
    }
}

/// After a start at `started` and no heartbeat since, a tick later than
/// the silence threshold leaves the registry empty, whatever it held and
/// whatever was created in between.
pub proof fn lemma_silence_empties_registry<S>(
    service: Service<S>,
    started: u64,
    calls: Seq<Call<S>>,
    now: u64,
)
    requires
        is_quiet(calls),
        now - started > SILENCE_THRESHOLD,
    ensures
        run(step(service, Call::Start { now: started }), calls.push(Call::Tick { now })).sources
            == Map::<Seq<char>, S>::empty(),
{
    let armed = step(service, Call::Start { now: started });
    lemma_quiet_keeps_supervisor(armed, calls);
    lemma_run_push(armed, calls, Call::Tick { now });
}

/// While the host keeps its pace, no tick finds it silent: an id that is
/// registered at the outset or created on the way, and that no call
/// destroys, is still registered after any number of ticks.
pub proof fn lemma_heartbeats_prevent_expiry<S>(
    service: Service<S>,
    last: u64,
    calls: Seq<Call<S>>,
    id: Seq<char>,
)
    requires
        service.supervisor == (Supervisor::Armed { last_heartbeat: last }),
        paced(last, calls),
        never_destroys(calls, id),
        service.sources.contains_key(id) || creates(calls, id),
    ensures
        run(service, calls).sources.contains_key(id),
    decreases calls.len(),
{
    if calls.len() > 0 {
        let first = calls.first();
        let rest = calls.drop_first();
        let next = step(service, first);
        assert(calls[0] != (Call::<S>::Destroy { id }));
        assert(never_destroys(rest, id)) by {
            assert forall|i: int| 0 <= i < rest.len() implies #[trigger] rest[i] != (
            Call::<S>::Destroy { id }) by {
                assert(rest[i] == calls[i + 1]);
            }
        }
        if !next.sources.contains_key(id) {
            let i = choose|i: int|
                0 <= i < calls.len() && #[trigger] calls[i] is Create && target(calls[i])
                    == Some(id);
            assert(rest[i - 1] == calls[i]);
        }
        let next_last = match first {
            Call::Start { now } => now,
            Call::Heartbeat { now } => now,
            _ => last,
        };
        lemma_heartbeats_prevent_expiry(next, next_last, rest, id);
    }
}

/// Two calls on the registry that do not address the same id give the same
/// service in either order.
pub proof fn lemma_distinct_ids_commute<S>(service: Service<S>, ours: Call<S>, theirs: Call<S>)
    requires
        is_registry_call(ours),
        is_registry_call(theirs),
        independent(ours, theirs),
    ensures
        step(step(service, ours), theirs) == step(step(service, theirs), ours),
{
    let one = step(step(service, ours), theirs);
    let other = step(step(service, theirs), ours);
    assert(one.supervisor == other.supervisor);
    assert(one.sources =~= other.sources);
}

/// What holds of two sequences of calls holds of each without its first
/// call.
proof fn lemma_rests_stay_apart<S>(ours: Seq<Call<S>>, theirs: Seq<Call<S>>)
    requires
        on_registry(ours),
        on_distinct_ids(ours, theirs),
    ensures
        ours.len() > 0 ==> on_registry(ours.drop_first()) && on_distinct_ids(
            ours.drop_first(),
            theirs,
        ),
        theirs.len() > 0 ==> on_distinct_ids(ours, theirs.drop_first()),
{
    if ours.len() > 0 {
        let rest = ours.drop_first();
        assert forall|i: int| 0 <= i < rest.len() implies is_registry_call(#[trigger] rest[i]) by {
            assert(rest[i] == ours[i + 1]);
        }
        assert forall|i: int, j: int| 0 <= i < rest.len() && 0 <= j < theirs.len() implies independent(
            #[trigger] rest[i],
            #[trigger] theirs[j],
        ) by {
            assert(independent(ours[i + 1], theirs[j]));
        }
    }
    if theirs.len() > 0 {
        let rest = theirs.drop_first();
        assert forall|i: int, j: int| 0 <= i < ours.len() && 0 <= j < rest.len() implies independent(
            #[trigger] ours[i],
            #[trigger] rest[j],
        ) by {
            assert(independent(ours[i], theirs[j + 1]));
        }
    }
}

/// A call that addresses none of the ids of `ours` may be made before
/// `ours` or after it.
proof fn lemma_commute_past<S>(service: Service<S>, theirs: Call<S>, ours: Seq<Call<S>>)
    requires
        on_registry(ours),
        is_registry_call(theirs),
        on_distinct_ids(ours, seq![theirs]),
    ensures
        run(step(service, theirs), ours) == step(run(service, ours), theirs),
    decreases ours.len(),
{
    if ours.len() > 0 {
        assert(independent(ours[0], seq![theirs][0]));
        lemma_distinct_ids_commute(service, ours.first(), theirs);
        lemma_rests_stay_apart(ours, seq![theirs]);
        lemma_commute_past(step(service, ours.first()), theirs, ours.drop_first());
    }
}

/// Where two callers address distinct ids, the order in which their calls
/// reach the registry does not matter: every interleaving leaves what the
/// calls of the one followed by the calls of the other leave. No call is
/// lost and none takes effect twice.
pub proof fn lemma_interleaving_is_immaterial<S>(
    service: Service<S>,
    ours: Seq<Call<S>>,
    theirs: Seq<Call<S>>,
    merged: Seq<Call<S>>,
)
    requires
        on_registry(ours),
        on_registry(theirs),
        on_distinct_ids(ours, theirs),
        interleaves(merged, ours, theirs),
    ensures
        run(service, merged) == run(run(service, ours), theirs),
    decreases merged.len(),
{
    if merged.len() == 0 {
    } else if ours.len() > 0 && merged.first() == ours.first() && interleaves(
        merged.drop_first(),
        ours.drop_first(),
        theirs,
    ) {
        lemma_rests_stay_apart(ours, theirs);
        lemma_interleaving_is_immaterial(
            step(service, ours.first()),
            ours.drop_first(),
            theirs,
            merged.drop_first(),
        );
    } else {
        let call = theirs.first();
        assert(is_registry_call(theirs[0]));
        assert(on_registry(theirs.drop_first())) by {
            assert forall|j: int| 0 <= j < theirs.drop_first().len() implies is_registry_call(
                #[trigger] theirs.drop_first()[j],
            ) by {
                assert(theirs.drop_first()[j] == theirs[j + 1]);
            }
        }
        assert(on_distinct_ids(ours, seq![call])) by {
            assert forall|i: int, j: int| 0 <= i < ours.len() && 0 <= j < 1 implies independent(
                #[trigger] ours[i],
                #[trigger] seq![call][j],
            ) by {
                assert(independent(ours[i], theirs[0]));
            }
        }
        lemma_rests_stay_apart(ours, theirs);
        lemma_interleaving_is_immaterial(
            step(service, call),
            ours,
            theirs.drop_first(),
            merged.drop_first(),
        );
        lemma_commute_past(service, call, ours);
    }
}

} // verus!
