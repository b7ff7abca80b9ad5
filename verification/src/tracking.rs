//! Applying journal scans to the route: each scan reported by the game marks
//! the bodies of that name, and each newly marked scan asks for a sound.

use vstd::prelude::*;
use crate::constants::LOG_CHECK_INTERVAL_SECS;
use crate::log_watcher::{ScanEvent, ScanEventView, events_view};
use crate::travel::{BodyView, SystemGroup, SystemGroupView, bodies_view, groups_view};

verus! {

/// The event marks body `b`: the names agree and the scan is not yet recorded.
pub open spec fn body_flips(b: BodyView, e: ScanEventView) -> bool {
    b.body_name == e.body_name && if e.is_dss {
        !b.dss_mapped
    } else {
        !b.fss_scanned
    }
}

/// Body `b` after event `e`.
pub open spec fn apply_to_body(b: BodyView, e: ScanEventView) -> BodyView {
    if body_flips(b, e) {
        if e.is_dss {
            BodyView { dss_mapped: true, ..b }
        } else {
            BodyView { fss_scanned: true, ..b }
        }
    } else {
        b
    }
}

/// A group after event `e`.
pub open spec fn apply_to_group(g: SystemGroupView, e: ScanEventView) -> SystemGroupView {
    SystemGroupView { bodies: g.bodies.map_values(|b: BodyView| apply_to_body(b, e)), ..g }
}

/// The route after event `e`.
pub open spec fn apply_event(gs: Seq<SystemGroupView>, e: ScanEventView) -> Seq<SystemGroupView> {
    gs.map_values(|g: SystemGroupView| apply_to_group(g, e))
}

/// The route after the events, in order.
pub open spec fn apply_events(gs: Seq<SystemGroupView>, es: Seq<ScanEventView>) -> Seq<
    SystemGroupView,
>
    decreases es.len(),
{
    if es.len() == 0 {
        gs
    } else {
        apply_event(apply_events(gs, es.drop_last()), es.last())
    }
}

/// The sounds that event `e` asks for on the bodies `bs`, one per body it
/// marks, in order; `true` asks for the DSS sound, `false` for the FSS sound.
pub open spec fn bodies_sounds(bs: Seq<BodyView>, e: ScanEventView) -> Seq<bool>
    decreases bs.len(),
{
    if bs.len() == 0 {
        Seq::empty()
    } else {
        bodies_sounds(bs.drop_last(), e) + if body_flips(bs.last(), e) {
            seq![e.is_dss]
        } else {
            Seq::empty()
        }
    }
}

/// The sounds that event `e` asks for on the route, group after group.
pub open spec fn groups_sounds(gs: Seq<SystemGroupView>, e: ScanEventView) -> Seq<bool>
    decreases gs.len(),
{
    if gs.len() == 0 {
        Seq::empty()
    } else {
        groups_sounds(gs.drop_last(), e) + bodies_sounds(gs.last().bodies, e)
    }
}

/// The sounds that the events ask for, event after event.
pub open spec fn events_sounds(gs: Seq<SystemGroupView>, es: Seq<ScanEventView>) -> Seq<bool>
    decreases es.len(),
{
    if es.len() == 0 {
        Seq::empty()
    } else {
        events_sounds(gs, es.drop_last()) + groups_sounds(apply_events(gs, es.drop_last()), es.last())
    }
}

/// Applies one event to the groups; returns the sounds it asks for.
fn apply_one_event(groups: &mut Vec<SystemGroup>, event: &ScanEvent, sounds: &mut Vec<bool>)
    ensures
        groups_view(final(groups)@) == apply_event(groups_view(old(groups)@), event@),
        final(sounds)@ == old(sounds)@ + groups_sounds(groups_view(old(groups)@), event@),
{
    let (target, is_dss) = match event {
        ScanEvent::FSS(name) => (name, false),
        ScanEvent::DSS(name) => (name, true),
    };
    let ghost e = event@;
    let ghost g0 = groups_view(groups@);
    let ghost s0 = sounds@;
    let mut i: usize = 0;
    while i < groups.len()
        invariant
            e == event@,
            e.body_name == target@,
            e.is_dss == is_dss,
            g0.len() == groups@.len(),
            i <= groups@.len(),
            forall|k: int| 0 <= k < i ==> #[trigger] groups_view(groups@)[k] == apply_to_group(g0[k], e),
            forall|k: int| i <= k < groups@.len() ==> #[trigger] groups_view(groups@)[k] == g0[k],
            sounds@ == s0 + groups_sounds(g0.take(i as int), e),
        decreases groups@.len() - i,
    {
        let ghost gi = g0[i as int];
        let ghost mid = sounds@;
        assert(groups_view(groups@)[i as int] == gi);
        assert(bodies_view(groups@[i as int].bodies@) == gi.bodies);
        assert forall|m: int| 0 <= m < gi.bodies.len() implies #[trigger] groups@[i as int].bodies@[m]@ == gi.bodies[m] by {
            assert(bodies_view(groups@[i as int].bodies@)[m] == groups@[i as int].bodies@[m]@);
        }
        assert(gi.bodies.take(0) =~= Seq::<BodyView>::empty());
        let mut j: usize = 0;
        while j < groups[i].bodies.len()
            invariant
                e == event@,
                e.body_name == target@,
                e.is_dss == is_dss,
                g0.len() == groups@.len(),
                i < groups@.len(),
                groups@[i as int].name@ == gi.name,
                groups@[i as int].jumps == gi.jumps,
                groups@[i as int].bodies@.len() == gi.bodies.len(),
                j <= gi.bodies.len(),
                forall|k: int| 0 <= k < i ==> #[trigger] groups_view(groups@)[k] == apply_to_group(g0[k], e),
                forall|k: int| i < k < groups@.len() ==> #[trigger] groups_view(groups@)[k] == g0[k],
                forall|m: int| 0 <= m < j ==> #[trigger] groups@[i as int].bodies@[m]@ == apply_to_body(gi.bodies[m], e),
                forall|m: int| j <= m < gi.bodies.len() ==> #[trigger] groups@[i as int].bodies@[m]@ == gi.bodies[m],
                sounds@ == mid + bodies_sounds(gi.bodies.take(j as int), e),
            decreases gi.bodies.len() - j,
        {
            let ghost before = groups@;
            let ghost sb = sounds@;
            let ghost bj = gi.bodies[j as int];
            assert(groups@[i as int].bodies@[j as int]@ == bj);
            assert(gi.bodies.take(j + 1).drop_last() =~= gi.bodies.take(j as int));
            assert(gi.bodies.take(j + 1).last() == bj);
            if groups[i].bodies[j].body_name == *target {
                if is_dss {
                    if !groups[i].bodies[j].dss_mapped {
                        groups[i].bodies[j].mark_dss_done();
                        sounds.push(true);
                    }
                } else {
                    if !groups[i].bodies[j].fss_scanned {
                        groups[i].bodies[j].mark_fss_done();
                        sounds.push(false);
                    }
                }
            }
            proof {
                assert forall|k: int| 0 <= k < groups@.len() && k != i implies groups@[k] == before[k] by {}
                assert forall|k: int| 0 <= k < i implies #[trigger] groups_view(groups@)[k] == apply_to_group(g0[k], e) by {
                    assert(groups@[k] == before[k]);
                    assert(groups_view(before)[k] == apply_to_group(g0[k], e));
                }
                assert forall|k: int| i < k < groups@.len() implies #[trigger] groups_view(groups@)[k] == g0[k] by {
                    assert(groups@[k] == before[k]);
                    assert(groups_view(before)[k] == g0[k]);
                }
                assert(bodies_sounds(gi.bodies.take(j + 1), e) == bodies_sounds(gi.bodies.take(j as int), e)
                    + if body_flips(bj, e) { seq![e.is_dss] } else { Seq::<bool>::empty() });
                if body_flips(bj, e) {
                    assert(sounds@ == sb.push(e.is_dss));
                } else {
                    assert(sounds@ == sb);
                }
                assert(sounds@ =~= mid + bodies_sounds(gi.bodies.take(j + 1), e));
            }
            j = j + 1;
        }
        proof {
            let ng = apply_to_group(gi, e);
            assert(bodies_view(groups@[i as int].bodies@) =~= ng.bodies);
            assert(groups_view(groups@)[i as int] =~= ng);
            assert(gi.bodies.take(gi.bodies.len() as int) =~= gi.bodies);
            assert(g0.take(i + 1).drop_last() =~= g0.take(i as int));
            assert(sounds@ =~= s0 + groups_sounds(g0.take(i + 1), e));
        }
        i = i + 1;
    }
    proof {
        assert(groups_view(groups@) =~= apply_event(g0, e));
        assert(g0.take(g0.len() as int) =~= g0);
    }
}

/// Applies the journal scans to the route, in order. Every body named by a
/// scan gets that scan recorded; each scan newly recorded adds a sound to
/// the result (`true`: DSS, `false`: FSS), in the order the bodies were
/// marked. The route changed exactly when the result is not empty.
pub fn apply_scan_events(groups: &mut Vec<SystemGroup>, events: &[ScanEvent]) -> (sounds: Vec<bool>)
    ensures
        groups_view(final(groups)@) == apply_events(groups_view(old(groups)@), events_view(events@)),
        sounds@ == events_sounds(groups_view(old(groups)@), events_view(events@)),
{
    let mut sounds: Vec<bool> = Vec::new();
    let ghost g0 = groups_view(groups@);
    let mut k: usize = 0;
    while k < events.len()
        invariant
            k <= events@.len(),
            groups_view(groups@) == apply_events(g0, events_view(events@).take(k as int)),
            sounds@ == events_sounds(g0, events_view(events@).take(k as int)),
        decreases events@.len() - k,
    {
        assert(events_view(events@).take(k + 1).drop_last() =~= events_view(events@).take(k as int));
        apply_one_event(groups, &events[k], &mut sounds);
        k = k + 1;
    }
    assert(events_view(events@).take(events@.len() as int) =~= events_view(events@));
    sounds
}

/// No body of the route would be marked by event `e`.
pub open spec fn settled(gs: Seq<SystemGroupView>, e: ScanEventView) -> bool {
    forall|i: int, j: int|
        0 <= i < gs.len() && 0 <= j < gs[i].bodies.len() ==> !body_flips(#[trigger] gs[i].bodies[j], e)
}

proof fn lemma_apply_settles(gs: Seq<SystemGroupView>, e: ScanEventView)
    ensures
        settled(apply_event(gs, e), e),
{
    let out = apply_event(gs, e);
    assert forall|i: int, j: int|
        0 <= i < out.len() && 0 <= j < out[i].bodies.len() implies !body_flips(#[trigger] out[i].bodies[j], e) by {
        assert(out[i] == apply_to_group(gs[i], e));
        assert(out[i].bodies[j] == apply_to_body(gs[i].bodies[j], e));
    }
}

proof fn lemma_apply_keeps_settled(gs: Seq<SystemGroupView>, e: ScanEventView, e2: ScanEventView)
    requires
        settled(gs, e),
    ensures
        settled(apply_event(gs, e2), e),
{
    let out = apply_event(gs, e2);
    assert forall|i: int, j: int|
        0 <= i < out.len() && 0 <= j < out[i].bodies.len() implies !body_flips(#[trigger] out[i].bodies[j], e) by {
        assert(out[i] == apply_to_group(gs[i], e2));
        assert(out[i].bodies[j] == apply_to_body(gs[i].bodies[j], e2));
        assert(!body_flips(gs[i].bodies[j], e));
    }
}

proof fn lemma_bodies_sounds_settled(bs: Seq<BodyView>, e: ScanEventView)
    requires
        forall|j: int| 0 <= j < bs.len() ==> !body_flips(#[trigger] bs[j], e),
    ensures
        bodies_sounds(bs, e) == Seq::<bool>::empty(),
    decreases bs.len(),
{
    if bs.len() > 0 {
        assert(!body_flips(bs[bs.len() - 1], e));
        lemma_bodies_sounds_settled(bs.drop_last(), e);
        assert(bodies_sounds(bs, e) =~= Seq::<bool>::empty());
    }
}

proof fn lemma_groups_sounds_settled(gs: Seq<SystemGroupView>, e: ScanEventView)
    requires
        settled(gs, e),
    ensures
        groups_sounds(gs, e) == Seq::<bool>::empty(),
    decreases gs.len(),
{
    if gs.len() > 0 {
        let last = gs.last();
        assert forall|j: int| 0 <= j < last.bodies.len() implies !body_flips(#[trigger] last.bodies[j], e) by {
            assert(!body_flips(gs[gs.len() - 1].bodies[j], e));
        }
        lemma_bodies_sounds_settled(last.bodies, e);
        let prev = gs.drop_last();
        assert(settled(prev, e)) by {
            assert forall|i: int, j: int|
                0 <= i < prev.len() && 0 <= j < prev[i].bodies.len() implies !body_flips(#[trigger] prev[i].bodies[j], e) by {
                assert(prev[i] == gs[i]);
            }
        }
        lemma_groups_sounds_settled(prev, e);
        assert(groups_sounds(gs, e) =~= Seq::<bool>::empty());
    }
}

proof fn lemma_apply_settled_noop(gs: Seq<SystemGroupView>, e: ScanEventView)
    requires
        settled(gs, e),
    ensures
        apply_event(gs, e) == gs,
{
    let out = apply_event(gs, e);
    assert forall|i: int| 0 <= i < gs.len() implies #[trigger] out[i] == gs[i] by {
        assert(out[i].bodies =~= gs[i].bodies) by {
            assert forall|j: int| 0 <= j < gs[i].bodies.len() implies out[i].bodies[j] == gs[i].bodies[j] by {
                assert(!body_flips(gs[i].bodies[j], e));
            }
        }
        assert(out[i] =~= gs[i]);
    }
    assert(out =~= gs);
}

/// After the events, no event among them would mark any body again.
proof fn lemma_events_settle(g: Seq<SystemGroupView>, es: Seq<ScanEventView>)
    ensures
        forall|k: int| 0 <= k < es.len() ==> settled(apply_events(g, es), #[trigger] es[k]),
    decreases es.len(),
{
    if es.len() > 0 {
        let prev = es.drop_last();
        lemma_events_settle(g, prev);
        let a = apply_events(g, prev);
        lemma_apply_settles(a, es.last());
        assert forall|k: int| 0 <= k < es.len() implies settled(apply_events(g, es), #[trigger] es[k]) by {
            if k < es.len() - 1 {
                assert(es[k] == prev[k]);
                lemma_apply_keeps_settled(a, es[k], es.last());
            }
        }
    }
}

proof fn lemma_settled_events_noop(g: Seq<SystemGroupView>, es: Seq<ScanEventView>)
    requires
        forall|k: int| 0 <= k < es.len() ==> settled(g, #[trigger] es[k]),
    ensures
        apply_events(g, es) == g,
        events_sounds(g, es) == Seq::<bool>::empty(),
    decreases es.len(),
{
    if es.len() > 0 {
        let prev = es.drop_last();
        assert forall|k: int| 0 <= k < prev.len() implies settled(g, #[trigger] prev[k]) by {
            assert(prev[k] == es[k]);
        }
        lemma_settled_events_noop(g, prev);
        assert(settled(g, es[es.len() - 1]));
        lemma_apply_settled_noop(g, es.last());
        lemma_groups_sounds_settled(g, es.last());
        assert(events_sounds(g, es) =~= Seq::<bool>::empty());
    }
}

/// Reading the same scans a second time changes nothing and plays no sound:
/// a scan that was already recorded is not recorded again.
pub proof fn lemma_rescan_is_noop(g: Seq<SystemGroupView>, es: Seq<ScanEventView>)
    ensures
        apply_events(apply_events(g, es), es) == apply_events(g, es),
        events_sounds(apply_events(g, es), es) == Seq::<bool>::empty(),
{
    lemma_events_settle(g, es);
    lemma_settled_events_noop(apply_events(g, es), es);
}

/// The number of scans recorded on a body (0, 1 or 2).
pub open spec fn body_flags(b: BodyView) -> int {
    (if b.fss_scanned { 1int } else { 0int }) + (if b.dss_mapped { 1int } else { 0int })
}

/// The number of scans recorded on the bodies.
pub open spec fn bodies_flags(bs: Seq<BodyView>) -> int
    decreases bs.len(),
{
    if bs.len() == 0 {
        0
    } else {
        bodies_flags(bs.drop_last()) + body_flags(bs.last())
    }
}

/// The number of scans recorded on the route.
pub open spec fn groups_flags(gs: Seq<SystemGroupView>) -> int
    decreases gs.len(),
{
    if gs.len() == 0 {
        0
    } else {
        groups_flags(gs.drop_last()) + bodies_flags(gs.last().bodies)
    }
}

proof fn lemma_bodies_apply_count(bs: Seq<BodyView>, e: ScanEventView)
    ensures
        bodies_flags(bs.map_values(|b: BodyView| apply_to_body(b, e))) == bodies_flags(bs)
            + bodies_sounds(bs, e).len(),
    decreases bs.len(),
{
    if bs.len() > 0 {
        let f = |b: BodyView| apply_to_body(b, e);
        lemma_bodies_apply_count(bs.drop_last(), e);
        assert(bs.map_values(f).drop_last() =~= bs.drop_last().map_values(f));
    }
}

proof fn lemma_groups_apply_count(gs: Seq<SystemGroupView>, e: ScanEventView)
    ensures
        groups_flags(apply_event(gs, e)) == groups_flags(gs) + groups_sounds(gs, e).len(),
    decreases gs.len(),
{
    if gs.len() > 0 {
        lemma_groups_apply_count(gs.drop_last(), e);
        assert(apply_event(gs, e).drop_last() =~= apply_event(gs.drop_last(), e));
        lemma_bodies_apply_count(gs.last().bodies, e);
    }
}

/// Every sound stands for one scan newly recorded: the route holds as many
/// more recorded scans as the events asked for sounds.
pub proof fn lemma_one_sound_per_recorded_scan(g: Seq<SystemGroupView>, es: Seq<ScanEventView>)
    ensures
        groups_flags(apply_events(g, es)) == groups_flags(g) + events_sounds(g, es).len(),
    decreases es.len(),
{
    if es.len() > 0 {
        lemma_one_sound_per_recorded_scan(g, es.drop_last());
        lemma_groups_apply_count(apply_events(g, es.drop_last()), es.last());
    }
}

proof fn lemma_silent_bodies_settled(bs: Seq<BodyView>, e: ScanEventView)
    requires
        bodies_sounds(bs, e).len() == 0,
    ensures
        forall|j: int| 0 <= j < bs.len() ==> !body_flips(#[trigger] bs[j], e),
    decreases bs.len(),
{
    if bs.len() > 0 {
        lemma_silent_bodies_settled(bs.drop_last(), e);
        assert forall|j: int| 0 <= j < bs.len() implies !body_flips(#[trigger] bs[j], e) by {
            if j < bs.len() - 1 {
                assert(bs[j] == bs.drop_last()[j]);
            }
        }
    }
}

proof fn lemma_silent_groups_settled(gs: Seq<SystemGroupView>, e: ScanEventView)
    requires
        groups_sounds(gs, e).len() == 0,
    ensures
        settled(gs, e),
    decreases gs.len(),
{
    if gs.len() > 0 {
        let prev = gs.drop_last();
        lemma_silent_groups_settled(prev, e);
        lemma_silent_bodies_settled(gs.last().bodies, e);
        assert forall|i: int, j: int|
            0 <= i < gs.len() && 0 <= j < gs[i].bodies.len() implies !body_flips(#[trigger] gs[i].bodies[j], e) by {
            if i < gs.len() - 1 {
                assert(gs[i] == prev[i]);
                assert(!body_flips(prev[i].bodies[j], e));
            } else {
                assert(!body_flips(gs.last().bodies[j], e));
            }
        }
    }
}

proof fn lemma_silent_events_noop(g: Seq<SystemGroupView>, es: Seq<ScanEventView>)
    requires
        events_sounds(g, es).len() == 0,
    ensures
        apply_events(g, es) == g,
    decreases es.len(),
{
    if es.len() > 0 {
        lemma_silent_events_noop(g, es.drop_last());
        lemma_silent_groups_settled(g, es.last());
        lemma_apply_settled_noop(g, es.last());
    }
}

/// The route changes exactly when the events ask for a sound; this is when
/// the route file is saved again.
pub proof fn lemma_changed_iff_sound(g: Seq<SystemGroupView>, es: Seq<ScanEventView>)
    ensures
        (apply_events(g, es) != g) <==> events_sounds(g, es).len() > 0,
{
    lemma_one_sound_per_recorded_scan(g, es);
    if events_sounds(g, es).len() == 0 {
        lemma_silent_events_noop(g, es);
    }
}

/// `new` is `old` with possibly more scans recorded: the same systems and
/// bodies, with names, subtypes, distances and statuses unchanged, and no
/// recorded scan undone.
pub open spec fn only_adds_scans(old: Seq<SystemGroupView>, new: Seq<SystemGroupView>) -> bool {
    &&& old.len() == new.len()
    &&& forall|i: int|
        0 <= i < old.len() ==> {
            &&& (#[trigger] new[i]).name == old[i].name
            &&& new[i].jumps == old[i].jumps
            &&& new[i].bodies.len() == old[i].bodies.len()
        }
    &&& forall|i: int, j: int|
        0 <= i < old.len() && 0 <= j < old[i].bodies.len() ==> {
            let ob = old[i].bodies[j];
            let nb = #[trigger] new[i].bodies[j];
            &&& nb.body_name == ob.body_name
            &&& nb.body_subtype == ob.body_subtype
            &&& nb.distance_bits == ob.distance_bits
            &&& nb.status == ob.status
            &&& (ob.fss_scanned ==> nb.fss_scanned)
            &&& (ob.dss_mapped ==> nb.dss_mapped)
        }
}

/// Scans from the journal only ever record scans: they never undo one and
/// never touch anything else of the route.
pub proof fn lemma_scans_only_add(g: Seq<SystemGroupView>, es: Seq<ScanEventView>)
    ensures
        only_adds_scans(g, apply_events(g, es)),
    decreases es.len(),
{
    if es.len() > 0 {
        lemma_scans_only_add(g, es.drop_last());
        let a = apply_events(g, es.drop_last());
        let b = apply_events(g, es);
        assert forall|i: int| 0 <= i < g.len() implies {
            &&& (#[trigger] b[i]).name == g[i].name
            &&& b[i].jumps == g[i].jumps
            &&& b[i].bodies.len() == g[i].bodies.len()
        } by {
            assert(b[i] == apply_to_group(a[i], es.last()));
            assert(a[i].name == g[i].name);
        }
        assert forall|i: int, j: int| 0 <= i < g.len() && 0 <= j < g[i].bodies.len() implies {
            let ob = g[i].bodies[j];
            let nb = #[trigger] b[i].bodies[j];
            &&& nb.body_name == ob.body_name
            &&& nb.body_subtype == ob.body_subtype
            &&& nb.distance_bits == ob.distance_bits
            &&& nb.status == ob.status
            &&& (ob.fss_scanned ==> nb.fss_scanned)
            &&& (ob.dss_mapped ==> nb.dss_mapped)
        } by {
            assert(a[i].bodies.len() == g[i].bodies.len());
            assert(b[i] == apply_to_group(a[i], es.last()));
            assert(b[i].bodies[j] == apply_to_body(a[i].bodies[j], es.last()));
            let ab = a[i].bodies[j];
            assert(ab.body_name == g[i].bodies[j].body_name);
        }
    }
}

/// Some event among `es` is a scan of the kind `is_dss` of the body named
/// `name`.
pub open spec fn some_event_names(es: Seq<ScanEventView>, name: Seq<char>, is_dss: bool) -> bool {
    exists|k: int| 0 <= k < es.len() && (#[trigger] es[k]).body_name == name && es[k].is_dss == is_dss
}

/// A scan is recorded on a body exactly when the body had it already or an
/// event of that kind names exactly that body (a scan of another body, such
/// as its moon, records nothing on it); a body that no event names stays as
/// it was.
pub proof fn lemma_scans_mark_exactly_named_bodies(g: Seq<SystemGroupView>, es: Seq<ScanEventView>)
    ensures
        forall|i: int, j: int|
            0 <= i < g.len() && 0 <= j < g[i].bodies.len() ==> {
                let ob = #[trigger] g[i].bodies[j];
                let nb = apply_events(g, es)[i].bodies[j];
                &&& nb.fss_scanned == (ob.fss_scanned || some_event_names(es, ob.body_name, false))
                &&& nb.dss_mapped == (ob.dss_mapped || some_event_names(es, ob.body_name, true))
                &&& (!some_event_names(es, ob.body_name, false) && !some_event_names(
                    es,
                    ob.body_name,
                    true,
                )) ==> nb == ob
            },
    decreases es.len(),
{
    lemma_scans_only_add(g, es);
    if es.len() > 0 {
        let prev = es.drop_last();
        let e = es.last();
        lemma_scans_mark_exactly_named_bodies(g, prev);
        lemma_scans_only_add(g, prev);
        let a = apply_events(g, prev);
        let b = apply_events(g, es);
        assert forall|i: int, j: int| 0 <= i < g.len() && 0 <= j < g[i].bodies.len() implies {
            let ob = #[trigger] g[i].bodies[j];
            let nb = b[i].bodies[j];
            &&& nb.fss_scanned == (ob.fss_scanned || some_event_names(es, ob.body_name, false))
            &&& nb.dss_mapped == (ob.dss_mapped || some_event_names(es, ob.body_name, true))
            &&& (!some_event_names(es, ob.body_name, false) && !some_event_names(es, ob.body_name, true))
                ==> nb == ob
        } by {
            let ob = g[i].bodies[j];
            let ab = a[i].bodies[j];
            assert(ab.body_name == ob.body_name);
            assert(b[i] == apply_to_group(a[i], e));
            assert(b[i].bodies[j] == apply_to_body(ab, e));
            assert forall|d: bool| #[trigger] some_event_names(es, ob.body_name, d) == (some_event_names(
                prev,
                ob.body_name,
                d,
            ) || (e.body_name == ob.body_name && e.is_dss == d)) by {
                if some_event_names(prev, ob.body_name, d) {
                    let k = choose|k: int|
                        0 <= k < prev.len() && (#[trigger] prev[k]).body_name == ob.body_name
                            && prev[k].is_dss == d;
                    assert(es[k] == prev[k]);
                }
                if e.body_name == ob.body_name && e.is_dss == d {
                    assert(es[es.len() - 1] == e);
                }
                if some_event_names(es, ob.body_name, d) {
                    let k = choose|k: int|
                        0 <= k < es.len() && (#[trigger] es[k]).body_name == ob.body_name && es[k].is_dss
                            == d;
                    if k < es.len() - 1 {
                        assert(prev[k] == es[k]);
                    }
                }
            }
            assert(some_event_names(es, ob.body_name, false) == (some_event_names(prev, ob.body_name, false)
                || (e.body_name == ob.body_name && e.is_dss == false)));
            assert(some_event_names(es, ob.body_name, true) == (some_event_names(prev, ob.body_name, true)
                || (e.body_name == ob.body_name && e.is_dss == true)));
        }
    }
}

/// The journal is polled again once `elapsed_secs` seconds have passed since
/// the last poll reach [`LOG_CHECK_INTERVAL_SECS`].
pub fn log_check_due(elapsed_secs: u64) -> (r: bool)
    ensures
        r == (elapsed_secs >= LOG_CHECK_INTERVAL_SECS),
{
    elapsed_secs >= LOG_CHECK_INTERVAL_SECS
}

} // verus!
