//! Route progress: which system is the current target, and the estimated
//! value of the scans made in a system.

use vstd::prelude::*;
use crate::text::{lowercase, seq_contains, str_contains, to_lowercase};
use crate::travel::{Body, BodyView, SystemGroup, SystemGroupView, body_is_completed, bodies_view, groups_view};

verus! {

/// Some body of the system still needs a scan.
pub open spec fn group_incomplete(g: SystemGroupView) -> bool {
    exists|j: int| 0 <= j < g.bodies.len() && !body_is_completed(#[trigger] g.bodies[j])
}

/// Whether some body of the group still needs a scan.
fn has_incomplete_body(g: &SystemGroup) -> (r: bool)
    ensures
        r == group_incomplete(g@),
{
    let mut j: usize = 0;
    while j < g.bodies.len()
        invariant
            j <= g.bodies@.len(),
            forall|m: int| 0 <= m < j ==> body_is_completed(#[trigger] g@.bodies[m]),
        decreases g.bodies@.len() - j,
    {
        if !g.bodies[j].is_completed() {
            assert(!body_is_completed(g@.bodies[j as int]));
            return true;
        }
        j = j + 1;
    }
    false
}

/// The first system that still has a body to scan: the current target of
/// the route. `None` when every system is done (or there is none).
pub fn first_incomplete_group(groups: &[SystemGroup]) -> (r: Option<usize>)
    ensures
        match r {
            Some(i) => {
                &&& i < groups@.len()
                &&& group_incomplete(groups_view(groups@)[i as int])
                &&& forall|k: int| 0 <= k < i ==> !group_incomplete(#[trigger] groups_view(groups@)[k])
            },
            None => forall|k: int|
                0 <= k < groups@.len() ==> !group_incomplete(#[trigger] groups_view(groups@)[k]),
        },
        // The target holds a body not yet done; every system before it, and
        // every system when there is no target, has all its bodies done.
        r matches Some(t) ==> !every_body_done(groups@[t as int].bodies@),
        forall|k: int|
            0 <= k < groups@.len() && (r matches Some(t) ==> k < t) ==> every_body_done(
                #[trigger] groups@[k].bodies@,
            ),
{
    proof {
        lemma_groups_view_bodies(groups@);
    }
    let mut i: usize = 0;
    while i < groups.len()
        invariant
            i <= groups@.len(),
            forall|k: int| 0 <= k < i ==> !group_incomplete(#[trigger] groups_view(groups@)[k]),
            forall|k: int| 0 <= k < i ==> every_body_done(#[trigger] groups@[k].bodies@),
        decreases groups@.len() - i,
    {
        let ghost g = groups_view(groups@)[i as int];
        proof {
            lemma_group_incomplete_means_body_left(g);
            lemma_groups_view_bodies(groups@);
        }
        if has_incomplete_body(&groups[i]) {
            proof {
                lemma_incomplete_has_unfinished_body(groups@, i as int);
            }
            return Some(i);
        }
        proof {
            assert(every_body_done(groups@[i as int].bodies@)) by {
                assert forall|j: int| 0 <= j < groups@[i as int].bodies@.len() implies body_is_completed(
                    #[trigger] groups@[i as int].bodies@[j]@,
                ) by {
                    assert(g.bodies[j] == groups@[i as int].bodies@[j]@);
                    assert(body_is_completed(g.bodies[j]));
                }
            }
        }
        i = i + 1;
    }
    None
}

/// Every one of the bodies is done.
pub open spec fn every_body_done(bodies: Seq<Body>) -> bool {
    forall|j: int| 0 <= j < bodies.len() ==> body_is_completed(#[trigger] bodies[j]@)
}

proof fn lemma_incomplete_has_unfinished_body(groups: Seq<SystemGroup>, i: int)
    requires
        0 <= i < groups.len(),
        group_incomplete(groups_view(groups)[i]),
    ensures
        !every_body_done(groups[i].bodies@),
{
    let g = groups_view(groups)[i];
    let j = choose|j: int| 0 <= j < g.bodies.len() && !body_is_completed(#[trigger] g.bodies[j]);
    assert(g.bodies[j] == groups[i].bodies@[j]@);
}

/// The view of a group lists the views of its bodies.
proof fn lemma_groups_view_bodies(groups: Seq<SystemGroup>)
    ensures
        forall|k: int, j: int|
            0 <= k < groups.len() && 0 <= j < groups[k].bodies@.len() ==> #[trigger] groups_view(
                groups,
            )[k].bodies[j] == groups[k].bodies@[j]@,
        forall|k: int| 0 <= k < groups.len() ==> #[trigger] groups_view(groups)[k].bodies.len() == groups[k].bodies@.len(),
{
}

/// A system still has work exactly when some body of it is not done: one
/// done body does not make the system done, and a system whose bodies are
/// all done is not the target.
pub proof fn lemma_group_incomplete_means_body_left(g: SystemGroupView)
    ensures
        group_incomplete(g) <==> exists|j: int| 0 <= j < g.bodies.len() && !body_is_completed(#[trigger] g.bodies[j]),
        group_incomplete(g) <==> !(forall|j: int| 0 <= j < g.bodies.len() ==> body_is_completed(#[trigger] g.bodies[j])),
{
}

/// The number of systems already completed, counted from the start of the
/// route up to the current target (all of them when every system is done).
pub fn completed_system_count(groups: &[SystemGroup]) -> (r: usize)
    ensures
        r <= groups@.len(),
        forall|k: int| 0 <= k < r ==> !group_incomplete(#[trigger] groups_view(groups@)[k]),
        r < groups@.len() ==> group_incomplete(groups_view(groups@)[r as int]),
        forall|k: int| 0 <= k < r ==> every_body_done(#[trigger] groups@[k].bodies@),
        r < groups@.len() ==> !every_body_done(groups@[r as int].bodies@),
{
    match first_incomplete_group(groups) {
        Some(i) => i,
        None => groups.len(),
    }
}

/// The estimated full value, in credits, of a body whose lowercase subtype
/// is `s`: judged by the first of "earth", "ammonia", "water", "high metal",
/// "rocky" that it contains.
pub open spec fn keyword_base_value(s: Seq<char>) -> nat {
    if seq_contains(s, "earth"@) {
        3_200_000
    } else if seq_contains(s, "ammonia"@) {
        1_700_000
    } else if seq_contains(s, "water"@) {
        2_000_000
    } else if seq_contains(s, "high metal"@) {
        1_500_000
    } else if seq_contains(s, "rocky"@) {
        1_000_000
    } else {
        500_000
    }
}

/// The estimated full value of a body of this subtype, judged by its
/// lowercase form (see [`keyword_base_value`]).
pub open spec fn base_value(subtype: Seq<char>) -> nat {
    keyword_base_value(lowercase(subtype))
}

/// The value of a body's scans: the full value once mapped, a third of it
/// (rounded down) once only scanned, nothing before.
pub open spec fn body_value(b: BodyView) -> nat {
    if b.dss_mapped {
        base_value(b.body_subtype)
    } else if b.fss_scanned {
        base_value(b.body_subtype) / 3
    } else {
        0
    }
}

/// The value of the scans of all bodies.
pub open spec fn system_value(bs: Seq<BodyView>) -> nat
    decreases bs.len(),
{
    if bs.len() == 0 {
        0
    } else {
        system_value(bs.drop_last()) + body_value(bs.last())
    }
}

/// The estimated full value of a body whose subtype, already lowercase, is
/// `lower`.
pub fn keyword_value(lower: &str) -> (r: u64)
    ensures
        r == keyword_base_value(lower@),
{
    if str_contains(lower, "earth") {
        3_200_000
    } else if str_contains(lower, "ammonia") {
        1_700_000
    } else if str_contains(lower, "water") {
        2_000_000
    } else if str_contains(lower, "high metal") {
        1_500_000
    } else if str_contains(lower, "rocky") {
        1_000_000
    } else {
        500_000
    }
}

/// The value of a system is the sum of its bodies' values, and one body is
/// worth its full base value only once mapped, a third of it (rounded down)
/// when only scanned, and nothing before, whatever kind of body it is.
pub proof fn lemma_system_value_sums_scans(a: Seq<BodyView>, b: Seq<BodyView>, x: BodyView)
    ensures
        system_value(a + b) == system_value(a) + system_value(b),
        system_value(seq![x]) == if x.dss_mapped {
            base_value(x.body_subtype)
        } else if x.fss_scanned {
            base_value(x.body_subtype) / 3
        } else {
            0
        },
        !x.dss_mapped ==> system_value(seq![x]) * 3 <= base_value(x.body_subtype),
    decreases b.len(),
{
    assert(seq![x].drop_last() =~= Seq::<BodyView>::empty());
    assert(system_value(Seq::<BodyView>::empty()) == 0);
    assert(seq![x].last() == x);
    let v = base_value(x.body_subtype) as int;
    assert((v / 3) * 3 <= v) by (nonlinear_arith)
        requires
            v >= 0,
    ;
    if b.len() == 0 {
        assert(a + b =~= a);
    } else {
        assert((a + b).drop_last() =~= a + b.drop_last());
        lemma_system_value_sums_scans(a, b.drop_last(), x);
    }
}

proof fn lemma_system_value_prefix(bs: Seq<BodyView>, k: int)
    requires
        0 <= k <= bs.len(),
    ensures
        system_value(bs.take(k)) <= system_value(bs),
    decreases bs.len(),
{
    if k < bs.len() {
        assert(bs.drop_last().take(k) =~= bs.take(k));
        lemma_system_value_prefix(bs.drop_last(), k);
    } else {
        assert(bs.take(k) =~= bs);
    }
}

/// The estimated value, in credits, of the scans made in a system.
pub fn calculate_system_value(bodies: &[Body]) -> (total: u64)
    requires
        system_value(bodies_view(bodies@)) <= u64::MAX,
    ensures
        total == system_value(bodies_view(bodies@)),
{
    let ghost bv = bodies_view(bodies@);
    let mut total: u64 = 0;
    let mut k: usize = 0;
    while k < bodies.len()
        invariant
            bv == bodies_view(bodies@),
            system_value(bv) <= u64::MAX,
            k <= bodies@.len(),
            total == system_value(bv.take(k as int)),
        decreases bodies@.len() - k,
    {
        let body = &bodies[k];
        proof {
            assert(bv.take(k + 1).drop_last() =~= bv.take(k as int));
            assert(bv.take(k + 1).last() == body@);
            lemma_system_value_prefix(bv, k + 1);
        }
        let lower = to_lowercase(body.body_subtype.as_str());
        let base = keyword_value(lower.as_str());
        if body.dss_mapped {
            total = total + base;
        } else if body.fss_scanned {
            total = total + base / 3;
        }
        k = k + 1;
    }
    assert(bv.take(bodies@.len() as int) =~= bv);
    total
}

} // verus!
