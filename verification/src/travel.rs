//! The route model: bodies to scan, grouped by star system.

use vstd::prelude::*;
use crate::constants::{STATUS_COMPLETED, STATUS_INCOMPLETE};
use crate::text::{lowercase, seq_contains, str_contains, to_lowercase};

verus! {

/// Abstract value of a [`Body`].
#[verifier::ext_equal]
pub struct BodyView {
    pub body_name: Seq<char>,
    pub body_subtype: Seq<char>,
    pub distance_bits: u32,
    pub fss_scanned: bool,
    pub dss_mapped: bool,
    pub status: Seq<char>,
}

/// One body of a system on the route.
///
/// `distance_bits` holds the IEEE-754 bit pattern of the body's distance to
/// arrival (in light seconds, an `f32`); the library carries it unchanged.
pub struct Body {
    pub body_name: String,
    pub body_subtype: String,
    pub distance_bits: u32,
    pub fss_scanned: bool,
    pub dss_mapped: bool,
    pub status: String,
}

impl View for Body {
    type V = BodyView;

    open spec fn view(&self) -> BodyView {
        BodyView {
            body_name: self.body_name@,
            body_subtype: self.body_subtype@,
            distance_bits: self.distance_bits,
            fss_scanned: self.fss_scanned,
            dss_mapped: self.dss_mapped,
            status: self.status@,
        }
    }
}

/// A lowercase subtype names a star when it contains "star", "zwerg"
/// (German for dwarf) or "sun".
pub open spec fn star_keyword(lower: Seq<char>) -> bool {
    seq_contains(lower, "star"@) || seq_contains(lower, "zwerg"@) || seq_contains(lower, "sun"@)
}

/// A subtype names a star when its lowercase form does (see
/// [`star_keyword`]).
pub open spec fn is_star_subtype(subtype: Seq<char>) -> bool {
    star_keyword(lowercase(subtype))
}

/// Whether an already lowercase subtype names a star.
pub fn is_star_keyword(lower: &str) -> (r: bool)
    ensures
        r == star_keyword(lower@),
        r <==> seq_contains(lower@, "star"@) || seq_contains(lower@, "zwerg"@) || seq_contains(
            lower@,
            "sun"@,
        ),
{
    str_contains(lower, "star") || str_contains(lower, "zwerg") || str_contains(lower, "sun")
}

/// A star is done once scanned by the FSS; any other body needs the DSS too.
pub open spec fn body_is_completed(b: BodyView) -> bool {
    if is_star_subtype(b.body_subtype) {
        b.fss_scanned
    } else {
        b.fss_scanned && b.dss_mapped
    }
}

impl BodyView {
    /// The same body with other scan flags and status.
    pub open spec fn with_state(self, fss: bool, dss: bool, status: Seq<char>) -> BodyView {
        BodyView { fss_scanned: fss, dss_mapped: dss, status: status, ..self }
    }
}

impl Body {
    /// Whether the body is a star (see [`is_star_subtype`]).
    pub fn is_star(&self) -> (r: bool)
        ensures
            r == is_star_subtype(self.body_subtype@),
    {
        let s = to_lowercase(self.body_subtype.as_str());
        is_star_keyword(s.as_str())
    }

    /// Whether the body needs no further scans (see [`body_is_completed`]).
    pub fn is_completed(&self) -> (r: bool)
        ensures
            r == body_is_completed(self@),
    {
        if self.is_star() {
            self.fss_scanned
        } else {
            self.fss_scanned && self.dss_mapped
        }
    }

    /// Records the FSS scan.
    pub fn mark_fss_done(&mut self)
        ensures
            final(self)@ == old(self)@.with_state(true, old(self).dss_mapped, old(self).status@),
    {
        self.fss_scanned = true;
    }

    /// Records the DSS mapping.
    pub fn mark_dss_done(&mut self)
        ensures
            final(self)@ == old(self)@.with_state(old(self).fss_scanned, true, old(self).status@),
    {
        self.dss_mapped = true;
    }

    /// Marks both scans done and sets the status to [`STATUS_COMPLETED`].
    pub fn mark_completed(&mut self)
        ensures
            final(self)@ == old(self)@.with_state(true, true, STATUS_COMPLETED@),
    {
        self.fss_scanned = true;
        self.dss_mapped = true;
        self.status = STATUS_COMPLETED.to_owned();
    }

    /// Clears both scans and sets the status to [`STATUS_INCOMPLETE`].
    pub fn mark_incomplete(&mut self)
        ensures
            final(self)@ == old(self)@.with_state(false, false, STATUS_INCOMPLETE@),
    {
        self.fss_scanned = false;
        self.dss_mapped = false;
        self.status = STATUS_INCOMPLETE.to_owned();
    }
}

/// Only the keywords "star", "zwerg" and "sun" in the lowercase subtype make
/// a body a star, done after its FSS scan alone; any other body is done only
/// once both scanned and mapped.
pub proof fn lemma_star_keywords_decide_completion(b: BodyView)
    ensures
        ({
            let l = lowercase(b.body_subtype);
            seq_contains(l, "star"@) || seq_contains(l, "zwerg"@) || seq_contains(l, "sun"@)
        }) ==> (body_is_completed(b) <==> b.fss_scanned),
        !({
            let l = lowercase(b.body_subtype);
            seq_contains(l, "star"@) || seq_contains(l, "zwerg"@) || seq_contains(l, "sun"@)
        }) ==> (body_is_completed(b) <==> b.fss_scanned && b.dss_mapped),
{
}

/// Marking a body completed makes it count as done, and marking it
/// incomplete makes it count as not done, whatever kind of body it is.
pub proof fn lemma_marks_decide_completion(b: BodyView, status: Seq<char>)
    ensures
        body_is_completed(b.with_state(true, true, status)),
        !body_is_completed(b.with_state(false, false, status)),
{
}

/// Abstract value of a [`SystemGroup`].
#[verifier::ext_equal]
pub struct SystemGroupView {
    pub name: Seq<char>,
    pub jumps: i32,
    pub bodies: Seq<BodyView>,
}

/// A star system on the route with the bodies to scan there.
pub struct SystemGroup {
    pub name: String,
    pub jumps: i32,
    pub bodies: Vec<Body>,
}

/// The views of a sequence of bodies.
pub open spec fn bodies_view(bodies: Seq<Body>) -> Seq<BodyView> {
    bodies.map_values(|b: Body| b@)
}

impl View for SystemGroup {
    type V = SystemGroupView;

    open spec fn view(&self) -> SystemGroupView {
        SystemGroupView { name: self.name@, jumps: self.jumps, bodies: bodies_view(self.bodies@) }
    }
}

/// The views of a sequence of groups.
pub open spec fn groups_view(groups: Seq<SystemGroup>) -> Seq<SystemGroupView> {
    groups.map_values(|g: SystemGroup| g@)
}

} // verus!
