//! The route file: grouping CSV rows into systems, and flattening systems
//! back into rows for saving.

use vstd::prelude::*;
use vstd::string::StringExecFns;
use crate::travel::{Body, BodyView, SystemGroup, SystemGroupView, bodies_view, groups_view};

verus! {

/// Abstract value of a [`CsvRow`].
#[verifier::ext_equal]
pub struct CsvRowView {
    pub system_name: Seq<char>,
    pub jumps: i32,
    pub body_name: Seq<char>,
    pub body_subtype: Seq<char>,
    pub distance_bits: u32,
    pub fss_scanned: bool,
    pub dss_mapped: bool,
    pub status: Seq<char>,
}

/// One line of the route CSV file, column by column.
///
/// `distance_bits` holds the IEEE-754 bit pattern of the `distance` column
/// (an `f32`).
pub struct CsvRow {
    pub system_name: String,
    pub jumps: i32,
    pub body_name: String,
    pub body_subtype: String,
    pub distance_bits: u32,
    pub fss_scanned: bool,
    pub dss_mapped: bool,
    pub status: String,
}

impl View for CsvRow {
    type V = CsvRowView;

    open spec fn view(&self) -> CsvRowView {
        CsvRowView {
            system_name: self.system_name@,
            jumps: self.jumps,
            body_name: self.body_name@,
            body_subtype: self.body_subtype@,
            distance_bits: self.distance_bits,
            fss_scanned: self.fss_scanned,
            dss_mapped: self.dss_mapped,
            status: self.status@,
        }
    }
}

/// The views of a sequence of rows.
pub open spec fn rows_view(rows: Seq<CsvRow>) -> Seq<CsvRowView> {
    rows.map_values(|r: CsvRow| r@)
}

/// The body that a row describes.
pub open spec fn row_body(r: CsvRowView) -> BodyView {
    BodyView {
        body_name: r.body_name,
        body_subtype: r.body_subtype,
        distance_bits: r.distance_bits,
        fss_scanned: r.fss_scanned,
        dss_mapped: r.dss_mapped,
        status: r.status,
    }
}

/// The row that describes body `b` of the system `name` reached after `jumps`.
pub open spec fn body_row(name: Seq<char>, jumps: i32, b: BodyView) -> CsvRowView {
    CsvRowView {
        system_name: name,
        jumps: jumps,
        body_name: b.body_name,
        body_subtype: b.body_subtype,
        distance_bits: b.distance_bits,
        fss_scanned: b.fss_scanned,
        dss_mapped: b.dss_mapped,
        status: b.status,
    }
}

/// Some group carries the name `name`.
pub open spec fn has_group_named(groups: Seq<SystemGroupView>, name: Seq<char>) -> bool {
    exists|i: int| 0 <= i < groups.len() && #[trigger] groups[i].name == name
}

/// `i` is the first group that carries the name `name`.
pub open spec fn is_first_group_named(groups: Seq<SystemGroupView>, name: Seq<char>, i: int) -> bool {
    &&& 0 <= i < groups.len()
    &&& groups[i].name == name
    &&& forall|j: int| 0 <= j < i ==> #[trigger] groups[j].name != name
}

/// Adds one row: its body joins the first group of its system, or opens a
/// new group at the end that takes the row's jump count.
pub open spec fn add_row(groups: Seq<SystemGroupView>, row: CsvRowView) -> Seq<SystemGroupView> {
    if has_group_named(groups, row.system_name) {
        let i = choose|i: int| is_first_group_named(groups, row.system_name, i);
        groups.update(i, SystemGroupView { bodies: groups[i].bodies.push(row_body(row)), ..groups[i] })
    } else {
        groups.push(
            SystemGroupView { name: row.system_name, jumps: row.jumps, bodies: seq![row_body(row)] },
        )
    }
}

/// Adds the rows one after another, in order.
pub open spec fn add_rows(groups: Seq<SystemGroupView>, rows: Seq<CsvRowView>) -> Seq<SystemGroupView>
    decreases rows.len(),
{
    if rows.len() == 0 {
        groups
    } else {
        add_row(add_rows(groups, rows.drop_last()), rows.last())
    }
}

/// The systems that a route file describes.
pub open spec fn group_rows(rows: Seq<CsvRowView>) -> Seq<SystemGroupView> {
    add_rows(Seq::empty(), rows)
}

/// The rows that describe one group, one per body, in order.
pub open spec fn group_to_rows(g: SystemGroupView) -> Seq<CsvRowView> {
    g.bodies.map_values(|b: BodyView| body_row(g.name, g.jumps, b))
}

/// The rows that describe the groups, group after group.
pub open spec fn flatten_groups(groups: Seq<SystemGroupView>) -> Seq<CsvRowView>
    decreases groups.len(),
{
    if groups.len() == 0 {
        Seq::empty()
    } else {
        flatten_groups(groups.drop_last()) + group_to_rows(groups.last())
    }
}

/// A copy of the string.
fn clone_string(s: &String) -> (r: String)
    ensures
        r@ == s@,
{
    s.clone()
}

/// The first group named `name`, if any.
fn find_group(groups: &Vec<SystemGroup>, name: &String) -> (r: Option<usize>)
    ensures
        match r {
            Some(i) => is_first_group_named(groups_view(groups@), name@, i as int),
            None => !has_group_named(groups_view(groups@), name@),
        },
{
    let mut i: usize = 0;
    while i < groups.len()
        invariant
            i <= groups@.len(),
            forall|j: int| 0 <= j < i ==> #[trigger] groups_view(groups@)[j].name != name@,
        decreases groups@.len() - i,
    {
        if groups[i].name == *name {
            return Some(i);
        }
        i = i + 1;
    }
    None
}

/// Groups the rows of a route file by system name: systems keep the order
/// in which they first appear, bodies keep the order of their rows, and a
/// system takes the jump count of its first row.
pub fn load_and_group(rows: &[CsvRow]) -> (groups: Vec<SystemGroup>)
    ensures
        groups_view(groups@) == group_rows(rows_view(rows@)),
{
    let mut groups: Vec<SystemGroup> = Vec::new();
    let mut k: usize = 0;
    while k < rows.len()
        invariant
            k <= rows@.len(),
            groups_view(groups@) == add_rows(Seq::empty(), rows_view(rows@).take(k as int)),
        decreases rows@.len() - k,
    {
        let row = &rows[k];
        let body = Body {
            body_name: clone_string(&row.body_name),
            body_subtype: clone_string(&row.body_subtype),
            distance_bits: row.distance_bits,
            fss_scanned: row.fss_scanned,
            dss_mapped: row.dss_mapped,
            status: clone_string(&row.status),
        };
        let ghost before = groups_view(groups@);
        assert(rows_view(rows@).take(k + 1).drop_last() =~= rows_view(rows@).take(k as int));
        assert(body@ == row_body(row@));
        match find_group(&groups, &row.system_name) {
            Some(i) => {
                groups[i].bodies.push(body);
                proof {
                    let j = choose|j: int| is_first_group_named(before, row@.system_name, j);
                    assert(j == i);
                    assert(bodies_view(groups@[i as int].bodies@) =~= before[i as int].bodies.push(
                        row_body(row@),
                    ));
                    assert(groups_view(groups@) =~= add_row(before, row@));
                }
            },
            None => {
                groups.push(
                    SystemGroup {
                        name: clone_string(&row.system_name),
                        jumps: row.jumps,
                        bodies: vec![body],
                    },
                );
                proof {
                    assert(bodies_view(groups@.last().bodies@) =~= seq![row_body(row@)]);
                    assert(groups_view(groups@) =~= add_row(before, row@));
                }
            },
        }
        k = k + 1;
    }
    assert(rows_view(rows@).take(rows@.len() as int) =~= rows_view(rows@));
    groups
}


/// Flattens the groups into rows, group after group, body after body; every
/// row repeats its group's name and jump count.
pub fn flatten(groups: &[SystemGroup]) -> (rows: Vec<CsvRow>)
    ensures
        rows_view(rows@) == flatten_groups(groups_view(groups@)),
{
    let mut rows: Vec<CsvRow> = Vec::new();
    let mut i: usize = 0;
    while i < groups.len()
        invariant
            i <= groups@.len(),
            rows_view(rows@) == flatten_groups(groups_view(groups@).take(i as int)),
        decreases groups@.len() - i,
    {
        let g = &groups[i];
        let ghost start = rows_view(rows@);
        let mut j: usize = 0;
        while j < g.bodies.len()
            invariant
                j <= g.bodies@.len(),
                rows_view(rows@) == start + group_to_rows(g@).take(j as int),
            decreases g.bodies@.len() - j,
        {
            let b = &g.bodies[j];
            let ghost prev_rows = rows_view(rows@);
            rows.push(
                CsvRow {
                    system_name: clone_string(&g.name),
                    jumps: g.jumps,
                    body_name: clone_string(&b.body_name),
                    body_subtype: clone_string(&b.body_subtype),
                    distance_bits: b.distance_bits,
                    fss_scanned: b.fss_scanned,
                    dss_mapped: b.dss_mapped,
                    status: clone_string(&b.status),
                },
            );
            assert(g@.bodies[j as int] == b@);
            assert(group_to_rows(g@)[j as int] == body_row(g.name@, g.jumps, b@));
            assert(rows_view(rows@) =~= prev_rows.push(body_row(g.name@, g.jumps, b@)));
            assert(group_to_rows(g@).take(j + 1) =~= group_to_rows(g@).take(j as int).push(
                body_row(g.name@, g.jumps, b@),
            ));
            assert(rows_view(rows@) =~= start + group_to_rows(g@).take(j + 1));
            j = j + 1;
        }
        assert(group_to_rows(g@).take(g.bodies@.len() as int) =~= group_to_rows(g@));
        assert(groups_view(groups@).take(i + 1).drop_last() =~= groups_view(groups@).take(i as int));
        i = i + 1;
    }
    assert(groups_view(groups@).take(groups@.len() as int) =~= groups_view(groups@));
    rows
}

/// Why a save was refused.
pub enum SaveError {
    /// There are no systems to save.
    EmptyList,
}

impl SaveError {
    /// The message that reports the error.
    pub fn message(&self) -> (r: &'static str)
        ensures
            r@ == "Save aborted: List is empty."@,
    {
        match self {
            SaveError::EmptyList => "Save aborted: List is empty.",
        }
    }
}

/// What a save writes: the rows go to `temp_path`, the file in place is first
/// copied to `backup_path`, then `temp_path` replaces it.
pub struct SavePlan {
    pub temp_path: String,
    pub backup_path: String,
    pub rows: Vec<CsvRow>,
}

/// Plans the saving of the groups to the route file at `path`. An empty list
/// of groups is refused, so that a failed load never wipes a route file.
pub fn save_all(path: &str, groups: &[SystemGroup]) -> (r: Result<SavePlan, SaveError>)
    ensures
        groups@.len() == 0 <==> r is Err,
        r matches Err(e) ==> e == SaveError::EmptyList,
        r matches Ok(p) ==> {
            &&& p.temp_path@ == path@ + ".tmp"@
            &&& p.backup_path@ == path@ + ".bak"@
            &&& rows_view(p.rows@) == flatten_groups(groups_view(groups@))
        },
{
    if groups.len() == 0 {
        return Err(SaveError::EmptyList);
    }
    let mut temp_path = path.to_owned();
    temp_path.append(".tmp");
    let mut backup_path = path.to_owned();
    backup_path.append(".bak");
    Ok(SavePlan { temp_path, backup_path, rows: flatten(groups) })
}

/// No two groups share a name.
pub open spec fn names_distinct(groups: Seq<SystemGroupView>) -> bool {
    forall|i: int, j: int|
        0 <= i < groups.len() && 0 <= j < groups.len() && i != j ==> #[trigger] groups[i].name
            != #[trigger] groups[j].name
}

/// Every group holds at least one body.
pub open spec fn no_empty_group(groups: Seq<SystemGroupView>) -> bool {
    forall|i: int| 0 <= i < groups.len() ==> #[trigger] groups[i].bodies.len() > 0
}

/// Adding rows in two batches is adding them all at once.
pub proof fn lemma_add_rows_append(g: Seq<SystemGroupView>, xs: Seq<CsvRowView>, ys: Seq<CsvRowView>)
    ensures
        add_rows(g, xs + ys) == add_rows(add_rows(g, xs), ys),
    decreases ys.len(),
{
    if ys.len() == 0 {
        assert(xs + ys =~= xs);
    } else {
        assert((xs + ys).drop_last() =~= xs + ys.drop_last());
        assert((xs + ys).last() == ys.last());
        lemma_add_rows_append(g, xs, ys.drop_last());
    }
}

/// The rows of a group whose name is new open that group again, body by body.
proof fn lemma_add_group_rows(prefix: Seq<SystemGroupView>, grp: SystemGroupView, k: int)
    requires
        !has_group_named(prefix, grp.name),
        1 <= k <= grp.bodies.len(),
    ensures
        add_rows(prefix, group_to_rows(grp).take(k)) == prefix.push(
            SystemGroupView { bodies: grp.bodies.take(k), ..grp },
        ),
    decreases k,
{
    let rows = group_to_rows(grp).take(k);
    let r = rows.last();
    assert(row_body(r) == grp.bodies[k - 1]);
    assert(r.system_name == grp.name);
    if k == 1 {
        assert(rows.drop_last() =~= Seq::<CsvRowView>::empty());
        assert(add_rows(prefix, rows.drop_last()) == prefix);
        assert(seq![row_body(r)] =~= grp.bodies.take(1));
        assert(r.jumps == grp.jumps);
        let ng = SystemGroupView { name: r.system_name, jumps: r.jumps, bodies: seq![row_body(r)] };
        assert(ng =~= SystemGroupView { bodies: grp.bodies.take(1), ..grp });
        assert(add_row(prefix, r) == prefix.push(ng));
    } else {
        assert(rows.drop_last() =~= group_to_rows(grp).take(k - 1));
        lemma_add_group_rows(prefix, grp, k - 1);
        let before = prefix.push(SystemGroupView { bodies: grp.bodies.take(k - 1), ..grp });
        let n = prefix.len() as int;
        assert(before[n].name == grp.name);
        assert(is_first_group_named(before, grp.name, n)) by {
            assert forall|j: int| 0 <= j < n implies #[trigger] before[j].name != grp.name by {
                assert(before[j] == prefix[j]);
            }
        }
        assert(has_group_named(before, grp.name));
        let c = choose|i: int| is_first_group_named(before, grp.name, i);
        assert(c == n);
        assert(before[n].bodies.push(row_body(r)) =~= grp.bodies.take(k));
        let ng = SystemGroupView { bodies: before[n].bodies.push(row_body(r)), ..before[n] };
        assert(ng =~= SystemGroupView { bodies: grp.bodies.take(k), ..grp });
        assert(add_row(before, r) == before.update(n, ng));
        assert(before.update(n, ng) =~= prefix.push(ng));
    }
}

/// Reloading what was saved gives back the same systems, provided no two
/// systems share a name and none is empty.
pub proof fn lemma_reload_after_save(groups: Seq<SystemGroupView>)
    requires
        names_distinct(groups),
        no_empty_group(groups),
    ensures
        group_rows(flatten_groups(groups)) == groups,
    decreases groups.len(),
{
    if groups.len() == 0 {
        assert(group_rows(flatten_groups(groups)) =~= groups);
    } else {
        let prev = groups.drop_last();
        let last = groups.last();
        assert(names_distinct(prev));
        assert(no_empty_group(prev)) by {
            assert forall|i: int| 0 <= i < prev.len() implies #[trigger] prev[i].bodies.len() > 0 by {
                assert(groups[i] == prev[i]);
            }
        }
        lemma_reload_after_save(prev);
        lemma_add_rows_append(Seq::empty(), flatten_groups(prev), group_to_rows(last));
        assert(!has_group_named(prev, last.name)) by {
            assert forall|i: int| 0 <= i < prev.len() implies #[trigger] prev[i].name != last.name by {
                assert(groups[i] == prev[i]);
                assert(groups[groups.len() - 1] == last);
            }
        }
        assert(groups[groups.len() - 1].bodies.len() > 0);
        lemma_add_group_rows(prev, last, last.bodies.len() as int);
        assert(group_to_rows(last).take(last.bodies.len() as int) =~= group_to_rows(last));
        assert(last.bodies.take(last.bodies.len() as int) =~= last.bodies);
        assert(prev.push(SystemGroupView { bodies: last.bodies, ..last }) =~= groups);
    }
}


/// Adding a row keeps names distinct and groups non-empty.
proof fn lemma_add_row_well_formed(groups: Seq<SystemGroupView>, row: CsvRowView)
    requires
        names_distinct(groups),
        no_empty_group(groups),
    ensures
        names_distinct(add_row(groups, row)),
        no_empty_group(add_row(groups, row)),
{
    let out = add_row(groups, row);
    if has_group_named(groups, row.system_name) {
        let i = choose|i: int| is_first_group_named(groups, row.system_name, i);
        assert(exists|i: int| is_first_group_named(groups, row.system_name, i)) by {
            let w = choose|w: int| 0 <= w < groups.len() && #[trigger] groups[w].name == row.system_name;
            assert(is_first_group_named(groups, row.system_name, w)) by {
                assert forall|j: int| 0 <= j < w implies #[trigger] groups[j].name != row.system_name by {
                    assert(groups[j].name != groups[w].name);
                }
            }
        }
        assert forall|a: int, b: int|
            0 <= a < out.len() && 0 <= b < out.len() && a != b implies #[trigger] out[a].name
            != #[trigger] out[b].name by {
            assert(out[a].name == groups[a].name);
            assert(out[b].name == groups[b].name);
        }
        assert forall|a: int| 0 <= a < out.len() implies #[trigger] out[a].bodies.len() > 0 by {
            if a != i {
                assert(out[a] == groups[a]);
            }
        }
    } else {
        assert forall|a: int, b: int|
            0 <= a < out.len() && 0 <= b < out.len() && a != b implies #[trigger] out[a].name
            != #[trigger] out[b].name by {
            if a < groups.len() && b < groups.len() {
                assert(out[a] == groups[a]);
                assert(out[b] == groups[b]);
            } else if a < groups.len() {
                assert(out[a] == groups[a]);
            } else {
                assert(out[b] == groups[b]);
            }
        }
        assert forall|a: int| 0 <= a < out.len() implies #[trigger] out[a].bodies.len() > 0 by {
            if a < groups.len() {
                assert(out[a] == groups[a]);
            }
        }
    }
}

/// Grouping never yields two systems of one name, nor an empty system.
pub proof fn lemma_grouped_well_formed(rows: Seq<CsvRowView>)
    ensures
        names_distinct(group_rows(rows)),
        no_empty_group(group_rows(rows)),
    decreases rows.len(),
{
    if rows.len() > 0 {
        lemma_grouped_well_formed(rows.drop_last());
        lemma_add_row_well_formed(group_rows(rows.drop_last()), rows.last());
    }
}

/// The number of bodies in the groups.
pub open spec fn body_count(groups: Seq<SystemGroupView>) -> nat
    decreases groups.len(),
{
    if groups.len() == 0 {
        0
    } else {
        body_count(groups.drop_last()) + groups.last().bodies.len()
    }
}

proof fn lemma_body_count_update(groups: Seq<SystemGroupView>, i: int, g: SystemGroupView)
    requires
        0 <= i < groups.len(),
    ensures
        body_count(groups.update(i, g)) + groups[i].bodies.len() == body_count(groups) + g.bodies.len(),
    decreases groups.len(),
{
    let u = groups.update(i, g);
    if i == groups.len() - 1 {
        assert(u.drop_last() =~= groups.drop_last());
    } else {
        assert(u.drop_last() =~= groups.drop_last().update(i, g));
        lemma_body_count_update(groups.drop_last(), i, g);
    }
}

/// Grouping keeps every row: the systems hold as many bodies as there were
/// rows.
pub proof fn lemma_grouping_keeps_every_row(rows: Seq<CsvRowView>)
    ensures
        body_count(group_rows(rows)) == rows.len(),
    decreases rows.len(),
{
    if rows.len() > 0 {
        lemma_grouping_keeps_every_row(rows.drop_last());
        let gs = group_rows(rows.drop_last());
        let r = rows.last();
        if has_group_named(gs, r.system_name) {
            let w = choose|w: int| 0 <= w < gs.len() && #[trigger] gs[w].name == r.system_name;
            lemma_grouped_well_formed(rows.drop_last());
            assert(is_first_group_named(gs, r.system_name, w)) by {
                assert forall|j: int| 0 <= j < w implies #[trigger] gs[j].name != r.system_name by {
                    assert(gs[j].name != gs[w].name);
                }
            }
            let i = choose|i: int| is_first_group_named(gs, r.system_name, i);
            lemma_body_count_update(
                gs,
                i,
                SystemGroupView { bodies: gs[i].bodies.push(row_body(r)), ..gs[i] },
            );
        } else {
            let ng = SystemGroupView { name: r.system_name, jumps: r.jumps, bodies: seq![row_body(r)] };
            assert(gs.push(ng).drop_last() =~= gs);
        }
    }
}

/// The bodies of the rows of system `name`, in row order.
pub open spec fn system_bodies(rows: Seq<CsvRowView>, name: Seq<char>) -> Seq<BodyView>
    decreases rows.len(),
{
    if rows.len() == 0 {
        Seq::empty()
    } else {
        let prev = system_bodies(rows.drop_last(), name);
        if rows.last().system_name == name {
            prev.push(row_body(rows.last()))
        } else {
            prev
        }
    }
}

/// Adding a row keeps every group's name where it is, and the row's system
/// then has a group.
proof fn lemma_add_row_names(groups: Seq<SystemGroupView>, row: CsvRowView)
    ensures
        add_row(groups, row).len() >= groups.len(),
        forall|i: int| 0 <= i < groups.len() ==> #[trigger] add_row(groups, row)[i].name == groups[i].name,
        has_group_named(add_row(groups, row), row.system_name),
{
    let out = add_row(groups, row);
    if has_group_named(groups, row.system_name) {
        let w = choose|w: int| 0 <= w < groups.len() && #[trigger] groups[w].name == row.system_name;
        assert(exists|i: int| is_first_group_named(groups, row.system_name, i)) by {
            let f = first_named(groups, row.system_name, w);
            assert(is_first_group_named(groups, row.system_name, f));
        }
        let i = choose|i: int| is_first_group_named(groups, row.system_name, i);
        assert(out[i].name == row.system_name);
    } else {
        assert(out[groups.len() as int].name == row.system_name);
    }
}

/// The first group named `name`, given that group `w` has that name.
proof fn first_named(groups: Seq<SystemGroupView>, name: Seq<char>, w: int) -> (f: int)
    requires
        0 <= w < groups.len(),
        groups[w].name == name,
    ensures
        is_first_group_named(groups, name, f),
    decreases w,
{
    if exists|j: int| 0 <= j < w && #[trigger] groups[j].name == name {
        let j = choose|j: int| 0 <= j < w && #[trigger] groups[j].name == name;
        first_named(groups, name, j)
    } else {
        w
    }
}

/// The system of every row has a group.
pub proof fn lemma_every_row_has_group(rows: Seq<CsvRowView>)
    ensures
        forall|k: int| 0 <= k < rows.len() ==> has_group_named(group_rows(rows), #[trigger] rows[k].system_name),
    decreases rows.len(),
{
    if rows.len() > 0 {
        let prev = rows.drop_last();
        lemma_every_row_has_group(prev);
        let gs = group_rows(prev);
        lemma_add_row_names(gs, rows.last());
        assert forall|k: int| 0 <= k < rows.len() implies has_group_named(group_rows(rows), #[trigger] rows[k].system_name) by {
            if k < rows.len() - 1 {
                assert(rows[k] == prev[k]);
                assert(has_group_named(gs, prev[k].system_name));
                let w = choose|w: int| 0 <= w < gs.len() && #[trigger] gs[w].name == prev[k].system_name;
                assert(group_rows(rows)[w].name == gs[w].name);
            }
        }
    }
}

proof fn lemma_system_bodies_absent(rows: Seq<CsvRowView>, name: Seq<char>)
    requires
        forall|k: int| 0 <= k < rows.len() ==> #[trigger] rows[k].system_name != name,
    ensures
        system_bodies(rows, name) == Seq::<BodyView>::empty(),
    decreases rows.len(),
{
    if rows.len() > 0 {
        let prev = rows.drop_last();
        assert forall|k: int| 0 <= k < prev.len() implies #[trigger] prev[k].system_name != name by {
            assert(prev[k] == rows[k]);
        }
        lemma_system_bodies_absent(prev, name);
        assert(rows[rows.len() - 1].system_name != name);
    }
}

/// Each system holds exactly the bodies of the rows that name it, in the
/// order of the rows.
pub proof fn lemma_group_holds_its_rows(rows: Seq<CsvRowView>)
    ensures
        forall|i: int|
            0 <= i < group_rows(rows).len() ==> (#[trigger] group_rows(rows)[i]).bodies == system_bodies(
                rows,
                group_rows(rows)[i].name,
            ),
    decreases rows.len(),
{
    if rows.len() > 0 {
        let prev = rows.drop_last();
        let r = rows.last();
        lemma_group_holds_its_rows(prev);
        lemma_grouped_well_formed(prev);
        let gs = group_rows(prev);
        let out = group_rows(rows);
        assert(out == add_row(gs, r));
        if has_group_named(gs, r.system_name) {
            let w = choose|w: int| 0 <= w < gs.len() && #[trigger] gs[w].name == r.system_name;
            let first = first_named(gs, r.system_name, w);
            assert(is_first_group_named(gs, r.system_name, first));
            let i0 = choose|i: int| is_first_group_named(gs, r.system_name, i);
            assert forall|i: int| 0 <= i < out.len() implies (#[trigger] out[i]).bodies == system_bodies(
                rows,
                out[i].name,
            ) by {
                assert(gs[i].bodies == system_bodies(prev, gs[i].name));
                if i != i0 {
                    assert(gs[i].name != gs[i0].name);
                    assert(out[i] == gs[i]);
                } else {
                    assert(out[i].bodies =~= gs[i].bodies.push(row_body(r)));
                }
            }
        } else {
            lemma_every_row_has_group(prev);
            assert forall|k: int| 0 <= k < prev.len() implies #[trigger] prev[k].system_name != r.system_name by {
                assert(has_group_named(gs, prev[k].system_name));
            }
            lemma_system_bodies_absent(prev, r.system_name);
            assert forall|i: int| 0 <= i < out.len() implies (#[trigger] out[i]).bodies == system_bodies(
                rows,
                out[i].name,
            ) by {
                if i < gs.len() {
                    assert(out[i] == gs[i]);
                    assert(gs[i].bodies == system_bodies(prev, gs[i].name));
                    assert(gs[i].name != r.system_name);
                } else {
                    assert(out[i].bodies =~= seq![row_body(r)]);
                    assert(system_bodies(rows, r.system_name) =~= Seq::<BodyView>::empty().push(row_body(r)));
                }
            }
        }
    }
}

/// Where the body of row `k` stands among the bodies of its system.
proof fn row_position_in_system(rows: Seq<CsvRowView>, k: int) -> (j: int)
    requires
        0 <= k < rows.len(),
    ensures
        0 <= j < system_bodies(rows, rows[k].system_name).len(),
        system_bodies(rows, rows[k].system_name)[j] == row_body(rows[k]),
    decreases rows.len(),
{
    let name = rows[k].system_name;
    let prev = rows.drop_last();
    if k == rows.len() - 1 {
        system_bodies(prev, name).len() as int
    } else {
        assert(prev[k] == rows[k]);
        row_position_in_system(prev, k)
    }
}

/// Loading keeps every row's columns: for each row there is a body in the
/// system named by the row whose name, subtype, distance, scan flags and
/// status are the row's own.
pub proof fn lemma_loaded_bodies_keep_row_columns(rows: Seq<CsvRowView>)
    ensures
        forall|k: int|
            0 <= k < rows.len() ==> exists|i: int, j: int|
                0 <= i < group_rows(rows).len() && 0 <= j < group_rows(rows)[i].bodies.len()
                    && group_rows(rows)[i].name == (#[trigger] rows[k]).system_name
                    && #[trigger] group_rows(rows)[i].bodies[j] == (BodyView {
                    body_name: rows[k].body_name,
                    body_subtype: rows[k].body_subtype,
                    distance_bits: rows[k].distance_bits,
                    fss_scanned: rows[k].fss_scanned,
                    dss_mapped: rows[k].dss_mapped,
                    status: rows[k].status,
                }),
{
    let gs = group_rows(rows);
    lemma_every_row_has_group(rows);
    lemma_group_holds_its_rows(rows);
    assert forall|k: int| 0 <= k < rows.len() implies exists|i: int, j: int|
        0 <= i < gs.len() && 0 <= j < gs[i].bodies.len() && gs[i].name == (#[trigger] rows[k]).system_name
            && #[trigger] gs[i].bodies[j] == (BodyView {
            body_name: rows[k].body_name,
            body_subtype: rows[k].body_subtype,
            distance_bits: rows[k].distance_bits,
            fss_scanned: rows[k].fss_scanned,
            dss_mapped: rows[k].dss_mapped,
            status: rows[k].status,
        }) by {
        let name = rows[k].system_name;
        assert(has_group_named(gs, name));
        let i = choose|i: int| 0 <= i < gs.len() && #[trigger] gs[i].name == name;
        assert(gs[i].bodies == system_bodies(rows, gs[i].name));
        let j = row_position_in_system(rows, k);
        assert(gs[i].bodies[j] == row_body(rows[k]));
    }
}

/// Where body `j` of group `i` stands among the flattened rows.
proof fn body_position_in_rows(groups: Seq<SystemGroupView>, i: int, j: int) -> (k: int)
    requires
        0 <= i < groups.len(),
        0 <= j < groups[i].bodies.len(),
    ensures
        0 <= k < flatten_groups(groups).len(),
        flatten_groups(groups)[k] == body_row(groups[i].name, groups[i].jumps, groups[i].bodies[j]),
    decreases groups.len(),
{
    let prev = groups.drop_last();
    let base = flatten_groups(prev);
    if i == groups.len() - 1 {
        base.len() + j
    } else {
        assert(prev[i] == groups[i]);
        body_position_in_rows(prev, i, j)
    }
}

/// The rows hold a row for body `b` of the system `name` reached after
/// `jumps`, carrying every column as it is.
pub open spec fn has_row_for(rows: Seq<CsvRowView>, name: Seq<char>, jumps: i32, b: BodyView) -> bool {
    exists|k: int|
        0 <= k < rows.len() && #[trigger] rows[k] == (CsvRowView {
            system_name: name,
            jumps: jumps,
            body_name: b.body_name,
            body_subtype: b.body_subtype,
            distance_bits: b.distance_bits,
            fss_scanned: b.fss_scanned,
            dss_mapped: b.dss_mapped,
            status: b.status,
        })
}

/// Saving writes every body as a row holding its system's name and jump
/// count and the body's own name, subtype, distance, scan flags and status.
pub proof fn lemma_saved_rows_keep_body_columns(groups: Seq<SystemGroupView>)
    ensures
        forall|i: int, j: int|
            0 <= i < groups.len() && 0 <= j < groups[i].bodies.len() ==> has_row_for(
                flatten_groups(groups),
                groups[i].name,
                groups[i].jumps,
                #[trigger] groups[i].bodies[j],
            ),
{
    assert forall|i: int, j: int| 0 <= i < groups.len() && 0 <= j < groups[i].bodies.len() implies has_row_for(
        flatten_groups(groups),
        groups[i].name,
        groups[i].jumps,
        #[trigger] groups[i].bodies[j],
    ) by {
        let k = body_position_in_rows(groups, i, j);
        assert(flatten_groups(groups)[k] == body_row(groups[i].name, groups[i].jumps, groups[i].bodies[j]));
    }
}

/// Saving a loaded route and loading it again gives the route that was
/// loaded.
pub proof fn lemma_load_save_load(rows: Seq<CsvRowView>)
    ensures
        group_rows(flatten_groups(group_rows(rows))) == group_rows(rows),
{
    lemma_grouped_well_formed(rows);
    lemma_reload_after_save(group_rows(rows));
}

} // verus!
