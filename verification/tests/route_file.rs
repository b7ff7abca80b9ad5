use roadtoriches::csv_logic::{flatten, load_and_group, save_all, CsvRow, SaveError};

fn row(system: &str, jumps: i32, body: &str) -> CsvRow {
    CsvRow {
        system_name: system.to_string(),
        jumps,
        body_name: body.to_string(),
        body_subtype: "Water world".to_string(),
        distance_bits: 10.0f32.to_bits(),
        fss_scanned: false,
        dss_mapped: true,
        status: String::new(),
    }
}

#[test]
fn rows_are_grouped_by_system_in_first_seen_order() {
    let rows = vec![row("A", 1, "A 1"), row("B", 2, "B 1"), row("A", 9, "A 2")];
    let groups = load_and_group(&rows);
    assert_eq!(groups.len(), 2);
    assert_eq!(groups[0].name, "A");
    assert_eq!(groups[0].jumps, 1);
    assert_eq!(groups[0].bodies.len(), 2);
    assert_eq!(groups[0].bodies[0].body_name, "A 1");
    assert_eq!(groups[0].bodies[1].body_name, "A 2");
    assert_eq!(groups[1].name, "B");
    assert_eq!(groups[1].jumps, 2);
    assert_eq!(groups[1].bodies.len(), 1);
    assert!(groups[1].bodies[0].dss_mapped);
    assert!(load_and_group(&[]).is_empty());
}

#[test]
fn flatten_writes_group_after_group() {
    let rows = vec![row("A", 1, "A 1"), row("B", 2, "B 1"), row("A", 9, "A 2")];
    let groups = load_and_group(&rows);
    let out = flatten(&groups);
    let names: Vec<(&str, i32, &str)> =
        out.iter().map(|r| (r.system_name.as_str(), r.jumps, r.body_name.as_str())).collect();
    assert_eq!(names, vec![("A", 1, "A 1"), ("A", 1, "A 2"), ("B", 2, "B 1")]);
}

#[test]
fn reload_after_save_gives_same_route() {
    let rows = vec![row("A", 1, "A 1"), row("B", 2, "B 1"), row("A", 9, "A 2"), row("C", 4, "C 1")];
    let groups = load_and_group(&rows);
    let again = load_and_group(&flatten(&groups));
    assert_eq!(again.len(), groups.len());
    for (g, h) in groups.iter().zip(again.iter()) {
        assert_eq!(g.name, h.name);
        assert_eq!(g.jumps, h.jumps);
        assert_eq!(g.bodies.len(), h.bodies.len());
        for (b, c) in g.bodies.iter().zip(h.bodies.iter()) {
            assert_eq!(b.body_name, c.body_name);
            assert_eq!(b.distance_bits, c.distance_bits);
        }
    }
}

#[test]
fn saving_nothing_is_refused() {
    match save_all("route.csv", &[]) {
        Err(e) => {
            assert!(matches!(e, SaveError::EmptyList));
            assert_eq!(e.message(), "Save aborted: List is empty.");
        }
        Ok(_) => panic!("an empty list must not be saved"),
    }
}

#[test]
fn save_plan_names_temp_and_backup() {
    let groups = load_and_group(&[row("A", 1, "A 1")]);
    let plan = save_all("data/route.csv", &groups).ok().unwrap();
    assert_eq!(plan.temp_path, "data/route.csv.tmp");
    assert_eq!(plan.backup_path, "data/route.csv.bak");
    assert_eq!(plan.rows.len(), 1);
    assert_eq!(plan.rows[0].system_name, "A");
}

#[test]
fn every_row_lands_in_its_system() {
    let rows = vec![row("A", 1, "A 1"), row("B", 2, "B 1"), row("A", 1, "A 2"), row("B", 2, "B 2"), row("A", 1, "A 3")];
    let groups = load_and_group(&rows);
    let total: usize = groups.iter().map(|g| g.bodies.len()).sum();
    assert_eq!(total, rows.len());
    let a: Vec<&str> = groups[0].bodies.iter().map(|b| b.body_name.as_str()).collect();
    let b: Vec<&str> = groups[1].bodies.iter().map(|b| b.body_name.as_str()).collect();
    assert_eq!(a, vec!["A 1", "A 2", "A 3"]);
    assert_eq!(b, vec!["B 1", "B 2"]);
}
