use xmltv_guide::channel::Channel;
use xmltv_guide::load_plan::{
    chunk_program_rows, plan_base_load, plan_secondary_load, StoreOp, CHUNK_SIZE,
};
use xmltv_guide::program::Program;
use xmltv_guide::program_converter::ProgramRow;
use xmltv_guide::timestamp::Timestamp;

fn chan(id: &str) -> Channel {
    Channel {
        id: 0,
        channel_id: id.to_string(),
        name: id.to_string(),
        icon_url: "".to_string(),
    }
}

fn prog(channel: &str, start: i64) -> Program {
    Program {
        id: 0,
        channel_id: channel.to_string(),
        start_time: Timestamp { utc_secs: start, offset_minutes: 0 },
        end_time: Timestamp { utc_secs: start + 3600, offset_minutes: 0 },
        title: "T".to_string(),
        sub_title: Some("".to_string()),
        description: Some("".to_string()),
        categories: Some(vec!["".to_string()]),
        icon_url: Some("".to_string()),
        episode_num: Some("".to_string()),
        rating: None,
    }
}

fn row(n: i64) -> ProgramRow {
    ProgramRow {
        id: 0,
        channel_id: format!("c{}", n),
        start_secs: n,
        end_secs: n + 1,
        title: "t".to_string(),
        sub_title: "".to_string(),
        description: "".to_string(),
        categories: "".to_string(),
        icon_url: "".to_string(),
        episode_num: "".to_string(),
        rating_system: "".to_string(),
        rating_value: "".to_string(),
        rating_icon: "".to_string(),
    }
}

#[test]
fn chunking_counts_and_sizes() {
    let n: usize = 2 * CHUNK_SIZE + 1;
    let mut rows: Vec<ProgramRow> = Vec::new();
    for k in 0..n {
        rows.push(row(k as i64));
    }
    let chunks = chunk_program_rows(&rows);
    assert_eq!(chunks.len(), 3);
    assert_eq!(chunks[0].len(), CHUNK_SIZE);
    assert_eq!(chunks[1].len(), CHUNK_SIZE);
    assert_eq!(chunks[2].len(), 1);
    let mut seen: usize = 0;
    for c in &chunks {
        for r in c {
            assert_eq!(r.start_secs, seen as i64);
            seen += 1;
        }
    }
    assert_eq!(seen, n);
}

#[test]
fn chunking_of_nothing_issues_no_batch() {
    let rows: Vec<ProgramRow> = Vec::new();
    let chunks = chunk_program_rows(&rows);
    assert_eq!(chunks.len(), 0);
}

#[test]
fn chunking_exact_multiple() {
    let mut rows: Vec<ProgramRow> = Vec::new();
    for k in 0..CHUNK_SIZE {
        rows.push(row(k as i64));
    }
    let chunks = chunk_program_rows(&rows);
    assert_eq!(chunks.len(), 1);
    assert_eq!(chunks[0].len(), CHUNK_SIZE);
}

#[test]
fn base_plan_truncates_then_inserts_in_order() {
    let channels = vec![chan("a"), chan("b")];
    let programs = vec![prog("a", 100), prog("b", 200)];
    let ops = plan_base_load(&channels, &programs);
    assert_eq!(ops.len(), 6);
    assert!(matches!(ops[0], StoreOp::TruncatePackages));
    assert!(matches!(ops[1], StoreOp::TruncateChannels));
    assert!(matches!(ops[2], StoreOp::TruncatePrograms));
    match &ops[3] {
        StoreOp::InsertChannels(cs) => {
            assert_eq!(cs.len(), 2);
            assert_eq!(cs[0].channel_id, "a");
            assert_eq!(cs[1].channel_id, "b");
        },
        _ => panic!("expected channel insert"),
    }
    match &ops[4] {
        StoreOp::InsertPackages(ids, pkg) => {
            assert_eq!(ids, &vec!["a".to_string(), "b".to_string()]);
            assert_eq!(pkg, "ALL");
        },
        _ => panic!("expected package insert"),
    }
    match &ops[5] {
        StoreOp::InsertProgramChunk(rows) => {
            assert_eq!(rows.len(), 2);
            assert_eq!(rows[0].channel_id, "a");
            assert_eq!(rows[1].channel_id, "b");
        },
        _ => panic!("expected program chunk"),
    }
}

#[test]
fn secondary_plan_records_memberships_and_new_rows_only() {
    let known = vec!["a".to_string()];
    let channels = vec![chan("a"), chan("c")];
    let programs = vec![prog("a", 100), prog("c", 200)];
    let (ops, updated) = plan_secondary_load(&known, "FR", &channels, &programs);
    assert_eq!(ops.len(), 4);
    match &ops[0] {
        StoreOp::InsertPackages(ids, pkg) => {
            assert_eq!(ids, &vec!["a".to_string()]);
            assert_eq!(pkg, "FR");
        },
        _ => panic!("expected package insert for known channels"),
    }
    match &ops[1] {
        StoreOp::InsertChannels(cs) => {
            assert_eq!(cs.len(), 1);
            assert_eq!(cs[0].channel_id, "c");
        },
        _ => panic!("expected insert of unknown channels"),
    }
    match &ops[2] {
        StoreOp::InsertPackages(ids, pkg) => {
            assert_eq!(ids, &vec!["c".to_string()]);
            assert_eq!(pkg, "FR");
        },
        _ => panic!("expected package insert for unknown channels"),
    }
    match &ops[3] {
        StoreOp::InsertProgramChunk(rows) => {
            assert_eq!(rows.len(), 1);
            assert_eq!(rows[0].channel_id, "c");
        },
        _ => panic!("expected program chunk"),
    }
    assert!(updated.contains(&"a".to_string()));
    assert!(updated.contains(&"c".to_string()));
}

#[test]
fn base_plan_chunks_large_loads() {
    let channels = vec![chan("a")];
    let n: usize = CHUNK_SIZE + 1;
    let mut programs: Vec<Program> = Vec::new();
    for k in 0..n {
        programs.push(prog("a", k as i64));
    }
    let ops = plan_base_load(&channels, &programs);
    assert_eq!(ops.len(), 7);
    let mut seen: usize = 0;
    for op in &ops[5..] {
        match op {
            StoreOp::InsertProgramChunk(rows) => {
                assert!(rows.len() <= CHUNK_SIZE);
                for r in rows {
                    assert_eq!(r.start_secs, seen as i64);
                    seen += 1;
                }
            },
            _ => panic!("expected only program chunks after the inserts"),
        }
    }
    assert_eq!(seen, n);
}

#[test]
fn secondary_plan_without_new_programs_has_no_chunk() {
    let known = vec!["a".to_string()];
    let channels = vec![chan("a")];
    let programs = vec![prog("a", 100)];
    let (ops, _) = plan_secondary_load(&known, "TNT", &channels, &programs);
    assert_eq!(ops.len(), 3);
}
