use xmltv_guide::channel::Channel;
use xmltv_guide::program::Program;
use xmltv_guide::queries::{
    current_program_at, get_channels_by_package, get_current_program_by_channel_id,
    get_programs_by_channel_id, get_tonight_program_by_channel_id, search_programs,
    tonight_program_at, upcoming_programs_at, UPCOMING_LIMIT,
};
use xmltv_guide::timestamp::Timestamp;

fn prog(channel: &str, start: i64, end: i64, title: &str) -> Program {
    Program {
        id: 0,
        channel_id: channel.to_string(),
        start_time: Timestamp { utc_secs: start, offset_minutes: 0 },
        end_time: Timestamp { utc_secs: end, offset_minutes: 0 },
        title: title.to_string(),
        sub_title: Some("".to_string()),
        description: Some("".to_string()),
        categories: Some(vec!["".to_string()]),
        icon_url: Some("".to_string()),
        episode_num: Some("".to_string()),
        rating: None,
    }
}

fn chan(id: &str) -> Channel {
    Channel {
        id: 0,
        channel_id: id.to_string(),
        name: id.to_string(),
        icon_url: "".to_string(),
    }
}

const NINE: i64 = 1710061200;
const TEN: i64 = NINE + 3600;
const ELEVEN: i64 = TEN + 3600;
const EIGHT: i64 = NINE - 3600;

#[test]
fn current_program_half_open_boundaries() {
    let cid = "c1".to_string();
    let v = vec![prog("c1", NINE, TEN, "first"), prog("c1", TEN, ELEVEN, "second")];
    let mid = current_program_at(&v, &cid, NINE + 1800).expect("should find");
    assert_eq!(mid.title, "first");
    let at_ten = current_program_at(&v, &cid, TEN).expect("should find");
    assert_eq!(at_ten.title, "second");
    assert!(current_program_at(&v, &cid, EIGHT).is_none());
}

#[test]
fn current_program_ignores_other_channels() {
    let cid = "c1".to_string();
    let v = vec![prog("c2", NINE, TEN, "other")];
    assert!(current_program_at(&v, &cid, NINE + 10).is_none());
}

#[test]
fn tonight_program_respects_duration_policy() {
    let cid = "c1".to_string();
    let target: i64 = 1_000_000;
    let a_start = target + 900;
    let a = prog("c1", a_start, a_start + 45 * 60, "a");
    let b_start = target + 5000;
    let b = prog("c1", b_start, b_start + 70 * 60, "b");
    let v = vec![b.clone(), a.clone()];
    let with_30 = tonight_program_at(&v, &cid, target, 30).expect("should find");
    assert_eq!(with_30.title, "a");
    let with_60 = tonight_program_at(&v, &cid, target, 60).expect("should find");
    assert_eq!(with_60.title, "b");
    let only_a = vec![a];
    assert!(tonight_program_at(&only_a, &cid, target, 60).is_none());
}

#[test]
fn tonight_program_skips_earlier_starts() {
    let cid = "c1".to_string();
    let target: i64 = 1_000_000;
    let before = prog("c1", target - 100, target + 7200, "before");
    let v = vec![before];
    assert!(tonight_program_at(&v, &cid, target, 30).is_none());
}

#[test]
fn upcoming_sorted_ascending_and_filtered() {
    let cid = "c1".to_string();
    let v = vec![
        prog("c1", TEN, ELEVEN, "later"),
        prog("c1", NINE, TEN, "sooner"),
        prog("c2", NINE, TEN, "other channel"),
        prog("c1", EIGHT, NINE, "past"),
    ];
    let r = upcoming_programs_at(&v, &cid, NINE);
    let titles: Vec<&str> = r.iter().map(|p| p.title.as_str()).collect();
    assert_eq!(titles, vec!["sooner", "later"]);
}

#[test]
fn upcoming_capped_at_limit() {
    let cid = "c1".to_string();
    let mut v: Vec<Program> = Vec::new();
    for k in 0..(UPCOMING_LIMIT + 50) {
        let s = NINE + (k as i64) * 10;
        v.push(prog("c1", s, s + 5, "p"));
    }
    let r = upcoming_programs_at(&v, &cid, NINE);
    assert_eq!(r.len(), UPCOMING_LIMIT);
    for w in r.windows(2) {
        assert!(w[0].start_time.utc_secs <= w[1].start_time.utc_secs);
    }
    assert_eq!(r[0].start_time.utc_secs, NINE);
}

#[test]
fn page_wraps_upcoming_results() {
    let cid = "c1".to_string();
    let v = vec![prog("c1", NINE, TEN, "p")];
    let page = get_programs_by_channel_id(&v, &cid);
    assert!(page.content.len() <= UPCOMING_LIMIT);
}

#[test]
fn clock_backed_lookups_never_cross_channels() {
    let cid = "c1".to_string();
    let v = vec![prog("c2", NINE, TEN, "other")];
    assert!(get_current_program_by_channel_id(&v, &cid).is_none());
    let empty: Vec<Program> = Vec::new();
    assert!(get_current_program_by_channel_id(&empty, &cid).is_none());
    assert!(get_tonight_program_by_channel_id(&empty, &cid, 30).is_none());
}

#[test]
fn search_rejects_uppercase_and_digits() {
    let v = vec![prog("c1", NINE, TEN, "Morning News")];
    assert_eq!(search_programs(&v, &"News".to_string()).len(), 0);
    assert_eq!(search_programs(&v, &"news7".to_string()).len(), 0);
    assert_eq!(search_programs(&v, &"news!".to_string()).len(), 0);
}

#[test]
fn search_matches_case_insensitively() {
    let mut with_desc = prog("c1", NINE, TEN, "Morning Show");
    with_desc.description = Some("All The News Today".to_string());
    let mut with_sub = prog("c1", TEN, ELEVEN, "Evening Show");
    with_sub.sub_title = Some("NEWSROOM".to_string());
    let plain = prog("c1", ELEVEN, ELEVEN + 3600, "Cooking");
    let v = vec![with_desc, with_sub, plain];
    let r = search_programs(&v, &"news".to_string());
    let titles: Vec<&str> = r.iter().map(|p| p.title.as_str()).collect();
    assert_eq!(titles, vec!["Morning Show", "Evening Show"]);
    let none = search_programs(&v, &"opera".to_string());
    assert_eq!(none.len(), 0);
}

#[test]
fn channels_by_package_all_is_unfiltered() {
    let channels = vec![chan("a"), chan("b")];
    let memberships = vec![("a".to_string(), "FR".to_string())];
    let r = get_channels_by_package(&channels, &memberships, "ALL".to_string());
    assert_eq!(r.len(), 2);
}

#[test]
fn channels_by_package_filters_by_membership() {
    let channels = vec![chan("a"), chan("b"), chan("c")];
    let memberships = vec![
        ("a".to_string(), "FR".to_string()),
        ("b".to_string(), "TNT".to_string()),
        ("c".to_string(), "FR".to_string()),
    ];
    let r = get_channels_by_package(&channels, &memberships, "FR".to_string());
    let ids: Vec<&str> = r.iter().map(|c| c.channel_id.as_str()).collect();
    assert_eq!(ids, vec!["a", "c"]);
    let none = get_channels_by_package(&channels, &memberships, "UK".to_string());
    assert_eq!(none.len(), 0);
}
