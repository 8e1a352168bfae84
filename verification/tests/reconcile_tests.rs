use xmltv_guide::channel::Channel;
use xmltv_guide::program::Program;
use xmltv_guide::reconcile::reconcile_feed;
use xmltv_guide::timestamp::Timestamp;

fn chan(id: &str) -> Channel {
    Channel {
        id: 0,
        channel_id: id.to_string(),
        name: id.to_uppercase(),
        icon_url: "".to_string(),
    }
}

fn prog(channel: &str, start: i64) -> Program {
    Program {
        id: 0,
        channel_id: channel.to_string(),
        start_time: Timestamp { utc_secs: start, offset_minutes: 0 },
        end_time: Timestamp { utc_secs: start + 3600, offset_minutes: 0 },
        title: "T".to_string(),
        sub_title: Some("".to_string()),
        description: Some("".to_string()),
        categories: Some(vec!["".to_string()]),
        icon_url: Some("".to_string()),
        episode_num: Some("".to_string()),
        rating: None,
    }
}

fn ids(v: &[&str]) -> Vec<String> {
    v.iter().map(|s| s.to_string()).collect()
}

#[test]
fn partitions_known_and_unknown() {
    let base = ids(&["a", "b"]);
    let feed = vec![chan("a"), chan("c"), chan("b"), chan("d")];
    let r = reconcile_feed(&base, &feed, &Vec::new());
    let known: Vec<&str> = r.known.iter().map(|c| c.channel_id.as_str()).collect();
    let unknown: Vec<&str> = r.unknown.iter().map(|c| c.channel_id.as_str()).collect();
    assert_eq!(known, vec!["a", "b"]);
    assert_eq!(unknown, vec!["c", "d"]);
    assert_eq!(known.len() + unknown.len(), feed.len());
    for k in &known {
        assert!(!unknown.contains(k));
    }
}

#[test]
fn drops_programs_of_known_channels() {
    let base = ids(&["a"]);
    let feed = vec![chan("a"), chan("c")];
    let programs = vec![prog("a", 100), prog("c", 200), prog("a", 300), prog("z", 400)];
    let r = reconcile_feed(&base, &feed, &programs);
    let kept: Vec<&str> = r.programs.iter().map(|p| p.channel_id.as_str()).collect();
    assert_eq!(kept, vec!["c", "z"]);
}

#[test]
fn accumulates_across_feeds() {
    let base = ids(&["c1"]);
    let first_feed = vec![chan("c2")];
    let r1 = reconcile_feed(&base, &first_feed, &Vec::new());
    assert_eq!(r1.unknown.len(), 1);
    assert_eq!(r1.unknown[0].channel_id, "c2");

    let second_feed = vec![chan("c2"), chan("c3")];
    let r2 = reconcile_feed(&r1.updated_ids, &second_feed, &Vec::new());
    let known: Vec<&str> = r2.known.iter().map(|c| c.channel_id.as_str()).collect();
    let unknown: Vec<&str> = r2.unknown.iter().map(|c| c.channel_id.as_str()).collect();
    assert_eq!(known, vec!["c2"]);
    assert_eq!(unknown, vec!["c3"]);
}

#[test]
fn updated_ids_hold_prior_and_feed_keys() {
    let base = ids(&["a"]);
    let feed = vec![chan("b")];
    let r = reconcile_feed(&base, &feed, &Vec::new());
    assert!(r.updated_ids.contains(&"a".to_string()));
    assert!(r.updated_ids.contains(&"b".to_string()));
}
