use xmltv_guide::models;
use xmltv_guide::program_converter::{entity_to_row, model_to_entity, row_to_entity};

fn converted_program() -> xmltv_guide::program::Program {
    let m = models::Program {
        title: "The Title".to_string(),
        sub_title: Some(vec!["Part One".to_string()]),
        start: "20240115203000 +0200".to_string(),
        stop: "20240115213000 +0200".to_string(),
        channel: "c1".to_string(),
        description: Some(models::Description {
            lang: "en".to_string(),
            content: Some("A description".to_string()),
        }),
        categories: Some(vec![
            models::Category { lang: "en".to_string(), content: Some("Action".to_string()) },
            models::Category { lang: "en".to_string(), content: Some("Drama".to_string()) },
        ]),
        icon: Some(vec![models::Icon { src: "http://i/p.png".to_string() }]),
        episode_number: Some(models::EpisodeNumber {
            system: "onscreen".to_string(),
            content: Some("S1E2".to_string()),
        }),
        rating: Some(models::Rating {
            system: "CSA".to_string(),
            value: Some(models::RatingValue { value: Some("-10".to_string()) }),
            icon: Some(models::Icon { src: "http://i/r.png".to_string() }),
        }),
    };
    model_to_entity(m).expect("should convert")
}

#[test]
fn row_flattens_fields() {
    let p = converted_program();
    let row = entity_to_row(&p);
    assert_eq!(row.id, 0);
    assert_eq!(row.channel_id, "c1");
    assert_eq!(row.start_secs, 1705343400);
    assert_eq!(row.end_secs, 1705347000);
    assert_eq!(row.title, "The Title");
    assert_eq!(row.sub_title, "Part One");
    assert_eq!(row.description, "A description");
    assert_eq!(row.categories, "Action,Drama");
    assert_eq!(row.icon_url, "http://i/p.png");
    assert_eq!(row.episode_num, "S1E2");
    assert_eq!(row.rating_system, "CSA");
    assert_eq!(row.rating_value, "-10");
    assert_eq!(row.rating_icon, "http://i/r.png");
}

#[test]
fn row_round_trip_keeps_categories_and_rating() {
    let p = converted_program();
    let row = entity_to_row(&p);
    let q = row_to_entity(&row);
    assert_eq!(q.categories, p.categories);
    assert_eq!(q.rating, p.rating);
    assert_eq!(q.id, p.id);
    assert_eq!(q.channel_id, p.channel_id);
    assert_eq!(q.title, p.title);
    assert_eq!(q.sub_title, p.sub_title);
    assert_eq!(q.description, p.description);
    assert_eq!(q.icon_url, p.icon_url);
    assert_eq!(q.episode_num, p.episode_num);
    assert_eq!(q.start_time.utc_secs, p.start_time.utc_secs);
    assert_eq!(q.end_time.utc_secs, p.end_time.utc_secs);
    assert_eq!(q.start_time.offset_minutes, 0);
}

#[test]
fn hydration_splits_and_trims_categories() {
    let p = converted_program();
    let mut row = entity_to_row(&p);
    row.categories = " Action , Drama ".to_string();
    let q = row_to_entity(&row);
    assert_eq!(q.categories, Some(vec!["Action".to_string(), "Drama".to_string()]));
}
