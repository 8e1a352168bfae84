use xmltv_guide::channel_converter;
use xmltv_guide::models;
use xmltv_guide::program_converter::{self, ConversionError};

fn feed_channel(id: &str, name: &str, icon: Option<&str>) -> models::Channel {
    models::Channel {
        id: id.to_string(),
        display_name: models::DisplayName { content: name.to_string() },
        icon: icon.map(|s| models::Icon { src: s.to_string() }),
    }
}

fn feed_program(channel: &str, start: &str, stop: &str) -> models::Program {
    models::Program {
        title: "Title".to_string(),
        sub_title: None,
        start: start.to_string(),
        stop: stop.to_string(),
        channel: channel.to_string(),
        description: None,
        categories: None,
        icon: None,
        episode_number: None,
        rating: None,
    }
}

fn cat(text: Option<&str>) -> models::Category {
    models::Category { lang: "en".to_string(), content: text.map(|s| s.to_string()) }
}

#[test]
fn channel_fields_pass_through() {
    let c = channel_converter::model_to_entity(feed_channel("c1", "One", Some("http://i/1.png")));
    assert_eq!(c.id, 0);
    assert_eq!(c.channel_id, "c1");
    assert_eq!(c.name, "One");
    assert_eq!(c.icon_url, "http://i/1.png");
}

#[test]
fn channel_icon_defaults_to_empty() {
    let c = channel_converter::model_to_entity(feed_channel("c2", "Two", None));
    assert_eq!(c.icon_url, "");
}

#[test]
fn channel_conversion_drops_none() {
    let models = vec![
        feed_channel("a", "A", None),
        feed_channel("b", "B", None),
        feed_channel("c", "C", None),
    ];
    let entities = channel_converter::models_to_entities(models);
    assert_eq!(entities.len(), 3);
    assert_eq!(entities[0].channel_id, "a");
    assert_eq!(entities[1].channel_id, "b");
    assert_eq!(entities[2].channel_id, "c");
}

#[test]
fn program_times_are_normalized_to_utc() {
    let p = program_converter::model_to_entity(feed_program(
        "c1",
        "20240115203000 +0200",
        "20240115213000 +0200",
    ))
    .expect("should convert");
    assert_eq!(p.id, 0);
    assert_eq!(p.channel_id, "c1");
    assert_eq!(p.start_time.utc_secs, 1705343400);
    assert_eq!(p.end_time.utc_secs, 1705347000);
    assert_eq!(p.start_time.offset_minutes, 120);
}

#[test]
fn program_conversion_fails_on_bad_timestamp() {
    let r = program_converter::model_to_entity(feed_program(
        "c1",
        "not a timestamp spell",
        "20240115213000 +0200",
    ));
    assert_eq!(r.unwrap_err(), ConversionError::InvalidTimestamp);
    let r2 = program_converter::model_to_entity(feed_program(
        "c1",
        "20240115203000 +0200",
        "20240230213000 +0200",
    ));
    assert_eq!(r2.unwrap_err(), ConversionError::InvalidTimestamp);
}

#[test]
fn categories_are_joined_split_and_trimmed() {
    let mut m = feed_program("c1", "20240115203000 +0200", "20240115213000 +0200");
    m.categories = Some(vec![cat(Some("Action")), cat(Some("Drama"))]);
    let p = program_converter::model_to_entity(m).unwrap();
    assert_eq!(p.categories, Some(vec!["Action".to_string(), "Drama".to_string()]));
}

#[test]
fn category_with_comma_splits_in_two() {
    let mut m = feed_program("c1", "20240115203000 +0200", "20240115213000 +0200");
    m.categories = Some(vec![cat(Some("Sci-Fi, Adventure"))]);
    let p = program_converter::model_to_entity(m).unwrap();
    assert_eq!(p.categories, Some(vec!["Sci-Fi".to_string(), "Adventure".to_string()]));
}

#[test]
fn category_without_text_becomes_empty_string() {
    let mut m = feed_program("c1", "20240115203000 +0200", "20240115213000 +0200");
    m.categories = Some(vec![cat(None), cat(Some("News"))]);
    let p = program_converter::model_to_entity(m).unwrap();
    assert_eq!(p.categories, Some(vec!["".to_string(), "News".to_string()]));
}

#[test]
fn absent_categories_become_one_empty_entry() {
    let p = program_converter::model_to_entity(feed_program(
        "c1",
        "20240115203000 +0200",
        "20240115213000 +0200",
    ))
    .unwrap();
    assert_eq!(p.categories, Some(vec!["".to_string()]));
}

#[test]
fn sub_title_takes_first_value() {
    let mut m = feed_program("c1", "20240115203000 +0200", "20240115213000 +0200");
    m.sub_title = Some(vec!["First".to_string(), "Second".to_string()]);
    let p = program_converter::model_to_entity(m).unwrap();
    assert_eq!(p.sub_title, Some("First".to_string()));
}

#[test]
fn icon_takes_first_entry() {
    let mut m = feed_program("c1", "20240115203000 +0200", "20240115213000 +0200");
    m.icon = Some(vec![
        models::Icon { src: "http://i/a.png".to_string() },
        models::Icon { src: "http://i/b.png".to_string() },
    ]);
    let p = program_converter::model_to_entity(m).unwrap();
    assert_eq!(p.icon_url, Some("http://i/a.png".to_string()));
}

#[test]
fn missing_optionals_default_to_empty_strings() {
    let p = program_converter::model_to_entity(feed_program(
        "c1",
        "20240115203000 +0200",
        "20240115213000 +0200",
    ))
    .unwrap();
    assert_eq!(p.sub_title, Some("".to_string()));
    assert_eq!(p.description, Some("".to_string()));
    assert_eq!(p.icon_url, Some("".to_string()));
    assert_eq!(p.episode_num, Some("".to_string()));
    let rating = p.rating.unwrap();
    assert_eq!(rating.system, Some("".to_string()));
    assert_eq!(rating.value, Some("".to_string()));
    assert_eq!(rating.icon, Some("".to_string()));
}

#[test]
fn rating_sub_fields_default_independently() {
    let mut m = feed_program("c1", "20240115203000 +0200", "20240115213000 +0200");
    m.rating = Some(models::Rating {
        system: "CSA".to_string(),
        value: Some(models::RatingValue { value: None }),
        icon: None,
    });
    let p = program_converter::model_to_entity(m).unwrap();
    let rating = p.rating.unwrap();
    assert_eq!(rating.system, Some("CSA".to_string()));
    assert_eq!(rating.value, Some("".to_string()));
    assert_eq!(rating.icon, Some("".to_string()));
}

#[test]
fn program_conversion_drops_none_and_aborts_on_first_error() {
    let good1 = feed_program("a", "20240115203000 +0200", "20240115213000 +0200");
    let good2 = feed_program("b", "20240115213000 +0200", "20240115223000 +0200");
    let out = program_converter::models_to_entities(vec![good1, good2]).unwrap();
    assert_eq!(out.len(), 2);
    assert_eq!(out[0].channel_id, "a");
    assert_eq!(out[1].channel_id, "b");

    let good = feed_program("a", "20240115203000 +0200", "20240115213000 +0200");
    let bad = feed_program("b", "garbage", "20240115223000 +0200");
    let r = program_converter::models_to_entities(vec![good, bad]);
    assert!(r.is_err());
}
