//! Maps feed-native programs to canonical program entities, normalizing
//! timestamps, multi-valued fields and missing values.
use crate::models::{Category, Program as ProgramModel};
use crate::program::{Program as ProgramEntity, ProgramView};
use crate::rating::{Rating, RatingView};
use crate::text::{
    has_no_char, is_trimmed, join_sep, join_with, lemma_split_join, lemma_split_on_len,
    lemma_split_pieces_no_sep, lemma_trim_id, lemma_trim_no_char, lemma_trim_trimmed, split_char,
    split_on, trim, trim_spaces,
};
use crate::timestamp::{parse_timestamp, timestamp_of_text, valid_timestamp_text, Timestamp};
use vstd::prelude::*;

verus! {

/// The fatal error of a conversion run: a feed timestamp that does not
/// parse. The run is aborted; malformed timestamps are never skipped.
#[derive(Clone, Copy, Debug, PartialEq, Eq, Structural)]
pub enum ConversionError {
    InvalidTimestamp,
}

/// The text of an optional field, empty when absent.
pub open spec fn opt_text(o: Option<String>) -> Seq<char> {
    match o {
        Some(s) => s@,
        None => Seq::<char>::empty(),
    }
}

/// Each category's text, empty for categories lacking text.
pub open spec fn category_texts_of(cats: Seq<Category>) -> Seq<Seq<char>> {
    cats.map_values(|c: Category| opt_text(c.content))
}

/// The texts of a program's categories, none when the element is absent.
pub open spec fn category_texts(cats: Option<Vec<Category>>) -> Seq<Seq<char>> {
    match cats {
        Some(v) => category_texts_of(v@),
        None => Seq::<Seq<char>>::empty(),
    }
}

/// Every piece trimmed of surrounding whitespace.
pub open spec fn trimmed_all(ps: Seq<Seq<char>>) -> Seq<Seq<char>> {
    ps.map_values(|p: Seq<char>| trim_spaces(p))
}

/// The normalized category list: texts joined with `", "`, re-split on
/// `','` and trimmed, preserving feed order.
pub open spec fn normalized_categories(cats: Option<Vec<Category>>) -> Seq<Seq<char>> {
    trimmed_all(split_on(join_sep(category_texts(cats), ", "@), ','))
}

/// The first sub-title when the feed supplies any, else empty.
pub open spec fn first_sub_title(st: Option<Vec<String>>) -> Seq<char> {
    match st {
        Some(v) => if v@.len() > 0 {
            v@[0]@
        } else {
            Seq::<char>::empty()
        },
        None => Seq::<char>::empty(),
    }
}

/// The first icon's source when the feed supplies any, else empty.
pub open spec fn first_icon(icons: Option<Vec<crate::models::Icon>>) -> Seq<char> {
    match icons {
        Some(v) => if v@.len() > 0 {
            v@[0].src@
        } else {
            Seq::<char>::empty()
        },
        None => Seq::<char>::empty(),
    }
}

/// The description's text, empty when element or text is absent.
pub open spec fn description_text(d: Option<crate::models::Description>) -> Seq<char> {
    match d {
        Some(x) => opt_text(x.content),
        None => Seq::<char>::empty(),
    }
}

/// The episode number's text, empty when element or text is absent.
pub open spec fn episode_text(e: Option<crate::models::EpisodeNumber>) -> Seq<char> {
    match e {
        Some(x) => opt_text(x.content),
        None => Seq::<char>::empty(),
    }
}

/// The rating with each sub-field independently defaulted to empty; the
/// aggregate is always present.
pub open spec fn rating_of_model(r: Option<crate::models::Rating>) -> RatingView {
    RatingView {
        system: Some(
            match r {
                Some(x) => x.system@,
                None => Seq::<char>::empty(),
            },
        ),
        value: Some(
            match r {
                Some(x) => match x.value {
                    Some(v) => opt_text(v.value),
                    None => Seq::<char>::empty(),
                },
                None => Seq::<char>::empty(),
            },
        ),
        icon: Some(
            match r {
                Some(x) => match x.icon {
                    Some(i) => i.src@,
                    None => Seq::<char>::empty(),
                },
                None => Seq::<char>::empty(),
            },
        ),
    }
}

/// Both of the program's timestamps parse; nothing else can fail.
pub open spec fn convertible_program(m: ProgramModel) -> bool {
    valid_timestamp_text(m.start@) && valid_timestamp_text(m.stop@)
}

/// `p` is the canonical entity for the feed program `m`.
pub open spec fn converted_program(m: ProgramModel, p: ProgramView) -> bool {
    &&& p.id == 0
    &&& p.channel_id == m.channel@
    &&& p.start_time == timestamp_of_text(m.start@)
    &&& p.end_time == timestamp_of_text(m.stop@)
    &&& p.title == m.title@
    &&& p.sub_title == Some(first_sub_title(m.sub_title))
    &&& p.description == Some(description_text(m.description))
    &&& p.categories == Some(normalized_categories(m.categories))
    &&& p.icon_url == Some(first_icon(m.icon))
    &&& p.episode_num == Some(episode_text(m.episode_number))
    &&& p.rating == Some(rating_of_model(m.rating))
}

/// Each category's text, in order, with empty strings for missing texts.
fn collect_category_texts(cats: &Vec<Category>) -> (r: Vec<String>)
    ensures
        r.deep_view() =~~= category_texts_of(cats@),
{
    let mut out: Vec<String> = Vec::new();
    let mut i: usize = 0;
    while i < cats.len()
        invariant
            i <= cats@.len(),
            out@.len() == i,
            forall|j: int| 0 <= j < i ==> out@[j]@ == opt_text(#[trigger] cats@[j].content),
        decreases cats@.len() - i,
    {
        let t = match &cats[i].content {
            Some(s) => s.clone(),
            None => String::new(),
        };
        out.push(t);
        i = i + 1;
    }
    proof {
        assert forall|j: int| 0 <= j < cats@.len() implies out.deep_view()[j]
            == category_texts_of(cats@)[j] by {
            assert(out.deep_view()[j] == out@[j]@);
        }
        assert(out.deep_view() =~~= category_texts_of(cats@));
    }
    out
}

/// Every piece trimmed, in order.
fn trim_all_pieces(pieces: &Vec<String>) -> (r: Vec<String>)
    ensures
        r.deep_view() =~~= trimmed_all(pieces.deep_view()),
{
    let mut out: Vec<String> = Vec::new();
    let mut i: usize = 0;
    while i < pieces.len()
        invariant
            i <= pieces@.len(),
            out@.len() == i,
            forall|j: int| 0 <= j < i ==> out@[j]@ == trim_spaces(#[trigger] pieces@[j]@),
        decreases pieces@.len() - i,
    {
        out.push(trim(pieces[i].as_str()));
        i = i + 1;
    }
    proof {
        assert forall|j: int| 0 <= j < pieces@.len() implies out.deep_view()[j]
            == trimmed_all(pieces.deep_view())[j] by {
            assert(out.deep_view()[j] == out@[j]@);
            assert(pieces.deep_view()[j] == pieces@[j]@);
        }
        assert(out.deep_view() =~~= trimmed_all(pieces.deep_view()));
    }
    out
}

/// Converts one feed program to its canonical entity; fails exactly when a
/// timestamp does not parse, and never drops the record otherwise.
pub fn model_to_entity(model: ProgramModel) -> (r: Result<ProgramEntity, ConversionError>)
    ensures
        r is Ok <==> convertible_program(model),
        r matches Ok(p) ==> converted_program(model, p@),
{
    let ProgramModel {
        title,
        sub_title,
        start,
        stop,
        channel,
        description,
        categories,
        icon,
        episode_number,
        rating,
    } = model;
    let start_time = match parse_timestamp(start.as_str()) {
        Some(t) => t,
        None => {
            return Err(ConversionError::InvalidTimestamp);
        },
    };
    let end_time = match parse_timestamp(stop.as_str()) {
        Some(t) => t,
        None => {
            return Err(ConversionError::InvalidTimestamp);
        },
    };

    let texts: Vec<String> = match &categories {
        Some(cats) => collect_category_texts(cats),
        None => Vec::new(),
    };
    proof {
        assert(texts.deep_view() =~~= category_texts(model.categories));
    }
    let joined = join_with(&texts, ", ");
    let pieces = split_char(joined.as_str(), ',');
    let cats_norm = trim_all_pieces(&pieces);
    proof {
        assert(cats_norm.deep_view() =~~= normalized_categories(model.categories));
    }

    let sub_title_val: String = match &sub_title {
        Some(v) => if v.len() > 0 {
            v[0].clone()
        } else {
            String::new()
        },
        None => String::new(),
    };
    let description_val: String = match description {
        Some(d) => match d.content {
            Some(c) => c,
            None => String::new(),
        },
        None => String::new(),
    };
    let icon_val: String = match &icon {
        Some(v) => if v.len() > 0 {
            v[0].src.clone()
        } else {
            String::new()
        },
        None => String::new(),
    };
    let episode_val: String = match episode_number {
        Some(e) => match e.content {
            Some(c) => c,
            None => String::new(),
        },
        None => String::new(),
    };
    let (rating_system, rating_value, rating_icon): (String, String, String) = match rating {
        Some(x) => {
            let crate::models::Rating { system, value, icon: ricon } = x;
            let v = match value {
                Some(rv) => match rv.value {
                    Some(t) => t,
                    None => String::new(),
                },
                None => String::new(),
            };
            let ic = match ricon {
                Some(i) => i.src,
                None => String::new(),
            };
            (system, v, ic)
        },
        None => (String::new(), String::new(), String::new()),
    };

    Ok(
        ProgramEntity {
            id: 0,
            channel_id: channel,
            start_time,
            end_time,
            title,
            sub_title: Some(sub_title_val),
            description: Some(description_val),
            categories: Some(cats_norm),
            icon_url: Some(icon_val),
            episode_num: Some(episode_val),
            rating: Some(
                Rating {
                    system: Some(rating_system),
                    value: Some(rating_value),
                    icon: Some(rating_icon),
                },
            ),
        },
    )
}

/// Converts a whole feed's programs, in feed order, dropping none; fails
/// exactly when some program's timestamp does not parse.
pub fn models_to_entities(models: Vec<ProgramModel>) -> (r: Result<
    Vec<ProgramEntity>,
    ConversionError,
>)
    ensures
        r is Ok <==> (forall|i: int|
            0 <= i < models@.len() ==> convertible_program(#[trigger] models@[i])),
        r matches Ok(v) ==> v@.len() == models@.len() && (forall|i: int|
            0 <= i < models@.len() ==> converted_program(models@[i], #[trigger] v@[i]@)),
{
    let ghost orig = models@;
    let mut rest = models;
    let mut rev: Vec<ProgramEntity> = Vec::new();
    #[verifier::loop_isolation(false)]
    while rest.len() > 0
        invariant
            rest@.len() + rev@.len() == orig.len(),
            rest@ == orig.take(rest@.len() as int),
            forall|j: int|
                0 <= j < rev@.len() ==> convertible_program(#[trigger] orig[orig.len() - 1 - j])
                    && converted_program(orig[orig.len() - 1 - j], rev@[j]@),
        decreases rest.len(),
    {
        let ghost k = rest@.len() as int;
        let m = rest.pop().unwrap();
        proof {
            assert(rest@ =~= orig.take(k - 1));
            assert(m == orig[k - 1]);
        }
        match model_to_entity(m) {
            Ok(p) => {
                rev.push(p);
            },
            Err(e) => {
                proof {
                    assert(!convertible_program(models@[k - 1]));
                }
                return Err(e);
            },
        }
    }
    proof {
        assert forall|i: int| 0 <= i < orig.len() implies convertible_program(
            #[trigger] orig[i],
        ) by {
            let j = orig.len() - 1 - i;
            assert(convertible_program(orig[orig.len() - 1 - j]));
        }
    }
    let mut out: Vec<ProgramEntity> = Vec::new();
    while rev.len() > 0
        invariant
            rev@.len() + out@.len() == orig.len(),
            forall|j: int|
                0 <= j < rev@.len() ==> convertible_program(#[trigger] orig[orig.len() - 1 - j])
                    && converted_program(orig[orig.len() - 1 - j], rev@[j]@),
            forall|k: int|
                0 <= k < out@.len() ==> convertible_program(#[trigger] orig[k])
                    && converted_program(orig[k], out@[k]@),
        decreases rev.len(),
    {
        let ghost jlast = rev@.len() - 1;
        proof {
            assert(converted_program(orig[orig.len() - 1 - jlast], rev@[jlast]@));
            assert(orig.len() - 1 - jlast == out@.len());
        }
        let e = rev.pop().unwrap();
        out.push(e);
    }
    Ok(out)
}

/// Mathematical image of a [`ProgramRow`].
pub ghost struct ProgramRowView {
    pub id: i32,
    pub channel_id: Seq<char>,
    pub start_secs: i64,
    pub end_secs: i64,
    pub title: Seq<char>,
    pub sub_title: Seq<char>,
    pub description: Seq<char>,
    pub categories: Seq<char>,
    pub icon_url: Seq<char>,
    pub episode_num: Seq<char>,
    pub rating_system: Seq<char>,
    pub rating_value: Seq<char>,
    pub rating_icon: Seq<char>,
}

/// A program in the store's flattened row shape: optional fields as plain
/// (possibly empty) strings, categories joined on `','`, times as naive
/// UTC seconds since the epoch.
#[derive(Debug, PartialEq)]
pub struct ProgramRow {
    pub id: i32,
    pub channel_id: String,
    pub start_secs: i64,
    pub end_secs: i64,
    pub title: String,
    pub sub_title: String,
    pub description: String,
    pub categories: String,
    pub icon_url: String,
    pub episode_num: String,
    pub rating_system: String,
    pub rating_value: String,
    pub rating_icon: String,
}

impl View for ProgramRow {
    type V = ProgramRowView;

    open spec fn view(&self) -> ProgramRowView {
        ProgramRowView {
            id: self.id,
            channel_id: self.channel_id@,
            start_secs: self.start_secs,
            end_secs: self.end_secs,
            title: self.title@,
            sub_title: self.sub_title@,
            description: self.description@,
            categories: self.categories@,
            icon_url: self.icon_url@,
            episode_num: self.episode_num@,
            rating_system: self.rating_system@,
            rating_value: self.rating_value@,
            rating_icon: self.rating_icon@,
        }
    }
}

impl Clone for ProgramRow {
    fn clone(&self) -> (r: Self)
        ensures
            r@ == self@,
    {
        ProgramRow {
            id: self.id,
            channel_id: self.channel_id.clone(),
            start_secs: self.start_secs,
            end_secs: self.end_secs,
            title: self.title.clone(),
            sub_title: self.sub_title.clone(),
            description: self.description.clone(),
            categories: self.categories.clone(),
            icon_url: self.icon_url.clone(),
            episode_num: self.episode_num.clone(),
            rating_system: self.rating_system.clone(),
            rating_value: self.rating_value.clone(),
            rating_icon: self.rating_icon.clone(),
        }
    }
}

/// The text of an optional field's image, empty when absent.
pub open spec fn or_empty(o: Option<Seq<char>>) -> Seq<char> {
    match o {
        Some(s) => s,
        None => Seq::<char>::empty(),
    }
}

/// The storage row a program flattens to: optional fields defaulted to
/// empty, categories joined on `','`, times as naive UTC seconds.
pub open spec fn row_view_of(p: ProgramView) -> ProgramRowView {
    ProgramRowView {
        id: p.id as i32,
        channel_id: p.channel_id,
        start_secs: p.start_time.utc_secs,
        end_secs: p.end_time.utc_secs,
        title: p.title,
        sub_title: or_empty(p.sub_title),
        description: or_empty(p.description),
        categories: join_sep(
            match p.categories {
                Some(cs) => cs,
                None => Seq::<Seq<char>>::empty(),
            },
            ","@,
        ),
        icon_url: or_empty(p.icon_url),
        episode_num: or_empty(p.episode_num),
        rating_system: match p.rating {
            Some(rv) => or_empty(rv.system),
            None => Seq::<char>::empty(),
        },
        rating_value: match p.rating {
            Some(rv) => or_empty(rv.value),
            None => Seq::<char>::empty(),
        },
        rating_icon: match p.rating {
            Some(rv) => or_empty(rv.icon),
            None => Seq::<char>::empty(),
        },
    }
}

/// `r` is the storage row for the program `p`.
pub open spec fn row_of_program(p: ProgramView, r: ProgramRowView) -> bool {
    r == row_view_of(p)
}

/// `q` is the entity hydrated from the row `r`: every optional present,
/// categories re-split and trimmed, times read back at UTC.
pub open spec fn program_of_row(r: ProgramRowView, q: ProgramView) -> bool {
    &&& q.id == r.id as int
    &&& q.channel_id == r.channel_id
    &&& q.start_time == (Timestamp { utc_secs: r.start_secs, offset_minutes: 0 })
    &&& q.end_time == (Timestamp { utc_secs: r.end_secs, offset_minutes: 0 })
    &&& q.title == r.title
    &&& q.sub_title == Some(r.sub_title)
    &&& q.description == Some(r.description)
    &&& q.categories == Some(trimmed_all(split_on(r.categories, ',')))
    &&& q.icon_url == Some(r.icon_url)
    &&& q.episode_num == Some(r.episode_num)
    &&& q.rating == Some(
        RatingView {
            system: Some(r.rating_system),
            value: Some(r.rating_value),
            icon: Some(r.rating_icon),
        },
    )
}

/// Flattens a program into the store's row shape.
pub fn entity_to_row(p: &ProgramEntity) -> (r: ProgramRow)
    ensures
        row_of_program(p@, r@),
{
    let empty_cats: Vec<String> = Vec::new();
    let categories = match &p.categories {
        Some(v) => join_with(v, ","),
        None => join_with(&empty_cats, ","),
    };
    let (rating_system, rating_value, rating_icon): (String, String, String) = match &p.rating {
        Some(rv) => (
            match &rv.system {
                Some(s) => s.clone(),
                None => String::new(),
            },
            match &rv.value {
                Some(s) => s.clone(),
                None => String::new(),
            },
            match &rv.icon {
                Some(s) => s.clone(),
                None => String::new(),
            },
        ),
        None => (String::new(), String::new(), String::new()),
    };
    ProgramRow {
        id: p.id,
        channel_id: p.channel_id.clone(),
        start_secs: p.start_time.utc_secs,
        end_secs: p.end_time.utc_secs,
        title: p.title.clone(),
        sub_title: match &p.sub_title {
            Some(s) => s.clone(),
            None => String::new(),
        },
        description: match &p.description {
            Some(s) => s.clone(),
            None => String::new(),
        },
        categories,
        icon_url: match &p.icon_url {
            Some(s) => s.clone(),
            None => String::new(),
        },
        episode_num: match &p.episode_num {
            Some(s) => s.clone(),
            None => String::new(),
        },
        rating_system,
        rating_value,
        rating_icon,
    }
}

/// Hydrates a program entity from the store's row shape.
pub fn row_to_entity(row: &ProgramRow) -> (q: ProgramEntity)
    ensures
        program_of_row(row@, q@),
{
    let pieces = split_char(row.categories.as_str(), ',');
    let cats = trim_all_pieces(&pieces);
    ProgramEntity {
        id: row.id,
        channel_id: row.channel_id.clone(),
        start_time: Timestamp { utc_secs: row.start_secs, offset_minutes: 0 },
        end_time: Timestamp { utc_secs: row.end_secs, offset_minutes: 0 },
        title: row.title.clone(),
        sub_title: Some(row.sub_title.clone()),
        description: Some(row.description.clone()),
        categories: Some(cats),
        icon_url: Some(row.icon_url.clone()),
        episode_num: Some(row.episode_num.clone()),
        rating: Some(
            Rating {
                system: Some(row.rating_system.clone()),
                value: Some(row.rating_value.clone()),
                icon: Some(row.rating_icon.clone()),
            },
        ),
    }
}

/// The program's shape survives the row trip: every optional is present,
/// its rating sub-fields are present, and its categories are non-empty,
/// free of commas and trimmed.
pub open spec fn row_ready(p: ProgramView) -> bool {
    &&& i32::MIN <= p.id <= i32::MAX
    &&& p.sub_title is Some
    &&& p.description is Some
    &&& p.icon_url is Some
    &&& p.episode_num is Some
    &&& p.categories matches Some(cs) && cs.len() >= 1 && (forall|i: int|
        0 <= i < cs.len() ==> has_no_char(#[trigger] cs[i], ',') && is_trimmed(cs[i]))
    &&& p.rating matches Some(rv) && rv.system is Some && rv.value is Some && rv.icon is Some
}

/// Conversion always leaves a program ready for the row trip.
pub proof fn lemma_converted_row_ready(m: ProgramModel, p: ProgramView)
    requires
        converted_program(m, p),
    ensures
        row_ready(p),
{
    let joined = join_sep(category_texts(m.categories), ", "@);
    let pieces = split_on(joined, ',');
    lemma_split_on_len(joined, ',');
    lemma_split_pieces_no_sep(joined, ',');
    let cs = normalized_categories(m.categories);
    assert(cs.len() == pieces.len());
    assert forall|i: int| 0 <= i < cs.len() implies has_no_char(#[trigger] cs[i], ',')
        && is_trimmed(cs[i]) by {
        assert(cs[i] == trim_spaces(pieces[i]));
        lemma_trim_no_char(pieces[i], ',');
        lemma_trim_trimmed(pieces[i]);
    }
}

/// Round trip: a program mapped to the storage row shape and back yields
/// field-for-field equal categories and rating sub-fields, and every other
/// field equal too, up to the UTC offset the row does not keep.
pub proof fn lemma_program_row_round_trip(p: ProgramView, r: ProgramRowView, q: ProgramView)
    requires
        row_ready(p),
        row_of_program(p, r),
        program_of_row(r, q),
    ensures
        q.categories == p.categories,
        q.rating == p.rating,
        q.id == p.id,
        q.channel_id == p.channel_id,
        q.title == p.title,
        q.sub_title == p.sub_title,
        q.description == p.description,
        q.icon_url == p.icon_url,
        q.episode_num == p.episode_num,
        q.start_time.utc_secs == p.start_time.utc_secs,
        q.end_time.utc_secs == p.end_time.utc_secs,
{
    let cs = p.categories.unwrap();
    reveal_strlit(",");
    assert(","@ =~= seq![',']);
    lemma_split_join(cs, ',');
    assert(r.categories == join_sep(cs, seq![',']));
    assert(split_on(r.categories, ',') =~~= cs);
    assert forall|i: int| 0 <= i < cs.len() implies trimmed_all(split_on(r.categories, ','))[i]
        == cs[i] by {
        assert(trimmed_all(split_on(r.categories, ','))[i] == trim_spaces(
            split_on(r.categories, ',')[i],
        ));
        lemma_trim_id(cs[i]);
    }
    assert(trimmed_all(split_on(r.categories, ',')) =~~= cs);
}

} // verus!
