use pixie_wasm::Catalog;
use pixie_wasm::LoadError;
use pixie_wasm::LoadState;
use pixie_wasm::Model;
use pixie_wasm::TickEffect;

const HEADER: &str = "anime_id,name,genre,type,episodes,rating";

fn dataset(rows: &[&str]) -> String {
    let mut body = String::from(HEADER);
    for row in rows {
        body.push('\n');
        body.push_str(row);
    }
    body
}

fn loaded_model(rows: &[&str]) -> Model {
    let mut m = Model::create();
    let first = m.load_tick(None).unwrap();
    assert!(first.send_request);
    let eff = m.load_tick(Some(dataset(rows))).unwrap();
    assert!(eff.redraw);
    assert_eq!(m.load_state(), LoadState::Done);
    m
}

#[test]
fn first_tick_sends_the_request_once() {
    let mut m = Model::create();
    assert_eq!(m.load_state(), LoadState::NotStarted);
    let eff = m.load_tick(None).unwrap();
    assert_eq!(eff, TickEffect { redraw: false, send_request: true });
    assert_eq!(m.load_state(), LoadState::Sent);
    let eff = m.load_tick(None).unwrap();
    assert_eq!(eff, TickEffect { redraw: false, send_request: false });
    assert_eq!(m.load_state(), LoadState::Sent);
}

#[test]
fn load_pass_builds_catalog_and_index() {
    let m = loaded_model(&[
        "1,A,\"comedy, action\",TV,26,8.0",
        "2,B,action,TV,12,6.0",
    ]);
    let entries = m.catalog().entries();
    assert_eq!(entries.len(), 2);
    assert_eq!(entries[0], ("A".to_string(), 800));
    assert_eq!(entries[1], ("B".to_string(), 600));
    assert_eq!(m.rating_centi(&"A".to_string()), 800);
    assert_eq!(m.rating_centi(&"B".to_string()), 600);
    let ix = m.index();
    assert_eq!(ix.objects(), &vec!["A".to_string(), "B".to_string()]);
    assert_eq!(ix.tags(), &vec!["comedy".to_string(), "action".to_string()]);
    assert_eq!(
        ix.pairs(),
        &vec![
            ("A".to_string(), "comedy".to_string()),
            ("A".to_string(), "action".to_string()),
            ("B".to_string(), "action".to_string()),
        ]
    );
}

#[test]
fn unknown_identifier_rates_zero() {
    let m = loaded_model(&["1,A,comedy,TV,26,8.0"]);
    assert_eq!(m.rating_centi(&"missing".to_string()), 0);
}

#[test]
fn unparseable_rating_defaults_to_zero() {
    let m = loaded_model(&["1,A,comedy,TV,26,N/A"]);
    assert_eq!(m.rating_centi(&"A".to_string()), 0);
}

#[test]
fn duplicate_identifier_keeps_one_entry() {
    let m = loaded_model(&["1,A,comedy,TV,26,8.0", "2,A,action,TV,12,6.0"]);
    assert_eq!(m.catalog().entries(), &vec![("A".to_string(), 600)]);
}

#[test]
fn tick_after_done_is_a_no_op() {
    let mut m = loaded_model(&["1,A,comedy,TV,26,8.0"]);
    let eff = m.load_tick(Some(dataset(&["2,B,action,TV,12,6.0"]))).unwrap();
    assert_eq!(eff, TickEffect { redraw: false, send_request: false });
    assert_eq!(m.catalog().entries().len(), 1);
    assert_eq!(m.load_state(), LoadState::Done);
}

#[test]
fn short_record_is_a_fatal_parse_error() {
    let mut m = Model::create();
    m.load_tick(None).unwrap();
    let body = "a,b,c\n1,A,comedy";
    let err = m.load_tick(Some(body.to_string())).unwrap_err();
    assert_eq!(err, LoadError::MissingFields);
    assert_eq!(m.load_state(), LoadState::Sent);
    assert_eq!(m.catalog().entries().len(), 0);
    assert_eq!(m.data_message(), "Loading data...");
}

#[test]
fn unreadable_record_is_a_fatal_parse_error() {
    let mut m = Model::create();
    m.load_tick(None).unwrap();
    let body = dataset(&["1,A,comedy,TV,26,8.0,extra"]);
    let err = m.load_tick(Some(body)).unwrap_err();
    assert_eq!(err, LoadError::Unreadable);
    assert_eq!(m.load_state(), LoadState::Sent);
}

#[test]
fn status_line_follows_load_state() {
    let mut m = Model::create();
    assert_eq!(m.data_message(), "Loading data...");
    m.load_tick(None).unwrap();
    assert_eq!(m.data_message(), "Loading data...");
    m.load_tick(Some(dataset(&[]))).unwrap();
    assert_eq!(m.data_message(), "Data loaded");
}

#[test]
fn empty_query_clears_the_suggestion() {
    let mut m = loaded_model(&["1,Naruto,action,TV,220,7.81"]);
    m.query_input(&"ruto".to_string(), &vec![]);
    assert_eq!(m.suggested_query(), "Naruto");
    m.query_input(&"".to_string(), &vec![]);
    assert_eq!(m.suggested_query(), "");
}

#[test]
fn short_query_keeps_the_previous_suggestion() {
    let mut m = loaded_model(&["1,Naruto,action,TV,220,7.81"]);
    m.query_input(&"ruto".to_string(), &vec![]);
    assert_eq!(m.suggested_query(), "Naruto");
    m.query_input(&"xyz".to_string(), &vec![]);
    assert_eq!(m.suggested_query(), "Naruto");
    m.query_input(&"B".to_string(), &vec![]);
    assert_eq!(m.suggested_query(), "Naruto");
}

#[test]
fn long_query_matches_case_insensitively() {
    let mut m = loaded_model(&[
        "1,Steins;Gate,thriller,TV,24,9.17",
        "2,Naruto,action,TV,220,7.81",
    ]);
    m.query_input(&"NARU".to_string(), &vec![]);
    assert_eq!(m.suggested_query(), "Naruto");
    m.query_input(&"gate".to_string(), &vec![]);
    assert_eq!(m.suggested_query(), "Steins;Gate");
}

#[test]
fn long_query_without_match_clears_the_suggestion() {
    let mut m = loaded_model(&["1,A,comedy,TV,26,8.0", "2,B,action,TV,12,6.0"]);
    m.query_input(&"B".to_string(), &vec![]);
    assert_eq!(m.suggested_query(), "");
    m.query_input(&"Ac".to_string(), &vec![]);
    assert_eq!(m.suggested_query(), "");
    m.query_input(&"acti".to_string(), &vec![]);
    assert_eq!(m.suggested_query(), "");
}

#[test]
fn recommendation_follows_the_ranked_head_at_any_length() {
    let mut m = loaded_model(&["1,A,comedy,TV,26,8.0", "2,B,action,TV,12,6.0"]);
    m.query_input(&"B".to_string(), &vec!["B".to_string(), "A".to_string()]);
    assert_eq!(m.recommendation(), "B");
    m.query_input(&"long query".to_string(), &vec!["A".to_string()]);
    assert_eq!(m.recommendation(), "A");
    m.query_input(&"x".to_string(), &vec![]);
    assert_eq!(m.recommendation(), "");
}

#[test]
fn redraw_rises_exactly_when_the_pair_changes() {
    let mut m = loaded_model(&["1,Naruto,action,TV,220,7.81"]);
    let ranked = vec!["Naruto".to_string()];
    assert!(m.query_input(&"ruto".to_string(), &ranked));
    assert!(!m.query_input(&"ruto".to_string(), &ranked));
    assert!(m.query_input(&"ruto".to_string(), &vec![]));
    assert!(m.query_input(&"".to_string(), &vec!["Naruto".to_string()]));
}

#[test]
fn empty_dataset_always_answers_empty() {
    let mut m = Model::create();
    m.load_tick(None).unwrap();
    let eff = m.load_tick(Some(dataset(&[]))).unwrap();
    assert!(eff.redraw);
    assert_eq!(m.catalog().entries().len(), 0);
    for q in ["", "x", "abcd", "anything at all"] {
        let redraw = m.query_input(&q.to_string(), &vec![]);
        assert_eq!(m.suggested_query(), "");
        assert_eq!(m.recommendation(), "");
        assert!(!redraw);
    }
}

#[test]
fn catalog_substring_search_follows_insertion_order() {
    let mut c = Catalog::new();
    c.insert("Monster".to_string(), 886);
    c.insert("Mononoke".to_string(), 846);
    assert_eq!(c.suggest("mono"), "Mononoke");
    assert_eq!(c.suggest("mon"), "Monster");
    assert_eq!(c.suggest("zzz"), "");
    assert_eq!(c.len(), 2);
}

#[test]
fn catalog_insert_replaces_in_place() {
    let mut c = Catalog::new();
    c.insert("A".to_string(), 100);
    c.insert("B".to_string(), 200);
    c.insert("A".to_string(), 300);
    assert_eq!(c.entries(), &vec![("A".to_string(), 300), ("B".to_string(), 200)]);
    assert_eq!(c.get_centi(&"A".to_string()), 300);
    assert_eq!(c.get_centi(&"C".to_string()), 0);
}

#[test]
fn query_field_stays_bound_to_its_initial_value() {
    let mut m = loaded_model(&["1,A,comedy,TV,26,8.0"]);
    m.query_input(&"abcd".to_string(), &vec![]);
    assert_eq!(m.query(), "");
}

#[test]
fn blank_categories_are_not_registered() {
    let m = loaded_model(&["1,A,\"comedy,, action \",TV,26,8.0"]);
    let ix = m.index();
    assert_eq!(ix.tags(), &vec!["comedy".to_string(), "action".to_string()]);
    assert_eq!(
        ix.pairs(),
        &vec![
            ("A".to_string(), "comedy".to_string()),
            ("A".to_string(), "action".to_string()),
        ]
    );
}
