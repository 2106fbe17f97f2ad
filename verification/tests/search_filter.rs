use docker_pane::search::filtered_containers;
use docker_pane::Container;

fn named(name: &str, running: bool) -> Container {
    Container {
        id: String::new(),
        name: name.to_string(),
        image: String::new(),
        running,
        status: String::new(),
    }
}

fn names(v: &[Container]) -> Vec<&str> {
    v.iter().map(|c| c.name.as_str()).collect()
}

fn query(s: &str) -> Vec<char> {
    s.chars().collect()
}

#[test]
fn empty_query_returns_the_list_unchanged() {
    let cs = vec![named("web-1", true), named("db-1", false), named("webhook", true)];
    let out = filtered_containers(&cs, &query(""));
    assert_eq!(names(&out), vec!["web-1", "db-1", "webhook"]);
}

#[test]
fn web_query_keeps_web_names_and_excludes_db() {
    let cs = vec![named("web-1", true), named("db-1", false), named("webhook", true)];
    // entered character by character, db-1 never scores positively
    for q in ["w", "we", "web"] {
        let out = filtered_containers(&cs, &query(q));
        assert!(out.iter().all(|c| c.name != "db-1"), "query {q:?}");
        assert!(out.iter().any(|c| c.name == "web-1"), "query {q:?}");
        assert!(out.iter().any(|c| c.name == "webhook"), "query {q:?}");
        assert_eq!(out.len(), 2, "query {q:?}");
    }
}

#[test]
fn equal_scores_keep_original_order() {
    // "web-1" and "webhook" score the same against "web"; the tie keeps
    // the installed order
    let cs = vec![named("web-1", true), named("db-1", false), named("webhook", true)];
    let out = filtered_containers(&cs, &query("web"));
    assert_eq!(names(&out), vec!["web-1", "webhook"]);
}

#[test]
fn better_match_ranks_first() {
    // the exact name scores higher than the partial one, overtaking the
    // installed order
    let cs = vec![named("web-1", true), named("webhook", true)];
    let out = filtered_containers(&cs, &query("webhook"));
    assert_eq!(names(&out)[0], "webhook");
    assert!(out.len() >= 1);
}

#[test]
fn unrelated_query_filters_everything_out() {
    let cs = vec![named("web-1", true), named("db-1", false)];
    let out = filtered_containers(&cs, &query("zzz"));
    assert_eq!(out.len(), 0);
}
