use docker_pane::docker::{parse_docker_containers, ParseError};

fn line(id: &str, name: &str, image: &str, state: &str, status: &str) -> String {
    format!(
        "{{\"ID\":\"{}\",\"Names\":\"{}\",\"Image\":\"{}\",\"State\":\"{}\",\"Status\":\"{}\"}}",
        id, name, image, state, status
    )
}

#[test]
fn parses_one_record_per_line_with_exact_fields() {
    let input = format!(
        "{}\n{}",
        line("1", "db-1", "postgres", "exited", "Exited (0) 2 hours ago"),
        line("2", "web-1", "nginx", "running", "Up 2 hours")
    );
    let out = parse_docker_containers(&input).unwrap();
    assert_eq!(out.len(), 2);
    // running-before-stopped sort puts web-1 first
    assert_eq!(out[0].name, "web-1");
    assert_eq!(out[0].id, "2");
    assert_eq!(out[0].image, "nginx");
    assert!(out[0].running);
    assert_eq!(out[0].status, "Up 2 hours");
    assert_eq!(out[1].name, "db-1");
    assert!(!out[1].running);
}

#[test]
fn running_is_state_equal_running_exactly() {
    let input = format!(
        "{}\n{}\n{}",
        line("1", "a", "img", "Running", "x"),
        line("2", "b", "img", "runnin", "x"),
        line("3", "c", "img", "running", "x")
    );
    let out = parse_docker_containers(&input).unwrap();
    assert_eq!(out[0].name, "c");
    assert!(out[0].running);
    assert!(!out[1].running);
    assert!(!out[2].running);
}

#[test]
fn two_lines_running_sorts_first() {
    let input = format!(
        "{}\n{}\n",
        line("10", "stopped-one", "img", "exited", "Exited"),
        line("11", "running-one", "img", "running", "Up")
    );
    let out = parse_docker_containers(&input).unwrap();
    assert_eq!(out[0].name, "running-one");
    assert_eq!(out[1].name, "stopped-one");
}

#[test]
fn sort_is_stable_within_each_group() {
    let input = format!(
        "{}\n{}\n{}\n{}",
        line("1", "s1", "img", "exited", "x"),
        line("2", "r1", "img", "running", "x"),
        line("3", "s2", "img", "exited", "x"),
        line("4", "r2", "img", "running", "x")
    );
    let out = parse_docker_containers(&input).unwrap();
    let names: Vec<&str> = out.iter().map(|c| c.name.as_str()).collect();
    assert_eq!(names, vec!["r1", "r2", "s1", "s2"]);
}

#[test]
fn invalid_json_line_fails() {
    let input = format!("{}\nnot json at all", line("1", "a", "img", "running", "x"));
    assert_eq!(parse_docker_containers(&input), Err(ParseError::InvalidJson));
}

#[test]
fn non_string_value_fails() {
    // a JSON object whose values are not all strings is not a listing line
    let input = "{\"Names\":\"a\",\"State\":\"running\",\"Labels\":7}";
    assert_eq!(parse_docker_containers(input), Err(ParseError::InvalidJson));
}

#[test]
fn missing_names_key_fails() {
    let input = "{\"ID\":\"1\",\"State\":\"running\"}";
    assert_eq!(parse_docker_containers(input), Err(ParseError::MissingKey));
}

#[test]
fn missing_state_key_fails() {
    let input = "{\"ID\":\"1\",\"Names\":\"a\"}";
    assert_eq!(parse_docker_containers(input), Err(ParseError::MissingKey));
}

#[test]
fn first_bad_line_decides_the_error() {
    let input = format!("{{\"Names\":\"a\"}}\nnot json");
    assert_eq!(parse_docker_containers(&input), Err(ParseError::MissingKey));
}

#[test]
fn optional_fields_default_to_empty() {
    let input = "{\"Names\":\"bare\",\"State\":\"running\"}";
    let out = parse_docker_containers(input).unwrap();
    assert_eq!(out.len(), 1);
    assert_eq!(out[0].name, "bare");
    assert!(out[0].running);
    assert_eq!(out[0].id, "");
    assert_eq!(out[0].image, "");
    assert_eq!(out[0].status, "");
}

#[test]
fn empty_input_yields_empty_list() {
    assert_eq!(parse_docker_containers("").unwrap(), vec![]);
}

#[test]
fn blank_lines_and_carriage_returns_are_tolerated() {
    let input = format!(
        "{}\r\n\n{}\r\n",
        line("1", "a", "img", "running", "x"),
        line("2", "b", "img", "exited", "x")
    );
    let out = parse_docker_containers(&input).unwrap();
    assert_eq!(out.len(), 2);
    assert_eq!(out[0].name, "a");
    assert_eq!(out[1].name, "b");
}
