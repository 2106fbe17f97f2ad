use docker_pane::docker::{
    close_container, delete_container, open_container, request_docker_containers, start_container,
    CommandTag,
};
use docker_pane::render::{
    count_header, error_line, get_running_table_with_size, help_line, search_line,
};
use docker_pane::Container;

fn full(id: &str, name: &str, image: &str, running: bool, status: &str) -> Container {
    Container {
        id: id.to_string(),
        name: name.to_string(),
        image: image.to_string(),
        running,
        status: status.to_string(),
    }
}

#[test]
fn container_renders_as_one_line() {
    let c = full("1a", "web-1", "nginx", true, "Up 2 hours");
    assert_eq!(c.to_string(), "1a web-1     nginx (Up 2 hours)");
}

#[test]
fn container_table_row_cells() {
    let c = full("1a", "web-1", "nginx", true, "Up");
    assert_eq!(c.to_table_row(), vec!["1a", " ", "web-1", " ", "nginx", " ", "Up"]);
}

#[test]
fn default_container_is_empty_and_stopped() {
    let c = Container::default();
    assert_eq!(c.name, "");
    assert_eq!(c.id, "");
    assert!(!c.running);
}

#[test]
fn table_lists_only_matching_entries_after_the_header() {
    let cs = vec![
        full("1", "web-1", "nginx", true, "Up"),
        full("2", "db-1", "postgres", false, "Exited"),
        full("3", "webhook", "alpine", true, "Up"),
    ];
    let sel = Some("webhook".to_string());
    let (rows, count) = get_running_table_with_size(&cs, &sel, true);
    assert_eq!(count, 2);
    assert_eq!(rows.len(), 3);
    assert_eq!(rows[0].cells, vec!["ID", " ", "Name", " ", "Image", " ", "Status"]);
    assert!(!rows[0].selected);
    assert_eq!(rows[1].cells[2], "web-1");
    assert!(!rows[1].selected);
    assert_eq!(rows[2].cells[2], "webhook");
    assert!(rows[2].selected);

    let (stopped, stopped_count) = get_running_table_with_size(&cs, &sel, false);
    assert_eq!(stopped_count, 1);
    assert_eq!(stopped[1].cells[2], "db-1");
    assert!(!stopped[1].selected);
}

#[test]
fn search_line_shows_prompt_query_and_cursor() {
    let q: Vec<char> = "web".chars().collect();
    assert_eq!(search_line(&q), "Search > web\u{2502}");
    assert_eq!(search_line(&Vec::new()), "Search > \u{2502}");
}

#[test]
fn error_line_prefixes_the_message() {
    assert_eq!(error_line(&"boom".to_string()), "Error: boom");
}

#[test]
fn count_headers_show_exact_counts() {
    assert_eq!(count_header(true, 2), "Containers (2)");
    assert_eq!(count_header(false, 0), "Stopped Containers (0)");
    assert_eq!(count_header(true, 123), "Containers (123)");
}

#[test]
fn help_line_text_and_key_ranges() {
    let (text, ranges) = help_line();
    assert_eq!(
        text,
        "Help: <Ctrl-r> => Refresh. <Enter> => Follow Logs. <Ctrl-c> => Stop. \
         <Ctrl-e> => Start. <Ctrl-d> => Delete. <Esc> => Close. "
    );
    assert_eq!(
        ranges,
        vec![(7, 12), (28, 32), (52, 57), (70, 75), (89, 94), (109, 111)]
    );
    // each range covers exactly one key name
    let chars: Vec<char> = text.chars().collect();
    let keys = ["Ctrl-r", "Enter", "Ctrl-c", "Ctrl-e", "Ctrl-d", "Esc"];
    for ((a, b), key) in ranges.iter().zip(keys) {
        let got: String = chars[*a..=*b].iter().collect();
        assert_eq!(got, key);
    }
}

#[test]
fn command_builders_produce_the_exact_argv() {
    let list = request_docker_containers();
    assert_eq!(list.argv, vec!["docker", "ps", "--format", "json", "-a"]);
    assert_eq!(list.tag, CommandTag::Ps);

    let start = start_container("web-1");
    assert_eq!(start.argv, vec!["docker", "start", "web-1"]);
    assert_eq!(start.tag, CommandTag::Start);

    let stop = close_container("web-1");
    assert_eq!(stop.argv, vec!["docker", "stop", "web-1"]);
    assert_eq!(stop.tag, CommandTag::Stop);

    let rm = delete_container("web-1");
    assert_eq!(rm.argv, vec!["docker", "rm", "web-1"]);
    assert_eq!(rm.tag, CommandTag::Delete);

    assert_eq!(open_container("web-1"), vec!["docker", "logs", "-f", "web-1"]);
}

#[test]
fn command_tags_round_trip_through_their_names() {
    for tag in [CommandTag::Ps, CommandTag::Start, CommandTag::Stop, CommandTag::Delete] {
        assert_eq!(CommandTag::from_name(&tag.name()), Some(tag));
    }
    assert_eq!(CommandTag::from_name("unknown"), None);
}
