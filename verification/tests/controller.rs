use docker_pane::docker::CommandTag;
use docker_pane::state::{
    get_selected_container, Action, CommandResult, KeyInput, PluginEvent, State,
};
use docker_pane::Container;

fn named(name: &str, running: bool) -> Container {
    Container {
        id: String::new(),
        name: name.to_string(),
        image: String::new(),
        running,
        status: String::new(),
    }
}

fn key(k: KeyInput) -> PluginEvent {
    PluginEvent::Key(k)
}

fn completion(
    exit_code: Option<i32>,
    stdout: &str,
    stderr: &str,
    tag: Option<CommandTag>,
) -> PluginEvent {
    PluginEvent::CommandResult(CommandResult {
        exit_code,
        stdout: Some(stdout.to_string()),
        stderr: Some(stderr.to_string()),
        tag,
    })
}

fn argv_of(action: &Option<Action>) -> Vec<String> {
    match action {
        Some(Action::Run(c)) => c.argv.clone(),
        Some(Action::OpenPane(argv)) => argv.clone(),
        _ => panic!("expected a command action"),
    }
}

/// A state whose filtered view is populated: two running, one stopped.
fn populated() -> State {
    let mut s = State::default();
    s.containers = vec![named("web-1", true), named("webhook", true), named("db-1", false)];
    s.init = true;
    let request = s.prepare_render();
    assert!(request.is_none());
    s
}

#[test]
fn backspace_on_empty_query_is_a_no_op() {
    let mut s = State::default();
    let out = s.update(key(KeyInput::Backspace));
    assert!(!out.should_render);
    assert!(out.action.is_none());
    assert!(s.search_query.is_empty());
}

#[test]
fn backspace_removes_the_last_character() {
    let mut s = State::default();
    s.update(key(KeyInput::Char('a')));
    s.update(key(KeyInput::Char('b')));
    let out = s.update(key(KeyInput::Backspace));
    assert!(out.should_render);
    assert_eq!(s.search_query, vec!['a']);
}

#[test]
fn char_appends_to_the_query_and_rerenders() {
    let mut s = State::default();
    let out = s.update(key(KeyInput::Char('x')));
    assert!(out.should_render);
    assert_eq!(s.search_query, vec!['x']);
}

#[test]
fn failed_stop_displays_stderr_verbatim_until_a_success_clears_it() {
    let mut s = populated();
    let out = s.update(completion(Some(1), "", "no such container", Some(CommandTag::Stop)));
    assert!(out.should_render);
    assert_eq!(s.error_message.as_deref(), Some("no such container"));
    // the error suspends rendering work
    assert!(s.prepare_render().is_none());
    // a later successful refresh clears it and installs the new list
    let listing = "{\"Names\":\"fresh\",\"State\":\"running\"}";
    let out = s.update(completion(Some(0), listing, "", Some(CommandTag::Ps)));
    assert!(out.should_render);
    assert_eq!(s.error_message, None);
    assert_eq!(s.containers.len(), 1);
    assert_eq!(s.containers[0].name, "fresh");
}

#[test]
fn missing_exit_code_is_a_failure() {
    let mut s = populated();
    let out = s.update(completion(None, "", "boom", Some(CommandTag::Ps)));
    assert!(out.should_render);
    assert_eq!(s.error_message.as_deref(), Some("boom"));
}

#[test]
fn unparseable_listing_is_a_failure_not_a_partial_list() {
    let mut s = populated();
    let before = s.containers.len();
    let out = s.update(completion(Some(0), "not json", "", Some(CommandTag::Ps)));
    assert!(out.should_render);
    assert!(s.error_message.is_some());
    assert_eq!(s.containers.len(), before);
}

#[test]
fn successful_lifecycle_completion_requests_a_refresh() {
    let mut s = populated();
    for tag in [CommandTag::Start, CommandTag::Stop, CommandTag::Delete] {
        let out = s.update(completion(Some(0), "", "", Some(tag)));
        assert!(!out.should_render);
        assert_eq!(
            argv_of(&out.action),
            vec!["docker", "ps", "--format", "json", "-a"]
        );
    }
}

#[test]
fn navigation_previous_at_the_top_changes_nothing() {
    let mut s = populated();
    assert_eq!(s.selected_container.as_deref(), Some("web-1"));
    let out = s.update(key(KeyInput::Up));
    assert!(!out.should_render);
    assert_eq!(s.selected_container.as_deref(), Some("web-1"));
}

#[test]
fn navigation_next_at_the_bottom_changes_nothing() {
    let mut s = populated();
    s.update(key(KeyInput::Down));
    s.update(key(KeyInput::Down));
    assert_eq!(s.selected_container.as_deref(), Some("db-1"));
    let out = s.update(key(KeyInput::Down));
    assert!(!out.should_render);
    assert_eq!(s.selected_container.as_deref(), Some("db-1"));
}

#[test]
fn navigation_on_an_empty_list_changes_nothing() {
    let mut s = State::default();
    let up = s.update(key(KeyInput::Up));
    let down = s.update(key(KeyInput::Down));
    assert!(!up.should_render && !down.should_render);
    assert_eq!(s.selected_container, None);
}

#[test]
fn navigation_moves_the_selection_one_step() {
    let mut s = populated();
    let out = s.update(key(KeyInput::Down));
    assert!(out.should_render);
    assert_eq!(s.selected_container.as_deref(), Some("webhook"));
    let out = s.update(key(KeyInput::Up));
    assert!(out.should_render);
    assert_eq!(s.selected_container.as_deref(), Some("web-1"));
}

#[test]
fn selection_kept_when_still_present() {
    let filtered = vec![named("a", true), named("b", true)];
    let r = get_selected_container(&Some("b".to_string()), &filtered);
    assert_eq!(r.as_deref(), Some("b"));
}

#[test]
fn selection_snaps_to_first_when_gone() {
    let filtered = vec![named("a", true), named("b", true)];
    let r = get_selected_container(&Some("gone".to_string()), &filtered);
    assert_eq!(r.as_deref(), Some("a"));
}

#[test]
fn selection_is_none_on_an_empty_view() {
    let r = get_selected_container(&Some("x".to_string()), &vec![]);
    assert_eq!(r, None);
    let r = get_selected_container(&None, &vec![]);
    assert_eq!(r, None);
}

#[test]
fn refresh_key_reissues_the_listing_command() {
    let mut s = populated();
    let out = s.update(key(KeyInput::Refresh));
    assert!(!out.should_render);
    assert!(s.containers_loading);
    assert_eq!(
        argv_of(&out.action),
        vec!["docker", "ps", "--format", "json", "-a"]
    );
}

#[test]
fn lifecycle_keys_act_on_the_selected_container() {
    let mut s = populated();
    let start = s.update(key(KeyInput::Start));
    assert_eq!(argv_of(&start.action), vec!["docker", "start", "web-1"]);
    let stop = s.update(key(KeyInput::Stop));
    assert_eq!(argv_of(&stop.action), vec!["docker", "stop", "web-1"]);
    let delete = s.update(key(KeyInput::Delete));
    assert_eq!(argv_of(&delete.action), vec!["docker", "rm", "web-1"]);
    let logs = s.update(key(KeyInput::Enter));
    assert_eq!(argv_of(&logs.action), vec!["docker", "logs", "-f", "web-1"]);
}

#[test]
fn lifecycle_keys_do_nothing_without_a_selection() {
    let mut s = State::default();
    for k in [KeyInput::Start, KeyInput::Stop, KeyInput::Delete, KeyInput::Enter] {
        let out = s.update(key(k));
        assert!(out.action.is_none());
        assert!(!out.should_render);
    }
}

#[test]
fn close_key_asks_the_host_to_close() {
    let mut s = State::default();
    let out = s.update(key(KeyInput::Close));
    assert!(matches!(out.action, Some(Action::Close)));
}

#[test]
fn other_keys_change_nothing() {
    let mut s = populated();
    let out = s.update(key(KeyInput::Other));
    assert!(!out.should_render);
    assert!(out.action.is_none());
}

#[test]
fn first_render_issues_the_initial_listing_request_once() {
    let mut s = State::default();
    let first = s.prepare_render();
    assert_eq!(
        first.map(|c| c.argv),
        Some(vec![
            "docker".to_string(),
            "ps".to_string(),
            "--format".to_string(),
            "json".to_string(),
            "-a".to_string()
        ])
    );
    assert!(s.init && s.containers_loading);
    assert!(s.prepare_render().is_none());
}

#[test]
fn query_filters_the_rendered_view_and_reconciles_selection() {
    let mut s = populated();
    s.update(key(KeyInput::Char('d')));
    s.update(key(KeyInput::Char('b')));
    s.prepare_render();
    assert_eq!(s.filtered_containers.len(), 1);
    assert_eq!(s.filtered_containers[0].name, "db-1");
    // the old selection web-1 was filtered out: snap to the first entry
    assert_eq!(s.selected_container.as_deref(), Some("db-1"));
}
