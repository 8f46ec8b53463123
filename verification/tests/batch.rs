use jetkvm_cli::batch::{describe_invocation, is_command_name, split_commands};

fn strings(items: &[&str]) -> Vec<String> {
    items.iter().map(|s| s.to_string()).collect()
}

fn names() -> Vec<String> {
    strings(&["ping", "get-edid", "set-edid", "wait", "send-ctrl-c"])
}

#[test]
fn split_starts_a_command_at_each_name() {
    let args = strings(&["ping", "wait", "100", "set-edid", "ABC", "ping"]);
    let groups = split_commands(&args, &names());
    assert_eq!(
        groups,
        vec![
            strings(&["ping"]),
            strings(&["wait", "100"]),
            strings(&["set-edid", "ABC"]),
            strings(&["ping"]),
        ]
    );
}

#[test]
fn split_keeps_a_leading_unknown_word_as_first_command() {
    let args = strings(&["bogus", "x", "ping"]);
    let groups = split_commands(&args, &names());
    assert_eq!(groups, vec![strings(&["bogus", "x"]), strings(&["ping"])]);
}

#[test]
fn split_of_nothing_is_nothing() {
    let groups = split_commands(&Vec::new(), &names());
    assert!(groups.is_empty());
}

#[test]
fn split_treats_a_parameter_that_is_a_command_name_as_a_new_command() {
    let args = strings(&["set-edid", "ping"]);
    let groups = split_commands(&args, &names());
    assert_eq!(groups, vec![strings(&["set-edid"]), strings(&["ping"])]);
}

#[test]
fn split_is_case_sensitive_on_names() {
    let args = strings(&["wait", "PING", "5"]);
    let groups = split_commands(&args, &names());
    assert_eq!(groups, vec![strings(&["wait", "PING", "5"])]);
}

#[test]
fn split_loses_and_reorders_nothing() {
    let args = strings(&["send-ctrl-c", "a", "b", "get-edid", "wait", "1", "c"]);
    let groups = split_commands(&args, &names());
    let flat: Vec<String> = groups.iter().flatten().cloned().collect();
    assert_eq!(flat, args);
    assert!(groups.iter().all(|g| !g.is_empty()));
    assert_eq!(groups.len(), 3);
}

#[test]
fn command_name_lookup() {
    assert!(is_command_name(&names(), &"wait".to_string()));
    assert!(!is_command_name(&names(), &"Wait".to_string()));
    assert!(!is_command_name(&Vec::new(), &"ping".to_string()));
}

#[test]
fn invocation_of_a_group() {
    let inv = describe_invocation(&strings(&["set-cloud-url", "https://a", "https://b"]));
    assert_eq!(inv.command, "set-cloud-url");
    assert_eq!(inv.params, strings(&["https://a", "https://b"]));
    let bare = describe_invocation(&strings(&["ping"]));
    assert_eq!(bare.command, "ping");
    assert!(bare.params.is_empty());
}
