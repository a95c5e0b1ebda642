use query::env_file::{env_search_action, split_lines, update_env_content, EnvSearchAction};

#[test]
fn replaces_existing_token_lines() {
    let content = "A=1\nLINEAR_AGENT_TOKEN=old\nLINEAR_REFRESH_TOKEN=oldr\nB=2\n";
    let updated = update_env_content(content, "new", Some("newr"));
    assert_eq!(
        updated,
        "A=1\nLINEAR_AGENT_TOKEN=new\nLINEAR_REFRESH_TOKEN=newr\nB=2\n"
    );
}

#[test]
fn appends_missing_token_lines() {
    let updated = update_env_content("A=1", "tok", Some("ref"));
    assert_eq!(
        updated,
        "A=1\nLINEAR_AGENT_TOKEN=tok\nLINEAR_REFRESH_TOKEN=ref\n"
    );
    assert_eq!(update_env_content("", "tok", None), "LINEAR_AGENT_TOKEN=tok\n");
}

#[test]
fn refresh_line_untouched_without_refresh_token() {
    let updated = update_env_content("LINEAR_REFRESH_TOKEN=keep\r\n", "t", None);
    assert_eq!(updated, "LINEAR_REFRESH_TOKEN=keep\nLINEAR_AGENT_TOKEN=t\n");
}

#[test]
fn every_matching_line_is_rewritten() {
    let updated = update_env_content(
        "LINEAR_AGENT_TOKEN=a\nLINEAR_AGENT_TOKEN=b\n\n",
        "c",
        None,
    );
    assert_eq!(updated, "LINEAR_AGENT_TOKEN=c\nLINEAR_AGENT_TOKEN=c\n\n");
}

#[test]
fn update_is_idempotent() {
    let content = "X=1\r\n# note\nLINEAR_REFRESH_TOKEN=r0\n";
    let once = update_env_content(content, "acc", Some("ref"));
    let twice = update_env_content(&once, "acc", Some("ref"));
    assert_eq!(once, twice);
}

#[test]
fn updated_tokens_read_back() {
    let updated = update_env_content("Y=2\n", "acc2", Some("ref2"));
    let lines = split_lines(&updated);
    assert!(lines.contains(&"LINEAR_AGENT_TOKEN=acc2".to_string()));
    assert!(lines.contains(&"LINEAR_REFRESH_TOKEN=ref2".to_string()));
}

#[test]
fn lines_like_std() {
    for text in ["", "\n", "a", "a\n", "a\r\nb", "a\rb\r", "\r\n\r\n", "x\n\ny", "é\r\n€"] {
        let expected: Vec<String> = text.lines().map(|l| l.to_string()).collect();
        assert_eq!(split_lines(text), expected, "text {:?}", text);
    }
}

#[test]
fn env_search_goes_up_eight_levels() {
    assert_eq!(env_search_action(0, true), EnvSearchAction::ProbeDirectory);
    assert_eq!(env_search_action(7, true), EnvSearchAction::ProbeDirectory);
    assert_eq!(env_search_action(8, true), EnvSearchAction::ProbeWorkingDirectory);
    assert_eq!(env_search_action(3, false), EnvSearchAction::ProbeWorkingDirectory);
}

#[test]
fn update_is_idempotent_for_token_lines_ending_in_cr() {
    let content = "LINEAR_AGENT_TOKEN=old\r";
    let once = update_env_content(content, "acc\r", Some("ref\r"));
    let twice = update_env_content(&once, "acc\r", Some("ref\r"));
    assert_eq!(once, twice);
}

#[test]
fn kept_line_ending_in_cr_changes_on_second_update() {
    let once = update_env_content("x\r", "t", None);
    let twice = update_env_content(&once, "t", None);
    assert_eq!(once, "x\r\nLINEAR_AGENT_TOKEN=t\n");
    assert_eq!(twice, "x\nLINEAR_AGENT_TOKEN=t\n");
}
