use hjlib::reconcile::titles_from_contents;
use hjlib::{map_priority, unique_titles, DoobClient, TodoStatus};

#[test]
fn priority_mapping_matches_shell_script() {
    assert_eq!(map_priority(Some("P0")), 5);
    assert_eq!(map_priority(Some("P1")), 4);
    assert_eq!(map_priority(Some("P2")), 3);
    assert_eq!(map_priority(Some("other")), 1);
}

#[test]
fn deduplicates_titles() {
    let values = unique_titles(vec!["A".to_string(), "B".to_string(), "A".to_string(), String::new()]);
    assert_eq!(values, vec!["A".to_string(), "B".to_string()]);
}

#[test]
fn s3_1_p0_maps_to_5() {
    assert_eq!(map_priority(Some("P0")), 5);
}

#[test]
fn s3_1_p1_maps_to_4() {
    assert_eq!(map_priority(Some("P1")), 4);
}

#[test]
fn s3_1_p2_maps_to_3() {
    assert_eq!(map_priority(Some("P2")), 3);
}

#[test]
fn s3_1_unknown_priority_maps_to_1() {
    assert_eq!(map_priority(Some("other")), 1);
    assert_eq!(map_priority(None), 1);
    assert_eq!(map_priority(Some("")), 1);
}

#[test]
fn s3_2_deduplicates_exact_match() {
    let result = unique_titles(vec!["A".into(), "B".into(), "A".into()]);
    assert_eq!(result.iter().filter(|s| s.as_str() == "A").count(), 1);
}

#[test]
fn s3_2_drops_empty_strings() {
    let result = unique_titles(vec!["A".into(), String::new(), "B".into()]);
    assert!(!result.contains(&String::new()), "empty string must be dropped");
}

#[test]
fn s3_2_result_is_sorted() {
    let result = unique_titles(vec!["C".into(), "A".into(), "B".into()]);
    let mut sorted = result.clone();
    sorted.sort();
    assert_eq!(result, sorted, "unique_titles must return sorted order");
}

#[test]
fn status_names_match_backend_spelling() {
    assert_eq!(TodoStatus::Pending.as_str(), "pending");
    assert_eq!(TodoStatus::InProgress.as_str(), "in_progress");
    assert_eq!(TodoStatus::Completed.as_str(), "completed");
    assert_eq!(TodoStatus::Cancelled.as_str(), "cancelled");
}

#[test]
fn list_and_add_arguments() {
    assert_eq!(
        DoobClient::list_args("hj", TodoStatus::InProgress),
        vec!["todo", "list", "-p", "hj", "--status", "in_progress", "--json"]
    );
    let tags = vec!["handoff".to_string(), "hj".to_string()];
    assert_eq!(
        DoobClient::add_args("hj", "Ship it", 4, &tags),
        vec!["todo", "add", "Ship it", "--priority", "4", "-p", "hj", "-t", "handoff,hj"]
    );
    assert_eq!(
        DoobClient::add_args("hj", "Ship it", 12, &Vec::new()),
        vec!["todo", "add", "Ship it", "--priority", "12", "-p", "hj"]
    );
}

#[test]
fn listing_drops_empty_contents() {
    let titles = titles_from_contents(vec!["A".into(), String::new(), "B".into()]);
    assert_eq!(titles, vec!["A".to_string(), "B".to_string()]);
}

#[test]
fn client_keeps_its_directory() {
    assert_eq!(DoobClient::new("/repo").cwd, "/repo");
}
