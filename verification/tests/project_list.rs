use cutix_native::projects::{visible_projects, ProjectSummary};
use cutix_native::state::SortKey;

fn project(id: &str, name: &str, created: &str, updated: &str, ticks: i64) -> ProjectSummary {
    ProjectSummary {
        id: id.to_string(),
        name: name.to_string(),
        created_at: created.to_string(),
        updated_at: updated.to_string(),
        duration_ticks: ticks,
    }
}

fn sample() -> Vec<ProjectSummary> {
    vec![
        project("a", "Holiday", "2026-01-02T10:00:00Z", "2026-03-01T10:00:00Z", 300),
        project("b", "birthday", "2026-01-01T10:00:00Z", "2026-03-05T10:00:00Z", 100),
        project("c", "Interview", "2026-02-01T10:00:00Z", "2026-03-03T10:00:00Z", 300),
        project("d", "holiday reel", "2026-01-03T10:00:00Z", "2026-03-02T10:00:00Z", 200),
    ]
}

fn ids(list: &[ProjectSummary]) -> Vec<&str> {
    list.iter().map(|project| project.id.as_str()).collect()
}

#[test]
fn the_newest_edit_comes_first_by_default() {
    let shown = visible_projects(&sample(), "", SortKey::UpdatedAt, false);
    assert_eq!(ids(&shown), ["b", "c", "d", "a"]);
}

#[test]
fn names_sort_without_regard_to_case() {
    let shown = visible_projects(&sample(), "", SortKey::Name, true);
    assert_eq!(ids(&shown), ["b", "a", "d", "c"]);
}

#[test]
fn equal_durations_keep_the_listed_order_either_way() {
    let up = visible_projects(&sample(), "", SortKey::Duration, true);
    assert_eq!(ids(&up), ["b", "d", "a", "c"]);
    let down = visible_projects(&sample(), "", SortKey::Duration, false);
    assert_eq!(ids(&down), ["a", "c", "d", "b"]);
}

#[test]
fn the_search_is_trimmed_and_ignores_case() {
    let shown = visible_projects(&sample(), "  HOLI ", SortKey::CreatedAt, true);
    assert_eq!(ids(&shown), ["a", "d"]);
    assert!(visible_projects(&sample(), "wedding", SortKey::Name, true).is_empty());
    assert!(visible_projects(&[], "", SortKey::Name, true).is_empty());
}
