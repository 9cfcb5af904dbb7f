use commitguard::changelog::{group_commits, render_changelog, Section};
use commitguard::ConventionalCommit;

fn commit(
    commit_type: &str,
    scope: Option<&str>,
    description: &str,
    breaking: bool,
) -> ConventionalCommit {
    ConventionalCommit {
        commit_type: commit_type.to_string(),
        scope: scope.map(str::to_string),
        breaking,
        description: description.to_string(),
        body: None,
    }
}

#[test]
fn groups_by_section_correctly() {
    let commits = vec![
        commit("feat", None, "add search", false),
        commit("fix", None, "correct typo", false),
        commit("chore", None, "bump deps", false),
    ];
    let groups = group_commits(&commits);
    assert_eq!(groups.get("Features").unwrap().len(), 1);
    assert_eq!(groups.get("Bug Fixes").unwrap().len(), 1);
    assert_eq!(groups.get("Other").unwrap().len(), 1);
}

#[test]
fn breaking_commits_get_their_own_section_in_the_render() {
    let commits = vec![commit("feat", Some("api"), "remove v1 endpoints", true)];
    let text = render_changelog(&commits, "v2.0.0");
    assert!(text.contains("### BREAKING CHANGES"));
    assert!(text.contains("**api:** remove v1 endpoints"));
}

#[test]
fn sections_appear_in_a_stable_reader_friendly_order() {
    let commits = vec![
        commit("chore", None, "bump deps", false),
        commit("fix", None, "correct bug", false),
        commit("feat", None, "add thing", false),
    ];
    let text = render_changelog(&commits, "v1.0.0");
    let features_pos = text.find("### Features").unwrap();
    let fixes_pos = text.find("### Bug Fixes").unwrap();
    let other_pos = text.find("### Other").unwrap();
    assert!(features_pos < fixes_pos);
    assert!(fixes_pos < other_pos);
}

#[test]
fn empty_commit_list_still_renders_a_header_without_panicking() {
    let text = render_changelog(&[], "v0.1.0");
    assert!(text.starts_with("## v0.1.0"));
}

#[test]
fn empty_changelog_is_exactly_the_heading() {
    assert_eq!(render_changelog(&[], "v0.1.0"), "## v0.1.0\n\n");
}

#[test]
fn full_render_is_exact() {
    let commits = vec![
        commit("chore", None, "bump deps", false),
        commit("feat", Some("api"), "remove v1 endpoints", true),
        commit("fix", None, "correct bug", false),
        commit("perf", None, "cache lookups", false),
        commit("revert", None, "undo experiment", false),
        commit("feat", None, "add search", false),
        commit("docs", Some("readme"), "explain flags", false),
    ];
    let text = render_changelog(&commits, "v2.0.0");
    assert_eq!(
        text,
        "## v2.0.0\n\n\
### BREAKING CHANGES\n\n- **api:** remove v1 endpoints\n\n\
### Features\n\n- **api:** remove v1 endpoints\n- add search\n\n\
### Bug Fixes\n\n- correct bug\n\n\
### Performance\n\n- cache lookups\n\n\
### Reverts\n\n- undo experiment\n\n\
### Other\n\n- bump deps\n- **readme:** explain flags\n\n"
    );
}

#[test]
fn groups_keep_insertion_order_and_omit_empty_sections() {
    let commits = vec![
        commit("feat", None, "first", false),
        commit("fix", None, "fix one", false),
        commit("feat", None, "second", false),
        commit("style", None, "format", false),
        commit("ci", None, "pipeline", false),
    ];
    let groups = group_commits(&commits);
    let features = groups.get("Features").unwrap();
    assert_eq!(features.len(), 2);
    assert_eq!(features[0].description, "first");
    assert_eq!(features[1].description, "second");
    assert!(groups.get("Performance").is_none());
    assert!(groups.get("Reverts").is_none());
    assert!(groups.get("Nonsense").is_none());
    assert_eq!(groups.get("Other").unwrap().len(), 2);
    assert_eq!(groups.len(), 3);
    assert_eq!(groups.bucket(Section::Performance).len(), 0);
}

#[test]
fn every_commit_lands_in_exactly_one_group() {
    let commits = vec![
        commit("feat", None, "a", false),
        commit("fix", None, "b", true),
        commit("perf", None, "c", false),
        commit("revert", None, "d", false),
        commit("build", None, "e", false),
        commit("feat", None, "f", true),
    ];
    let groups = group_commits(&commits);
    let total: usize = [
        Section::Features,
        Section::BugFixes,
        Section::Performance,
        Section::Reverts,
        Section::Other,
    ]
    .iter()
    .map(|s| groups.bucket(*s).len())
    .sum();
    assert_eq!(total, commits.len());
}

#[test]
fn section_names_match_headings() {
    assert_eq!(Section::Features.name(), "Features");
    assert_eq!(Section::BugFixes.name(), "Bug Fixes");
    assert_eq!(Section::Performance.name(), "Performance");
    assert_eq!(Section::Reverts.name(), "Reverts");
    assert_eq!(Section::Other.name(), "Other");
}

#[test]
fn breaking_commit_is_listed_twice() {
    let commits = vec![commit("fix", Some("db"), "change schema", true)];
    let text = render_changelog(&commits, "v3");
    assert_eq!(text.matches("- **db:** change schema\n").count(), 2);
}

#[test]
fn grouping_distributes_over_concatenation() {
    let a = vec![commit("feat", None, "a1", false), commit("fix", None, "a2", false)];
    let b = vec![commit("feat", None, "b1", false), commit("chore", None, "b2", false)];
    let ab: Vec<ConventionalCommit> = a.iter().chain(b.iter()).cloned().collect();
    let (ga, gb, gab) = (group_commits(&a), group_commits(&b), group_commits(&ab));
    for s in [Section::Features, Section::BugFixes, Section::Performance, Section::Reverts, Section::Other] {
        let joined: Vec<&ConventionalCommit> =
            ga.bucket(s).iter().chain(gb.bucket(s).iter()).copied().collect();
        assert_eq!(gab.bucket(s), &joined);
    }
}

#[test]
fn sections_are_listed_like_sorted_map_keys() {
    let commits = vec![
        commit("revert", None, "r", false),
        commit("feat", None, "f", false),
        commit("chore", None, "c", false),
        commit("fix", None, "x", false),
    ];
    let groups = group_commits(&commits);
    assert_eq!(groups.sections(), vec!["Bug Fixes", "Features", "Other", "Reverts"]);
    assert!(group_commits(&[]).sections().is_empty());
}
