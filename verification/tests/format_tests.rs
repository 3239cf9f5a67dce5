use biver::formatting::{format_versions, prepare};
use biver::nickname::new_nickname;
use biver::repository_data::{Branch, Head, RepositoryData, Version};
use biver::repository_operations::{commit_initial_version, commit_version};
use biver::version_id::VersionId;

fn make_version(bits: u128, fingerprint: u128, description: &str, parent: Option<u128>) -> Version {
    Version {
        id: VersionId { bits },
        creation_time_millis: 1_700_000_000_000 + bits as i64,
        content_fingerprint: fingerprint,
        nickname: new_nickname(fingerprint),
        description: String::from(description),
        parent: parent.map(|p| VersionId { bits: p }),
        blob_file_name: VersionId { bits }.to_file_name(),
    }
}

fn five_version_repository() -> RepositoryData {
    let (mut data, _) = commit_initial_version(1, None, "root");
    for fp in 2u128..=5 {
        let r = commit_version(&mut data, fp, None, "step").unwrap();
        assert!(r.1.is_some());
    }
    assert_eq!(data.versions.len(), 5);
    data
}

#[test]
fn limit_below_total_renders_limit_rows_and_one_summary() {
    let data = five_version_repository();
    let lineage = data.head_and_ancestors();
    assert_eq!(lineage.len(), 5);
    let p = prepare(&data, &lineage, false, Some(3));
    assert_eq!(p.versions.len(), 3);
    let off = p.off_screen_info.expect("two versions fell off screen");
    assert_eq!(off.more_versions_text, "...2 more versions");
}

#[test]
fn limit_at_or_above_total_renders_no_summary() {
    let data = five_version_repository();
    let lineage = data.head_and_ancestors();
    let exact = prepare(&data, &lineage, false, Some(5));
    assert_eq!(exact.versions.len(), 5);
    assert!(exact.off_screen_info.is_none());
    let above = prepare(&data, &lineage, false, Some(20));
    assert_eq!(above.versions.len(), 5);
    assert!(above.off_screen_info.is_none());
    let all = prepare(&data, &lineage, false, None);
    assert_eq!(all.versions.len(), 5);
    assert!(all.off_screen_info.is_none());
}

#[test]
fn limit_zero_hides_everything() {
    let data = five_version_repository();
    let lineage = data.head_and_ancestors();
    let p = prepare(&data, &lineage, false, Some(0));
    assert_eq!(p.versions.len(), 0);
    let off = p.off_screen_info.expect("all versions fell off screen");
    assert_eq!(off.more_versions_text, "...5 more versions");
}

/// Root v0 on "main", v1 on "main", and v2 on "feature" branching off v1,
/// with the head left on "main" at v1.
fn forked_repository() -> RepositoryData {
    let data = RepositoryData {
        head: Head::Branch(String::from("main")),
        versions: vec![
            make_version(10, 1, "v0", None),
            make_version(11, 2, "v1", Some(10)),
            make_version(12, 3, "v2", Some(11)),
        ],
        branches: vec![
            Branch { name: String::from("main"), target: VersionId { bits: 11 } },
            Branch { name: String::from("feature"), target: VersionId { bits: 12 } },
        ],
    };
    assert!(data.valid());
    data
}

#[test]
fn forking_branch_is_annotated_at_its_join_point() {
    let data = forked_repository();
    let lineage = data.head_and_ancestors();
    assert_eq!(lineage, vec![1usize, 0]);
    let p = prepare(&data, &lineage, false, None);
    assert_eq!(p.versions.len(), 2);
    // The fork lands on v1's row, not on v0's, and not on v2 (which is not rendered).
    assert_eq!(p.versions[0].forking_branches.as_deref(), Some("->[feature]"));
    assert!(p.versions[1].forking_branches.is_none());
    assert_eq!(p.versions[0].description.as_deref(), Some("v1"));
    assert_eq!(p.versions[1].description.as_deref(), Some("v0"));
}

#[test]
fn head_badge_names_the_symbolic_branch() {
    let data = forked_repository();
    let lineage = data.head_and_ancestors();
    let p = prepare(&data, &lineage, false, None);
    assert_eq!(p.versions[0].head_badge.as_deref(), Some("[HEAD = main]"));
    assert!(p.versions[1].head_badge.is_none());
    // The branch the head names is not repeated as a co-located badge.
    assert!(p.versions[0].other_branches_here.is_none());
}

#[test]
fn detached_head_gets_the_bare_badge_and_branch_badges_stay() {
    let mut data = forked_repository();
    data.head = Head::Version(VersionId { bits: 11 });
    assert!(data.valid());
    let lineage = data.head_and_ancestors();
    let p = prepare(&data, &lineage, false, None);
    assert_eq!(p.versions[0].head_badge.as_deref(), Some("[HEAD]"));
    assert_eq!(p.versions[0].other_branches_here.as_deref(), Some("[main]"));
}

#[test]
fn truncated_join_point_moves_the_label_to_the_summary() {
    let data = forked_repository();
    let lineage = data.head_and_ancestors();
    // Limit 1: only v1 visible? No — the limit keeps rows nearest the head,
    // so v1 stays and v0 is hidden. The fork joins at v1, which is visible.
    let p = prepare(&data, &lineage, false, Some(1));
    assert_eq!(p.versions.len(), 1);
    let off = p.off_screen_info.expect("v0 fell off screen");
    assert!(off.forking_branches.is_none());
    assert_eq!(p.versions[0].forking_branches.as_deref(), Some("->[feature]"));
    // Limit 0: the join point itself is truncated, so the label moves to the
    // summary row. Only forking branches are listed there: "main" points
    // straight at a lineage version and is no fork, so it does not appear.
    let p0 = prepare(&data, &lineage, false, Some(0));
    let off0 = p0.off_screen_info.expect("everything fell off screen");
    assert_eq!(off0.forking_branches.as_deref(), Some("->[feature]"));
}

#[test]
fn nicknames_are_right_aligned_to_the_widest() {
    let data = five_version_repository();
    let lineage = data.head_and_ancestors();
    let p = prepare(&data, &lineage, false, None);
    let widths: Vec<usize> = p.versions.iter().map(|r| r.nickname.chars().count()).collect();
    assert!(widths.iter().all(|w| *w == widths[0]));
    assert_eq!(widths[0], 8);
}

#[test]
fn absolute_timestamps_are_fixed_width() {
    let data = five_version_repository();
    let lineage = data.head_and_ancestors();
    let p = prepare(&data, &lineage, false, None);
    for row in &p.versions {
        assert_eq!(row.creation_time.chars().count(), 19);
    }
}

#[test]
fn humanized_times_share_one_width() {
    let data = five_version_repository();
    let lineage = data.head_and_ancestors();
    let p = prepare(&data, &lineage, false, None);
    let widths: Vec<usize> =
        p.versions.iter().map(|r| r.creation_time_humanized.chars().count()).collect();
    assert!(widths.iter().all(|w| *w == widths[0]));
}

#[test]
fn uncommitted_marker_row_is_appended_under_the_columns() {
    let data = five_version_repository();
    let lineage = data.head_and_ancestors();
    let without = prepare(&data, &lineage, false, None);
    assert!(without.uncommitted_changes.is_none());
    let with = prepare(&data, &lineage, true, None);
    let marker = with.uncommitted_changes.expect("the marker row is present");
    let hw = with.versions[0].creation_time_humanized.chars().count();
    let expected = format!("{:<width$}(uncommitted changes)", "", width = hw + 21);
    assert_eq!(marker.uncommitted_changes_text, expected);
}

#[test]
fn summary_offsets_follow_the_column_widths() {
    let data = five_version_repository();
    let lineage = data.head_and_ancestors();
    let p = prepare(&data, &lineage, false, Some(2));
    let off = p.off_screen_info.expect("three versions fell off screen");
    let hw = p.versions[0].creation_time_humanized.chars().count();
    assert_eq!(off.more_versions_text_offset, hw + 21);
    let slot = 23 + 8;
    assert_eq!(off.forking_branches_offset, slot - off.more_versions_text.len().min(slot) + 1);
}

#[test]
fn row_id_column_is_the_compact_display_form() {
    let data = forked_repository();
    let lineage = data.head_and_ancestors();
    let p = prepare(&data, &lineage, false, None);
    assert_eq!(p.versions[0].id, VersionId { bits: 11 }.bs58());
    assert_eq!(p.versions[1].id, VersionId { bits: 10 }.bs58());
}

#[test]
fn empty_description_yields_no_description_field() {
    let (data, _) = commit_initial_version(1, None, "");
    let lineage = data.head_and_ancestors();
    let p = prepare(&data, &lineage, false, None);
    assert!(p.versions[0].description.is_none());
}

#[test]
fn rendered_row_lists_the_fields_with_single_spaces() {
    let data = forked_repository();
    let lineage = data.head_and_ancestors();
    let p = prepare(&data, &lineage, false, None);
    let row = &p.versions[0];
    let expected = format!(
        "{} {} {} {} {} {} {}",
        row.creation_time,
        row.creation_time_humanized,
        row.id,
        row.nickname,
        "[HEAD = main]",
        "->[feature]",
        "v1",
    );
    assert_eq!(row.render(), expected);
}

#[test]
fn format_versions_renders_one_line_per_version() {
    let data = five_version_repository();
    let lineage = data.head_and_ancestors();
    let lines = format_versions(&data, &lineage);
    assert_eq!(lines.len(), 5);
    for line in &lines {
        assert!(!line.is_empty());
    }
}
