use whisper_git::ci::{
    CiCommitRollup, CiCounts, CiFetchResult, CiProvider, CiState, CiStatus, ProviderCiResult,
};
use whisper_git::text_map::TextMap;

fn one(sha: &str, counts: CiCounts) -> TextMap<CiCommitRollup> {
    TextMap::from_pairs(vec![(
        sha.to_string(),
        CiCommitRollup { counts, checks: Vec::new() },
    )])
}

#[test]
fn per_commit_provider_rollups_are_sorted_by_provider() {
    let result = CiFetchResult {
        providers: vec![
            ProviderCiResult {
                provider: CiProvider::GitLab,
                status: CiStatus {
                    state: CiState::Failure,
                    summary: "Pipeline failed".into(),
                    url: None,
                    counts: None,
                },
                per_commit_rollups: one("abc", CiCounts { success: 0, failure: 1, pending: 0 }),
            },
            ProviderCiResult {
                provider: CiProvider::GitHub,
                status: CiStatus {
                    state: CiState::Success,
                    summary: "Workflow passed".into(),
                    url: None,
                    counts: None,
                },
                per_commit_rollups: one("abc", CiCounts { success: 1, failure: 0, pending: 0 }),
            },
        ],
    };

    let grouped = result.per_commit_provider_rollups();
    let rollups = grouped.get("abc").unwrap();
    assert_eq!(rollups.len(), 2);
    assert_eq!(rollups[0].provider, CiProvider::GitHub);
    assert_eq!(rollups[1].provider, CiProvider::GitLab);
}

#[test]
fn counts_add_up_and_failure_comes_first() {
    let c = CiCounts::from_states(&[
        CiState::Success,
        CiState::Pending,
        CiState::Success,
        CiState::Absent,
        CiState::Failure,
    ]);
    assert_eq!(c, CiCounts { success: 2, failure: 1, pending: 1 });
    assert_eq!(c.total(), 4);
    assert_eq!(c.overall_state(), CiState::Failure);
    assert_eq!(
        CiCounts::from_states(&[CiState::Success, CiState::Pending]).overall_state(),
        CiState::Pending
    );
    assert_eq!(CiCounts::from_states(&[CiState::Success]).overall_state(), CiState::Success);
    assert_eq!(CiCounts::from_states(&[CiState::Absent]).overall_state(), CiState::Absent);
    assert_eq!(CiCounts::default().overall_state(), CiState::Absent);
}

#[test]
fn providers_have_labels_in_order() {
    assert_eq!(CiProvider::GitHub.short_label(), "GH");
    assert_eq!(CiProvider::GitLab.short_label(), "GL");
    assert!(CiProvider::GitHub.sort_key() < CiProvider::GitLab.sort_key());
}

#[test]
fn a_map_keeps_one_value_for_each_key() {
    let mut m: TextMap<u32> = TextMap::new();
    assert!(m.is_empty());
    m.insert("a".to_string(), 1);
    m.insert("b".to_string(), 2);
    m.insert("a".to_string(), 3);
    assert_eq!(m.len(), 2);
    assert_eq!(m.get("a"), Some(&3));
    assert_eq!(m.key(1), "b");
    assert_eq!(*m.value(1), 2);
    assert_eq!(m.place("z"), 2);
    m.remove("a");
    assert_eq!(m.get("a"), None);
    assert_eq!(m.get("b"), Some(&2));
    m.remove("z");
    assert_eq!(m.len(), 1);
}
