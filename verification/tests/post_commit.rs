use git_file_storage::post_commit::{fold_with, get_parent_id, get_tree_references};
use git_file_storage::track::{
    pattern_from_str, AttributeMatch, AttributeState, ChangeKind, TreeChange,
};
use git_file_storage::{FoldAction, FoldEvent, FoldPhase, GfsError, Pointer, PostCommit};

fn head(id: &str, parents: &[&str]) -> FoldEvent {
    FoldEvent::Head {
        id: id.to_string(),
        parents: parents.iter().map(|p| p.to_string()).collect(),
    }
}

fn tracked_text_files() -> Vec<AttributeMatch> {
    vec![AttributeMatch {
        pattern: pattern_from_str("*.txt").unwrap(),
        name: "filter".to_string(),
        state: AttributeState::Value(b"gfs".to_vec()),
    }]
}

fn changed(kind: ChangeKind, location: &str) -> TreeChange {
    TreeChange {
        kind,
        location: location.as_bytes().to_vec(),
    }
}

fn changes() -> FoldEvent {
    FoldEvent::Changes {
        changes: vec![
            changed(ChangeKind::Addition, "src/file.one.txt"),
            changed(ChangeKind::Modification, "src/main.rs"),
            changed(ChangeKind::Deletion, "old.txt"),
            changed(ChangeKind::Rewrite, "notes.txt"),
        ],
        matches: tracked_text_files(),
    }
}

/// Brings a fold to the point where the tip stands at the parent and the
/// changes are awaited.
fn rewound() -> PostCommit {
    let mut fold = PostCommit::new();
    fold.git_post_commit(head("child", &["parent"]));
    fold.git_post_commit(FoldEvent::Done);
    fold.git_post_commit(FoldEvent::Done);
    assert_eq!(fold.current_phase(), FoldPhase::Discovering);
    fold
}

#[test]
fn commit_without_a_parent_is_left_alone() {
    let mut fold = PostCommit::new();
    assert_eq!(fold.current_phase(), FoldPhase::Start);
    assert_eq!(
        fold.git_post_commit(head("root", &[])),
        FoldAction::Stop(Ok(()))
    );
    assert_eq!(fold.current_phase(), FoldPhase::Finished);
}

#[test]
fn commit_with_several_parents_is_left_alone() {
    let mut fold = PostCommit::new();
    assert_eq!(
        fold.git_post_commit(head("merge", &["one", "two"])),
        FoldAction::Stop(Ok(()))
    );
    assert_eq!(fold.current_phase(), FoldPhase::Finished);
    let mut fold = PostCommit::new();
    assert_eq!(
        fold.git_post_commit(head("octopus", &["one", "two", "three"])),
        FoldAction::Stop(Ok(()))
    );
}

#[test]
fn fold_of_a_commit_with_one_parent() {
    let mut fold = PostCommit::new();
    assert_eq!(
        fold.git_post_commit(head("child", &["parent"])),
        FoldAction::PublishRef {
            name: "refs/gfs/child".to_string(),
            target: "child".to_string()
        }
    );
    assert_eq!(fold.current_phase(), FoldPhase::Anchoring);
    assert_eq!(
        fold.git_post_commit(FoldEvent::Done),
        FoldAction::MoveTip {
            target: "parent".to_string()
        }
    );
    assert_eq!(fold.current_phase(), FoldPhase::Rewinding);
    assert_eq!(
        fold.git_post_commit(FoldEvent::Done),
        FoldAction::Diff {
            parent: "parent".to_string(),
            child: "child".to_string()
        }
    );
    assert_eq!(fold.current_phase(), FoldPhase::Discovering);
    assert_eq!(
        fold.git_post_commit(changes()),
        FoldAction::ReadPointers {
            commit: "child".to_string(),
            paths: vec![b"src/file.one.txt".to_vec(), b"notes.txt".to_vec()]
        }
    );
    assert_eq!(fold.current_phase(), FoldPhase::Reading);
    assert_eq!(
        fold.git_post_commit(FoldEvent::Pointers(vec![
            Pointer::from_hash("manifest-one").render(),
            Pointer::from_hash("manifest-two").render(),
        ])),
        FoldAction::Merge {
            parents: vec![
                "manifest-one".to_string(),
                "manifest-two".to_string(),
                "child".to_string()
            ]
        }
    );
    assert_eq!(fold.current_phase(), FoldPhase::Folding);
    assert_eq!(
        fold.git_post_commit(FoldEvent::Merged("fold".to_string())),
        FoldAction::PublishRef {
            name: "refs/gfs/fold".to_string(),
            target: "fold".to_string()
        }
    );
    assert_eq!(fold.current_phase(), FoldPhase::Publishing);
    assert_eq!(
        fold.git_post_commit(FoldEvent::Done),
        FoldAction::MoveTip {
            target: "child".to_string()
        }
    );
    assert_eq!(fold.current_phase(), FoldPhase::Restoring);
    assert_eq!(
        fold.git_post_commit(FoldEvent::Done),
        FoldAction::Stop(Ok(()))
    );
    assert_eq!(fold.current_phase(), FoldPhase::Finished);
}

#[test]
fn commit_that_touched_no_large_file_is_folded_alone() {
    let mut fold = rewound();
    assert_eq!(
        fold.git_post_commit(FoldEvent::Changes {
            changes: vec![changed(ChangeKind::Addition, "src/main.rs")],
            matches: tracked_text_files(),
        }),
        FoldAction::ReadPointers {
            commit: "child".to_string(),
            paths: vec![]
        }
    );
    assert_eq!(
        fold.git_post_commit(FoldEvent::Pointers(vec![])),
        FoldAction::Merge {
            parents: vec!["child".to_string()]
        }
    );
}

#[test]
fn failure_before_the_tip_moved_stops_at_once() {
    let mut fold = PostCommit::new();
    fold.git_post_commit(head("child", &["parent"]));
    assert_eq!(
        fold.git_post_commit(FoldEvent::Failed("cannot lock ref".to_string())),
        FoldAction::Stop(Err(GfsError::PlumbingError("cannot lock ref".to_string())))
    );
    assert_eq!(fold.current_phase(), FoldPhase::Finished);
    let mut fold = PostCommit::new();
    fold.git_post_commit(head("child", &["parent"]));
    fold.git_post_commit(FoldEvent::Done);
    assert_eq!(
        fold.git_post_commit(FoldEvent::Failed("cannot move".to_string())),
        FoldAction::Stop(Err(GfsError::PlumbingError("cannot move".to_string())))
    );
}

#[test]
fn failure_after_the_tip_moved_restores_it_first() {
    let answers: Vec<Box<dyn Fn() -> Vec<FoldEvent>>> = vec![
        Box::new(|| vec![]),
        Box::new(|| vec![changes()]),
        Box::new(|| {
            vec![
                changes(),
                FoldEvent::Pointers(vec![
                    Pointer::from_hash("m1").render(),
                    Pointer::from_hash("m2").render(),
                ]),
            ]
        }),
        Box::new(|| {
            vec![
                changes(),
                FoldEvent::Pointers(vec![
                    Pointer::from_hash("m1").render(),
                    Pointer::from_hash("m2").render(),
                ]),
                FoldEvent::Merged("fold".to_string()),
            ]
        }),
    ];
    for answers in answers {
        let mut fold = rewound();
        for answer in answers() {
            fold.git_post_commit(answer);
        }
        assert_eq!(
            fold.git_post_commit(FoldEvent::Failed("disk full".to_string())),
            FoldAction::MoveTip {
                target: "child".to_string()
            }
        );
        assert_eq!(fold.current_phase(), FoldPhase::Restoring);
        assert_eq!(
            fold.git_post_commit(FoldEvent::Done),
            FoldAction::Stop(Err(GfsError::HistoryCorruptionRisk(
                "disk full".to_string()
            )))
        );
        assert_eq!(fold.current_phase(), FoldPhase::Finished);
    }
}

#[test]
fn pointer_that_cannot_be_read_restores_the_tip() {
    let mut fold = rewound();
    fold.git_post_commit(changes());
    assert_eq!(
        fold.git_post_commit(FoldEvent::Pointers(vec![
            Pointer::from_hash("m1").render(),
            "Hello".to_string(),
        ])),
        FoldAction::MoveTip {
            target: "child".to_string()
        }
    );
    assert_eq!(
        fold.git_post_commit(FoldEvent::Done),
        FoldAction::Stop(Err(GfsError::HistoryCorruptionRisk(
            "malformed pointer".to_string()
        )))
    );
}

#[test]
fn answer_with_too_few_pointers_restores_the_tip() {
    let mut fold = rewound();
    fold.git_post_commit(changes());
    assert_eq!(
        fold.git_post_commit(FoldEvent::Pointers(vec![Pointer::from_hash("m1").render()])),
        FoldAction::MoveTip {
            target: "child".to_string()
        }
    );
    assert_eq!(
        fold.git_post_commit(FoldEvent::Done),
        FoldAction::Stop(Err(GfsError::HistoryCorruptionRisk(
            "answer out of turn".to_string()
        )))
    );
}

#[test]
fn answer_out_of_turn_restores_the_tip() {
    let mut fold = rewound();
    assert_eq!(
        fold.git_post_commit(FoldEvent::Merged("fold".to_string())),
        FoldAction::MoveTip {
            target: "child".to_string()
        }
    );
    let mut fold = PostCommit::new();
    assert_eq!(
        fold.git_post_commit(FoldEvent::Done),
        FoldAction::Stop(Err(GfsError::PlumbingError(
            "answer out of turn".to_string()
        )))
    );
}

#[test]
fn tip_that_cannot_be_restored_is_reported() {
    let mut fold = rewound();
    fold.git_post_commit(FoldEvent::Failed("disk full".to_string()));
    assert_eq!(
        fold.git_post_commit(FoldEvent::Failed("cannot lock ref".to_string())),
        FoldAction::Stop(Err(GfsError::HistoryCorruptionRisk(
            "cannot lock ref".to_string()
        )))
    );
    assert_eq!(
        fold.git_post_commit(FoldEvent::Done),
        FoldAction::Stop(Err(GfsError::PlumbingError(
            "answer out of turn".to_string()
        )))
    );
}

#[test]
fn parent_is_the_only_one() {
    let one = vec!["p".to_string()];
    assert_eq!(get_parent_id(&one), Some(&"p".to_string()));
    assert_eq!(get_parent_id(&vec![]), None);
    assert_eq!(get_parent_id(&vec!["p".to_string(), "q".to_string()]), None);
}

#[test]
fn references_are_the_hashes_of_the_pointers() {
    assert_eq!(
        get_tree_references(&vec![
            Pointer::from_hash("m1").render(),
            Pointer::from_hash("m2").render()
        ]),
        Ok(vec!["m1".to_string(), "m2".to_string()])
    );
    assert_eq!(get_tree_references(&vec![]), Ok(vec![]));
    let other = "{\n  \"version\": \"V3\",\n  \"pointer\": {}\n}".to_string();
    assert_eq!(
        get_tree_references(&vec![
            Pointer::from_hash("m1").render(),
            other,
            "Hello".to_string()
        ]),
        Err(GfsError::UnsupportedPointerVersion)
    );
}

#[test]
fn run_of_a_fold_ends_with_the_tip_back_at_the_commit() {
    let requests = fold_with(vec![
        head("child", &["parent"]),
        FoldEvent::Done,
        FoldEvent::Done,
        changes(),
        FoldEvent::Pointers(vec![
            Pointer::from_hash("m1").render(),
            Pointer::from_hash("m2").render(),
        ]),
        FoldEvent::Merged("fold".to_string()),
        FoldEvent::Done,
        FoldEvent::Done,
        FoldEvent::Done,
    ]);
    assert_eq!(requests.len(), 8);
    assert_eq!(
        requests[1],
        FoldAction::MoveTip {
            target: "parent".to_string()
        }
    );
    assert_eq!(
        requests[6],
        FoldAction::MoveTip {
            target: "child".to_string()
        }
    );
    assert_eq!(requests[7], FoldAction::Stop(Ok(())));
    let moves: Vec<&FoldAction> = requests
        .iter()
        .filter(|request| matches!(request, FoldAction::MoveTip { .. }))
        .collect();
    assert_eq!(moves.len(), 2);
}

#[test]
fn run_of_a_fold_that_fails_moves_the_tip_back_before_it_stops() {
    for failing in 3..7 {
        let mut answers = vec![
            head("child", &["parent"]),
            FoldEvent::Done,
            FoldEvent::Done,
            changes(),
            FoldEvent::Pointers(vec![
                Pointer::from_hash("m1").render(),
                Pointer::from_hash("m2").render(),
            ]),
            FoldEvent::Merged("fold".to_string()),
            FoldEvent::Done,
        ];
        answers.truncate(failing);
        answers.push(FoldEvent::Failed("no space left".to_string()));
        answers.push(FoldEvent::Done);
        let requests = fold_with(answers);
        assert_eq!(requests.len(), failing + 2);
        assert_eq!(
            requests[failing],
            FoldAction::MoveTip {
                target: "child".to_string()
            }
        );
        assert_eq!(
            requests[failing + 1],
            FoldAction::Stop(Err(GfsError::HistoryCorruptionRisk(
                "no space left".to_string()
            )))
        );
    }
}

#[test]
fn run_of_a_fold_asks_for_nothing_on_a_commit_without_one_parent() {
    assert_eq!(
        fold_with(vec![head("root", &[]), FoldEvent::Done, FoldEvent::Done]),
        vec![FoldAction::Stop(Ok(()))]
    );
    assert_eq!(
        fold_with(vec![head("merge", &["a", "b"])]),
        vec![FoldAction::Stop(Ok(()))]
    );
    assert_eq!(fold_with(vec![]), vec![]);
    assert_eq!(
        fold_with(vec![head("child", &["parent"])]),
        vec![FoldAction::PublishRef {
            name: "refs/gfs/child".to_string(),
            target: "child".to_string()
        }]
    );
}

#[test]
fn pointers_are_read_in_whatever_layout_they_were_committed() {
    let written = git_file_storage::Pointer::from_hash("1111").render();
    let on_one_line = "{\"version\":\"V1\",\"pointer\":{\"hash\":\"2222\"}}".to_string();
    let keys_turned = "{ \"pointer\": { \"hash\": \"3333\" }, \"version\": \"V1\" }\n".to_string();
    assert_eq!(
        get_tree_references(&vec![written, on_one_line, keys_turned]),
        Ok(vec![
            "1111".to_string(),
            "2222".to_string(),
            "3333".to_string()
        ])
    );
}
