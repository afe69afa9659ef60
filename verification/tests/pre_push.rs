use git_file_storage::pre_push::{
    plan_push, pointer_base, pre_push, push_as_pack, push_packs, split_at_spaces, Batch,
    OutgoingCommit, PointerBase, PushUpdate, Stage,
};

fn batch(first: usize, last: usize) -> Batch {
    Batch { first, last }
}

#[test]
fn batches_close_when_the_next_commit_would_go_over() {
    assert_eq!(
        push_packs(&vec![10, 20, 30, 40], 50),
        vec![batch(0, 1), batch(2, 2), batch(3, 3)]
    );
}

#[test]
fn batch_may_reach_the_limit() {
    assert_eq!(push_packs(&vec![25, 25], 50), vec![batch(0, 1)]);
    assert_eq!(
        push_packs(&vec![25, 25, 1], 50),
        vec![batch(0, 1), batch(2, 2)]
    );
}

#[test]
fn commit_over_the_limit_is_a_batch_of_its_own() {
    assert_eq!(push_packs(&vec![100], 50), vec![batch(0, 0)]);
    assert_eq!(
        push_packs(&vec![10, 100, 10, 10], 50),
        vec![batch(0, 0), batch(1, 1), batch(2, 3)]
    );
    assert_eq!(
        push_packs(&vec![u64::MAX, u64::MAX, 1], u64::MAX - 1),
        vec![batch(0, 0), batch(1, 1), batch(2, 2)]
    );
}

#[test]
fn no_commit_gives_no_batch() {
    assert_eq!(push_packs(&vec![], 50), vec![]);
}

#[test]
fn batches_take_the_commits_apart_exactly() {
    let sizes: Vec<u64> = (0..200u64).map(|i| (i * 37 + 11) % 97).collect();
    for limit in [1u64, 50, 96, 97, 300, 100_000] {
        let batches = push_packs(&sizes, limit);
        let mut next = 0;
        for (k, b) in batches.iter().enumerate() {
            assert_eq!(b.first, next);
            assert!(b.first <= b.last);
            let total: u64 = sizes[b.first..=b.last].iter().sum();
            assert!(total <= limit || (b.first == b.last && sizes[b.first] > limit));
            if k + 1 < batches.len() {
                assert!(total + sizes[b.last + 1] > limit);
            }
            next = b.last + 1;
        }
        assert_eq!(next, sizes.len());
    }
}

#[test]
fn hook_line_has_four_pieces() {
    let update = pre_push("refs/heads/main 1111 refs/heads/main 2222").unwrap();
    assert_eq!(
        update,
        PushUpdate {
            local_ref: "refs/heads/main".to_string(),
            local_sha: "1111".to_string(),
            remote_ref: "refs/heads/main".to_string(),
            remote_sha: "2222".to_string(),
        }
    );
    assert_eq!(update.rev_list(), vec!["rev-list", "1111", "--not", "2222"]);
}

#[test]
fn hook_line_with_other_pieces_is_none() {
    assert_eq!(pre_push(""), None);
    assert_eq!(pre_push("a b c"), None);
    assert_eq!(pre_push("a b c d e"), None);
    assert_eq!(pre_push("a  b c d"), None);
    assert!(pre_push("a  c d").is_some());
}

#[test]
fn line_is_split_at_every_space() {
    for line in ["", " ", "a", "a b", " a", "a ", "a  b", "a b c d"] {
        let expected: Vec<String> = line.split(' ').map(|piece| piece.to_string()).collect();
        assert_eq!(split_at_spaces(line), expected, "{line:?}");
    }
}

#[test]
fn pack_is_sent_from_its_first_commit_to_its_last() {
    let commits: Vec<String> = ["c0", "c1", "c2"].iter().map(|c| c.to_string()).collect();
    assert_eq!(
        push_as_pack(&commits, batch(0, 2)),
        vec!["send-pack", "c0", "c2"]
    );
    assert_eq!(push_as_pack(&commits, batch(1, 1)), vec!["send-pack", "c1"]);
}

fn commit(id: &str, size: u64, manifests: &[&str]) -> OutgoingCommit {
    OutgoingCommit {
        id: id.to_string(),
        size,
        manifests: manifests.iter().map(|m| m.to_string()).collect(),
    }
}

#[test]
fn references_go_ahead_of_the_batch_that_needs_them() {
    let commits = vec![
        commit("c0", 10, &["m0"]),
        commit("c1", 20, &[]),
        commit("c2", 30, &["m1", "m2"]),
        commit("c3", 40, &["m0"]),
    ];
    assert_eq!(
        plan_push(&commits, 50),
        vec![
            Stage {
                references: vec!["refs/gfs/m0".to_string()],
                batch: batch(0, 1),
            },
            Stage {
                references: vec!["refs/gfs/m1".to_string(), "refs/gfs/m2".to_string()],
                batch: batch(2, 2),
            },
            Stage {
                references: vec!["refs/gfs/m0".to_string()],
                batch: batch(3, 3),
            },
        ]
    );
    assert_eq!(plan_push(&vec![], 50), vec![]);
}

#[test]
fn commits_are_listed_oldest_first() {
    let update = pre_push("refs/heads/main 1111 refs/heads/main 2222").unwrap();
    assert_eq!(
        update.rev_list_oldest_first(),
        vec!["rev-list", "--reverse", "1111", "--not", "2222"]
    );
    assert_eq!(update.rev_list(), vec!["rev-list", "1111", "--not", "2222"]);
}

#[test]
fn pointers_are_read_against_the_one_parent() {
    assert_eq!(pointer_base(&Vec::new()), PointerBase::Nothing);
    assert_eq!(
        pointer_base(&vec!["1111".to_string()]),
        PointerBase::Parent("1111".to_string())
    );
    assert_eq!(
        pointer_base(&vec!["1111".to_string(), "2222".to_string()]),
        PointerBase::NoneRead
    );
    assert_eq!(
        pointer_base(&vec![
            "1111".to_string(),
            "2222".to_string(),
            "3333".to_string()
        ]),
        PointerBase::NoneRead
    );
}
