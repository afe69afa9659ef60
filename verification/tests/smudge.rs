use git_file_storage::manifest::{check_unbroken, make_content_id};
use git_file_storage::smudge::{concatenate, contents_request, smudge};
use git_file_storage::{
    GfsError, GitObjectId, IdScheme, Manifest, ManifestBuilder, Part, Pointer, Smudge,
    SmudgeAction, SmudgeEvent, SmudgePhase, TreeEntry,
};

fn entry(name: &str, id: &str) -> TreeEntry {
    TreeEntry {
        name: name.to_string(),
        id: id.to_string(),
    }
}

fn pointer_text(hash: &str) -> String {
    Pointer::from_hash(hash).render()
}

#[test]
fn parts_are_put_together_in_their_order() {
    let tree = vec![entry("aa", "id0"), entry("ab", "id1"), entry("ac", "id2")];
    let parts = vec![b"abcd".to_vec(), b"efgh".to_vec(), b"ij".to_vec()];
    assert_eq!(
        smudge(&pointer_text("m"), Some(tree), parts),
        Ok(b"abcdefghij".to_vec())
    );
}

#[test]
fn steps_follow_one_another() {
    let mut work = Smudge::new();
    assert_eq!(work.current_phase(), SmudgePhase::Start);
    assert_eq!(
        work.smudge(SmudgeEvent::Pointer(pointer_text("c0ffee"))),
        SmudgeAction::Resolve {
            reference: "refs/gfs/c0ffee".to_string()
        }
    );
    assert_eq!(work.current_phase(), SmudgePhase::Resolving);
    assert_eq!(
        work.smudge(SmudgeEvent::Tree(vec![entry("a", "id0"), entry("b", "id1")])),
        SmudgeAction::ReadParts {
            ids: vec!["id0".to_string(), "id1".to_string()],
            request: "contents id0\ncontents id1\n".to_string(),
        }
    );
    assert_eq!(work.current_phase(), SmudgePhase::Reading);
    assert_eq!(
        work.smudge(SmudgeEvent::Parts(vec![b"Hel".to_vec(), b"lo".to_vec()])),
        SmudgeAction::Emit(b"Hello".to_vec())
    );
    assert_eq!(work.current_phase(), SmudgePhase::Finished);
    assert_eq!(
        work.smudge(SmudgeEvent::Missing),
        SmudgeAction::Stop(GfsError::PlumbingError("answer out of turn".to_string()))
    );
}

#[test]
fn manifest_without_entries_is_a_file_of_no_bytes() {
    assert_eq!(smudge(&pointer_text("m"), Some(vec![]), vec![]), Ok(vec![]));
}

#[test]
fn reference_that_does_not_resolve_is_a_dangling_pointer() {
    assert_eq!(
        smudge(&pointer_text("m"), None, vec![]),
        Err(GfsError::DanglingPointer)
    );
}

#[test]
fn missing_part_is_a_truncated_manifest() {
    let tree = vec![entry("aa", "id0"), entry("ac", "id2")];
    assert_eq!(
        smudge(&pointer_text("m"), Some(tree), vec![b"ab".to_vec(), b"cd".to_vec()]),
        Err(GfsError::TruncatedManifest)
    );
    let tree = vec![entry("ab", "id1"), entry("ac", "id2")];
    assert_eq!(
        smudge(&pointer_text("m"), Some(tree), vec![b"ab".to_vec(), b"cd".to_vec()]),
        Err(GfsError::TruncatedManifest)
    );
    let tree = vec![entry("aa", "id0"), entry("ab", "id1")];
    assert_eq!(
        smudge(&pointer_text("m"), Some(tree), vec![b"ab".to_vec()]),
        Err(GfsError::TruncatedManifest)
    );
    let mut work = Smudge::new();
    work.smudge(SmudgeEvent::Pointer(pointer_text("m")));
    work.smudge(SmudgeEvent::Tree(vec![entry("a", "id0")]));
    assert_eq!(
        work.smudge(SmudgeEvent::Missing),
        SmudgeAction::Stop(GfsError::TruncatedManifest)
    );
}

#[test]
fn text_that_is_no_pointer_is_refused() {
    assert_eq!(
        smudge("Hello", Some(vec![]), vec![]),
        Err(GfsError::MalformedPointer)
    );
    let other = "{\n  \"version\": \"V7\",\n  \"pointer\": {\n    \"hash\": \"abc\"\n  }\n}";
    assert_eq!(
        smudge(other, Some(vec![]), vec![]),
        Err(GfsError::UnsupportedPointerVersion)
    );
}

#[test]
fn failure_of_the_store_is_surfaced() {
    let mut work = Smudge::new();
    work.smudge(SmudgeEvent::Pointer(pointer_text("m")));
    assert_eq!(
        work.smudge(SmudgeEvent::Failed("fatal: not a git repository".to_string())),
        SmudgeAction::Stop(GfsError::PlumbingError(
            "fatal: not a git repository".to_string()
        ))
    );
    assert_eq!(work.current_phase(), SmudgePhase::Finished);
    let mut work = Smudge::new();
    assert_eq!(
        work.smudge(SmudgeEvent::Tree(vec![])),
        SmudgeAction::Stop(GfsError::PlumbingError("answer out of turn".to_string()))
    );
}

#[test]
fn request_asks_for_each_object() {
    assert_eq!(contents_request(&vec![]), "");
    assert_eq!(
        contents_request(&vec!["3b18e5".to_string(), "ce0136".to_string()]),
        "contents 3b18e5\ncontents ce0136\n"
    );
    assert_eq!(
        concatenate(&vec![b"ab".to_vec(), vec![], b"c".to_vec()]),
        b"abc".to_vec()
    );
}

fn piece(index: usize, name: &str, bytes: &[u8]) -> Part {
    Part {
        index,
        name: name.to_string(),
        bytes: bytes.to_vec(),
    }
}

#[test]
fn manifest_is_built_from_parts_in_order() {
    let parts = vec![piece(0, "aa", b"abcd"), piece(1, "ab", b"efgh")];
    let manifest = Manifest::build(&parts, IdScheme::PositionDerived).unwrap();
    assert_eq!(manifest.part_ids(), vec!["aa", "ab"]);
    assert_eq!(manifest.entries()[1].index, 1);
    assert_eq!(manifest.entries()[1].name, "ab");
    let manifest = Manifest::build(&parts, IdScheme::ContentDerived).unwrap();
    assert_eq!(
        manifest.part_ids(),
        vec![
            GitObjectId::from_contents(b"abcd").as_str(),
            GitObjectId::from_contents(b"efgh").as_str()
        ]
    );
    assert_eq!(
        manifest.to_tree(),
        vec![
            entry("aa", GitObjectId::from_contents(b"abcd").as_str()),
            entry("ab", GitObjectId::from_contents(b"efgh").as_str())
        ]
    );
    assert_eq!(Manifest::from_tree(&manifest.to_tree()), Ok(manifest));
    assert_eq!(
        make_content_id(IdScheme::PositionDerived, "ab", b"efgh"),
        "ab"
    );
    assert_eq!(
        make_content_id(IdScheme::ContentDerived, "ab", b"hello world\n"),
        "3b18e512dba79e4c8300dd08aeb37f8e728b8dad"
    );
}

#[test]
fn manifest_is_not_built_from_parts_with_a_gap() {
    for parts in [
        vec![piece(0, "aa", b"x"), piece(2, "ac", b"y")],
        vec![piece(0, "aa", b"x"), piece(1, "ac", b"y")],
        vec![piece(1, "aa", b"x")],
        vec![piece(0, "ab", b"x")],
        vec![piece(0, "", b"x")],
        vec![piece(0, "a", b"x"), piece(1, "ab", b"y")],
    ] {
        assert_eq!(
            Manifest::build(&parts, IdScheme::PositionDerived),
            Err(GfsError::TruncatedManifest)
        );
    }
}

#[test]
fn names_in_a_row_are_unbroken() {
    let names = |names: &[&str]| names.iter().map(|n| n.to_string()).collect::<Vec<String>>();
    assert!(check_unbroken(&names(&[])));
    assert!(check_unbroken(&names(&["a"])));
    assert!(check_unbroken(&names(&["aaa", "aab", "aac"])));
    assert!(!check_unbroken(&names(&["aab"])));
    assert!(!check_unbroken(&names(&["aaa", "aac"])));
    assert!(!check_unbroken(&names(&["aaa", "aaa"])));
    assert!(!check_unbroken(&names(&["aab", "aac"])));
    let mut long = vec!["y".to_string()];
    long.clear();
    let mut name = "a".to_string();
    for _ in 0..30 {
        long.push(name.clone());
        name = git_file_storage::part_name::next_part_name(name).unwrap();
    }
    assert_eq!(long[26], "za");
    assert!(check_unbroken(&long));
}

#[test]
fn builder_gives_each_part_its_place_and_its_name() {
    let mut builder = ManifestBuilder::new(IdScheme::ContentDerived, 2)
        .unwrap_or_else(|_| panic!("a builder"));
    let (first, fresh) = builder.add(b"abcd");
    assert_eq!((first.index, first.name.as_str(), fresh), (0, "aa", true));
    assert_eq!(first.id, GitObjectId::from_contents(b"abcd").as_str());
    let (second, fresh) = builder.add(b"efgh");
    assert_eq!((second.index, second.name.as_str(), fresh), (1, "ab", true));
    let (third, fresh) = builder.add(b"abcd");
    assert_eq!((third.index, third.name.as_str(), fresh), (2, "ac", false));
    assert_eq!(third.id, first.id);
    let manifest = builder.finish();
    assert_eq!(
        manifest.part_ids(),
        vec![first.id.clone(), second.id.clone(), first.id.clone()]
    );
    let parts = vec![
        piece(0, "aa", b"abcd"),
        piece(1, "ab", b"efgh"),
        piece(2, "ac", b"abcd"),
    ];
    assert_eq!(Manifest::build(&parts, IdScheme::ContentDerived), Ok(manifest));
}

#[test]
fn builder_names_by_place_where_asked_to() {
    let mut builder = ManifestBuilder::new(IdScheme::PositionDerived, 1)
        .unwrap_or_else(|_| panic!("a builder"));
    assert_eq!(builder.add(b"same").0.id, "a");
    let (second, fresh) = builder.add(b"same");
    assert_eq!((second.id.as_str(), fresh), ("b", true));
    assert_eq!(builder.finish().part_ids(), vec!["a", "b"]);
    let empty = ManifestBuilder::new(IdScheme::PositionDerived, 1)
        .unwrap_or_else(|_| panic!("a builder"))
        .finish();
    assert_eq!(empty.len(), 0);
}

#[test]
fn builder_refuses_a_width_out_of_range() {
    assert!(matches!(
        ManifestBuilder::new(IdScheme::ContentDerived, 0),
        Err(GfsError::ConfigurationError)
    ));
    assert!(matches!(
        ManifestBuilder::new(IdScheme::ContentDerived, 256),
        Err(GfsError::ConfigurationError)
    ));
}

#[test]
fn tree_of_stored_pairs_each_name_with_its_stored_id() {
    let mut builder = ManifestBuilder::new(IdScheme::PositionDerived, 2)
        .unwrap_or_else(|_| panic!("a builder"));
    builder.add(b"abcd");
    builder.add(b"efgh");
    builder.add(b"abcd");
    let manifest = builder.finish();
    let stored = vec!["1111".to_string(), "2222".to_string(), "1111".to_string()];
    let tree = manifest.tree_of_stored(&stored).unwrap();
    let names: Vec<&str> = tree.iter().map(|entry| entry.name.as_str()).collect();
    let ids: Vec<&str> = tree.iter().map(|entry| entry.id.as_str()).collect();
    assert_eq!(names, vec!["aa", "ab", "ac"]);
    assert_eq!(ids, vec!["1111", "2222", "1111"]);
    // the tree reads back as a manifest of the same names
    let read = Manifest::from_tree(&tree).unwrap();
    assert_eq!(read.part_ids(), vec!["1111", "2222", "1111"]);
    assert_eq!(read.len(), manifest.len());
}

#[test]
fn tree_of_stored_wants_one_id_for_each_part() {
    let mut builder = ManifestBuilder::new(IdScheme::ContentDerived, 2)
        .unwrap_or_else(|_| panic!("a builder"));
    builder.add(b"abcd");
    builder.add(b"efgh");
    let manifest = builder.finish();
    assert_eq!(manifest.tree_of_stored(&vec!["1111".to_string()]), None);
    assert_eq!(manifest.tree_of_stored(&Vec::new()), None);
    let three = vec!["1".to_string(), "2".to_string(), "3".to_string()];
    assert_eq!(manifest.tree_of_stored(&three), None);
    let empty = ManifestBuilder::new(IdScheme::ContentDerived, 2)
        .unwrap_or_else(|_| panic!("a builder"))
        .finish();
    assert_eq!(empty.tree_of_stored(&Vec::new()), Some(Vec::new()));
}
