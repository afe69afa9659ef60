use git_file_storage::create_gfs_ref;

#[test]
fn should_create_ref() {
    let id = create_gfs_ref("chair-bro");
    assert_eq!(id, "refs/gfs/chair-bro");
}
