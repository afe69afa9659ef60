use git_file_storage::part_name::{check_part_name, first_part_name, next_part_name, MAX_WIDTH};

fn after(name: &str) -> String {
    next_part_name(name.to_string()).unwrap()
}

#[test]
fn first_name_is_a_row_of_a() {
    assert_eq!(first_part_name(1), Some("a".to_string()));
    assert_eq!(first_part_name(4), Some("aaaa".to_string()));
    assert_eq!(first_part_name(MAX_WIDTH).unwrap().len(), 255);
}

#[test]
fn first_name_needs_a_width_in_range() {
    assert_eq!(first_part_name(0), None);
    assert_eq!(first_part_name(MAX_WIDTH + 1), None);
}

#[test]
fn next_name_counts_up() {
    assert_eq!(after("aa"), "ab");
    assert_eq!(after("az"), "ba");
    assert_eq!(after("ay"), "az");
    assert_eq!(after("azz"), "baa");
    assert_eq!(after("zaz"), "zba");
    assert_eq!(after("a"), "b");
}

#[test]
fn next_name_grows_when_all_letters_are_z() {
    assert_eq!(after("z"), "za");
    assert_eq!(after("zz"), "zza");
    assert_eq!(after("zza"), "zzb");
    assert_eq!(after("zzz"), "zzza");
}

#[test]
fn next_name_needs_a_name() {
    assert_eq!(next_part_name("".to_string()), None);
    assert_eq!(next_part_name("aB".to_string()), None);
    assert_eq!(next_part_name("a1".to_string()), None);
    assert_eq!(next_part_name("a/b".to_string()), None);
    assert!(check_part_name("abc"));
    assert!(!check_part_name("ab c"));
}

#[test]
fn names_sort_as_they_follow() {
    let mut name = first_part_name(1).unwrap();
    for _ in 0..2000 {
        let next = after(&name);
        assert!(name < next, "{name} {next}");
        name = next;
    }
}

/// The name after a name, worked out letter by letter.
fn counted(name: &str) -> String {
    let mut letters: Vec<u8> = name.bytes().collect();
    if letters.iter().all(|letter| *letter == b'z') {
        letters.push(b'a');
    } else {
        let mut at = letters.len() - 1;
        while letters[at] == b'z' {
            letters[at] = b'a';
            at -= 1;
        }
        letters[at] += 1;
    }
    String::from_utf8(letters).unwrap()
}

#[test]
fn next_name_is_the_name_counted_up() {
    for width in [1usize, 2, 3] {
        let mut name = first_part_name(width).unwrap();
        for _ in 0..20_000 {
            let next = after(&name);
            assert_eq!(next, counted(&name));
            name = next;
        }
    }
}
