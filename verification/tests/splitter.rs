use git_file_storage::splitter::{number_parts, split_fixed, Part, Splitter};
use git_file_storage::GfsError;

fn part(index: usize, name: &str, bytes: &[u8]) -> Part {
    Part {
        index,
        name: name.to_string(),
        bytes: bytes.to_vec(),
    }
}

#[test]
fn fixed_split_of_ten_bytes_by_four() {
    let parts = split_fixed(b"abcdefghij", 4, 2).unwrap();
    assert_eq!(
        parts,
        vec![
            part(0, "aa", b"abcd"),
            part(1, "ab", b"efgh"),
            part(2, "ac", b"ij"),
        ]
    );
}

#[test]
fn fixed_split_of_an_exact_multiple_has_no_empty_part() {
    let parts = split_fixed(b"abcdefgh", 4, 1).unwrap();
    assert_eq!(parts, vec![part(0, "a", b"abcd"), part(1, "b", b"efgh")]);
}

#[test]
fn fixed_split_of_nothing_has_no_part() {
    assert_eq!(split_fixed(b"", 4, 2), Ok(vec![]));
}

#[test]
fn fixed_split_of_one_byte() {
    assert_eq!(split_fixed(b"x", 4, 2), Ok(vec![part(0, "aa", b"x")]));
    assert_eq!(split_fixed(b"x", 1, 2), Ok(vec![part(0, "aa", b"x")]));
}

#[test]
fn fixed_split_keeps_every_byte_in_order() {
    let data: Vec<u8> = (0..1000u32).map(|i| (i * 7 % 251) as u8).collect();
    for size in [1u32, 2, 3, 7, 250, 999, 1000, 1001, 4096] {
        let parts = split_fixed(&data, size, 3).unwrap();
        let mut joined = Vec::new();
        for (k, part) in parts.iter().enumerate() {
            assert_eq!(part.index, k);
            assert!(!part.bytes.is_empty());
            if k + 1 < parts.len() {
                assert_eq!(part.bytes.len(), size as usize);
            } else {
                assert!(part.bytes.len() <= size as usize);
            }
            joined.extend_from_slice(&part.bytes);
        }
        assert_eq!(joined, data);
        assert_eq!(parts.len(), data.len().div_ceil(size as usize));
    }
}

#[test]
fn fixed_split_refuses_a_size_of_zero() {
    assert_eq!(split_fixed(b"abc", 0, 2), Err(GfsError::ConfigurationError));
    assert!(matches!(Splitter::new(0), Err(GfsError::ConfigurationError)));
}

#[test]
fn fixed_split_refuses_a_width_out_of_range() {
    assert_eq!(split_fixed(b"abc", 4, 0), Err(GfsError::ConfigurationError));
    assert_eq!(
        split_fixed(b"abc", 4, 256),
        Err(GfsError::ConfigurationError)
    );
    assert_eq!(
        number_parts(vec![b"abc".to_vec()], 0),
        Err(GfsError::ConfigurationError)
    );
}

#[test]
fn parts_are_numbered_and_named_in_their_order() {
    assert_eq!(
        number_parts(vec![b"x".to_vec(), Vec::new(), b"yz".to_vec()], 1),
        Ok(vec![part(0, "a", b"x"), part(1, "b", b""), part(2, "c", b"yz")])
    );
    assert_eq!(number_parts(Vec::new(), 1), Ok(Vec::new()));
    let many = number_parts(vec![Vec::new(); 30], 1).unwrap();
    assert_eq!(many[25].name, "z");
    assert_eq!(many[26].name, "za");
    assert_eq!(many[29].index, 29);
}

#[test]
fn splitter_takes_no_more_than_the_part_has_room_for() {
    let mut splitter = Splitter::new(4).unwrap_or_else(|_| panic!("a splitter"));
    assert_eq!(splitter.write(b"ab"), (2, None));
    assert_eq!(splitter.write(b"cdefgh"), (2, Some(b"abcd".to_vec())));
    assert_eq!(splitter.write(b"efgh"), (4, Some(b"efgh".to_vec())));
    assert_eq!(splitter.write(b""), (0, None));
    assert_eq!(splitter.write(b"i"), (1, None));
    assert_eq!(splitter.flush(), Some(b"i".to_vec()));
}

#[test]
fn splitter_hands_out_nothing_at_the_end_of_a_full_part() {
    let mut splitter = Splitter::new(2).unwrap_or_else(|_| panic!("a splitter"));
    assert_eq!(splitter.write(b"xy"), (2, Some(b"xy".to_vec())));
    assert_eq!(splitter.flush(), None);
}

#[test]
fn splitter_fed_in_portions_splits_as_a_whole() {
    let data: Vec<u8> = (0..500u32).map(|i| (i * 13 % 256) as u8).collect();
    for portion in [1usize, 3, 7, 64, 500] {
        let mut splitter = Splitter::new(7).unwrap_or_else(|_| panic!("a splitter"));
        let mut pieces = Vec::new();
        for block in data.chunks(portion) {
            let mut rest = block;
            while !rest.is_empty() {
                let (taken, full) = splitter.write(rest);
                assert!(taken > 0);
                pieces.extend(full);
                rest = &rest[taken..];
            }
        }
        pieces.extend(splitter.flush());
        let whole: Vec<Vec<u8>> = split_fixed(&data, 7, 1)
            .unwrap()
            .into_iter()
            .map(|part| part.bytes)
            .collect();
        assert_eq!(pieces, whole);
    }
}
