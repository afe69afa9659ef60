use git_file_storage::clean::{
    clean, clean_fixed, clean_with, publish, split, split_into_chunks, CleanOptions, SplitPolicy,
};
use git_file_storage::config::{avg_size, max_size, min_size, push_limit, Config};
use git_file_storage::smudge::smudge;
use git_file_storage::{Chunker, Cleaned, GfsError, GitObjectId, IdScheme, TreeEntry};

fn noise(len: usize, seed: u64) -> Vec<u8> {
    let mut state = seed;
    let mut bytes = Vec::with_capacity(len);
    for _ in 0..len {
        state = state
            .wrapping_mul(6364136223846793005)
            .wrapping_add(1442695040888963407);
        bytes.push((state >> 33) as u8);
    }
    bytes
}

fn options(min_size: u32, avg_size: u32, max_size: u32) -> CleanOptions {
    CleanOptions {
        min_size,
        max_size,
        avg_size,
    }
}

/// Answers as a store would that was handed what `cleaned` holds.
fn give_back(cleaned: &Cleaned) -> Result<Vec<u8>, GfsError> {
    let text = publish("0123456789abcdef0123456789abcdef01234567").pointer;
    let tree: Vec<TreeEntry> = cleaned.manifest.to_tree();
    let mut parts = Vec::new();
    for id in cleaned.manifest.part_ids() {
        let blob = cleaned.blobs.iter().find(|blob| blob.id == id).unwrap();
        parts.push(blob.bytes.clone());
    }
    smudge(&text, Some(tree), parts)
}

#[test]
fn twenty_kib_of_noise_fall_into_two_to_four_chunks() {
    let data = noise(20 * 1024, 1);
    let cleaned = clean(&data, options(1024, 8192, 32768)).unwrap();
    let count = cleaned.manifest.len();
    assert!((2..=4).contains(&count), "{count}");
    assert_eq!(cleaned.manifest.to_tree().len(), count);
    assert_eq!(give_back(&cleaned), Ok(data));
}

#[test]
fn chunks_make_up_the_bytes_and_keep_the_bounds() {
    for (len, seed) in [(0usize, 1u64), (1, 2), (63, 3), (64, 4), (65, 5), (1024, 6), (5000, 7), (70_000, 8)] {
        let data = noise(len, seed);
        let parts = split_into_chunks(&data, &options(64, 256, 1024)).unwrap();
        let mut joined = Vec::new();
        for (k, part) in parts.iter().enumerate() {
            assert_eq!(part.index, k);
            assert!(!part.bytes.is_empty());
            assert!(part.bytes.len() <= 1024);
            if k + 1 < parts.len() {
                assert!(part.bytes.len() >= 64);
            }
            joined.extend_from_slice(&part.bytes);
        }
        assert_eq!(joined, data);
        if len > 0 {
            assert_eq!(parts[0].name, "aaaa");
        }
        if parts.len() > 1 {
            assert_eq!(parts[1].name, "aaab");
        }
    }
}

#[test]
fn manifest_lists_the_ids_of_the_chunks() {
    let data = noise(5000, 9);
    let bounds = options(64, 256, 1024);
    let parts = split_into_chunks(&data, &bounds).unwrap();
    let cleaned = clean(&data, bounds).unwrap();
    let expected: Vec<String> = parts
        .iter()
        .map(|part| GitObjectId::from_contents(&part.bytes).as_str().to_string())
        .collect();
    assert_eq!(cleaned.manifest.part_ids(), expected);
    assert!(parts.len() > 4);
}

#[test]
fn same_bytes_give_the_same_ids() {
    let data = noise(30_000, 10);
    let first = clean(&data, options(64, 256, 1024)).unwrap();
    let second = clean(&data, options(64, 256, 1024)).unwrap();
    assert_eq!(first.manifest.part_ids(), second.manifest.part_ids());
    assert_eq!(first, second);
}

#[test]
fn files_with_a_common_run_share_a_chunk() {
    let common = noise(40_000, 11);
    let mut first = noise(3_000, 12);
    first.extend_from_slice(&common);
    let mut second = noise(5_000, 13);
    second.extend_from_slice(&common);
    second.extend_from_slice(&noise(2_000, 14));
    let bounds = options(64, 256, 1024);
    let first = clean(&first, bounds).unwrap();
    let second = clean(&second, bounds).unwrap();
    let first_ids = first.manifest.part_ids();
    let shared = second
        .manifest
        .part_ids()
        .iter()
        .filter(|id| first_ids.contains(id))
        .count();
    assert!(shared >= 1);
}

#[test]
fn equal_chunks_are_stored_once() {
    let data = vec![0u8; 4 * 1024];
    let cleaned = clean(&data, options(64, 256, 1024)).unwrap();
    assert_eq!(cleaned.manifest.len(), 4);
    assert_eq!(cleaned.blobs.len(), 1);
    assert_eq!(cleaned.blobs[0].bytes, vec![0u8; 1024]);
    assert_eq!(
        cleaned.blobs[0].id,
        GitObjectId::from_contents(&vec![0u8; 1024]).as_str()
    );
    assert_eq!(give_back(&cleaned), Ok(data));
}

#[test]
fn what_was_taken_in_is_given_back() {
    for (len, seed) in [(0usize, 20u64), (1, 21), (64, 22), (1024, 23), (1025, 24), (100_000, 25)] {
        let data = noise(len, seed);
        let cleaned = clean(&data, options(64, 256, 1024)).unwrap();
        assert_eq!(give_back(&cleaned), Ok(data));
    }
}

#[test]
fn fixed_parts_are_given_back() {
    let cleaned = clean_fixed(b"abcdefghij", 4, 2).unwrap();
    assert_eq!(cleaned.manifest.len(), 3);
    assert_eq!(cleaned.manifest.part_ids(), vec!["aa", "ab", "ac"]);
    let bytes: Vec<Vec<u8>> = cleaned.blobs.iter().map(|blob| blob.bytes.clone()).collect();
    assert_eq!(bytes, vec![b"abcd".to_vec(), b"efgh".to_vec(), b"ij".to_vec()]);
    assert_eq!(give_back(&cleaned), Ok(b"abcdefghij".to_vec()));
    for (len, size) in [(0usize, 4u32), (1, 4), (4, 4), (8, 4), (9, 4), (1000, 1), (1000, 7)] {
        let data = noise(len, 30);
        let cleaned = clean_fixed(&data, size, 3).unwrap();
        assert_eq!(give_back(&cleaned), Ok(data));
    }
}

#[test]
fn file_of_no_bytes_has_a_manifest_without_entries() {
    let cleaned = clean(b"", options(64, 256, 1024)).unwrap();
    assert_eq!(cleaned.manifest.len(), 0);
    assert!(cleaned.blobs.is_empty());
    let cleaned = clean_fixed(b"", 4, 2).unwrap();
    assert_eq!(cleaned.manifest.len(), 0);
}

#[test]
fn bounds_out_of_order_are_refused() {
    for bounds in [
        options(2048, 1024, 4096),
        options(1024, 8192, 4096),
        options(64, 256, 128),
        options(0, 0, 0),
        options(0, 256, 1024),
        options(300, 256, 1024),
    ] {
        assert_eq!(
            clean(b"some bytes", bounds),
            Err(GfsError::ConfigurationError),
            "{bounds:?}"
        );
        assert!(!bounds.is_usable());
        assert_eq!(bounds.fit(), None);
    }
    assert!(options(64, 256, 1024).is_usable());
    assert!(options(1, 1, 1).is_usable());
}

#[test]
fn bounds_in_order_are_fitted_to_the_chunker() {
    assert_eq!(options(64, 256, 1024).fit(), Some(options(64, 256, 1024)));
    assert_eq!(
        options(1_048_576, 4_194_304, 16_777_216).fit(),
        Some(options(1_048_576, 4_194_304, 16_777_216))
    );
    assert_eq!(
        options(1, 100_000, 1_000_000).fit(),
        Some(options(64, 100_000, 1_000_000))
    );
    assert_eq!(options(65, 257, 1025).fit(), Some(options(66, 256, 1024)));
    assert_eq!(options(64, 128, 1024).fit(), Some(options(64, 256, 1024)));
    assert_eq!(options(300, 301, 2001).fit(), Some(options(300, 300, 2000)));
    assert_eq!(options(301, 301, 2001).fit(), Some(options(302, 302, 2000)));
    assert_eq!(
        options(64, 8_388_608, 33_554_432).fit(),
        Some(options(64, 4_194_304, 16_777_216))
    );
    assert_eq!(options(64, 256, 512).fit(), None);
    assert_eq!(options(1025, 1025, 1025).fit(), None);
    assert_eq!(options(2_097_152, 4_194_304, 16_777_216).fit(), None);
    assert_eq!(options(5, 7, 9).fit(), None);
}

#[test]
fn chunks_keep_the_bounds_asked_for_whatever_they_are() {
    let data = noise(30_000, 60);
    for bounds in [
        options(1, 100_000, 1_000_000),
        options(1, 300, 2001),
        options(65, 257, 1025),
        options(64, 128, 1024),
        options(64, 256, 512),
        options(1025, 1025, 1025),
        options(5, 7, 9),
        options(1, 1, 1),
        options(999, 1000, 1001),
    ] {
        let parts = split_into_chunks(&data, &bounds).unwrap();
        let mut joined = Vec::new();
        for (k, part) in parts.iter().enumerate() {
            assert!(!part.bytes.is_empty());
            assert!(part.bytes.len() <= bounds.max_size as usize, "{bounds:?}");
            if k + 1 < parts.len() {
                assert!(part.bytes.len() >= bounds.min_size as usize, "{bounds:?}");
            }
            joined.extend_from_slice(&part.bytes);
        }
        assert_eq!(joined, data);
        let cleaned = clean(&data, bounds).unwrap();
        assert_eq!(cleaned.manifest.len(), parts.len());
        assert_eq!(give_back(&cleaned), Ok(data.clone()));
    }
}

#[test]
fn bounds_that_fit_nowhere_cut_at_the_average_size() {
    let data = noise(25, 61);
    let lengths: Vec<usize> = split_into_chunks(&data, &options(5, 7, 9))
        .unwrap()
        .iter()
        .map(|part| part.bytes.len())
        .collect();
    assert_eq!(lengths, vec![7, 7, 7, 4]);
    let mut chunker = Chunker::new(options(5, 7, 9)).unwrap_or_else(|_| panic!("a chunker"));
    assert_eq!(chunker.write(&data[..6]), Vec::<Vec<u8>>::new());
    assert_eq!(chunker.write(&data[6..15]), vec![data[..7].to_vec(), data[7..14].to_vec()]);
    assert_eq!(chunker.flush(), vec![data[14..15].to_vec()]);
}

#[test]
fn fitted_bounds_are_the_ones_the_chunker_is_run_with() {
    let data = noise(400_000, 62);
    let expected: Vec<usize> = fastcdc::v2020::FastCDC::new(&data, 64, 100_000, 1_000_000)
        .map(|chunk| chunk.length)
        .collect();
    let lengths: Vec<usize> = split_into_chunks(&data, &options(1, 100_000, 1_000_000))
        .unwrap()
        .iter()
        .map(|part| part.bytes.len())
        .collect();
    assert_eq!(lengths, expected);
}

#[test]
fn default_settings_take_a_small_file_in_as_one_part() {
    let bounds = CleanOptions::try_from(Config::default()).unwrap();
    let cleaned = clean(b"Hello", bounds).unwrap();
    assert_eq!(cleaned.manifest.len(), 1);
    assert_eq!(cleaned.blobs.len(), 1);
    assert_eq!(cleaned.blobs[0].bytes, b"Hello");
    assert_eq!(give_back(&cleaned), Ok(b"Hello".to_vec()));
    let policy = SplitPolicy::from_config(Config::default()).unwrap();
    let parts = split(b"Hello", policy, 4).unwrap();
    assert_eq!(parts.len(), 1);
    assert_eq!(parts[0].bytes, b"Hello");
    assert_eq!(parts[0].name, "aaaa");
}

#[test]
fn fixed_size_of_zero_is_refused() {
    assert_eq!(clean_fixed(b"abc", 0, 2), Err(GfsError::ConfigurationError));
    assert_eq!(clean_fixed(b"abc", 4, 0), Err(GfsError::ConfigurationError));
}

#[test]
fn settings_have_their_defaults() {
    let config = Config::default();
    assert_eq!(config.avg_size, 100_000);
    assert_eq!(config.min_size, 1);
    assert_eq!(config.max_size, 1_000_000);
    assert_eq!(config.fixed_size, None);
    assert_eq!(config.scheme, IdScheme::PositionDerived);
    assert_eq!(config.limit, 500_000_000);
    assert_eq!(avg_size(), 100_000);
    assert_eq!(min_size(), 1);
    assert_eq!(max_size(), 1_000_000);
    assert_eq!(push_limit(), 500_000_000);
}

#[test]
fn options_come_from_the_settings() {
    let config = Config {
        avg_size: 8192,
        min_size: 1024,
        max_size: 32768,
        ..Config::default()
    };
    assert_eq!(CleanOptions::try_from(config), Ok(options(1024, 8192, 32768)));
    assert_eq!(
        CleanOptions::try_from(Config::default()),
        Ok(options(1, 100_000, 1_000_000))
    );
    for config in [
        Config { avg_size: 4_294_967_296, min_size: 1, max_size: 2, ..Config::default() },
        Config { avg_size: 1, min_size: 4_294_967_296, max_size: 2, ..Config::default() },
        Config { avg_size: 1, min_size: 1, max_size: u64::MAX, ..Config::default() },
    ] {
        assert_eq!(
            CleanOptions::try_from(config),
            Err(GfsError::ConfigurationError)
        );
    }
    assert_eq!(
        CleanOptions::try_from(Config {
            avg_size: 4_294_967_295,
            min_size: 0,
            max_size: 7,
            ..Config::default()
        }),
        Ok(options(0, 4_294_967_295, 7))
    );
}

#[test]
fn publication_names_the_reference_and_the_pointer() {
    let publication = publish("4b825dc642cb6eb9a060e54bf8d69288fbee4904");
    assert_eq!(
        publication.reference,
        "refs/gfs/4b825dc642cb6eb9a060e54bf8d69288fbee4904"
    );
    assert_eq!(publication.target, "4b825dc642cb6eb9a060e54bf8d69288fbee4904");
    assert_eq!(
        publication.pointer,
        "{\n  \"version\": \"V1\",\n  \"pointer\": {\n    \"hash\": \"4b825dc642cb6eb9a060e54bf8d69288fbee4904\"\n  }\n}"
    );
    assert_eq!(publish("4b82"), publish("4b82"));
}

#[test]
fn stream_cut_in_portions_gives_the_chunks_of_the_whole() {
    let data = noise(50_000, 40);
    let bounds = options(64, 256, 1024);
    let whole: Vec<Vec<u8>> = split_into_chunks(&data, &bounds)
        .unwrap()
        .into_iter()
        .map(|part| part.bytes)
        .collect();
    for portion in [1usize, 63, 1024, 4096, 50_000] {
        let mut chunker = Chunker::new(bounds).unwrap_or_else(|_| panic!("a chunker"));
        let mut chunks = Vec::new();
        for block in data.chunks(portion) {
            chunks.extend(chunker.write(block));
        }
        chunks.extend(chunker.flush());
        assert_eq!(chunks, whole, "{portion}");
    }
}

#[test]
fn chunker_holds_back_what_may_still_change() {
    let bounds = options(64, 256, 1024);
    let mut chunker = Chunker::new(bounds).unwrap_or_else(|_| panic!("a chunker"));
    assert_eq!(chunker.write(&noise(1023, 41)), Vec::<Vec<u8>>::new());
    let more = chunker.write(&noise(1, 42));
    assert_eq!(more.len(), 1);
    assert!(more[0].len() >= 64 && more[0].len() <= 1024);
    let rest = chunker.flush();
    let held: usize = rest.iter().map(|chunk| chunk.len()).sum();
    assert_eq!(more[0].len() + held, 1024);
}

#[test]
fn chunker_refuses_bounds_out_of_order() {
    assert!(matches!(
        Chunker::new(options(0, 100_000, 1_000_000)),
        Err(GfsError::ConfigurationError)
    ));
    assert!(matches!(
        Chunker::new(options(1024, 512, 2048)),
        Err(GfsError::ConfigurationError)
    ));
    assert!(Chunker::new(options(1, 100_000, 1_000_000)).is_ok());
}

#[test]
fn chunks_are_those_of_the_chunker_run_over_the_whole() {
    let data = noise(200_000, 43);
    for (min_size, avg_size, max_size) in [(64u32, 256u32, 1024u32), (1024, 8192, 32768), (256, 1024, 65536)] {
        let expected: Vec<usize> = fastcdc::v2020::FastCDC::new(
            &data,
            min_size as usize,
            avg_size as usize,
            max_size as usize,
        )
        .map(|chunk| chunk.length)
        .collect();
        let lengths: Vec<usize> = split_into_chunks(&data, &options(min_size, avg_size, max_size))
            .unwrap()
            .iter()
            .map(|part| part.bytes.len())
            .collect();
        assert_eq!(lengths, expected);
    }
}

#[test]
fn policy_comes_from_the_settings() {
    assert_eq!(
        SplitPolicy::from_config(Config::default()),
        Ok(SplitPolicy::ContentDefined {
            options: options(1, 100_000, 1_000_000)
        })
    );
    assert_eq!(
        SplitPolicy::from_config(Config {
            fixed_size: Some(4),
            ..Config::default()
        }),
        Ok(SplitPolicy::FixedSize { size: 4 })
    );
    assert_eq!(
        SplitPolicy::from_config(Config {
            fixed_size: Some(0),
            ..Config::default()
        }),
        Ok(SplitPolicy::FixedSize { size: 0 })
    );
    assert_eq!(
        SplitPolicy::from_config(Config {
            fixed_size: Some(4_294_967_296),
            ..Config::default()
        }),
        Err(GfsError::ConfigurationError)
    );
    assert_eq!(
        SplitPolicy::from_config(Config {
            max_size: 4_294_967_296,
            ..Config::default()
        }),
        Err(GfsError::ConfigurationError)
    );
}

#[test]
fn file_is_split_under_the_policy() {
    let data = noise(3000, 50);
    let fixed = split(&data, SplitPolicy::FixedSize { size: 1000 }, 2).unwrap();
    assert_eq!(fixed.len(), 3);
    assert_eq!(fixed[2].name, "ac");
    let bounds = options(64, 256, 1024);
    assert_eq!(
        split(&data, SplitPolicy::ContentDefined { options: bounds }, 4),
        split_into_chunks(&data, &bounds)
    );
    assert_eq!(
        split(&data, SplitPolicy::FixedSize { size: 0 }, 2),
        Err(GfsError::ConfigurationError)
    );
    assert_eq!(
        split(&data, SplitPolicy::ContentDefined { options: options(3, 2, 1) }, 2),
        Err(GfsError::ConfigurationError)
    );
    assert_eq!(
        split(&data, SplitPolicy::FixedSize { size: 10 }, 0),
        Err(GfsError::ConfigurationError)
    );
}

#[test]
fn file_is_taken_in_under_any_policy_and_scheme() {
    let data = noise(10_000, 51);
    let bounds = options(64, 256, 1024);
    for policy in [
        SplitPolicy::FixedSize { size: 700 },
        SplitPolicy::ContentDefined { options: bounds },
    ] {
        for scheme in [IdScheme::ContentDerived, IdScheme::PositionDerived] {
            let cleaned = clean_with(&data, policy, scheme, 3).unwrap();
            assert_eq!(cleaned.manifest.entries()[0].name, "aaa");
            assert_eq!(cleaned.blobs.len(), cleaned.manifest.len());
            assert_eq!(give_back(&cleaned), Ok(data.clone()));
        }
    }
    let chunked = clean_with(
        &data,
        SplitPolicy::ContentDefined { options: bounds },
        IdScheme::PositionDerived,
        1,
    )
    .unwrap();
    assert_eq!(chunked.manifest.part_ids()[1], "b");
    let zeros = vec![0u8; 2100];
    let fixed = clean_with(
        &zeros,
        SplitPolicy::FixedSize { size: 700 },
        IdScheme::ContentDerived,
        1,
    )
    .unwrap();
    assert_eq!(fixed.manifest.len(), 3);
    assert_eq!(fixed.blobs.len(), 1);
    assert_eq!(give_back(&fixed), Ok(zeros));
}
