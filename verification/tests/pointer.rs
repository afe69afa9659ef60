use git_file_storage::{GfsError, Pointer};

#[test]
fn from_hash() {
    let input = "38ihdsnf98dsnf".to_string();
    let pointer = Pointer::from_hash(&input);
    let expected = Pointer::V1 { hash: input };
    assert_eq!(pointer, expected)
}

#[test]
fn to_hash() {
    let input = "38ihdsnf98dsnf".to_string();
    let pointer = Pointer::V1 {
        hash: input.to_owned(),
    };
    let hash = pointer.hash();
    let expected = input;
    assert_eq!(hash, expected)
}

#[test]
fn render_writes_the_record() {
    let pointer = Pointer::from_hash("38ihdsnf98dsnf");
    let expected =
        "{\n  \"version\": \"V1\",\n  \"pointer\": {\n    \"hash\": \"38ihdsnf98dsnf\"\n  }\n}";
    assert_eq!(pointer.render(), expected);
}

#[test]
fn render_escapes_what_a_string_cannot_hold() {
    let pointer = Pointer::from_hash("a\"b\\c\nd\te\rf\u{8}g\u{c}h\u{1}i\u{1f}j");
    let expected = "{\n  \"version\": \"V1\",\n  \"pointer\": {\n    \"hash\": \"a\\\"b\\\\c\\nd\\te\\rf\\bg\\fh\\u0001i\\u001fj\"\n  }\n}";
    assert_eq!(pointer.render(), expected);
}

#[test]
fn render_does_not_grow_with_anything_but_the_hash() {
    let short = Pointer::from_hash("abc").render();
    let long = Pointer::from_hash("abcdef").render();
    assert_eq!(short.len() + 3, long.len());
    assert_eq!(Pointer::from_hash("").render().len(), 56);
}

#[test]
fn parse_reads_what_render_wrote() {
    for hash in [
        "",
        "a",
        "38ihdsnf98dsnf",
        "with \"quotes\" and \\ slash",
        "line\nbreak\ttab\r",
        "\u{1}\u{8}\u{c}\u{1f}",
        "\u{fc}n\u{ef}c\u{f6}d\u{e9} \u{2713}",
    ] {
        let pointer = Pointer::from_hash(hash);
        let text = pointer.render();
        assert_eq!(Pointer::parse(&text), Ok(pointer));
    }
}

#[test]
fn render_writes_back_what_parse_read() {
    let text = "{\n  \"version\": \"V1\",\n  \"pointer\": {\n    \"hash\": \"a\\u0002\\\\\"\n  }\n}";
    let pointer = Pointer::parse(text).unwrap();
    assert_eq!(pointer.hash(), "a\u{2}\\");
    assert_eq!(pointer.render(), text);
}

#[test]
fn render_is_json() {
    for hash in [
        "38ihdsnf98dsnf",
        "with \"quotes\" and \\ slash",
        "line\nbreak\ttab\r",
        "\u{1}\u{8}\u{c}\u{1f}",
        "\u{fc}n\u{ef}c\u{f6}d\u{e9} \u{2713}",
    ] {
        let text = Pointer::from_hash(hash).render();
        let value: serde_json::Value = serde_json::from_str(&text).unwrap();
        assert_eq!(value["version"], "V1");
        assert_eq!(value["pointer"]["hash"], hash);
    }
}

#[test]
fn parse_refuses_another_version() {
    let text = "{\n  \"version\": \"V2\",\n  \"pointer\": {\n    \"hash\": \"abc\"\n  }\n}";
    assert_eq!(
        Pointer::parse(text),
        Err(GfsError::UnsupportedPointerVersion)
    );
    let text = "{\n  \"version\": \"V9\", whatever follows";
    assert_eq!(
        Pointer::parse(text),
        Err(GfsError::UnsupportedPointerVersion)
    );
    let text = "{\n  \"version\": \"\",";
    assert_eq!(
        Pointer::parse(text),
        Err(GfsError::UnsupportedPointerVersion)
    );
}

#[test]
fn parse_refuses_other_text() {
    for text in [
        "",
        "Hello",
        "{}",
        "{\n  \"version\": \"V1\",\n  \"pointer\": {\n    \"hash\": \"a\nb\"\n  }\n}",
        "{\"version\":\"V1\"}",
        "{\"version\":\"V1\",\"pointer\":\"abc\"}",
        "{\"version\":\"V1\",\"pointer\":{}}",
        "{\"version\":\"V1\",\"pointer\":{\"hash\":5}}",
        "{\"version\":\"V1\",\"pointer\":{\"inner\":{\"hash\":\"abc\"}}}",
        "{\"version\":\"V1\",\"pointer\":{\"hash\":\"abc\"}",
        "{\"version\":\"V1\",\"pointer\":{\"hash\":\"abc\"}} and more",
        "{\"version\":\"V1\",\"pointer\":{\"hash\":\"abc\"}}{}",
        "{\"version\":\"V1\",\"pointer\":{\"hash\":\"abc\"},}",
        "{\"version\":\"V1\" \"pointer\":{\"hash\":\"abc\"}}",
        "{\"version\":\"V1\",\"pointer\":{\"hash\":\"abc\",}}",
        "{\"version\":\"V1\",\"pointer\":{\"hash\":\"abc\"},\"more\":}",
        "{\"version\":\"V1\",\"pointer\":{\"hash\":\"abc\"},\"more\":[1,]}",
        "{\"version\":\"V1\",\"pointer\":{\"hash\":\"abc\"},\"more\":[1 2]}",
        "{\"version\":\"V1\",\"pointer\":{\"hash\":\"abc\"},\"more\":[}",
        "{\"version\":\"V1\",\"pointer\":{\"hash\":\"abc\"},\"more\":01}",
        "{\"version\":\"V1\",\"pointer\":{\"hash\":\"abc\"},\"more\":1.}",
        "{\"version\":\"V1\",\"pointer\":{\"hash\":\"abc\"},\"more\":-}",
        "{\"version\":\"V1\",\"pointer\":{\"hash\":\"abc\"},\"more\":1e}",
        "{\"version\":\"V1\",\"pointer\":{\"hash\":\"abc\"},\"more\":+1}",
        "{\"version\":\"V1\",\"pointer\":{\"hash\":\"abc\"},\"more\":.5}",
        "{\"version\":\"V1\",\"pointer\":{\"hash\":\"abc\"},\"more\":True}",
        "{\"version\":\"V1\",\"pointer\":{\"hash\":\"abc\"},\"more\":nul}",
        "{\"version\":\"V1\",\"pointer\":{\"hash\":\"abc\"},\"more\":'a'}",
        "{\"version\":\"V1\",\"pointer\":{\"hash\":\"abc\"},more:1}",
        "{\"version\":\"V1\",\"pointer\":{\"hash\":\"abc\"},\"more\":\"a\nb\"}",
        "{\"version\":\"V1\",\"pointer\":{\"hash\":\"abc\"},\"more\"}",
        "{\"version\":\"V1\",\"pointer\":{\"hash\":\"abc\"},\"more\":1:2}",
        "{\"version\":\"V1\",,\"pointer\":{\"hash\":\"abc\"}}",
        "{,\"version\":\"V1\",\"pointer\":{\"hash\":\"abc\"}}",
        "{\"version\":\"V1\",\"pointer\":{\"hash\":\"abc\"}}}",
        "{\"version\":\"V1\",\"pointer\":{\"hash\":\"abc\"}}]",
        "{\"version\":\"V1\",\"pointer\":{\"hash\":\"abc\"},\"more\":[{]}}",
        "{\"version\":\"V1\",\"pointer\":{\"hash\":\"a\\xb\"}}",
        "{\"version\":\"V1\",\"pointer\":{\"hash\":\"a\\u12\"}}",
        "{\"version\":\"V1\",\"pointer\":{\"hash\":\"a\\ud83d\"}}",
        "{\"version\":\"V1\",\"pointer\":{\"hash\":\"a\\ude00\"}}",
        "{\"version\":\"V1\",\"pointer\":{\"hash\":\"a\\ud83d\\u0041\"}}",
        "{\n  \"version\": \"V1",
        "{\n  \"version\": \"V1\",\n  \"pointer\": {\n    \"hash\": \"abc",
    ] {
        assert_eq!(
            Pointer::parse(text),
            Err(GfsError::MalformedPointer),
            "{text:?}"
        );
    }
}

#[test]
fn errors_say_what_failed() {
    assert_eq!(
        GfsError::ConfigurationError.message(),
        "invalid chunk size bounds"
    );
    assert_eq!(GfsError::DanglingPointer.message(), "dangling pointer");
    assert_eq!(GfsError::TruncatedManifest.message(), "truncated manifest");
    assert_eq!(
        GfsError::UnsupportedPointerVersion.message(),
        "unsupported pointer version"
    );
    assert_eq!(GfsError::MalformedPointer.message(), "malformed pointer");
    assert_eq!(
        GfsError::PlumbingError("fatal: bad object".to_string()).message(),
        "plumbing failure: fatal: bad object"
    );
    assert_eq!(
        GfsError::IoError("broken pipe".to_string()).message(),
        "stream failure: broken pipe"
    );
    assert_eq!(
        GfsError::HistoryCorruptionRisk("no merge".to_string()).message(),
        "failure while the branch tip was moved: no merge"
    );
    assert_eq!(
        GfsError::PlumbingError(String::new()).message(),
        "plumbing failure"
    );
}

#[test]
fn another_version_is_told_in_any_spacing() {
    for text in [
        "{\"version\":\"V2\",\"pointer\":{\"hash\":\"abc\"}}",
        "{ \"version\" : \"V2\" , \"pointer\" : { \"hash\" : \"abc\" } }",
        "\n{\r\n\t\"version\"\t:\n\"v1\"}",
        "{\"version\":\"\"}",
        "  {\"version\":\"V10\", and what another version may hold",
        "{\"version\":\"V\\\"1\"}",
        "{\"pointer\":{\"hash\":\"abc\"},\"version\":\"V2\"}",
        "{\"pointer\":{\"version\":\"V1\",\"list\":[{\"version\":\"V1\"}]},\"note\":\"a \\\"version\\\": }\",\"version\":\"V3\"}",
        "{\"a\":\"version\",\"version\": \"other\"}",
    ] {
        assert_eq!(
            Pointer::parse(text),
            Err(GfsError::UnsupportedPointerVersion),
            "{text:?}"
        );
    }
}

#[test]
fn known_version_is_read_in_any_spacing_and_key_order() {
    for text in [
        "{\"version\":\"V1\",\"pointer\":{\"hash\":\"abc\"}}",
        "{ \"version\": \"V1\", \"pointer\": { \"hash\": \"abc\" } }",
        "{\"pointer\":{\"hash\":\"abc\"},\"version\":\"V1\"}",
        "{\n  \"version\": \"V1\",\n  \"pointer\": {\n    \"hash\": \"abc\"\n  }\n}\n",
        "\r\n\t{\"version\"\t:\n\"V1\"\r,\"pointer\" :\t{\n\"hash\"\n:\n\"abc\"}}  \n",
        "{\"note\":\"a \\\"version\\\": }\",\"version\":\"V1\",\"pointer\":{\"hash\":\"abc\"}}",
        "{\"list\":[{\"version\":\"V2\"}],\"pointer\":{\"more\":{\"hash\":\"xyz\"},\"hash\":\"abc\"},\"version\":\"V1\"}",
        "{\"version\":\"\\u00561\",\"pointer\":{\"hash\":\"\\u0061bc\"}}",
    ] {
        assert_eq!(
            Pointer::parse(text),
            Ok(Pointer::V1 {
                hash: "abc".to_string()
            }),
            "{text:?}"
        );
        let value: serde_json::Value = serde_json::from_str(text).unwrap();
        assert_eq!(value["version"], "V1");
        assert_eq!(value["pointer"]["hash"], "abc");
    }
}

#[test]
fn escapes_are_read_as_json_reads_them() {
    for (written, hash) in [
        ("a\\u0041", "aA"),
        ("a\\u000a", "a\n"),
        ("a\\u000A", "a\n"),
        ("a\\/b", "a/b"),
        ("\\\"\\\\\\b\\f\\n\\r\\t", "\"\\\u{8}\u{c}\n\r\t"),
        ("\\u00e9\\u00E9\\u2713", "\u{e9}\u{e9}\u{2713}"),
        ("\\ud83d\\ude00", "\u{1f600}"),
        ("\\uD83D\\uDE00", "\u{1f600}"),
        ("\\u0000", "\u{0}"),
        ("\u{7f}\u{e9}\u{1f600}", "\u{7f}\u{e9}\u{1f600}"),
    ] {
        let text = format!("{{\"version\":\"V1\",\"pointer\":{{\"hash\":\"{written}\"}}}}");
        assert_eq!(
            Pointer::parse(&text),
            Ok(Pointer::V1 {
                hash: hash.to_string()
            }),
            "{text:?}"
        );
        let value: serde_json::Value = serde_json::from_str(&text).unwrap();
        assert_eq!(value["pointer"]["hash"], hash);
    }
}

#[test]
fn a_text_that_names_no_version_is_no_pointer() {
    for text in [
        "{\"pointer\":{\"version\":\"V2\"}}",
        "{\"pointer\":{\"hash\":\"abc\"}}\"version\":\"V2\"",
        "{\"version\":V2}",
        "{\"version\" \"V2\"}",
        "[\"version\":\"V2\"]",
        "{\"Version\":\"V2\"}",
        "{\"version\":\"V2",
        "{\"pointer\":{\"hash\":\"abc\"}}",
    ] {
        assert_eq!(
            Pointer::parse(text),
            Err(GfsError::MalformedPointer),
            "{text:?}"
        );
    }
}

#[test]
fn a_record_in_one_line_is_a_pointer() {
    let text = "{\"version\":\"V1\",\"pointer\":{\"hash\":\"abc\"}}";
    let expected = Pointer::V1 {
        hash: "abc".to_string(),
    };
    assert_eq!(Pointer::try_from(text), Ok(expected.clone()));
    assert_eq!(Pointer::parse(text), Ok(expected.clone()));
    let written = expected.render();
    assert_ne!(written, text);
    assert_eq!(Pointer::parse(&written), Ok(expected));
}

#[test]
fn try_from_reads_as_parse_does() {
    let pointer = Pointer::from_hash("38ihdsnf98dsnf");
    assert_eq!(String::try_from(&pointer), Ok(pointer.render()));
    for hash in ["", "abc", "a\"b\\c\nd", "\u{1}\u{fc}\u{2713}"] {
        let pointer = Pointer::from_hash(hash);
        let text = String::try_from(&pointer).unwrap();
        assert_eq!(Pointer::try_from(text.as_str()), Ok(pointer));
    }
    assert_eq!(Pointer::try_from(pointer.render().as_str()), Ok(pointer));
    assert_eq!(
        Pointer::try_from("{\"version\":\"V2\",\"pointer\":{\"hash\":\"abc\"}}"),
        Err(GfsError::UnsupportedPointerVersion)
    );
    assert_eq!(Pointer::try_from("Hello"), Err(GfsError::MalformedPointer));
}

#[test]
fn a_pointer_is_well_formed_whatever_else_it_holds() {
    for more in [
        "null",
        "true",
        "false",
        "0",
        "-0",
        "12",
        "-12.5",
        "1e9",
        "1E+9",
        "0.5e-3",
        "\"text\"",
        "\"\"",
        "[]",
        "[ ]",
        "{}",
        "{ }",
        "[1,2,3]",
        "[1, [2, [3, []]], {\"a\": null}]",
        "{\"a\":{\"b\":{\"c\":[true,false,null]}}}",
        "{\"version\":\"V2\",\"pointer\":{\"hash\":\"xyz\"}}",
        "[\"version\",\"pointer\",\"hash\"]",
        " \n[\t1 ,\r2 ]\n ",
    ] {
        for text in [
            format!("{{\"version\":\"V1\",\"pointer\":{{\"hash\":\"abc\"}},\"more\":{more}}}"),
            format!("{{\"more\":{more},\"version\":\"V1\",\"pointer\":{{\"hash\":\"abc\"}}}}"),
            format!("{{\"version\":\"V1\",\"pointer\":{{\"more\":{more},\"hash\":\"abc\"}}}}"),
            format!("{{\"version\":\"V1\",\"pointer\":{{\"hash\":\"abc\",\"more\":{more}}}}}"),
        ] {
            let value: serde_json::Value = serde_json::from_str(&text).unwrap();
            assert_eq!(value["version"], "V1");
            assert_eq!(value["pointer"]["hash"], "abc");
            assert_eq!(Pointer::parse(&text), Ok(Pointer::from_hash("abc")), "{text:?}");
        }
    }
}

#[test]
fn a_text_that_is_not_well_formed_is_no_pointer() {
    for more in [
        "", "nul", "tru", "True", "01", "1.", ".5", "-", "+1", "1e", "1e+", "0x10", "'a'", "[",
        "]", "{", "}", "[1,]", "[,1]", "[1 2]", "{\"a\"}", "{\"a\":}", "{\"a\":1,}", "{1:2}",
        "[}", "{]", "\"a", "\"\\x\"", "1 2", "1,2", "NaN", "--1", "1.e3", "[1]]",
    ] {
        let text =
            format!("{{\"version\":\"V1\",\"pointer\":{{\"hash\":\"abc\"}},\"more\":{more}}}");
        assert!(serde_json::from_str::<serde_json::Value>(&text).is_err(), "{text:?}");
        assert_eq!(
            Pointer::parse(&text),
            Err(GfsError::MalformedPointer),
            "{text:?}"
        );
    }
}

#[test]
fn a_key_that_stands_twice_is_refused() {
    for text in [
        "{\"version\":\"V1\",\"version\":\"V1\",\"pointer\":{\"hash\":\"abc\"}}",
        "{\"version\":\"V1\",\"pointer\":{\"hash\":\"abc\"},\"version\":\"V1\"}",
        "{\"version\":\"V1\",\"pointer\":{\"hash\":\"abc\"},\"version\":\"V2\"}",
        "{\"version\":\"V1\",\"pointer\":{\"hash\":\"abc\"},\"pointer\":{\"hash\":\"abc\"}}",
        "{\"pointer\":{\"hash\":\"abc\"},\"version\":\"V1\",\"pointer\":{}}",
        "{\"version\":\"V1\",\"pointer\":{\"hash\":\"abc\",\"hash\":\"abc\"}}",
        "{\"version\":\"V1\",\"pointer\":{\"hash\":\"abc\",\"hash\":\"xyz\"}}",
        "{\"version\":\"V1\",\"\\u0076ersion\":\"V1\",\"pointer\":{\"hash\":\"abc\"}}",
    ] {
        assert!(serde_json::from_str::<serde_json::Value>(text).is_ok(), "{text:?}");
        assert_eq!(
            Pointer::parse(text),
            Err(GfsError::MalformedPointer),
            "{text:?}"
        );
    }
    // the tag that stands first tells another version
    let text = "{\"version\":\"V2\",\"version\":\"V1\",\"pointer\":{\"hash\":\"abc\"}}";
    assert_eq!(
        Pointer::parse(text),
        Err(GfsError::UnsupportedPointerVersion)
    );
}

#[test]
fn a_key_is_read_as_json_reads_it() {
    for text in [
        "{\"\\u0076ersion\":\"V1\",\"pointer\":{\"hash\":\"abc\"}}",
        "{\"version\":\"V1\",\"p\\u006finter\":{\"hash\":\"abc\"}}",
        "{\"version\":\"V1\",\"pointer\":{\"h\\u0061sh\":\"abc\"}}",
        "{\"version \":\"V2\",\"version\":\"V1\",\"pointer\":{\"hash \":\"xyz\",\"hash\":\"abc\"}}",
        "{\"Version\":\"V2\",\"version\":\"V1\",\"pointer\":{\"Hash\":\"xyz\",\"hash\":\"abc\"}}",
    ] {
        let value: serde_json::Value = serde_json::from_str(text).unwrap();
        assert_eq!(value["version"], "V1");
        assert_eq!(value["pointer"]["hash"], "abc");
        assert_eq!(Pointer::parse(text), Ok(Pointer::from_hash("abc")), "{text:?}");
    }
}
