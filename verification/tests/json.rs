use git_file_storage::json::{find_members, is_well_formed};

fn chars(text: &str) -> Vec<char> {
    text.chars().collect()
}

#[test]
fn well_formed_texts_are_told_from_others() {
    for text in [
        "null",
        "true",
        "false",
        "0",
        "-0",
        "7",
        "-12",
        "3.25",
        "-0.5",
        "1e3",
        "1E-3",
        "2.5e+10",
        "\"\"",
        "\"text\"",
        "\"\\\"\\\\\\/\\b\\f\\n\\r\\t\\u00e9\\ud83d\\ude00\"",
        "[]",
        "{}",
        " [ ] ",
        "\n{\t}\r\n",
        "[1,2,3]",
        "[[],[[]],{}]",
        "{\"a\":1}",
        "{\"a\":{\"b\":[null,true,false,\"c\",-1.5e2]},\"d\":[]}",
        "{\"a\" : 1 , \"b\" : [ 1 , 2 ] }",
        "{\"\":\"\"}",
        "{\"a\":1,\"a\":2}",
    ] {
        assert!(serde_json::from_str::<serde_json::Value>(text).is_ok(), "{text:?}");
        assert!(is_well_formed(&chars(text)), "{text:?}");
    }
    for text in [
        "",
        " ",
        "nul",
        "nulll",
        "True",
        "tru e",
        "01",
        "-",
        "+1",
        "1.",
        ".1",
        "1e",
        "1e+",
        "1.5.5",
        "0x1",
        "\"",
        "\"a",
        "\"a\nb\"",
        "\"\\x\"",
        "\"\\u12\"",
        "\"\\ud83d\"",
        "'a'",
        "[",
        "]",
        "{",
        "}",
        "[1,]",
        "[,]",
        "[1 2]",
        "[1,,2]",
        "{\"a\"}",
        "{\"a\":}",
        "{\"a\":1,}",
        "{,}",
        "{a:1}",
        "{1:2}",
        "{\"a\":1 \"b\":2}",
        "{\"a\"::1}",
        "[}",
        "{]",
        "[1]]",
        "{}{}",
        "1 2",
        "1,2",
        "[1] x",
    ] {
        assert!(serde_json::from_str::<serde_json::Value>(text).is_err(), "{text:?}");
        assert!(!is_well_formed(&chars(text)), "{text:?}");
    }
}

#[test]
fn members_are_found_where_their_values_begin() {
    let text = chars("{\"a\": 1, \"b\" :[2], \"a\":{\"a\":3}}");
    assert_eq!(find_members(&text, 0, &['a']), vec![6, 23]);
    assert_eq!(find_members(&text, 0, &['b']), vec![14]);
    assert_eq!(find_members(&text, 0, &['c']), Vec::<usize>::new());
    // the members of the object that stands at a place
    assert_eq!(find_members(&text, 23, &['a']), vec![28]);
    assert_eq!(find_members(&text, 14, &['a']), Vec::<usize>::new());
    // a key is told by what it reads as
    let text = chars("{\"\\u0061\":1,\"a\\u0062\":2}");
    assert_eq!(find_members(&text, 0, &['a']), vec![10]);
    assert_eq!(find_members(&text, 0, &['a', 'b']), vec![22]);
    // a string that is a value is no key, nor is a key inside a string
    let text = chars("{\"x\":\"a\",\"y\":\"\\\"a\\\":1\",\"a\":2}");
    assert_eq!(find_members(&text, 0, &['a']), vec![27]);
    // what is read stops where the text is no longer well formed
    let text = chars("{\"a\":1,\"b\":@,\"a\":2}");
    assert_eq!(find_members(&text, 0, &['a']), vec![5]);
    // a key without a colon behind it has no value
    let text = chars("{\"a\" 1}");
    assert_eq!(find_members(&text, 0, &['a']), Vec::<usize>::new());
    // no members where no object stands
    let text = chars("[\"a\",1]");
    assert_eq!(find_members(&text, 0, &['a']), Vec::<usize>::new());
    assert_eq!(find_members(&chars(""), 0, &['a']), Vec::<usize>::new());
}
