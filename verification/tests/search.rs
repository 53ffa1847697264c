use grop::{contains, find_from, matches_at, scan, search, search_case_insensitive};

#[test]
fn case_sensitive() {
    let query = "duct";
    let contents = "\
Rust:
safe, fast, productive.
Pick three.
Duct tape.";

    assert_eq!(vec!["safe, fast, productive."], search(query, contents));
}

#[test]
fn case_insensitive() {
    let query = "rUsT";
    let contents = "\
Rust:
safe, fast, productive.
Pick three.
Trust me.";
    assert_eq!(
        vec!["Rust:", "Trust me."],
        search_case_insensitive(query, contents)
    );
}

#[test]
fn mixed_case_query_finds_rust_where_case_is_ignored() {
    let contents = "Rust:\nsafe, fast, productive.\nPick three.\nDuct tape.";
    assert_eq!(search_case_insensitive("rUsT", contents), vec!["Rust:"]);
    assert_eq!(search("rUsT", contents), Vec::<&str>::new());
    assert_eq!(
        search_case_insensitive("rUsT", "Rust:\nI trust you.\nTRUSTED\nrest"),
        vec!["Rust:", "I trust you.", "TRUSTED"]
    );
}

#[test]
fn verbatim_search_does_not_fold_case() {
    let contents = "Rust:\nsafe, fast, productive.\nPick three.\nDuct tape.";
    assert_eq!(search("Duct", contents), vec!["Duct tape."]);
    assert_eq!(search("DUCT", contents), Vec::<&str>::new());
}

#[test]
fn folded_search_finds_every_casing() {
    let contents = "Rust:\nsafe, fast, productive.\nPick three.\nDuct tape.";
    assert_eq!(
        search_case_insensitive("duct", contents),
        vec!["safe, fast, productive.", "Duct tape."]
    );
    assert_eq!(
        search_case_insensitive("RUST", "Rust:\nTRUST\nrusty\nrest"),
        vec!["Rust:", "TRUST", "rusty"]
    );
}

#[test]
fn folded_search_lowers_text_beyond_ascii() {
    assert_eq!(
        search_case_insensitive("ärger", "kein ÄRGER\nkein Aerger"),
        vec!["kein ÄRGER"]
    );
    assert_eq!(search("ärger", "kein ÄRGER\nkein Aerger"), Vec::<&str>::new());
}

#[test]
fn scan_agrees_with_both_searches() {
    let contents = "one\nTwo\nthree two\n";
    assert_eq!(scan(contents, "two", false), search("two", contents));
    assert_eq!(
        scan(contents, "two", true),
        search_case_insensitive("two", contents)
    );
    assert_eq!(scan(contents, "two", false), vec!["three two"]);
    assert_eq!(scan(contents, "two", true), vec!["Two", "three two"]);
}

#[test]
fn lines_come_out_in_order_and_repeated() {
    let contents = "b a\na\nc\na\nb a\n";
    assert_eq!(search("a", contents), vec!["b a", "a", "a", "b a"]);
}

#[test]
fn empty_query_selects_every_line() {
    let texts = [
        "",
        "a",
        "a\n",
        "a\n\n",
        "\n",
        "\n\n",
        "a\nb",
        "a\r\nb\r\n",
        "a\r",
        "a\r\n",
        "\r\n",
        "\r",
        "a\rb\n",
        "x\n\r\ny",
        "a\r\r\n",
        "größe\nmaß\n",
    ];
    for text in texts {
        let expected: Vec<&str> = text.lines().collect();
        assert_eq!(scan(text, "", false), expected);
        assert_eq!(scan(text, "", true), expected);
    }
}

#[test]
fn line_endings_are_not_part_of_a_line() {
    assert_eq!(search("a", "a\r\nb\r\na"), vec!["a", "a"]);
    assert_eq!(search("\r", "a\r\nb\rc\n"), vec!["b\rc"]);
    assert_eq!(search("\n", "a\nb\n"), Vec::<&str>::new());
    assert_eq!(search("b", "a\nb"), vec!["b"]);
    assert_eq!(search("b", "a\nb\n"), vec!["b"]);
}

#[test]
fn no_line_matches() {
    assert_eq!(search("x", "a\nb\nc"), Vec::<&str>::new());
    assert_eq!(search("x", ""), Vec::<&str>::new());
    assert_eq!(search("abcd", "abc"), Vec::<&str>::new());
}

#[test]
fn contains_agrees_with_the_standard_search() {
    let hays = ["", "a", "banana", "abcabc", "aaa", "safe, fast, productive."];
    let needles = ["", "a", "an", "ana", "nab", "abc", "cab", "duct", "aaaa", "bananas"];
    for hay in hays {
        for needle in needles {
            assert_eq!(
                contains(hay.as_bytes(), needle.as_bytes()),
                hay.contains(needle)
            );
        }
    }
}

#[test]
fn find_from_gives_the_first_occurrence() {
    let hay = "banana".as_bytes();
    assert_eq!(find_from(hay, b"a", 0), Some(1));
    assert_eq!(find_from(hay, b"a", 1), Some(1));
    assert_eq!(find_from(hay, b"a", 2), Some(3));
    assert_eq!(find_from(hay, b"a", 4), Some(5));
    assert_eq!(find_from(hay, b"a", 6), None);
    assert_eq!(find_from(hay, b"ana", 0), Some(1));
    assert_eq!(find_from(hay, b"ana", 2), Some(3));
    assert_eq!(find_from(hay, b"ana", 4), None);
    assert_eq!(find_from(hay, b"x", 0), None);
    assert_eq!(find_from(hay, b"bananas", 0), None);
}

#[test]
fn find_from_with_an_empty_needle() {
    let hay = "abc".as_bytes();
    assert_eq!(find_from(hay, b"", 0), Some(0));
    assert_eq!(find_from(hay, b"", 2), Some(2));
    assert_eq!(find_from(hay, b"", 3), Some(3));
    assert_eq!(find_from(hay, b"", 4), None);
    assert_eq!(find_from(b"", b"", 0), Some(0));
}

#[test]
fn matches_at_compares_at_one_offset() {
    let hay = "banana".as_bytes();
    assert!(matches_at(hay, b"ban", 0));
    assert!(!matches_at(hay, b"ban", 1));
    assert!(matches_at(hay, b"ana", 1));
    assert!(matches_at(hay, b"ana", 3));
    assert!(!matches_at(hay, b"ana", 4));
    assert!(matches_at(hay, b"", 6));
    assert!(!matches_at(hay, b"", 7));
    assert!(!matches_at(hay, b"bananas", 0));
}
