use sgrep::{matches_survive_folding, run, search, search_case_insensitive, Args};

#[test]
fn case_one_match() {
    let query = "duct";
    let contents = "\
Rust:
safe, fast, productive.
Pick three.";

    assert_eq!(vec!["safe, fast, productive."], search(query, contents));
}

#[test]
fn case_multi_match() {
    let query = "t";
    let contents = "\
Rust:
safe, fast, productive.
Pick three.";

    assert_eq!(
        vec!["Rust:", "safe, fast, productive.", "Pick three."],
        search(query, contents)
    );
}

#[test]
fn no_matches() {
    let query = "test";
    let contents = "\
Rust:
safe, fast, productive.
Pick three.";

    assert_eq!(Vec::<String>::new(), search(query, contents));
}

#[test]
fn case_insensitive_one_match() {
    let query = "RuSt";
    let contents = "\
Rust:
safe, fast, productive.
Pick three.
Trust me.";

    assert_eq!(
        vec!["Rust:", "Trust me."],
        search_case_insensitive(query, contents)
    );
}

#[test]
fn case_sensitive_search_minds_case() {
    let contents = "Rust:\nTrust me.\nRUST";
    assert_eq!(vec!["Trust me."], search("rust", contents));
    assert_eq!(vec!["Rust:"], search("Rust", contents));
    assert_eq!(Vec::<&str>::new(), search("RuSt", contents));
}

#[test]
fn empty_query_returns_every_line() {
    let contents = "Rust:\nsafe, fast, productive.\n\nPick three.\n";
    let all = vec!["Rust:", "safe, fast, productive.", "", "Pick three."];
    assert_eq!(all, search("", contents));
    assert_eq!(all, search_case_insensitive("", contents));
}

#[test]
fn empty_text_has_no_lines() {
    assert_eq!(Vec::<&str>::new(), search("a", ""));
    assert_eq!(Vec::<&str>::new(), search("", ""));
    assert_eq!(Vec::<&str>::new(), search_case_insensitive("a", ""));
    assert_eq!(Vec::<&str>::new(), search_case_insensitive("", ""));
}

#[test]
fn text_without_line_feed_is_one_line() {
    assert_eq!(vec!["only line"], search("line", "only line"));
    assert_eq!(vec!["only line"], search("", "only line"));
}

#[test]
fn final_line_feed_adds_no_line() {
    assert_eq!(vec!["one", "two"], search("", "one\ntwo\n"));
    assert_eq!(vec!["one", "two"], search("", "one\ntwo"));
    assert_eq!(vec!["one", "two", ""], search("", "one\ntwo\n\n"));
    assert_eq!(vec![""], search("", "\n"));
}

#[test]
fn carriage_return_before_line_feed_is_dropped() {
    assert_eq!(vec!["one", "two"], search("", "one\r\ntwo\r\n"));
    assert_eq!(Vec::<&str>::new(), search("\r", "one\r\ntwo\r\n"));
    assert_eq!(vec!["", "x"], search("", "\r\nx"));
}

#[test]
fn only_one_carriage_return_is_dropped() {
    assert_eq!(vec!["one\r", "two"], search("", "one\r\r\ntwo"));
    assert_eq!(vec!["one\r"], search("\r", "one\r\r\ntwo"));
}

#[test]
fn carriage_return_without_line_feed_stays() {
    assert_eq!(vec!["one", "two\r"], search("", "one\ntwo\r"));
    assert_eq!(vec!["a\rb"], search("\r", "a\rb\nc"));
    assert_eq!(vec!["\r"], search("", "\r"));
}

#[test]
fn no_line_holds_a_line_feed() {
    assert_eq!(Vec::<&str>::new(), search("\n", "a\nb\n"));
    assert_eq!(Vec::<&str>::new(), search("a\nb", "a\nb"));
    assert_eq!(Vec::<&str>::new(), search_case_insensitive("A\nB", "a\nb"));
}

#[test]
fn matches_keep_order_and_repeats() {
    let contents = "ab\ncd\nab\nxaby\ncd";
    assert_eq!(vec!["ab", "ab", "xaby"], search("ab", contents));
    assert_eq!(vec!["cd", "cd"], search("cd", contents));
    assert_eq!(vec!["ab", "ab", "xaby"], search_case_insensitive("AB", contents));
}

#[test]
fn query_may_be_the_whole_line_or_sit_at_either_end() {
    let contents = "abc\nxabc\nabcx\nab c\nbc";
    assert_eq!(vec!["abc", "xabc", "abcx"], search("abc", contents));
    assert_eq!(Vec::<&str>::new(), search("abcd", "abc"));
}

#[test]
fn found_lines_are_slices_of_the_text() {
    let contents = String::from("Rust:\nsafe, fast, productive.\nPick three.");
    let begin = contents.as_ptr() as usize;
    let end = begin + contents.len();
    for found in [search("e", &contents), search_case_insensitive("E", &contents)] {
        assert_eq!(vec!["safe, fast, productive.", "Pick three."], found);
        for line in found {
            let at = line.as_ptr() as usize;
            assert!(begin <= at && at + line.len() <= end);
        }
    }
    let found = search("Pick", &contents);
    assert_eq!(found[0].as_ptr() as usize, begin + contents.find("Pick").unwrap());
}

#[test]
fn folded_search_returns_lines_as_they_stand() {
    let contents = "RUST rules\nno match here\nTrUsT";
    assert_eq!(
        vec!["RUST rules", "TrUsT"],
        search_case_insensitive("rust", contents)
    );
    assert_eq!(
        vec!["RUST rules", "TrUsT"],
        search_case_insensitive("RUST", contents)
    );
}

#[test]
fn folding_reaches_beyond_ascii() {
    let contents = "\u{c4}pfel\n\u{e4}pfel\nApfel";
    assert_eq!(
        vec!["\u{c4}pfel", "\u{e4}pfel"],
        search_case_insensitive("\u{c4}PFEL", contents)
    );
    assert_eq!(vec!["\u{c4}pfel"], search("\u{c4}", contents));
}

#[test]
fn folding_may_lengthen_a_line_but_not_what_is_returned() {
    // U+0130 lowercases to two characters: `i` and U+0307.
    let contents = "\u{130}stanbul";
    assert_eq!(
        vec!["\u{130}stanbul"],
        search_case_insensitive("i\u{307}s", contents)
    );
    assert_eq!(Vec::<&str>::new(), search("i\u{307}s", contents));
}

#[test]
fn folded_search_keeps_what_plain_search_keeps() {
    let contents = "Rust:\nsafe, fast, productive.\nPick three.\nTrust me.\nRUST";
    for query in ["", "t", "T", "Rust", "rust", "RUST", "e.", "zzz"] {
        let plain = search(query, contents);
        let folded = search_case_insensitive(query, contents);
        assert!(plain.len() <= folded.len());
        let among: Vec<&str> = folded
            .iter()
            .copied()
            .filter(|line| line.contains(query))
            .collect();
        assert_eq!(plain, among);
    }
}

#[test]
fn folding_can_lose_a_match_at_a_final_sigma() {
    // A capital sigma lowercases to the final form at the end of a word and
    // to the medial form inside one, so the folded query ends in a
    // character that the folded line does not hold.
    let query = "\u{391}\u{3a3}";
    let contents = "\u{391}\u{3a3}\u{391}";
    assert_eq!(vec![contents], search(query, contents));
    assert_eq!(Vec::<&str>::new(), search_case_insensitive(query, contents));
    assert_eq!(
        vec!["\u{391}\u{3a3}"],
        search_case_insensitive(query, "\u{391}\u{3a3}")
    );
}

#[test]
fn folding_keeps_the_matches_of_plain_text() {
    let contents = "Rust:\nsafe, fast, productive.\nPick three.\nTrust me.\nRUST";
    for query in ["", "t", "T", "Rust", "rust", "RUST", "e.", "zzz"] {
        assert!(matches_survive_folding(query, contents));
    }
    assert!(matches_survive_folding("a", ""));
    assert!(matches_survive_folding("", ""));
}

#[test]
fn a_match_lost_by_folding_is_reported() {
    let query = "\u{391}\u{3a3}";
    let lost = "\u{391}\u{3a3}\u{391}";
    assert!(!matches_survive_folding(query, lost));
    assert!(matches_survive_folding(query, "\u{391}\u{3a3}"));
    assert!(matches_survive_folding(query, "\u{391}\u{3a3} \u{391}"));

    let contents = format!("first\n{}\n{}\nlast", query, lost);
    assert!(!matches_survive_folding(query, &contents));
    assert_eq!(vec![query, lost], search(query, &contents));
    assert_eq!(vec![query], search_case_insensitive(query, &contents));
}

#[test]
fn survival_of_matches_says_whether_folded_search_has_them_all() {
    let texts = [
        "Rust:\nTrust me.\nRUST",
        "\u{391}\u{3a3}\u{391}\nplain",
        "\u{130}stanbul\nistanbul",
        "",
    ];
    let queries = ["", "rust", "RUST", "\u{391}\u{3a3}", "\u{3a3}", "\u{130}", "i"];
    for contents in texts {
        for query in queries {
            let plain = search(query, contents);
            let folded = search_case_insensitive(query, contents);
            let has_all = plain.iter().all(|line| folded.contains(line));
            assert_eq!(has_all, matches_survive_folding(query, contents));
        }
    }
}

#[test]
fn text_cut_behind_a_line_feed_can_be_searched_in_parts() {
    let front = "Rust:\nsafe, fast, productive.\r\n";
    let back = "Pick three.\nTrust me.\n";
    let whole = format!("{}{}", front, back);
    for query in ["", "t", "us", "RUST", "."] {
        let mut parts = search(query, front);
        parts.extend(search(query, back));
        assert_eq!(search(query, &whole), parts);
        let mut parts = search_case_insensitive(query, front);
        parts.extend(search_case_insensitive(query, back));
        assert_eq!(search_case_insensitive(query, &whole), parts);
    }
}

#[test]
fn search_is_repeatable() {
    let contents = "Rust:\nsafe, fast, productive.\nPick three.";
    assert_eq!(search("t", contents), search("t", contents));
    assert_eq!(
        search_case_insensitive("T", contents),
        search_case_insensitive("T", contents)
    );
}

#[test]
fn run_searches_as_the_arguments_say() {
    let contents = "Rust:\nsafe, fast, productive.\nPick three.\nTrust me.";
    let with_case = Args {
        query: String::from("rust"),
        file_path: String::from("poem.txt"),
        case_sensitive: true,
    };
    let without_case = Args {
        query: String::from("rust"),
        file_path: String::from("poem.txt"),
        case_sensitive: false,
    };
    assert_eq!(vec!["Trust me."], run(with_case.clone(), contents));
    assert_eq!(search("rust", contents), run(with_case, contents));
    assert_eq!(vec!["Rust:", "Trust me."], run(without_case.clone(), contents));
    assert_eq!(
        search_case_insensitive("rust", contents),
        run(without_case, contents)
    );
}

#[test]
fn run_with_empty_query_returns_every_line() {
    let contents = "one\ntwo\n";
    for case_sensitive in [true, false] {
        let args = Args {
            query: String::new(),
            file_path: String::from("any"),
            case_sensitive,
        };
        assert_eq!(vec!["one", "two"], run(args, contents));
    }
}
