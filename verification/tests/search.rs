use minigrep::{run, search, search_case_insensitive, Config};

#[test]
fn case_sensitive() {
    let query = "duct";
    let contents = "\
Rust:
safe, fast, productive.
Pick three.
Duct tape.";
    assert_eq!(vec!["safe, fast, productive."], search(query, contents));
}

#[test]
fn case_insensitive() {
    let query = "rUsT";
    let contents = "\
Rust:
safe, fast, productive,
Pick three.
Trust me.";

    assert_eq!(
        vec!["Rust:", "Trust me."],
        search_case_insensitive(query, contents)
    )
}

#[test]
fn case_insensitive_keeps_indentation() {
    let query = "rUsT";
    let contents = "\
        Rust:
        safe, fast, productive,
        Pick three.
        Trust me.";

    assert_eq!(
        vec!["Rust:", "        Trust me."],
        search_case_insensitive(query, contents)
    )
}

#[test]
fn case_sensitive_misses_other_case() {
    let contents = "Rust:\nsafe, fast, productive,\nPick three.\nTrust me.";
    assert_eq!(vec!["Trust me."], search("rust", contents));
    assert_eq!(Vec::<&str>::new(), search("rUsT", contents));
}

#[test]
fn results_are_in_document_order() {
    let contents = "b1\na\nb2\nb1\nc\nb3";
    assert_eq!(vec!["b1", "b2", "b1", "b3"], search("b", contents));
    assert_eq!(vec!["b1", "b2", "b1", "b3"], search_case_insensitive("B", contents));
}

#[test]
fn ignoring_case_finds_what_exact_search_finds() {
    let contents = "Alpha beta\nALPHA\nalphabet\nnothing\nBeta alpha";
    let exact = search("lpha", contents);
    let loose = search_case_insensitive("lpha", contents);
    assert_eq!(vec!["Alpha beta", "alphabet", "Beta alpha"], exact);
    assert_eq!(vec!["Alpha beta", "ALPHA", "alphabet", "Beta alpha"], loose);
    for line in exact {
        assert!(loose.contains(&line));
    }
}

#[test]
fn ignoring_case_returns_lines_unchanged() {
    let contents = "MiXeD Case\nÄPFEL und Birnen\nplain";
    assert_eq!(vec!["MiXeD Case"], search_case_insensitive("mixed", contents));
    assert_eq!(vec!["ÄPFEL und Birnen"], search_case_insensitive("äpfel", contents));
    assert_eq!(vec!["ÄPFEL und Birnen"], search_case_insensitive("Äpfel UND", contents));
}

#[test]
fn final_sigma_folds_by_its_place_in_the_word() {
    let contents = "ΑΣ";
    assert_eq!(vec!["ΑΣ"], search("Σ", contents));
    assert_eq!(Vec::<&str>::new(), search_case_insensitive("Σ", contents));
    assert_eq!(vec!["ΑΣ"], search_case_insensitive("ας", contents));
}

#[test]
fn same_inputs_same_results() {
    let contents = "one\nTwo\nthree two\nTWO";
    assert_eq!(search("two", contents), search("two", contents));
    assert_eq!(
        search_case_insensitive("two", contents),
        search_case_insensitive("two", contents)
    );
    assert_eq!(vec!["three two"], search("two", contents));
    assert_eq!(vec!["Two", "three two", "TWO"], search_case_insensitive("two", contents));
}

#[test]
fn empty_query_returns_every_line() {
    let contents = "first\n\nthird\r\nfourth\n";
    let all = vec!["first", "", "third", "fourth"];
    assert_eq!(all, search("", contents));
    assert_eq!(all, search_case_insensitive("", contents));
}

#[test]
fn empty_document_has_no_results() {
    assert_eq!(Vec::<&str>::new(), search("x", ""));
    assert_eq!(Vec::<&str>::new(), search("", ""));
    assert_eq!(Vec::<&str>::new(), search_case_insensitive("x", ""));
    assert_eq!(Vec::<&str>::new(), search_case_insensitive("", ""));
}

#[test]
fn no_match_is_an_empty_result() {
    assert_eq!(Vec::<&str>::new(), search("zebra", "horse\ndonkey\nmule"));
    assert_eq!(Vec::<&str>::new(), search_case_insensitive("zebra", "horse\ndonkey\nmule"));
}

#[test]
fn query_does_not_match_across_lines() {
    assert_eq!(Vec::<&str>::new(), search("ab", "a\nb"));
    assert_eq!(Vec::<&str>::new(), search("a\nb", "a\nb"));
    assert_eq!(Vec::<&str>::new(), search("\n", "a\nb\n"));
}

#[test]
fn line_endings_are_not_part_of_a_line() {
    assert_eq!(vec!["end", "end"], search("end", "end\r\nmiddle\nend\n"));
    assert_eq!(Vec::<&str>::new(), search("\r", "one\r\ntwo\r\n"));
    assert_eq!(vec!["bare\rreturn"], search("\r", "bare\rreturn\nnext"));
    assert_eq!(vec!["last\r"], search("\r", "first\nlast\r"));
    assert_eq!(vec!["two\r"], search("\r", "one\r\ntwo\r\r\n"));
}

#[test]
fn multibyte_text_is_matched_by_character() {
    let contents = "naïve café\n日本語のテキスト\nплохо\nemoji 🦀 crab";
    assert_eq!(vec!["naïve café"], search("é", contents));
    assert_eq!(vec!["日本語のテキスト"], search("本語", contents));
    assert_eq!(vec!["emoji 🦀 crab"], search("🦀", contents));
    assert_eq!(vec!["плохо"], search_case_insensitive("ПЛОХО", contents));
    assert_eq!(Vec::<&str>::new(), search("ä", contents));
}

#[test]
fn search_agrees_with_the_standard_library() {
    let documents = [
        "",
        "\n",
        "\n\n",
        "\r\n",
        "\r",
        "a",
        "a\n",
        "a\r\n",
        "a\r",
        "a\n\nb",
        "a\r\n\r\nb\r\n",
        "\na",
        "ab\ncd\r\nef\rgh\n\rij",
        "Καλημέρα\nκόσμε\r\nΣ\n",
        "tab\there\n  indented\n",
    ];
    let queries = ["", "a", "b", "\r", "\n", "ab", "Σ", "e", " ", "\t"];
    for contents in documents {
        for query in queries {
            let exact: Vec<&str> = contents.lines().filter(|line| line.contains(query)).collect();
            assert_eq!(exact, search(query, contents));
            let folded = query.to_lowercase();
            let loose: Vec<&str> = contents
                .lines()
                .filter(|line| line.to_lowercase().contains(&folded))
                .collect();
            assert_eq!(loose, search_case_insensitive(query, contents));
        }
    }
}

#[test]
fn run_follows_the_case_mode() {
    let contents = "Rust:\nsafe, fast, productive,\nPick three.\nTrust me.";
    let exact = Config {
        query: String::from("rust"),
        file_path: String::from("poem.txt"),
        ignore_case: false,
    };
    let loose = Config {
        query: String::from("rust"),
        file_path: String::from("poem.txt"),
        ignore_case: true,
    };
    assert_eq!(vec!["Trust me."], run(exact, contents));
    assert_eq!(vec!["Rust:", "Trust me."], run(loose, contents));
}

#[test]
fn run_with_empty_query_returns_every_line() {
    let contents = "a\nB\n\nc";
    for ignore_case in [false, true] {
        let config = Config {
            query: String::new(),
            file_path: String::from("any"),
            ignore_case,
        };
        assert_eq!(vec!["a", "B", "", "c"], run(config, contents));
    }
}
