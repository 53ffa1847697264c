use grop::{exit_code, resolve, Args, Config, FileTarget, SearchError};

fn args(query: &str, file: &str, ignore_case: bool, filename: bool) -> Args {
    Args { query: query.to_string(), file: file.to_string(), ignore_case, filename }
}

fn built(args: Args) -> Config {
    match Config::build(args) {
        Ok(config) => config,
        Err(reason) => panic!("{}", reason),
    }
}

fn some(path: &str) -> Option<String> {
    Some(path.to_string())
}

#[test]
fn build_takes_every_argument_over() {
    let config = built(args("needle", "hay.txt", true, false));
    assert_eq!(config.query, "needle");
    assert_eq!(config.file_path, "hay.txt");
    assert!(config.ignore_case);
    assert!(!config.filename);

    let config = built(args("", "*.txt", false, true));
    assert_eq!(config.query, "");
    assert_eq!(config.file_path, "*.txt");
    assert!(!config.ignore_case);
    assert!(config.filename);
}

#[test]
fn existing_path_is_the_only_target() {
    let targets = resolve("poem.txt", true, &vec![some("other.txt")]).unwrap();
    assert_eq!(targets.len(), 1);
    assert_eq!(targets[0].path, "poem.txt");
    assert!(!targets[0].from_expansion);

    let targets = resolve("poem.txt", true, &Vec::new()).unwrap();
    assert_eq!(targets.len(), 1);
    assert_eq!(targets[0].path, "poem.txt");
    assert!(!targets[0].from_expansion);
}

#[test]
fn expansion_gives_its_entries_in_order() {
    let entries = vec![some("b.txt"), None, some("a.txt"), some("b.txt"), None];
    let targets = resolve("*.txt", false, &entries).unwrap();
    let paths: Vec<&str> = targets.iter().map(|t| t.path.as_str()).collect();
    assert_eq!(paths, vec!["b.txt", "a.txt", "b.txt"]);
    assert!(targets.iter().all(|t| t.from_expansion));
}

#[test]
fn empty_expansion_is_not_found() {
    match resolve("missing-*.txt", false, &Vec::new()) {
        Err(SearchError::NotFound(input)) => assert_eq!(input, "missing-*.txt"),
        other => panic!("{:?}", other),
    }
    match resolve("nowhere", false, &vec![None, None]) {
        Err(SearchError::NotFound(input)) => assert_eq!(input, "nowhere"),
        other => panic!("{:?}", other),
    }
}

#[test]
fn missing_file_names_the_input_and_fails_the_run() {
    let error = resolve("no/such/file.txt", false, &Vec::new()).unwrap_err();
    assert_eq!(error.message(), "File 'no/such/file.txt' does not exist.");
    assert_eq!(
        error.report(),
        "Application error: File 'no/such/file.txt' does not exist."
    );
    assert!(error.report().contains("no/such/file.txt"));
    assert_eq!(exit_code(&Err(error)), 1);
}

#[test]
fn exit_code_is_zero_only_on_success() {
    assert_eq!(exit_code(&Ok(())), 0);
    assert_eq!(exit_code(&Err(SearchError::Argument("bad".to_string()))), 1);
    assert_eq!(exit_code(&Err(SearchError::NotFound("x".to_string()))), 1);
    assert_eq!(exit_code(&Err(SearchError::Io("denied".to_string()))), 1);
}

#[test]
fn messages_of_the_other_errors_are_their_reasons() {
    let argument = SearchError::Argument("a query is needed".to_string());
    assert_eq!(argument.message(), "a query is needed");
    assert_eq!(argument.report(), "Application error: a query is needed");
    let io = SearchError::Io("permission denied".to_string());
    assert_eq!(io.message(), "permission denied");
    assert_eq!(io.report(), "Application error: permission denied");
}

#[test]
fn expanded_targets_always_show_the_file_name() {
    let entries = vec![some("a.txt"), some("b.txt")];
    let targets = resolve("*.txt", false, &entries).unwrap();
    for requested in [false, true] {
        let config = built(args("q", "*.txt", true, requested));
        for target in &targets {
            let per_file = config.for_target(target);
            assert!(per_file.filename);
            assert_eq!(per_file.query, "q");
            assert_eq!(per_file.file_path, "*.txt");
            assert!(per_file.ignore_case);
        }
    }
}

#[test]
fn literal_target_shows_the_file_name_only_on_request() {
    let target = FileTarget { path: "a.txt".to_string(), from_expansion: false };
    assert!(!built(args("q", "a.txt", false, false)).for_target(&target).filename);
    assert!(built(args("q", "a.txt", false, true)).for_target(&target).filename);
}
