use lorsum::lang_def::LangDef;
use lorsum::model::ParseError;

fn lines_of(input: &str) -> Vec<String> {
    input.lines().map(String::from).collect()
}

fn words(def: &LangDef, name: &str) -> Vec<String> {
    def.words_for(name).expect("type should be declared").clone()
}

#[test]
fn scenario_basic() {
    let input = lines_of("_types\na\n_templates\nhello { a }\n_lists\n:a\nword");
    let def = LangDef::from_lines(&input).expect("parse should succeed");
    assert_eq!(def.type_count(), 1);
    assert_eq!(words(&def, "a"), vec!["word".to_string()]);
    assert_eq!(def.templates().clone(), vec!["hello { a }".to_string()]);
    assert!(def.words_for("b").is_none());
}

#[test]
fn missing_types_header() {
    let input = lines_of("_templates\n_lists");
    let r = LangDef::from_lines(&input);
    assert!(matches!(r, Err(ParseError::MissingTypesHeader)));
}

#[test]
fn list_not_started() {
    let input = lines_of("_types\na\n_templates\n_lists\nword");
    let r = LangDef::from_lines(&input);
    assert!(matches!(r, Err(ParseError::ListNotStarted)));
}

#[test]
fn unknown_wordlist() {
    let input = lines_of("_types\na\n_templates\n_lists\n:b\nword");
    let r = LangDef::from_lines(&input);
    match r {
        Err(ParseError::UnknownWordlist(name)) => assert_eq!(name, "b"),
        other => panic!("expected UnknownWordlist, got {:?}", other),
    }
}

#[test]
fn blank_lines_skipped() {
    let input = lines_of("_types\na\n\n_templates\n\n_lists\n:a\n\nword");
    let def = LangDef::from_lines(&input).expect("parse should succeed");
    assert_eq!(def.type_count(), 1);
    assert_eq!(words(&def, "a"), vec!["word".to_string()]);
}

#[test]
fn declared_type_without_words_gets_empty_list() {
    let input = lines_of("_types\na\nb\n_templates\n_lists\n:a\nword");
    let def = LangDef::from_lines(&input).expect("parse should succeed");
    assert_eq!(def.type_count(), 2);
    assert_eq!(words(&def, "a"), vec!["word".to_string()]);
    assert_eq!(words(&def, "b"), Vec::<String>::new());
}

#[test]
fn templates_and_words_keep_file_order() {
    let input = lines_of(
        "_types\nnoun\nverb\n_templates\nfirst { noun }\nsecond { verb }\nthird\n_lists\n:noun\ncat\ndog\n:verb\nruns\n:noun\nbird",
    );
    let def = LangDef::from_lines(&input).expect("parse should succeed");
    assert_eq!(
        def.templates().clone(),
        vec![
            "first { noun }".to_string(),
            "second { verb }".to_string(),
            "third".to_string(),
        ]
    );
    assert_eq!(
        words(&def, "noun"),
        vec!["cat".to_string(), "dog".to_string(), "bird".to_string()]
    );
    assert_eq!(words(&def, "verb"), vec!["runs".to_string()]);
}

#[test]
fn parsing_twice_gives_identical_results() {
    let input = lines_of("_types\na\nb\n_templates\nt1\nt2\n_lists\n:a\nw1\n:b\nw2\nw3");
    let first = LangDef::from_lines(&input).expect("parse should succeed");
    let second = LangDef::from_lines(&input).expect("parse should succeed");
    assert_eq!(first.type_count(), second.type_count());
    assert_eq!(first.templates().clone(), second.templates().clone());
    assert_eq!(words(&first, "a"), words(&second, "a"));
    assert_eq!(words(&first, "b"), words(&second, "b"));
}

#[test]
fn empty_input_succeeds_empty() {
    let input: Vec<String> = Vec::new();
    let def = LangDef::from_lines(&input).expect("parse should succeed");
    assert_eq!(def.type_count(), 0);
    assert!(def.templates().is_empty());
}

#[test]
fn types_header_alone_succeeds() {
    let input = lines_of("_types\na");
    let def = LangDef::from_lines(&input).expect("parse should succeed");
    assert_eq!(def.type_count(), 1);
    assert_eq!(words(&def, "a"), Vec::<String>::new());
    assert!(def.templates().is_empty());
}

#[test]
fn header_match_is_exact() {
    let input = lines_of(" _types\na");
    let r = LangDef::from_lines(&input);
    assert!(matches!(r, Err(ParseError::MissingTypesHeader)));
}

#[test]
fn later_headers_can_be_type_names() {
    let input = lines_of("_types\n_lists\n_templates\n_lists\n:_lists\nw");
    let def = LangDef::from_lines(&input).expect("parse should succeed");
    assert_eq!(def.type_count(), 1);
    assert_eq!(words(&def, "_lists"), vec!["w".to_string()]);
}

#[test]
fn words_are_kept_verbatim() {
    let input = lines_of("_types\na\n_templates\n_lists\n:a\n  padded word  ");
    let def = LangDef::from_lines(&input).expect("parse should succeed");
    assert_eq!(words(&def, "a"), vec!["  padded word  ".to_string()]);
}

#[test]
fn reopening_a_list_appends() {
    let input = lines_of("_types\na\nb\n_templates\n_lists\n:a\nw1\n:b\nx\n:a\nw2");
    let def = LangDef::from_lines(&input).expect("parse should succeed");
    assert_eq!(words(&def, "a"), vec!["w1".to_string(), "w2".to_string()]);
    assert_eq!(words(&def, "b"), vec!["x".to_string()]);
}

#[test]
fn add_type_starts_empty_and_resets() {
    let mut def = LangDef::new();
    def.add_type("a");
    assert_eq!(words(&def, "a"), Vec::<String>::new());
    def.add_word_to_type("a", "w").expect("type is declared");
    assert_eq!(words(&def, "a"), vec!["w".to_string()]);
    def.add_type("a");
    assert_eq!(def.type_count(), 1);
    assert_eq!(words(&def, "a"), Vec::<String>::new());
}

#[test]
fn add_word_to_unknown_type_fails() {
    let mut def = LangDef::new();
    def.add_type("a");
    let r = def.add_word_to_type("missing", "w");
    match r {
        Err(ParseError::UnknownWordlist(name)) => assert_eq!(name, "missing"),
        other => panic!("expected UnknownWordlist, got {:?}", other),
    }
    assert_eq!(def.type_count(), 1);
}

#[test]
fn add_template_appends() {
    let mut def = LangDef::new();
    def.add_template("one { a }").expect("never fails");
    def.add_template("two { b }").expect("never fails");
    assert_eq!(
        def.templates().clone(),
        vec!["one { a }".to_string(), "two { b }".to_string()]
    );
}
