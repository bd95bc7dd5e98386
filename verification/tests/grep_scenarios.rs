use linematch::grep::{search, Flags, Source};

fn src(name: &str, text: &str) -> Source {
    Source { name: name.to_string(), text: text.to_string() }
}

fn run(pattern: &str, flags: &[&str], sources: Vec<Source>) -> Vec<String> {
    search(pattern, &Flags::new(flags), &sources)
}

#[test]
fn single_source_substring() {
    let r = run("cat", &[], vec![src("pets.txt", "cat\ndog\ncatfish")]);
    assert_eq!(r, vec!["cat".to_string(), "catfish".to_string()]);
}

#[test]
fn line_numbers_prefixed() {
    let r = run("cat", &["-n"], vec![src("pets.txt", "cat\ndog\ncatfish")]);
    assert_eq!(r, vec!["1:cat".to_string(), "3:catfish".to_string()]);
}

#[test]
fn entire_line_only() {
    let r = run("cat", &["-x"], vec![src("pets.txt", "cat\ndog\ncatfish")]);
    assert_eq!(r, vec!["cat".to_string()]);
}

#[test]
fn invert_drops_trailing_empty_line() {
    let r = run("cat", &["-v"], vec![src("a.txt", "cat\ndog\n")]);
    assert_eq!(r, vec!["dog".to_string()]);
}

#[test]
fn file_name_only_reports_matching_source() {
    let r = run(
        "cat",
        &["-l"],
        vec![src("with.txt", "a cat here"), src("without.txt", "only dogs")],
    );
    assert_eq!(r, vec!["with.txt".to_string()]);
}

#[test]
fn search_is_deterministic() {
    let sources = || vec![src("a.txt", "cat\nCat\ncod\n"), src("b.txt", "catfish")];
    let flags = Flags::new(&["-n", "-i"]);
    let r1 = search("cAt", &flags, &sources());
    let r2 = search("cAt", &flags, &sources());
    assert_eq!(r1, r2);
}

#[test]
fn case_insensitive_keeps_original_casing() {
    let r = run("CAT", &["-i"], vec![src("pets.txt", "Cat\ndog\ncatfish")]);
    assert_eq!(r, vec!["Cat".to_string(), "catfish".to_string()]);
}

#[test]
fn case_insensitive_composes_with_entire_line() {
    let r = run("CaT", &["-i", "-x"], vec![src("pets.txt", "cat\ncatfish")]);
    assert_eq!(r, vec!["cat".to_string()]);
}

#[test]
fn case_insensitive_composes_with_invert() {
    let r = run("CAT", &["-i", "-v"], vec![src("pets.txt", "cat\ndog\nCatfish")]);
    assert_eq!(r, vec!["dog".to_string()]);
}

#[test]
fn multiple_sources_are_prefixed() {
    let r = run("cat", &[], vec![src("a.txt", "cat\ndog"), src("b.txt", "catfish")]);
    assert_eq!(r, vec!["a.txt:cat".to_string(), "b.txt:catfish".to_string()]);
}

#[test]
fn file_name_only_overrides_line_numbers() {
    let r = run(
        "cat",
        &["-l", "-n"],
        vec![src("a.txt", "cat\ncat\ncat"), src("b.txt", "dog")],
    );
    assert_eq!(r, vec!["a.txt".to_string()]);
}

#[test]
fn unknown_tokens_are_ignored() {
    let r = run("cat", &["--color", "-q"], vec![src("pets.txt", "cat\ndog")]);
    assert_eq!(r, vec!["cat".to_string()]);
}

#[test]
fn empty_pattern_matches_every_line() {
    let r = run("", &[], vec![src("a.txt", "one\ntwo")]);
    assert_eq!(r, vec!["one".to_string(), "two".to_string()]);
}

#[test]
fn matched_empty_line_formats_to_nothing_and_is_dropped() {
    let r = run("", &["-x"], vec![src("a.txt", "one\n\ntwo")]);
    assert_eq!(r, Vec::<String>::new());
}

#[test]
fn matched_empty_line_survives_with_a_prefix() {
    let r = run("", &["-x", "-n"], vec![src("a.txt", "one\n\ntwo")]);
    assert_eq!(r, vec!["2:".to_string()]);
}

#[test]
fn empty_source_list_yields_nothing() {
    let r = run("cat", &[], vec![]);
    assert_eq!(r, Vec::<String>::new());
}
