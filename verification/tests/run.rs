use lgrep::{search, CaseSensitiveGrepper, Config, DecodeError, DefaultGrepper, Failure, Run};

fn run_of(pattern: &str, ignore_case: bool, files: &[&str]) -> Run {
    Run::new(Config {
        pattern: pattern.to_string(),
        ignore_case,
        files: files.iter().map(|name| name.to_string()).collect(),
    })
}

fn bytes(text: &str) -> Result<Vec<u8>, String> {
    Ok(text.as_bytes().to_vec())
}

fn lines(output: &[&str]) -> Result<Vec<String>, Failure> {
    Ok(output.iter().map(|line| line.to_string()).collect())
}

#[test]
fn missing_file_stops_the_run() {
    let mut run = run_of("a", false, &["missing.txt", "there.txt"]);
    assert_eq!(run.wanted(), Some("missing.txt"));
    let step = run.feed(Err("No such file or directory (os error 2)".to_string()));
    let failure = step.unwrap_err();
    assert_eq!(
        failure,
        Failure::Unreadable {
            file_name: "missing.txt".to_string(),
            cause: "No such file or directory (os error 2)".to_string(),
        }
    );
    assert_eq!(failure.message(), "missing.txt: No such file or directory (os error 2)");
    assert_eq!(run.wanted(), None);
    assert_eq!(run.feed(bytes("a\n")), lines(&[]));
    assert_eq!(run.wanted(), None);
}

#[test]
fn missing_second_file_leaves_the_first_reported() {
    let mut run = run_of("a", false, &["there.txt", "missing.txt", "later.txt"]);
    assert_eq!(run.wanted(), Some("there.txt"));
    assert_eq!(run.feed(bytes("a\n")), lines(&["there.txt (0): a"]));
    assert_eq!(run.wanted(), Some("missing.txt"));
    assert!(run.feed(Err("Permission denied (os error 13)".to_string())).is_err());
    assert_eq!(run.wanted(), None);
}

#[test]
fn second_of_two_files_is_reported_alone() {
    let mut run = run_of("needle", false, &["first.txt", "second.txt"]);
    let mut output = Vec::new();
    assert_eq!(run.wanted(), Some("first.txt"));
    output.extend(run.feed(bytes("hay\nmore hay\n")).unwrap());
    assert_eq!(run.wanted(), Some("second.txt"));
    output.extend(run.feed(bytes("hay\nhay\na needle here\nhay\n")).unwrap());
    assert_eq!(run.wanted(), None);
    assert_eq!(output, vec!["second.txt (2): a needle here".to_string()]);
}

#[test]
fn files_are_wanted_in_their_order() {
    let mut run = run_of("x", true, &["c", "a", "b"]);
    for name in ["c", "a", "b"] {
        assert_eq!(run.wanted(), Some(name));
        assert_eq!(run.wanted(), Some(name));
        assert_eq!(run.feed(bytes("X\n")), Ok(vec![format!("{} (0): X", name)]));
    }
    assert_eq!(run.wanted(), None);
    assert_eq!(run.feed(bytes("X\n")), lines(&[]));
}

#[test]
fn run_without_files_wants_none() {
    let mut run = run_of("x", false, &[]);
    assert_eq!(run.wanted(), None);
    assert_eq!(run.feed(bytes("x\n")), lines(&[]));
    assert_eq!(run.feed(Err("unused".to_string())), lines(&[]));
}

#[test]
fn run_ignores_case_when_asked() {
    let mut strict = run_of("hello", false, &["greetings.txt"]);
    assert_eq!(strict.feed(bytes("Hello\nworld\nHELLO there\n")), lines(&[]));
    let mut loose = run_of("hello", true, &["greetings.txt"]);
    assert_eq!(
        loose.feed(bytes("Hello\nworld\nHELLO there\n")),
        lines(&["greetings.txt (0): Hello", "greetings.txt (2): HELLO there"])
    );
}

#[test]
fn line_that_is_no_text_stops_the_run() {
    let mut run = run_of("", false, &["bad.bin", "good.txt"]);
    let failure = run.feed(Ok(b"fine\n\xff\xfe\n".to_vec())).unwrap_err();
    assert_eq!(failure, Failure::NotText { file_name: "bad.bin".to_string(), line: 1 });
    assert_eq!(failure.message(), "bad.bin (1): stream did not contain valid UTF-8");
    assert_eq!(run.wanted(), None);
    assert_eq!(run.feed(bytes("fine\n")), lines(&[]));
}

#[test]
fn search_gives_the_output_of_a_file() {
    let exact = DefaultGrepper::new("lo".to_string());
    assert_eq!(
        search(&exact, "g.txt", b"Hello\nworld\nHELLO there\nlow"),
        Ok(vec!["g.txt (0): Hello".to_string(), "g.txt (3): low".to_string()])
    );
    let folding = CaseSensitiveGrepper::new("LO".to_string());
    assert_eq!(
        search(&folding, "g.txt", b"Hello\nworld\nHELLO there\nlow"),
        Ok(vec![
            "g.txt (0): Hello".to_string(),
            "g.txt (2): HELLO there".to_string(),
            "g.txt (3): low".to_string(),
        ])
    );
}

#[test]
fn search_of_what_is_no_text() {
    let exact = DefaultGrepper::new("lo".to_string());
    assert_eq!(search(&exact, "g.txt", b"lo\nlo\n\x80"), Err(DecodeError { line: 2 }));
}

#[test]
fn same_run_same_output() {
    let mut once = run_of("l", true, &["g.txt"]);
    let mut twice = run_of("l", true, &["g.txt"]);
    assert_eq!(
        once.feed(bytes("Hello\nworld\nHELLO there\n")),
        twice.feed(bytes("Hello\nworld\nHELLO there\n"))
    );
}
