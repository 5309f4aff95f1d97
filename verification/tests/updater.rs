use scaffer::dialogue::{Answer, Question};
use scaffer::error::TemplateError;
use scaffer::store::{Stored, Templates};
use scaffer::template::{File, Structure, Template};
use scaffer::updater::{merge_files, path_among, Update, Updater};

fn file(path: &str, versions: &[&str]) -> File {
    File { path: path.to_string(), content: versions.iter().map(|v| v.to_string()).collect() }
}

fn pairs(entered: &[(&str, &str)]) -> Vec<(String, String)> {
    entered.iter().map(|(p, c)| (p.to_string(), c.to_string())).collect()
}

fn template(directories: &[&str], files: Vec<File>, command: &str) -> Template {
    Template {
        structure: Structure {
            directories: directories.iter().map(|d| d.to_string()).collect(),
            files,
        },
        start_command: command.to_string(),
    }
}

fn nothing() -> Update {
    Update { start_command: None, directories: None, files: None }
}

fn text(answer: &str) -> Answer {
    Answer::Text(answer.to_string())
}

#[test]
fn update_merge_appends_adds_and_drops() {
    let existing = vec![file("a", &["c1"]), file("z", &["old"])];
    let merged = merge_files(&existing, &pairs(&[("a", "c2"), ("b", "c3")]));
    assert_eq!(merged, vec![file("a", &["c1", "c2"]), file("b", &["c3"])]);
    assert!(!path_among(&merged, &"z".to_string()));
}

#[test]
fn merge_keeps_the_old_order_then_the_order_of_entry() {
    let existing = vec![file("x", &["1"]), file("y", &["2"]), file("z", &["3"])];
    let entered = pairs(&[("n2", "b"), ("z", "3b"), ("n1", "a"), ("x", "1b")]);
    let merged = merge_files(&existing, &entered);
    assert_eq!(
        merged,
        vec![
            file("x", &["1", "1b"]),
            file("z", &["3", "3b"]),
            file("n2", &["b"]),
            file("n1", &["a"]),
        ]
    );
}

#[test]
fn merge_with_nothing_entered_drops_every_file() {
    let existing = vec![file("a", &["1"]), file("b", &["2"])];
    assert!(merge_files(&existing, &vec![]).is_empty());
}

#[test]
fn merge_into_nothing_adds_every_file() {
    let merged = merge_files(&vec![], &pairs(&[("a", "1"), ("b", "2")]));
    assert_eq!(merged, vec![file("a", &["1"]), file("b", &["2"])]);
}

#[test]
fn merge_takes_the_last_content_entered_for_a_path() {
    let existing = vec![file("a", &["1"])];
    let merged = merge_files(&existing, &pairs(&[("a", "2"), ("b", "x"), ("a", "3"), ("b", "y")]));
    assert_eq!(merged, vec![file("a", &["1", "3"]), file("b", &["y"])]);
}

#[test]
fn merge_appends_even_the_same_content_again() {
    let existing = vec![file("a", &["same"])];
    let merged = merge_files(&existing, &pairs(&[("a", "same")]));
    assert_eq!(merged, vec![file("a", &["same", "same"])]);
}

#[test]
fn history_grows_with_every_update_and_never_shrinks() {
    let mut record = template(&[], vec![file("a", &["v1"])], "run");
    for version in ["v2", "v3", "v4"] {
        record = record.apply(Update { files: Some(pairs(&[("a", version)])), ..nothing() });
    }
    assert_eq!(record.structure.files, vec![file("a", &["v1", "v2", "v3", "v4"])]);
}

#[test]
fn path_among_finds_exact_paths() {
    let files = vec![file("a", &["1"]), file("dir/b", &["2"])];
    assert!(path_among(&files, &"dir/b".to_string()));
    assert!(!path_among(&files, &"b".to_string()));
    assert!(!path_among(&vec![], &"a".to_string()));
}

#[test]
fn file_revise_appends_a_version() {
    let mut changed = File::new("a".to_string(), "one".to_string());
    assert_eq!(changed, file("a", &["one"]));
    assert_eq!(changed.current(), Some(&"one".to_string()));
    changed.revise("two".to_string());
    assert_eq!(changed, file("a", &["one", "two"]));
    assert_eq!(changed.current(), Some(&"two".to_string()));
    assert_eq!(file("b", &[]).current(), None);
}

#[test]
fn apply_without_changes_keeps_the_record() {
    let record = template(&["src"], vec![file("a", &["1"])], "run");
    assert_eq!(record.clone().apply(nothing()), record);
}

#[test]
fn apply_replaces_the_start_command_without_history() {
    let record = template(&["src"], vec![file("a", &["1"])], "run");
    let changed = record.apply(Update { start_command: Some("go".to_string()), ..nothing() });
    assert_eq!(changed, template(&["src"], vec![file("a", &["1"])], "go"));
}

#[test]
fn apply_replaces_all_directories() {
    let record = template(&["src", "docs"], vec![file("a", &["1"])], "run");
    let changed = record.apply(Update { directories: Some("lib,bin".to_string()), ..nothing() });
    assert_eq!(changed, template(&["lib", "bin"], vec![file("a", &["1"])], "run"));
}

#[test]
fn apply_changes_everything_at_once() {
    let record = template(&["src"], vec![file("a", &["1"]), file("b", &["2"])], "run");
    let changed = record.apply(Update {
        start_command: Some("make".to_string()),
        directories: Some(String::new()),
        files: Some(pairs(&[("b", "3"), ("c", "4")])),
    });
    assert_eq!(changed, template(&[""], vec![file("b", &["2", "3"]), file("c", &["4"])], "make"));
}

#[test]
fn update_template_saves_the_updated_record() {
    let mut store = Templates::new();
    store.save("rust.json".to_string(), template(&["src"], vec![file("a", &["1"])], "run"));
    store.save("go.json".to_string(), template(&[], vec![], "go run"));
    let outcome = store.update_template(
        "Rust",
        Update { files: Some(pairs(&[("a", "2")])), ..nothing() },
    );
    assert_eq!(outcome, Ok("rust.json".to_string()));
    assert_eq!(
        store.load("rust.json"),
        Ok(template(&["src"], vec![file("a", &["1", "2"])], "run"))
    );
    assert_eq!(store.load("go.json"), Ok(template(&[], vec![], "go run")));
    assert_eq!(store.list_templates(None), vec!["rust", "go"]);
}

#[test]
fn update_template_of_a_missing_template_is_not_found() {
    let mut store = Templates::new();
    store.save("rust.json".to_string(), template(&[], vec![], "run"));
    let outcome =
        store.update_template("go", Update { start_command: Some("x".to_string()), ..nothing() });
    assert_eq!(outcome, Err(TemplateError::NotFound));
    assert_eq!(store.len(), 1);
    assert_eq!(store.load("rust.json"), Ok(template(&[], vec![], "run")));
}

#[test]
fn update_template_of_a_corrupt_template_changes_nothing() {
    let mut store = Templates::new();
    store.put_file("rust.json".to_string(), Stored::Corrupt);
    let outcome = store.update_template("rust", nothing());
    assert_eq!(outcome, Err(TemplateError::Corrupt));
    assert_eq!(store.load("rust.json"), Err(TemplateError::Corrupt));
}

#[test]
fn updater_collects_every_change() {
    let mut updater = Updater::new();
    assert_eq!(updater.question(), Some(Question::ChangeStartCommand));
    assert_eq!(updater.answer(Answer::Confirmed(true)), Ok(()));
    assert_eq!(updater.question(), Some(Question::StartCommand));
    assert_eq!(updater.answer(text("make")), Ok(()));
    assert_eq!(updater.question(), Some(Question::ChangeDirectories));
    assert_eq!(updater.answer(Answer::Confirmed(true)), Ok(()));
    assert_eq!(updater.question(), Some(Question::Directories));
    assert_eq!(updater.answer(text("a,b")), Ok(()));
    assert_eq!(updater.question(), Some(Question::ChangeFiles));
    assert_eq!(updater.answer(Answer::Confirmed(true)), Ok(()));
    assert_eq!(updater.question(), Some(Question::AddFile));
    assert_eq!(updater.answer(Answer::Confirmed(true)), Ok(()));
    assert_eq!(updater.question(), Some(Question::FilePath));
    assert_eq!(updater.answer(text("x")), Ok(()));
    assert_eq!(updater.question(), Some(Question::FileContent));
    assert_eq!(updater.answer(text("1")), Ok(()));
    assert_eq!(updater.question(), Some(Question::AddFile));
    assert_eq!(updater.answer(Answer::Confirmed(false)), Ok(()));
    assert_eq!(updater.question(), None);
    assert_eq!(
        updater.finish(),
        Some(Update {
            start_command: Some("make".to_string()),
            directories: Some("a,b".to_string()),
            files: Some(pairs(&[("x", "1")])),
        })
    );
}

#[test]
fn updater_changes_nothing_when_everything_is_declined() {
    let mut updater = Updater::new();
    assert_eq!(updater.answer(Answer::Confirmed(false)), Ok(()));
    assert_eq!(updater.question(), Some(Question::ChangeDirectories));
    assert_eq!(updater.answer(Answer::Confirmed(false)), Ok(()));
    assert_eq!(updater.question(), Some(Question::ChangeFiles));
    assert_eq!(updater.answer(Answer::Confirmed(false)), Ok(()));
    assert_eq!(updater.question(), None);
    assert_eq!(updater.finish(), Some(nothing()));
}

#[test]
fn updater_with_files_confirmed_and_none_added_replaces_the_files_by_none() {
    let mut updater = Updater::new();
    assert_eq!(updater.answer(Answer::Confirmed(false)), Ok(()));
    assert_eq!(updater.answer(Answer::Confirmed(false)), Ok(()));
    assert_eq!(updater.answer(Answer::Confirmed(true)), Ok(()));
    assert_eq!(updater.answer(Answer::Confirmed(false)), Ok(()));
    let update = updater.finish().unwrap();
    assert_eq!(update, Update { files: Some(vec![]), ..nothing() });
    let record = template(&[], vec![file("a", &["1"])], "run");
    assert!(record.apply(update).structure.files.is_empty());
}

#[test]
fn updater_refuses_answers_of_the_wrong_kind() {
    let mut updater = Updater::new();
    assert_eq!(updater.answer(text("yes")), Err(TemplateError::InvalidInput));
    assert_eq!(updater.question(), Some(Question::ChangeStartCommand));
    assert_eq!(updater.answer(Answer::Confirmed(true)), Ok(()));
    assert_eq!(updater.answer(Answer::Confirmed(true)), Err(TemplateError::InvalidInput));
    assert_eq!(updater.question(), Some(Question::StartCommand));
}

#[test]
fn updater_refuses_answers_when_nothing_is_asked() {
    let mut updater = Updater::new();
    for _ in 0..3 {
        assert_eq!(updater.answer(Answer::Confirmed(false)), Ok(()));
    }
    assert_eq!(updater.answer(Answer::Confirmed(false)), Err(TemplateError::InvalidInput));
    assert_eq!(updater.answer(text("x")), Err(TemplateError::InvalidInput));
}

#[test]
fn unfinished_updater_has_no_update() {
    let mut updater = Updater::new();
    assert_eq!(updater.answer(Answer::Confirmed(true)), Ok(()));
    assert_eq!(updater.finish(), None);
}
