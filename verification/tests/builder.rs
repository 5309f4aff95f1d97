use scaffer::builder::{Builder, Draft};
use scaffer::dialogue::{Answer, Question};
use scaffer::error::TemplateError;
use scaffer::store::Templates;
use scaffer::template::{File, Structure, Template};

fn pairs(entered: &[(&str, &str)]) -> Vec<(String, String)> {
    entered.iter().map(|(p, c)| (p.to_string(), c.to_string())).collect()
}

fn text(answer: &str) -> Answer {
    Answer::Text(answer.to_string())
}

#[test]
fn parse_directories_splits_at_commas() {
    assert_eq!(Templates::parse_directories("src,assets"), vec!["src", "assets"]);
    assert_eq!(Templates::parse_directories("src"), vec!["src"]);
    assert_eq!(Templates::parse_directories("a,a"), vec!["a", "a"]);
}

#[test]
fn parse_directories_does_not_trim() {
    assert_eq!(Templates::parse_directories("src, assets "), vec!["src", " assets "]);
}

#[test]
fn parse_directories_of_an_empty_line_is_one_empty_directory() {
    assert_eq!(Templates::parse_directories(""), vec![""]);
}

#[test]
fn parse_files_keeps_each_path_once_with_its_last_content() {
    let batch = Templates::parse_files(&pairs(&[("a", "1"), ("b", "2"), ("a", "3"), ("c", "4")]));
    assert_eq!(batch, pairs(&[("a", "3"), ("b", "2"), ("c", "4")]));
}

#[test]
fn parse_files_of_nothing_is_nothing() {
    assert!(Templates::parse_files(&vec![]).is_empty());
}

#[test]
fn parse_files_compares_paths_exactly() {
    let batch = Templates::parse_files(&pairs(&[("A", "1"), ("a", "2"), ("a ", "3")]));
    assert_eq!(batch.len(), 3);
}

#[test]
fn content_preview_marks_an_empty_content() {
    assert_eq!(Templates::content_preview(""), "<skipped>");
}

#[test]
fn content_preview_shows_a_short_content_in_full() {
    assert_eq!(Templates::content_preview("x"), "x");
    assert_eq!(Templates::content_preview("12345678901234567890"), "12345678901234567890");
}

#[test]
fn content_preview_cuts_a_long_content() {
    assert_eq!(Templates::content_preview("123456789012345678901"), "12345678901234567...");
    assert_eq!(
        Templates::content_preview("ääääääääääääääääääääää"),
        "äääääääääääääääää..."
    );
}

#[test]
fn build_starts_each_history_with_one_version() {
    let record = Templates::build(
        "src,tests",
        &pairs(&[("src/main.py", "print('{{project_name}}')"), ("README.md", "")]),
        "python src/main.py".to_string(),
    );
    assert_eq!(
        record,
        Template {
            structure: Structure {
                directories: vec!["src".to_string(), "tests".to_string()],
                files: vec![
                    File {
                        path: "src/main.py".to_string(),
                        content: vec!["print('{{project_name}}')".to_string()]
                    },
                    File { path: "README.md".to_string(), content: vec![String::new()] },
                ],
            },
            start_command: "python src/main.py".to_string(),
        }
    );
    assert!(record.is_well_formed());
}

#[test]
fn build_without_files() {
    let record = Templates::build("", &vec![], String::new());
    assert_eq!(record.structure.directories, vec![""]);
    assert!(record.structure.files.is_empty());
    assert_eq!(record.start_command, "");
}

#[test]
fn build_keeps_one_file_per_path() {
    let record = Templates::build("", &pairs(&[("a", "1"), ("a", "2")]), String::new());
    assert_eq!(record.structure.files.len(), 1);
    assert_eq!(record.structure.files[0].content, vec!["2"]);
}

#[test]
fn add_template_saves_under_the_lower_cased_language() {
    let mut store = Templates::new();
    let name = store.add_template("Python", "src", &pairs(&[("a", "1")]), "run".to_string());
    assert_eq!(name, "python.json");
    assert_eq!(store.list_templates(None), vec!["python"]);
    assert_eq!(
        store.load("python.json"),
        Ok(Templates::build("src", &pairs(&[("a", "1")]), "run".to_string()))
    );
}

#[test]
fn add_template_overwrites_a_stored_template() {
    let mut store = Templates::new();
    store.add_template("go", "old", &pairs(&[("a", "1")]), "old".to_string());
    store.add_template("GO", "new", &vec![], "new".to_string());
    assert_eq!(store.len(), 1);
    assert_eq!(store.load("go.json"), Ok(Templates::build("new", &vec![], "new".to_string())));
}

#[test]
fn builder_collects_a_template() {
    let mut builder = Builder::new(None);
    assert_eq!(builder.question(), Some(Question::Language));
    assert_eq!(builder.answer(text("Rust")), Ok(()));
    assert_eq!(builder.question(), Some(Question::Directories));
    assert_eq!(builder.answer(text("src")), Ok(()));
    assert_eq!(builder.question(), Some(Question::AddFile));
    assert_eq!(builder.answer(Answer::Confirmed(true)), Ok(()));
    assert_eq!(builder.question(), Some(Question::FilePath));
    assert_eq!(builder.answer(text("src/main.rs")), Ok(()));
    assert_eq!(builder.question(), Some(Question::FileContent));
    assert_eq!(builder.answer(text("fn main() {}")), Ok(()));
    assert_eq!(builder.question(), Some(Question::AddFile));
    assert_eq!(builder.answer(Answer::Confirmed(true)), Ok(()));
    assert_eq!(builder.answer(text("Cargo.toml")), Ok(()));
    assert_eq!(builder.answer(text("[package]")), Ok(()));
    assert_eq!(builder.answer(Answer::Confirmed(false)), Ok(()));
    assert_eq!(builder.question(), Some(Question::StartCommand));
    assert_eq!(builder.answer(text("cargo run")), Ok(()));
    assert_eq!(builder.question(), None);
    assert_eq!(
        builder.finish(),
        Some(Draft {
            language: "Rust".to_string(),
            directories: "src".to_string(),
            files: pairs(&[("src/main.rs", "fn main() {}"), ("Cargo.toml", "[package]")]),
            start_command: "cargo run".to_string(),
        })
    );
}

#[test]
fn builder_does_not_ask_for_a_given_language() {
    let mut builder = Builder::new(Some("go".to_string()));
    assert_eq!(builder.question(), Some(Question::Directories));
    assert_eq!(builder.answer(text("")), Ok(()));
    assert_eq!(builder.answer(Answer::Confirmed(false)), Ok(()));
    assert_eq!(builder.answer(text("go run .")), Ok(()));
    assert_eq!(
        builder.finish(),
        Some(Draft {
            language: "go".to_string(),
            directories: String::new(),
            files: vec![],
            start_command: "go run .".to_string(),
        })
    );
}

#[test]
fn builder_refuses_answers_of_the_wrong_kind() {
    let mut builder = Builder::new(None);
    assert_eq!(builder.answer(Answer::Confirmed(true)), Err(TemplateError::InvalidInput));
    assert_eq!(builder.question(), Some(Question::Language));
    assert_eq!(builder.answer(text("rust")), Ok(()));
    assert_eq!(builder.answer(text("src")), Ok(()));
    assert_eq!(builder.answer(text("yes")), Err(TemplateError::InvalidInput));
    assert_eq!(builder.question(), Some(Question::AddFile));
}

#[test]
fn builder_refuses_answers_when_nothing_is_asked() {
    let mut builder = Builder::new(Some("go".to_string()));
    assert_eq!(builder.answer(text("")), Ok(()));
    assert_eq!(builder.answer(Answer::Confirmed(false)), Ok(()));
    assert_eq!(builder.answer(text("run")), Ok(()));
    assert_eq!(builder.answer(text("again")), Err(TemplateError::InvalidInput));
    assert_eq!(builder.question(), None);
}

#[test]
fn unfinished_builder_has_no_draft() {
    let mut builder = Builder::new(None);
    assert_eq!(builder.answer(text("rust")), Ok(()));
    assert_eq!(builder.finish(), None);
}
