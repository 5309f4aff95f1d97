use scaffer::create::{CreateCommand, CreateSession, Layout};
use scaffer::dialogue::{Answer, Question};
use scaffer::error::TemplateError;
use scaffer::template::{File, Structure, Template};

fn file(path: &str, versions: &[&str]) -> File {
    File { path: path.to_string(), content: versions.iter().map(|v| v.to_string()).collect() }
}

fn template(directories: &[&str], files: Vec<File>) -> Template {
    Template {
        structure: Structure {
            directories: directories.iter().map(|d| d.to_string()).collect(),
            files,
        },
        start_command: "run".to_string(),
    }
}

fn command(name: &str) -> CreateCommand {
    CreateCommand { language: "Rust".to_string(), name: name.to_string(), path: ".".to_string() }
}

fn text(answer: &str) -> Answer {
    Answer::Text(answer.to_string())
}

fn started(language: Option<&str>, name: Option<&str>, path: Option<&str>) -> CreateSession {
    CreateCommand::new("/here".to_string()).run_create(
        language.map(|l| l.to_string()),
        name.map(|n| n.to_string()),
        path.map(|p| p.to_string()),
    )
}

#[test]
fn test_create_command_capitalize() {
    let create_command = CreateCommand::new(String::from("."));

    assert_eq!(create_command.capitalize("test"), "Test");
    assert_eq!(create_command.capitalize("Test"), "Test");
    assert_eq!(create_command.capitalize("tEST"), "TEST");
    assert_eq!(create_command.capitalize("t"), "T");
    assert_eq!(create_command.capitalize(""), "");
}

#[test]
fn capitalize_follows_unicode() {
    let create_command = CreateCommand::new(String::from("."));
    assert_eq!(create_command.capitalize("élan"), "Élan");
    assert_eq!(create_command.capitalize("ßeta"), "SSeta");
    assert_eq!(create_command.capitalize("c++"), "C++");
    assert_eq!(create_command.capitalize("1st"), "1st");
}

#[test]
fn replace_initial_swaps_the_first_character() {
    assert_eq!(CreateCommand::replace_initial("rust", "R"), "Rust");
    assert_eq!(CreateCommand::replace_initial("ßeta", "SS"), "SSeta");
    assert_eq!(CreateCommand::replace_initial("x", ""), "");
    assert_eq!(CreateCommand::replace_initial("", "R"), "");
}

#[test]
fn new_command_has_no_language_and_no_name() {
    let create_command = CreateCommand::new("/work".to_string());
    assert_eq!(create_command.language, String::new());
    assert_eq!(create_command.name, String::new());
    assert_eq!(create_command.path, "/work");
}

#[test]
fn run_create_with_everything_given_asks_nothing() {
    let session = started(Some("rust"), Some("demo"), Some("/tmp"));
    assert_eq!(session.question(), None);
    assert_eq!(
        session.finish(),
        Some(CreateCommand {
            language: "Rust".to_string(),
            name: "demo".to_string(),
            path: "/tmp".to_string()
        })
    );
}

#[test]
fn run_create_asks_for_what_is_missing_in_order() {
    let mut session = started(None, None, None);
    assert_eq!(session.question(), Some(Question::ChooseLanguage));
    assert_eq!(session.answer(text("python")), Ok(()));
    assert_eq!(session.question(), Some(Question::ProjectName));
    assert_eq!(session.answer(text("demo")), Ok(()));
    assert_eq!(session.question(), Some(Question::UseCurrentDirectory));
    assert_eq!(session.answer(Answer::Confirmed(false)), Ok(()));
    assert_eq!(session.question(), Some(Question::ProjectPath));
    assert_eq!(session.answer(text("/projects")), Ok(()));
    assert_eq!(session.question(), None);
    assert_eq!(
        session.finish(),
        Some(CreateCommand {
            language: "Python".to_string(),
            name: "demo".to_string(),
            path: "/projects".to_string()
        })
    );
}

#[test]
fn run_create_keeps_the_current_directory_when_confirmed() {
    let mut session = started(Some("go"), Some("demo"), None);
    assert_eq!(session.question(), Some(Question::UseCurrentDirectory));
    assert_eq!(session.answer(Answer::Confirmed(true)), Ok(()));
    assert_eq!(session.question(), None);
    let finished = session.finish().unwrap();
    assert_eq!(finished.path, "/here");
    assert_eq!(finished.language, "Go");
}

#[test]
fn run_create_skips_questions_for_given_values() {
    let mut session = started(None, Some("demo"), Some("/tmp"));
    assert_eq!(session.question(), Some(Question::ChooseLanguage));
    assert_eq!(session.answer(text("c++")), Ok(()));
    assert_eq!(session.question(), None);

    let mut session = started(Some("rust"), None, Some("/tmp"));
    assert_eq!(session.question(), Some(Question::ProjectName));
    assert_eq!(session.answer(text("demo")), Ok(()));
    assert_eq!(session.question(), None);
}

#[test]
fn create_session_refuses_answers_of_the_wrong_kind() {
    let mut session = started(None, None, None);
    assert_eq!(session.answer(Answer::Confirmed(true)), Err(TemplateError::InvalidInput));
    assert_eq!(session.question(), Some(Question::ChooseLanguage));
    assert_eq!(session.answer(text("rust")), Ok(()));
    assert_eq!(session.answer(text("demo")), Ok(()));
    assert_eq!(session.answer(text("yes")), Err(TemplateError::InvalidInput));
    assert_eq!(session.question(), Some(Question::UseCurrentDirectory));
}

#[test]
fn create_session_refuses_answers_when_nothing_is_asked() {
    let mut session = started(Some("rust"), Some("demo"), Some("/tmp"));
    assert_eq!(session.answer(text("more")), Err(TemplateError::InvalidInput));
    assert_eq!(session.answer(Answer::Confirmed(true)), Err(TemplateError::InvalidInput));
    assert!(session.finish().is_some());
}

#[test]
fn unfinished_create_session_has_no_command() {
    let session = started(Some("rust"), None, None);
    assert_eq!(session.finish(), None);
}

#[test]
fn create_files_writes_the_newest_content_with_the_name_filled_in() {
    let record = template(
        &["src"],
        vec![
            file("Cargo.toml", &["name = \"old\"", "name = \"{{project_name}}\""]),
            file("src/main.rs", &["// {{project_name}}\nfn main() {}\n"]),
        ],
    );
    assert_eq!(
        command("demo").create_files(&record),
        Ok(vec![
            ("Cargo.toml".to_string(), "name = \"demo\"".to_string()),
            ("src/main.rs".to_string(), "// demo\nfn main() {}\n".to_string()),
        ])
    );
}

#[test]
fn create_files_leaves_all_other_text_unchanged() {
    let body = "line one\n\ttabs and  spaces \n{{project_name}}{{project_name}}\n{project_name}\n";
    let record = template(&[], vec![file("a.txt", &[body])]);
    let files = command("x y").create_files(&record).unwrap();
    assert_eq!(files[0].1, "line one\n\ttabs and  spaces \nx yx y\n{project_name}\n");
}

#[test]
fn create_files_rejects_a_file_without_content() {
    let record = template(&[], vec![file("a", &["x"]), file("b", &[])]);
    assert_eq!(command("demo").create_files(&record), Err(TemplateError::Corrupt));
    assert_eq!(command("demo").create_project(&record), Err(TemplateError::Corrupt));
}

#[test]
fn create_project_lists_directories_as_they_stand() {
    let record = template(&["src", "assets/img", "src", ""], vec![]);
    assert_eq!(
        command("demo").create_project(&record),
        Ok(Layout {
            destination: ".".to_string(),
            name: "demo".to_string(),
            directories: vec![
                "src".to_string(),
                "assets/img".to_string(),
                "src".to_string(),
                String::new()
            ],
            files: vec![],
        })
    );
}

#[test]
fn create_project_names_the_root_after_the_project() {
    let create_command = CreateCommand {
        language: "Go".to_string(),
        name: "tool".to_string(),
        path: "/work/projects".to_string(),
    };
    let layout = create_command.create_project(&template(&[], vec![])).unwrap();
    assert_eq!(layout.destination, "/work/projects");
    assert_eq!(layout.name, "tool");
}

#[test]
fn create_project_does_not_substitute_in_paths() {
    let record = template(&["{{project_name}}"], vec![file("{{project_name}}.txt", &["x"])]);
    let layout = command("demo").create_project(&record).unwrap();
    assert_eq!(layout.directories, vec!["{{project_name}}"]);
    assert_eq!(layout.files, vec![("{{project_name}}.txt".to_string(), "x".to_string())]);
}

#[test]
fn failed_fetch_leaves_the_project_files_alone() {
    let record = template(&[], vec![file("a", &["1"]), file("b", &["2"])]);
    let layout = command("demo").create_project(&record).unwrap();
    assert_eq!(layout.files.len(), 2);
    assert_eq!(layout.files[0], ("a".to_string(), "1".to_string()));
    assert_eq!(layout.files[1], ("b".to_string(), "2".to_string()));
    assert_eq!(CreateCommand::gitignore_file(None), None);
}

#[test]
fn fetched_gitignore_is_written_at_the_root() {
    assert_eq!(
        CreateCommand::gitignore_file(Some("target\n".to_string())),
        Some((".gitignore".to_string(), "target\n".to_string()))
    );
}

#[test]
fn gitignore_url_names_the_language() {
    assert_eq!(
        CreateCommand::gitignore_url("Rust"),
        "https://raw.githubusercontent.com/github/gitignore/refs/heads/main/Rust.gitignore"
    );
}

#[test]
fn gitignore_url_encodes_plus_signs() {
    assert_eq!(
        CreateCommand::gitignore_url("C++"),
        "https://raw.githubusercontent.com/github/gitignore/refs/heads/main/C%2B%2B.gitignore"
    );
    assert_eq!(
        CreateCommand::gitignore_url("a+b"),
        "https://raw.githubusercontent.com/github/gitignore/refs/heads/main/a%2Bb.gitignore"
    );
}
