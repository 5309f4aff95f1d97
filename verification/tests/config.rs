use scaffer::config::Config;
use scaffer::dialogue::Question;

#[test]
fn init_gives_the_defaults() {
    let config = Config::init("/home/user/.config/templates".to_string());
    assert_eq!(config.template_dir, "/home/user/.config/templates");
    assert_eq!(
        config.languages,
        vec!["Rust", "Python", "Java", "PHP", "C", "C++", "HTML", "Go"]
    );
    assert_eq!(config.theme, "default");
}

#[test]
fn questions_ask_for_yes_or_no_or_for_a_text() {
    let confirmations = [
        Question::UseCurrentDirectory,
        Question::ChangeStartCommand,
        Question::ChangeDirectories,
        Question::ChangeFiles,
        Question::AddFile,
    ];
    let texts = [
        Question::ChooseLanguage,
        Question::ProjectName,
        Question::ProjectPath,
        Question::Language,
        Question::StartCommand,
        Question::Directories,
        Question::FilePath,
        Question::FileContent,
    ];
    assert!(confirmations.iter().all(|q| q.expects_confirmation()));
    assert!(texts.iter().all(|q| !q.expects_confirmation()));
}
