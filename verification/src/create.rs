//! Instantiating a template: what to create on disk for a project of a
//! given name.

use crate::casing::{uppercase, uppercase_of};
use crate::dialogue::{lemma_run_one, lemma_run_pair, run, Answer, AnswerView, Question};
use crate::error::TemplateError;
use crate::template::{clone_strings, substituted, FileView, Template, TemplateView, PLACEHOLDER};
use crate::text::{replace_all, replaced};
use vstd::prelude::*;
use vstd::string::{StrSliceExecFns, StringExecFns};

verus! {

/// The name of the ignore-file, relative to the project's root.
pub const GITIGNORE: &'static str = ".gitignore";

/// Where the ignore-files are fetched from: this, the language, and the
/// ignore-file's name.
pub const GITIGNORE_SOURCE: &'static str =
    "https://raw.githubusercontent.com/github/gitignore/refs/heads/main/";

/// What to create a project from.
#[derive(Debug, PartialEq, Eq)]
pub struct CreateCommand {
    /// The language whose template is used, capitalized.
    pub language: String,
    /// The project's name, which is also the name of its directory.
    pub name: String,
    /// The directory in which the project's directory is created.
    pub path: String,
}

/// What to create for a project: its root, which is the directory `name`
/// in the directory `destination`, and what goes below the root.
#[derive(Debug, PartialEq, Eq)]
pub struct Layout {
    /// The directory in which the project's root is created.
    pub destination: String,
    /// The name of the project's root.
    pub name: String,
    /// Directories, relative to the root, in the order of creation.
    pub directories: Vec<String>,
    /// Files as pairs of a path, relative to the root, and the content to
    /// write, in the order of writing.
    pub files: Vec<(String, String)>,
}

/// A layout as a mathematical value.
pub struct LayoutView {
    pub destination: Seq<char>,
    pub name: Seq<char>,
    pub directories: Seq<Seq<char>>,
    pub files: Seq<(Seq<char>, Seq<char>)>,
}

impl View for Layout {
    type V = LayoutView;

    open spec fn view(&self) -> LayoutView {
        LayoutView {
            destination: self.destination@,
            name: self.name@,
            directories: self.directories.deep_view(),
            files: self.files.deep_view(),
        }
    }
}

/// A command as a mathematical value.
pub struct CommandView {
    pub language: Seq<char>,
    pub name: Seq<char>,
    pub path: Seq<char>,
}

impl View for CreateCommand {
    type V = CommandView;

    open spec fn view(&self) -> CommandView {
        CommandView { language: self.language@, name: self.name@, path: self.path@ }
    }
}

/// A dialogue that completes a command: it asks for the language, the name
/// and the directory, each only where it was not given.
#[derive(Debug, PartialEq, Eq)]
pub struct CreateSession {
    command: CreateCommand,
    needs_name: bool,
    needs_path: bool,
    asked: Option<Question>,
}

/// The state of a dialogue as a mathematical value.
pub struct CreateSessionView {
    pub command: CommandView,
    /// The name is still to be asked for.
    pub needs_name: bool,
    /// The directory is still to be asked for.
    pub needs_path: bool,
    /// What is asked now; `None` once the dialogue is finished.
    pub asked: Option<Question>,
}

impl View for CreateSession {
    type V = CreateSessionView;

    closed spec fn view(&self) -> CreateSessionView {
        CreateSessionView {
            command: self.command@,
            needs_name: self.needs_name,
            needs_path: self.needs_path,
            asked: self.asked,
        }
    }
}

/// What to ask once the name is known.
pub open spec fn after_name(needs_path: bool) -> Option<Question> {
    if needs_path {
        Some(Question::UseCurrentDirectory)
    } else {
        None
    }
}

/// What to ask once the language is known.
pub open spec fn after_language(needs_name: bool, needs_path: bool) -> Option<Question> {
    if needs_name {
        Some(Question::ProjectName)
    } else {
        after_name(needs_path)
    }
}

/// The state in which the dialogue for `command` starts. What was given is
/// taken over, the language capitalized, and is not asked for.
pub open spec fn create_start(
    command: CommandView,
    language: Option<Seq<char>>,
    name: Option<Seq<char>>,
    path: Option<Seq<char>>,
) -> CreateSessionView {
    CreateSessionView {
        command: CommandView {
            language: match language {
                Some(given) => capitalized(given),
                None => command.language,
            },
            name: match name {
                Some(given) => given,
                None => command.name,
            },
            path: match path {
                Some(given) => given,
                None => command.path,
            },
        },
        needs_name: name is None,
        needs_path: path is None,
        asked: if language is None {
            Some(Question::ChooseLanguage)
        } else {
            after_language(name is None, path is None)
        },
    }
}

/// The state after `answer` was given to what `state` asks. An answer that
/// does not fit the question, or comes when nothing is asked, is refused.
pub open spec fn create_answered(state: CreateSessionView, answer: AnswerView) -> Result<
    CreateSessionView,
    TemplateError,
> {
    match (state.asked, answer) {
        (Some(Question::ChooseLanguage), AnswerView::Text(text)) => Ok(
            CreateSessionView {
                command: CommandView { language: capitalized(text), ..state.command },
                asked: after_language(state.needs_name, state.needs_path),
                ..state
            },
        ),
        (Some(Question::ProjectName), AnswerView::Text(text)) => Ok(
            CreateSessionView {
                command: CommandView { name: text, ..state.command },
                asked: after_name(state.needs_path),
                ..state
            },
        ),
        (Some(Question::UseCurrentDirectory), AnswerView::Confirmed(here)) => Ok(
            CreateSessionView {
                asked: if here {
                    None
                } else {
                    Some(Question::ProjectPath)
                },
                ..state
            },
        ),
        (Some(Question::ProjectPath), AnswerView::Text(text)) => Ok(
            CreateSessionView {
                command: CommandView { path: text, ..state.command },
                asked: None,
                ..state
            },
        ),
        _ => Err(TemplateError::InvalidInput),
    }
}

/// `text` with `initial` in place of its first character. The empty text
/// has no first character and stays empty.
pub open spec fn with_initial(text: Seq<char>, initial: Seq<char>) -> Seq<char> {
    if text.len() == 0 {
        text
    } else {
        initial + text.skip(1)
    }
}

/// `text` with its first character in upper case and the rest as it is.
pub open spec fn capitalized(text: Seq<char>) -> Seq<char> {
    if text.len() == 0 {
        text
    } else {
        with_initial(text, uppercase_of(text[0]))
    }
}

/// What is written for one file of a template: at the file's path, its
/// newest content with the project's name in place of every placeholder.
pub open spec fn written(file: FileView, project_name: Seq<char>) -> (Seq<char>, Seq<char>) {
    (file.path, substituted(file.current(), project_name))
}

/// What is written for the files of a template, in the template's order.
pub open spec fn written_files(files: Seq<FileView>, project_name: Seq<char>) -> Seq<
    (Seq<char>, Seq<char>),
> {
    Seq::new(files.len(), |i: int| written(files[i], project_name))
}

/// The layout of the project that `command` makes from `record`: the
/// project's root is named after the project and lies in the command's
/// directory; below it come the template's directories as they stand, and
/// its files with the project's name filled in.
pub open spec fn instantiated(record: TemplateView, command: CommandView) -> LayoutView {
    LayoutView {
        destination: command.path,
        name: command.name,
        directories: record.directories,
        files: written_files(record.files, command.name),
    }
}

/// The address of the ignore-file for `language`. A `+` cannot stand in an
/// address as it is, and is written `%2B`.
pub open spec fn gitignore_url_of(language: Seq<char>) -> Seq<char> {
    GITIGNORE_SOURCE@ + replaced(language, "+"@, "%2B"@) + GITIGNORE@
}

/// For each file of a template, in the template's order, a project holds
/// one file: at the file's path, with the file's newest content and the
/// project's name in place of every placeholder. Older content is not
/// written anywhere.
pub proof fn lemma_instantiated_files(record: TemplateView, command: CommandView)
    ensures
        instantiated(record, command).directories == record.directories,
        instantiated(record, command).files.len() == record.files.len(),
        forall|i: int|
            0 <= i < record.files.len() ==> {
                &&& (#[trigger] instantiated(record, command).files[i]).0 == record.files[i].path
                &&& instantiated(record, command).files[i].1 == substituted(
                    record.files[i].history.last(),
                    command.name,
                )
            },
{
}

/// Whether `question` is one that this dialogue asks.
pub open spec fn create_asks(question: Question) -> bool {
    question == Question::ChooseLanguage || question == Question::ProjectName || question
        == Question::UseCurrentDirectory || question == Question::ProjectPath
}

/// A dialogue takes an answer if and only if the answer is of the kind that
/// its question asks for, and it goes on with a question of its own or is
/// finished.
pub proof fn lemma_create_takes_what_fits(state: CreateSessionView, answer: AnswerView)
    requires
        state.asked is Some,
        create_asks(state.asked->0),
    ensures
        create_answered(state, answer) is Ok <==> answer.fits(state.asked->0),
        create_answered(state, answer) matches Ok(next) ==> next.asked is None || create_asks(
            next.asked->0,
        ),
{
}

/// What is written for a file depends on its path and its newest content
/// alone: older content changes nothing.
pub proof fn lemma_written_newest_only(first: FileView, second: FileView, project_name: Seq<char>)
    requires
        first.path == second.path,
        first.current() == second.current(),
    ensures
        written(first, project_name) == written(second, project_name),
{
}

/// What one answer does to a dialogue, as a function.
pub open spec fn create_step() -> spec_fn(CreateSessionView, AnswerView) -> Result<
    CreateSessionView,
    TemplateError,
> {
    |state: CreateSessionView, answer: AnswerView| create_answered(state, answer)
}

/// Where language, name and directory are given, nothing is asked: the
/// command is complete from the start.
pub proof fn lemma_create_given(
    command: CommandView,
    language: Seq<char>,
    name: Seq<char>,
    path: Seq<char>,
)
    ensures
        create_start(command, Some(language), Some(name), Some(path)).asked is None,
        create_start(command, Some(language), Some(name), Some(path)).command == (CommandView {
            language: capitalized(language),
            name,
            path,
        }),
{
}

/// Where nothing is given, the dialogue asks for the language, for the
/// name, and whether to use the current directory; after a no it asks for
/// the directory, and after a yes it keeps the command's own.
pub proof fn lemma_create_asked(
    command: CommandView,
    language: Seq<char>,
    name: Seq<char>,
    path: Seq<char>,
)
    ensures
        run(
            create_step(),
            create_start(command, None, None, None),
            seq![
                AnswerView::Text(language),
                AnswerView::Text(name),
                AnswerView::Confirmed(false),
                AnswerView::Text(path),
            ],
        ) matches Ok(end) && end.asked is None && end.command == (CommandView {
            language: capitalized(language),
            name,
            path,
        }),
        run(
            create_step(),
            create_start(command, None, None, None),
            seq![AnswerView::Text(language), AnswerView::Text(name), AnswerView::Confirmed(true)],
        ) matches Ok(end) && end.asked is None && end.command == (CommandView {
            language: capitalized(language),
            name,
            path: command.path,
        }),
{
    let step = create_step();
    let start = create_start(command, None, None, None);
    let head = seq![AnswerView::Text(language), AnswerView::Text(name)];
    lemma_run_pair(step, start, AnswerView::Text(language), AnswerView::Text(name));
    let named = run(step, start, head)->Ok_0;
    lemma_run_one(step, start, head, AnswerView::Confirmed(true));
    assert(head.push(AnswerView::Confirmed(true)) == seq![
        AnswerView::Text(language),
        AnswerView::Text(name),
        AnswerView::Confirmed(true),
    ]);
    lemma_run_one(step, start, head, AnswerView::Confirmed(false));
    lemma_run_one(
        step,
        start,
        head.push(AnswerView::Confirmed(false)),
        AnswerView::Text(path),
    );
    assert(head.push(AnswerView::Confirmed(false)).push(AnswerView::Text(path)) == seq![
        AnswerView::Text(language),
        AnswerView::Text(name),
        AnswerView::Confirmed(false),
        AnswerView::Text(path),
    ]);
}

impl CreateCommand {
    /// A command without language and name, for a project below `path`.
    pub fn new(path: String) -> (command: CreateCommand)
        ensures
            command.language@ == Seq::<char>::empty(),
            command.name@ == Seq::<char>::empty(),
            command.path == path,
    {
        CreateCommand { language: String::new(), name: String::new(), path }
    }

    /// Starts the dialogue that completes this command. What is given is
    /// taken over, the language capitalized, and is not asked for; without
    /// a directory, the command's own is the current one.
    pub fn run_create(
        self,
        language: Option<String>,
        name: Option<String>,
        path: Option<String>,
    ) -> (session: CreateSession)
        ensures
            session@ == create_start(
                self@,
                language.deep_view(),
                name.deep_view(),
                path.deep_view(),
            ),
    {
        let needs_name = name.is_none();
        let needs_path = path.is_none();
        let mut command = self;
        let asked = match language {
            Some(given) => {
                command.language = command.capitalize(given.as_str());
                Self::next_after_language(needs_name, needs_path)
            },
            None => Some(Question::ChooseLanguage),
        };
        if let Some(given) = name {
            command.name = given;
        }
        if let Some(given) = path {
            command.path = given;
        }
        CreateSession { command, needs_name, needs_path, asked }
    }

    fn next_after_name(needs_path: bool) -> (asked: Option<Question>)
        ensures
            asked == after_name(needs_path),
    {
        if needs_path {
            Some(Question::UseCurrentDirectory)
        } else {
            None
        }
    }

    fn next_after_language(needs_name: bool, needs_path: bool) -> (asked: Option<Question>)
        ensures
            asked == after_language(needs_name, needs_path),
    {
        if needs_name {
            Some(Question::ProjectName)
        } else {
            Self::next_after_name(needs_path)
        }
    }

    /// `text` with `initial` in place of its first character.
    pub fn replace_initial(text: &str, initial: &str) -> (out: String)
        ensures
            out@ == with_initial(text@, initial@),
    {
        let count = text.unicode_len();
        if count == 0 {
            String::new()
        } else {
            assert(text@.subrange(1, count as int) == text@.skip(1));
            String::from_str(initial).concat(text.substring_char(1, count))
        }
    }

    /// `text` with its first character in upper case.
    pub fn capitalize(&self, text: &str) -> (out: String)
        ensures
            out@ == capitalized(text@),
    {
        if text.unicode_len() == 0 {
            String::new()
        } else {
            let initial = uppercase(text.get_char(0));
            Self::replace_initial(text, initial.as_str())
        }
    }

    /// The address from which the ignore-file for `language` is fetched.
    pub fn gitignore_url(language: &str) -> (url: String)
        ensures
            url@ == gitignore_url_of(language@),
    {
        let encoded = replace_all(language, "+", "%2B");
        String::from_str(GITIGNORE_SOURCE).concat(encoded.as_str()).concat(GITIGNORE)
    }

    /// The ignore-file to write, given what fetching it brought: the body
    /// at the project's root, or nothing where the fetch failed. A failed
    /// fetch takes nothing away from the project.
    pub fn gitignore_file(fetched: Option<String>) -> (file: Option<(String, String)>)
        ensures
            file.deep_view() == match fetched {
                Some(body) => Some((GITIGNORE@, body@)),
                None => None,
            },
    {
        match fetched {
            Some(body) => Some((String::from_str(GITIGNORE), body)),
            None => None,
        }
    }

    /// The files to write for a project of this command's name: for each
    /// file of the template, in order, its newest content with the name in
    /// place of every placeholder. `Corrupt` where a file of the template
    /// has no content at all.
    pub fn create_files(&self, template: &Template) -> (outcome: Result<
        Vec<(String, String)>,
        TemplateError,
    >)
        ensures
            match outcome {
                Ok(files) => template@.well_formed() && files.deep_view() == written_files(
                    template@.files,
                    self.name@,
                ),
                Err(error) => !template@.well_formed() && error == TemplateError::Corrupt,
            },
    {
        let mut files: Vec<(String, String)> = Vec::new();
        let mut i: usize = 0;
        while i < template.structure.files.len()
            invariant
                i <= template.structure.files.len(),
                forall|k: int| 0 <= k < i ==> (#[trigger] template@.files[k]).well_formed(),
                files.deep_view() == written_files(template@.files, self.name@).take(i as int),
            decreases template.structure.files.len() - i,
        {
            let file = &template.structure.files[i];
            assert(template@.files[i as int] == file@);
            let content = match file.current() {
                Some(newest) => replace_all(newest.as_str(), PLACEHOLDER, self.name.as_str()),
                None => {
                    return Err(TemplateError::Corrupt);
                },
            };
            let ghost before = files.deep_view();
            let path = file.path.clone();
            files.push((path, content));
            assert(files.deep_view() == before.push((path@, content@)));
            i += 1;
        }
        assert(written_files(template@.files, self.name@).take(i as int) == written_files(
            template@.files,
            self.name@,
        ));
        Ok(files)
    }

    /// The layout of a project of this command's name made from
    /// `template`: the template's directories as they stand, and its files
    /// with the name filled in. `Corrupt` where a file of the template has
    /// no content at all.
    pub fn create_project(&self, template: &Template) -> (outcome: Result<Layout, TemplateError>)
        ensures
            match outcome {
                Ok(layout) => template@.well_formed() && layout@ == instantiated(template@, self@),
                Err(error) => !template@.well_formed() && error == TemplateError::Corrupt,
            },
    {
        match self.create_files(template) {
            Ok(files) => Ok(
                Layout {
                    destination: self.path.clone(),
                    name: self.name.clone(),
                    directories: clone_strings(&template.structure.directories),
                    files,
                },
            ),
            Err(error) => Err(error),
        }
    }
}

impl CreateSession {
    /// What to ask now; `None` once the dialogue is finished.
    pub fn question(&self) -> (asked: Option<Question>)
        ensures
            asked == self@.asked,
    {
        self.asked
    }

    /// Takes the answer to the question that is asked. An answer that does
    /// not fit the question, or comes when nothing is asked, is refused
    /// with `InvalidInput` and changes nothing.
    pub fn answer(&mut self, answer: Answer) -> (outcome: Result<(), TemplateError>)
        ensures
            match create_answered(old(self)@, answer@) {
                Ok(next) => final(self)@ == next && outcome == Ok::<(), TemplateError>(()),
                Err(error) => final(self)@ == old(self)@ && outcome == Err::<(), TemplateError>(
                    error,
                ),
            },
    {
        match self.asked {
            Some(Question::ChooseLanguage) => match answer {
                Answer::Text(text) => {
                    self.command.language = self.command.capitalize(text.as_str());
                    self.asked = CreateCommand::next_after_language(
                        self.needs_name,
                        self.needs_path,
                    );
                    Ok(())
                },
                _ => Err(TemplateError::InvalidInput),
            },
            Some(Question::ProjectName) => match answer {
                Answer::Text(text) => {
                    self.command.name = text;
                    self.asked = CreateCommand::next_after_name(self.needs_path);
                    Ok(())
                },
                _ => Err(TemplateError::InvalidInput),
            },
            Some(Question::UseCurrentDirectory) => match answer {
                Answer::Confirmed(here) => {
                    self.asked = if here {
                        None
                    } else {
                        Some(Question::ProjectPath)
                    };
                    Ok(())
                },
                _ => Err(TemplateError::InvalidInput),
            },
            Some(Question::ProjectPath) => match answer {
                Answer::Text(text) => {
                    self.command.path = text;
                    self.asked = None;
                    Ok(())
                },
                _ => Err(TemplateError::InvalidInput),
            },
            _ => Err(TemplateError::InvalidInput),
        }
    }

    /// The completed command; `None` as long as something is asked.
    pub fn finish(self) -> (command: Option<CreateCommand>)
        ensures
            match command {
                Some(command) => self@.asked is None && command@ == self@.command,
                None => self@.asked is Some,
            },
    {
        if self.asked.is_some() {
            None
        } else {
            Some(self.command)
        }
    }
}

} // verus!
