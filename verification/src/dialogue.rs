//! The vocabulary of the dialogues with a user: what can be asked, and what
//! can be answered. A dialogue says what to ask next; whoever runs it asks,
//! and hands back the answer.

use crate::error::TemplateError;
use vstd::prelude::*;

verus! {

/// Files as entered: pairs of a path and a content, in the order of entry.
pub type Entered = Seq<(Seq<char>, Seq<char>)>;

/// Something to ask the user.
#[derive(Clone, Copy, Debug, PartialEq, Eq, Structural)]
pub enum Question {
    /// Which language a new project is in: one of the configured ones.
    ChooseLanguage,
    /// The name of a new project.
    ProjectName,
    /// Whether to create the project in the current directory.
    UseCurrentDirectory,
    /// The directory in which to create the project.
    ProjectPath,
    /// The language of a new template.
    Language,
    /// Whether to change the start command.
    ChangeStartCommand,
    /// The start command.
    StartCommand,
    /// Whether to change the directories.
    ChangeDirectories,
    /// The directories, in one line, separated by commas.
    Directories,
    /// Whether to change the files.
    ChangeFiles,
    /// Whether to add a file.
    AddFile,
    /// The path of the file to add.
    FilePath,
    /// The content of the file to add.
    FileContent,
}

/// An answer of the user.
#[derive(Debug, PartialEq, Eq)]
pub enum Answer {
    /// The answer to a question that asks for yes or no.
    Confirmed(bool),
    /// The answer to a question that asks for a text or a choice.
    Text(String),
}

/// An answer as a mathematical value.
pub enum AnswerView {
    Confirmed(bool),
    Text(Seq<char>),
}

impl View for Answer {
    type V = AnswerView;

    open spec fn view(&self) -> AnswerView {
        match self {
            Answer::Confirmed(yes) => AnswerView::Confirmed(*yes),
            Answer::Text(text) => AnswerView::Text(text@),
        }
    }
}

impl Question {
    /// Whether the question asks for yes or no; every other question asks
    /// for a text.
    pub open spec fn asks_confirmation(self) -> bool {
        self == Question::UseCurrentDirectory || self == Question::ChangeStartCommand || self
            == Question::ChangeDirectories || self == Question::ChangeFiles || self
            == Question::AddFile
    }

    /// Whether the question asks for yes or no.
    pub fn expects_confirmation(&self) -> (yes_or_no: bool)
        ensures
            yes_or_no == self.asks_confirmation(),
    {
        match self {
            Question::UseCurrentDirectory => true,
            Question::ChangeStartCommand => true,
            Question::ChangeDirectories => true,
            Question::ChangeFiles => true,
            Question::AddFile => true,
            _ => false,
        }
    }
}

impl AnswerView {
    /// Whether the answer is of the kind that `question` asks for.
    pub open spec fn fits(self, question: Question) -> bool {
        match self {
            AnswerView::Confirmed(_) => question.asks_confirmation(),
            AnswerView::Text(_) => !question.asks_confirmation(),
        }
    }
}

/// The state of a dialogue after `answers` were given to it one after the
/// other, where `step` says what one answer does. The first answer that is
/// refused ends the run.
pub open spec fn run<S>(
    step: spec_fn(S, AnswerView) -> Result<S, TemplateError>,
    state: S,
    answers: Seq<AnswerView>,
) -> Result<S, TemplateError>
    decreases answers.len(),
{
    if answers.len() == 0 {
        Ok(state)
    } else {
        match run(step, state, answers.drop_last()) {
            Ok(before) => step(before, answers.last()),
            Err(error) => Err(error),
        }
    }
}

/// The answers of a user who adds the files `entered`: for each file a yes
/// to the question whether to add one, then its path, then its content.
pub open spec fn file_answers(entered: Entered) -> Seq<AnswerView>
    decreases entered.len(),
{
    if entered.len() == 0 {
        Seq::empty()
    } else {
        file_answers(entered.drop_last()).push(AnswerView::Confirmed(true)).push(
            AnswerView::Text(entered.last().0),
        ).push(AnswerView::Text(entered.last().1))
    }
}

/// One more answer is given to the state that the answers before it led to.
pub proof fn lemma_run_one<S>(
    step: spec_fn(S, AnswerView) -> Result<S, TemplateError>,
    state: S,
    answers: Seq<AnswerView>,
    answer: AnswerView,
)
    ensures
        run(step, state, answers.push(answer)) == match run(step, state, answers) {
            Ok(before) => step(before, answer),
            Err(error) => Err(error),
        },
{
    assert(answers.push(answer).drop_last() == answers);
}

/// A run over one answer is one step.
pub proof fn lemma_run_single<S>(
    step: spec_fn(S, AnswerView) -> Result<S, TemplateError>,
    state: S,
    answer: AnswerView,
)
    ensures
        run(step, state, seq![answer]) == step(state, answer),
{
    assert(seq![answer] == Seq::<AnswerView>::empty().push(answer));
    lemma_run_one(step, state, Seq::empty(), answer);
}

/// A run over two answers is two steps, unless the first answer is refused.
pub proof fn lemma_run_pair<S>(
    step: spec_fn(S, AnswerView) -> Result<S, TemplateError>,
    state: S,
    first: AnswerView,
    second: AnswerView,
)
    ensures
        run(step, state, seq![first, second]) == match step(state, first) {
            Ok(between) => step(between, second),
            Err(error) => Err(error),
        },
{
    assert(seq![first, second] == seq![first].push(second));
    lemma_run_single(step, state, first);
    lemma_run_one(step, state, seq![first], second);
}

/// A run over two lists of answers, one after the other, is a run over the
/// second from where the first one led.
pub proof fn lemma_run_both<S>(
    step: spec_fn(S, AnswerView) -> Result<S, TemplateError>,
    state: S,
    first: Seq<AnswerView>,
    second: Seq<AnswerView>,
)
    ensures
        run(step, state, first + second) == match run(step, state, first) {
            Ok(between) => run(step, between, second),
            Err(error) => Err(error),
        },
    decreases second.len(),
{
    if second.len() == 0 {
        assert(first + second == first);
    } else {
        lemma_run_both(step, state, first, second.drop_last());
        assert((first + second).drop_last() == first + second.drop_last());
        assert((first + second).last() == second.last());
    }
}

} // verus!
