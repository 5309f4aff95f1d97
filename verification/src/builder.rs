//! Building a new template from what a user entered: a line of directories,
//! files with their content, and a start command.

use crate::dialogue::{
    file_answers, lemma_run_both, lemma_run_one, run, Answer, AnswerView, Entered, Question,
};
use crate::error::TemplateError;
use crate::keyed::{distinct_keys, find_key, has_key, lemma_key_at, lemma_put, put, value_of};
use crate::store::{file_name_of, lemma_load_after_save, loaded, saved, Directory, Templates};
use crate::template::{
    fresh_file, paths_distinct, File, FileView, Structure, Template, TemplateView,
};
use crate::text::{chars_of, split, split_on, string_of};
use vstd::prelude::*;
use vstd::string::StringExecFns;

verus! {

/// The character that separates the directories in one line of input.
pub const SEPARATOR: char = ',';

/// The longest content that a preview shows in full.
pub const PREVIEW_LIMIT: usize = 20;

/// How much of a longer content a preview shows before its dots.
pub const PREVIEW_KEPT: usize = 17;

/// The files of one session of entries: each path once, in the order in
/// which the paths were first entered, each with the content entered last
/// for it.
pub open spec fn batch_of(entered: Entered) -> Entered
    decreases entered.len(),
{
    if entered.len() == 0 {
        Seq::empty()
    } else {
        put(batch_of(entered.drop_last()), entered.last().0, entered.last().1)
    }
}

/// One fresh file for each entry of a batch, in the batch's order.
pub open spec fn fresh_files(batch: Entered) -> Seq<FileView> {
    Seq::new(batch.len(), |i: int| fresh_file(batch[i].0, batch[i].1))
}

/// The template built from one line of directories, the files entered and a
/// start command.
pub open spec fn built(
    directories: Seq<char>,
    entered: Entered,
    start_command: Seq<char>,
) -> TemplateView {
    TemplateView {
        directories: split(directories, SEPARATOR),
        files: fresh_files(batch_of(entered)),
        start_command,
    }
}

/// What is shown of a content after it was entered: a note for an empty
/// one, a short one in full, and the beginning of a longer one.
pub open spec fn preview_of(content: Seq<char>) -> Seq<char> {
    if content.len() == 0 {
        "<skipped>"@
    } else if content.len() <= PREVIEW_LIMIT {
        content
    } else {
        content.take(PREVIEW_KEPT as int) + "..."@
    }
}

/// A batch holds no path twice.
pub proof fn lemma_batch_distinct(entered: Entered)
    ensures
        distinct_keys(batch_of(entered)),
    decreases entered.len(),
{
    if entered.len() > 0 {
        lemma_batch_distinct(entered.drop_last());
        lemma_put(batch_of(entered.drop_last()), entered.last().0, entered.last().1);
    }
}

/// A batch holds the paths that were entered, and no others.
pub proof fn lemma_batch_paths(entered: Entered, path: Seq<char>)
    ensures
        has_key(batch_of(entered), path) <==> has_key(entered, path),
    decreases entered.len(),
{
    if entered.len() > 0 {
        let shorter = entered.drop_last();
        let last = entered.last();
        lemma_batch_distinct(shorter);
        lemma_batch_paths(shorter, path);
        lemma_put(batch_of(shorter), last.0, last.1);
        assert(entered[entered.len() - 1] == last);
        if last.0 != path {
            assert(value_of(batch_of(entered), path) == value_of(batch_of(shorter), path));
            if has_key(shorter, path) {
                let i = choose|i: int| 0 <= i < shorter.len() && (#[trigger] shorter[i]).0 == path;
                assert(entered[i] == shorter[i]);
            }
            if has_key(entered, path) {
                let i = choose|i: int| 0 <= i < entered.len() && (#[trigger] entered[i]).0 == path;
                assert(shorter[i] == entered[i]);
            }
        }
    }
}

/// Beside each path a batch holds the content that was entered last for it:
/// the content of the entry `last`, after which the path was not entered
/// again.
pub proof fn lemma_batch_content(entered: Entered, last: int)
    requires
        0 <= last < entered.len(),
        forall|j: int| last < j < entered.len() ==> (#[trigger] entered[j]).0 != entered[last].0,
    ensures
        value_of(batch_of(entered), entered[last].0) == Some(entered[last].1),
    decreases entered.len(),
{
    let shorter = entered.drop_last();
    let newest = entered.last();
    lemma_batch_distinct(shorter);
    lemma_put(batch_of(shorter), newest.0, newest.1);
    if last < shorter.len() {
        assert(entered[entered.len() - 1].0 != entered[last].0);
        assert(shorter[last] == entered[last]);
        assert forall|j: int| last < j < shorter.len() implies (#[trigger] shorter[j]).0
            != shorter[last].0 by {
            assert(shorter[j] == entered[j]);
        }
        lemma_batch_content(shorter, last);
        assert(value_of(batch_of(entered), entered[last].0) == value_of(
            batch_of(shorter),
            entered[last].0,
        ));
    }
}

/// A built template is a valid record in which no path stands twice.
pub proof fn lemma_built_valid(
    directories: Seq<char>,
    entered: Entered,
    start_command: Seq<char>,
)
    ensures
        built(directories, entered, start_command).well_formed(),
        paths_distinct(built(directories, entered, start_command).files),
{
    lemma_batch_distinct(entered);
    let batch = batch_of(entered);
    let files = fresh_files(batch);
    assert forall|i: int, j: int| 0 <= i < j < files.len() implies (#[trigger] files[i]).path != (
    #[trigger] files[j]).path by {
        assert(batch[i].0 != batch[j].0);
    }
}

/// A template that was built and saved under `language` is the template
/// that a load under `language` gives.
pub proof fn lemma_load_after_add(
    directory: Directory,
    language: Seq<char>,
    directories: Seq<char>,
    entered: Entered,
    start_command: Seq<char>,
)
    requires
        distinct_keys(directory),
    ensures
        loaded(
            saved(directory, file_name_of(language), built(directories, entered, start_command)),
            file_name_of(language),
        ) == Ok::<TemplateView, TemplateError>(built(directories, entered, start_command)),
{
    lemma_built_valid(directories, entered, start_command);
    lemma_load_after_save(
        directory,
        file_name_of(language),
        built(directories, entered, start_command),
    );
}

/// A dialogue that collects a new template: its language unless that was
/// given, one line of directories, files until the user adds no more, and a
/// start command.
#[derive(Debug, PartialEq, Eq)]
pub struct Builder {
    language: String,
    directories: String,
    entered: Vec<(String, String)>,
    path: String,
    start_command: String,
    asked: Option<Question>,
}

/// What a finished dialogue collected.
#[derive(Debug, PartialEq, Eq)]
pub struct Draft {
    /// The language under which to store the template.
    pub language: String,
    /// The line of directories.
    pub directories: String,
    /// The files, as pairs of a path and a content, in the order of entry.
    pub files: Vec<(String, String)>,
    /// The start command.
    pub start_command: String,
}

/// The state of a dialogue as a mathematical value.
pub struct BuilderView {
    pub language: Seq<char>,
    pub directories: Seq<char>,
    pub entered: Entered,
    /// The path of the file whose content is asked for.
    pub path: Seq<char>,
    pub start_command: Seq<char>,
    /// What is asked now; `None` once the dialogue is finished.
    pub asked: Option<Question>,
}

impl View for Builder {
    type V = BuilderView;

    closed spec fn view(&self) -> BuilderView {
        BuilderView {
            language: self.language@,
            directories: self.directories@,
            entered: self.entered.deep_view(),
            path: self.path@,
            start_command: self.start_command@,
            asked: self.asked,
        }
    }
}

/// The state in which a dialogue starts. A language that was given is not
/// asked for.
pub open spec fn builder_start(language: Option<Seq<char>>) -> BuilderView {
    BuilderView {
        language: match language {
            Some(given) => given,
            None => Seq::empty(),
        },
        directories: Seq::empty(),
        entered: Seq::empty(),
        path: Seq::empty(),
        start_command: Seq::empty(),
        asked: Some(
            if language is None {
                Question::Language
            } else {
                Question::Directories
            },
        ),
    }
}

/// The state after `answer` was given to what `state` asks. An answer that
/// does not fit the question, or comes when nothing is asked, is refused.
pub open spec fn builder_answered(state: BuilderView, answer: AnswerView) -> Result<
    BuilderView,
    TemplateError,
> {
    match (state.asked, answer) {
        (Some(Question::Language), AnswerView::Text(text)) => Ok(
            BuilderView { language: text, asked: Some(Question::Directories), ..state },
        ),
        (Some(Question::Directories), AnswerView::Text(text)) => Ok(
            BuilderView { directories: text, asked: Some(Question::AddFile), ..state },
        ),
        (Some(Question::AddFile), AnswerView::Confirmed(more)) => Ok(
            BuilderView {
                asked: Some(
                    if more {
                        Question::FilePath
                    } else {
                        Question::StartCommand
                    },
                ),
                ..state
            },
        ),
        (Some(Question::FilePath), AnswerView::Text(text)) => Ok(
            BuilderView { path: text, asked: Some(Question::FileContent), ..state },
        ),
        (Some(Question::FileContent), AnswerView::Text(text)) => Ok(
            BuilderView {
                entered: state.entered.push((state.path, text)),
                asked: Some(Question::AddFile),
                ..state
            },
        ),
        (Some(Question::StartCommand), AnswerView::Text(text)) => Ok(
            BuilderView { start_command: text, asked: None, ..state },
        ),
        _ => Err(TemplateError::InvalidInput),
    }
}

/// What a dialogue in `state` hands over once it is finished.
pub open spec fn draft_of(state: BuilderView) -> DraftView {
    DraftView {
        language: state.language,
        directories: state.directories,
        files: state.entered,
        start_command: state.start_command,
    }
}

/// A draft as a mathematical value.
pub struct DraftView {
    pub language: Seq<char>,
    pub directories: Seq<char>,
    pub files: Entered,
    pub start_command: Seq<char>,
}

impl View for Draft {
    type V = DraftView;

    open spec fn view(&self) -> DraftView {
        DraftView {
            language: self.language@,
            directories: self.directories@,
            files: self.files.deep_view(),
            start_command: self.start_command@,
        }
    }
}

/// Whether `question` is one that this dialogue asks.
pub open spec fn builder_asks(question: Question) -> bool {
    question == Question::Language || question == Question::Directories || question
        == Question::AddFile || question == Question::FilePath || question
        == Question::FileContent || question == Question::StartCommand
}

/// A dialogue takes an answer if and only if the answer is of the kind that
/// its question asks for, and it goes on with a question of its own or is
/// finished.
pub proof fn lemma_builder_takes_what_fits(state: BuilderView, answer: AnswerView)
    requires
        state.asked is Some,
        builder_asks(state.asked->0),
    ensures
        builder_answered(state, answer) is Ok <==> answer.fits(state.asked->0),
        builder_answered(state, answer) matches Ok(next) ==> next.asked is None || builder_asks(
            next.asked->0,
        ),
{
}

/// What one answer does to a dialogue, as a function.
pub open spec fn builder_step() -> spec_fn(BuilderView, AnswerView) -> Result<
    BuilderView,
    TemplateError,
> {
    |state: BuilderView, answer: AnswerView| builder_answered(state, answer)
}

/// The answers of a user who enters `draft`: the language, the line of
/// directories, the files one by one, a no to a further file, and the start
/// command.
pub open spec fn draft_answers(draft: DraftView) -> Seq<AnswerView> {
    seq![AnswerView::Text(draft.language), AnswerView::Text(draft.directories)] + file_answers(
        draft.files,
    ) + seq![AnswerView::Confirmed(false), AnswerView::Text(draft.start_command)]
}

/// While files are asked for, a user who adds `entered` has them collected
/// behind those collected before, and is asked again whether to add one.
pub proof fn lemma_builder_adds_files(state: BuilderView, entered: Entered)
    requires
        state.asked == Some(Question::AddFile),
    ensures
        run(builder_step(), state, file_answers(entered)) matches Ok(after) && after.asked == Some(
            Question::AddFile,
        ) && after.entered == state.entered + entered && after.language == state.language
            && after.directories == state.directories && after.start_command
            == state.start_command,
    decreases entered.len(),
{
    if entered.len() == 0 {
        assert(state.entered + entered == state.entered);
    } else {
        let shorter = entered.drop_last();
        lemma_builder_adds_files(state, shorter);
        let before = run(builder_step(), state, file_answers(shorter))->Ok_0;
        let yes = file_answers(shorter).push(AnswerView::Confirmed(true));
        let path = yes.push(AnswerView::Text(entered.last().0));
        lemma_run_one(builder_step(), state, file_answers(shorter), AnswerView::Confirmed(true));
        lemma_run_one(builder_step(), state, yes, AnswerView::Text(entered.last().0));
        lemma_run_one(builder_step(), state, path, AnswerView::Text(entered.last().1));
        assert((state.entered + shorter).push(entered.last()) == state.entered + entered);
    }
}

/// A dialogue collects what the user enters: after the answers of a user
/// who enters `draft` it is finished, and hands over `draft`.
pub proof fn lemma_builder_collects(draft: DraftView)
    ensures
        run(builder_step(), builder_start(None), draft_answers(draft)) matches Ok(end)
            && end.asked is None && draft_of(end) == draft,
{
    let step = builder_step();
    let start = builder_start(None);
    let nothing = Seq::<AnswerView>::empty();
    let head = seq![AnswerView::Text(draft.language), AnswerView::Text(draft.directories)];
    let tail = seq![AnswerView::Confirmed(false), AnswerView::Text(draft.start_command)];
    assert(head == nothing.push(AnswerView::Text(draft.language)).push(
        AnswerView::Text(draft.directories),
    ));
    lemma_run_one(step, start, nothing, AnswerView::Text(draft.language));
    lemma_run_one(
        step,
        start,
        nothing.push(AnswerView::Text(draft.language)),
        AnswerView::Text(draft.directories),
    );
    let asked_files = run(step, start, head)->Ok_0;
    lemma_builder_adds_files(asked_files, draft.files);
    lemma_run_both(step, start, head, file_answers(draft.files));
    let collected = run(step, asked_files, file_answers(draft.files))->Ok_0;
    assert(Entered::empty() + draft.files == draft.files);
    assert(tail == nothing.push(AnswerView::Confirmed(false)).push(
        AnswerView::Text(draft.start_command),
    ));
    lemma_run_one(step, collected, nothing, AnswerView::Confirmed(false));
    lemma_run_one(
        step,
        collected,
        nothing.push(AnswerView::Confirmed(false)),
        AnswerView::Text(draft.start_command),
    );
    lemma_run_both(step, start, head + file_answers(draft.files), tail);
}

impl Builder {
    /// Starts a dialogue. A language that is given is not asked for.
    pub fn new(language: Option<String>) -> (builder: Builder)
        ensures
            builder@ == builder_start(language.deep_view()),
    {
        let asked = if language.is_none() {
            Question::Language
        } else {
            Question::Directories
        };
        let language = match language {
            Some(given) => given,
            None => String::new(),
        };
        let builder = Builder {
            language,
            directories: String::new(),
            entered: Vec::new(),
            path: String::new(),
            start_command: String::new(),
            asked: Some(asked),
        };
        assert(builder.entered.deep_view() == Entered::empty());
        builder
    }

    /// What to ask now; `None` once the dialogue is finished.
    pub fn question(&self) -> (asked: Option<Question>)
        ensures
            asked == self@.asked,
    {
        self.asked
    }

    /// Takes the answer to the question that is asked. An answer that does
    /// not fit the question, or comes when nothing is asked, is refused
    /// with `InvalidInput` and changes nothing.
    pub fn answer(&mut self, answer: Answer) -> (outcome: Result<(), TemplateError>)
        ensures
            match builder_answered(old(self)@, answer@) {
                Ok(next) => final(self)@ == next && outcome == Ok::<(), TemplateError>(()),
                Err(error) => final(self)@ == old(self)@ && outcome == Err::<(), TemplateError>(
                    error,
                ),
            },
    {
        match self.asked {
            Some(Question::Language) => match answer {
                Answer::Text(text) => {
                    self.language = text;
                    self.asked = Some(Question::Directories);
                    Ok(())
                },
                _ => Err(TemplateError::InvalidInput),
            },
            Some(Question::Directories) => match answer {
                Answer::Text(text) => {
                    self.directories = text;
                    self.asked = Some(Question::AddFile);
                    Ok(())
                },
                _ => Err(TemplateError::InvalidInput),
            },
            Some(Question::AddFile) => match answer {
                Answer::Confirmed(more) => {
                    self.asked = Some(
                        if more {
                            Question::FilePath
                        } else {
                            Question::StartCommand
                        },
                    );
                    Ok(())
                },
                _ => Err(TemplateError::InvalidInput),
            },
            Some(Question::FilePath) => match answer {
                Answer::Text(text) => {
                    self.path = text;
                    self.asked = Some(Question::FileContent);
                    Ok(())
                },
                _ => Err(TemplateError::InvalidInput),
            },
            Some(Question::FileContent) => match answer {
                Answer::Text(text) => {
                    let ghost before = self.entered.deep_view();
                    let path = self.path.clone();
                    self.entered.push((path, text));
                    assert(self.entered.deep_view() == before.push((path@, text@)));
                    self.asked = Some(Question::AddFile);
                    Ok(())
                },
                _ => Err(TemplateError::InvalidInput),
            },
            Some(Question::StartCommand) => match answer {
                Answer::Text(text) => {
                    self.start_command = text;
                    self.asked = None;
                    Ok(())
                },
                _ => Err(TemplateError::InvalidInput),
            },
            _ => Err(TemplateError::InvalidInput),
        }
    }

    /// What the dialogue collected; `None` as long as something is asked.
    pub fn finish(self) -> (draft: Option<Draft>)
        ensures
            match draft {
                Some(draft) => self@.asked is None && draft@ == draft_of(self@),
                None => self@.asked is Some,
            },
    {
        if self.asked.is_some() {
            None
        } else {
            Some(
                Draft {
                    language: self.language,
                    directories: self.directories,
                    files: self.entered,
                    start_command: self.start_command,
                },
            )
        }
    }
}

impl Templates {
    /// The directories named in one line of input: its parts between
    /// commas, each as it stands. An empty line names one directory, the
    /// empty one.
    pub fn parse_directories(input: &str) -> (directories: Vec<String>)
        ensures
            directories.deep_view() == split(input@, SEPARATOR),
    {
        split_on(input, SEPARATOR)
    }

    /// The batch of the files entered: each path once, with the content
    /// entered last for it.
    pub fn parse_files(entered: &Vec<(String, String)>) -> (batch: Vec<(String, String)>)
        ensures
            batch.deep_view() == batch_of(entered.deep_view()),
            distinct_keys(batch.deep_view()),
    {
        let mut batch: Vec<(String, String)> = Vec::new();
        let mut i: usize = 0;
        assert(entered.deep_view().take(0) == Entered::empty());
        assert(batch.deep_view() == Entered::empty());
        while i < entered.len()
            invariant
                i <= entered.len(),
                distinct_keys(batch.deep_view()),
                batch.deep_view() == batch_of(entered.deep_view().take(i as int)),
            decreases entered.len() - i,
        {
            let path = entered[i].0.clone();
            let content = entered[i].1.clone();
            let at = find_key(&batch, &path);
            let ghost before = batch.deep_view();
            let ghost pair = (path@, content@);
            proof {
                if let Some(k) = at {
                    lemma_key_at(before, path@, k as int);
                }
                lemma_put(before, path@, content@);
                let upto = entered.deep_view().take(i + 1);
                assert(upto.drop_last() == entered.deep_view().take(i as int));
                assert(upto.last() == pair);
            }
            match at {
                Some(k) => {
                    batch.set(k, (path, content));
                    assert(batch.deep_view() == before.update(k as int, pair));
                },
                None => {
                    batch.push((path, content));
                    assert(batch.deep_view() == before.push(pair));
                },
            }
            i += 1;
        }
        assert(entered.deep_view().take(i as int) == entered.deep_view());
        batch
    }

    /// What to show of a content after it was entered.
    pub fn content_preview(content: &str) -> (preview: String)
        ensures
            preview@ == preview_of(content@),
    {
        let chars = chars_of(content);
        if chars.len() == 0 {
            String::from_str("<skipped>")
        } else if chars.len() <= PREVIEW_LIMIT {
            String::from_str(content)
        } else {
            assert(chars@.subrange(0, PREVIEW_KEPT as int) == chars@.take(PREVIEW_KEPT as int));
            string_of(&chars, 0, PREVIEW_KEPT).concat("...")
        }
    }

    /// Builds a template from one line of directories, the files entered and
    /// a start command. Each file starts its history with the content
    /// entered for it.
    pub fn build(
        directories: &str,
        entered: &Vec<(String, String)>,
        start_command: String,
    ) -> (record: Template)
        ensures
            record@ == built(directories@, entered.deep_view(), start_command@),
    {
        let batch = Self::parse_files(entered);
        let mut files: Vec<File> = Vec::new();
        let mut i: usize = 0;
        while i < batch.len()
            invariant
                i <= batch.len(),
                files.deep_view() == fresh_files(batch.deep_view()).take(i as int),
            decreases batch.len() - i,
        {
            let file = File::new(batch[i].0.clone(), batch[i].1.clone());
            let ghost before = files.deep_view();
            files.push(file);
            assert(files.deep_view() == before.push(file@));
            i += 1;
        }
        assert(fresh_files(batch.deep_view()).take(i as int) == fresh_files(batch.deep_view()));
        Template {
            structure: Structure { directories: Self::parse_directories(directories), files },
            start_command,
        }
    }

    /// Builds a template and saves it under `language`, in place of any
    /// template stored under that name. Returns the name of the file that
    /// now holds it.
    pub fn add_template(
        &mut self,
        language: &str,
        directories: &str,
        entered: &Vec<(String, String)>,
        start_command: String,
    ) -> (file_name: String)
        ensures
            file_name@ == file_name_of(language@),
            final(self)@ == saved(
                old(self)@,
                file_name_of(language@),
                built(directories@, entered.deep_view(), start_command@),
            ),
            distinct_keys(old(self)@),
            distinct_keys(final(self)@),
    {
        let record = Self::build(directories, entered, start_command);
        let file_name = Self::file_name(language);
        self.save(file_name.clone(), record);
        file_name
    }
}

} // verus!
