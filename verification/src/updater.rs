//! Updating a stored template: a new start command, a new list of
//! directories, and new content for its files. Content is never lost to an
//! update of a file: it moves down in the file's history.

use crate::builder::{batch_of, lemma_batch_distinct, SEPARATOR};
use crate::dialogue::{
    file_answers, lemma_run_both, lemma_run_one, lemma_run_pair, lemma_run_single, run, Answer,
    AnswerView, Entered, Question,
};
use crate::error::TemplateError;
use crate::keyed::{distinct_keys, find_key, has_key, lemma_key_at, value_of};
use crate::store::{
    file_name_of, lemma_load_after_save, loaded, saved, Directory, Templates,
};
use crate::template::{
    fresh_file, has_path, histories_nonempty, paths_distinct, revised, File, FileView, Structure,
    Template, TemplateView,
};
use crate::text::split;
use vstd::prelude::*;

verus! {

/// What to change in a template. A field that is `None` leaves its part of
/// the template as it is.
#[derive(Debug, PartialEq, Eq)]
pub struct Update {
    /// The new start command.
    pub start_command: Option<String>,
    /// One line of directories, separated by commas, that replace the
    /// template's directories.
    pub directories: Option<String>,
    /// The files entered, as pairs of a path and a content.
    pub files: Option<Vec<(String, String)>>,
}

/// An update as a mathematical value.
pub struct UpdateView {
    pub start_command: Option<Seq<char>>,
    pub directories: Option<Seq<char>>,
    pub files: Option<Entered>,
}

impl View for Update {
    type V = UpdateView;

    open spec fn view(&self) -> UpdateView {
        UpdateView {
            start_command: self.start_command.deep_view(),
            directories: self.directories.deep_view(),
            files: self.files.deep_view(),
        }
    }
}

/// The files of `existing` for which the batch has new content, each with
/// that content as its newest version, in their old order.
pub open spec fn kept(existing: Seq<FileView>, batch: Entered) -> Seq<FileView>
    decreases existing.len(),
{
    if existing.len() == 0 {
        Seq::empty()
    } else {
        let before = kept(existing.drop_last(), batch);
        match value_of(batch, existing.last().path) {
            Some(content) => before.push(revised(existing.last(), content)),
            None => before,
        }
    }
}

/// A fresh file for each entry of the batch whose path no file of
/// `existing` has, in the batch's order.
pub open spec fn added(existing: Seq<FileView>, batch: Entered) -> Seq<FileView>
    decreases batch.len(),
{
    if batch.len() == 0 {
        Seq::empty()
    } else {
        let before = added(existing, batch.drop_last());
        if has_path(existing, batch.last().0) {
            before
        } else {
            before.push(fresh_file(batch.last().0, batch.last().1))
        }
    }
}

/// The files of a template after a batch of files was entered for it: the
/// files that got new content, then the files that are new. A file for
/// which nothing was entered is dropped.
pub open spec fn merged(existing: Seq<FileView>, batch: Entered) -> Seq<FileView> {
    kept(existing, batch) + added(existing, batch)
}

/// The template `record` after `update`.
pub open spec fn updated(record: TemplateView, update: UpdateView) -> TemplateView {
    TemplateView {
        directories: match update.directories {
            Some(line) => split(line, SEPARATOR),
            None => record.directories,
        },
        files: match update.files {
            Some(entered) => merged(record.files, batch_of(entered)),
            None => record.files,
        },
        start_command: match update.start_command {
            Some(command) => command,
            None => record.start_command,
        },
    }
}

/// Each kept file comes from a file of `existing`, found at the index that
/// is returned: it has that file's path, and that file's history with the
/// batch's content for the path behind it.
pub proof fn lemma_kept_origin(existing: Seq<FileView>, batch: Entered, k: int) -> (i: int)
    requires
        0 <= k < kept(existing, batch).len(),
    ensures
        0 <= i < existing.len(),
        value_of(batch, existing[i].path) is Some,
        kept(existing, batch)[k] == revised(existing[i], value_of(batch, existing[i].path)->0),
    decreases existing.len(),
{
    let shorter = existing.drop_last();
    let before = kept(shorter, batch);
    if k < before.len() {
        let i = lemma_kept_origin(shorter, batch, k);
        assert(existing[i] == shorter[i]);
        i
    } else {
        existing.len() - 1
    }
}

/// Each added file is the fresh file of an entry of the batch, found at the
/// index that is returned, whose path no file of `existing` has.
pub proof fn lemma_added_origin(existing: Seq<FileView>, batch: Entered, k: int) -> (j: int)
    requires
        0 <= k < added(existing, batch).len(),
    ensures
        0 <= j < batch.len(),
        !has_path(existing, batch[j].0),
        added(existing, batch)[k] == fresh_file(batch[j].0, batch[j].1),
    decreases batch.len(),
{
    let shorter = batch.drop_last();
    let before = added(existing, shorter);
    if k < before.len() {
        let j = lemma_added_origin(existing, shorter, k);
        assert(batch[j] == shorter[j]);
        j
    } else {
        batch.len() - 1
    }
}

/// A file for which the batch has new content is kept, with that content as
/// its newest version and every older version in its place.
pub proof fn lemma_kept_file(existing: Seq<FileView>, batch: Entered, i: int)
    requires
        0 <= i < existing.len(),
        value_of(batch, existing[i].path) is Some,
    ensures
        merged(existing, batch).contains(
            revised(existing[i], value_of(batch, existing[i].path)->0),
        ),
{
    lemma_kept_member(existing, batch, i);
    let file = revised(existing[i], value_of(batch, existing[i].path)->0);
    let revisions = kept(existing, batch);
    let k = choose|k: int| 0 <= k < revisions.len() && revisions[k] == file;
    assert(merged(existing, batch)[k] == file);
}

proof fn lemma_kept_member(existing: Seq<FileView>, batch: Entered, i: int)
    requires
        0 <= i < existing.len(),
        value_of(batch, existing[i].path) is Some,
    ensures
        kept(existing, batch).contains(
            revised(existing[i], value_of(batch, existing[i].path)->0),
        ),
    decreases existing.len(),
{
    let shorter = existing.drop_last();
    let all = kept(existing, batch);
    let file = revised(existing[i], value_of(batch, existing[i].path)->0);
    if i < shorter.len() {
        assert(shorter[i] == existing[i]);
        lemma_kept_member(shorter, batch, i);
        let before = kept(shorter, batch);
        let k = choose|k: int| 0 <= k < before.len() && before[k] == file;
        assert(all[k] == file);
    } else {
        assert(all[all.len() - 1] == file);
    }
}

/// An entry of the batch whose path no existing file has is added as a
/// fresh file.
pub proof fn lemma_added_file(existing: Seq<FileView>, batch: Entered, j: int)
    requires
        0 <= j < batch.len(),
        !has_path(existing, batch[j].0),
    ensures
        merged(existing, batch).contains(fresh_file(batch[j].0, batch[j].1)),
{
    lemma_added_member(existing, batch, j);
    let file = fresh_file(batch[j].0, batch[j].1);
    let fresh = added(existing, batch);
    let k = choose|k: int| 0 <= k < fresh.len() && fresh[k] == file;
    let offset = kept(existing, batch).len();
    assert(merged(existing, batch)[offset + k] == file);
}

proof fn lemma_added_member(existing: Seq<FileView>, batch: Entered, j: int)
    requires
        0 <= j < batch.len(),
        !has_path(existing, batch[j].0),
    ensures
        added(existing, batch).contains(fresh_file(batch[j].0, batch[j].1)),
    decreases batch.len(),
{
    let shorter = batch.drop_last();
    let all = added(existing, batch);
    let file = fresh_file(batch[j].0, batch[j].1);
    if j < shorter.len() {
        assert(shorter[j] == batch[j]);
        lemma_added_member(existing, shorter, j);
        let before = added(existing, shorter);
        let k = choose|k: int| 0 <= k < before.len() && before[k] == file;
        assert(all[k] == file);
    } else {
        assert(all[all.len() - 1] == file);
    }
}

/// Every file after a merge has a path of the batch. So a file for which
/// nothing was entered is gone.
pub proof fn lemma_merged_paths(existing: Seq<FileView>, batch: Entered, k: int)
    requires
        0 <= k < merged(existing, batch).len(),
    ensures
        has_key(batch, merged(existing, batch)[k].path),
{
    let offset = kept(existing, batch).len();
    if k < offset {
        lemma_kept_origin(existing, batch, k);
    } else {
        let j = lemma_added_origin(existing, batch, k - offset);
        assert(batch[j].0 == merged(existing, batch)[k].path);
    }
}

/// A path for which nothing was entered is the path of no file after a
/// merge, whether a file had it before or not.
pub proof fn lemma_merged_drops(existing: Seq<FileView>, batch: Entered, path: Seq<char>)
    requires
        !has_key(batch, path),
    ensures
        !has_path(merged(existing, batch), path),
{
    let all = merged(existing, batch);
    assert forall|k: int| 0 <= k < all.len() implies (#[trigger] all[k]).path != path by {
        lemma_merged_paths(existing, batch, k);
    }
}

/// After a merge every file has at least one version of its content; and
/// where no path stood twice among the existing files, none does among the
/// merged ones.
pub proof fn lemma_merged_valid(existing: Seq<FileView>, batch: Entered)
    requires
        distinct_keys(batch),
    ensures
        histories_nonempty(merged(existing, batch)),
        paths_distinct(existing) ==> paths_distinct(merged(existing, batch)),
{
    let all = merged(existing, batch);
    let offset = kept(existing, batch).len();
    assert forall|k: int| 0 <= k < all.len() implies (#[trigger] all[k]).well_formed() by {
        if k < offset {
            lemma_kept_origin(existing, batch, k);
        } else {
            lemma_added_origin(existing, batch, k - offset);
        }
    }
    if paths_distinct(existing) {
        lemma_kept_distinct(existing, batch);
        lemma_added_distinct(existing, batch);
        assert forall|a: int, b: int| 0 <= a < b < all.len() implies (#[trigger] all[a]).path != (
        #[trigger] all[b]).path by {
            if b < offset {
                assert(kept(existing, batch)[a].path != kept(existing, batch)[b].path);
            } else if a >= offset {
                assert(added(existing, batch)[a - offset].path != added(existing, batch)[b
                    - offset].path);
            } else {
                let i = lemma_kept_origin(existing, batch, a);
                lemma_added_origin(existing, batch, b - offset);
                assert(existing[i].path == all[a].path);
            }
        }
    }
}

proof fn lemma_kept_distinct(existing: Seq<FileView>, batch: Entered)
    requires
        paths_distinct(existing),
    ensures
        paths_distinct(kept(existing, batch)),
    decreases existing.len(),
{
    if existing.len() > 0 {
        let shorter = existing.drop_last();
        let before = kept(shorter, batch);
        let all = kept(existing, batch);
        assert forall|i: int, j: int| 0 <= i < j < shorter.len() implies (
        #[trigger] shorter[i]).path != (#[trigger] shorter[j]).path by {
            assert(existing[i].path != existing[j].path);
        }
        lemma_kept_distinct(shorter, batch);
        assert forall|a: int, b: int| 0 <= a < b < all.len() implies (#[trigger] all[a]).path != (
        #[trigger] all[b]).path by {
            if b < before.len() {
                assert(before[a].path != before[b].path);
            } else {
                let i = lemma_kept_origin(shorter, batch, a);
                assert(existing[i].path != existing[existing.len() - 1].path);
            }
        }
    }
}

proof fn lemma_added_distinct(existing: Seq<FileView>, batch: Entered)
    requires
        distinct_keys(batch),
    ensures
        paths_distinct(added(existing, batch)),
    decreases batch.len(),
{
    if batch.len() > 0 {
        let shorter = batch.drop_last();
        let before = added(existing, shorter);
        let all = added(existing, batch);
        assert forall|i: int, j: int| 0 <= i < j < shorter.len() implies (#[trigger] shorter[i]).0
            != (#[trigger] shorter[j]).0 by {
            assert(batch[i].0 != batch[j].0);
        }
        lemma_added_distinct(existing, shorter);
        assert forall|a: int, b: int| 0 <= a < b < all.len() implies (#[trigger] all[a]).path != (
        #[trigger] all[b]).path by {
            if b < before.len() {
                assert(before[a].path != before[b].path);
            } else {
                let j = lemma_added_origin(existing, shorter, a);
                assert(batch[j].0 != batch[batch.len() - 1].0);
            }
        }
    }
}

/// An update of a valid record gives a valid record.
pub proof fn lemma_updated_valid(record: TemplateView, update: UpdateView)
    requires
        record.well_formed(),
    ensures
        updated(record, update).well_formed(),
{
    if let Some(entered) = update.files {
        lemma_batch_distinct(entered);
        lemma_merged_valid(record.files, batch_of(entered));
    }
}

/// A template that was updated and saved is the template that a load from
/// the same file gives.
pub proof fn lemma_load_after_update(
    directory: Directory,
    file_name: Seq<char>,
    update: UpdateView,
)
    requires
        distinct_keys(directory),
        loaded(directory, file_name) is Ok,
    ensures
        loaded(
            saved(directory, file_name, updated(loaded(directory, file_name)->Ok_0, update)),
            file_name,
        ) == Ok::<TemplateView, TemplateError>(
            updated(loaded(directory, file_name)->Ok_0, update),
        ),
{
    let record = loaded(directory, file_name)->Ok_0;
    lemma_updated_valid(record, update);
    lemma_load_after_save(directory, file_name, updated(record, update));
}

/// A dialogue that collects an update: for the start command, for the
/// directories and for the files in turn, whether to change them, and if so
/// the new value; for the files, files until the user adds no more.
#[derive(Debug, PartialEq, Eq)]
pub struct Updater {
    update: Update,
    path: String,
    asked: Option<Question>,
}

/// The state of a dialogue as a mathematical value.
pub struct UpdaterView {
    pub update: UpdateView,
    /// The path of the file whose content is asked for.
    pub path: Seq<char>,
    /// What is asked now; `None` once the dialogue is finished.
    pub asked: Option<Question>,
}

impl View for Updater {
    type V = UpdaterView;

    closed spec fn view(&self) -> UpdaterView {
        UpdaterView { update: self.update@, path: self.path@, asked: self.asked }
    }
}

/// The state in which a dialogue starts: nothing is to be changed yet.
pub open spec fn updater_start() -> UpdaterView {
    UpdaterView {
        update: UpdateView { start_command: None, directories: None, files: None },
        path: Seq::empty(),
        asked: Some(Question::ChangeStartCommand),
    }
}

/// The state after `answer` was given to what `state` asks. An answer that
/// does not fit the question, or comes when nothing is asked, is refused.
pub open spec fn updater_answered(state: UpdaterView, answer: AnswerView) -> Result<
    UpdaterView,
    TemplateError,
> {
    match (state.asked, answer) {
        (Some(Question::ChangeStartCommand), AnswerView::Confirmed(change)) => Ok(
            UpdaterView {
                asked: Some(
                    if change {
                        Question::StartCommand
                    } else {
                        Question::ChangeDirectories
                    },
                ),
                ..state
            },
        ),
        (Some(Question::StartCommand), AnswerView::Text(text)) => Ok(
            UpdaterView {
                update: UpdateView { start_command: Some(text), ..state.update },
                asked: Some(Question::ChangeDirectories),
                ..state
            },
        ),
        (Some(Question::ChangeDirectories), AnswerView::Confirmed(change)) => Ok(
            UpdaterView {
                asked: Some(
                    if change {
                        Question::Directories
                    } else {
                        Question::ChangeFiles
                    },
                ),
                ..state
            },
        ),
        (Some(Question::Directories), AnswerView::Text(text)) => Ok(
            UpdaterView {
                update: UpdateView { directories: Some(text), ..state.update },
                asked: Some(Question::ChangeFiles),
                ..state
            },
        ),
        (Some(Question::ChangeFiles), AnswerView::Confirmed(change)) => Ok(
            if change {
                UpdaterView {
                    update: UpdateView { files: Some(Entered::empty()), ..state.update },
                    asked: Some(Question::AddFile),
                    ..state
                }
            } else {
                UpdaterView { asked: None, ..state }
            },
        ),
        (Some(Question::AddFile), AnswerView::Confirmed(more)) => Ok(
            UpdaterView {
                asked: if more {
                    Some(Question::FilePath)
                } else {
                    None
                },
                ..state
            },
        ),
        (Some(Question::FilePath), AnswerView::Text(text)) => Ok(
            UpdaterView { path: text, asked: Some(Question::FileContent), ..state },
        ),
        (Some(Question::FileContent), AnswerView::Text(text)) => Ok(
            UpdaterView {
                update: UpdateView {
                    files: Some(
                        match state.update.files {
                            Some(entered) => entered,
                            None => Entered::empty(),
                        }.push((state.path, text)),
                    ),
                    ..state.update
                },
                asked: Some(Question::AddFile),
                ..state
            },
        ),
        _ => Err(TemplateError::InvalidInput),
    }
}

/// Whether `question` is one that this dialogue asks.
pub open spec fn updater_asks(question: Question) -> bool {
    question == Question::ChangeStartCommand || question == Question::StartCommand || question
        == Question::ChangeDirectories || question == Question::Directories || question
        == Question::ChangeFiles || question == Question::AddFile || question
        == Question::FilePath || question == Question::FileContent
}

/// A dialogue takes an answer if and only if the answer is of the kind that
/// its question asks for, and it goes on with a question of its own or is
/// finished.
pub proof fn lemma_updater_takes_what_fits(state: UpdaterView, answer: AnswerView)
    requires
        state.asked is Some,
        updater_asks(state.asked->0),
    ensures
        updater_answered(state, answer) is Ok <==> answer.fits(state.asked->0),
        updater_answered(state, answer) matches Ok(next) ==> next.asked is None || updater_asks(
            next.asked->0,
        ),
{
}

/// What one answer does to a dialogue, as a function.
pub open spec fn updater_step() -> spec_fn(UpdaterView, AnswerView) -> Result<
    UpdaterView,
    TemplateError,
> {
    |state: UpdaterView, answer: AnswerView| updater_answered(state, answer)
}

/// The answers of a user about one part of a template: a no where it is to
/// stay, a yes and the new value where it is to change.
pub open spec fn change_answers(value: Option<Seq<char>>) -> Seq<AnswerView> {
    match value {
        Some(text) => seq![AnswerView::Confirmed(true), AnswerView::Text(text)],
        None => seq![AnswerView::Confirmed(false)],
    }
}

/// The answers of a user about the files: a no where they are to stay; else
/// a yes, the files one by one, and a no to a further file.
pub open spec fn files_answers(files: Option<Entered>) -> Seq<AnswerView> {
    match files {
        Some(entered) => seq![AnswerView::Confirmed(true)] + file_answers(entered)
            + seq![AnswerView::Confirmed(false)],
        None => seq![AnswerView::Confirmed(false)],
    }
}

/// The answers of a user who wants `update`: about the start command, about
/// the directories, and about the files.
pub open spec fn update_answers(update: UpdateView) -> Seq<AnswerView> {
    change_answers(update.start_command) + change_answers(update.directories) + files_answers(
        update.files,
    )
}

/// While files are asked for, a user who adds `entered` has them collected
/// behind those collected before, and is asked again whether to add one.
pub proof fn lemma_updater_adds_files(state: UpdaterView, entered: Entered)
    requires
        state.asked == Some(Question::AddFile),
        state.update.files is Some,
    ensures
        run(updater_step(), state, file_answers(entered)) matches Ok(after) && after.asked == Some(
            Question::AddFile,
        ) && after.update == (UpdateView {
            files: Some(state.update.files->0 + entered),
            ..state.update
        }),
    decreases entered.len(),
{
    if entered.len() == 0 {
        assert(state.update.files->0 + entered == state.update.files->0);
    } else {
        let shorter = entered.drop_last();
        lemma_updater_adds_files(state, shorter);
        let yes = file_answers(shorter).push(AnswerView::Confirmed(true));
        let path = yes.push(AnswerView::Text(entered.last().0));
        lemma_run_one(updater_step(), state, file_answers(shorter), AnswerView::Confirmed(true));
        lemma_run_one(updater_step(), state, yes, AnswerView::Text(entered.last().0));
        lemma_run_one(updater_step(), state, path, AnswerView::Text(entered.last().1));
        assert((state.update.files->0 + shorter).push(entered.last()) == state.update.files->0
            + entered);
    }
}

/// A dialogue collects what the user wants: after the answers of a user
/// who wants `update` it is finished, and hands over `update`.
pub proof fn lemma_updater_collects(update: UpdateView)
    ensures
        run(updater_step(), updater_start(), update_answers(update)) matches Ok(end)
            && end.asked is None && end.update == update,
{
    let step = updater_step();
    let start = updater_start();
    let first = change_answers(update.start_command);
    let second = change_answers(update.directories);
    let third = files_answers(update.files);
    match update.start_command {
        Some(text) => lemma_run_pair(
            step,
            start,
            AnswerView::Confirmed(true),
            AnswerView::Text(text),
        ),
        None => lemma_run_single(step, start, AnswerView::Confirmed(false)),
    }
    let after_first = run(step, start, first)->Ok_0;
    assert(after_first.asked == Some(Question::ChangeDirectories));
    match update.directories {
        Some(text) => lemma_run_pair(
            step,
            after_first,
            AnswerView::Confirmed(true),
            AnswerView::Text(text),
        ),
        None => lemma_run_single(step, after_first, AnswerView::Confirmed(false)),
    }
    let after_second = run(step, after_first, second)->Ok_0;
    assert(after_second.asked == Some(Question::ChangeFiles));
    match update.files {
        Some(entered) => {
            let yes = seq![AnswerView::Confirmed(true)];
            let no = seq![AnswerView::Confirmed(false)];
            lemma_run_single(step, after_second, AnswerView::Confirmed(true));
            let asked_files = run(step, after_second, yes)->Ok_0;
            lemma_updater_adds_files(asked_files, entered);
            let collected = run(step, asked_files, file_answers(entered))->Ok_0;
            assert(Entered::empty() + entered == entered);
            lemma_run_single(step, collected, AnswerView::Confirmed(false));
            lemma_run_both(step, after_second, yes, file_answers(entered));
            lemma_run_both(step, after_second, yes + file_answers(entered), no);
        },
        None => lemma_run_single(step, after_second, AnswerView::Confirmed(false)),
    }
    lemma_run_both(step, start, first, second);
    lemma_run_both(step, start, first + second, third);
}

impl Updater {
    /// Starts a dialogue.
    pub fn new() -> (updater: Updater)
        ensures
            updater@ == updater_start(),
    {
        Updater {
            update: Update { start_command: None, directories: None, files: None },
            path: String::new(),
            asked: Some(Question::ChangeStartCommand),
        }
    }

    /// What to ask now; `None` once the dialogue is finished.
    pub fn question(&self) -> (asked: Option<Question>)
        ensures
            asked == self@.asked,
    {
        self.asked
    }

    /// Takes the answer to the question that is asked. An answer that does
    /// not fit the question, or comes when nothing is asked, is refused
    /// with `InvalidInput` and changes nothing.
    pub fn answer(&mut self, answer: Answer) -> (outcome: Result<(), TemplateError>)
        ensures
            match updater_answered(old(self)@, answer@) {
                Ok(next) => final(self)@ == next && outcome == Ok::<(), TemplateError>(()),
                Err(error) => final(self)@ == old(self)@ && outcome == Err::<(), TemplateError>(
                    error,
                ),
            },
    {
        match self.asked {
            Some(Question::ChangeStartCommand) => match answer {
                Answer::Confirmed(change) => {
                    self.asked = Some(
                        if change {
                            Question::StartCommand
                        } else {
                            Question::ChangeDirectories
                        },
                    );
                    Ok(())
                },
                _ => Err(TemplateError::InvalidInput),
            },
            Some(Question::StartCommand) => match answer {
                Answer::Text(text) => {
                    self.update.start_command = Some(text);
                    self.asked = Some(Question::ChangeDirectories);
                    Ok(())
                },
                _ => Err(TemplateError::InvalidInput),
            },
            Some(Question::ChangeDirectories) => match answer {
                Answer::Confirmed(change) => {
                    self.asked = Some(
                        if change {
                            Question::Directories
                        } else {
                            Question::ChangeFiles
                        },
                    );
                    Ok(())
                },
                _ => Err(TemplateError::InvalidInput),
            },
            Some(Question::Directories) => match answer {
                Answer::Text(text) => {
                    self.update.directories = Some(text);
                    self.asked = Some(Question::ChangeFiles);
                    Ok(())
                },
                _ => Err(TemplateError::InvalidInput),
            },
            Some(Question::ChangeFiles) => match answer {
                Answer::Confirmed(change) => {
                    if change {
                        let entered: Vec<(String, String)> = Vec::new();
                        assert(entered.deep_view() == Entered::empty());
                        self.update.files = Some(entered);
                        self.asked = Some(Question::AddFile);
                    } else {
                        self.asked = None;
                    }
                    Ok(())
                },
                _ => Err(TemplateError::InvalidInput),
            },
            Some(Question::AddFile) => match answer {
                Answer::Confirmed(more) => {
                    self.asked = if more {
                        Some(Question::FilePath)
                    } else {
                        None
                    };
                    Ok(())
                },
                _ => Err(TemplateError::InvalidInput),
            },
            Some(Question::FilePath) => match answer {
                Answer::Text(text) => {
                    self.path = text;
                    self.asked = Some(Question::FileContent);
                    Ok(())
                },
                _ => Err(TemplateError::InvalidInput),
            },
            Some(Question::FileContent) => match answer {
                Answer::Text(text) => {
                    let path = self.path.clone();
                    let mut entered: Vec<(String, String)> = Vec::new();
                    let mut taken: Option<Vec<(String, String)>> = None;
                    core::mem::swap(&mut self.update.files, &mut taken);
                    if let Some(so_far) = taken {
                        entered = so_far;
                    }
                    let ghost before = entered.deep_view();
                    assert(before == match old(self)@.update.files {
                        Some(entered) => entered,
                        None => Entered::empty(),
                    });
                    entered.push((path, text));
                    assert(entered.deep_view() == before.push((path@, text@)));
                    self.update.files = Some(entered);
                    self.asked = Some(Question::AddFile);
                    Ok(())
                },
                _ => Err(TemplateError::InvalidInput),
            },
            _ => Err(TemplateError::InvalidInput),
        }
    }

    /// The update that the dialogue collected; `None` as long as something
    /// is asked.
    pub fn finish(self) -> (update: Option<Update>)
        ensures
            match update {
                Some(update) => self@.asked is None && update@ == self@.update,
                None => self@.asked is Some,
            },
    {
        if self.asked.is_some() {
            None
        } else {
            Some(self.update)
        }
    }
}

/// Whether some file of `files` has the path `path`.
pub fn path_among(files: &Vec<File>, path: &String) -> (found: bool)
    ensures
        found == has_path(files.deep_view(), path@),
{
    let mut i: usize = 0;
    while i < files.len()
        invariant
            i <= files.len(),
            forall|k: int| 0 <= k < i ==> (#[trigger] files.deep_view()[k]).path != path@,
        decreases files.len() - i,
    {
        if files[i].path == *path {
            assert(files.deep_view()[i as int].path == path@);
            return true;
        }
        i += 1;
    }
    false
}

/// The files of a template after `entered` was entered for it.
pub fn merge_files(existing: &Vec<File>, entered: &Vec<(String, String)>) -> (files: Vec<File>)
    ensures
        files.deep_view() == merged(existing.deep_view(), batch_of(entered.deep_view())),
{
    let batch = Templates::parse_files(entered);
    let mut files: Vec<File> = Vec::new();
    let mut i: usize = 0;
    assert(existing.deep_view().take(0) == Seq::<FileView>::empty());
    assert(files.deep_view() == Seq::<FileView>::empty());
    while i < existing.len()
        invariant
            i <= existing.len(),
            distinct_keys(batch.deep_view()),
            files.deep_view() == kept(existing.deep_view().take(i as int), batch.deep_view()),
        decreases existing.len() - i,
    {
        let at = find_key(&batch, &existing[i].path);
        proof {
            let upto = existing.deep_view().take(i + 1);
            assert(upto.drop_last() == existing.deep_view().take(i as int));
            assert(upto.last() == existing[i as int]@);
        }
        if let Some(k) = at {
            proof {
                lemma_key_at(batch.deep_view(), existing[i as int].path@, k as int);
            }
            let mut file = existing[i].clone();
            file.revise(batch[k].1.clone());
            assert(batch.deep_view()[k as int].1 == batch[k as int].1@);
            let ghost before = files.deep_view();
            files.push(file);
            assert(files.deep_view() == before.push(file@));
        }
        i += 1;
    }
    assert(existing.deep_view().take(i as int) == existing.deep_view());
    let ghost first = files.deep_view();
    let mut j: usize = 0;
    assert(batch.deep_view().take(0) == Entered::empty());
    assert(first + Seq::<FileView>::empty() == first);
    while j < batch.len()
        invariant
            j <= batch.len(),
            files.deep_view() == first + added(
                existing.deep_view(),
                batch.deep_view().take(j as int),
            ),
        decreases batch.len() - j,
    {
        proof {
            let upto = batch.deep_view().take(j + 1);
            assert(upto.drop_last() == batch.deep_view().take(j as int));
            assert(upto.last() == (batch[j as int].0@, batch[j as int].1@));
        }
        if !path_among(existing, &batch[j].0) {
            let file = File::new(batch[j].0.clone(), batch[j].1.clone());
            let ghost before = files.deep_view();
            let ghost part = added(existing.deep_view(), batch.deep_view().take(j as int));
            files.push(file);
            assert(files.deep_view() == before.push(file@));
            assert((first + part).push(file@) == first + part.push(file@));
        }
        j += 1;
    }
    assert(batch.deep_view().take(j as int) == batch.deep_view());
    files
}

impl Template {
    /// The template after `update`: each part that the update names is
    /// replaced, and the files entered are merged into the template's files.
    pub fn apply(self, update: Update) -> (record: Template)
        ensures
            record@ == updated(self@, update@),
    {
        let start_command = match update.start_command {
            Some(command) => command,
            None => self.start_command,
        };
        let directories = match update.directories {
            Some(line) => Templates::parse_directories(line.as_str()),
            None => self.structure.directories,
        };
        let files = match update.files {
            Some(entered) => merge_files(&self.structure.files, &entered),
            None => self.structure.files,
        };
        Template { structure: Structure { directories, files }, start_command }
    }
}

impl Templates {
    /// Updates the template stored under `language` and saves it in place
    /// of the stored one. Returns the name of the file that holds it. Where
    /// the template cannot be loaded, the store is left as it is.
    pub fn update_template(&mut self, language: &str, update: Update) -> (outcome: Result<
        String,
        TemplateError,
    >)
        ensures
            match loaded(old(self)@, file_name_of(language@)) {
                Ok(record) => {
                    &&& outcome is Ok
                    &&& outcome->Ok_0@ == file_name_of(language@)
                    &&& final(self)@ == saved(
                        old(self)@,
                        file_name_of(language@),
                        updated(record, update@),
                    )
                },
                Err(error) => {
                    &&& outcome == Err::<String, TemplateError>(error)
                    &&& final(self)@ == old(self)@
                },
            },
            distinct_keys(old(self)@),
            distinct_keys(final(self)@),
    {
        let file_name = Self::file_name(language);
        match self.load(file_name.as_str()) {
            Ok(record) => {
                let record = record.apply(update);
                self.save(file_name.clone(), record);
                Ok(file_name)
            },
            Err(error) => Err(error),
        }
    }
}

} // verus!
