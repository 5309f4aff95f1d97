//! The template record: directories, files with their content histories, and
//! a start command.

use crate::error::TemplateError;
use crate::text::{
    contains, lemma_replaced_at_first_occurrence, lemma_replaced_without_occurrence, occurs_at,
    replace_all, replaced,
};
use vstd::prelude::*;

verus! {

/// The one placeholder that instantiation fills in.
pub const PLACEHOLDER: &'static str = "{{project_name}}";

/// One file of a template.
#[derive(Debug, PartialEq, Eq)]
pub struct File {
    /// Where the file goes, relative to the project's root.
    pub path: String,
    /// Every version of the file's content, oldest first. Never empty in a
    /// valid record; only the last version is written to a project.
    pub content: Vec<String>,
}

/// The layout that a template describes.
#[derive(Debug, PartialEq, Eq)]
pub struct Structure {
    /// Directories to create, relative to the project's root.
    pub directories: Vec<String>,
    /// Files to write.
    pub files: Vec<File>,
}

/// A stored template.
#[derive(Debug, PartialEq, Eq)]
pub struct Template {
    pub structure: Structure,
    /// How to run or build a project made from this template.
    pub start_command: String,
}

/// A file as a mathematical value.
pub struct FileView {
    pub path: Seq<char>,
    pub history: Seq<Seq<char>>,
}

/// A template as a mathematical value.
pub struct TemplateView {
    pub directories: Seq<Seq<char>>,
    pub files: Seq<FileView>,
    pub start_command: Seq<char>,
}

/// A file that starts its history with `content`.
pub open spec fn fresh_file(path: Seq<char>, content: Seq<char>) -> FileView {
    FileView { path, history: seq![content] }
}

/// `file` with `content` as its newest version, behind every older one.
pub open spec fn revised(file: FileView, content: Seq<char>) -> FileView {
    FileView { path: file.path, history: file.history.push(content) }
}

impl FileView {
    /// The file has at least one version of its content.
    pub open spec fn well_formed(self) -> bool {
        self.history.len() > 0
    }

    /// The version that instantiation writes: the newest.
    pub open spec fn current(self) -> Seq<char>
        recommends
            self.well_formed(),
    {
        self.history.last()
    }
}

/// Every file has at least one version of its content.
pub open spec fn histories_nonempty(files: Seq<FileView>) -> bool {
    forall|i: int| 0 <= i < files.len() ==> (#[trigger] files[i]).well_formed()
}

/// No two files have the same path.
pub open spec fn paths_distinct(files: Seq<FileView>) -> bool {
    forall|i: int, j: int|
        0 <= i < j < files.len() ==> (#[trigger] files[i]).path != (#[trigger] files[j]).path
}

/// Some file has the path `path`.
pub open spec fn has_path(files: Seq<FileView>, path: Seq<char>) -> bool {
    exists|i: int| 0 <= i < files.len() && (#[trigger] files[i]).path == path
}

impl TemplateView {
    /// Every file has at least one version of its content.
    pub open spec fn well_formed(self) -> bool {
        histories_nonempty(self.files)
    }
}

impl View for File {
    type V = FileView;

    open spec fn view(&self) -> FileView {
        FileView { path: self.path@, history: self.content.deep_view() }
    }
}

impl DeepView for File {
    type V = FileView;

    open spec fn deep_view(&self) -> FileView {
        self@
    }
}

impl View for Template {
    type V = TemplateView;

    open spec fn view(&self) -> TemplateView {
        TemplateView {
            directories: self.structure.directories.deep_view(),
            files: self.structure.files.deep_view(),
            start_command: self.start_command@,
        }
    }
}

/// `content` with every placeholder replaced by `project_name`.
pub open spec fn substituted(content: Seq<char>, project_name: Seq<char>) -> Seq<char> {
    replaced(content, PLACEHOLDER@, project_name)
}

/// A content without placeholder is written as it is.
pub proof fn lemma_substituted_plain(content: Seq<char>, project_name: Seq<char>)
    requires
        !contains(content, PLACEHOLDER@),
    ensures
        substituted(content, project_name) == content,
{
    lemma_replaced_without_occurrence(content, PLACEHOLDER@, project_name);
}

/// Where the first placeholder of a content stands at `first`, the text
/// before it is written as it is, the name is written in the placeholder's
/// place, and what follows the placeholder is treated in the same way.
pub proof fn lemma_substituted_at_placeholder(
    content: Seq<char>,
    project_name: Seq<char>,
    first: int,
)
    requires
        occurs_at(content, PLACEHOLDER@, first),
        forall|at: int| 0 <= at < first ==> !occurs_at(content, PLACEHOLDER@, at),
    ensures
        substituted(content, project_name) == content.take(first) + project_name + substituted(
            content.skip(first + PLACEHOLDER@.len()),
            project_name,
        ),
{
    reveal_strlit("{{project_name}}");
    lemma_replaced_at_first_occurrence(content, PLACEHOLDER@, project_name, first);
}

/// A copy of a list of strings.
pub fn clone_strings(strings: &Vec<String>) -> (copy: Vec<String>)
    ensures
        copy.deep_view() == strings.deep_view(),
{
    let mut copy: Vec<String> = Vec::new();
    let mut i: usize = 0;
    while i < strings.len()
        invariant
            i <= strings.len(),
            copy.deep_view() == strings.deep_view().take(i as int),
        decreases strings.len() - i,
    {
        let ghost before = copy.deep_view();
        copy.push(strings[i].clone());
        assert(copy.deep_view() == before.push(strings[i as int]@));
        i += 1;
    }
    copy
}

impl File {
    /// A file that starts its history with `content`.
    pub fn new(path: String, content: String) -> (file: File)
        ensures
            file@ == fresh_file(path@, content@),
    {
        let mut history: Vec<String> = Vec::new();
        history.push(content);
        let file = File { path, content: history };
        assert(file@.history == seq![content@]);
        file
    }

    /// Makes `content` the newest version. Every older version stays where
    /// it is.
    pub fn revise(&mut self, content: String)
        ensures
            final(self)@ == revised(old(self)@, content@),
    {
        let ghost older = self.content.deep_view();
        self.content.push(content);
        assert(self.content.deep_view() == older.push(content@));
    }

    /// The newest version of the content, which is the one that is written
    /// to a project; `None` where the history is empty.
    pub fn current(&self) -> (newest: Option<&String>)
        ensures
            match newest {
                Some(content) => self@.well_formed() && content@ == self@.current(),
                None => !self@.well_formed(),
            },
    {
        if self.content.len() == 0 {
            None
        } else {
            Some(&self.content[self.content.len() - 1])
        }
    }
}

impl Clone for File {
    fn clone(&self) -> (copy: File)
        ensures
            copy@ == self@,
    {
        File { path: self.path.clone(), content: clone_strings(&self.content) }
    }
}

/// A copy of a list of files.
pub fn clone_files(files: &Vec<File>) -> (copy: Vec<File>)
    ensures
        copy.deep_view() == files.deep_view(),
{
    let mut copy: Vec<File> = Vec::new();
    let mut i: usize = 0;
    while i < files.len()
        invariant
            i <= files.len(),
            copy.deep_view() == files.deep_view().take(i as int),
        decreases files.len() - i,
    {
        let ghost before = copy.deep_view();
        copy.push(files[i].clone());
        assert(copy.deep_view() == before.push(files[i as int]@));
        i += 1;
    }
    copy
}

impl Clone for Structure {
    fn clone(&self) -> (copy: Structure)
        ensures
            copy.directories.deep_view() == self.directories.deep_view(),
            copy.files.deep_view() == self.files.deep_view(),
    {
        Structure {
            directories: clone_strings(&self.directories),
            files: clone_files(&self.files),
        }
    }
}

impl Clone for Template {
    fn clone(&self) -> (copy: Template)
        ensures
            copy@ == self@,
    {
        Template { structure: self.structure.clone(), start_command: self.start_command.clone() }
    }
}

impl Template {
    /// Whether every file of the template has at least one version of its
    /// content.
    pub fn is_well_formed(&self) -> (valid: bool)
        ensures
            valid == self@.well_formed(),
    {
        let mut i: usize = 0;
        while i < self.structure.files.len()
            invariant
                i <= self.structure.files.len(),
                forall|k: int| 0 <= k < i ==> (#[trigger] self@.files[k]).well_formed(),
            decreases self.structure.files.len() - i,
        {
            if self.structure.files[i].content.len() == 0 {
                assert(!self@.files[i as int].well_formed());
                return false;
            }
            assert(self@.files[i as int].well_formed());
            i += 1;
        }
        true
    }

    /// The text to write for a file whose versions are `content`: the newest
    /// version, with every placeholder replaced by `project_name` and all
    /// other text unchanged. A history without versions does not belong to a
    /// valid record, and is answered with `Corrupt`.
    pub fn parse_project_name(&self, project_name: String, content: Vec<String>) -> (parsed:
        Result<String, TemplateError>)
        ensures
            content@.len() > 0 ==> parsed is Ok && parsed->Ok_0@ == substituted(
                content@.last()@,
                project_name@,
            ),
            content@.len() == 0 ==> parsed == Err::<String, TemplateError>(TemplateError::Corrupt),
    {
        if content.len() == 0 {
            return Err(TemplateError::Corrupt);
        }
        let newest = &content[content.len() - 1];
        Ok(replace_all(newest.as_str(), PLACEHOLDER, project_name.as_str()))
    }
}

} // verus!
