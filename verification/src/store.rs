//! The template store: what the store directory holds, one entry per file,
//! in the order in which the directory lists its files.

use crate::casing::{lowercase, lowercase_of};
use crate::error::TemplateError;
use crate::keyed::{
    distinct_keys, find_key, has_key, index_of, lemma_key_at, lemma_put, lemma_without, put,
    value_of, without,
};
use crate::template::{Template, TemplateView};
use crate::text::{contains, ends_with, has_occurrence, strip_suffix, without_suffix};
use vstd::prelude::*;
use vstd::string::StringExecFns;

verus! {

/// The extension of the files in which templates are stored.
pub const EXTENSION: &'static str = ".json";

/// What one file of the store directory holds.
#[derive(Debug, PartialEq, Eq)]
pub enum Stored {
    /// A template record.
    Record(Template),
    /// Something that could not be read as a template record.
    Corrupt,
}

/// What one file holds, as a mathematical value.
pub enum StoredView {
    Record(TemplateView),
    Corrupt,
}

impl View for Stored {
    type V = StoredView;

    open spec fn view(&self) -> StoredView {
        match self {
            Stored::Record(record) => StoredView::Record(record@),
            Stored::Corrupt => StoredView::Corrupt,
        }
    }
}

impl DeepView for Stored {
    type V = StoredView;

    open spec fn deep_view(&self) -> StoredView {
        self@
    }
}

/// A store directory as a mathematical value: file names with what each
/// file holds.
pub type Directory = Seq<(Seq<char>, StoredView)>;

/// The name of the file in which the template `identifier` is stored: the
/// identifier in lower case, nothing else changed, and the extension.
pub open spec fn file_name_of(identifier: Seq<char>) -> Seq<char> {
    lowercase_of(identifier) + EXTENSION@
}

/// The identifier under which a file is listed: its name without the
/// extension at its end. A name that does not end in the extension is
/// listed as it is, and an extension that stands elsewhere in a name is
/// part of the identifier.
pub open spec fn identifier_of(file_name: Seq<char>) -> Seq<char> {
    without_suffix(file_name, EXTENSION@)
}

/// Whether a listing with this filter shows `identifier`: without a filter
/// always, with one where the identifier holds it as a substring, letter
/// case observed.
pub open spec fn passes(identifier: Seq<char>, filter: Option<Seq<char>>) -> bool {
    match filter {
        None => true,
        Some(wanted) => contains(identifier, wanted),
    }
}

/// The identifiers that a listing shows, in the directory's order.
pub open spec fn listed(directory: Directory, filter: Option<Seq<char>>) -> Seq<Seq<char>>
    decreases directory.len(),
{
    if directory.len() == 0 {
        Seq::empty()
    } else {
        let before = listed(directory.drop_last(), filter);
        let identifier = identifier_of(directory.last().0);
        if passes(identifier, filter) {
            before.push(identifier)
        } else {
            before
        }
    }
}

/// What loading the file `file_name` gives.
pub open spec fn loaded(directory: Directory, file_name: Seq<char>) -> Result<
    TemplateView,
    TemplateError,
> {
    match value_of(directory, file_name) {
        None => Err(TemplateError::NotFound),
        Some(StoredView::Corrupt) => Err(TemplateError::Corrupt),
        Some(StoredView::Record(record)) => if record.well_formed() {
            Ok(record)
        } else {
            Err(TemplateError::Corrupt)
        },
    }
}

/// The directory after `record` was saved in the file `file_name`.
pub open spec fn saved(
    directory: Directory,
    file_name: Seq<char>,
    record: TemplateView,
) -> Directory {
    put(directory, file_name, StoredView::Record(record))
}

/// The directory after the file `file_name` was deleted.
pub open spec fn deleted(directory: Directory, file_name: Seq<char>) -> Directory {
    without(directory, file_name)
}

/// The result of a load, as a mathematical value.
pub open spec fn load_view(outcome: Result<Template, TemplateError>) -> Result<
    TemplateView,
    TemplateError,
> {
    match outcome {
        Ok(record) => Ok(record@),
        Err(error) => Err(error),
    }
}

/// A record that was saved is the record that a load from the same file
/// gives, and a save changes what no other file holds.
pub proof fn lemma_load_after_save(
    directory: Directory,
    file_name: Seq<char>,
    record: TemplateView,
)
    requires
        distinct_keys(directory),
        record.well_formed(),
    ensures
        distinct_keys(saved(directory, file_name, record)),
        loaded(saved(directory, file_name, record), file_name) == Ok::<
            TemplateView,
            TemplateError,
        >(record),
        forall|other: Seq<char>|
            other != file_name ==> #[trigger] loaded(
                saved(directory, file_name, record),
                other,
            ) == loaded(directory, other),
{
    lemma_put(directory, file_name, StoredView::Record(record));
}

/// After a file was deleted a load from it finds nothing, and a delete
/// changes what no other file holds.
pub proof fn lemma_load_after_delete(directory: Directory, file_name: Seq<char>)
    requires
        distinct_keys(directory),
    ensures
        distinct_keys(deleted(directory, file_name)),
        loaded(deleted(directory, file_name), file_name) == Err::<TemplateView, TemplateError>(
            TemplateError::NotFound,
        ),
        forall|other: Seq<char>|
            other != file_name ==> #[trigger] loaded(deleted(directory, file_name), other)
                == loaded(directory, other),
{
    lemma_without(directory, file_name);
}

/// Two identifiers that differ in letter case only name the same file.
pub proof fn lemma_identifiers_collide(first: Seq<char>, second: Seq<char>)
    requires
        lowercase_of(first) == lowercase_of(second),
    ensures
        file_name_of(first) == file_name_of(second),
{
}

/// A template is listed under the name under which it is stored: the
/// identifier in lower case.
pub proof fn lemma_identifier_of_file_name(identifier: Seq<char>)
    ensures
        identifier_of(file_name_of(identifier)) == lowercase_of(identifier),
{
    let key = lowercase_of(identifier);
    let name = file_name_of(identifier);
    let end = key.len() as int;
    assert(name.subrange(end, end + EXTENSION@.len()) == EXTENSION@);
    assert(name.take(end) == key);
}

/// A file that is listed under a name is the file from which a load under
/// that name reads, where the name is its own lower-case form.
pub proof fn lemma_file_name_of_identifier(file_name: Seq<char>)
    requires
        ends_with(file_name, EXTENSION@),
        lowercase_of(identifier_of(file_name)) == identifier_of(file_name),
    ensures
        file_name_of(identifier_of(file_name)) == file_name,
{
    let cut = file_name.len() - EXTENSION@.len();
    assert(file_name.take(cut) + file_name.subrange(cut, file_name.len() as int) == file_name);
}

/// A listing shows exactly the identifiers of the stored files that pass
/// the filter: each listed identifier belongs to a file, and each file
/// whose identifier passes is listed.
pub proof fn lemma_listed(directory: Directory, filter: Option<Seq<char>>)
    ensures
        forall|k: int|
            0 <= k < listed(directory, filter).len() ==> passes(
                #[trigger] listed(directory, filter)[k],
                filter,
            ) && exists|i: int|
                0 <= i < directory.len() && identifier_of((#[trigger] directory[i]).0) == listed(
                    directory,
                    filter,
                )[k],
        forall|i: int|
            0 <= i < directory.len() && passes(identifier_of((#[trigger] directory[i]).0), filter)
                ==> listed(directory, filter).contains(identifier_of(directory[i].0)),
    decreases directory.len(),
{
    if directory.len() > 0 {
        let shorter = directory.drop_last();
        let before = listed(shorter, filter);
        let after = listed(directory, filter);
        let identifier = identifier_of(directory.last().0);
        lemma_listed(shorter, filter);
        assert forall|k: int| 0 <= k < after.len() implies passes(#[trigger] after[k], filter)
            && exists|i: int|
            0 <= i < directory.len() && identifier_of((#[trigger] directory[i]).0)
                == after[k] by {
            if k < before.len() {
                assert(after[k] == before[k]);
                let i = choose|i: int|
                    0 <= i < shorter.len() && identifier_of((#[trigger] shorter[i]).0)
                        == before[k];
                assert(directory[i] == shorter[i]);
            } else {
                assert(directory[directory.len() - 1] == directory.last());
            }
        }
        assert forall|i: int|
            0 <= i < directory.len() && passes(
                identifier_of((#[trigger] directory[i]).0),
                filter,
            ) implies after.contains(identifier_of(directory[i].0)) by {
            if i < shorter.len() {
                assert(directory[i] == shorter[i]);
                let k = choose|k: int|
                    0 <= k < before.len() && before[k] == identifier_of(shorter[i].0);
                assert(after[k] == before[k]);
            } else {
                assert(after[after.len() - 1] == identifier);
            }
        }
    }
}

/// Without a filter a listing shows every stored file, one identifier for
/// each.
pub proof fn lemma_listed_unfiltered(directory: Directory)
    ensures
        listed(directory, None).len() == directory.len(),
        forall|i: int|
            0 <= i < directory.len() ==> #[trigger] listed(directory, None)[i] == identifier_of(
                directory[i].0,
            ),
    decreases directory.len(),
{
    if directory.len() > 0 {
        lemma_listed_unfiltered(directory.drop_last());
    }
}

/// The template store.
#[derive(Debug)]
pub struct Templates {
    entries: Vec<(String, Stored)>,
}

impl View for Templates {
    type V = Directory;

    closed spec fn view(&self) -> Directory {
        self.entries.deep_view()
    }
}

impl Templates {
    /// A directory holds no two files of one name.
    #[verifier::type_invariant]
    pub closed spec fn names_distinct(&self) -> bool {
        distinct_keys(self.entries.deep_view())
    }

    /// A store without files.
    pub fn new() -> (store: Templates)
        ensures
            store@ == Directory::empty(),
            distinct_keys(store@),
    {
        let store = Templates { entries: Vec::new() };
        assert(store.entries.deep_view() == Directory::empty());
        store
    }

    /// The number of files in the store.
    pub fn len(&self) -> (count: usize)
        ensures
            count == self@.len(),
    {
        self.entries.len()
    }

    /// Where the file `file_name` stands among the entries.
    fn position(&self, file_name: &String) -> (at: Option<usize>)
        ensures
            distinct_keys(self@),
            match at {
                Some(i) => i < self@.len() && index_of(self@, file_name@) == i && has_key(
                    self@,
                    file_name@,
                ),
                None => !has_key(self@, file_name@),
            },
    {
        proof {
            use_type_invariant(self);
        }
        let at = find_key(&self.entries, file_name);
        proof {
            if let Some(i) = at {
                lemma_key_at(self@, file_name@, i as int);
            }
        }
        at
    }

    /// Whether the store has a file `file_name`.
    pub fn has_file(&self, file_name: &str) -> (found: bool)
        ensures
            found == has_key(self@, file_name@),
    {
        let name = String::from_str(file_name);
        self.position(&name).is_some()
    }

    /// Puts `stored` into the file `file_name`, in place of what the file
    /// held if there was such a file, and as a new last file otherwise.
    pub fn put_file(&mut self, file_name: String, stored: Stored)
        ensures
            final(self)@ == put(old(self)@, file_name@, stored@),
            distinct_keys(old(self)@),
            distinct_keys(final(self)@),
    {
        let at = self.position(&file_name);
        proof {
            lemma_put(self@, file_name@, stored@);
        }
        let ghost before = self.entries.deep_view();
        let ghost pair = (file_name@, stored@);
        let mut entries: Vec<(String, Stored)> = Vec::new();
        core::mem::swap(&mut self.entries, &mut entries);
        match at {
            Some(i) => {
                entries.set(i, (file_name, stored));
                assert(entries.deep_view() == before.update(i as int, pair));
            },
            None => {
                entries.push((file_name, stored));
                assert(entries.deep_view() == before.push(pair));
            },
        }
        self.entries = entries;
    }

    /// Saves `record` in the file `file_name`. A file of that name is
    /// overwritten, whatever it held.
    pub fn save(&mut self, file_name: String, record: Template)
        ensures
            final(self)@ == saved(old(self)@, file_name@, record@),
            distinct_keys(old(self)@),
            distinct_keys(final(self)@),
    {
        self.put_file(file_name, Stored::Record(record));
    }

    /// Loads the record in the file `file_name`: `NotFound` where the store
    /// has no such file, `Corrupt` where the file does not hold a valid
    /// template record.
    pub fn load(&self, file_name: &str) -> (outcome: Result<Template, TemplateError>)
        ensures
            load_view(outcome) == loaded(self@, file_name@),
            distinct_keys(self@),
    {
        let name = String::from_str(file_name);
        match self.position(&name) {
            None => Err(TemplateError::NotFound),
            Some(i) => {
                assert(self@[i as int].1 == self.entries[i as int].1@);
                match &self.entries[i].1 {
                    Stored::Corrupt => Err(TemplateError::Corrupt),
                    Stored::Record(record) => {
                        if record.is_well_formed() {
                            Ok(record.clone())
                        } else {
                            Err(TemplateError::Corrupt)
                        }
                    },
                }
            },
        }
    }

    /// Deletes the file `file_name`: `NotFound`, and nothing changed, where
    /// the store has no such file.
    pub fn delete(&mut self, file_name: &str) -> (outcome: Result<(), TemplateError>)
        ensures
            final(self)@ == deleted(old(self)@, file_name@),
            distinct_keys(old(self)@),
            distinct_keys(final(self)@),
            !has_key(final(self)@, file_name@),
            outcome == if has_key(old(self)@, file_name@) {
                Ok::<(), TemplateError>(())
            } else {
                Err::<(), TemplateError>(TemplateError::NotFound)
            },
    {
        let name = String::from_str(file_name);
        match self.position(&name) {
            None => Err(TemplateError::NotFound),
            Some(i) => {
                proof {
                    lemma_without(self@, file_name@);
                }
                let ghost before = self.entries.deep_view();
                let mut entries: Vec<(String, Stored)> = Vec::new();
                core::mem::swap(&mut self.entries, &mut entries);
                entries.remove(i);
                assert(entries.deep_view() == before.remove(i as int));
                self.entries = entries;
                Ok(())
            },
        }
    }

    /// The identifiers of the stored templates, in the directory's order:
    /// all of them, or with a filter those that hold it as a substring.
    pub fn list_templates(&self, filter: Option<String>) -> (identifiers: Vec<String>)
        ensures
            identifiers.deep_view() == listed(self@, filter.deep_view()),
    {
        let mut identifiers: Vec<String> = Vec::new();
        let mut i: usize = 0;
        assert(self@.take(0) == Directory::empty());
        while i < self.entries.len()
            invariant
                i <= self.entries.len(),
                identifiers.deep_view() == listed(self@.take(i as int), filter.deep_view()),
            decreases self.entries.len() - i,
        {
            let identifier = Self::identifier(self.entries[i].0.as_str());
            let shown = match &filter {
                None => true,
                Some(wanted) => has_occurrence(identifier.as_str(), wanted.as_str()),
            };
            proof {
                let upto = self@.take(i + 1);
                assert(upto.drop_last() == self@.take(i as int));
                assert(upto.last() == self@[i as int]);
            }
            if shown {
                let ghost before = identifiers.deep_view();
                identifiers.push(identifier);
                assert(identifiers.deep_view() == before.push(identifier@));
            }
            i += 1;
        }
        assert(self@.take(i as int) == self@);
        identifiers
    }

    /// The identifier under which the file `file_name` is listed.
    pub fn identifier(file_name: &str) -> (identifier: String)
        ensures
            identifier@ == identifier_of(file_name@),
    {
        strip_suffix(file_name, EXTENSION)
    }

    /// The file name that belongs to an identifier already in lower case.
    pub fn file_name_for_key(key: &str) -> (file_name: String)
        ensures
            file_name@ == key@ + EXTENSION@,
    {
        String::from_str(key).concat(EXTENSION)
    }

    /// The name of the file in which the template `identifier` is stored.
    pub fn file_name(identifier: &str) -> (file_name: String)
        ensures
            file_name@ == file_name_of(identifier@),
    {
        let key = lowercase(identifier);
        Self::file_name_for_key(key.as_str())
    }

    /// Removes the template stored under `template`. Returns the name of
    /// the file that held it; `NotFound`, and nothing changed, where no
    /// template is stored under that name.
    pub fn remove_template(&mut self, template: &str) -> (outcome: Result<String, TemplateError>)
        ensures
            final(self)@ == deleted(old(self)@, file_name_of(template@)),
            distinct_keys(old(self)@),
            distinct_keys(final(self)@),
            !has_key(final(self)@, file_name_of(template@)),
            match outcome {
                Ok(file_name) => has_key(old(self)@, file_name_of(template@)) && file_name@
                    == file_name_of(template@),
                Err(error) => !has_key(old(self)@, file_name_of(template@)) && error
                    == TemplateError::NotFound,
            },
    {
        let file_name = Self::file_name(template);
        match self.delete(file_name.as_str()) {
            Ok(()) => Ok(file_name),
            Err(error) => Err(error),
        }
    }
}

impl Template {
    /// Loads the template stored under `language`: `NotFound` where the
    /// store has no file for that name, `Corrupt` where the file does not
    /// hold a valid template record.
    pub fn load_template(language: String, store: &Templates) -> (outcome: Result<
        Template,
        TemplateError,
    >)
        ensures
            load_view(outcome) == loaded(store@, file_name_of(language@)),
    {
        let file_name = Templates::file_name(language.as_str());
        store.load(file_name.as_str())
    }
}

} // verus!
