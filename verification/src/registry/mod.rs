//! The registry of programs installable by name.
//!
//! `vendor add fd` should not require knowing that `fd` lives at `sharkdp/fd` and ships its binary
//! inside a directory named after the target triple. A hosted file records that once.
//!
//! See [`cache`] for when the file is fetched and [`schema`] for what it may hold.

pub mod cache;
pub mod resolve;
pub mod schema;

use vstd::prelude::*;
use crate::codec;
use crate::error::VendorError;
use crate::text;
use crate::value::{
    key_index, lemma_key_index, lemma_view_map_index, view_map, Json, JsonView,
};
use resolve::{for_host, resolution, resolves, Entry};
use schema::{registry_in, Document, Program, ProgramView, SUPPORTED_VERSION};

verus! {

/// The registry, as loaded.
#[derive(Debug)]
pub struct Registry {
    document: Document,
}

impl View for Registry {
    type V = Seq<(Seq<char>, ProgramView)>;

    closed spec fn view(&self) -> Seq<(Seq<char>, ProgramView)> {
        view_map(self.document.programs@)
    }
}

/// The first program at or after `from` that goes by the alias `name`.
pub open spec fn alias_index(
    programs: Seq<(Seq<char>, ProgramView)>,
    name: Seq<char>,
    from: int,
) -> Option<int>
    decreases programs.len() - from,
{
    if from < 0 || from >= programs.len() {
        None
    } else if programs[from].1.aliases.contains(name) {
        Some(from)
    } else {
        alias_index(programs, name, from + 1)
    }
}

/// Where the program `name` refers to stands: by canonical name first and then by alias.
pub open spec fn find_spec(programs: Seq<(Seq<char>, ProgramView)>, name: Seq<char>) -> Option<
    int,
> {
    match key_index(programs, name, 0) {
        Some(i) => Some(i),
        None => alias_index(programs, name, 0),
    }
}

/// A load says what a document holds: no registry is unreadable, a later version is too new.
pub open spec fn loads(
    r: Result<Registry, VendorError>,
    reading: Result<JsonView, Seq<char>>,
) -> bool {
    match reading {
        Err(said) => r matches Err(VendorError::RegistryUnreadable(message)) && message@ == said,
        Ok(value) => match registry_in(value) {
            None => r matches Err(VendorError::RegistryUnreadable(message)) && message@
                == "a field is missing, unknown or wrong"@,
            Some((version, programs)) => if version > SUPPORTED_VERSION {
                r matches Err(VendorError::RegistryTooNew { found, supported }) && found == version
                    && supported == SUPPORTED_VERSION
            } else {
                r matches Ok(registry) && registry@ == programs
            },
        },
    }
}

/// Whether a list of strings holds a text.
fn holds(list: &Vec<String>, name: &str) -> (r: bool)
    ensures
        r == text::texts(list@).contains(name@),
{
    let ghost views = text::texts(list@);
    let mut i: usize = 0;
    while i < list.len()
        invariant
            i <= list@.len(),
            views == text::texts(list@),
            forall|j: int| 0 <= j < i ==> views[j] != name@,
        decreases list@.len() - i,
    {
        if text::equal(list[i].as_str(), name) {
            assert(views[i as int] == name@);
            return true;
        }
        i += 1;
    }
    false
}

impl Registry {
    /// Takes a registry from a document, refusing one written for a newer `vendor`.
    pub fn from_document(document: Result<Json, String>) -> (r: Result<Self, VendorError>)
        ensures
            loads(r, codec::read_view(document)),
    {
        let value = match document {
            Ok(value) => value,
            Err(message) => {
                return Err(VendorError::RegistryUnreadable(message));
            },
        };
        match Document::from_json(&value) {
            Some(document) => {
                if document.version > SUPPORTED_VERSION {
                    return Err(
                        VendorError::RegistryTooNew {
                            found: document.version,
                            supported: SUPPORTED_VERSION,
                        },
                    );
                }
                Ok(Registry { document })
            },
            None => Err(
                VendorError::RegistryUnreadable("a field is missing, unknown or wrong".to_owned()),
            ),
        }
    }

    /// Parses a registry, refusing one written for a newer `vendor`.
    pub fn parse(text: &str) -> (r: Result<Self, VendorError>)
        ensures
            loads(r, codec::yaml_reading(text@)),
    {
        Self::from_document(codec::parse_yaml(text))
    }

    /// The program `name` refers to, by canonical name first and then by alias.
    ///
    /// Canonical names win, so adding an alias can never quietly redirect an existing one.
    pub fn find(&self, name: &str) -> (r: Option<(&str, &Program)>)
        ensures
            match (r, find_spec(self@, name@)) {
                (Some((canonical, program)), Some(i)) => 0 <= i < self@.len() && canonical@
                    == self@[i].0 && program@ == self@[i].1,
                (None, None) => true,
                _ => false,
            },
    {
        let ghost programs = self@;
        proof {
            lemma_view_map_index(self.document.programs@, name@, 0);
            lemma_key_index(self.document.programs@, name@, 0);
        }
        if let Some(i) = self.document.programs.index_of(name) {
            return Some((self.document.programs.key_at(i), self.document.programs.value_at(i)));
        }
        let n: usize = self.document.programs.len();
        let mut i: usize = 0;
        while i < n
            invariant
                i <= n == programs.len(),
                programs == self@,
                programs == view_map(self.document.programs@),
                key_index(programs, name@, 0) is None,
                alias_index(programs, name@, 0) == alias_index(programs, name@, i as int),
            decreases n - i,
        {
            let program = self.document.programs.value_at(i);
            assert(programs[i as int].1 == program@);
            if holds(&program.aliases, name) {
                return Some((self.document.programs.key_at(i), program));
            }
            i += 1;
        }
        None
    }

    /// Resolves `name` for a host. A name that is not known is no error: `install` goes on to
    /// search for it.
    pub fn entry(&self, name: &str, host: &str) -> (r: Result<Option<Entry>, VendorError>)
        ensures
            match find_spec(self@, name@) {
                None => r matches Ok(None),
                Some(i) => {
                    let found = match r {
                        Ok(Some(entry)) => Ok(entry),
                        Ok(None) => Err(VendorError::NoConfigFile),
                        Err(error) => Err(error),
                    };
                    resolves(
                        found,
                        resolution(self@[i].0, self@[i].1, host@),
                        self@[i].0,
                        host@,
                    )
                },
            },
    {
        match self.find(name) {
            Some((canonical, program)) => match for_host(canonical, program, host) {
                Ok(entry) => Ok(Some(entry)),
                Err(error) => Err(error),
            },
            None => Ok(None),
        }
    }

    /// Every canonical name, in file order.
    pub fn names(&self) -> (r: Vec<String>)
        ensures
            text::texts(r@) == Seq::new(self@.len(), |i: int| self@[i].0),
    {
        let n: usize = self.document.programs.len();
        let mut r: Vec<String> = Vec::new();
        let mut i: usize = 0;
        while i < n
            invariant
                i <= n == self@.len(),
                self@ == view_map(self.document.programs@),
                r@.len() == i,
                forall|j: int| 0 <= j < i ==> (#[trigger] r@[j])@ == self@[j].0,
            decreases n - i,
        {
            r.push(self.document.programs.key_at(i).to_owned());
            i += 1;
        }
        assert(text::texts(r@) =~= Seq::new(self@.len(), |i: int| self@[i].0));
        r
    }
}

/// A canonical name refers to its own program, whatever aliases the others have.
pub proof fn a_canonical_name_beats_an_alias(programs: Seq<(Seq<char>, ProgramView)>, i: int)
    requires
        0 <= i < programs.len(),
    ensures
        find_spec(programs, programs[i].0) matches Some(k) && 0 <= k < programs.len()
            && programs[k].0 == programs[i].0,
{
    lemma_key_index(programs, programs[i].0, 0);
}

/// Adding a program never redirects a canonical name that is already there.
pub proof fn a_new_program_redirects_no_canonical_name(
    programs: Seq<(Seq<char>, ProgramView)>,
    i: int,
    added: (Seq<char>, ProgramView),
)
    requires
        0 <= i < programs.len(),
    ensures
        find_spec(programs.push(added), programs[i].0) == find_spec(programs, programs[i].0),
{
    let name = programs[i].0;
    let after = programs.push(added);
    lemma_key_index(programs, name, 0);
    lemma_key_index(after, name, 0);
    let k = key_index(programs, name, 0)->0;
    assert(after[k].0 == name);
    let m = key_index(after, name, 0)->0;
    assert(m <= k);
    assert(after[m] == programs[m]);
}

/// The first program that goes by an alias is the one it refers to.
proof fn lemma_alias_index(programs: Seq<(Seq<char>, ProgramView)>, name: Seq<char>, from: int)
    requires
        0 <= from <= programs.len(),
    ensures
        match alias_index(programs, name, from) {
            Some(i) => from <= i < programs.len() && programs[i].1.aliases.contains(name)
                && forall|j: int|
                from <= j < i ==> !(#[trigger] programs[j]).1.aliases.contains(name),
            None => forall|j: int|
                from <= j < programs.len() ==> !(#[trigger] programs[j]).1.aliases.contains(name),
        },
    decreases programs.len() - from,
{
    if from < programs.len() && !programs[from].1.aliases.contains(name) {
        lemma_alias_index(programs, name, from + 1);
    }
}

/// A name refers to the program it is the canonical name of; where it is no canonical name, to the
/// first that has it as an alias; and where no program has it, to nothing.
pub proof fn a_name_refers_to_its_program(programs: Seq<(Seq<char>, ProgramView)>, name: Seq<char>)
    ensures
        match find_spec(programs, name) {
            Some(i) => 0 <= i < programs.len() && (programs[i].0 == name || (programs[
                i
            ].1.aliases.contains(name) && (forall|j: int|
                0 <= j < programs.len() ==> (#[trigger] programs[j]).0 != name) && forall|j: int|
                0 <= j < i ==> !(#[trigger] programs[j]).1.aliases.contains(name))),
            None => forall|j: int|
                0 <= j < programs.len() ==> (#[trigger] programs[j]).0 != name
                    && !programs[j].1.aliases.contains(name),
        },
{
    lemma_key_index(programs, name, 0);
    lemma_alias_index(programs, name, 0);
}

/// A registry is loaded only where its document reads and describes one of a version that is
/// understood, and holds the programs it lists.
pub proof fn a_registry_that_is_too_new_is_refused(
    r: Result<Registry, VendorError>,
    reading: Result<JsonView, Seq<char>>,
)
    requires
        loads(r, reading),
    ensures
        r is Ok ==> reading is Ok && (registry_in(reading->Ok_0) matches Some((version, programs))
            && version <= SUPPORTED_VERSION && r->Ok_0@ == programs),
        reading is Ok ==> (registry_in(reading->Ok_0) matches Some((version, _)) ==> version
            > SUPPORTED_VERSION ==> (r matches Err(
            VendorError::RegistryTooNew { found, supported },
        ) && found == version && supported == SUPPORTED_VERSION)),
        reading matches Err(said) ==> (r matches Err(VendorError::RegistryUnreadable(message))
            && message@ == said),
        reading is Ok && registry_in(reading->Ok_0) is None ==> r is Err
            && r->Err_0 is RegistryUnreadable,
{
}

} // verus!
