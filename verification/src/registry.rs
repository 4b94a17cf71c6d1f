//! The registry of projects: named requirement files, one of which may be
//! the default.
use vstd::prelude::*;
use vstd::string::*;
use crate::text::{owned, str_eq};

verus! {

/// A project: its requirements file and a description.
#[derive(Debug, Clone)]
pub struct Project {
    /// Path of the requirements file
    pub path: String,
    /// Description of the project
    pub description: String,
}

/// All registered projects, by name, and the name of the default one.
#[derive(Debug)]
pub struct Registry {
    /// The projects as (name, project), each name at most once: every
    /// function here that makes or changes a registry keeps `names_unique`
    pub projects: Vec<(String, Project)>,
    /// Name of the default project
    pub default_project: Option<String>,
}

/// Why a registry operation was refused.
#[derive(Debug, Clone)]
pub enum RegistryError {
    /// No project has this name
    ProjectNotFound(String),
}

/// The message that describes a registry error.
pub open spec fn registry_error_text(e: RegistryError) -> Seq<char> {
    match e {
        RegistryError::ProjectNotFound(n) => "Project '"@ + n@ + "' not found in registry"@,
    }
}

impl RegistryError {
    /// The message that describes the error.
    pub fn message(&self) -> (r: String)
        ensures
            r@ == registry_error_text(*self),
    {
        match self {
            RegistryError::ProjectNotFound(n) => {
                let mut r = owned("Project '");
                r.append(n.as_str());
                r.append("' not found in registry");
                r
            },
        }
    }
}

/// Whether entry `i` of `v` is the first named `n`.
pub open spec fn first_entry(v: Seq<(String, Project)>, n: Seq<char>, i: int) -> bool {
    0 <= i < v.len() && v[i].0@ == n && forall|j: int| 0 <= j < i ==> (#[trigger] v[j]).0@ != n
}

/// Whether some entry of `v` is named `n`.
pub open spec fn has_entry(v: Seq<(String, Project)>, n: Seq<char>) -> bool {
    exists|i: int| 0 <= i < v.len() && (#[trigger] v[i]).0@ == n
}

/// Whether no two entries of `v` share a name.
pub open spec fn names_unique(v: Seq<(String, Project)>) -> bool {
    forall|i: int, j: int| 0 <= i < j < v.len() ==> (#[trigger] v[i]).0@ != (#[trigger] v[j]).0@
}

fn entry_index(v: &Vec<(String, Project)>, n: &str) -> (r: Option<usize>)
    ensures
        match r {
            Some(i) => first_entry(v@, n@, i as int),
            None => !has_entry(v@, n@),
        },
{
    let mut i: usize = 0;
    while i < v.len()
        invariant
            i <= v@.len(),
            forall|j: int| 0 <= j < i ==> (#[trigger] v@[j]).0@ != n@,
        decreases v.len() - i,
    {
        if str_eq(v[i].0.as_str(), n) {
            return Some(i);
        }
        i = i + 1;
    }
    None
}

impl Registry {
    /// A registry with no project and no default.
    pub fn new() -> (r: Self)
        ensures
            r.projects@.len() == 0,
            names_unique(r.projects@),
            r.default_project is None,
    {
        Registry { projects: Vec::new(), default_project: None }
    }

    /// The registry written when none exists yet: the project `default`
    /// with file `requirements.yaml` and description `Default project`, and
    /// no default project.
    pub fn with_default_project() -> (r: Self)
        ensures
            r.projects@.len() == 1,
            r.projects@[0].0@ == "default"@,
            r.projects@[0].1.path@ == "requirements.yaml"@,
            r.projects@[0].1.description@ == "Default project"@,
            names_unique(r.projects@),
            r.default_project is None,
    {
        let mut projects: Vec<(String, Project)> = Vec::new();
        projects.push(
            (
                owned("default"),
                Project { path: owned("requirements.yaml"), description: owned("Default project") },
            ),
        );
        Registry { projects, default_project: None }
    }

    /// The project named `name`.
    pub fn get_project(&self, name: &str) -> (r: Option<&Project>)
        ensures
            match r {
                Some(p) => exists|i: int| first_entry(self.projects@, name@, i) && *p == self.projects@[i].1,
                None => !has_entry(self.projects@, name@),
            },
    {
        match entry_index(&self.projects, name) {
            Some(i) => Some(&self.projects[i].1),
            None => None,
        }
    }

    /// The names of the projects, in the order the registry keeps them.
    pub fn list_projects(&self) -> (r: Vec<&str>)
        ensures
            r@.len() == self.projects@.len(),
            forall|i: int| 0 <= i < r@.len() ==> (#[trigger] r@[i])@ == self.projects@[i].0@,
    {
        let mut r: Vec<&str> = Vec::new();
        let mut i: usize = 0;
        while i < self.projects.len()
            invariant
                i <= self.projects@.len(),
                r@.len() == i,
                forall|j: int| 0 <= j < i ==> (#[trigger] r@[j])@ == self.projects@[j].0@,
            decreases self.projects.len() - i,
        {
            r.push(self.projects[i].0.as_str());
            i = i + 1;
        }
        r
    }

    /// Registers project `name` with the given file and description; a
    /// project of that name is replaced, keeping its place.
    pub fn register_project(&mut self, name: String, path: String, description: String)
        ensures
            final(self).default_project == old(self).default_project,
            has_entry(old(self).projects@, name@) ==> exists|i: int|
                first_entry(old(self).projects@, name@, i) && final(self).projects@ == old(self).projects@.update(
                    i,
                    (old(self).projects@[i].0, Project { path, description }),
                ),
            !has_entry(old(self).projects@, name@) ==> final(self).projects@ == old(self).projects@.push(
                (name, Project { path, description }),
            ),
            names_unique(old(self).projects@) ==> names_unique(final(self).projects@),
            exists|i: int|
                first_entry(final(self).projects@, name@, i) && final(self).projects@[i].1 == (Project {
                    path,
                    description,
                }),
    {
        match entry_index(&self.projects, name.as_str()) {
            Some(i) => {
                let ghost before = self.projects@;
                let (key, _) = self.projects.remove(i);
                self.projects.insert(i, (key, Project { path, description }));
                proof {
                    assert(self.projects@ =~= before.update(i as int, (before[i as int].0, Project { path, description })));
                    assert(first_entry(self.projects@, name@, i as int));
                    assert forall|a: int, b: int| names_unique(before) && 0 <= a < b < self.projects@.len() implies (#[trigger] self.projects@[a]).0@
                        != (#[trigger] self.projects@[b]).0@ by {
                        assert(self.projects@[a].0 == before[a].0);
                        assert(self.projects@[b].0 == before[b].0);
                    }
                }
            },
            None => {
                let ghost before = self.projects@;
                self.projects.push((name, Project { path, description }));
                proof {
                    assert(first_entry(self.projects@, name@, before.len() as int));
                    assert forall|a: int, b: int| names_unique(before) && 0 <= a < b < self.projects@.len() implies (#[trigger] self.projects@[a]).0@
                        != (#[trigger] self.projects@[b]).0@ by {
                        if b == before.len() {
                            assert(self.projects@[a] == before[a]);
                        } else {
                            assert(self.projects@[a] == before[a]);
                            assert(self.projects@[b] == before[b]);
                        }
                    }
                }
            },
        }
    }

    /// Makes `name` the default project; it must be registered.
    pub fn set_default_project(&mut self, name: &str) -> (r: Result<(), RegistryError>)
        ensures
            r is Ok <==> has_entry(old(self).projects@, name@),
            r matches Err(RegistryError::ProjectNotFound(n)) ==> n@ == name@ && *final(self) == *old(self),
            r is Ok ==> final(self).projects == old(self).projects && final(self).default_project is Some
                && final(self).default_project->0@ == name@,
            r is Ok ==> has_entry(final(self).projects@, final(self).default_project->0@),
    {
        match entry_index(&self.projects, name) {
            Some(_) => {
                self.default_project = Some(owned(name));
                Ok(())
            },
            None => Err(RegistryError::ProjectNotFound(owned(name))),
        }
    }

    /// Forgets the default project.
    pub fn clear_default_project(&mut self)
        ensures
            final(self).projects == old(self).projects,
            final(self).default_project is None,
    {
        self.default_project = None;
    }

    /// The default project with its name, when one is set and registered.
    pub fn get_default_project(&self) -> (r: Option<(&str, &Project)>)
        ensures
            match r {
                Some((n, p)) => self.default_project is Some && n@ == self.default_project->0@ && exists|i: int|
                    first_entry(self.projects@, n@, i) && *p == self.projects@[i].1,
                None => self.default_project is None || !has_entry(self.projects@, self.default_project->0@),
            },
    {
        match &self.default_project {
            Some(d) => match entry_index(&self.projects, d.as_str()) {
                Some(i) => Some((d.as_str(), &self.projects[i].1)),
                None => None,
            },
            None => None,
        }
    }
}


/// The name of a backup of the file with stem `stem` and extension `ext`
/// made at `timestamp`: `{stem}_{timestamp}.{ext}` (extension `yaml` when
/// there is none), or `requirements_backup_{timestamp}.yaml` when the file
/// has no stem.
pub open spec fn backup_name(stem: Option<Seq<char>>, ext: Option<Seq<char>>, timestamp: Seq<char>) -> Seq<char> {
    match stem {
        Some(st) => st + "_"@ + timestamp + "."@ + match ext {
            Some(e) => e,
            None => "yaml"@,
        },
        None => "requirements_backup_"@ + timestamp + ".yaml"@,
    }
}

/// The name of a backup of the file with stem `stem` and extension `ext`
/// made at `timestamp`.
pub fn backup_file_name(stem: Option<&str>, ext: Option<&str>, timestamp: &str) -> (r: String)
    ensures
        r@ == backup_name(
            match stem {
                Some(x) => Some(x@),
                None => None,
            },
            match ext {
                Some(x) => Some(x@),
                None => None,
            },
            timestamp@,
        ),
{
    match stem {
        Some(st) => {
            let mut r = owned(st);
            r.append("_");
            r.append(timestamp);
            r.append(".");
            match ext {
                Some(e) => r.append(e),
                None => r.append("yaml"),
            }
            r
        },
        None => {
            let mut r = owned("requirements_backup_");
            r.append(timestamp);
            r.append(".yaml");
            r
        },
    }
}

} // verus!
