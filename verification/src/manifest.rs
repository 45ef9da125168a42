//! A project manifest: what its two tables declare, and what is taken from
//! them.

use vstd::prelude::*;
use vstd::std_specs::iter::IteratorSpec;
use crate::chars::lowercase;
use crate::license::{with_observed, LicenseWeights};
use crate::names::NameSet;
use crate::normalize::{get_python_dependency, normalize};
use crate::order::texts;

verus! {

/// The names that a list of dependency specifiers asks for: the canonical
/// name of each specifier that has one.
pub open spec fn specifier_names(specifiers: Seq<Seq<char>>) -> Set<Seq<char>> {
    Set::new(
        |name: Seq<char>|
            exists|i: int|
                0 <= i < specifiers.len() && normalize(#[trigger] specifiers[i]) == Some(name),
    )
}

/// No specifiers ask for no names.
pub proof fn lemma_specifier_names_empty()
    ensures
        specifier_names(Seq::empty()) == Set::<Seq<char>>::empty(),
{
    assert(specifier_names(Seq::empty()) =~= Set::<Seq<char>>::empty());
}

/// One more specifier adds its canonical name, if it has one, and nothing
/// else.
pub proof fn lemma_specifier_names_push(specifiers: Seq<Seq<char>>, next: Seq<char>)
    ensures
        specifier_names(specifiers.push(next)) == match normalize(next) {
            Some(name) => specifier_names(specifiers).insert(name),
            None => specifier_names(specifiers),
        },
{
    let longer = specifiers.push(next);
    let expected = match normalize(next) {
        Some(name) => specifier_names(specifiers).insert(name),
        None => specifier_names(specifiers),
    };
    assert forall|name: Seq<char>| specifier_names(longer).contains(name) == expected.contains(
        name,
    ) by {
        if specifier_names(longer).contains(name) {
            let i = choose|i: int|
                0 <= i < longer.len() && normalize(#[trigger] longer[i]) == Some(name);
            if i < specifiers.len() {
                assert(normalize(specifiers[i]) == Some(name));
            }
        }
        if specifier_names(specifiers).contains(name) {
            let i = choose|i: int|
                0 <= i < specifiers.len() && normalize(#[trigger] specifiers[i]) == Some(name);
            assert(normalize(longer[i]) == Some(name));
        }
        if normalize(next) == Some(name) {
            assert(normalize(longer[specifiers.len() as int]) == Some(name));
        }
    }
    assert(specifier_names(longer) =~= expected);
}

/// Collects the canonical names of the specifiers that have one.
pub fn dependency_names(specifiers: Vec<String>) -> (names: NameSet)
    ensures
        names@ == specifier_names(texts(specifiers@)),
{
    let ghost all = texts(specifiers@);
    let mut names = NameSet::new();
    proof {
        lemma_specifier_names_empty();
        assert(all.take(0) =~= Seq::empty());
    }
    for dep in it: specifiers
        invariant
            all == texts(it.seq()),
            names@ == specifier_names(all.take(it.index())),
    {
        proof {
            let at = it.index();
            assert(dep@ == all[at]);
            assert(all.take(at + 1) =~= all.take(at).push(all[at]));
            lemma_specifier_names_push(all.take(at), all[at]);
        }
        match get_python_dependency(dep) {
            Some(name) => {
                names.insert(name);
            },
            None => {},
        }
    }
    assert(all.take(all.len() as int) =~= all);
    names
}

/// A name with each `_` and each `.` written as a hyphen.
pub open spec fn hyphenated(name: Seq<char>) -> Seq<char> {
    Seq::new(
        name.len(),
        |i: int|
            if name[i] == '_' || name[i] == '.' {
                '-'
            } else {
                name[i]
            },
    )
}

/// The key that a Poetry dependency table gives to the interpreter itself.
/// It stands for no package.
pub open spec fn reserved_key() -> Seq<char> {
    seq!['p', 'y', 't', 'h', 'o', 'n']
}

/// The name of the package that a key of a Poetry dependency table stands
/// for: the key in lower case, its separators written as hyphens.
pub open spec fn poetry_name(key: Seq<char>) -> Seq<char> {
    hyphenated(lowercase(key))
}

/// Whether `key` is a key of a Poetry dependency table that stands for the
/// package `name`. The reserved key stands for none.
pub open spec fn stands_for(key: Seq<char>, name: Seq<char>) -> bool {
    key != reserved_key() && poetry_name(key) == name
}

/// The names that the keys of a Poetry dependency table stand for.
pub open spec fn poetry_names(keys: Seq<Seq<char>>) -> Set<Seq<char>> {
    Set::new(
        |name: Seq<char>| exists|i: int| 0 <= i < keys.len() && #[trigger] stands_for(keys[i], name),
    )
}

/// No keys stand for no names.
pub proof fn lemma_poetry_names_empty()
    ensures
        poetry_names(Seq::empty()) == Set::<Seq<char>>::empty(),
{
    assert(poetry_names(Seq::empty()) =~= Set::<Seq<char>>::empty());
}

/// One more key adds the name it stands for, unless it is the reserved key,
/// and nothing else.
pub proof fn lemma_poetry_names_push(keys: Seq<Seq<char>>, next: Seq<char>)
    ensures
        poetry_names(keys.push(next)) == if next == reserved_key() {
            poetry_names(keys)
        } else {
            poetry_names(keys).insert(poetry_name(next))
        },
{
    let longer = keys.push(next);
    let expected = if next == reserved_key() {
        poetry_names(keys)
    } else {
        poetry_names(keys).insert(poetry_name(next))
    };
    assert forall|name: Seq<char>| poetry_names(longer).contains(name) == expected.contains(
        name,
    ) by {
        if poetry_names(longer).contains(name) {
            let i = choose|i: int| 0 <= i < longer.len() && #[trigger] stands_for(longer[i], name);
            if i < keys.len() {
                assert(stands_for(keys[i], name));
            }
        }
        if poetry_names(keys).contains(name) {
            let i = choose|i: int| 0 <= i < keys.len() && #[trigger] stands_for(keys[i], name);
            assert(stands_for(longer[i], name));
        }
        if stands_for(next, name) {
            assert(stands_for(longer[keys.len() as int], name));
        }
    }
    assert(poetry_names(longer) =~= expected);
}

/// Writes each `_` and each `.` of a name as a hyphen.
pub fn hyphenate(name: &str) -> (out: String)
    ensures
        out@ == hyphenated(name@),
{
    let mut out = String::new();
    let mut chars = name.chars();
    let ghost mut at: int = 0;
    loop
        invariant
            0 <= at <= name@.len(),
            chars.remaining() =~= name@.skip(at),
            out@ =~= hyphenated(name@.take(at)),
        decreases name@.len() - at,
    {
        let c = match chars.next() {
            Some(c) => c,
            None => {
                assert(name@.take(at) =~= name@);
                return out;
            },
        };
        if c == '_' || c == '.' {
            out.push('-');
        } else {
            out.push(c);
        }
        proof {
            at = at + 1;
        }
    }
}

/// The name of the package that a key of a Poetry dependency table stands
/// for.
pub fn poetry_dependency_name(key: &str) -> (name: String)
    ensures
        name@ == poetry_name(key@),
{
    let lowered = key.to_lowercase();
    hyphenate(lowered.as_str())
}

/// Whether a key of a Poetry dependency table is the reserved one.
pub fn is_reserved_key(key: &String) -> (reserved: bool)
    ensures
        reserved == (key@ == reserved_key()),
{
    let python = String::from_str("python");
    proof {
        reveal_strlit("python");
        assert("python"@ =~= reserved_key());
    }
    *key == python
}

/// Collects the names that the keys of a Poetry dependency table stand for.
pub fn poetry_dependency_names(keys: Vec<String>) -> (names: NameSet)
    ensures
        names@ == poetry_names(texts(keys@)),
{
    let ghost all = texts(keys@);
    let mut names = NameSet::new();
    proof {
        lemma_poetry_names_empty();
        assert(all.take(0) =~= Seq::empty());
    }
    for key in it: keys
        invariant
            all == texts(it.seq()),
            names@ == poetry_names(all.take(it.index())),
    {
        proof {
            let at = it.index();
            assert(key@ == all[at]);
            assert(all.take(at + 1) =~= all.take(at).push(all[at]));
            lemma_poetry_names_push(all.take(at), all[at]);
        }
        if !is_reserved_key(&key) {
            names.insert(poetry_dependency_name(key.as_str()));
        }
    }
    assert(all.take(all.len() as int) =~= all);
    names
}

/// The reserved key adds nothing: put in among the keys at any place, it
/// leaves the names as they are.
pub proof fn lemma_reserved_key_adds_nothing(keys: Seq<Seq<char>>, at: int)
    requires
        0 <= at <= keys.len(),
    ensures
        poetry_names(keys.insert(at, reserved_key())) == poetry_names(keys),
{
    let longer = keys.insert(at, reserved_key());
    assert forall|name: Seq<char>| poetry_names(longer).contains(name) == poetry_names(
        keys,
    ).contains(name) by {
        if poetry_names(longer).contains(name) {
            let i = choose|i: int| 0 <= i < longer.len() && #[trigger] stands_for(longer[i], name);
            if i < at {
                assert(stands_for(keys[i], name));
            } else {
                assert(stands_for(keys[i - 1], name));
            }
        }
        if poetry_names(keys).contains(name) {
            let i = choose|i: int| 0 <= i < keys.len() && #[trigger] stands_for(keys[i], name);
            if i < at {
                assert(stands_for(longer[i], name));
            } else {
                assert(stands_for(longer[i + 1], name));
            }
        }
    }
    assert(poetry_names(longer) =~= poetry_names(keys));
}

/// Every name that a Poetry dependency table yields is the name of one of
/// its keys, and that key is not the reserved one.
pub proof fn lemma_poetry_names_have_keys(keys: Seq<Seq<char>>, name: Seq<char>)
    requires
        poetry_names(keys).contains(name),
    ensures
        exists|i: int|
            0 <= i < keys.len() && #[trigger] keys[i] != reserved_key() && poetry_name(keys[i])
                == name,
{
    let i = choose|i: int| 0 <= i < keys.len() && #[trigger] stands_for(keys[i], name);
    assert(keys[i] != reserved_key() && poetry_name(keys[i]) == name);
}

/// The label under which a manifest's license text is handed to whoever
/// reads license expressions.
pub fn license_source() -> (label: &'static str)
    ensures
        label@ == "pyproject.toml"@,
{
    "pyproject.toml"
}

/// What the `project` table of a manifest declares.
pub struct Project {
    pub name: Option<String>,
    pub license: Option<String>,
    /// The dependency specifiers, in the order of the list.
    pub dependencies: Option<Vec<String>>,
}

/// What the `tool.poetry` table of a manifest declares.
pub struct Poetry {
    pub name: Option<String>,
    pub license: Option<String>,
    /// The keys of the dependency table. What a key is bound to plays no part.
    pub dependencies: Option<Vec<String>>,
}

/// A project manifest. Each thing it can declare may stand in either table,
/// and the `project` table is asked first, thing by thing.
pub struct Pyproject {
    pub project: Project,
    pub poetry: Poetry,
}

impl Default for Project {
    /// A table that declares nothing.
    fn default() -> (table: Project)
        ensures
            table == (Project { name: None, license: None, dependencies: None }),
    {
        Project { name: None, license: None, dependencies: None }
    }
}

impl Default for Poetry {
    /// A table that declares nothing.
    fn default() -> (table: Poetry)
        ensures
            table == (Poetry { name: None, license: None, dependencies: None }),
    {
        Poetry { name: None, license: None, dependencies: None }
    }
}

impl Default for Pyproject {
    /// A manifest that declares nothing.
    fn default() -> (manifest: Pyproject)
        ensures
            manifest.project == (Project { name: None, license: None, dependencies: None }),
            manifest.poetry == (Poetry { name: None, license: None, dependencies: None }),
    {
        Pyproject { project: Project::default(), poetry: Poetry::default() }
    }
}

/// The set of names of an optional set.
pub open spec fn names_of(set: Option<NameSet>) -> Option<Set<Seq<char>>> {
    match set {
        Some(set) => Some(set@),
        None => None,
    }
}

impl Pyproject {
    /// The name that the manifest declares.
    pub open spec fn declared_name(self) -> Option<String> {
        if self.project.name is Some {
            self.project.name
        } else {
            self.poetry.name
        }
    }

    /// The manifest once its declared name has been taken out of it.
    pub open spec fn name_taken(self) -> Pyproject {
        Pyproject {
            project: Project { name: None, ..self.project },
            poetry: if self.project.name is Some {
                self.poetry
            } else {
                Poetry { name: None, ..self.poetry }
            },
        }
    }

    /// The license text that the manifest declares.
    pub open spec fn declared_license(self) -> Option<String> {
        if self.project.license is Some {
            self.project.license
        } else {
            self.poetry.license
        }
    }

    /// The names of the packages that the manifest declares to depend on;
    /// `None` where neither table has anything to say about dependencies.
    pub open spec fn declared_dependencies(self) -> Option<Set<Seq<char>>> {
        match self.project.dependencies {
            Some(specifiers) => Some(specifier_names(texts(specifiers@))),
            None => match self.poetry.dependencies {
                Some(keys) => Some(poetry_names(texts(keys@))),
                None => None,
            },
        }
    }

    /// The manifest once its declared dependencies have been taken out of it.
    pub open spec fn dependencies_taken(self) -> Pyproject {
        Pyproject {
            project: Project { dependencies: None, ..self.project },
            poetry: if self.project.dependencies is Some {
                self.poetry
            } else {
                Poetry { dependencies: None, ..self.poetry }
            },
        }
    }

    /// Takes the project's name out of the manifest: the one of the `project`
    /// table if it has one, else the one of the Poetry table. What is taken
    /// is gone from the manifest; the rest stays.
    pub fn get_name(&mut self) -> (name: Option<String>)
        ensures
            name == old(self).declared_name(),
            *final(self) == old(self).name_taken(),
    {
        let name = self.project.name.take();
        if name.is_some() {
            name
        } else {
            self.poetry.name.take()
        }
    }

    /// The license text that the manifest declares: the one of the `project`
    /// table if it has one, else the one of the Poetry table.
    pub fn license_text(&self) -> (text: Option<&String>)
        ensures
            match text {
                Some(text) => self.declared_license() == Some(*text),
                None => self.declared_license() is None,
            },
    {
        if self.project.license.is_some() {
            self.project.license.as_ref()
        } else {
            self.poetry.license.as_ref()
        }
    }

    /// Records the licenses that the manifest declares.
    ///
    /// The declared license text is handed to `parse` together with the label
    /// `pyproject.toml`, and each identifier that `parse` finds in it is given
    /// the weight `OBSERVED`, also where it had another. A manifest that
    /// declares no license leaves `licenses` as it is, and `parse` uncalled.
    pub fn load_license<P: FnOnce(&str, &str) -> Vec<String>>(
        &self,
        parse: P,
        licenses: &mut LicenseWeights,
    )
        requires
            self.declared_license() matches Some(declared) ==> forall|text: &str, label: &str|
                text@ == declared@ && label@ == "pyproject.toml"@ ==> call_requires(
                    parse,
                    (text, label),
                ),
        ensures
            match self.declared_license() {
                Some(declared) => exists|text: &str, label: &str, found: Vec<String>|
                    {
                        &&& text@ == declared@
                        &&& label@ == "pyproject.toml"@
                        &&& call_ensures(parse, (text, label), found)
                        &&& final(licenses)@ == with_observed(
                            old(licenses)@,
                            texts(found@).to_set(),
                        )
                    },
                None => final(licenses)@ == old(licenses)@,
            },
    {
        match self.license_text() {
            Some(declared) => {
                let text = declared.as_str();
                let label = license_source();
                let found = parse(text, label);
                let ghost seen = found;
                licenses.observe(found);
                assert(call_ensures(parse, (text, label), seen));
            },
            None => {},
        }
    }

    /// Takes the dependencies out of the manifest and returns the names of
    /// the packages.
    ///
    /// Where the `project` table lists dependencies, these alone count: each
    /// entry is a specifier, and those without a name are dropped. Else the
    /// keys of the Poetry table count, but for the reserved one. With neither
    /// the answer is `None`, which is not the empty set. What was read is gone
    /// from the manifest; the rest stays.
    pub fn get_dependencies(&mut self) -> (deps: Option<NameSet>)
        ensures
            names_of(deps) == old(self).declared_dependencies(),
            *final(self) == old(self).dependencies_taken(),
    {
        match self.project.dependencies.take() {
            Some(specifiers) => Some(dependency_names(specifiers)),
            None => match self.poetry.dependencies.take() {
                Some(keys) => Some(poetry_dependency_names(keys)),
                None => None,
            },
        }
    }
}

/// Where the `project` table lists dependencies, they are all there is: the
/// names are those of its specifiers, and the Poetry table is neither read
/// nor touched.
pub proof fn lemma_project_dependencies_alone(manifest: Pyproject)
    requires
        manifest.project.dependencies is Some,
    ensures
        manifest.declared_dependencies() == Some(
            specifier_names(texts(manifest.project.dependencies->0@)),
        ),
        manifest.dependencies_taken().poetry == manifest.poetry,
{
}

} // verus!
