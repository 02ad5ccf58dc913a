use vstd::prelude::*;
use vstd::string::StringExecFns;

use crate::interner::lemma_acquire_grows;
use crate::interner::lemma_grows_trans;
use crate::interner::lemma_near_limit_lift;
use crate::interner::lemma_near_limit_mono;
use crate::interner::lemma_occurrences_concat;
use crate::interner::lemma_release_post_occ;
use crate::interner::lemma_release_post_refl;
use crate::interner::lemma_release_post_single;
use crate::interner::lemma_release_post_trans;
use crate::interner::occurrences;
use crate::interner::pool_grows_at_most;
use crate::interner::pool_near_limit;
use crate::interner::pool_preserves;
use crate::interner::release_post;
use crate::interner::StringPool;
use crate::interner::StrReference;

verus! {

#[verifier::external_type_specification]
#[verifier::external_body]
pub struct ExTomlValue(toml::Value);

#[verifier::external_type_specification]
#[verifier::external_body]
#[verifier::reject_recursive_types(K)]
#[verifier::reject_recursive_types(V)]
pub struct ExTomlMap<K, V>(toml::map::Map<K, V>);

/// The document tree that a piece of TOML text parses to, or nothing when
/// the text is not valid TOML. The parse is a function of the text alone.
pub uninterp spec fn parsed_toml(text: Seq<char>) -> Option<DocValue>;

/// A parsed declaration document, reduced to what the manifest schema
/// reads: text, booleans, lists and tables. Values of other kinds (such
/// as numbers or dates) have no place in a manifest and are kept only as
/// `Other`, which every schema position rejects.
pub enum DocValue {
    Text(String),
    Flag(bool),
    List(Vec<DocValue>),
    Table(Vec<(String, DocValue)>),
    Other,
}

/// What a parsed dependency is, content-wise: either a bare specifier
/// string, or the richer form with optional path and version, a
/// workspace flag and a feature list.
pub enum SpecDependency {
    Simple(Seq<char>),
    Complex(SpecDependencyFields),
}

/// The fields of the richer dependency form, content-wise.
pub struct SpecDependencyFields {
    pub path: Option<Seq<char>>,
    pub version: Option<Seq<char>>,
    pub workspace: bool,
    pub features: Seq<Seq<char>>,
}

/// What kind of artifact a package builds into.
#[derive(Debug, Clone, Copy, PartialEq, Eq, Structural)]
pub enum PackageKind {
    Executable,
    StaticLibrary,
    DynamicLibrary,
}

/// What a parsed package manifest is, content-wise.
pub struct SpecPackageManifest {
    pub name: Seq<char>,
    pub output: PackageKind,
    pub lto: bool,
}

/// What a parsed workspace manifest is, content-wise.
pub struct SpecWorkspaceManifest {
    pub members: Seq<Seq<char>>,
}

/// The two manifest shapes, content-wise.
pub enum SpecManifestKind {
    Package(SpecPackageManifest),
    Workspace(SpecWorkspaceManifest),
}

/// What a parsed manifest is, content-wise: its shape and its dependency
/// mapping in document order.
pub struct SpecManifest {
    pub kind: SpecManifestKind,
    pub dependencies: Seq<(Seq<char>, SpecDependency)>,
}

/// The first value stored under `key`, scanning the table in order.
pub open spec fn lookup(t: Seq<(String, DocValue)>, key: Seq<char>) -> Option<DocValue>
    decreases t.len(),
{
    if t.len() == 0 {
        None
    } else if t[0].0@ == key {
        Some(t[0].1)
    } else {
        lookup(t.drop_first(), key)
    }
}

/// The package kind a manifest's `output` value names, with its accepted
/// aliases, or nothing for an unknown alias.
pub open spec fn spec_kind_of_alias(s: Seq<char>) -> Option<PackageKind> {
    if s == "executable"@ || s == "exe"@ {
        Some(PackageKind::Executable)
    } else if s == "staticlib"@ || s == "static"@ {
        Some(PackageKind::StaticLibrary)
    } else if s == "dynamiclib"@ || s == "dynamic"@ || s == "dylib"@ || s == "so"@ || s == "dll"@ {
        Some(PackageKind::DynamicLibrary)
    } else {
        None
    }
}

/// What the `package` table parses to: `name` is required text; `output`
/// defaults to an executable and must otherwise be a known alias; `lto`
/// defaults to false and must otherwise be a boolean; keys the schema
/// does not read are ignored.
pub open spec fn parse_package_spec(v: DocValue) -> Option<SpecPackageManifest> {
    match v {
        DocValue::Table(t) => {
            {
                match lookup(t@, "name"@) {
                    Some(DocValue::Text(name)) => {
                        let output = match lookup(t@, "output"@) {
                            Some(DocValue::Text(alias)) => spec_kind_of_alias(alias@),
                            Some(_) => None,
                            None => Some(PackageKind::Executable),
                        };
                        let lto = match lookup(t@, "lto"@) {
                            Some(DocValue::Flag(b)) => Some(b),
                            Some(_) => None,
                            None => Some(false),
                        };
                        match (output, lto) {
                            (Some(output), Some(lto)) => Some(
                                SpecPackageManifest { name: name@, output, lto },
                            ),
                            _ => None,
                        }
                    },
                    _ => None,
                }
            }
        },
        _ => None,
    }
}

/// What the `workspace` table parses to: `members` defaults to an empty
/// list and must otherwise be a list of text entries; keys the schema
/// does not read are ignored.
pub open spec fn parse_workspace_spec(v: DocValue) -> Option<SpecWorkspaceManifest> {
    match v {
        DocValue::Table(t) => {
            {
                match lookup(t@, "members"@) {
                    Some(DocValue::List(items)) => {
                        if forall|i: int| 0 <= i < items@.len() ==> (#[trigger] items@[i]) is Text {
                            Some(
                                SpecWorkspaceManifest {
                                    members: items@.map_values(|d: DocValue| d->Text_0@),
                                },
                            )
                        } else {
                            None
                        }
                    },
                    Some(_) => None,
                    None => Some(SpecWorkspaceManifest { members: Seq::empty() }),
                }
            }
        },
        _ => None,
    }
}

/// What one dependency value parses to: bare text is the simple form; a
/// table is the richer form, with text `path` and `version`, a boolean
/// `workspace` flag defaulting to false, and a `features` list of text
/// entries defaulting to empty; keys the schema does not read are
/// ignored.
pub open spec fn parse_dependency_spec(v: DocValue) -> Option<SpecDependency> {
    match v {
        DocValue::Text(s) => Some(SpecDependency::Simple(s@)),
        DocValue::Table(t) => {
            {
                let path = match lookup(t@, "path"@) {
                    Some(DocValue::Text(s)) => Some(Some(s@)),
                    Some(_) => None,
                    None => Some(None),
                };
                let version = match lookup(t@, "version"@) {
                    Some(DocValue::Text(s)) => Some(Some(s@)),
                    Some(_) => None,
                    None => Some(None),
                };
                let workspace = match lookup(t@, "workspace"@) {
                    Some(DocValue::Flag(b)) => Some(b),
                    Some(_) => None,
                    None => Some(false),
                };
                let features = match lookup(t@, "features"@) {
                    Some(DocValue::List(items)) => {
                        if forall|i: int| 0 <= i < items@.len() ==> (#[trigger] items@[i]) is Text {
                            Some(items@.map_values(|d: DocValue| d->Text_0@))
                        } else {
                            None
                        }
                    },
                    Some(_) => None,
                    None => Some(Seq::empty()),
                };
                match (path, version, workspace, features) {
                    (Some(path), Some(version), Some(workspace), Some(features)) => Some(
                        SpecDependency::Complex(
                            SpecDependencyFields { path, version, workspace, features },
                        ),
                    ),
                    _ => None,
                }
            }
        },
        _ => None,
    }
}

/// What a dependency table parses to: each entry's value must parse, and
/// the entries keep their document order.
pub open spec fn parse_dependencies_spec(t: Seq<(String, DocValue)>) -> Option<
    Seq<(Seq<char>, SpecDependency)>,
>
    decreases t.len(),
{
    if t.len() == 0 {
        Some(Seq::empty())
    } else {
        match parse_dependency_spec(t[0].1) {
            Some(d) => match parse_dependencies_spec(t.drop_first()) {
                Some(rest) => Some(seq![(t[0].0@, d)] + rest),
                None => None,
            },
            None => None,
        }
    }
}

/// What a whole manifest document parses to. The document must be a table
/// holding exactly one of the `package` and `workspace` tags — the
/// discriminant between the two manifest shapes — besides an optional
/// `dependencies` table; a document with both tags, neither tag, or any
/// other key does not conform to the schema.
pub open spec fn parse_manifest_spec(doc: DocValue) -> Option<SpecManifest> {
    match doc {
        DocValue::Table(top) => {
            if !(forall|i: int|
                0 <= i < top@.len() ==> ((#[trigger] top@[i]).0@ == "package"@ || top@[i].0@
                    == "workspace"@ || top@[i].0@ == "dependencies"@)) {
                None
            } else {
                let kind = match (lookup(top@, "package"@), lookup(top@, "workspace"@)) {
                    (Some(p), None) => match parse_package_spec(p) {
                        Some(pm) => Some(SpecManifestKind::Package(pm)),
                        None => None,
                    },
                    (None, Some(w)) => match parse_workspace_spec(w) {
                        Some(wm) => Some(SpecManifestKind::Workspace(wm)),
                        None => None,
                    },
                    _ => None,
                };
                let dependencies = match lookup(top@, "dependencies"@) {
                    Some(DocValue::Table(t)) => parse_dependencies_spec(t@),
                    Some(_) => None,
                    None => Some(Seq::empty()),
                };
                match (kind, dependencies) {
                    (Some(kind), Some(dependencies)) => Some(SpecManifest { kind, dependencies }),
                    _ => None,
                }
            }
        },
        _ => None,
    }
}

/// The ways loading a manifest can fail.
#[derive(Debug)]
pub enum ManifestError {
    /// The document is present but malformed, or does not conform to the
    /// manifest schema; the message says how.
    Toml(String),
    /// Reading the file failed; the message carries the underlying error.
    Io(String),
    /// The string pool could not take another claim.
    Intern,
}

/// A validated dependency whose strings are still plain, before interning.
pub enum RawDependency {
    Simple(String),
    Complex {
        path: Option<String>,
        version: Option<String>,
        workspace: bool,
        features: Vec<String>,
    },
}

/// A validated manifest shape whose strings are still plain.
pub enum RawManifestKind {
    Package { name: String, output: PackageKind, lto: bool },
    Workspace { members: Vec<String> },
}

/// A validated manifest whose strings are still plain, before interning.
pub struct RawManifest {
    pub kind: RawManifestKind,
    pub dependencies: Vec<(String, RawDependency)>,
}

impl View for RawDependency {
    type V = SpecDependency;

    open spec fn view(&self) -> SpecDependency {
        match self {
            RawDependency::Simple(s) => SpecDependency::Simple(s@),
            RawDependency::Complex { path, version, workspace, features } => SpecDependency::Complex(
                SpecDependencyFields {
                    path: match path {
                        Some(p) => Some(p@),
                        None => None,
                    },
                    version: match version {
                        Some(v) => Some(v@),
                        None => None,
                    },
                    workspace: *workspace,
                    features: features@.map_values(|s: String| s@),
                },
            ),
        }
    }
}

impl View for RawManifest {
    type V = SpecManifest;

    open spec fn view(&self) -> SpecManifest {
        SpecManifest {
            kind: match &self.kind {
                RawManifestKind::Package { name, output, lto } => SpecManifestKind::Package(
                    SpecPackageManifest { name: name@, output: *output, lto: *lto },
                ),
                RawManifestKind::Workspace { members } => SpecManifestKind::Workspace(
                    SpecWorkspaceManifest { members: members@.map_values(|s: String| s@) },
                ),
            },
            dependencies: self.dependencies@.map_values(
                |p: (String, RawDependency)| (p.0@, p.1@),
            ),
        }
    }
}

/// True when two string slices hold the same characters.
fn str_eq(a: &str, b: &str) -> (r: bool)
    ensures
        r == (a@ == b@),
{
    let sa = String::from_str(a);
    let sb = String::from_str(b);
    sa == sb
}

/// A schema error with its message.
fn schema_error(msg: &str) -> (r: ManifestError)
    ensures
        r is Toml,
{
    ManifestError::Toml(String::from_str(msg))
}

proof fn lemma_lookup_found(t: Seq<(String, DocValue)>, key: Seq<char>, i: int)
    requires
        0 <= i < t.len(),
        t[i].0@ == key,
        forall|j: int| 0 <= j < i ==> (#[trigger] t[j]).0@ != key,
    ensures
        lookup(t, key) == Some(t[i].1),
    decreases i,
{
    if i == 0 {
    } else {
        assert(t[0].0@ != key);
        assert(t.drop_first()[i - 1] == t[i]);
        assert(forall|j: int| 0 <= j < i - 1 ==> (#[trigger] t.drop_first()[j]).0@ != key);
        lemma_lookup_found(t.drop_first(), key, i - 1);
    }
}

proof fn lemma_lookup_none(t: Seq<(String, DocValue)>, key: Seq<char>)
    requires
        forall|j: int| 0 <= j < t.len() ==> (#[trigger] t[j]).0@ != key,
    ensures
        lookup(t, key) is None,
    decreases t.len(),
{
    if t.len() > 0 {
        assert(forall|j: int|
            0 <= j < t.drop_first().len() ==> (#[trigger] t.drop_first()[j]).0@ != key);
        lemma_lookup_none(t.drop_first(), key);
    }
}

/// The first value stored under `key`, scanning the table in order.
fn table_lookup<'a>(t: &'a Vec<(String, DocValue)>, key: &str) -> (r: Option<&'a DocValue>)
    ensures
        match r {
            Some(v) => lookup(t@, key@) == Some(*v),
            None => lookup(t@, key@) is None,
        },
{
    let mut i: usize = 0;
    while i < t.len()
        invariant
            i <= t@.len(),
            forall|j: int| 0 <= j < i ==> (#[trigger] t@[j]).0@ != key@,
        decreases t@.len() - i,
    {
        if str_eq(t[i].0.as_str(), key) {
            proof {
                lemma_lookup_found(t@, key@, i as int);
            }
            return Some(&t[i].1);
        }
        i += 1;
    }
    proof {
        lemma_lookup_none(t@, key@);
    }
    None
}

/// True when every key of the table is one of the four given ones.
fn keys_among(t: &Vec<(String, DocValue)>, k1: &str, k2: &str, k3: &str, k4: &str) -> (r: bool)
    ensures
        r == forall|i: int|
            0 <= i < t@.len() ==> ((#[trigger] t@[i]).0@ == k1@ || t@[i].0@ == k2@ || t@[i].0@
                == k3@ || t@[i].0@ == k4@),
{
    let mut i: usize = 0;
    while i < t.len()
        invariant
            i <= t@.len(),
            forall|j: int|
                0 <= j < i ==> ((#[trigger] t@[j]).0@ == k1@ || t@[j].0@ == k2@ || t@[j].0@ == k3@
                    || t@[j].0@ == k4@),
        decreases t@.len() - i,
    {
        let k = t[i].0.as_str();
        if !(str_eq(k, k1) || str_eq(k, k2) || str_eq(k, k3) || str_eq(k, k4)) {
            return false;
        }
        i += 1;
    }
    true
}

/// The package kind a manifest `output` value names, or nothing for an
/// unknown alias.
pub fn kind_of_alias(s: &str) -> (r: Option<PackageKind>)
    ensures
        r == spec_kind_of_alias(s@),
{
    if str_eq(s, "executable") || str_eq(s, "exe") {
        Some(PackageKind::Executable)
    } else if str_eq(s, "staticlib") || str_eq(s, "static") {
        Some(PackageKind::StaticLibrary)
    } else if str_eq(s, "dynamiclib") || str_eq(s, "dynamic") || str_eq(s, "dylib") || str_eq(
        s,
        "so",
    ) || str_eq(s, "dll") {
        Some(PackageKind::DynamicLibrary)
    } else {
        None
    }
}

/// Validates a list whose entries must all be text, yielding the texts.
fn validate_text_list(items: &Vec<DocValue>) -> (r: Result<Vec<String>, ManifestError>)
    ensures
        match r {
            Ok(texts) => (forall|i: int| 0 <= i < items@.len() ==> (#[trigger] items@[i]) is Text)
                && texts@.map_values(|s: String| s@) == items@.map_values(
                |d: DocValue| d->Text_0@,
            ),
            Err(e) => !(forall|i: int| 0 <= i < items@.len() ==> (#[trigger] items@[i]) is Text)
                && e is Toml,
        },
{
    let mut texts: Vec<String> = Vec::new();
    let mut i: usize = 0;
    while i < items.len()
        invariant
            i <= items@.len(),
            texts@.len() == i,
            forall|j: int| 0 <= j < i ==> (#[trigger] items@[j]) is Text,
            forall|j: int| 0 <= j < i ==> (#[trigger] texts@[j])@ == items@[j]->Text_0@,
        decreases items@.len() - i,
    {
        match &items[i] {
            DocValue::Text(s) => {
                texts.push(s.clone());
            },
            _ => {
                return Err(schema_error("list entry must be a string"));
            },
        }
        i += 1;
    }
    proof {
        assert(texts@.map_values(|s: String| s@) =~= items@.map_values(|d: DocValue| d->Text_0@));
    }
    Ok(texts)
}

/// Validates the `package` table of a manifest.
fn validate_package(v: &DocValue) -> (r: Result<RawManifestKind, ManifestError>)
    ensures
        match r {
            Ok(raw) => raw is Package && parse_package_spec(*v) == Some(
                SpecPackageManifest {
                    name: raw->Package_name@,
                    output: raw->Package_output,
                    lto: raw->Package_lto,
                },
            ),
            Err(e) => parse_package_spec(*v) is None && e is Toml,
        },
{
    let t = match v {
        DocValue::Table(t) => t,
        _ => {
            return Err(schema_error("package section must be a table"));
        },
    };
    let name = match table_lookup(t, "name") {
        Some(DocValue::Text(s)) => s.clone(),
        Some(_) => {
            return Err(schema_error("package name must be a string"));
        },
        None => {
            return Err(schema_error("package name is required"));
        },
    };
    let output = match table_lookup(t, "output") {
        Some(DocValue::Text(alias)) => match kind_of_alias(alias.as_str()) {
            Some(kind) => kind,
            None => {
                return Err(schema_error("unknown output kind"));
            },
        },
        Some(_) => {
            return Err(schema_error("output must be a string"));
        },
        None => PackageKind::Executable,
    };
    let lto = match table_lookup(t, "lto") {
        Some(DocValue::Flag(b)) => *b,
        Some(_) => {
            return Err(schema_error("lto must be a boolean"));
        },
        None => false,
    };
    Ok(RawManifestKind::Package { name, output, lto })
}

/// Validates the `workspace` table of a manifest.
fn validate_workspace(v: &DocValue) -> (r: Result<RawManifestKind, ManifestError>)
    ensures
        match r {
            Ok(raw) => raw is Workspace && parse_workspace_spec(*v) == Some(
                SpecWorkspaceManifest {
                    members: raw->Workspace_members@.map_values(|s: String| s@),
                },
            ),
            Err(e) => parse_workspace_spec(*v) is None && e is Toml,
        },
{
    let t = match v {
        DocValue::Table(t) => t,
        _ => {
            return Err(schema_error("workspace section must be a table"));
        },
    };
    let members = match table_lookup(t, "members") {
        Some(DocValue::List(items)) => match validate_text_list(items) {
            Ok(texts) => texts,
            Err(e) => {
                return Err(e);
            },
        },
        Some(_) => {
            return Err(schema_error("members must be a list"));
        },
        None => Vec::new(),
    };
    proof {
        if members@.len() == 0 {
            assert(members@.map_values(|s: String| s@) =~= Seq::<Seq<char>>::empty());
        }
    }
    Ok(RawManifestKind::Workspace { members })
}

/// Validates one dependency value.
fn validate_dependency(v: &DocValue) -> (r: Result<RawDependency, ManifestError>)
    ensures
        match r {
            Ok(raw) => parse_dependency_spec(*v) == Some(raw@),
            Err(e) => parse_dependency_spec(*v) is None && e is Toml,
        },
{
    let t = match v {
        DocValue::Text(s) => {
            return Ok(RawDependency::Simple(s.clone()));
        },
        DocValue::Table(t) => t,
        _ => {
            return Err(schema_error("dependency must be a string or a table"));
        },
    };
    let path = match table_lookup(t, "path") {
        Some(DocValue::Text(s)) => Some(s.clone()),
        Some(_) => {
            return Err(schema_error("dependency path must be a string"));
        },
        None => None,
    };
    let version = match table_lookup(t, "version") {
        Some(DocValue::Text(s)) => Some(s.clone()),
        Some(_) => {
            return Err(schema_error("dependency version must be a string"));
        },
        None => None,
    };
    let workspace = match table_lookup(t, "workspace") {
        Some(DocValue::Flag(b)) => *b,
        Some(_) => {
            return Err(schema_error("dependency workspace flag must be a boolean"));
        },
        None => false,
    };
    let features = match table_lookup(t, "features") {
        Some(DocValue::List(items)) => match validate_text_list(items) {
            Ok(texts) => texts,
            Err(e) => {
                return Err(e);
            },
        },
        Some(_) => {
            return Err(schema_error("dependency features must be a list"));
        },
        None => Vec::new(),
    };
    proof {
        if features@.len() == 0 {
            assert(features@.map_values(|s: String| s@) =~= Seq::<Seq<char>>::empty());
        }
    }
    Ok(RawDependency::Complex { path, version, workspace, features })
}

proof fn lemma_deps_spec_index(t: Seq<(String, DocValue)>)
    ensures
        parse_dependencies_spec(t) is Some <==> (forall|i: int|
            0 <= i < t.len() ==> parse_dependency_spec((#[trigger] t[i]).1) is Some),
        parse_dependencies_spec(t) is Some ==> parse_dependencies_spec(t)->Some_0.len() == t.len()
            && (forall|i: int|
            0 <= i < t.len() ==> parse_dependencies_spec(t)->Some_0[i] == ((#[trigger] t[i]).0@,
        parse_dependency_spec(t[i].1)->Some_0)),
    decreases t.len(),
{
    if t.len() > 0 {
        lemma_deps_spec_index(t.drop_first());
        assert(forall|i: int| 0 <= i < t.drop_first().len() ==> t.drop_first()[i] == t[i + 1]);
        if parse_dependency_spec(t[0].1) is Some && parse_dependencies_spec(
            t.drop_first(),
        ) is Some {
            assert(forall|i: int|
                1 <= i < t.len() ==> parse_dependency_spec((#[trigger] t[i]).1)
                    == parse_dependency_spec(t.drop_first()[i - 1].1));
        } else {
            if !(parse_dependency_spec(t[0].1) is Some) {
            } else {
                let j = choose|j: int|
                    0 <= j < t.drop_first().len() && !(parse_dependency_spec(
                        (#[trigger] t.drop_first()[j]).1,
                    ) is Some);
                assert(t[j + 1].1 == t.drop_first()[j].1);
            }
        }
    }
}

/// Validates the `dependencies` table, entry by entry in document order.
fn validate_dependencies(t: &Vec<(String, DocValue)>) -> (r: Result<
    Vec<(String, RawDependency)>,
    ManifestError,
>)
    ensures
        match r {
            Ok(deps) => parse_dependencies_spec(t@) == Some(
                deps@.map_values(|p: (String, RawDependency)| (p.0@, p.1@)),
            ),
            Err(e) => parse_dependencies_spec(t@) is None && e is Toml,
        },
{
    let mut deps: Vec<(String, RawDependency)> = Vec::new();
    let mut i: usize = 0;
    while i < t.len()
        invariant
            i <= t@.len(),
            deps@.len() == i,
            forall|j: int|
                0 <= j < i ==> parse_dependency_spec((#[trigger] t@[j]).1) is Some,
            forall|j: int|
                0 <= j < i ==> (#[trigger] deps@[j]).0@ == t@[j].0@ && deps@[j].1@
                    == parse_dependency_spec(t@[j].1)->Some_0,
        decreases t@.len() - i,
    {
        match validate_dependency(&t[i].1) {
            Ok(raw) => {
                deps.push((t[i].0.clone(), raw));
            },
            Err(e) => {
                proof {
                    lemma_deps_spec_index(t@);
                }
                return Err(e);
            },
        }
        i += 1;
    }
    proof {
        lemma_deps_spec_index(t@);
        assert(parse_dependencies_spec(t@)->Some_0 =~= deps@.map_values(
            |p: (String, RawDependency)| (p.0@, p.1@),
        ));
    }
    Ok(deps)
}

/// Validates a whole manifest document against the schema, with plain
/// strings throughout.
pub fn validate_manifest(doc: &DocValue) -> (r: Result<RawManifest, ManifestError>)
    ensures
        match r {
            Ok(raw) => parse_manifest_spec(*doc) == Some(raw@),
            Err(e) => parse_manifest_spec(*doc) is None && e is Toml,
        },
{
    let top = match doc {
        DocValue::Table(top) => top,
        _ => {
            return Err(schema_error("manifest must be a table"));
        },
    };
    if !keys_among(top, "package", "workspace", "dependencies", "dependencies") {
        return Err(schema_error("unknown key at manifest top level"));
    }
    let package = table_lookup(top, "package");
    let workspace = table_lookup(top, "workspace");
    let kind = match (package, workspace) {
        (Some(p), None) => match validate_package(p) {
            Ok(kind) => kind,
            Err(e) => {
                return Err(e);
            },
        },
        (None, Some(w)) => match validate_workspace(w) {
            Ok(kind) => kind,
            Err(e) => {
                return Err(e);
            },
        },
        (Some(_), Some(_)) => {
            return Err(schema_error("manifest declares both a package and a workspace"));
        },
        (None, None) => {
            return Err(schema_error("manifest declares neither a package nor a workspace"));
        },
    };
    let dependencies = match table_lookup(top, "dependencies") {
        Some(DocValue::Table(t)) => match validate_dependencies(t) {
            Ok(deps) => deps,
            Err(e) => {
                return Err(e);
            },
        },
        Some(_) => {
            return Err(schema_error("dependencies must be a table"));
        },
        None => Vec::new(),
    };
    proof {
        if dependencies@.len() == 0 {
            assert(dependencies@.map_values(|p: (String, RawDependency)| (p.0@, p.1@)) =~= Seq::<
                (Seq<char>, SpecDependency),
            >::empty());
        }
    }
    Ok(RawManifest { kind, dependencies })
}

/// Converts toml's value tree into the library's document tree, variant
/// by variant. Relies only on the shape of toml::Value; values a manifest
/// cannot use are kept as `Other`.
#[verifier::external_body]
fn doc_of_toml(v: &toml::Value) -> DocValue {
    match v {
        toml::Value::String(s) => DocValue::Text(s.clone()),
        toml::Value::Boolean(b) => DocValue::Flag(*b),
        toml::Value::Array(a) => {
            let mut items = Vec::new();
            for it in a {
                items.push(doc_of_toml(it));
            }
            DocValue::List(items)
        },
        toml::Value::Table(t) => DocValue::Table(doc_of_toml_table(t)),
        _ => DocValue::Other,
    }
}

/// Converts toml's table into the library's pair list, key by key.
/// Relies on toml::map::Map::iter, which yields each entry once, in a
/// deterministic order.
#[verifier::external_body]
fn doc_of_toml_table(t: &toml::map::Map<String, toml::Value>) -> Vec<(String, DocValue)> {
    let mut pairs = Vec::new();
    for (k, v) in t {
        pairs.push((k.clone(), doc_of_toml(v)));
    }
    pairs
}

/// Relies on toml::Table::from_str: the parse is a pure function of the
/// text, and a TOML document is a table at its top level. The error
/// message is toml's own.
#[verifier::external_body]
fn parse_toml_text(text: &str) -> (r: Result<DocValue, String>)
    ensures
        r is Ok <==> parsed_toml(text@) is Some,
        r is Ok ==> parsed_toml(text@) == Some(r->Ok_0) && r->Ok_0 is Table,
{
    match text.parse::<toml::Table>() {
        Ok(t) => Ok(DocValue::Table(doc_of_toml_table(&t))),
        Err(e) => Err(e.to_string()),
    }
}

/// A dependency as the rest of the system holds it, with interned names.
pub enum Dependency {
    /// A bare specifier string.
    Simple(StrReference),
    /// The richer form.
    Complex {
        path: Option<StrReference>,
        version: Option<StrReference>,
        workspace: bool,
        features: Vec<StrReference>,
    },
}

/// A package manifest with its name interned.
pub struct PackageManifest {
    pub name: StrReference,
    pub output: PackageKind,
    pub lto: bool,
}

/// A workspace manifest with its member paths interned.
pub struct WorkspaceManifest {
    pub members: Vec<StrReference>,
}

/// The two manifest shapes.
pub enum ManifestKind {
    Package(PackageManifest),
    Workspace(WorkspaceManifest),
}

/// A parsed manifest: its shape and its dependency mapping, keyed by
/// interned names in document order.
pub struct Manifest {
    pub kind: ManifestKind,
    pub dependencies: Vec<(StrReference, Dependency)>,
}

impl Dependency {
    /// All handles of this dependency are live in `pool`.
    pub open spec fn wf_in(self, pool: StringPool) -> bool {
        match self {
            Dependency::Simple(h) => pool.live(h.id()),
            Dependency::Complex { path, version, workspace, features } => {
                &&& match path {
                    Some(h) => pool.live(h.id()),
                    None => true,
                }
                &&& match version {
                    Some(h) => pool.live(h.id()),
                    None => true,
                }
                &&& forall|i: int|
                    0 <= i < features@.len() ==> pool.live((#[trigger] features@[i]).id())
            },
        }
    }

    /// This dependency's content, read through `pool`.
    pub open spec fn view_in(self, pool: StringPool) -> SpecDependency {
        match self {
            Dependency::Simple(h) => SpecDependency::Simple(pool.content(h.id())),
            Dependency::Complex { path, version, workspace, features } => SpecDependency::Complex(
                SpecDependencyFields {
                    path: match path {
                        Some(h) => Some(pool.content(h.id())),
                        None => None,
                    },
                    version: match version {
                        Some(h) => Some(pool.content(h.id())),
                        None => None,
                    },
                    workspace,
                    features: features@.map_values(|h: StrReference| pool.content(h.id())),
                },
            ),
        }
    }

    /// Whether this dependency must be satisfied by a sibling workspace
    /// member.
    pub open spec fn spec_is_workspace(self) -> bool {
        match self {
            Dependency::Simple(_) => false,
            Dependency::Complex { workspace, .. } => workspace,
        }
    }

    /// True when this dependency must be satisfied by a sibling workspace
    /// member.
    pub fn is_workspace(&self) -> (r: bool)
        ensures
            r == self.spec_is_workspace(),
    {
        match self {
            Dependency::Simple(_) => false,
            Dependency::Complex { workspace, .. } => *workspace,
        }
    }
}

impl ManifestKind {
    /// All handles of this shape are live in `pool`.
    pub open spec fn wf_in(self, pool: StringPool) -> bool {
        match self {
            ManifestKind::Package(p) => pool.live(p.name.id()),
            ManifestKind::Workspace(w) => forall|i: int|
                0 <= i < w.members@.len() ==> pool.live((#[trigger] w.members@[i]).id()),
        }
    }

    /// This shape's content, read through `pool`.
    pub open spec fn view_in(self, pool: StringPool) -> SpecManifestKind {
        match self {
            ManifestKind::Package(p) => SpecManifestKind::Package(
                SpecPackageManifest {
                    name: pool.content(p.name.id()),
                    output: p.output,
                    lto: p.lto,
                },
            ),
            ManifestKind::Workspace(w) => SpecManifestKind::Workspace(
                SpecWorkspaceManifest {
                    members: w.members@.map_values(|h: StrReference| pool.content(h.id())),
                },
            ),
        }
    }
}

impl Manifest {
    /// All handles of this manifest are live in `pool`.
    pub open spec fn wf_in(self, pool: StringPool) -> bool {
        &&& self.kind.wf_in(pool)
        &&& forall|i: int|
            0 <= i < self.dependencies@.len() ==> pool.live(
                (#[trigger] self.dependencies@[i]).0.id(),
            ) && self.dependencies@[i].1.wf_in(pool)
    }

    /// This manifest's content, read through `pool`.
    pub open spec fn view_in(self, pool: StringPool) -> SpecManifest {
        SpecManifest {
            kind: self.kind.view_in(pool),
            dependencies: self.dependencies@.map_values(
                |p: (StrReference, Dependency)| (pool.content(p.0.id()), p.1.view_in(pool)),
            ),
        }
    }
}

/// A dependency keeps its liveness and its content when the pool only
/// grows.
pub proof fn lemma_dep_preserved(d: Dependency, pre: StringPool, post: StringPool)
    requires
        d.wf_in(pre),
        pool_preserves(pre, post),
    ensures
        d.wf_in(post),
        d.view_in(post) == d.view_in(pre),
{
    match d {
        Dependency::Simple(_) => {
        },
        Dependency::Complex { path, version, workspace, features } => {
            assert(features@.map_values(|h: StrReference| post.content(h.id())) =~= features@
                .map_values(|h: StrReference| pre.content(h.id())));
        },
    }
}

/// A manifest shape keeps its liveness and its content when the pool only
/// grows.
pub proof fn lemma_kind_preserved(k: ManifestKind, pre: StringPool, post: StringPool)
    requires
        k.wf_in(pre),
        pool_preserves(pre, post),
    ensures
        k.wf_in(post),
        k.view_in(post) == k.view_in(pre),
{
    match k {
        ManifestKind::Package(_) => {
        },
        ManifestKind::Workspace(w) => {
            assert(w.members@.map_values(|h: StrReference| post.content(h.id())) =~= w.members@
                .map_values(|h: StrReference| pre.content(h.id())));
        },
    }
}

/// The slot an optional handle names, if any.
pub open spec fn opt_id(r: Option<StrReference>) -> Seq<int> {
    match r {
        Some(h) => seq![h.id()],
        None => Seq::empty(),
    }
}

/// The slots a vector of handles names, in order.
pub open spec fn ref_ids(rs: Seq<StrReference>) -> Seq<int> {
    rs.map_values(|h: StrReference| h.id())
}

impl Dependency {
    /// The slots this dependency's handles name.
    pub open spec fn ids(self) -> Seq<int> {
        match self {
            Dependency::Simple(h) => seq![h.id()],
            Dependency::Complex { path, version, workspace, features } => opt_id(path) + opt_id(
                version,
            ) + ref_ids(features@),
        }
    }
}

/// The slots a dependency list's handles name, names included.
pub open spec fn dep_list_ids(ds: Seq<(StrReference, Dependency)>) -> Seq<int>
    decreases ds.len(),
{
    if ds.len() == 0 {
        Seq::empty()
    } else {
        seq![ds[0].0.id()] + ds[0].1.ids() + dep_list_ids(ds.drop_first())
    }
}

impl ManifestKind {
    /// The slots this shape's handles name.
    pub open spec fn ids(self) -> Seq<int> {
        match self {
            ManifestKind::Package(p) => seq![p.name.id()],
            ManifestKind::Workspace(w) => ref_ids(w.members@),
        }
    }
}

impl Manifest {
    /// The slots this manifest's handles name.
    pub open spec fn ids(self) -> Seq<int> {
        self.kind.ids() + dep_list_ids(self.dependencies@)
    }
}

/// How many claims a dependency's handles hold.
pub open spec fn dep_claims(d: Dependency) -> nat {
    match d {
        Dependency::Simple(_) => 1,
        Dependency::Complex { path, version, workspace, features } => (if path is Some {
            1nat
        } else {
            0nat
        }) + (if version is Some {
            1nat
        } else {
            0nat
        }) + features@.len(),
    }
}

/// How many claims a dependency list's handles hold, names included.
pub open spec fn dep_list_claims(ds: Seq<(StrReference, Dependency)>) -> nat
    decreases ds.len(),
{
    if ds.len() == 0 {
        0
    } else {
        1 + dep_claims(ds[0].1) + dep_list_claims(ds.drop_first())
    }
}

/// How many interner claims one validated dependency takes.
pub open spec fn raw_dep_weight(d: RawDependency) -> nat {
    match d {
        RawDependency::Simple(_) => 1,
        RawDependency::Complex { path, version, workspace, features } => (if path is Some {
            1nat
        } else {
            0nat
        }) + (if version is Some {
            1nat
        } else {
            0nat
        }) + features@.len(),
    }
}

/// How many interner claims a validated dependency table takes.
pub open spec fn raw_deps_weight(ds: Seq<(String, RawDependency)>) -> nat
    decreases ds.len(),
{
    if ds.len() == 0 {
        0
    } else {
        1 + raw_dep_weight(ds[0].1) + raw_deps_weight(ds.drop_first())
    }
}

/// How many interner claims a validated manifest shape takes.
pub open spec fn raw_kind_weight(k: RawManifestKind) -> nat {
    match k {
        RawManifestKind::Package { .. } => 1,
        RawManifestKind::Workspace { members } => members@.len(),
    }
}

/// How many interner claims interning a validated manifest takes.
pub open spec fn raw_manifest_weight(m: RawManifest) -> nat {
    raw_kind_weight(m.kind) + raw_deps_weight(m.dependencies@)
}

/// How many interner claims one parsed dependency took.
pub open spec fn spec_dep_weight(d: SpecDependency) -> nat {
    match d {
        SpecDependency::Simple(_) => 1,
        SpecDependency::Complex(f) => (if f.path is Some {
            1nat
        } else {
            0nat
        }) + (if f.version is Some {
            1nat
        } else {
            0nat
        }) + f.features.len(),
    }
}

/// How many interner claims a parsed dependency table took.
pub open spec fn spec_deps_weight(ds: Seq<(Seq<char>, SpecDependency)>) -> nat
    decreases ds.len(),
{
    if ds.len() == 0 {
        0
    } else {
        1 + spec_dep_weight(ds[0].1) + spec_deps_weight(ds.drop_first())
    }
}

/// How many interner claims a parsed manifest took.
pub open spec fn spec_manifest_weight(m: SpecManifest) -> nat {
    (match m.kind {
        SpecManifestKind::Package(_) => 1nat,
        SpecManifestKind::Workspace(w) => w.members.len(),
    }) + spec_deps_weight(m.dependencies)
}

/// The claims a validated manifest takes are the claims its parsed
/// content shows.
proof fn lemma_weights_agree(m: RawManifest)
    ensures
        spec_manifest_weight(m@) == raw_manifest_weight(m),
{
    lemma_deps_weights_agree(m.dependencies@);
    match &m.kind {
        RawManifestKind::Package { .. } => {},
        RawManifestKind::Workspace { members } => {
            assert(members@.map_values(|s: String| s@).len() == members@.len());
        },
    }
}

proof fn lemma_deps_weights_agree(ds: Seq<(String, RawDependency)>)
    ensures
        spec_deps_weight(ds.map_values(|p: (String, RawDependency)| (p.0@, p.1@)))
            == raw_deps_weight(ds),
    decreases ds.len(),
{
    let mapped = ds.map_values(|p: (String, RawDependency)| (p.0@, p.1@));
    if ds.len() > 0 {
        lemma_deps_weights_agree(ds.drop_first());
        assert(mapped.drop_first() =~= ds.drop_first().map_values(
            |p: (String, RawDependency)| (p.0@, p.1@),
        ));
        assert(spec_dep_weight(ds[0].1@) == raw_dep_weight(ds[0].1)) by {
            match &ds[0].1 {
                RawDependency::Simple(_) => {},
                RawDependency::Complex { path, version, workspace, features } => {
                    assert(features@.map_values(|s: String| s@).len() == features@.len());
                },
            }
        }
    } else {
        assert(mapped.len() == 0);
    }
}

/// Releases every handle of a vector.
fn release_refs(pool: &mut StringPool, refs: Vec<StrReference>)
    requires
        old(pool).wf(),
    ensures
        final(pool).wf(),
        release_post(*old(pool), *final(pool), ref_ids(refs@)),
{
    let ghost entry = *pool;
    let ghost refs0 = refs@;
    let mut refs = refs;
    proof {
        lemma_release_post_refl(*pool);
        assert(ref_ids(refs0).skip(refs0.len() as int) =~= Seq::<int>::empty());
    }
    while refs.len() > 0
        invariant
            pool.wf(),
            refs@.len() <= refs0.len(),
            refs@ =~= refs0.take(refs@.len() as int),
            release_post(entry, *pool, ref_ids(refs0).skip(refs@.len() as int)),
        decreases refs@.len(),
    {
        let ghost m = refs@.len() as int;
        let ghost cur = *pool;
        match refs.pop() {
            Some(h) => {
                proof {
                    assert(refs0.take(m).len() == m);
                    assert(refs0.take(m)[m - 1] == refs0[m - 1]);
                    assert(h == refs0[m - 1]);
                    assert(refs@ =~= refs0.take(m - 1));
                }
                let ghost hid = h.id();
                pool.release(h);
                proof {
                    lemma_release_post_single(cur, *pool, hid);
                    lemma_release_post_trans(
                        entry,
                        cur,
                        *pool,
                        ref_ids(refs0).skip(m),
                        seq![hid],
                    );
                    assert forall|i: int|
                        occurrences(ref_ids(refs0).skip(m) + seq![hid], i) == occurrences(
                            ref_ids(refs0).skip(m - 1),
                            i,
                        ) by {
                        lemma_occurrences_concat(ref_ids(refs0).skip(m), seq![hid], i);
                        lemma_occurrences_concat(seq![hid], ref_ids(refs0).skip(m), i);
                        assert(ref_ids(refs0).skip(m - 1) =~= seq![hid] + ref_ids(refs0).skip(m));
                    }
                    lemma_release_post_occ(
                        entry,
                        *pool,
                        ref_ids(refs0).skip(m) + seq![hid],
                        ref_ids(refs0).skip(m - 1),
                    );
                }
            },
            None => {
            },
        }
    }
    proof {
        assert(ref_ids(refs0).skip(0) =~= ref_ids(refs0));
    }
}

/// Releases the handle of an optional reference.
fn release_opt(pool: &mut StringPool, r: Option<StrReference>)
    requires
        old(pool).wf(),
    ensures
        final(pool).wf(),
        release_post(*old(pool), *final(pool), opt_id(r)),
{
    let ghost entry = *pool;
    match r {
        Some(h) => {
            let ghost hid = h.id();
            pool.release(h);
            proof {
                lemma_release_post_single(entry, *pool, hid);
            }
        },
        None => {
            proof {
                lemma_release_post_refl(*pool);
            }
        },
    }
}

/// Releases every handle of a dependency.
fn release_dependency(pool: &mut StringPool, d: Dependency)
    requires
        old(pool).wf(),
    ensures
        final(pool).wf(),
        release_post(*old(pool), *final(pool), d.ids()),
{
    let ghost entry = *pool;
    match d {
        Dependency::Simple(h) => {
            let ghost hid = h.id();
            pool.release(h);
            proof {
                lemma_release_post_single(entry, *pool, hid);
            }
        },
        Dependency::Complex { path, version, workspace: _, features } => {
            let ghost pid = opt_id(path);
            let ghost vid = opt_id(version);
            let ghost fid = ref_ids(features@);
            release_opt(pool, path);
            let ghost p1 = *pool;
            release_opt(pool, version);
            let ghost p2 = *pool;
            release_refs(pool, features);
            proof {
                lemma_release_post_trans(entry, p1, p2, pid, vid);
                lemma_release_post_trans(entry, p2, *pool, pid + vid, fid);
            }
        },
    }
}

/// Releases every handle of a manifest shape.
fn release_kind(pool: &mut StringPool, k: ManifestKind)
    requires
        old(pool).wf(),
    ensures
        final(pool).wf(),
        release_post(*old(pool), *final(pool), k.ids()),
{
    let ghost entry = *pool;
    match k {
        ManifestKind::Package(p) => {
            let ghost hid = p.name.id();
            pool.release(p.name);
            proof {
                lemma_release_post_single(entry, *pool, hid);
            }
        },
        ManifestKind::Workspace(w) => release_refs(pool, w.members),
    }
}

/// The slots a suffix of a dependency list names.
proof fn lemma_dep_list_ids_skip(ds: Seq<(StrReference, Dependency)>, m: int)
    requires
        0 < m <= ds.len(),
    ensures
        forall|i: int|
            #[trigger] occurrences(dep_list_ids(ds.skip(m - 1)), i) == occurrences(
                seq![ds[m - 1].0.id()] + ds[m - 1].1.ids() + dep_list_ids(ds.skip(m)),
                i,
            ),
{
    assert(ds.skip(m - 1)[0] == ds[m - 1]);
    assert(ds.skip(m - 1).drop_first() =~= ds.skip(m));
}

/// Releases every handle of a dependency list.
fn release_deps(pool: &mut StringPool, deps: Vec<(StrReference, Dependency)>)
    requires
        old(pool).wf(),
    ensures
        final(pool).wf(),
        release_post(*old(pool), *final(pool), dep_list_ids(deps@)),
{
    let ghost entry = *pool;
    let ghost deps0 = deps@;
    let mut deps = deps;
    proof {
        lemma_release_post_refl(*pool);
        assert(deps0.skip(deps0.len() as int) =~= Seq::<(StrReference, Dependency)>::empty());
    }
    while deps.len() > 0
        invariant
            pool.wf(),
            deps@.len() <= deps0.len(),
            deps@ =~= deps0.take(deps@.len() as int),
            release_post(entry, *pool, dep_list_ids(deps0.skip(deps@.len() as int))),
        decreases deps@.len(),
    {
        let ghost m = deps@.len() as int;
        let ghost cur = *pool;
        match deps.pop() {
            Some((name, d)) => {
                proof {
                    assert(deps0.take(m).len() == m);
                    assert(deps0.take(m)[m - 1] == deps0[m - 1]);
                    assert((name, d) == deps0[m - 1]);
                    assert(deps@ =~= deps0.take(m - 1));
                }
                let ghost nid = name.id();
                let ghost did = d.ids();
                pool.release(name);
                let ghost p1 = *pool;
                release_dependency(pool, d);
                proof {
                    lemma_release_post_single(cur, p1, nid);
                    lemma_release_post_trans(
                        entry,
                        cur,
                        p1,
                        dep_list_ids(deps0.skip(m)),
                        seq![nid],
                    );
                    lemma_release_post_trans(
                        entry,
                        p1,
                        *pool,
                        dep_list_ids(deps0.skip(m)) + seq![nid],
                        did,
                    );
                    lemma_dep_list_ids_skip(deps0, m);
                    assert forall|i: int|
                        occurrences(dep_list_ids(deps0.skip(m)) + seq![nid] + did, i)
                            == occurrences(dep_list_ids(deps0.skip(m - 1)), i) by {
                        lemma_occurrences_concat(
                            dep_list_ids(deps0.skip(m)) + seq![nid],
                            did,
                            i,
                        );
                        lemma_occurrences_concat(dep_list_ids(deps0.skip(m)), seq![nid], i);
                        lemma_occurrences_concat(
                            seq![nid] + did,
                            dep_list_ids(deps0.skip(m)),
                            i,
                        );
                        lemma_occurrences_concat(seq![nid], did, i);
                        assert(seq![deps0[m - 1].0.id()] + deps0[m - 1].1.ids() + dep_list_ids(
                            deps0.skip(m),
                        ) =~= (seq![nid] + did) + dep_list_ids(deps0.skip(m)));
                    }
                    lemma_release_post_occ(
                        entry,
                        *pool,
                        dep_list_ids(deps0.skip(m)) + seq![nid] + did,
                        dep_list_ids(deps0.skip(m - 1)),
                    );
                }
            },
            None => {
            },
        }
    }
    proof {
        assert(deps0.skip(0) =~= deps0);
    }
}

impl WorkspaceManifest {
    /// Releases every member handle: each loses exactly one claim.
    pub fn release(self, pool: &mut StringPool)
        requires
            old(pool).wf(),
        ensures
            final(pool).wf(),
            release_post(*old(pool), *final(pool), ref_ids(self.members@)),
    {
        release_refs(pool, self.members)
    }
}

impl Manifest {
    /// Releases every handle this manifest holds: each loses exactly one
    /// claim, and slots whose last claim goes are freed.
    pub fn release(self, pool: &mut StringPool)
        requires
            old(pool).wf(),
        ensures
            final(pool).wf(),
            release_post(*old(pool), *final(pool), self.ids()),
    {
        let ghost entry = *pool;
        let ghost kid = self.kind.ids();
        let ghost did = dep_list_ids(self.dependencies@);
        let Manifest { kind, dependencies } = self;
        release_kind(pool, kind);
        let ghost p1 = *pool;
        release_deps(pool, dependencies);
        proof {
            lemma_release_post_trans(entry, p1, *pool, kid, did);
        }
    }
}

/// Releases every handle of a dependency list: names and field handles
/// each lose exactly one claim.
pub fn release_dep_list(pool: &mut StringPool, deps: Vec<(StrReference, Dependency)>)
    requires
        old(pool).wf(),
    ensures
        final(pool).wf(),
        release_post(*old(pool), *final(pool), dep_list_ids(deps@)),
{
    release_deps(pool, deps)
}

/// Interns one string.
fn intern_string(pool: &mut StringPool, s: String) -> (r: Result<StrReference, ManifestError>)
    requires
        old(pool).wf(),
    ensures
        final(pool).wf(),
        pool_preserves(*old(pool), *final(pool)),
        match r {
            Ok(h) => final(pool).live(h.id()) && final(pool).content(h.id()) == s@
                && pool_grows_at_most(*old(pool), *final(pool), 1),
            Err(e) => e is Intern && *final(pool) == *old(pool) && pool_near_limit(*old(pool), 1),
        },
{
    let ghost sv = s@;
    match pool.acquire(s) {
        Ok(h) => {
            proof {
                lemma_acquire_grows(*old(pool), *pool, sv, h);
            }
            Ok(h)
        },
        Err(_) => Err(ManifestError::Intern),
    }
}

/// Interns an optional string.
fn intern_opt(pool: &mut StringPool, s: Option<String>) -> (r: Result<
    Option<StrReference>,
    ManifestError,
>)
    requires
        old(pool).wf(),
    ensures
        final(pool).wf(),
        pool_preserves(*old(pool), *final(pool)),
        match r {
            Ok(h) => match h {
                Some(h) => s is Some && final(pool).live(h.id()) && final(pool).content(h.id())
                    == s->Some_0@ && pool_grows_at_most(*old(pool), *final(pool), 1),
                None => s is None && *final(pool) == *old(pool),
            },
            Err(e) => e is Intern && s is Some && *final(pool) == *old(pool) && pool_near_limit(
                *old(pool),
                1,
            ),
        },
{
    match s {
        Some(s) => match intern_string(pool, s) {
            Ok(h) => Ok(Some(h)),
            Err(e) => Err(e),
        },
        None => Ok(None),
    }
}

/// Interns every string of a list, in order.
fn intern_list(pool: &mut StringPool, items: Vec<String>) -> (r: Result<
    Vec<StrReference>,
    ManifestError,
>)
    requires
        old(pool).wf(),
    ensures
        final(pool).wf(),
        match r {
            Ok(hs) => {
                &&& pool_preserves(*old(pool), *final(pool))
                &&& pool_grows_at_most(*old(pool), *final(pool), items@.len())
                &&& hs@.len() == items@.len()
                &&& forall|i: int|
                    0 <= i < hs@.len() ==> final(pool).live((#[trigger] hs@[i]).id())
                        && final(pool).content(hs@[i].id()) == items@[i]@
            },
            Err(e) => e is Intern && pool_near_limit(*old(pool), items@.len()),
        },
{
    let ghost entry = *pool;
    let mut hs: Vec<StrReference> = Vec::new();
    let mut i: usize = 0;
    while i < items.len()
        invariant
            entry == *old(pool),
            pool.wf(),
            pool_preserves(entry, *pool),
            pool_grows_at_most(entry, *pool, i as nat),
            i <= items@.len(),
            hs@.len() == i,
            forall|j: int|
                0 <= j < i ==> pool.live((#[trigger] hs@[j]).id()) && pool.content(hs@[j].id())
                    == items@[j]@,
        decreases items@.len() - i,
    {
        let ghost before = *pool;
        match intern_string(pool, items[i].clone()) {
            Ok(h) => {
                proof {
                    lemma_grows_trans(entry, before, *pool, i as nat, 1);
                    assert forall|j: int| 0 <= j < i implies pool.live((#[trigger] hs@[j]).id())
                        && pool.content(hs@[j].id()) == items@[j]@ by {
                        assert(before.live(hs@[j].id()));
                    }
                }
                hs.push(h);
            },
            Err(e) => {
                proof {
                    lemma_near_limit_lift(entry, before, i as nat, 1);
                    lemma_near_limit_mono(entry, (i + 1) as nat, items@.len());
                }
                release_refs(pool, hs);
                return Err(e);
            },
        }
        i += 1;
    }
    Ok(hs)
}

/// Interns a validated dependency.
fn intern_dependency(pool: &mut StringPool, raw: RawDependency) -> (r: Result<
    Dependency,
    ManifestError,
>)
    requires
        old(pool).wf(),
    ensures
        final(pool).wf(),
        match r {
            Ok(d) => pool_preserves(*old(pool), *final(pool)) && pool_grows_at_most(
                *old(pool),
                *final(pool),
                raw_dep_weight(raw),
            ) && d.wf_in(*final(pool)) && d.view_in(*final(pool)) == raw@,
            Err(e) => e is Intern && pool_near_limit(*old(pool), raw_dep_weight(raw)),
        },
{
    match raw {
        RawDependency::Simple(s) => match intern_string(pool, s) {
            Ok(h) => Ok(Dependency::Simple(h)),
            Err(e) => Err(e),
        },
        RawDependency::Complex { path, version, workspace, features } => {
            let ghost raw_path = path;
            let ghost raw_version = version;
            let ghost raw_features = features@;
            let ghost w = raw_dep_weight(raw);
            let path = match intern_opt(pool, path) {
                Ok(h) => h,
                Err(e) => {
                    proof {
                        lemma_near_limit_mono(*old(pool), 1, w);
                    }
                    return Err(e);
                },
            };
            let ghost p1 = *pool;
            let version = match intern_opt(pool, version) {
                Ok(h) => h,
                Err(e) => {
                    proof {
                        let pw: nat = if raw_path is Some {
                            1
                        } else {
                            0
                        };
                        lemma_near_limit_lift(*old(pool), p1, pw, 1);
                        lemma_near_limit_mono(*old(pool), (pw + 1) as nat, w);
                    }
                    release_opt(pool, path);
                    return Err(e);
                },
            };
            let ghost p2 = *pool;
            let features = match intern_list(pool, features) {
                Ok(hs) => hs,
                Err(e) => {
                    proof {
                        let pw: nat = if raw_path is Some {
                            1
                        } else {
                            0
                        };
                        let vw: nat = if raw_version is Some {
                            1
                        } else {
                            0
                        };
                        lemma_grows_trans(*old(pool), p1, p2, pw, vw);
                        lemma_near_limit_lift(*old(pool), p2, (pw + vw) as nat, raw_features.len());
                        lemma_near_limit_mono(
                            *old(pool),
                            (pw + vw + raw_features.len()) as nat,
                            w,
                        );
                    }
                    release_opt(pool, path);
                    release_opt(pool, version);
                    return Err(e);
                },
            };
            proof {
                let pw: nat = if raw_path is Some {
                    1
                } else {
                    0
                };
                let vw: nat = if raw_version is Some {
                    1
                } else {
                    0
                };
                lemma_grows_trans(*old(pool), p1, p2, pw, vw);
                lemma_grows_trans(*old(pool), p2, *pool, (pw + vw) as nat, raw_features.len());
                assert(pool_grows_at_most(*old(pool), *pool, w));
                match &path {
                    Some(h) => {
                        assert(p1.live(h.id()) && p2.live(h.id()));
                        assert(pool.live(h.id()) && pool.content(h.id()) == raw_path->Some_0@);
                    },
                    None => {},
                }
                match &version {
                    Some(h) => {
                        assert(p2.live(h.id()));
                        assert(pool.live(h.id()) && pool.content(h.id()) == raw_version->Some_0@);
                    },
                    None => {},
                }
                assert(features@.map_values(|h: StrReference| pool.content(h.id())) =~= raw_features
                    .map_values(|s: String| s@));
            }
            Ok(Dependency::Complex { path, version, workspace, features })
        },
    }
}

/// Interns a validated manifest shape.
fn intern_kind(pool: &mut StringPool, raw: RawManifestKind) -> (r: Result<
    ManifestKind,
    ManifestError,
>)
    requires
        old(pool).wf(),
    ensures
        final(pool).wf(),
        match r {
            Ok(k) => pool_preserves(*old(pool), *final(pool)) && pool_grows_at_most(
                *old(pool),
                *final(pool),
                raw_kind_weight(raw),
            ) && k.wf_in(*final(pool)) && match raw {
                RawManifestKind::Package { name, output, lto } => k.view_in(*final(pool))
                    == SpecManifestKind::Package(
                    SpecPackageManifest { name: name@, output, lto },
                ),
                RawManifestKind::Workspace { members } => k.view_in(*final(pool))
                    == SpecManifestKind::Workspace(
                    SpecWorkspaceManifest { members: members@.map_values(|s: String| s@) },
                ),
            },
            Err(e) => e is Intern && pool_near_limit(*old(pool), raw_kind_weight(raw)),
        },
{
    match raw {
        RawManifestKind::Package { name, output, lto } => match intern_string(pool, name) {
            Ok(h) => Ok(ManifestKind::Package(PackageManifest { name: h, output, lto })),
            Err(e) => Err(e),
        },
        RawManifestKind::Workspace { members } => {
            let ghost raw_members = members@;
            match intern_list(pool, members) {
                Ok(hs) => {
                    proof {
                        assert(hs@.map_values(|h: StrReference| pool.content(h.id()))
                            =~= raw_members.map_values(|s: String| s@));
                    }
                    Ok(ManifestKind::Workspace(WorkspaceManifest { members: hs }))
                },
                Err(e) => Err(e),
            }
        },
    }
}

/// Interns a validated manifest, so that its content through the pool is
/// exactly what validation produced.
pub fn intern_manifest(pool: &mut StringPool, raw: RawManifest) -> (r: Result<
    Manifest,
    ManifestError,
>)
    requires
        old(pool).wf(),
    ensures
        final(pool).wf(),
        match r {
            Ok(m) => pool_preserves(*old(pool), *final(pool)) && m.wf_in(*final(pool))
                && m.view_in(*final(pool)) == raw@,
            Err(e) => e is Intern && pool_near_limit(*old(pool), raw_manifest_weight(raw)),
        },
{
    let ghost raw_g = raw;
    let ghost entry = *pool;
    let RawManifest { kind: raw_kind, dependencies: raw_deps } = raw;
    let ghost raw_kind_g = raw_kind;
    let ghost raw_deps_g = raw_deps@;
    let ghost kw = raw_kind_weight(raw_kind_g);
    let kind = match intern_kind(pool, raw_kind) {
        Ok(k) => k,
        Err(e) => {
            proof {
                lemma_near_limit_mono(*old(pool), kw, raw_manifest_weight(raw_g));
            }
            return Err(e);
        },
    };
    let ghost p_kind = *pool;
    let mut deps: Vec<(StrReference, Dependency)> = Vec::new();
    let mut raw_deps = raw_deps;
    let mut i: usize = 0;
    let ghost mut used: nat = 0;
    let n = raw_deps.len();
    while i < n
        invariant
            raw_g == raw,
            entry == *old(pool),
            kw == raw_kind_weight(raw_kind_g),
            raw_manifest_weight(raw_g) == kw + raw_deps_weight(raw_deps_g),
            used + raw_deps_weight(raw_deps@) == raw_deps_weight(raw_deps_g),
            pool_grows_at_most(*old(pool), *pool, (kw + used) as nat),
            pool.wf(),
            pool_preserves(p_kind, *pool),
            kind.wf_in(*pool),
            kind.view_in(*pool) == kind.view_in(p_kind),
            n == raw_deps_g.len(),
            i <= n,
            deps@.len() == i,
            forall|j: int|
                0 <= j < i ==> pool.live((#[trigger] deps@[j]).0.id()) && pool.content(
                    deps@[j].0.id(),
                ) == raw_deps_g[j].0@ && deps@[j].1.wf_in(*pool) && deps@[j].1.view_in(*pool)
                    == raw_deps_g[j].1@,
            raw_deps@ =~= raw_deps_g.skip(i as int),
        decreases n - i,
    {
        let ghost top = *pool;
        let ghost remaining0 = raw_deps@;
        let (raw_name, raw_dep) = raw_deps.remove(0);
        proof {
            assert(raw_deps_g.skip(i as int)[0] == raw_deps_g[i as int]);
            assert(raw_deps@ =~= raw_deps_g.skip(i as int + 1));
            assert(remaining0.drop_first() =~= raw_deps@);
            assert(raw_deps_weight(remaining0) == 1 + raw_dep_weight(remaining0[0].1)
                + raw_deps_weight(raw_deps@));
        }
        let ghost raw_dep_g = raw_dep;
        let ghost dw = raw_dep_weight(raw_dep_g);
        let name_h = match intern_string(pool, raw_name) {
            Ok(h) => h,
            Err(e) => {
                proof {
                    lemma_near_limit_lift(*old(pool), top, (kw + used) as nat, 1);
                    lemma_near_limit_mono(
                        *old(pool),
                        (kw + used + 1) as nat,
                        raw_manifest_weight(raw_g),
                    );
                }
                release_deps(pool, deps);
                release_kind(pool, kind);
                return Err(e);
            },
        };
        let ghost p_name = *pool;
        let dep = match intern_dependency(pool, raw_dep) {
            Ok(d) => d,
            Err(e) => {
                proof {
                    lemma_grows_trans(*old(pool), top, p_name, (kw + used) as nat, 1);
                    lemma_near_limit_lift(*old(pool), p_name, (kw + used + 1) as nat, dw);
                    lemma_near_limit_mono(
                        *old(pool),
                        (kw + used + 1 + dw) as nat,
                        raw_manifest_weight(raw_g),
                    );
                }
                pool.release(name_h);
                release_deps(pool, deps);
                release_kind(pool, kind);
                return Err(e);
            },
        };
        proof {
            lemma_grows_trans(*old(pool), top, p_name, (kw + used) as nat, 1);
            lemma_grows_trans(*old(pool), p_name, *pool, (kw + used + 1) as nat, dw);
            used = (used + 1 + dw) as nat;
            crate::interner::lemma_pool_preserves_trans(top, p_name, *pool);
            crate::interner::lemma_pool_preserves_trans(p_kind, top, *pool);
            lemma_kind_preserved(kind, top, *pool);
            assert forall|j: int| 0 <= j < i implies pool.live((#[trigger] deps@[j]).0.id())
                && pool.content(deps@[j].0.id()) == raw_deps_g[j].0@ && deps@[j].1.wf_in(*pool)
                && deps@[j].1.view_in(*pool) == raw_deps_g[j].1@ by {
                assert(top.live(deps@[j].0.id()));
                lemma_dep_preserved(deps@[j].1, top, *pool);
            }
            assert(p_name.live(name_h.id()));
            assert(pool.live(name_h.id()) && pool.content(name_h.id()) == raw_deps_g[i as int].0@);
        }
        deps.push((name_h, dep));
        i += 1;
    }
    let m = Manifest { kind, dependencies: deps };
    proof {
        crate::interner::lemma_pool_preserves_trans(entry, p_kind, *pool);
        assert(m.view_in(*pool).dependencies =~= raw_g@.dependencies) by {
            assert forall|j: int| 0 <= j < m.dependencies@.len() implies (pool.content(
                (#[trigger] m.dependencies@[j]).0.id(),
            ), m.dependencies@[j].1.view_in(*pool)) == (raw_deps_g[j].0@, raw_deps_g[j].1@) by {}
        }
        assert(m.view_in(*pool) == raw_g@);
    }
    Ok(m)
}

/// Loads a manifest from the text of a declaration file: the text is
/// parsed as TOML, held to the manifest schema, and its strings interned
/// in `pool`. On a malformed document the pool is left untouched.
pub fn parse_manifest(pool: &mut StringPool, text: &str) -> (r: Result<Manifest, ManifestError>)
    requires
        old(pool).wf(),
    ensures
        final(pool).wf(),
        match r {
            Ok(m) => {
                &&& pool_preserves(*old(pool), *final(pool))
                &&& m.wf_in(*final(pool))
                &&& parsed_toml(text@) is Some
                &&& parse_manifest_spec(parsed_toml(text@)->Some_0) == Some(
                    m.view_in(*final(pool)),
                )
            },
            Err(e) => match e {
                ManifestError::Toml(_) => *final(pool) == *old(pool) && (parsed_toml(
                    text@,
                ) is None || parse_manifest_spec(parsed_toml(text@)->Some_0) is None),
                ManifestError::Intern => {
                    &&& parsed_toml(text@) is Some
                    &&& parse_manifest_spec(parsed_toml(text@)->Some_0) is Some
                    &&& pool_near_limit(
                        *old(pool),
                        spec_manifest_weight(
                            parse_manifest_spec(parsed_toml(text@)->Some_0)->Some_0,
                        ),
                    )
                },
                ManifestError::Io(_) => false,
            },
        },
{
    let doc = match parse_toml_text(text) {
        Ok(d) => d,
        Err(msg) => {
            return Err(ManifestError::Toml(msg));
        },
    };
    let raw = match validate_manifest(&doc) {
        Ok(r) => r,
        Err(e) => {
            return Err(e);
        },
    };
    proof {
        lemma_weights_agree(raw);
    }
    intern_manifest(pool, raw)
}

} // verus!
