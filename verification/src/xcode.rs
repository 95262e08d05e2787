//! Xcode projects and the property lists that describe what they build.

use crate::expand::{expand_xcodevars, expanded, law_plain_text_kept, law_variable};
use crate::paths::{parent, parent_of};
use crate::text::same_text;
use crate::vars::BuildVars;
use std::path::{Path, PathBuf};
use vstd::prelude::*;

verus! {

/// The lower case of a text, as `str::to_lowercase` gives it.
pub uninterp spec fn lowercase(s: Seq<char>) -> Seq<char>;

/// The lower case of an ASCII character.
pub open spec fn ascii_lowercase(c: char) -> char {
    if 'A' <= c <= 'Z' {
        ((c as u32) + 32) as char
    } else {
        c
    }
}

/// `str::to_lowercase`. Of an ASCII text, the letters `A` to `Z` become `a` to `z` and
/// the rest stays; what becomes of other characters is left to Unicode's mapping.
pub assume_specification[ str::to_lowercase ](s: &str) -> (lower: String)
    ensures
        lower@ == lowercase(s@),
        vstd::utf8::is_ascii_chars(s@) ==> lower@ == s@.map_values(|c: char| ascii_lowercase(c)),
;

/// What an `Info.plist` says about a bundle.
#[derive(Debug)]
pub struct InfoPlist {
    name: String,
    bundle_id: String,
    version: String,
    build: String,
}

/// An `InfoPlist` as the texts of its entries.
pub struct PlistView {
    /// `CFBundleName`.
    pub name: Seq<char>,
    /// `CFBundleIdentifier`.
    pub bundle_id: Seq<char>,
    /// `CFBundleShortVersionString`.
    pub version: Seq<char>,
    /// `CFBundleVersion`.
    pub build: Seq<char>,
}

impl View for InfoPlist {
    type V = PlistView;

    closed spec fn view(&self) -> PlistView {
        PlistView {
            name: self.name@,
            bundle_id: self.bundle_id@,
            version: self.version@,
            build: self.build@,
        }
    }
}

impl PlistView {
    /// The property list with its references to variables replaced by their values.
    pub open spec fn expanded(self, vars: Map<Seq<char>, Seq<char>>) -> PlistView {
        PlistView {
            name: expanded(self.name, vars),
            bundle_id: expanded(self.bundle_id, vars),
            version: expanded(self.version, vars),
            build: expanded(self.build, vars),
        }
    }
}

/// A variable that a property list cannot be made without.
#[derive(Debug, Clone, Copy, PartialEq, Eq, Structural)]
pub enum MissingVar {
    /// `PRODUCT_NAME`.
    ProductName,
    /// `PRODUCT_BUNDLE_IDENTIFIER`.
    BundleIdentifier,
    /// `MARKETING_VERSION`.
    MarketingVersion,
    /// `CURRENT_PROJECT_VERSION`.
    ProjectVersion,
}

impl MissingVar {
    /// The name of the variable.
    pub open spec fn var(self) -> Seq<char> {
        match self {
            MissingVar::ProductName => "PRODUCT_NAME"@,
            MissingVar::BundleIdentifier => "PRODUCT_BUNDLE_IDENTIFIER"@,
            MissingVar::MarketingVersion => "MARKETING_VERSION"@,
            MissingVar::ProjectVersion => "CURRENT_PROJECT_VERSION"@,
        }
    }

    /// What a user is told.
    pub fn message(&self) -> (text: String)
        ensures
            text@ == self.var() + " is missing"@,
    {
        let var = match self {
            MissingVar::ProductName => "PRODUCT_NAME",
            MissingVar::BundleIdentifier => "PRODUCT_BUNDLE_IDENTIFIER",
            MissingVar::MarketingVersion => "MARKETING_VERSION",
            MissingVar::ProjectVersion => "CURRENT_PROJECT_VERSION",
        };
        let mut text = var.to_owned();
        text.append(" is missing");
        text
    }
}

/// The property list that the variables alone make up, or the first variable that it
/// lacks.
pub open spec fn plist_of(vars: Map<Seq<char>, Seq<char>>) -> Result<PlistView, MissingVar> {
    if !vars.contains_key(MissingVar::ProductName.var()) {
        Err(MissingVar::ProductName)
    } else if !vars.contains_key(MissingVar::BundleIdentifier.var()) {
        Err(MissingVar::BundleIdentifier)
    } else if !vars.contains_key(MissingVar::MarketingVersion.var()) {
        Err(MissingVar::MarketingVersion)
    } else if !vars.contains_key(MissingVar::ProjectVersion.var()) {
        Err(MissingVar::ProjectVersion)
    } else {
        Ok(
            PlistView {
                name: vars[MissingVar::ProductName.var()],
                bundle_id: vars[MissingVar::BundleIdentifier.var()],
                version: vars[MissingVar::MarketingVersion.var()],
                build: vars[MissingVar::ProjectVersion.var()],
            },
        )
    }
}

impl InfoPlist {
    /// A property list with these entries.
    pub fn new(name: String, bundle_id: String, version: String, build: String) -> (plist: InfoPlist)
        ensures
            plist@.name == name@,
            plist@.bundle_id == bundle_id@,
            plist@.version == version@,
            plist@.build == build@,
    {
        InfoPlist { name, bundle_id, version, build }
    }

    /// The property list that a list of environment variables makes up.
    pub fn from_env_vars(vars: &BuildVars) -> (plist: Result<InfoPlist, MissingVar>)
        ensures
            match plist {
                Ok(plist) => plist_of(vars@) == Ok::<PlistView, MissingVar>(plist@),
                Err(missing) => plist_of(vars@) == Err::<PlistView, MissingVar>(missing),
            },
    {
        let name = match vars.get("PRODUCT_NAME") {
            Some(value) => value.clone(),
            None => return Err(MissingVar::ProductName),
        };
        let bundle_id = match vars.get("PRODUCT_BUNDLE_IDENTIFIER") {
            Some(value) => value.clone(),
            None => return Err(MissingVar::BundleIdentifier),
        };
        let version = match vars.get("MARKETING_VERSION") {
            Some(value) => value.clone(),
            None => return Err(MissingVar::MarketingVersion),
        };
        let build = match vars.get("CURRENT_PROJECT_VERSION") {
            Some(value) => value.clone(),
            None => return Err(MissingVar::ProjectVersion),
        };
        Ok(InfoPlist { name, bundle_id, version, build })
    }

    /// The property list with its references to variables replaced by their values.
    pub fn process(&self, vars: &BuildVars) -> (plist: InfoPlist)
        ensures
            plist@ == self@.expanded(vars@),
            plist@.name == expanded(self@.name, vars@),
            plist@.bundle_id == expanded(self@.bundle_id, vars@),
            plist@.version == expanded(self@.version, vars@),
            plist@.build == expanded(self@.build, vars@),
    {
        InfoPlist {
            name: expand_xcodevars(self.name.as_str(), vars),
            bundle_id: expand_xcodevars(self.bundle_id.as_str(), vars),
            version: expand_xcodevars(self.version.as_str(), vars),
            build: expand_xcodevars(self.build.as_str(), vars),
        }
    }

    /// The name of the release: the bundle's identifier and its version.
    pub fn get_release_name(&self) -> (text: String)
        ensures
            text@ == self@.bundle_id + "@"@ + self@.version,
    {
        let mut text = self.bundle_id.clone();
        text.append("@");
        text.append(self.version.as_str());
        text
    }

    /// The bundle's name, with its version in brackets.
    pub fn to_string(&self) -> (text: String)
        ensures
            text@ == self@.name + " ("@ + self@.version + ")"@,
    {
        let mut text = self.name.clone();
        text.append(" (");
        text.append(self.version.as_str());
        text.append(")");
        text
    }

    /// The version that users see.
    pub fn version(&self) -> (text: &str)
        ensures
            text@ == self@.version,
    {
        self.version.as_str()
    }

    /// The version of the build.
    pub fn build(&self) -> (text: &str)
        ensures
            text@ == self@.build,
    {
        self.build.as_str()
    }

    /// The bundle's name.
    pub fn name(&self) -> (text: &str)
        ensures
            text@ == self@.name,
    {
        self.name.as_str()
    }

    /// The bundle's identifier.
    pub fn bundle_id(&self) -> (text: &str)
        ensures
            text@ == self@.bundle_id,
    {
        self.bundle_id.as_str()
    }
}

/// The texts of a list.
pub open spec fn texts(list: Seq<String>) -> Seq<Seq<char>> {
    list.map_values(|text: String| text@)
}

/// An Xcode project, as `xcodebuild -list` describes it.
#[derive(Debug)]
pub struct XcodeProjectInfo {
    targets: Vec<String>,
    configurations: Vec<String>,
    path: PathBuf,
}

/// An `XcodeProjectInfo` as the texts that it holds.
pub struct ProjectView {
    /// The names of the targets.
    pub targets: Seq<Seq<char>>,
    /// The names of the configurations.
    pub configurations: Seq<Seq<char>>,
    /// The path of the project.
    pub path: PathBuf,
}

impl View for XcodeProjectInfo {
    type V = ProjectView;

    closed spec fn view(&self) -> ProjectView {
        ProjectView {
            targets: texts(self.targets@),
            configurations: texts(self.configurations@),
            path: self.path,
        }
    }
}

/// The first of `names` that is the same as `name`, in whatever case.
pub open spec fn same_in_any_case(names: Seq<Seq<char>>, name: Seq<char>) -> Option<Seq<char>>
    decreases names.len(),
{
    if names.len() == 0 {
        None
    } else if lowercase(names[0]) == lowercase(name) {
        Some(names[0])
    } else {
        same_in_any_case(names.skip(1), name)
    }
}

impl XcodeProjectInfo {
    /// A project with these targets and configurations, at this path.
    pub fn new(targets: Vec<String>, configurations: Vec<String>, path: PathBuf) -> (project:
        XcodeProjectInfo)
        ensures
            project@.targets == texts(targets@),
            project@.configurations == texts(configurations@),
            project@.path == path,
    {
        XcodeProjectInfo { targets, configurations, path }
    }

    /// The path of the project.
    pub fn path(&self) -> (path: &PathBuf)
        ensures
            *path == self@.path,
    {
        &self.path
    }

    /// The path of the directory that the project lies in.
    pub fn base_path(&self) -> (path: &Path)
        requires
            parent_of(self@.path) is Some,
        ensures
            parent_of(self@.path) == Some(path),
    {
        parent(&self.path).unwrap()
    }

    /// The path of the directory that the project lies in, if it lies in one.
    pub fn find_base_path(&self) -> (path: Option<&Path>)
        ensures
            path == parent_of(self@.path),
    {
        match parent(&self.path) {
            Some(_) => Some(self.base_path()),
            None => None,
        }
    }

    /// The first target.
    pub fn get_first_target(&self) -> (target: Option<&str>)
        ensures
            match target {
                Some(target) => self@.targets.len() > 0 && target@ == self@.targets[0],
                None => self@.targets.len() == 0,
            },
    {
        if self.targets.len() > 0 {
            Some(self.targets[0].as_str())
        } else {
            None
        }
    }

    /// The configuration with a certain name, in whatever case: the first one.
    pub fn get_configuration(&self, name: &str) -> (configuration: Option<&str>)
        ensures
            match configuration {
                Some(found) => same_in_any_case(self@.configurations, name@) == Some(found@),
                None => same_in_any_case(self@.configurations, name@) is None,
            },
    {
        let lower = name.to_lowercase();
        let ghost names = self@.configurations;
        assert(names.skip(0) =~= names);
        let mut i: usize = 0;
        while i < self.configurations.len()
            invariant
                i <= self.configurations@.len(),
                names == texts(self.configurations@),
                lower@ == lowercase(name@),
                same_in_any_case(names, name@) == same_in_any_case(names.skip(i as int), name@),
            decreases self.configurations@.len() - i,
        {
            let configuration = self.configurations[i].as_str();
            assert(names.skip(i as int)[0] == configuration@);
            if same_text(configuration.to_lowercase().as_str(), lower.as_str()) {
                return Some(configuration);
            }
            assert(names.skip(i as int).skip(1) =~= names.skip(i as int + 1));
            i = i + 1;
        }
        None
    }
}

/// Each entry of a processed property list is the expansion of the same entry of the one
/// that was read. An entry that is nothing but a reference to a variable becomes that
/// variable's value.
pub proof fn law_entries_expanded(
    plist: PlistView,
    name: Seq<char>,
    vars: Map<Seq<char>, Seq<char>>,
)
    ensures
        plist.expanded(vars).name == expanded(plist.name, vars),
        plist.expanded(vars).bundle_id == expanded(plist.bundle_id, vars),
        plist.expanded(vars).version == expanded(plist.version, vars),
        plist.expanded(vars).build == expanded(plist.build, vars),
        name.len() > 0 && !name.contains(':') && !name.contains(')') && vars.contains_key(name)
            ==> {
            let reference = seq!['$', '('] + name + seq![')'];
            &&& plist.name == reference ==> plist.expanded(vars).name == vars[name]
            &&& plist.bundle_id == reference ==> plist.expanded(vars).bundle_id == vars[name]
            &&& plist.version == reference ==> plist.expanded(vars).version == vars[name]
            &&& plist.build == reference ==> plist.expanded(vars).build == vars[name]
        },
{
    if name.len() > 0 && !name.contains(':') && !name.contains(')') && vars.contains_key(name) {
        law_variable(name, vars);
    }
}

/// An entry without references stays as it is.
pub proof fn law_plain_entries_kept(plist: PlistView, vars: Map<Seq<char>, Seq<char>>)
    ensures
        !plist.name.contains('$') ==> plist.expanded(vars).name == plist.name,
        !plist.bundle_id.contains('$') ==> plist.expanded(vars).bundle_id == plist.bundle_id,
        !plist.version.contains('$') ==> plist.expanded(vars).version == plist.version,
        !plist.build.contains('$') ==> plist.expanded(vars).build == plist.build,
{
    if !plist.name.contains('$') {
        law_plain_text_kept(plist.name, seq![], vars);
    }
    if !plist.bundle_id.contains('$') {
        law_plain_text_kept(plist.bundle_id, seq![], vars);
    }
    if !plist.version.contains('$') {
        law_plain_text_kept(plist.version, seq![], vars);
    }
    if !plist.build.contains('$') {
        law_plain_text_kept(plist.build, seq![], vars);
    }
}

/// The property list that variables make up has its name from `PRODUCT_NAME`, its identifier
/// from `PRODUCT_BUNDLE_IDENTIFIER`, its version from `MARKETING_VERSION` and its build from
/// `CURRENT_PROJECT_VERSION`, as they are. The first of these that is missing, in this order,
/// is reported.
pub proof fn law_plist_of_variables(vars: Map<Seq<char>, Seq<char>>)
    ensures
        ({
            let name = "PRODUCT_NAME"@;
            let bundle_id = "PRODUCT_BUNDLE_IDENTIFIER"@;
            let version = "MARKETING_VERSION"@;
            let build = "CURRENT_PROJECT_VERSION"@;
            let has_name = vars.contains_key(name);
            let has_bundle_id = has_name && vars.contains_key(bundle_id);
            let has_version = has_bundle_id && vars.contains_key(version);
            &&& !has_name ==> plist_of(vars) == Err::<PlistView, MissingVar>(
                MissingVar::ProductName,
            )
            &&& has_name && !has_bundle_id ==> plist_of(vars) == Err::<PlistView, MissingVar>(
                MissingVar::BundleIdentifier,
            )
            &&& has_bundle_id && !has_version ==> plist_of(vars) == Err::<PlistView, MissingVar>(
                MissingVar::MarketingVersion,
            )
            &&& has_version && !vars.contains_key(build) ==> plist_of(vars) == Err::<
                PlistView,
                MissingVar,
            >(MissingVar::ProjectVersion)
            &&& has_version && vars.contains_key(build) ==> {
                &&& plist_of(vars) is Ok
                &&& plist_of(vars)->Ok_0.name == vars[name]
                &&& plist_of(vars)->Ok_0.bundle_id == vars[bundle_id]
                &&& plist_of(vars)->Ok_0.version == vars[version]
                &&& plist_of(vars)->Ok_0.build == vars[build]
            }
        }),
{
}

/// What a missing variable is called.
pub proof fn law_missing_names()
    ensures
        MissingVar::ProductName.var() == "PRODUCT_NAME"@,
        MissingVar::BundleIdentifier.var() == "PRODUCT_BUNDLE_IDENTIFIER"@,
        MissingVar::MarketingVersion.var() == "MARKETING_VERSION"@,
        MissingVar::ProjectVersion.var() == "CURRENT_PROJECT_VERSION"@,
{
}

/// The texts of a list stand in the same order, and there are as many.
pub proof fn law_texts(list: Seq<String>)
    ensures
        texts(list).len() == list.len(),
        forall|i: int| 0 <= i < list.len() ==> #[trigger] texts(list)[i] == list[i]@,
{
}

/// The configuration that is found is the first one that goes by the name that was asked
/// for, but for its case, and one is found wherever there is one.
pub proof fn law_first_in_any_case(names: Seq<Seq<char>>, i: int, name: Seq<char>)
    requires
        0 <= i < names.len(),
        lowercase(names[i]) == lowercase(name),
        forall|j: int| 0 <= j < i ==> lowercase(#[trigger] names[j]) != lowercase(name),
    ensures
        same_in_any_case(names, name) == Some(names[i]),
    decreases i,
{
    if i > 0 {
        assert(lowercase(names[0]) != lowercase(name));
        let tail = names.skip(1);
        assert forall|j: int| 0 <= j < i - 1 implies lowercase(#[trigger] tail[j]) != lowercase(
            name,
        ) by {
            assert(tail[j] == names[j + 1]);
        }
        law_first_in_any_case(tail, i - 1, name);
    }
}

/// None is found where none goes by that name.
pub proof fn law_none_in_any_case(names: Seq<Seq<char>>, name: Seq<char>)
    requires
        forall|j: int| 0 <= j < names.len() ==> lowercase(#[trigger] names[j]) != lowercase(name),
    ensures
        same_in_any_case(names, name) is None,
    decreases names.len(),
{
    if names.len() > 0 {
        assert(lowercase(names[0]) != lowercase(name));
        let tail = names.skip(1);
        assert forall|j: int| 0 <= j < tail.len() implies lowercase(#[trigger] tail[j])
            != lowercase(name) by {
            assert(tail[j] == names[j + 1]);
        }
        law_none_in_any_case(tail, name);
    }
}

} // verus!
