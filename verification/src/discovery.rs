//! Finding the property list of the project at hand, one step at a time.
//!
//! A `Task` says what is to be looked up next; an `Event` says what was found. Nothing
//! here touches a file or runs a command.

use crate::commands::preprocessed;
use crate::expand::expanded;
use crate::paths::{joined, push_path};
use crate::text::{ends_with, has_suffix, law_ends_with, same_text};
use crate::vars::BuildVars;
use crate::xcode::{
    law_first_in_any_case, law_none_in_any_case, lowercase, plist_of, same_in_any_case, InfoPlist,
    MissingVar, PlistView, ProjectView, XcodeProjectInfo,
};
use std::path::PathBuf;
use vstd::prelude::*;

verus! {

/// Why a property list could not be loaded.
#[derive(Debug, Clone, Copy, PartialEq, Eq, Structural)]
pub enum LoadFailure {
    /// What the preprocessor put out is no property list.
    Unreadable,
    /// The file is no property list, and the variables do not make one up.
    Missing(MissingVar),
}

/// The directory that the path of a property list starts from.
#[derive(Debug)]
pub enum BaseDir {
    /// The one with this path.
    Given(String),
    /// The one that the project lies in.
    ProjectParent,
}

/// A `BaseDir`, as its text.
pub enum BaseView {
    /// The one with this path.
    Given(Seq<char>),
    /// The one that the project lies in.
    ProjectParent,
}

impl View for BaseDir {
    type V = BaseView;

    open spec fn view(&self) -> BaseView {
        match self {
            BaseDir::Given(path) => BaseView::Given(path@),
            BaseDir::ProjectParent => BaseView::ProjectParent,
        }
    }
}

/// What is to be looked up next.
#[allow(inconsistent_fields)]
pub enum Task {
    /// The name of the current directory.
    NameCurrentDir,
    /// The names in the current directory.
    ListCurrentDir,
    /// What `xcodebuild` says of the project: the entry of the current directory with
    /// this index, or the current directory itself.
    DescribeProject {
        /// The index of the entry.
        entry: Option<usize>,
    },
    /// The settings with which `xcodebuild` builds a target in a configuration.
    ShowBuildSettings {
        /// The project.
        project: XcodeProjectInfo,
        /// The target.
        target: String,
        /// The configuration.
        configuration: String,
    },
    /// The property list in a file, preprocessed where the variables say so.
    LoadPlist {
        /// The directory that the file's path starts from.
        base: BaseDir,
        /// The file's path from there.
        file: String,
        /// The project, where one was found; otherwise paths start from the current
        /// directory.
        project: Option<XcodeProjectInfo>,
        /// The variables that the property list may refer to.
        vars: BuildVars,
    },
    /// Nothing: this is what was found.
    Finished {
        /// The property list, if there is one.
        plist: Option<InfoPlist>,
    },
    /// Nothing: the property list could not be loaded.
    Failed {
        /// Why.
        failure: LoadFailure,
    },
}

/// What was found.
pub enum Event {
    /// There is no current directory.
    NoCurrentDir,
    /// The name of the current directory, if it has one that is Unicode.
    CurrentDir {
        /// The name.
        name: Option<String>,
    },
    /// The names in the current directory, where they are Unicode.
    Entries {
        /// The names.
        names: Vec<Option<String>>,
    },
    /// The project, if `xcodebuild` could describe it.
    Project {
        /// The project.
        project: Option<XcodeProjectInfo>,
    },
    /// The build settings.
    BuildSettings {
        /// The settings.
        vars: BuildVars,
    },
    /// The property list, if it could be read.
    Plist {
        /// The property list.
        plist: Option<InfoPlist>,
    },
}

/// A `Task`, as the texts that it holds.
#[allow(inconsistent_fields)]
pub enum TaskView {
    /// The name of the current directory.
    NameCurrentDir,
    /// The names in the current directory.
    ListCurrentDir,
    /// What `xcodebuild` says of the project.
    DescribeProject { entry: Option<int> },
    /// The build settings.
    ShowBuildSettings { project: ProjectView, target: Seq<char>, configuration: Seq<char> },
    /// The property list in a file.
    LoadPlist {
        base: BaseView,
        file: Seq<char>,
        project: Option<ProjectView>,
        vars: Map<Seq<char>, Seq<char>>,
    },
    /// What was found.
    Finished { plist: Option<PlistView> },
    /// Why nothing was.
    Failed { failure: LoadFailure },
}

/// An `Event`, as the texts that it holds.
pub enum EventView {
    /// There is no current directory.
    NoCurrentDir,
    /// The name of the current directory.
    CurrentDir { name: Option<Seq<char>> },
    /// The names in the current directory.
    Entries { names: Seq<Option<Seq<char>>> },
    /// The project.
    Project { project: Option<ProjectView> },
    /// The build settings.
    BuildSettings { vars: Map<Seq<char>, Seq<char>> },
    /// The property list.
    Plist { plist: Option<PlistView> },
}

/// An optional text.
pub open spec fn text_view(text: Option<String>) -> Option<Seq<char>> {
    match text {
        Some(text) => Some(text@),
        None => None,
    }
}

/// An optional project.
pub open spec fn project_view(project: Option<XcodeProjectInfo>) -> Option<ProjectView> {
    match project {
        Some(project) => Some(project@),
        None => None,
    }
}

/// An optional property list.
pub open spec fn plist_view(plist: Option<InfoPlist>) -> Option<PlistView> {
    match plist {
        Some(plist) => Some(plist@),
        None => None,
    }
}

impl View for Task {
    type V = TaskView;

    open spec fn view(&self) -> TaskView {
        match *self {
            Task::NameCurrentDir => TaskView::NameCurrentDir,
            Task::ListCurrentDir => TaskView::ListCurrentDir,
            Task::DescribeProject { entry } => TaskView::DescribeProject {
                entry: match entry {
                    Some(i) => Some(i as int),
                    None => None,
                },
            },
            Task::ShowBuildSettings { project, target, configuration } =>
                TaskView::ShowBuildSettings {
                project: project@,
                target: target@,
                configuration: configuration@,
            },
            Task::LoadPlist { base, file, project, vars } => TaskView::LoadPlist {
                base: base@,
                file: file@,
                project: project_view(project),
                vars: vars@,
            },
            Task::Finished { plist } => TaskView::Finished { plist: plist_view(plist) },
            Task::Failed { failure } => TaskView::Failed { failure },
        }
    }
}

impl View for Event {
    type V = EventView;

    open spec fn view(&self) -> EventView {
        match *self {
            Event::NoCurrentDir => EventView::NoCurrentDir,
            Event::CurrentDir { name } => EventView::CurrentDir { name: text_view(name) },
            Event::Entries { names } => EventView::Entries {
                names: names@.map_values(|name: Option<String>| text_view(name)),
            },
            Event::Project { project } => EventView::Project { project: project_view(project) },
            Event::BuildSettings { vars } => EventView::BuildSettings { vars: vars@ },
            Event::Plist { plist } => EventView::Plist { plist: plist_view(plist) },
        }
    }
}

/// Whether this is the name of an Xcode project.
pub open spec fn project_name(name: Option<Seq<char>>) -> bool {
    match name {
        Some(name) => ends_with(name, ".xcodeproj"@),
        None => false,
    }
}

/// Whether the `i`-th name is that of a project, and none of the others is.
pub open spec fn sole_project(names: Seq<Option<Seq<char>>>, i: int) -> bool {
    &&& 0 <= i < names.len()
    &&& project_name(names[i])
    &&& forall|j: int| 0 <= j < names.len() && project_name(#[trigger] names[j]) ==> j == i
}

/// The value of a variable, if it has one.
pub open spec fn var(vars: Map<Seq<char>, Seq<char>>, name: Seq<char>) -> Option<Seq<char>> {
    if vars.contains_key(name) {
        Some(vars[name])
    } else {
        None
    }
}

/// What comes first. Under Xcode the environment holds the build settings; elsewhere
/// the project has to be found.
pub open spec fn first_task(under_xcode: bool, vars: Map<Seq<char>, Seq<char>>) -> TaskView {
    if !under_xcode {
        TaskView::NameCurrentDir
    } else {
        match var(vars, "INFOPLIST_FILE"@) {
            Some(file) => TaskView::LoadPlist {
                base: BaseView::Given(
                    match var(vars, "PROJECT_DIR"@) {
                        Some(base) => base,
                        None => "."@,
                    },
                ),
                file,
                project: None,
                vars,
            },
            None => TaskView::Finished {
                plist: match plist_of(vars) {
                    Ok(plist) => Some(plist),
                    Err(_) => None,
                },
            },
        }
    }
}

/// The configuration that counts: the release, or else the debug configuration.
pub open spec fn main_configuration(configurations: Seq<Seq<char>>) -> Option<Seq<char>> {
    match same_in_any_case(configurations, "release"@) {
        Some(configuration) => Some(configuration),
        None => same_in_any_case(configurations, "debug"@),
    }
}

/// What comes after a project was found.
pub open spec fn project_task(project: ProjectView) -> TaskView {
    match main_configuration(project.configurations) {
        Some(configuration) => if project.targets.len() > 0 {
            TaskView::ShowBuildSettings { project, target: project.targets[0], configuration }
        } else {
            TaskView::Finished { plist: None }
        },
        None => TaskView::Finished { plist: None },
    }
}

/// What comes after the build settings of a project were found.
pub open spec fn settings_task(
    project: ProjectView,
    vars: Map<Seq<char>, Seq<char>>,
) -> TaskView {
    match var(vars, "INFOPLIST_FILE"@) {
        Some(file) => TaskView::LoadPlist {
            base: match var(vars, "PROJECT_DIR"@) {
                Some(base) => BaseView::Given(base),
                None => BaseView::ProjectParent,
            },
            file,
            project: Some(project),
            vars,
        },
        None => TaskView::Finished { plist: None },
    }
}

/// The property list that was read, or that the variables make up where the file
/// could not be read as it is, with its references to variables replaced.
pub open spec fn loaded(
    read: Option<PlistView>,
    vars: Map<Seq<char>, Seq<char>>,
) -> Result<PlistView, LoadFailure> {
    match read {
        Some(plist) => Ok(plist.expanded(vars)),
        None => if preprocessed(vars) {
            Err(LoadFailure::Unreadable)
        } else {
            match plist_of(vars) {
                Ok(plist) => Ok(plist.expanded(vars)),
                Err(missing) => Err(LoadFailure::Missing(missing)),
            }
        },
    }
}

/// What comes after `task`, when `event` was found. An event that does not answer the
/// task changes nothing.
pub open spec fn next_task(task: TaskView, event: EventView) -> TaskView {
    match (task, event) {
        (TaskView::NameCurrentDir, EventView::NoCurrentDir) => TaskView::Finished { plist: None },
        (TaskView::NameCurrentDir, EventView::CurrentDir { name }) => if project_name(name) {
            TaskView::DescribeProject { entry: None }
        } else {
            TaskView::ListCurrentDir
        },
        (TaskView::ListCurrentDir, EventView::Entries { names }) => if exists|i: int|
            sole_project(names, i) {
            TaskView::DescribeProject { entry: Some(choose|i: int| sole_project(names, i)) }
        } else {
            TaskView::Finished { plist: None }
        },
        (TaskView::DescribeProject { .. }, EventView::Project { project }) => match project {
            Some(project) => project_task(project),
            None => TaskView::Finished { plist: None },
        },
        (
            TaskView::ShowBuildSettings { project, .. },
            EventView::BuildSettings { vars },
        ) => settings_task(project, vars),
        (TaskView::LoadPlist { vars, .. }, EventView::Plist { plist }) => match loaded(
            plist,
            vars,
        ) {
            Ok(plist) => TaskView::Finished { plist: Some(plist) },
            Err(failure) => TaskView::Failed { failure },
        },
        _ => task,
    }
}

/// The index of the one name that is that of a project, if there is exactly one.
fn find_sole_project(names: &Vec<Option<String>>) -> (index: Option<usize>)
    ensures
        ({
            let views = names@.map_values(|name: Option<String>| text_view(name));
            match index {
                Some(i) => sole_project(views, i as int),
                None => forall|i: int| !sole_project(views, i),
            }
        }),
{
    let ghost views = names@.map_values(|name: Option<String>| text_view(name));
    let mut found: Option<usize> = None;
    let mut i: usize = 0;
    while i < names.len()
        invariant
            i <= names@.len(),
            views == names@.map_values(|name: Option<String>| text_view(name)),
            match found {
                Some(k) => {
                    &&& k < i
                    &&& project_name(views[k as int])
                    &&& forall|j: int| 0 <= j < i && project_name(#[trigger] views[j]) ==> j == k
                },
                None => forall|j: int| 0 <= j < i ==> !project_name(#[trigger] views[j]),
            },
        decreases names@.len() - i,
    {
        let hit = match &names[i] {
            Some(name) => has_suffix(name.as_str(), ".xcodeproj"),
            None => false,
        };
        assert(hit == project_name(views[i as int]));
        if hit {
            match found {
                Some(k) => {
                    assert forall|m: int| !sole_project(views, m) by {
                        if sole_project(views, m) {
                            assert(m == k as int);
                            assert(m == i as int);
                        }
                    }
                    return None;
                },
                None => {
                    found = Some(i);
                },
            }
        }
        i = i + 1;
    }
    found
}

impl InfoPlist {
    /// Starts to look for the property list of the project at hand. `under_xcode` tells
    /// whether Xcode launched this process, and `vars` are then the environment.
    pub fn discover_from_env(under_xcode: bool, vars: BuildVars) -> (task: Task)
        ensures
            task@ == first_task(under_xcode, vars@),
    {
        if !under_xcode {
            return Task::NameCurrentDir;
        }
        let file = match vars.get("INFOPLIST_FILE") {
            Some(file) => file.clone(),
            None => {
                return Task::Finished {
                    plist: match InfoPlist::from_env_vars(&vars) {
                        Ok(plist) => Some(plist),
                        Err(_) => None,
                    },
                };
            },
        };
        let base = match vars.get("PROJECT_DIR") {
            Some(base) => base.clone(),
            None => ".".to_owned(),
        };
        Task::LoadPlist { base: BaseDir::Given(base), file, project: None, vars }
    }

    /// Starts to look for the property list of a project.
    pub fn from_project_info(project: XcodeProjectInfo) -> (task: Task)
        ensures
            task@ == project_task(project@),
    {
        let configuration = match project.get_configuration("release") {
            Some(configuration) => configuration.to_owned(),
            None => match project.get_configuration("debug") {
                Some(configuration) => configuration.to_owned(),
                None => {
                    return Task::Finished { plist: None };
                },
            },
        };
        let target = match project.get_first_target() {
            Some(target) => target.to_owned(),
            None => {
                return Task::Finished { plist: None };
            },
        };
        Task::ShowBuildSettings { project, target, configuration }
    }

    /// Completes what was read of a property list: `read` is what the file, or what the
    /// preprocessor made of it, holds.
    pub fn load_and_process(read: Option<InfoPlist>, vars: &BuildVars) -> (plist: Result<
        InfoPlist,
        LoadFailure,
    >)
        ensures
            match plist {
                Ok(plist) => loaded(plist_view(read), vars@) == Ok::<PlistView, LoadFailure>(
                    plist@,
                ),
                Err(failure) => loaded(plist_view(read), vars@) == Err::<PlistView, LoadFailure>(
                    failure,
                ),
            },
    {
        match read {
            Some(plist) => Ok(plist.process(vars)),
            None => {
                let unreadable = match vars.get("INFOPLIST_PREPROCESS") {
                    Some(value) => same_text(value.as_str(), "YES"),
                    None => false,
                };
                if unreadable {
                    return Err(LoadFailure::Unreadable);
                }
                match InfoPlist::from_env_vars(vars) {
                    Ok(plist) => Ok(plist.process(vars)),
                    Err(missing) => Err(LoadFailure::Missing(missing)),
                }
            },
        }
    }
}

impl Task {
    /// What comes next, now that `event` was found.
    pub fn advance(self, event: Event) -> (next: Task)
        ensures
            next@ == next_task(self@, event@),
    {
        match (self, event) {
            (Task::NameCurrentDir, Event::NoCurrentDir) => Task::Finished { plist: None },
            (Task::NameCurrentDir, Event::CurrentDir { name }) => {
                let here = match &name {
                    Some(name) => has_suffix(name.as_str(), ".xcodeproj"),
                    None => false,
                };
                if here {
                    Task::DescribeProject { entry: None }
                } else {
                    Task::ListCurrentDir
                }
            },
            (Task::ListCurrentDir, Event::Entries { names }) => {
                let ghost views = names@.map_values(|name: Option<String>| text_view(name));
                match find_sole_project(&names) {
                    Some(i) => {
                        proof {
                            let k = choose|k: int| sole_project(views, k);
                            assert(sole_project(views, k));
                            assert(project_name(views[k]));
                            assert(k == i as int);
                        }
                        Task::DescribeProject { entry: Some(i) }
                    },
                    None => Task::Finished { plist: None },
                }
            },
            (Task::DescribeProject { .. }, Event::Project { project }) => match project {
                Some(project) => InfoPlist::from_project_info(project),
                None => Task::Finished { plist: None },
            },
            (
                Task::ShowBuildSettings { project, .. },
                Event::BuildSettings { vars },
            ) => InfoPlist::from_build_settings(project, vars),
            (
                Task::LoadPlist { vars, .. },
                Event::Plist { plist },
            ) => match InfoPlist::load_and_process(plist, &vars) {
                Ok(plist) => Task::Finished { plist: Some(plist) },
                Err(failure) => Task::Failed { failure },
            },
            (task, _) => task,
        }
    }
}

impl InfoPlist {
    /// Goes on with the build settings of a project.
    fn from_build_settings(project: XcodeProjectInfo, vars: BuildVars) -> (task: Task)
        ensures
            task@ == settings_task(project@, vars@),
    {
        let file = match vars.get("INFOPLIST_FILE") {
            Some(file) => file.clone(),
            None => {
                return Task::Finished { plist: None };
            },
        };
        let base = match vars.get("PROJECT_DIR") {
            Some(base) => BaseDir::Given(base.clone()),
            None => BaseDir::ProjectParent,
        };
        Task::LoadPlist { base, file, project: Some(project), vars }
    }
}

/// Where the path of a property list starts.
#[derive(Debug, Clone, Copy, PartialEq, Eq, Structural)]
pub enum Start {
    /// In the current directory.
    CurrentDir,
    /// In the directory that the project lies in.
    ProjectParent,
    /// Nowhere: it is the path as it is given.
    Nowhere,
}

/// Where the path of a property list starts. A base that a project names is taken as it is,
/// and one that the environment names is looked for from the current directory on.
pub open spec fn start_of(base: BaseView, in_project: bool) -> Start {
    match base {
        BaseView::Given(_) => if in_project {
            Start::Nowhere
        } else {
            Start::CurrentDir
        },
        BaseView::ProjectParent => Start::ProjectParent,
    }
}

impl BaseDir {
    /// Where the path of a property list with this base starts. `in_project` tells whether a
    /// project was found.
    pub fn start(&self, in_project: bool) -> (start: Start)
        ensures
            start == start_of(self@, in_project),
    {
        match self {
            BaseDir::Given(_) => if in_project {
                Start::Nowhere
            } else {
                Start::CurrentDir
            },
            BaseDir::ProjectParent => Start::ProjectParent,
        }
    }
}

/// The path of the property list at `file` from `base` on, where `start` is the path that
/// `BaseDir::start` tells: the empty one for nowhere.
pub fn plist_path(start: PathBuf, base: &BaseDir, file: &str) -> (path: PathBuf)
    ensures
        path == match base@ {
            BaseView::Given(dir) => joined(joined(start, dir), file@),
            BaseView::ProjectParent => joined(start, file@),
        },
{
    let mut path = start;
    if let BaseDir::Given(dir) = base {
        push_path(&mut path, dir.as_str());
    }
    push_path(&mut path, file);
    path
}

/// Whether `event` answers `task`.
pub open spec fn answers(event: EventView, task: TaskView) -> bool {
    match task {
        TaskView::NameCurrentDir => event is NoCurrentDir || event is CurrentDir,
        TaskView::ListCurrentDir => event is Entries,
        TaskView::DescribeProject { .. } => event is Project,
        TaskView::ShowBuildSettings { .. } => event is BuildSettings,
        TaskView::LoadPlist { .. } => event is Plist,
        TaskView::Finished { .. } => false,
        TaskView::Failed { .. } => false,
    }
}

/// How many answers a task may still need.
pub open spec fn answers_left(task: TaskView) -> nat {
    match task {
        TaskView::NameCurrentDir => 5,
        TaskView::ListCurrentDir => 4,
        TaskView::DescribeProject { .. } => 3,
        TaskView::ShowBuildSettings { .. } => 2,
        TaskView::LoadPlist { .. } => 1,
        TaskView::Finished { .. } => 0,
        TaskView::Failed { .. } => 0,
    }
}

/// Every answer brings the search nearer to its end, and nothing else moves it.
pub proof fn law_search_ends(task: TaskView, event: EventView)
    ensures
        answers(event, task) ==> answers_left(next_task(task, event)) < answers_left(task),
        !answers(event, task) ==> next_task(task, event) == task,
        answers_left(task) == 0 <==> task is Finished || task is Failed,
{
}

/// What comes after `task` and one event after the other.
pub open spec fn after(task: TaskView, events: Seq<EventView>) -> TaskView
    decreases events.len(),
{
    if events.len() == 0 {
        task
    } else {
        next_task(after(task, events.drop_last()), events.last())
    }
}

/// What the search ends with, where it leads to a property list in a file.
pub open spec fn ended(
    read: Option<PlistView>,
    vars: Map<Seq<char>, Seq<char>>,
) -> TaskView {
    match loaded(read, vars) {
        Ok(plist) => TaskView::Finished { plist: Some(plist) },
        Err(failure) => TaskView::Failed { failure },
    }
}

/// Under Xcode, the search ends with the property list that the environment names.
pub proof fn law_search_under_xcode(
    vars: Map<Seq<char>, Seq<char>>,
    read: Option<PlistView>,
)
    requires
        vars.contains_key("INFOPLIST_FILE"@),
    ensures
        after(first_task(true, vars), seq![EventView::Plist { plist: read }]) == ended(read, vars),
{
    let events = seq![EventView::Plist { plist: read }];
    assert(events.drop_last() =~= seq![]);
    reveal_with_fuel(after, 2);
}

/// Elsewhere, the search ends with the property list that the build settings of the project
/// name, where the current directory is a project with a target and a release or debug
/// configuration.
pub proof fn law_search_in_project(
    env: Map<Seq<char>, Seq<char>>,
    name: Option<Seq<char>>,
    project: ProjectView,
    vars: Map<Seq<char>, Seq<char>>,
    read: Option<PlistView>,
)
    requires
        project_name(name),
        project.targets.len() > 0,
        main_configuration(project.configurations) is Some,
        vars.contains_key("INFOPLIST_FILE"@),
    ensures
        after(
            first_task(false, env),
            seq![
                EventView::CurrentDir { name },
                EventView::Project { project: Some(project) },
                EventView::BuildSettings { vars },
                EventView::Plist { plist: read },
            ],
        ) == ended(read, vars),
{
    let events = seq![
        EventView::CurrentDir { name },
        EventView::Project { project: Some(project) },
        EventView::BuildSettings { vars },
        EventView::Plist { plist: read },
    ];
    assert(events.drop_last() =~= events.take(3));
    assert(events.take(3).drop_last() =~= events.take(2));
    assert(events.take(2).drop_last() =~= events.take(1));
    assert(events.take(1).drop_last() =~= seq![]);
    reveal_with_fuel(after, 5);
}

/// It ends in the same way where the current directory is no project, but holds exactly
/// one.
pub proof fn law_search_beside_project(
    env: Map<Seq<char>, Seq<char>>,
    name: Option<Seq<char>>,
    names: Seq<Option<Seq<char>>>,
    entry: int,
    project: ProjectView,
    vars: Map<Seq<char>, Seq<char>>,
    read: Option<PlistView>,
)
    requires
        !project_name(name),
        sole_project(names, entry),
        project.targets.len() > 0,
        main_configuration(project.configurations) is Some,
        vars.contains_key("INFOPLIST_FILE"@),
    ensures
        after(
            first_task(false, env),
            seq![EventView::CurrentDir { name }, EventView::Entries { names }],
        ) == (TaskView::DescribeProject { entry: Some(entry) }),
        after(
            first_task(false, env),
            seq![
                EventView::CurrentDir { name },
                EventView::Entries { names },
                EventView::Project { project: Some(project) },
                EventView::BuildSettings { vars },
                EventView::Plist { plist: read },
            ],
        ) == ended(read, vars),
{
    let events = seq![
        EventView::CurrentDir { name },
        EventView::Entries { names },
        EventView::Project { project: Some(project) },
        EventView::BuildSettings { vars },
        EventView::Plist { plist: read },
    ];
    let start = seq![EventView::CurrentDir { name }, EventView::Entries { names }];
    let found = choose|i: int| sole_project(names, i);
    assert(sole_project(names, found));
    assert(project_name(names[found]));
    assert(events.drop_last() =~= events.take(4));
    assert(events.take(4).drop_last() =~= events.take(3));
    assert(events.take(3).drop_last() =~= start);
    assert(start.drop_last() =~= events.take(1));
    assert(events.take(1).drop_last() =~= seq![]);
    reveal_with_fuel(after, 6);
}

/// A property list that was loaded had its references replaced: it is what was read, or
/// what the variables make up, after expansion.
pub proof fn law_loaded_plist_is_expanded(
    read: Option<PlistView>,
    vars: Map<Seq<char>, Seq<char>>,
)
    ensures
        match loaded(read, vars) {
            Ok(plist) => {
                ||| read is Some && plist == read->0.expanded(vars)
                ||| read is None && !preprocessed(vars) && plist_of(vars) is Ok && plist
                    == plist_of(vars)->Ok_0.expanded(vars)
            },
            Err(LoadFailure::Unreadable) => read is None && preprocessed(vars),
            Err(LoadFailure::Missing(missing)) => read is None && !preprocessed(vars)
                && !vars.contains_key(missing.var()),
        },
{
}

/// The search fails only where a property list that was named could not be read.
pub proof fn law_only_unreadable_plist_fails(task: TaskView, event: EventView)
    requires
        task !is Failed,
        next_task(task, event) is Failed,
    ensures
        task is LoadPlist,
        event == (EventView::Plist { plist: None }),
{
}

/// A configuration that is found is one of the project's, and goes by the name that was
/// asked for, but for its case. None is found only where none goes by that name.
pub proof fn law_configuration_in_any_case(configurations: Seq<Seq<char>>, name: Seq<char>)
    ensures
        match same_in_any_case(configurations, name) {
            Some(found) => configurations.contains(found) && lowercase(found) == lowercase(name),
            None => forall|i: int|
                0 <= i < configurations.len() ==> lowercase(#[trigger] configurations[i])
                    != lowercase(name),
        },
    decreases configurations.len(),
{
    if configurations.len() > 0 {
        let tail = configurations.skip(1);
        law_configuration_in_any_case(tail, name);
        if lowercase(configurations[0]) == lowercase(name) {
            assert(configurations.contains(configurations[0]));
        } else {
            match same_in_any_case(tail, name) {
                Some(found) => {
                    let i = choose|i: int| 0 <= i < tail.len() && tail[i] == found;
                    assert(configurations[i + 1] == found);
                },
                None => {
                    assert forall|i: int| 0 <= i < configurations.len() implies lowercase(
                        #[trigger] configurations[i],
                    ) != lowercase(name) by {
                        if i > 0 {
                            assert(configurations[i] == tail[i - 1]);
                        }
                    }
                },
            }
        }
    }
}

/// The release configuration comes before the debug configuration, wherever they stand.
pub proof fn law_release_first(project: ProjectView)
    requires
        project.targets.len() > 0,
        same_in_any_case(project.configurations, "release"@) is Some,
    ensures
        project_task(project) == (TaskView::ShowBuildSettings {
            project,
            target: project.targets[0],
            configuration: same_in_any_case(project.configurations, "release"@)->0,
        }),
{
}

/// The variables make up a property list where all four of its entries are set, and
/// only there.
pub proof fn law_plist_needs_all_entries(vars: Map<Seq<char>, Seq<char>>)
    ensures
        plist_of(vars) is Ok <==> {
            &&& vars.contains_key("PRODUCT_NAME"@)
            &&& vars.contains_key("PRODUCT_BUNDLE_IDENTIFIER"@)
            &&& vars.contains_key("MARKETING_VERSION"@)
            &&& vars.contains_key("CURRENT_PROJECT_VERSION"@)
        },
{
}

/// A name is that of a project exactly if it is some text followed by `.xcodeproj`.
pub proof fn law_project_name(name: Seq<char>)
    ensures
        project_name(Some(name)) <==> exists|stem: Seq<char>|
            name == #[trigger] (stem + ".xcodeproj"@),
        !project_name(None),
{
    law_ends_with(name, ".xcodeproj"@);
}

/// A current directory whose name is some text followed by `.xcodeproj` is described as a
/// project; any other one, and one without a name, is listed. Without a current directory
/// the search ends.
pub proof fn law_current_dir(name: Seq<char>)
    ensures
        (exists|stem: Seq<char>| name == #[trigger] (stem + ".xcodeproj"@)) ==> next_task(
            TaskView::NameCurrentDir,
            EventView::CurrentDir { name: Some(name) },
        ) == (TaskView::DescribeProject { entry: None }),
        (forall|stem: Seq<char>| name != #[trigger] (stem + ".xcodeproj"@)) ==> next_task(
            TaskView::NameCurrentDir,
            EventView::CurrentDir { name: Some(name) },
        ) is ListCurrentDir,
        next_task(TaskView::NameCurrentDir, EventView::CurrentDir { name: None }) is ListCurrentDir,
        next_task(TaskView::NameCurrentDir, EventView::NoCurrentDir) == (TaskView::Finished {
            plist: None,
        }),
{
    law_project_name(name);
}

/// Where exactly one entry of the current directory has a name that ends in `.xcodeproj`,
/// whatever the others are called, the search goes on with that entry.
pub proof fn law_only_project_entry(names: Seq<Option<Seq<char>>>, entry: int, stem: Seq<char>)
    requires
        0 <= entry < names.len(),
        names[entry] == Some(stem + ".xcodeproj"@),
        forall|j: int, other: Seq<char>|
            0 <= j < names.len() && j != entry && #[trigger] names[j] is Some ==> names[j]->0
                != #[trigger] (other + ".xcodeproj"@),
    ensures
        next_task(TaskView::ListCurrentDir, EventView::Entries { names }) == (
        TaskView::DescribeProject { entry: Some(entry) }),
{
    law_project_name(stem + ".xcodeproj"@);
    assert forall|j: int| 0 <= j < names.len() && project_name(#[trigger] names[j]) implies j
        == entry by {
        law_project_name(names[j]->0);
        if j != entry {
            let other = choose|other: Seq<char>| names[j]->0 == #[trigger] (other + ".xcodeproj"@);
            assert(names[j]->0 == other + ".xcodeproj"@);
        }
    }
    assert(sole_project(names, entry));
    let found = choose|i: int| sole_project(names, i);
    assert(sole_project(names, found));
    assert(project_name(names[found]));
}

/// Where two entries have such a name, or none has, the search ends without a property list.
pub proof fn law_no_single_project_entry(names: Seq<Option<Seq<char>>>)
    ensures
        (forall|j: int, stem: Seq<char>|
            0 <= j < names.len() && #[trigger] names[j] is Some ==> names[j]->0 != #[trigger] (stem
                + ".xcodeproj"@)) ==> next_task(
            TaskView::ListCurrentDir,
            EventView::Entries { names },
        ) == (TaskView::Finished { plist: None }),
        forall|i: int, j: int, a: Seq<char>, b: Seq<char>|
            0 <= i < j < names.len() && #[trigger] names[i] == Some(#[trigger] (a + ".xcodeproj"@))
                && #[trigger] names[j] == Some(#[trigger] (b + ".xcodeproj"@)) ==> next_task(
                TaskView::ListCurrentDir,
                EventView::Entries { names },
            ) == (TaskView::Finished { plist: None }),
{
    assert forall|i: int| #[trigger] sole_project(names, i) implies exists|stem: Seq<char>|
        names[i]->0 == #[trigger] (stem + ".xcodeproj"@) by {
        law_project_name(names[i]->0);
    }
    if forall|j: int, stem: Seq<char>|
        0 <= j < names.len() && #[trigger] names[j] is Some ==> names[j]->0 != #[trigger] (stem
            + ".xcodeproj"@) {
        if exists|i: int| sole_project(names, i) {
            let i = choose|i: int| sole_project(names, i);
            assert(project_name(names[i]));
            let stem = choose|stem: Seq<char>| names[i]->0 == #[trigger] (stem + ".xcodeproj"@);
            assert(names[i] is Some);
            assert(names[i]->0 == stem + ".xcodeproj"@);
        }
    }
    assert forall|i: int, j: int, a: Seq<char>, b: Seq<char>|
        0 <= i < j < names.len() && #[trigger] names[i] == Some(#[trigger] (a + ".xcodeproj"@))
            && #[trigger] names[j] == Some(#[trigger] (b + ".xcodeproj"@)) implies next_task(
        TaskView::ListCurrentDir,
        EventView::Entries { names },
    ) == (TaskView::Finished { plist: None }) by {
        law_project_name(a + ".xcodeproj"@);
        law_project_name(b + ".xcodeproj"@);
        assert(project_name(names[i]) && project_name(names[j]));
        assert forall|k: int| !sole_project(names, k) by {
            if sole_project(names, k) {
                assert(i == k && j == k);
            }
        }
    }
}

/// Under Xcode, where `INFOPLIST_FILE` is set, exactly that file is loaded, with the
/// environment as its variables, from `PROJECT_DIR` on where that is set, and from `.` on
/// where it is not. Elsewhere the environment does not count.
pub proof fn law_environment_names_file(vars: Map<Seq<char>, Seq<char>>)
    ensures
        vars.contains_key("INFOPLIST_FILE"@) && vars.contains_key("PROJECT_DIR"@) ==> first_task(
            true,
            vars,
        ) == (TaskView::LoadPlist {
            base: BaseView::Given(vars["PROJECT_DIR"@]),
            file: vars["INFOPLIST_FILE"@],
            project: None,
            vars,
        }),
        vars.contains_key("INFOPLIST_FILE"@) && !vars.contains_key("PROJECT_DIR"@) ==> first_task(
            true,
            vars,
        ) == (TaskView::LoadPlist {
            base: BaseView::Given("."@),
            file: vars["INFOPLIST_FILE"@],
            project: None,
            vars,
        }),
        first_task(false, vars) is NameCurrentDir,
{
}

/// Under Xcode, without `INFOPLIST_FILE`, the variables make up the property list as they
/// are, where all four are set; otherwise there is none.
pub proof fn law_environment_without_file(vars: Map<Seq<char>, Seq<char>>)
    requires
        !vars.contains_key("INFOPLIST_FILE"@),
    ensures
        ({
            let task = first_task(true, vars);
            let all = vars.contains_key("PRODUCT_NAME"@) && vars.contains_key(
                "PRODUCT_BUNDLE_IDENTIFIER"@,
            ) && vars.contains_key("MARKETING_VERSION"@) && vars.contains_key(
                "CURRENT_PROJECT_VERSION"@,
            );
            &&& !all ==> task == (TaskView::Finished { plist: None })
            &&& all ==> task == (TaskView::Finished {
                plist: Some(
                    PlistView {
                        name: vars["PRODUCT_NAME"@],
                        bundle_id: vars["PRODUCT_BUNDLE_IDENTIFIER"@],
                        version: vars["MARKETING_VERSION"@],
                        build: vars["CURRENT_PROJECT_VERSION"@],
                    },
                ),
            })
        }),
{
}

/// Of a project, the settings of the first target are asked for, in the first configuration
/// that is called `release` but for its case, or else in the first one called `debug`.
/// Without a target, or without either configuration, the search ends.
pub proof fn law_described_project(project: ProjectView, entry: Option<int>, i: int)
    ensures
        ({
            let list = project.configurations;
            let task = next_task(
                TaskView::DescribeProject { entry },
                EventView::Project { project: Some(project) },
            );
            let release = lowercase("release"@);
            let debug = lowercase("debug"@);
            let no_release = forall|j: int|
                0 <= j < list.len() ==> lowercase(#[trigger] list[j]) != release;
            let no_debug = forall|j: int|
                0 <= j < list.len() ==> lowercase(#[trigger] list[j]) != debug;
            let first_release = 0 <= i < list.len() && lowercase(list[i]) == release && forall|j: int|
                0 <= j < i ==> lowercase(#[trigger] list[j]) != release;
            let first_debug = 0 <= i < list.len() && lowercase(list[i]) == debug && forall|j: int|
                0 <= j < i ==> lowercase(#[trigger] list[j]) != debug;
            &&& project.targets.len() > 0 && (first_release || no_release && first_debug) ==> task
                == (TaskView::ShowBuildSettings {
                project,
                target: project.targets[0],
                configuration: list[i],
            })
            &&& project.targets.len() == 0 || no_release && no_debug ==> task == (
            TaskView::Finished { plist: None })
        }),
        next_task(TaskView::DescribeProject { entry }, EventView::Project { project: None }) == (
        TaskView::Finished { plist: None }),
{
    let list = project.configurations;
    let release = "release"@;
    let debug = "debug"@;
    if 0 <= i < list.len() && lowercase(list[i]) == lowercase(release) && (forall|j: int|
        0 <= j < i ==> lowercase(#[trigger] list[j]) != lowercase(release)) {
        law_first_in_any_case(list, i, release);
    }
    if 0 <= i < list.len() && lowercase(list[i]) == lowercase(debug) && (forall|j: int|
        0 <= j < i ==> lowercase(#[trigger] list[j]) != lowercase(debug)) {
        law_first_in_any_case(list, i, debug);
    }
    if forall|j: int| 0 <= j < list.len() ==> lowercase(#[trigger] list[j]) != lowercase(release) {
        law_none_in_any_case(list, release);
    }
    if forall|j: int| 0 <= j < list.len() ==> lowercase(#[trigger] list[j]) != lowercase(debug) {
        law_none_in_any_case(list, debug);
    }
}

/// Where the build settings of a project set `INFOPLIST_FILE`, exactly that file is loaded,
/// with the settings as its variables, from `PROJECT_DIR` on where that is set, and from the
/// directory that the project lies in where it is not. Otherwise the search ends.
pub proof fn law_settings_name_file(
    project: ProjectView,
    target: Seq<char>,
    configuration: Seq<char>,
    vars: Map<Seq<char>, Seq<char>>,
)
    ensures
        ({
            let task = next_task(
                TaskView::ShowBuildSettings { project, target, configuration },
                EventView::BuildSettings { vars },
            );
            let file = "INFOPLIST_FILE"@;
            let dir = "PROJECT_DIR"@;
            &&& vars.contains_key(file) && vars.contains_key(dir) ==> task == (
            TaskView::LoadPlist {
                base: BaseView::Given(vars[dir]),
                file: vars[file],
                project: Some(project),
                vars,
            })
            &&& vars.contains_key(file) && !vars.contains_key(dir) ==> task == (
            TaskView::LoadPlist {
                base: BaseView::ProjectParent,
                file: vars[file],
                project: Some(project),
                vars,
            })
            &&& !vars.contains_key(file) ==> task == (TaskView::Finished { plist: None })
        }),
{
}

/// What is loaded is the property list that was read, entry by entry with its references
/// replaced. Where none could be read, it is made up of the variables, whose own references
/// are replaced too, unless the file was to go through the preprocessor.
pub proof fn law_loaded_entries(read: Option<PlistView>, vars: Map<Seq<char>, Seq<char>>)
    ensures
        ({
            let result = loaded(read, vars);
            let preprocess = vars.contains_key("INFOPLIST_PREPROCESS"@)
                && vars["INFOPLIST_PREPROCESS"@] == "YES"@;
            let name = "PRODUCT_NAME"@;
            let bundle_id = "PRODUCT_BUNDLE_IDENTIFIER"@;
            let version = "MARKETING_VERSION"@;
            let build = "CURRENT_PROJECT_VERSION"@;
            let all = vars.contains_key(name) && vars.contains_key(bundle_id)
                && vars.contains_key(version) && vars.contains_key(build);
            &&& read is Some ==> result is Ok && {
                let plist = result->Ok_0;
                &&& plist.name == expanded((read->0).name, vars)
                &&& plist.bundle_id == expanded((read->0).bundle_id, vars)
                &&& plist.version == expanded((read->0).version, vars)
                &&& plist.build == expanded((read->0).build, vars)
            }
            &&& read is None && preprocess ==> result == Err::<PlistView, LoadFailure>(
                LoadFailure::Unreadable,
            )
            &&& read is None && !preprocess && all ==> result is Ok && {
                let plist = result->Ok_0;
                &&& plist.name == expanded(vars[name], vars)
                &&& plist.bundle_id == expanded(vars[bundle_id], vars)
                &&& plist.version == expanded(vars[version], vars)
                &&& plist.build == expanded(vars[build], vars)
            }
            &&& read is None && !preprocess && !all ==> result == Err::<PlistView, LoadFailure>(
                LoadFailure::Missing(
                    if !vars.contains_key(name) {
                        MissingVar::ProductName
                    } else if !vars.contains_key(bundle_id) {
                        MissingVar::BundleIdentifier
                    } else if !vars.contains_key(version) {
                        MissingVar::MarketingVersion
                    } else {
                        MissingVar::ProjectVersion
                    },
                ),
            )
        }),
{
}

/// The search ends with what is loaded by the variables of the task, whatever its base, file
/// and project are, or with the reason why nothing was.
pub proof fn law_search_ends_with_loaded(
    base: BaseView,
    file: Seq<char>,
    project: Option<ProjectView>,
    vars: Map<Seq<char>, Seq<char>>,
    read: Option<PlistView>,
)
    ensures
        ({
            let task = next_task(
                TaskView::LoadPlist { base, file, project, vars },
                EventView::Plist { plist: read },
            );
            &&& loaded(read, vars) is Ok ==> task == (TaskView::Finished {
                plist: Some(loaded(read, vars)->Ok_0),
            })
            &&& loaded(read, vars) is Err ==> task == (TaskView::Failed {
                failure: loaded(read, vars)->Err_0,
            })
        }),
{
}

/// A path starts in the current directory exactly where the environment names its base, and
/// in the project's directory exactly where no base is named.
pub proof fn law_start(dir: Seq<char>, in_project: bool)
    ensures
        start_of(BaseView::Given(dir), false) is CurrentDir,
        start_of(BaseView::Given(dir), true) is Nowhere,
        start_of(BaseView::ProjectParent, in_project) is ProjectParent,
{
}

/// An event stands for what it holds: the same texts, in the same order.
pub proof fn law_event_views(
    name: Option<String>,
    names: Vec<Option<String>>,
    project: Option<XcodeProjectInfo>,
    vars: BuildVars,
    plist: Option<InfoPlist>,
)
    ensures
        Event::NoCurrentDir@ is NoCurrentDir,
        name is None ==> (Event::CurrentDir { name })@ == (EventView::CurrentDir { name: None }),
        name is Some ==> (Event::CurrentDir { name })@ == (EventView::CurrentDir {
            name: Some((name->0)@),
        }),
        (Event::Entries { names })@ matches EventView::Entries { names: views } && {
            &&& views.len() == names@.len()
            &&& forall|i: int|
                #![trigger views[i]]
                0 <= i < views.len() ==> if names@[i] is Some {
                    views[i] == Some((names@[i]->0)@)
                } else {
                    views[i] is None
                }
        },
        project is None ==> (Event::Project { project })@ == (EventView::Project { project: None }),
        project is Some ==> (Event::Project { project })@ == (EventView::Project {
            project: Some((project->0)@),
        }),
        (Event::BuildSettings { vars })@ == (EventView::BuildSettings { vars: vars@ }),
        plist is None ==> (Event::Plist { plist })@ == (EventView::Plist { plist: None }),
        plist is Some ==> (Event::Plist { plist })@ == (EventView::Plist {
            plist: Some((plist->0)@),
        }),
{
}

/// A task stands for what it holds: the same texts, the same entry, the same project.
pub proof fn law_task_views(
    entry: Option<usize>,
    project: XcodeProjectInfo,
    target: String,
    configuration: String,
    base: BaseDir,
    file: String,
    found: Option<XcodeProjectInfo>,
    vars: BuildVars,
    plist: Option<InfoPlist>,
    failure: LoadFailure,
)
    ensures
        Task::NameCurrentDir@ is NameCurrentDir,
        Task::ListCurrentDir@ is ListCurrentDir,
        entry is None ==> (Task::DescribeProject { entry })@ == (TaskView::DescribeProject {
            entry: None,
        }),
        entry is Some ==> (Task::DescribeProject { entry })@ == (TaskView::DescribeProject {
            entry: Some(entry->0 as int),
        }),
        (Task::ShowBuildSettings { project, target, configuration })@ == (
        TaskView::ShowBuildSettings {
            project: project@,
            target: target@,
            configuration: configuration@,
        }),
        base matches BaseDir::Given(dir) ==> base@ == BaseView::Given(dir@),
        base is ProjectParent ==> base@ is ProjectParent,
        found is None ==> (Task::LoadPlist { base, file, project: found, vars })@ == (
        TaskView::LoadPlist { base: base@, file: file@, project: None, vars: vars@ }),
        found is Some ==> (Task::LoadPlist { base, file, project: found, vars })@ == (
        TaskView::LoadPlist {
            base: base@,
            file: file@,
            project: Some((found->0)@),
            vars: vars@,
        }),
        plist is None ==> (Task::Finished { plist })@ == (TaskView::Finished { plist: None }),
        plist is Some ==> (Task::Finished { plist })@ == (TaskView::Finished {
            plist: Some((plist->0)@),
        }),
        (Task::Failed { failure })@ == (TaskView::Failed { failure }),
{
}

} // verus!
