use sentry_cli::commands::{build_settings_args, list_args, preprocess_args, Arg};
use sentry_cli::discovery::{plist_path, BaseDir, Event, LoadFailure, Start, Task};
use sentry_cli::paths::{path_as_url, text_as_url};
use sentry_cli::settings::OutputError;
use sentry_cli::vars::BuildVars;
use sentry_cli::xcode::{InfoPlist, MissingVar, XcodeProjectInfo};
use std::path::{Path, PathBuf};

fn vars(list: &[(&str, &str)]) -> BuildVars {
    let mut vars = BuildVars::new();
    for (name, value) in list {
        vars.insert((*name).to_owned(), (*value).to_owned());
    }
    vars
}

fn strings(list: &[&str]) -> Vec<String> {
    list.iter().map(|s| (*s).to_owned()).collect()
}

fn shown(args: &[Arg]) -> Vec<String> {
    args.iter()
        .map(|arg| match arg {
            Arg::Text(text) => text.clone(),
            Arg::Path => "<path>".to_owned(),
        })
        .collect()
}

const ENTRIES: [(&str, &str); 4] = [
    ("PRODUCT_NAME", "App"),
    ("PRODUCT_BUNDLE_IDENTIFIER", "io.app.$(PRODUCT_NAME:identifier)"),
    ("MARKETING_VERSION", "1.2"),
    ("CURRENT_PROJECT_VERSION", "34"),
];

fn project(configurations: &[&str], targets: &[&str]) -> XcodeProjectInfo {
    XcodeProjectInfo::new(
        strings(targets),
        strings(configurations),
        PathBuf::from("/src/App.xcodeproj"),
    )
}

#[test]
fn plist_of_the_environment() {
    let plist = InfoPlist::from_env_vars(&vars(&ENTRIES)).unwrap();
    assert_eq!(plist.name(), "App");
    assert_eq!(plist.bundle_id(), "io.app.$(PRODUCT_NAME:identifier)");
    assert_eq!(plist.version(), "1.2");
    assert_eq!(plist.build(), "34");
    assert_eq!(plist.to_string(), "App (1.2)");
    let plist = plist.process(&vars(&ENTRIES));
    assert_eq!(plist.get_release_name(), "io.app.App@1.2");
}

#[test]
fn first_missing_variable_is_reported() {
    let missing = [
        (MissingVar::ProductName, "PRODUCT_NAME is missing"),
        (MissingVar::BundleIdentifier, "PRODUCT_BUNDLE_IDENTIFIER is missing"),
        (MissingVar::MarketingVersion, "MARKETING_VERSION is missing"),
        (MissingVar::ProjectVersion, "CURRENT_PROJECT_VERSION is missing"),
    ];
    for i in 0..4 {
        let error = InfoPlist::from_env_vars(&vars(&ENTRIES[..i])).unwrap_err();
        assert_eq!(error, missing[i].0);
        assert_eq!(error.message(), missing[i].1);
    }
}

#[test]
fn configuration_in_any_case() {
    let info = project(&["Debug", "RELEASE", "release", "ÉTÉ"], &["App", "Tests"]);
    assert_eq!(info.get_configuration("Release"), Some("RELEASE"));
    assert_eq!(info.get_configuration("debug"), Some("Debug"));
    assert_eq!(info.get_configuration("été"), Some("ÉTÉ"));
    assert_eq!(info.get_configuration("profile"), None);
    assert_eq!(info.get_first_target(), Some("App"));
    assert_eq!(project(&[], &[]).get_first_target(), None);
    assert_eq!(info.path(), Path::new("/src/App.xcodeproj"));
    assert_eq!(info.base_path(), Path::new("/src"));
}

#[test]
fn directory_of_a_project() {
    let base = |path: &str| {
        let info = XcodeProjectInfo::new(vec![], vec![], PathBuf::from(path));
        info.find_base_path().map(Path::to_path_buf)
    };
    assert_eq!(base("/foo/bar"), Some(PathBuf::from("/foo")));
    assert_eq!(base("/foo"), Some(PathBuf::from("/")));
    assert_eq!(base("foo"), Some(PathBuf::new()));
    assert_eq!(base("foo/bar/."), Some(PathBuf::from("foo")));
    assert_eq!(base("/"), None);
    assert_eq!(base(""), None);
}

#[test]
fn paths_in_urls() {
    assert_eq!(text_as_url("a\\b/c", true), "a/b/c");
    assert_eq!(text_as_url("a\\b/c", false), "a\\b/c");
    assert_eq!(path_as_url(Path::new("/a b/ä.txt"), false), "/a b/ä.txt");
    assert_eq!(path_as_url(Path::new("a\\b/c"), true), "a/b/c");
}

#[test]
fn property_list_has_a_path() {
    let given = BaseDir::Given("dir".to_owned());
    let path = |start: &str, base: &BaseDir, file: &str| plist_path(PathBuf::from(start), base, file);
    assert_eq!(path("/here", &given, "App/Info.plist"), Path::new("/here/dir/App/Info.plist"));
    assert_eq!(path("", &given, "Info.plist"), Path::new("dir/Info.plist"));
    assert_eq!(path("/src", &BaseDir::ProjectParent, "Info.plist"), Path::new("/src/Info.plist"));
    assert_eq!(given.start(false), Start::CurrentDir);
    assert_eq!(given.start(true), Start::Nowhere);
    assert_eq!(BaseDir::ProjectParent.start(true), Start::ProjectParent);
    let root = BaseDir::Given("/root".to_owned());
    assert_eq!(path("/here", &root, "Info.plist"), Path::new("/root/Info.plist"));
    assert_eq!(path("/here", &given, "/Info.plist"), Path::new("/Info.plist"));
}

#[test]
fn build_settings_are_read() {
    let output = b"Build settings for action build:\n    A = 1\r\n    B = x = y\n   C = no\n    D=no\n     E = \n    A = 2";
    let vars = XcodeProjectInfo::get_build_vars(output).unwrap();
    assert_eq!(vars.get("A").map(String::as_str), Some("2"));
    assert_eq!(vars.get("B").map(String::as_str), Some("x = y"));
    assert_eq!(vars.get("C"), None);
    assert_eq!(vars.get("D"), None);
    assert_eq!(vars.get(" E").map(String::as_str), Some(""));
    assert_eq!(vars.get("E"), None);
}

#[test]
fn build_settings_are_utf8() {
    assert_eq!(XcodeProjectInfo::get_build_vars(b"    A = \xff").err(), Some(OutputError::NotUtf8));
    let vars = XcodeProjectInfo::get_build_vars("    Ä = ß\r".as_bytes()).unwrap();
    assert_eq!(vars.get("Ä").map(String::as_str), Some("ß\r"));
    assert!(XcodeProjectInfo::get_build_vars(b"").is_ok());
}

#[test]
fn commands_are_spelled_out() {
    assert_eq!(shown(&list_args()), ["-list", "-json", "-project", "<path>"]);
    assert_eq!(
        shown(&build_settings_args("App", "Release")),
        ["-showBuildSettings", "-project", "<path>", "-target", "App", "-configuration", "Release"]
    );
    assert!(preprocess_args(&vars(&[("INFOPLIST_PREPROCESS", "NO")])).is_none());
    assert!(preprocess_args(&vars(&[])).is_none());
    let vars = vars(&[
        ("INFOPLIST_PREPROCESS", "YES"),
        ("INFOPLIST_OTHER_PREPROCESSOR_FLAGS", " -traditional\t-C\u{a0}"),
        ("INFOPLIST_PREPROCESSOR_DEFINITIONS", "A=1 B"),
    ]);
    assert_eq!(
        shown(&preprocess_args(&vars).unwrap()),
        ["-xc", "-P", "-E", "-traditional", "-C", "-DA=1", "-DB", "<path>"]
    );
}

#[test]
fn search_under_xcode_loads_the_named_file() {
    let mut env = vars(&ENTRIES);
    env.insert("INFOPLIST_FILE".to_owned(), "App/Info.plist".to_owned());
    match InfoPlist::discover_from_env(true, env) {
        Task::LoadPlist { base: BaseDir::Given(base), file, project: None, .. } => {
            assert_eq!(base, ".");
            assert_eq!(file, "App/Info.plist");
        }
        _ => panic!("a file is named"),
    }
}

#[test]
fn search_under_xcode_without_a_file() {
    match InfoPlist::discover_from_env(true, vars(&ENTRIES)) {
        Task::Finished { plist: Some(plist) } => assert_eq!(plist.name(), "App"),
        _ => panic!("the variables make up a property list"),
    }
    assert!(matches!(
        InfoPlist::discover_from_env(true, vars(&ENTRIES[..3])),
        Task::Finished { plist: None }
    ));
}

#[test]
fn search_for_the_only_project() {
    let task = InfoPlist::discover_from_env(false, vars(&[]));
    let task = task.advance(Event::CurrentDir { name: Some("src".to_owned()) });
    assert!(matches!(task, Task::ListCurrentDir));
    let names = vec![None, Some("README".to_owned()), Some("App.xcodeproj".to_owned())];
    let task = task.advance(Event::Entries { names });
    assert!(matches!(task, Task::DescribeProject { entry: Some(2) }));
    let task = task.advance(Event::Project {
        project: Some(project(&["Debug", "Release"], &["App", "Tests"])),
    });
    match &task {
        Task::ShowBuildSettings { target, configuration, .. } => {
            assert_eq!(target, "App");
            assert_eq!(configuration, "Release");
        }
        _ => panic!("the project has a target and a configuration"),
    }
    let mut settings = vars(&ENTRIES);
    settings.insert("INFOPLIST_FILE".to_owned(), "Info.plist".to_owned());
    let task = task.advance(Event::BuildSettings { vars: settings });
    assert!(matches!(
        &task,
        Task::LoadPlist { base: BaseDir::ProjectParent, project: Some(_), .. }
    ));
    let read = InfoPlist::new(
        "$(PRODUCT_NAME)".to_owned(),
        "io.$(PRODUCT_NAME)".to_owned(),
        "9".to_owned(),
        "1".to_owned(),
    );
    match task.advance(Event::Plist { plist: Some(read) }) {
        Task::Finished { plist: Some(plist) } => {
            assert_eq!(plist.get_release_name(), "io.App@9");
            assert_eq!(plist.to_string(), "App (9)");
        }
        _ => panic!("the property list was read"),
    }
}

#[test]
fn search_ends_early() {
    let start = || InfoPlist::discover_from_env(false, vars(&[]));
    assert!(matches!(start().advance(Event::NoCurrentDir), Task::Finished { plist: None }));
    let here = start().advance(Event::CurrentDir { name: Some("A.xcodeproj".to_owned()) });
    assert!(matches!(here, Task::DescribeProject { entry: None }));
    assert!(matches!(here.advance(Event::Project { project: None }), Task::Finished { plist: None }));
    let two = vec![Some("A.xcodeproj".to_owned()), Some("B.xcodeproj".to_owned())];
    let list = start().advance(Event::CurrentDir { name: None });
    assert!(matches!(list.advance(Event::Entries { names: two }), Task::Finished { plist: None }));
    assert!(matches!(
        InfoPlist::from_project_info(project(&["Profile"], &["App"])),
        Task::Finished { plist: None }
    ));
    assert!(matches!(
        InfoPlist::from_project_info(project(&["debug"], &[])),
        Task::Finished { plist: None }
    ));
    let settings = InfoPlist::from_project_info(project(&["debug"], &["App"]));
    assert!(matches!(
        settings.advance(Event::BuildSettings { vars: vars(&[]) }),
        Task::Finished { plist: None }
    ));
}

#[test]
fn stray_events_change_nothing() {
    let task = InfoPlist::discover_from_env(false, vars(&[]));
    assert!(matches!(task.advance(Event::Plist { plist: None }), Task::NameCurrentDir));
}

#[test]
fn unreadable_file_falls_back_to_the_variables() {
    let plist = InfoPlist::load_and_process(None, &vars(&ENTRIES)).unwrap();
    assert_eq!(plist.bundle_id(), "io.app.App");
    assert_eq!(
        InfoPlist::load_and_process(None, &vars(&ENTRIES[..2])).err(),
        Some(LoadFailure::Missing(MissingVar::MarketingVersion))
    );
    let mut preprocessed = vars(&ENTRIES);
    preprocessed.insert("INFOPLIST_PREPROCESS".to_owned(), "YES".to_owned());
    assert_eq!(
        InfoPlist::load_and_process(None, &preprocessed).err(),
        Some(LoadFailure::Unreadable)
    );
}
