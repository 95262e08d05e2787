use sentry_cli::expand::expand_xcodevars;
use sentry_cli::vars::BuildVars;

fn vars() -> BuildVars {
    let mut vars = BuildVars::new();
    vars.insert("FOO_BAR".to_owned(), "foo bar baz / blah".to_owned());
    vars
}

#[test]
fn test_expansion() {
    let mut vars = BuildVars::new();
    vars.insert("FOO_BAR".to_owned(), "foo bar baz / blah".to_owned());

    assert_eq!(
        expand_xcodevars("A$(FOO_BAR:rfc1034identifier)B", &vars),
        "Afoo-bar-baz-blahB"
    );
    assert_eq!(
        expand_xcodevars("A$(FOO_BAR:identifier)B", &vars),
        "Afoo_bar_baz_blahB"
    );
    assert_eq!(
        expand_xcodevars("A${FOO_BAR:identifier}B", &vars),
        "Afoo_bar_baz_blahB"
    );
}

#[test]
fn plain_text_stays() {
    assert_eq!(expand_xcodevars("no variables: (here) {there}", &vars()), "no variables: (here) {there}");
    assert_eq!(expand_xcodevars("", &vars()), "");
}

#[test]
fn value_without_a_known_modifier_stays() {
    assert_eq!(expand_xcodevars("$(FOO_BAR)", &vars()), "foo bar baz / blah");
    assert_eq!(expand_xcodevars("$(FOO_BAR:upper)", &vars()), "foo bar baz / blah");
    assert_eq!(expand_xcodevars("$(FOO_BAR:)", &vars()), "foo bar baz / blah");
    assert_eq!(expand_xcodevars("$(FOO_BAR:identifier:x)", &vars()), "foo bar baz / blah");
}

#[test]
fn bare_names_and_dollars() {
    assert_eq!(expand_xcodevars("$FOO_BAR-$FOO_BARS", &vars()), "foo bar baz / blah-");
    assert_eq!(expand_xcodevars("$$FOO_BAR", &vars()), "$FOO_BAR");
    assert_eq!(expand_xcodevars("100$ $() $(FOO_BAR", &vars()), "100$ $() $(FOO_BAR");
    assert_eq!(expand_xcodevars("$", &vars()), "$");
}

#[test]
fn unknown_variables_are_empty() {
    assert_eq!(expand_xcodevars("<$(NOTHING)>", &vars()), "<>");
    assert_eq!(expand_xcodevars("<$(NOTHING:identifier)>", &vars()), "<>");
}

#[test]
fn values_are_not_expanded_again() {
    let mut vars = BuildVars::new();
    vars.insert("A".to_owned(), "$(B) $$".to_owned());
    vars.insert("B".to_owned(), "b".to_owned());
    assert_eq!(expand_xcodevars("$(A)${B}", &vars), "$(B) $$b");
}

#[test]
fn separators_are_white_space_and_slashes() {
    let mut vars = BuildVars::new();
    let spaces = "\t\n\r\u{b} \u{85}\u{a0}\u{1680}\u{2000}\u{200a}\u{2028}\u{2029}\u{202f}\u{205f}\u{3000}/";
    vars.insert("S".to_owned(), format!("/a{spaces}b\u{200b}c "));
    assert_eq!(expand_xcodevars("${S:rfc1034identifier}", &vars), "-a-b\u{200b}c-");
    let once = expand_xcodevars("${S:identifier}", &vars);
    vars.insert("T".to_owned(), once.clone());
    assert_eq!(expand_xcodevars("${T:identifier}", &vars), once);
}

#[test]
fn last_value_counts() {
    let mut vars = vars();
    vars.insert("FOO_BAR".to_owned(), "new".to_owned());
    assert_eq!(vars.get("FOO_BAR"), Some(&"new".to_owned()));
    assert_eq!(vars.get("FOO"), None);
}
