//! Extension matching and the built-in configuration.

use notefeed::walker::{default_config, file_extension, interesting_file};

fn exts() -> Vec<String> {
    vec!["org".to_owned(), "vimwiki".to_owned(), "txt".to_owned(), "wiki".to_owned()]
}

#[test]
fn extension_is_what_follows_the_last_period() {
    assert_eq!(file_extension("notes.org"), Some("org".to_owned()));
    assert_eq!(file_extension("archive.tar.gz"), Some("gz".to_owned()));
    assert_eq!(file_extension("plain"), None);
    assert_eq!(file_extension(".bashrc"), None);
    assert_eq!(file_extension(""), None);
}

#[test]
fn allow_list_is_exact_and_case_sensitive() {
    let exts = exts();
    assert!(interesting_file("diary.org", &exts));
    assert!(interesting_file("index.wiki", &exts));
    assert!(interesting_file("todo.txt", &exts));
    assert!(!interesting_file("diary.ORG", &exts));
    assert!(!interesting_file("diary.org.bak", &exts));
    assert!(!interesting_file("orgfile", &exts));
    assert!(!interesting_file("noext", &exts));
}

#[test]
fn default_config_holds_the_built_in_roots_and_extensions() {
    let config = default_config();
    assert_eq!(config.roots, vec!["/home/rski/Documents", "/home/rski/vimwiki"]);
    assert_eq!(config.extensions, vec!["org", "vimwiki", "txt", "wiki"]);
}

#[test]
fn empty_allow_list_takes_nothing() {
    assert!(!interesting_file("diary.org", &Vec::new()));
}
