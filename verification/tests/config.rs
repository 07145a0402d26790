use grep::config::IGNORE_CASE_VARIABLE;
use grep::Config;

fn arguments(items: &[&str]) -> std::vec::IntoIter<String> {
    let owned: Vec<String> = items.iter().map(|item| item.to_string()).collect();
    owned.into_iter()
}

#[test]
fn build_takes_query_and_file_path() {
    let config = Config::build(arguments(&["grep", "duct", "poem.txt"]), None).unwrap();
    assert_eq!("duct", config.query);
    assert_eq!("poem.txt", config.file_path);
    assert!(!config.ignore_case);
}

#[test]
fn build_without_arguments_fails() {
    assert_eq!(Some("not enough arguments"), Config::build(arguments(&["grep"]), None).err());
    assert_eq!(Some("not enough arguments"), Config::build(arguments(&[]), None).err());
}

#[test]
fn build_without_file_path_fails() {
    let built = Config::build(arguments(&["grep", "duct"]), Some(String::from("1")));
    assert_eq!(Some("not enough arguments"), built.err());
}

#[test]
fn build_ignores_further_arguments() {
    let config =
        Config::build(arguments(&["grep", "duct", "poem.txt", "more", "still more"]), None)
            .unwrap();
    assert_eq!("duct", config.query);
    assert_eq!("poem.txt", config.file_path);
}

#[test]
fn build_takes_empty_query_and_path() {
    let config = Config::build(arguments(&["", "", ""]), None).unwrap();
    assert_eq!("", config.query);
    assert_eq!("", config.file_path);
}

#[test]
fn build_passes_over_the_program_name_only() {
    let config = Config::build(arguments(&["duct", "poem.txt", "other.txt"]), None).unwrap();
    assert_eq!("poem.txt", config.query);
    assert_eq!("other.txt", config.file_path);
}

#[test]
fn build_ignores_case_when_the_variable_is_set() {
    let set = Config::build(arguments(&["grep", "duct", "poem.txt"]), Some(String::from("1")));
    assert!(set.unwrap().ignore_case);
    let empty = Config::build(arguments(&["grep", "duct", "poem.txt"]), Some(String::new()));
    assert!(empty.unwrap().ignore_case);
    let zero = Config::build(arguments(&["grep", "duct", "poem.txt"]), Some(String::from("0")));
    assert!(zero.unwrap().ignore_case);
    let unset = Config::build(arguments(&["grep", "duct", "poem.txt"]), None);
    assert!(!unset.unwrap().ignore_case);
}

#[test]
fn build_reads_arguments_lazily_produced() {
    let produced = ["grep", "duct", "poem.txt"].iter().map(|item| item.to_string());
    let config = Config::build(produced, None).unwrap();
    assert_eq!("duct", config.query);
    assert_eq!("poem.txt", config.file_path);
}

#[test]
fn the_variable_is_named_ignore_case() {
    assert_eq!("IGNORE_CASE", IGNORE_CASE_VARIABLE);
}
