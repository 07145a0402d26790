use grep::{run, Config};

fn config(query: &str, ignore_case: bool) -> Config {
    Config { query: query.to_string(), file_path: String::from("poem.txt"), ignore_case }
}

#[test]
fn run_writes_each_match_on_its_own_line() {
    let contents = "Rust:\nsafe, fast, productive.\nPick three.\nTrust me.";
    assert_eq!("Trust me.\n", run(&config("rust", false), contents));
    assert_eq!("Rust:\nTrust me.\n", run(&config("rust", true), contents));
}

#[test]
fn run_writes_nothing_without_a_match() {
    let contents = "Rust:\nsafe, fast, productive.\nPick three.\nTrust me.";
    assert_eq!("", run(&config("tape", false), contents));
    assert_eq!("", run(&config("TAPE", true), contents));
    assert_eq!("", run(&config("", false), ""));
}

#[test]
fn run_with_empty_query_writes_every_line() {
    assert_eq!("a\n\nb\n", run(&config("", false), "a\r\n\r\nb"));
    assert_eq!("a\n\nb\n", run(&config("", true), "a\n\nb\n"));
}

#[test]
fn run_follows_the_configured_case_rule() {
    let contents = "To be\nor not to be";
    assert_eq!("or not to be\n", run(&config("to", false), contents));
    assert_eq!("To be\nor not to be\n", run(&config("to", true), contents));
    assert_eq!("To be\n", run(&config("To", false), contents));
}
