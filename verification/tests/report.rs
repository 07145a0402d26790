use grep::report::EXIT_FAILURE;
use grep::Failure;

#[test]
fn missing_argument_is_reported_with_its_message() {
    let failure = Failure::MissingArgument("not enough arguments");
    assert_eq!("Problem parsing arguments: not enough arguments", failure.diagnostic());
}

#[test]
fn io_failure_is_reported_with_its_cause() {
    let failure = Failure::IoFailure(String::from("No such file or directory (os error 2)"));
    assert_eq!(
        "Application error: No such file or directory (os error 2)",
        failure.diagnostic()
    );
}

#[test]
fn a_failure_ends_the_process_with_one() {
    assert_eq!(1, EXIT_FAILURE);
}
