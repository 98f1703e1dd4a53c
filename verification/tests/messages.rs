use repub::message::{Message, RepubError, RepubLog, RepubLogStatus, RepubWarning};

/// Shows what an error looks like when it is printed.
#[test]
fn test_print_failure_err() {
    println!("{}", RepubError::from("This is err!").to_string());
}

/// Shows what the status of a progress report looks like.
#[test]
fn util_test() {
    println!("{:?}", RepubLogStatus::Packed);
}

/// Shows each kind of message once.
#[test]
fn log() {
    println!("{}", "info log");
    println!("{}", RepubLog(RepubLogStatus::Packed, String::from("Packed")).to_string());
    println!("{}", RepubLog(RepubLogStatus::Converted, String::from("Converted")).to_string());
    println!("{}", RepubLog(RepubLogStatus::Zipped, String::from("Zipped")).to_string());
    println!("{}", RepubLog(RepubLogStatus::Published, String::from("Published")).to_string());
    println!("{}", RepubLog(RepubLogStatus::Removed, String::from("Removed")).to_string());
    println!("{}", RepubWarning(String::from("Warning")).to_string());
    println!("{}", RepubError(String::from("Error")).to_string());
}
