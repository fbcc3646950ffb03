use rxplain::verification::{parse_verify_mode, VerifyMode};

#[test]
fn verify_mode_args_map_to_cargo_commands() {
    assert_eq!(VerifyMode::Check.cargo_args(), &["check", "--message-format=json"]);
    assert_eq!(VerifyMode::Build.cargo_args(), &["build", "--message-format=json"]);
    assert_eq!(VerifyMode::Test.cargo_args(), &["test", "--message-format=json"]);
    assert_eq!(VerifyMode::Check.as_str(), "check");
    assert_eq!(VerifyMode::Build.as_str(), "build");
    assert_eq!(VerifyMode::Test.as_str(), "test");
}

#[test]
fn verify_mode_names_parse_back() {
    assert_eq!(parse_verify_mode("check"), Some(VerifyMode::Check));
    assert_eq!(parse_verify_mode("build"), Some(VerifyMode::Build));
    assert_eq!(parse_verify_mode("test"), Some(VerifyMode::Test));
    assert_eq!(parse_verify_mode("Check"), None);
    assert_eq!(VerifyMode::Test.command_line(), "cargo test --message-format=json");
}
