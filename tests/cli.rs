use azure_identity_helpers::azureauth_cli_credentials::{
    cli_not_installed, cli_token, command_failed, executable_candidates, parse,
    uses_windows_features, AzureauthCliCredential, AzureauthCliMode,
};
use azure_identity_helpers::error::ErrorKind;

#[test]
fn parse_example() {
    let token = cli_token("security token here".to_string(), "1700166595").unwrap();
    assert_eq!(token.secret, "security token here");
    let expected = time::OffsetDateTime::from_unix_timestamp(1_700_166_595).expect("known valid date");
    assert_eq!(token.expires_on, expected.unix_timestamp());
}

#[test]
fn parse_accepts_signs_and_range_edges() {
    assert_eq!(parse("0").ok(), Some(0));
    assert_eq!(parse("+42").ok(), Some(42));
    assert_eq!(parse("-1").ok(), Some(-1));
    assert_eq!(parse("253402300799").ok(), Some(253_402_300_799));
    assert_eq!(parse("-377705116800").ok(), Some(-377_705_116_800));
}

#[test]
fn parse_rejects_bad_input() {
    for s in ["", "abc", "12a", " 1", "-", "253402300800", "-377705116801", "99999999999999999999"] {
        let e = parse(s).err().unwrap();
        assert_eq!(e.kind, ErrorKind::DataConversion);
        assert_eq!(e.to_string(), format!("unable to parse expiration_date '{s}"));
    }
}

fn args(c: &AzureauthCliCredential, scopes: &[&str], windows: bool) -> Vec<String> {
    let s: Vec<String> = scopes.iter().map(|x| x.to_string()).collect();
    c.command_args(&s, windows)
}

#[test]
fn command_args_plain() {
    let c = AzureauthCliCredential::new("tenant".to_string(), "client".to_string());
    assert_eq!(
        args(&c, &["s1", "s2"], false),
        vec!["aad", "--client", "client", "--tenant", "tenant", "--output", "json", "--scope", "s1", "--scope", "s2"]
    );
}

#[test]
fn command_args_modes_and_hint() {
    let c = AzureauthCliCredential::new("t".to_string(), "c".to_string())
        .add_mode(AzureauthCliMode::All)
        .add_mode(AzureauthCliMode::IntegratedWindowsAuth)
        .add_mode(AzureauthCliMode::Broker)
        .add_mode(AzureauthCliMode::Web)
        .with_prompt_hint("hint".to_string());
    assert_eq!(
        args(&c, &[], false),
        vec!["aad", "--client", "c", "--tenant", "t", "--output", "json", "--prompt-hint", "hint", "--mode", "all", "--mode", "web"]
    );
    assert_eq!(
        args(&c, &["x"], true),
        vec![
            "aad", "--client", "c", "--tenant", "t", "--output", "json", "--scope", "x", "--prompt-hint", "hint",
            "--mode", "all", "--mode", "iwa", "--mode", "broker", "--mode", "web"
        ]
    );
    let c = c.with_modes(vec![AzureauthCliMode::Web]);
    assert_eq!(
        args(&c, &[], true),
        vec!["aad", "--client", "c", "--tenant", "t", "--output", "json", "--prompt-hint", "hint", "--mode", "web"]
    );
}

#[test]
fn executables_and_errors() {
    assert_eq!(executable_candidates(), vec!["azureauth.exe", "azureauth"]);
    assert!(uses_windows_features("azureauth.exe"));
    assert!(!uses_windows_features("azureauth"));
    let e = cli_not_installed();
    assert_eq!(e.kind, ErrorKind::Other);
    assert_eq!(e.to_string(), "azureauth CLI not installed");
    let e = command_failed("boom");
    assert_eq!(e.kind, ErrorKind::Credential);
    assert_eq!(e.to_string(), "'azureauth' command failed: boom");
}
