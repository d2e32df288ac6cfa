use shinnku::config::Account;
use shinnku::drivers::onedrive::{
    bearer_header, create_source_token, is_expired_at, parse_source_token, token_has_delimiter,
    token_request_form,
    OnedriveConfig,
};
use shinnku::drivers::{DownloadProviderManager, FileDownloadProviderName, ProviderError};
use shinnku::file_list::EqualFileDownloadSource;

fn config(n: &str) -> OnedriveConfig {
    OnedriveConfig {
        refresh_token: format!("refresh-{}", n),
        client_id: format!("client-{}", n),
        client_secret: format!("secret-{}", n),
    }
}

#[test]
fn token_round_trip() {
    let token = create_source_token("file42".to_string(), "drive7".to_string());
    assert_eq!(token, "drive7=:=file42");
    assert_eq!(parse_source_token(&token), ("drive7".to_string(), "file42".to_string()));
}

#[test]
fn parse_takes_first_two_pieces() {
    assert_eq!(parse_source_token("a=:=b=:=c"), ("a".to_string(), "b".to_string()));
    assert_eq!(parse_source_token("=:="), (String::new(), String::new()));
    assert_eq!(parse_source_token("a=:=:=b"), ("a".to_string(), ":=b".to_string()));
}

#[test]
fn parse_where_the_round_trip_fails() {
    let token = create_source_token("b".to_string(), "a=:".to_string());
    assert_eq!(token, "a=:=:=b");
    let mut std_pieces = token.split("=:=");
    let expected = (std_pieces.next().unwrap().to_string(), std_pieces.next().unwrap().to_string());
    assert_eq!(parse_source_token(&token), expected);
    assert_eq!(parse_source_token(&token), ("a".to_string(), ":=b".to_string()));
}

#[test]
fn expiry_after_ten_minutes() {
    let made: i128 = 1_000_000_000;
    assert!(!is_expired_at(made, made + 600_000_000_000));
    assert!(is_expired_at(made, made + 600_000_000_001));
    assert!(!is_expired_at(made, made - 5));
    // a nanosecond past ten minutes already counts
    let made_ns: i128 = 1_700_000_000_123_456_789;
    assert!(!is_expired_at(made_ns, made_ns + 600_000_000_000));
    assert!(is_expired_at(made_ns, made_ns + 600_000_000_001));
}

#[test]
fn token_form_fields() {
    let form = token_request_form(&config("x"));
    let expected: Vec<(String, String)> = vec![
        ("client_id".into(), "client-x".into()),
        ("refresh_token".into(), "refresh-x".into()),
        ("requested_token_use".into(), "on_behalf_of".into()),
        ("client_secret".into(), "secret-x".into()),
        ("grant_type".into(), "refresh_token".into()),
    ];
    assert_eq!(form, expected);
}

#[test]
fn bearer() {
    assert_eq!(bearer_header("abc"), "Bearer abc");
}

#[test]
fn manager_with_accounts_serves_onedrive() {
    let (manager, configs) =
        DownloadProviderManager::from_config(vec![Account::Onedrive(config("1")), Account::Onedrive(config("2"))]);
    assert_eq!(configs.len(), 2);
    assert_eq!(configs[0].client_id, "client-1");
    assert_eq!(configs[1].client_id, "client-2");
    let source = EqualFileDownloadSource {
        provider: FileDownloadProviderName::OneDrive,
        token: "d=:=f".to_string(),
        cache_id: None,
    };
    assert_eq!(manager.get_download_link(&source), Ok(FileDownloadProviderName::OneDrive));
}

#[test]
fn manager_without_accounts_has_no_provider() {
    let (manager, configs) = DownloadProviderManager::from_config(Vec::new());
    assert!(configs.is_empty());
    let source = EqualFileDownloadSource {
        provider: FileDownloadProviderName::OneDrive,
        token: "d=:=f".to_string(),
        cache_id: None,
    };
    assert_eq!(manager.get_download_link(&source), Err(ProviderError::NoSuchProvider));
}

#[test]
fn delimiter_check() {
    assert!(token_has_delimiter("a=:=b"));
    assert!(token_has_delimiter("=:="));
    assert!(!token_has_delimiter("a=:b"));
    assert!(!token_has_delimiter(""));
}

#[test]
fn long_expired_link_by_the_clock() {
    // made before the epoch by more than ten minutes: expired whatever the clock says
    assert!(shinnku::drivers::onedrive::is_expired_time(-600_000_000_001));
    // made far in the future: not expired now
    assert!(!shinnku::drivers::onedrive::is_expired_time(8_000_000_000_000_000_000_000));
}
