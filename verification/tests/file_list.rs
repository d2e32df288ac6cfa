use shinnku::drivers::FileDownloadProviderName;
use shinnku::file_list::{
    path_to_uuid, uuid_to_string, DownloadLinkCache, EqualFileDownloadSource, FileDownloadSources,
    LinkCache, NAMESPACE_DNS,
};

fn source(token: &str, cache: Option<u128>) -> EqualFileDownloadSource {
    EqualFileDownloadSource {
        provider: FileDownloadProviderName::OneDrive,
        token: token.to_string(),
        cache_id: cache,
    }
}

#[test]
fn namespace_matches_the_uuid_crate() {
    assert_eq!(NAMESPACE_DNS, uuid::Uuid::NAMESPACE_DNS.as_u128());
}

#[test]
fn uuid_text_is_hyphenated_lower_hex() {
    assert_eq!(uuid_to_string(NAMESPACE_DNS), "6ba7b810-9dad-11d1-80b4-00c04fd430c8");
    assert_eq!(uuid_to_string(0), "00000000-0000-0000-0000-000000000000");
    assert_eq!(uuid_to_string(u128::MAX), "ffffffff-ffff-ffff-ffff-ffffffffffff");
    let u = uuid::Uuid::from_u128(0x0123456789abcdef_fedcba9876543210);
    assert_eq!(uuid_to_string(u.as_u128()), u.hyphenated().to_string());
}

#[test]
fn path_uuid_is_salted_v5() {
    let expected = uuid::Uuid::new_v5(&uuid::Uuid::NAMESPACE_DNS, b"games/a.zipshinnku");
    let got = path_to_uuid("games/a.zip");
    assert_eq!(got, expected.as_u128());
    assert_ne!(got, uuid::Uuid::new_v5(&uuid::Uuid::NAMESPACE_DNS, b"games/a.zip").as_u128());
    assert_eq!(uuid::Uuid::from_u128(got).get_version_num(), 5);
    assert_eq!(path_to_uuid("games/a.zip"), got);
    assert_ne!(path_to_uuid("games/b.zip"), got);
}

#[test]
fn redis_keys() {
    let u = path_to_uuid("x");
    let text = uuid::Uuid::from_u128(u).to_string();
    assert_eq!(FileDownloadSources::redis_key(u), format!("file_source:{}", text));
    assert_eq!(DownloadLinkCache::redis_key(u), format!("link_cache:{}", text));
    assert_ne!(FileDownloadSources::redis_key(u), DownloadLinkCache::redis_key(u));
}

#[test]
fn cache_entry_uses_link_uuid() {
    let link = LinkCache { link: "https://example.org/f".to_string(), created_at: 0 };
    let (id, key) = DownloadLinkCache::cache_entry(&link);
    assert_eq!(id, path_to_uuid("https://example.org/f"));
    assert_eq!(key, DownloadLinkCache::redis_key(id));
}

#[test]
fn cached_value_empty_is_missing() {
    assert_eq!(DownloadLinkCache::cached_value(String::new()), None);
    assert_eq!(DownloadLinkCache::cached_value("{}".to_string()), Some("{}".to_string()));
}

#[test]
fn equality_ignores_cache_id() {
    assert!(source("t", Some(1)) == source("t", None));
    assert!(source("t", None) != source("u", None));
}

#[test]
fn update_item_moves_match_to_end() {
    let mut list = vec![source("a", None), source("b", None), source("c", None)];
    FileDownloadSources::update_item(&mut list, source("a", Some(9)));
    let tokens: Vec<&str> = list.iter().map(|s| s.token.as_str()).collect();
    assert_eq!(tokens, vec!["b", "c", "a"]);
    assert_eq!(list[2].cache_id, Some(9));
}

#[test]
fn update_item_without_match_leaves_list() {
    let mut list = vec![source("a", None), source("b", None)];
    FileDownloadSources::update_item(&mut list, source("z", Some(1)));
    let tokens: Vec<&str> = list.iter().map(|s| s.token.as_str()).collect();
    assert_eq!(tokens, vec!["a", "b"]);
}

#[test]
fn update_item_on_integers() {
    let mut list = vec![1, 2, 3, 2];
    FileDownloadSources::update_item(&mut list, 2);
    assert_eq!(list, vec![1, 3, 2, 2]);
}

#[test]
fn pick_random_picks_a_member() {
    assert!(FileDownloadSources::pick_random(&Vec::new()).is_none());
    let list = vec![source("a", None), source("b", Some(3))];
    for _ in 0..20 {
        let picked = FileDownloadSources::pick_random(&list).unwrap();
        assert!(list.iter().any(|s| s.token == picked.token && s.cache_id == picked.cache_id));
    }
}
