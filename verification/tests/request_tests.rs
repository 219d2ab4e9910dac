use clickhouse::endpoint::build_url;
use clickhouse::error::ConfigError;
use clickhouse::request::{
    assemble, finish_request, plan, Verdicts, ClientConfig, Compression, Method,
};

fn pair(name: &str, value: &str) -> (String, String) {
    (name.to_string(), value.to_string())
}

#[test]
fn read_only_query_of_8192_bytes_uses_get() {
    let config = ClientConfig::default();
    let text = "x".repeat(8192);
    let p = plan(&config, &text, true);
    assert_eq!(p.method, Method::Get);
    assert_eq!(p.pairs, vec![pair("query", &text)]);
    assert!(p.body.is_empty());
}

#[test]
fn read_only_query_of_8193_bytes_uses_post_with_readonly_hint() {
    let config = ClientConfig::default();
    let text = "x".repeat(8193);
    let p = plan(&config, &text, true);
    assert_eq!(p.method, Method::Post);
    assert_eq!(p.pairs, vec![pair("readonly", "1")]);
    assert_eq!(p.body, text.as_bytes().to_vec());
}

#[test]
fn length_is_counted_in_bytes() {
    let config = ClientConfig::default();
    let text = "ж".repeat(4096);
    assert_eq!(text.len(), 8192);
    assert_eq!(plan(&config, &text, true).method, Method::Get);
    let longer = format!("{text}a");
    assert_eq!(plan(&config, &longer, true).method, Method::Post);
}

#[test]
fn writing_query_always_uses_post_without_hint() {
    let config = ClientConfig::default();
    let p = plan(&config, "CREATE TABLE test", false);
    assert_eq!(p.method, Method::Post);
    assert_eq!(p.pairs, Vec::<(String, String)>::new());
    assert_eq!(p.body, b"CREATE TABLE test".to_vec());
}

#[test]
fn pairs_come_in_order() {
    let config = ClientConfig::default()
        .with_database("db")
        .with_compression(Compression::Lz4)
        .with_option("max_threads", "2")
        .with_option("wait_end_of_query", "1");
    let p = plan(&config, "SELECT 1", true);
    assert_eq!(
        p.pairs,
        vec![
            pair("database", "db"),
            pair("query", "SELECT 1"),
            pair("compress", "1"),
            pair("max_threads", "2"),
            pair("wait_end_of_query", "1"),
        ]
    );
    let p = plan(&config, "INSERT", false);
    assert_eq!(
        p.pairs,
        vec![
            pair("database", "db"),
            pair("compress", "1"),
            pair("max_threads", "2"),
            pair("wait_end_of_query", "1"),
        ]
    );
}

#[test]
fn option_set_twice_keeps_its_place() {
    let config = ClientConfig::default()
        .with_option("a", "1")
        .with_option("b", "2")
        .with_option("a", "3");
    let p = plan(&config, "X", false);
    assert_eq!(p.pairs, vec![pair("a", "3"), pair("b", "2")]);
    assert_eq!(config.options(), &vec![pair("a", "3"), pair("b", "2")]);
}

#[test]
fn builds_get_request() {
    let config = ClientConfig::default();
    let request = assemble(&config, "SELECT 1", true).unwrap();
    assert_eq!(request.method, Method::Get);
    assert_eq!(request.url, "http://localhost:8123/?query=SELECT+1");
    assert_eq!(request.headers, vec![pair("content-length", "0")]);
    assert!(request.body.is_empty());
}

#[test]
fn builds_post_request() {
    let config = ClientConfig::default().with_url("http://example.com:8123/base");
    let request = assemble(&config, "CREATE TABLE test", false).unwrap();
    assert_eq!(request.method, Method::Post);
    assert_eq!(request.url, "http://example.com:8123/base?");
    assert_eq!(request.headers, vec![pair("content-length", "17")]);
    assert_eq!(request.body, b"CREATE TABLE test".to_vec());
}

#[test]
fn builds_request_with_everything_configured() {
    let config = ClientConfig::default()
        .with_url("https://ch.example.com")
        .with_database("my db")
        .with_user("alice")
        .with_password("s3cr&t")
        .with_compression(Compression::Lz4)
        .with_option("max_threads", "2");
    let request = assemble(&config, "SELECT a,b FROM `t` WHERE s = 'x?'", true).unwrap();
    assert_eq!(request.method, Method::Get);
    assert_eq!(
        request.url,
        "https://ch.example.com/?database=my+db&query=SELECT+a%2Cb+FROM+%60t%60+WHERE+s+%3D+%27x%3F%27&compress=1&max_threads=2"
    );
    assert_eq!(
        request.headers,
        vec![
            pair("content-length", "0"),
            pair("X-ClickHouse-User", "alice"),
            pair("X-ClickHouse-Key", "s3cr&t"),
        ]
    );
}

#[test]
fn long_reading_query_is_posted_with_hint_in_url() {
    let config = ClientConfig::default().with_database("db");
    let text = "y".repeat(8193);
    let request = assemble(&config, &text, true).unwrap();
    assert_eq!(request.method, Method::Post);
    assert_eq!(request.url, "http://localhost:8123/?database=db&readonly=1");
    assert_eq!(request.headers, vec![pair("content-length", "8193")]);
    assert_eq!(request.body, text.into_bytes());
}

#[test]
fn query_that_the_base_url_came_with_is_dropped() {
    let config = ClientConfig::default().with_url("http://h:1/p?old=1&older=2");
    let request = assemble(&config, "SELECT 1", true).unwrap();
    assert_eq!(request.url, "http://h:1/p?query=SELECT+1");
}

#[test]
fn malformed_base_url_is_a_configuration_error() {
    for url in ["", "not a url", "://x", "http://[::1"] {
        let config = ClientConfig::default().with_url(url);
        assert_eq!(assemble(&config, "SELECT 1", true), Err(ConfigError::Url));
    }
}

#[test]
fn user_that_is_no_header_value_is_a_configuration_error() {
    let config = ClientConfig::default().with_user("al\nice");
    assert_eq!(assemble(&config, "SELECT 1", true), Err(ConfigError::UserHeader));
    let config = ClientConfig::default().with_user("al\u{7f}ice");
    assert_eq!(assemble(&config, "SELECT 1", true), Err(ConfigError::UserHeader));
}

#[test]
fn password_that_is_no_header_value_is_a_configuration_error() {
    let config = ClientConfig::default().with_user("alice").with_password("a\rb");
    assert_eq!(assemble(&config, "SELECT 1", true), Err(ConfigError::PasswordHeader));
    let config = ClientConfig::default().with_user("a\0").with_password("a\rb");
    assert_eq!(assemble(&config, "SELECT 1", true), Err(ConfigError::UserHeader));
}

#[test]
fn tab_and_high_bytes_are_header_values() {
    let config = ClientConfig::default().with_user("a\tb").with_password("пароль");
    let request = assemble(&config, "SELECT 1", true).unwrap();
    assert_eq!(request.headers[1], pair("X-ClickHouse-User", "a\tb"));
    assert_eq!(request.headers[2], pair("X-ClickHouse-Key", "пароль"));
}

#[test]
fn url_that_is_too_long_for_a_request_target_is_a_configuration_error() {
    let config = ClientConfig::default().with_option("pad", &"a".repeat(70000));
    assert_eq!(assemble(&config, "SELECT 1", true), Err(ConfigError::Uri));
}

#[test]
fn build_url_parses_and_appends() {
    assert_eq!(build_url("http://localhost:8123", &vec![]), Ok("http://localhost:8123/?".to_string()));
    assert_eq!(
        build_url("HTTP://LocalHost:8123/a b", &vec![pair("k", "v w"), pair("", ""), pair("ж", "&=")]),
        Ok("http://localhost:8123/a%20b?k=v+w&=&%D0%B6=%26%3D".to_string())
    );
    assert_eq!(
        build_url("http://h/#frag", &vec![pair("a", "1")]),
        Ok("http://h/?a=1#frag".to_string())
    );
    assert_eq!(build_url("nothing", &vec![]), Err(ConfigError::Url));
}

#[test]
fn finish_request_goes_by_the_verdicts() {
    let config = ClientConfig::default().with_user("u").with_password("p");
    let ok = Verdicts { uri: true, user: true, password: true };
    let request =
        finish_request(&config, plan(&config, "Q", false), "http://h/?".to_string(), ok).unwrap();
    assert_eq!(request.url, "http://h/?");
    assert_eq!(
        request.headers,
        vec![pair("content-length", "1"), pair("X-ClickHouse-User", "u"), pair("X-ClickHouse-Key", "p")]
    );
    let all_bad = Verdicts { uri: false, user: false, password: false };
    assert_eq!(
        finish_request(&config, plan(&config, "Q", false), String::new(), all_bad),
        Err(ConfigError::Uri)
    );
    let user_bad = Verdicts { uri: true, user: false, password: false };
    assert_eq!(
        finish_request(&config, plan(&config, "Q", false), String::new(), user_bad),
        Err(ConfigError::UserHeader)
    );
    let password_bad = Verdicts { uri: true, user: true, password: false };
    assert_eq!(
        finish_request(&config, plan(&config, "Q", false), String::new(), password_bad),
        Err(ConfigError::PasswordHeader)
    );
    let bare = ClientConfig::default();
    let request =
        finish_request(&bare, plan(&bare, "Q", false), String::new(), user_bad).unwrap();
    assert_eq!(request.headers, vec![pair("content-length", "1")]);
}

#[test]
fn default_client_points_at_this_machine() {
    let config = ClientConfig::default();
    assert_eq!(config.url(), "http://localhost:8123");
    assert_eq!(config.compression(), Compression::Disabled);
}
