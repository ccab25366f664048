use codehunt::routes::{
    get_milk, index, milk_outcome, seek, ContentTypeExt, ContentTypeGuard, MediaType, MilkResponse,
};
use codehunt::text::{parse_string, Val};

fn media(top: &str, sub: &str) -> MediaType {
    MediaType { top: top.to_string(), sub: sub.to_string() }
}

#[test]
fn index_greets() {
    assert_eq!(index(), "Hello, bird!");
}

#[test]
fn seek_target() {
    assert_eq!(seek(), "https://www.youtube.com/watch?v=9Gc4QTqslN4");
}

#[test]
fn media_types_ignore_ascii_case() {
    assert!(media("application", "toml").is_toml());
    assert!(media("Application", "TOML").is_toml());
    assert!(!media("application", "toml").is_yaml());
    assert!(media("APPLICATION", "yaml").is_yaml());
    assert!(media("application", "Json").is_json());
    assert!(!media("text", "json").is_json());
    assert!(!media("application", "tom").is_toml());
}

#[test]
fn guard_admits_manifest_formats() {
    assert!(ContentTypeGuard::from_content_type(Some(&media("application", "yaml"))).is_some());
    assert!(ContentTypeGuard::from_content_type(Some(&media("application", "json"))).is_some());
    assert!(ContentTypeGuard::from_content_type(Some(&media("application", "toml"))).is_some());
    assert!(ContentTypeGuard::from_content_type(Some(&media("text", "plain"))).is_none());
    assert!(ContentTypeGuard::from_content_type(None).is_none());
}

#[test]
fn milk_replies() {
    assert_eq!(milk_outcome(true), Ok("Milk withdrawn\n".to_string()));
    assert_eq!(milk_outcome(false), Err(MilkResponse::A("No milk available\n".to_string())));
}

#[test]
fn milk_bucket_runs_dry() {
    let bucket = leaky_bucket::RateLimiter::builder()
        .max(5)
        .initial(5)
        .refill(1)
        .interval(std::time::Duration::from_secs(3600))
        .build();
    for _ in 0..5 {
        assert_eq!(get_milk(&bucket), Ok("Milk withdrawn\n".to_string()));
    }
    assert_eq!(get_milk(&bucket), Err(MilkResponse::A("No milk available\n".to_string())));
}

#[test]
fn parse_string_reads_isize() {
    assert_eq!(parse_string(Some("42")), Some(Val::Int(42)));
    assert_eq!(parse_string(Some("-7")), Some(Val::Int(-7)));
    assert_eq!(parse_string(Some("+7")), Some(Val::Int(7)));
    assert_eq!(parse_string(Some("-")), None);
    assert_eq!(parse_string(Some("1.5")), None);
    assert_eq!(parse_string(Some("")), None);
    assert_eq!(parse_string(None), None);
    assert_eq!(parse_string(Some("99999999999999999999999")), None);
}
