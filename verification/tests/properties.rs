use response_transformer::Config;
use response_transformer::ResponseTransformerContext;
use response_transformer::elapsed_millis;

fn context() -> ResponseTransformerContext {
    ResponseTransformerContext::new(Config::default())
}

#[test]
fn get_prop_decodes_utf8_bytes() {
    let ctx = context();
    assert_eq!(ctx.get_prop(Some(b"my-service".to_vec())), "my-service");
    assert_eq!(ctx.get_prop(Some("caf\u{e9}".as_bytes().to_vec())), "caf\u{e9}");
}

#[test]
fn get_prop_absent_is_empty_string() {
    let ctx = context();
    assert_eq!(ctx.get_prop(None), "");
    assert_eq!(ctx.get_prop(Some(Vec::new())), "");
}

#[test]
fn get_prop_invalid_utf8_is_empty_string() {
    let ctx = context();
    assert_eq!(ctx.get_prop(Some(vec![0xff, 0xfe])), "");
}

#[test]
fn elapsed_millis_truncates_to_whole_milliseconds() {
    assert_eq!(elapsed_millis(0, 999_999), 0);
    assert_eq!(elapsed_millis(0, 1_000_000), 1);
    assert_eq!(elapsed_millis(1_000_000_000, 3_500_000_000), 2500);
    assert_eq!(elapsed_millis(5, 5), 0);
}
