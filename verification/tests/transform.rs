use response_transformer::Config;
use response_transformer::Headers;
use response_transformer::KeyValuePair;
use response_transformer::NameList;
use response_transformer::PairList;
use response_transformer::ResponseTransformerContext;

fn empty_config() -> Config {
    Config {
        remove: NameList { headers: vec![] },
        rename: PairList { headers: vec![] },
        replace: PairList { headers: vec![] },
        add: PairList { headers: vec![] },
        append: PairList { headers: vec![] },
    }
}

fn pair(a: &str, b: &str) -> KeyValuePair {
    KeyValuePair(a.to_string(), b.to_string())
}

fn headers_of(entries: &[(&str, &str)]) -> Headers {
    let mut h = Headers::new();
    for (name, value) in entries {
        h.add(&name.to_string(), &value.to_string());
    }
    h
}

fn entries_of(h: &Headers) -> Vec<(String, String)> {
    let mut out = Vec::new();
    for i in 0..h.len() {
        out.push((h.name_at(i).clone(), h.value_at(i).clone()));
    }
    out
}

#[test]
fn scenario_remove_present() {
    let mut config = empty_config();
    config.remove.headers.push("X-Debug".to_string());
    let ctx = ResponseTransformerContext::new(config);
    let mut headers = headers_of(&[("X-Debug", "1")]);
    let counts = ctx.on_response_headers(&mut headers);
    assert_eq!(headers.len(), 0);
    assert!(headers.get(&"X-Debug".to_string()).is_none());
    assert_eq!(counts.removed, 1);
}

#[test]
fn scenario_rename_present() {
    let mut config = empty_config();
    config.rename.headers.push(pair("X-Old", "X-New"));
    let ctx = ResponseTransformerContext::new(config);
    let mut headers = headers_of(&[("X-Old", "v1")]);
    let counts = ctx.on_response_headers(&mut headers);
    assert!(headers.get(&"X-Old".to_string()).is_none());
    assert_eq!(headers.get(&"X-New".to_string()), Some("v1".to_string()));
    assert_eq!(counts.renamed, 1);
}

#[test]
fn scenario_replace_absent() {
    let mut config = empty_config();
    config.replace.headers.push(pair("X-Env", "prod"));
    let ctx = ResponseTransformerContext::new(config);
    let mut headers = headers_of(&[("X-Other", "v")]);
    let counts = ctx.on_response_headers(&mut headers);
    assert!(headers.get(&"X-Env".to_string()).is_none());
    assert_eq!(headers.len(), 1);
    assert_eq!(counts.replaced, 0);
}

#[test]
fn scenario_add_present() {
    let mut config = empty_config();
    config.add.headers.push(pair("X-Added", "1"));
    let ctx = ResponseTransformerContext::new(config);
    let mut headers = headers_of(&[("X-Added", "0")]);
    let counts = ctx.on_response_headers(&mut headers);
    assert_eq!(headers.get(&"X-Added".to_string()), Some("0".to_string()));
    assert_eq!(headers.len(), 1);
    assert_eq!(counts.added, 0);
}

#[test]
fn scenario_append_present() {
    let mut config = empty_config();
    config.append.headers.push(pair("X-Trace", "abc"));
    let ctx = ResponseTransformerContext::new(config);
    let mut headers = headers_of(&[("X-Trace", "xyz")]);
    let counts = ctx.on_response_headers(&mut headers);
    let values = headers.get_all(&"X-Trace".to_string());
    assert_eq!(values, vec!["xyz".to_string(), "abc".to_string()]);
    assert_eq!(counts.appended, 1);
}

#[test]
fn remove_absent_is_noop_but_counted() {
    let mut config = empty_config();
    config.remove.headers.push("X-Missing".to_string());
    let ctx = ResponseTransformerContext::new(config);
    let mut headers = headers_of(&[("X-Keep", "v")]);
    let counts = ctx.on_response_headers(&mut headers);
    assert_eq!(
        entries_of(&headers),
        vec![("X-Keep".to_string(), "v".to_string())]
    );
    assert_eq!(counts.removed, 1);
}

#[test]
fn replace_present_overwrites_and_counts() {
    let mut config = empty_config();
    config.replace.headers.push(pair("X-Env", "prod"));
    let ctx = ResponseTransformerContext::new(config);
    let mut headers = headers_of(&[("X-Env", "dev"), ("X-Env", "stage")]);
    let counts = ctx.on_response_headers(&mut headers);
    let values = headers.get_all(&"X-Env".to_string());
    assert_eq!(values, vec!["prod".to_string()]);
    assert_eq!(counts.replaced, 1);
}

#[test]
fn add_absent_sets_and_counts() {
    let mut config = empty_config();
    config.add.headers.push(pair("X-Added", "1"));
    let ctx = ResponseTransformerContext::new(config);
    let mut headers = Headers::new();
    let counts = ctx.on_response_headers(&mut headers);
    assert_eq!(headers.get(&"X-Added".to_string()), Some("1".to_string()));
    assert_eq!(counts.added, 1);
}

#[test]
fn append_preserves_prior_occurrences() {
    let mut config = empty_config();
    config.append.headers.push(pair("X-Trace", "c"));
    let ctx = ResponseTransformerContext::new(config);
    let mut headers = headers_of(&[("X-Trace", "a"), ("X-Other", "o"), ("X-Trace", "b")]);
    let counts = ctx.on_response_headers(&mut headers);
    let values = headers.get_all(&"X-Trace".to_string());
    assert_eq!(
        values,
        vec!["a".to_string(), "b".to_string(), "c".to_string()]
    );
    assert_eq!(counts.appended, 1);
}

#[test]
fn rename_absent_source_deletes_target() {
    let mut config = empty_config();
    config.rename.headers.push(pair("X-Gone", "X-Target"));
    let ctx = ResponseTransformerContext::new(config);
    let mut headers = headers_of(&[("X-Target", "old")]);
    let counts = ctx.on_response_headers(&mut headers);
    assert!(headers.get(&"X-Target".to_string()).is_none());
    assert_eq!(headers.len(), 0);
    assert_eq!(counts.renamed, 1);
}

#[test]
fn second_rename_to_same_target_wins() {
    let mut config = empty_config();
    config.rename.headers.push(pair("X-A", "X-T"));
    config.rename.headers.push(pair("X-B", "X-T"));
    let ctx = ResponseTransformerContext::new(config);
    let mut headers = headers_of(&[("X-A", "1"), ("X-B", "2"), ("X-T", "0")]);
    let counts = ctx.on_response_headers(&mut headers);
    assert_eq!(headers.get(&"X-T".to_string()), Some("2".to_string()));
    assert!(headers.get(&"X-A".to_string()).is_none());
    assert!(headers.get(&"X-B".to_string()).is_none());
    assert_eq!(counts.renamed, 2);
}

#[test]
fn transformation_is_deterministic() {
    let make_config = || {
        let mut config = empty_config();
        config.remove.headers.push("X-Debug".to_string());
        config.rename.headers.push(pair("X-Old", "X-New"));
        config.replace.headers.push(pair("X-Env", "prod"));
        config.add.headers.push(pair("X-Added", "1"));
        config.append.headers.push(pair("X-Trace", "abc"));
        config
    };
    let initial = &[
        ("X-Debug", "1"),
        ("X-Old", "v1"),
        ("X-Env", "dev"),
        ("X-Trace", "xyz"),
    ];
    let ctx1 = ResponseTransformerContext::new(make_config());
    let ctx2 = ResponseTransformerContext::new(make_config());
    let mut h1 = headers_of(initial);
    let mut h2 = headers_of(initial);
    let c1 = ctx1.on_response_headers(&mut h1);
    let c2 = ctx2.on_response_headers(&mut h2);
    assert_eq!(entries_of(&h1), entries_of(&h2));
    assert_eq!(c1.removed, c2.removed);
    assert_eq!(c1.renamed, c2.renamed);
    assert_eq!(c1.replaced, c2.replaced);
    assert_eq!(c1.added, c2.added);
    assert_eq!(c1.appended, c2.appended);
}

#[test]
fn phases_compound_in_order() {
    let mut config = empty_config();
    config.remove.headers.push("X-Set".to_string());
    config.add.headers.push(pair("X-Set", "new"));
    let ctx = ResponseTransformerContext::new(config);
    let mut headers = headers_of(&[("X-Set", "old")]);
    let counts = ctx.on_response_headers(&mut headers);
    assert_eq!(headers.get(&"X-Set".to_string()), Some("new".to_string()));
    assert_eq!(counts.removed, 1);
    assert_eq!(counts.added, 1);
}

#[test]
fn later_entry_sees_earlier_entry_of_same_phase() {
    let mut config = empty_config();
    config.rename.headers.push(pair("X-A", "X-B"));
    config.rename.headers.push(pair("X-B", "X-C"));
    let ctx = ResponseTransformerContext::new(config);
    let mut headers = headers_of(&[("X-A", "v")]);
    let counts = ctx.on_response_headers(&mut headers);
    assert!(headers.get(&"X-A".to_string()).is_none());
    assert!(headers.get(&"X-B".to_string()).is_none());
    assert_eq!(headers.get(&"X-C".to_string()), Some("v".to_string()));
    assert_eq!(counts.renamed, 2);
}

#[test]
fn default_config_changes_nothing() {
    let ctx = ResponseTransformerContext::new(Config::default());
    let mut headers = headers_of(&[("X-Keep", "v")]);
    let counts = ctx.on_response_headers(&mut headers);
    assert_eq!(
        entries_of(&headers),
        vec![("X-Keep".to_string(), "v".to_string())]
    );
    assert_eq!(counts.removed, 0);
    assert_eq!(counts.renamed, 0);
    assert_eq!(counts.replaced, 0);
    assert_eq!(counts.added, 0);
    assert_eq!(counts.appended, 0);
}
