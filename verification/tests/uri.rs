use linkstore::uri::{AtUri, ParseError};

#[test]
fn test_at_uri_did() {
    let uri = "at://did:plc:hdhoaan3xa3jiuq4fg4mefid";
    let did = "did:plc:hdhoaan3xa3jiuq4fg4mefid".to_string();
    let parsed = AtUri::parse(uri).unwrap();
    assert_eq!(parsed, AtUri::Did(did));
    assert_eq!(parsed.to_string(), uri);
}

#[test]
fn test_at_uri_did_col() {
    let uri = "at://did:plc:hdhoaan3xa3jiuq4fg4mefid/app.bsky.actor.profile";
    let did = "did:plc:hdhoaan3xa3jiuq4fg4mefid".to_string();
    let col = "app.bsky.actor.profile".to_string();
    let parsed = AtUri::parse(uri).unwrap();
    assert_eq!(parsed, AtUri::DidCollection(did, col));
    assert_eq!(parsed.to_string(), uri);
}

#[test]
fn test_at_uri_did_col_rkey() {
    let uri = "at://did:plc:hdhoaan3xa3jiuq4fg4mefid/app.bsky.feed.like/3ld53lnvvhc2w";
    let did = "did:plc:hdhoaan3xa3jiuq4fg4mefid".to_string();
    let col = "app.bsky.feed.like".to_string();
    let rkey = "3ld53lnvvhc2w".to_string();
    let parsed = AtUri::parse(uri).unwrap();
    assert_eq!(parsed, AtUri::DidCollectionKey(did, col, rkey));
    assert_eq!(parsed.to_string(), uri);
}

#[test]
fn round_trip_fully_qualified() {
    let s = "at://did:plc:abc/app.bsky.feed.like/xyz";
    let parsed = AtUri::parse(s).unwrap();
    assert_eq!(
        parsed,
        AtUri::DidCollectionKey(
            "did:plc:abc".to_string(),
            "app.bsky.feed.like".to_string(),
            "xyz".to_string()
        )
    );
    assert_eq!(parsed.to_string(), s);
}

#[test]
fn printing_then_parsing_gives_the_locator_back() {
    let locators = vec![
        AtUri::Did("did:plc:abc".to_string()),
        AtUri::DidCollection("did:plc:abc".to_string(), "app.bsky.graph.follow".to_string()),
        AtUri::DidCollectionKey(
            "did:plc:abc".to_string(),
            "app.bsky.feed.like".to_string(),
            "3ld53lnvvhc2w".to_string(),
        ),
    ];
    for locator in locators {
        let printed = locator.to_string();
        assert_eq!(AtUri::parse(&printed).unwrap(), locator);
    }
}

#[test]
fn missing_scheme_is_rejected() {
    assert_eq!(
        AtUri::parse("https://example.com/x").unwrap_err(),
        ParseError::MissingScheme
    );
    assert_eq!(AtUri::parse("").unwrap_err(), ParseError::MissingScheme);
    assert_eq!(AtUri::parse("at:/did:plc:x").unwrap_err(), ParseError::MissingScheme);
}

#[test]
fn bad_authority_is_rejected() {
    assert_eq!(
        AtUri::parse("at://bob/app.bsky.feed.like/x").unwrap_err(),
        ParseError::BadAuthority
    );
    assert_eq!(AtUri::parse("at://").unwrap_err(), ParseError::BadAuthority);
    assert_eq!(AtUri::parse("at://di/d:x").unwrap_err(), ParseError::BadAuthority);
}

#[test]
fn record_key_keeps_extra_slashes() {
    let s = "at://did:plc:abc/col/k/with/slashes";
    let parsed = AtUri::parse(s).unwrap();
    assert_eq!(
        parsed,
        AtUri::DidCollectionKey(
            "did:plc:abc".to_string(),
            "col".to_string(),
            "k/with/slashes".to_string()
        )
    );
    assert_eq!(parsed.to_string(), s);
}
