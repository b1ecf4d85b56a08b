use hudson_core::credentials::{authenticate_api_token, authenticate_at, identifier, issue_api_token, revoke_api_token, valid_label};
use hudson_core::models::Actor;
use hudson_core::primitives::now;
use hudson_core::store::Data;
use hudson_core::Error;

fn actor() -> Actor {
    Actor { workspace_id: "project".to_string(), id: "service".to_string() }
}

#[test]
fn tokens_preserve_authority_and_rotation_without_storing_the_bearer() {
    let mut store = Data::new();
    let actor = actor();
    let first = issue_api_token(&mut store, actor.clone(), "first".to_string(), now() + 60_000).unwrap();
    let second = issue_api_token(&mut store, actor.clone(), "rotation".to_string(), now() + 60_000).unwrap();
    assert_ne!(first.bearer(), second.bearer());
    assert_eq!(authenticate_api_token(&store, first.bearer()).unwrap().workspace_id, actor.workspace_id);
    // The store keeps the label, identity and a digest, never the bearer or its secret.
    let secret = first.bearer().split_once('.').unwrap().1;
    for record in &store.api_tokens {
        assert_eq!(record.digest.len(), 32);
        assert!(!record.metadata.label.contains(secret));
        assert_ne!(record.digest.as_slice(), first.bearer().as_bytes());
    }
    let other = Actor { workspace_id: "other".to_string(), ..actor.clone() };
    assert!(revoke_api_token(&mut store, &other, first.metadata().id).is_err());
    revoke_api_token(&mut store, &actor, first.metadata().id).unwrap();
    revoke_api_token(&mut store, &actor, first.metadata().id).unwrap();
    assert!(authenticate_api_token(&store, first.bearer()).is_err());
    assert_eq!(authenticate_api_token(&store, second.bearer()).unwrap().id, actor.id);
    let at = now();
    for record in store.api_tokens.iter_mut() {
        if record.metadata.id == second.metadata().id {
            record.metadata.expires_at = at;
        }
    }
    assert!(authenticate_api_token(&store, second.bearer()).is_err());
}

#[test]
fn forged_and_malformed_credentials_do_not_authenticate() {
    let mut store = Data::new();
    let token = issue_api_token(&mut store, actor(), "test".to_string(), now() + 60_000).unwrap();
    let forged = format!("hudson_{:032x}.{}", token.metadata().id, "0".repeat(64));
    for value in [
        "",
        "Bearer token",
        "hudson_",
        &forged,
        &token.bearer().to_uppercase(),
        &format!("{}extra", token.bearer()),
    ] {
        assert!(matches!(authenticate_api_token(&store, value), Err(Error::Denied)));
    }
}

#[test]
fn bearer_has_the_documented_shape() {
    let mut store = Data::new();
    let token = issue_api_token(&mut store, actor(), "shape".to_string(), now() + 60_000).unwrap();
    let bearer = token.bearer();
    assert_eq!(bearer.len(), 7 + 32 + 1 + 64);
    assert!(bearer.starts_with("hudson_"));
    assert_eq!(&bearer[7..39], format!("{:032x}", token.metadata().id));
    assert_eq!(identifier(bearer), Ok(token.metadata().id));
    assert_eq!(token.metadata().label, "shape");
    assert!(token.metadata().revoked_at.is_none());
}

#[test]
fn authentication_ends_at_expiry() {
    let mut store = Data::new();
    let expires = now() + 60_000;
    let token = issue_api_token(&mut store, actor(), "clock".to_string(), expires).unwrap();
    assert_eq!(authenticate_at(&store, token.bearer(), expires - 1), Ok(actor()));
    assert_eq!(authenticate_at(&store, token.bearer(), expires), Err(Error::Denied));
}

#[test]
fn issuance_rejects_invalid_labels_and_past_expiry() {
    let mut store = Data::new();
    assert!(matches!(issue_api_token(&mut store, actor(), " ".to_string(), now() + 60_000), Err(Error::Invalid(_))));
    assert!(matches!(issue_api_token(&mut store, actor(), "bell\u{7}".to_string(), now() + 60_000), Err(Error::Invalid(_))));
    assert!(matches!(issue_api_token(&mut store, actor(), "late".to_string(), 1), Err(Error::Invalid(_))));
    let nobody = Actor { workspace_id: String::new(), id: "service".to_string() };
    assert!(matches!(issue_api_token(&mut store, nobody, "label".to_string(), now() + 60_000), Err(Error::Invalid(_))));
    assert!(store.api_tokens.is_empty());
    assert!(valid_label(&"x".repeat(256)));
    assert!(!valid_label(&"x".repeat(257)));
}

#[test]
fn revoking_an_unknown_token_is_not_found() {
    let mut store = Data::new();
    assert_eq!(revoke_api_token(&mut store, &actor(), 7), Err(Error::NotFound));
}

#[test]
fn malformed_identifiers_are_denied() {
    assert_eq!(identifier("hudson_abc.def"), Err(Error::Denied));
    let upper = format!("hudson_{}.{}", "A".repeat(32), "0".repeat(64));
    assert_eq!(identifier(&upper), Err(Error::Denied));
    let good = format!("hudson_{}.{}", "0".repeat(31) + "f", "a".repeat(64));
    assert_eq!(identifier(&good), Ok(15));
}
