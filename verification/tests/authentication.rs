use docker_registry::auth::{
    after_probe, after_spaces, after_token, bearer_authorization, lookup, parse_challenge,
    query_encode, read_fields, read_quoted, retries_after_unauthorized, token_request_url,
    AuthError, AuthStep, Challenge, ChallengeError, Credential, Field,
};
use docker_registry::digest::{ContentDigest, DigestAlgorithm};
use docker_registry::mediatypes::{default_accepted_types, MediaTypes};
use docker_registry::v2::{
    has_manifest, manifest_shape, needs_config, ManifestShape, UnexpectedStatus,
};

fn b(s: &str) -> Vec<u8> {
    s.as_bytes().to_vec()
}

fn text(v: &[u8]) -> String {
    String::from_utf8(v.to_vec()).unwrap()
}

fn opt(v: &Option<Vec<u8>>) -> Option<String> {
    v.as_ref().map(|x| text(x))
}

fn some(s: &str) -> Option<String> {
    Some(s.to_string())
}

fn challenge(s: &str) -> Result<Challenge, ChallengeError> {
    parse_challenge(&b(s))
}

fn bearer(s: &str) -> (String, Option<String>, Option<String>) {
    match challenge(s) {
        Ok(Challenge::Bearer { realm, service, scope }) => (text(&realm), opt(&service), opt(&scope)),
        other => panic!("expected a bearer challenge, got {:?}", other),
    }
}

#[test]
fn bearer_challenge_with_all_fields() {
    let (realm, service, scope) = bearer(
        r#"Bearer realm="https://auth.docker.io/token",service="registry.docker.io",scope="repository:samalba/my-app:pull,push""#,
    );
    assert_eq!(realm, "https://auth.docker.io/token");
    assert_eq!(service, some("registry.docker.io"));
    assert_eq!(scope, some("repository:samalba/my-app:pull,push"));
}

#[test]
fn bearer_challenge_with_realm_only() {
    assert_eq!(bearer(r#"Bearer realm="https://r/token""#), ("https://r/token".to_string(), None, None));
    assert_eq!(bearer(r#"bearer   realm="x" , service="s""#), ("x".to_string(), some("s"), None));
    assert_eq!(bearer(r#"BEARER service="s",realm="x"  "#), ("x".to_string(), some("s"), None));
    assert_eq!(bearer(r#"Bearer realm="first",realm="second""#).0, "first");
    assert_eq!(bearer(r#"Bearer other="o",realm="x""#).0, "x");
    assert_eq!(bearer(r#"Bearer realm="""#).0, "");
}

#[test]
fn quoted_values_take_backslash_escapes() {
    assert_eq!(bearer(r#"Bearer realm="a\"b\\c\d""#).0, r#"a"b\cd"#);
    assert_eq!(bearer(r#"Bearer realm="a,b=c""#).0, "a,b=c");
    assert_eq!(read_quoted(&b(r#"x"abc" rest"#), 2), Some((b("abc"), 6)));
    assert_eq!(read_quoted(&b(r#""\"""#), 1), Some((b("\""), 4)));
    assert_eq!(read_quoted(&b(r#""abc"#), 1), None);
    assert_eq!(read_quoted(&b(r#""abc\"#), 1), None);
    assert_eq!(read_quoted(&b(r#""abc\""#), 1), None);
    assert_eq!(read_quoted(&b(""), 0), None);
}

#[test]
fn basic_challenge() {
    match challenge(r#"Basic realm="Registry Realm""#) {
        Ok(Challenge::Basic { realm }) => assert_eq!(opt(&realm), some("Registry Realm")),
        other => panic!("expected a basic challenge, got {:?}", other),
    }
    match challenge("Basic") {
        Ok(Challenge::Basic { realm }) => assert_eq!(realm, None),
        other => panic!("expected a basic challenge, got {:?}", other),
    }
    match challenge("basic   ") {
        Ok(Challenge::Basic { realm }) => assert_eq!(realm, None),
        other => panic!("expected a basic challenge, got {:?}", other),
    }
}

#[test]
fn challenges_that_cannot_be_read() {
    assert_eq!(challenge("").unwrap_err(), ChallengeError::UnknownScheme);
    assert_eq!(challenge("Digest realm=\"x\"").unwrap_err(), ChallengeError::UnknownScheme);
    assert_eq!(challenge(" Bearer realm=\"x\"").unwrap_err(), ChallengeError::UnknownScheme);
    assert_eq!(challenge("Bearer").unwrap_err(), ChallengeError::MissingRealm);
    assert_eq!(challenge("Bearer service=\"s\"").unwrap_err(), ChallengeError::MissingRealm);
    assert_eq!(challenge("Bearer Realm=\"x\"").unwrap_err(), ChallengeError::MissingRealm);
    assert_eq!(challenge("Bearer realm=x").unwrap_err(), ChallengeError::Malformed);
    assert_eq!(challenge("Bearer realm").unwrap_err(), ChallengeError::Malformed);
    assert_eq!(challenge("Bearer realm=\"x").unwrap_err(), ChallengeError::Malformed);
    assert_eq!(challenge("Bearer realm=\"x\",").unwrap_err(), ChallengeError::Malformed);
    assert_eq!(challenge("Bearer realm=\"x\" service=\"s\"").unwrap_err(), ChallengeError::Malformed);
    assert_eq!(challenge("Bearer =\"x\"").unwrap_err(), ChallengeError::Malformed);
    assert_eq!(challenge("Basic realm=").unwrap_err(), ChallengeError::Malformed);
}

#[test]
fn fields_and_lookup() {
    let fields = read_fields(&b(r#"a="1", b="2",a="3""#), 0).unwrap();
    assert_eq!(fields.len(), 3);
    assert_eq!(fields[1].key, b("b"));
    assert_eq!(fields[1].value, b("2"));
    assert_eq!(lookup(&fields, &b("a")), Some(b("1")));
    assert_eq!(lookup(&fields, &b("b")), Some(b("2")));
    assert_eq!(lookup(&fields, &b("c")), None);
    let none: Vec<Field> = Vec::new();
    assert_eq!(lookup(&none, &b("a")), None);
    assert!(read_fields(&b(""), 0).is_none());
    assert_eq!(after_spaces(&b("  x "), 0), 2);
    assert_eq!(after_spaces(&b("  x "), 2), 2);
    assert_eq!(after_spaces(&b("  x "), 3), 4);
}

#[test]
fn query_values_are_encoded() {
    assert_eq!(text(&query_encode(&b("repository:library/alpine:pull"))), "repository%3Alibrary%2Falpine%3Apull");
    assert_eq!(text(&query_encode(&b("a b+c"))), "a+b%2Bc");
    assert_eq!(text(&query_encode(&b("AZaz09*-._"))), "AZaz09*-._");
    assert_eq!(text(&query_encode(&vec![0x00, 0x7f, 0xff, b'~'])), "%00%7F%FF%7E");
    assert_eq!(text(&query_encode(&b(""))), "");
}

#[test]
fn token_url_names_service_scopes_and_account() {
    let url = token_request_url(
        &b("https://auth.docker.io/token"),
        Some(&b("registry.docker.io")),
        Some(&b("repository:challenged:pull")),
        &vec![b("repository:library/alpine:pull"), b("repository:x/y:pull")],
        Some(&b("bob")),
    );
    assert_eq!(
        text(&url),
        "https://auth.docker.io/token?service=registry.docker.io&scope=repository%3Alibrary%2Falpine%3Apull&scope=repository%3Ax%2Fy%3Apull&account=bob"
    );
}

#[test]
fn token_url_falls_back_on_the_scope_of_the_challenge() {
    let url = token_request_url(&b("https://r/t"), None, Some(&b("repo:a:pull")), &Vec::new(), None);
    assert_eq!(text(&url), "https://r/t?scope=repo%3Aa%3Apull");
    let url = token_request_url(&b("https://r/t"), None, None, &Vec::new(), None);
    assert_eq!(text(&url), "https://r/t");
    let url = token_request_url(&b("https://r/t?x=1"), Some(&b("s")), None, &Vec::new(), Some(&b("u v")));
    assert_eq!(text(&url), "https://r/t?x=1&service=s&account=u+v");
}

fn step(
    status: u16,
    api: Option<&str>,
    www: Option<&str>,
    user: Option<&str>,
    pass: Option<&str>,
    scopes: &[&str],
) -> AuthStep {
    let api = api.map(b);
    let www = www.map(b);
    let user = user.map(b);
    let pass = pass.map(b);
    let scopes: Vec<Vec<u8>> = scopes.iter().map(|s| b(s)).collect();
    after_probe(status, api.as_ref(), www.as_ref(), user.as_ref(), pass.as_ref(), &scopes)
}

const V2: Option<&str> = Some("registry/2.0");

#[test]
fn an_open_registry_is_used_without_credentials() {
    assert!(matches!(
        step(200, V2, None, Some("u"), Some("p"), &[]),
        AuthStep::Authenticated(Credential::Anonymous)
    ));
}

#[test]
fn a_registry_that_does_not_speak_v2_gives_no_session() {
    assert!(matches!(step(404, V2, None, None, None, &[]), AuthStep::Failed(AuthError::NotSupported)));
    assert!(matches!(step(200, None, None, None, None, &[]), AuthStep::Failed(AuthError::NotSupported)));
    assert!(matches!(step(401, None, Some("Basic"), None, None, &[]), AuthStep::Failed(AuthError::NotSupported)));
    assert!(matches!(
        step(500, V2, None, None, None, &[]),
        AuthStep::Failed(AuthError::UnexpectedStatus(500))
    ));
}

#[test]
fn a_basic_challenge_takes_the_credentials_of_the_client() {
    match step(401, V2, Some("Basic realm=\"r\""), Some("bob"), Some("secret"), &[]) {
        AuthStep::Authenticated(Credential::Basic { username, password }) => {
            assert_eq!(username, b("bob"));
            assert_eq!(password, b("secret"));
        }
        other => panic!("expected basic credentials, got {:?}", other),
    }
    assert!(matches!(
        step(401, V2, Some("Basic realm=\"r\""), Some("bob"), None, &[]),
        AuthStep::Failed(AuthError::MissingCredentials)
    ));
    assert!(matches!(
        step(401, V2, Some("Basic realm=\"r\""), None, None, &[]),
        AuthStep::Failed(AuthError::MissingCredentials)
    ));
}

#[test]
fn a_bearer_challenge_sends_the_client_to_the_realm() {
    let www = r#"Bearer realm="https://auth/token",service="reg",scope="repository:c:pull""#;
    match step(401, V2, Some(www), None, None, &["repository:library/alpine:pull"]) {
        AuthStep::RequestToken { url, username, password } => {
            assert_eq!(
                text(&url),
                "https://auth/token?service=reg&scope=repository%3Alibrary%2Falpine%3Apull"
            );
            assert_eq!(username, None);
            assert_eq!(password, None);
        }
        other => panic!("expected a token request, got {:?}", other),
    }
    match step(401, V2, Some(www), Some("bob"), Some("pw"), &[]) {
        AuthStep::RequestToken { url, username, password } => {
            assert_eq!(text(&url), "https://auth/token?service=reg&scope=repository%3Ac%3Apull&account=bob");
            assert_eq!(username, Some(b("bob")));
            assert_eq!(password, Some(b("pw")));
        }
        other => panic!("expected a token request, got {:?}", other),
    }
    match step(401, V2, Some(www), Some("bob"), None, &[]) {
        AuthStep::RequestToken { url, username, password } => {
            assert!(text(&url).ends_with("&account=bob"));
            assert_eq!(username, None);
            assert_eq!(password, None);
        }
        other => panic!("expected a token request, got {:?}", other),
    }
}

#[test]
fn a_challenge_that_is_missing_or_unreadable_gives_no_session() {
    assert!(matches!(
        step(401, V2, None, None, None, &[]),
        AuthStep::Failed(AuthError::MissingChallenge)
    ));
    assert!(matches!(
        step(401, V2, Some("Negotiate"), None, None, &[]),
        AuthStep::Failed(AuthError::BadChallenge(ChallengeError::UnknownScheme))
    ));
    assert!(matches!(
        step(401, V2, Some("Bearer service=\"s\""), None, None, &[]),
        AuthStep::Failed(AuthError::BadChallenge(ChallengeError::MissingRealm))
    ));
}

#[test]
fn the_token_endpoint_grants_or_refuses() {
    match after_token(200, Some(&b("t1")), None) {
        Ok(Credential::Bearer { token }) => assert_eq!(token, b("t1")),
        other => panic!("expected a token, got {:?}", other),
    }
    match after_token(201, None, Some(&b("t2"))) {
        Ok(Credential::Bearer { token }) => assert_eq!(token, b("t2")),
        other => panic!("expected a token, got {:?}", other),
    }
    match after_token(299, Some(&b("t1")), Some(&b("t2"))) {
        Ok(Credential::Bearer { token }) => assert_eq!(token, b("t1")),
        other => panic!("expected a token, got {:?}", other),
    }
    assert_eq!(after_token(200, None, None).unwrap_err(), AuthError::MissingToken);
    assert_eq!(after_token(401, Some(&b("t")), None).unwrap_err(), AuthError::TokenRefused(401));
    assert_eq!(after_token(199, Some(&b("t")), None).unwrap_err(), AuthError::TokenRefused(199));
    assert_eq!(after_token(300, Some(&b("t")), None).unwrap_err(), AuthError::TokenRefused(300));
    assert_eq!(text(&bearer_authorization(&b("abc.def"))), "Bearer abc.def");
}

#[test]
fn one_more_cycle_after_the_first_refusal_only() {
    assert!(!retries_after_unauthorized(0));
    assert!(retries_after_unauthorized(1));
    assert!(!retries_after_unauthorized(2));
    assert!(!retries_after_unauthorized(u32::MAX));
}

#[test]
fn manifest_head_answers() {
    let accepted = default_accepted_types();
    let s2 = MediaTypes::ManifestV2S2.to_bytes();
    assert_eq!(has_manifest(200, Some(&s2), &accepted), Ok(Some(MediaTypes::ManifestV2S2)));
    assert_eq!(has_manifest(200, Some(&s2), &vec![MediaTypes::ManifestList]), Ok(None));
    assert_eq!(has_manifest(200, Some(&b("text/plain")), &accepted), Ok(None));
    assert_eq!(has_manifest(200, None, &accepted), Ok(None));
    assert_eq!(has_manifest(404, Some(&s2), &accepted), Ok(None));
    assert_eq!(has_manifest(401, Some(&s2), &accepted), Err(UnexpectedStatus { status: 401 }));
    assert_eq!(has_manifest(500, None, &accepted), Err(UnexpectedStatus { status: 500 }));
}

#[test]
fn manifests_are_read_by_their_content_type() {
    let shape = |m: MediaTypes| manifest_shape(&m.to_bytes());
    assert_eq!(shape(MediaTypes::ManifestV2S1Signed), Ok(ManifestShape::S1Signed));
    assert_eq!(shape(MediaTypes::ManifestV2S2), Ok(ManifestShape::S2));
    assert_eq!(shape(MediaTypes::OciImageManifest), Ok(ManifestShape::OciImage));
    assert_eq!(shape(MediaTypes::ManifestList), Ok(ManifestShape::List));
    assert_eq!(shape(MediaTypes::OciImageIndex), Ok(ManifestShape::List));
    assert!(shape(MediaTypes::ManifestV2S1).is_err());
    assert!(shape(MediaTypes::ImageLayerTgz).is_err());
    assert!(manifest_shape(&b("application/json")).is_err());
    assert!(needs_config(ManifestShape::S2));
    assert!(needs_config(ManifestShape::OciImage));
    assert!(!needs_config(ManifestShape::S1Signed));
    assert!(!needs_config(ManifestShape::List));
}

#[test]
fn a_manifest_is_known_by_the_digest_of_its_body() {
    let d = ContentDigest::of(&b("hello"));
    assert_eq!(d.algorithm(), DigestAlgorithm::Sha256);
    assert_eq!(
        text(&d.render()),
        "sha256:2cf24dba5fb0a30e26e83b2ac5b9e29e1b161e5c1fa7425e73043362938b9824"
    );
    assert!(d.try_verify(&b("hello")).is_ok());
}
