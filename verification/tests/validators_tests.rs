use getapi::error::GetapiError;
use getapi::strmap::StrMap;
use getapi::validators::oauth2::base64_encode;
use getapi::validators::{http_get, judge, oauth2, run, unsent, HttpMethod, Refusal};

fn map(entries: Vec<(&str, &str)>) -> StrMap {
    let mut m = StrMap::new();
    for (k, v) in entries {
        m.insert(k.to_string(), v.to_string());
    }
    m
}

fn pair(a: &str, b: &str) -> (String, String) {
    (a.to_string(), b.to_string())
}

#[test]
fn unknown_validator_names_the_known_ones() {
    let err = GetapiError::ValidatorNotFound(
        "ldap".to_string(),
        "http_get, oauth2_client_credentials".to_string(),
    );
    assert_eq!(run("ldap", &StrMap::new(), &StrMap::new()), Err(Refusal::Fatal(err.clone())));
    assert_eq!(
        err.message(),
        "Validator 'ldap' not found. Available validators: http_get, oauth2_client_credentials"
    );
    assert_eq!(judge("ldap", "u", 200, "200 OK", ""), Err(Refusal::Fatal(err)));
    assert_eq!(unsent("refused"), Refusal::Failed(GetapiError::Http("refused".to_string())));
}

#[test]
fn http_get_requires_url() {
    let err = http_get::validate(&StrMap::new(), &StrMap::new()).unwrap_err();
    assert_eq!(
        err,
        Refusal::Fatal(GetapiError::ValidationFailed(
            "http_get validator requires 'url' in config".to_string()
        ))
    );
}

#[test]
fn http_get_with_bearer_token() {
    let values = map(vec![("API_KEY", "abc123"), ("ORG", "acme")]);
    let config =
        map(vec![("url", "https://api.example.com/{{ORG}}/me"), ("api_key_field", "API_KEY")]);
    let request = run("http_get", &values, &config).unwrap();
    assert_eq!(request.method, HttpMethod::Get);
    assert_eq!(request.url, "https://api.example.com/acme/me");
    assert_eq!(request.headers, vec![pair("Authorization", "Bearer abc123")]);
    assert_eq!(request.body, None);
}

#[test]
fn http_get_with_explicit_header_and_extras() {
    let values = map(vec![("TOKEN", "t0k")]);
    let config = map(vec![
        ("headers.Notion-Version", "2022-06-28"),
        ("url", "https://api.example.com"),
        ("header_name", "X-Api-Key"),
        ("header_value", "key {{TOKEN}}"),
        ("api_key_field", "TOKEN"),
        ("headers.X-Trace", "{{TOKEN}}-trace"),
    ]);
    let request = http_get::validate(&values, &config).unwrap();
    assert_eq!(
        request.headers,
        vec![
            pair("X-Api-Key", "key t0k"),
            pair("Notion-Version", "2022-06-28"),
            pair("X-Trace", "t0k-trace"),
        ]
    );
}

#[test]
fn http_get_without_credentials_sends_no_header() {
    let config = map(vec![("url", "https://api.example.com")]);
    let request = http_get::validate(&StrMap::new(), &config).unwrap();
    assert!(request.headers.is_empty());
}

#[test]
fn http_get_missing_field_and_missing_variable() {
    let config = map(vec![("url", "https://api.example.com"), ("api_key_field", "API_KEY")]);
    assert_eq!(
        http_get::validate(&StrMap::new(), &config),
        Err(Refusal::Failed(GetapiError::ValidationFailed("API_KEY not found".to_string())))
    );
    let config = map(vec![("url", "https://{{HOST}}/x")]);
    assert_eq!(
        http_get::validate(&StrMap::new(), &config),
        Err(Refusal::Fatal(GetapiError::TemplateVarNotFound("HOST".to_string())))
    );
    let config = map(vec![("url", "https://h"), ("headers.A", "{{NOPE}}")]);
    assert_eq!(
        http_get::validate(&StrMap::new(), &config),
        Err(Refusal::Fatal(GetapiError::TemplateVarNotFound("NOPE".to_string())))
    );
}

#[test]
fn http_get_verdicts() {
    assert_eq!(http_get::judge("https://h", 200, "200 OK"), Ok(()));
    assert_eq!(http_get::judge("https://h", 299, "299"), Ok(()));
    assert_eq!(
        http_get::judge("https://h", 300, "300 Multiple Choices"),
        Err(Refusal::Failed(GetapiError::ValidationFailed(
            "HTTP GET https://h returned 300 Multiple Choices".to_string()
        )))
    );
    assert_eq!(
        http_get::judge("https://h", 199, "199"),
        Err(Refusal::Failed(GetapiError::ValidationFailed(
            "HTTP GET https://h returned 199".to_string()
        )))
    );
    assert_eq!(
        judge("http_get", "https://h", 500, "500 Internal Server Error", "ignored"),
        Err(Refusal::Failed(GetapiError::ValidationFailed(
            "HTTP GET https://h returned 500 Internal Server Error".to_string()
        )))
    );
}

#[test]
fn base64_known_values() {
    assert_eq!(base64_encode(""), "");
    assert_eq!(base64_encode("f"), "Zg==");
    assert_eq!(base64_encode("fo"), "Zm8=");
    assert_eq!(base64_encode("foo"), "Zm9v");
    assert_eq!(base64_encode("foob"), "Zm9vYg==");
    assert_eq!(base64_encode("fooba"), "Zm9vYmE=");
    assert_eq!(base64_encode("foobar"), "Zm9vYmFy");
    assert_eq!(base64_encode("id:secret"), "aWQ6c2VjcmV0");
    assert_eq!(base64_encode("\u{fb}\u{ff}?>"), "w7vDvz8+");
    assert_eq!(base64_encode("~~~"), "fn5+");
    assert_eq!(base64_encode("???"), "Pz8/");
}

#[test]
fn oauth2_basic_request() {
    let values = map(vec![("CLIENT_ID", "id"), ("CLIENT_SECRET", "secret")]);
    let config = map(vec![
        ("token_url", "https://auth.example.com/token"),
        ("client_id_field", "CLIENT_ID"),
        ("client_secret_field", "CLIENT_SECRET"),
    ]);
    let request = run("oauth2_client_credentials", &values, &config).unwrap();
    assert_eq!(request.method, HttpMethod::Post);
    assert_eq!(request.url, "https://auth.example.com/token");
    assert_eq!(
        request.headers,
        vec![
            pair("Content-Type", "application/x-www-form-urlencoded"),
            pair("Authorization", "Basic aWQ6c2VjcmV0"),
        ]
    );
    assert_eq!(request.body, Some("grant_type=client_credentials".to_string()));
}

#[test]
fn oauth2_body_request_with_scope() {
    let values = map(vec![("CLIENT_ID", "id"), ("CLIENT_SECRET", "secret")]);
    let config = map(vec![
        ("token_url", "https://auth.example.com/token"),
        ("client_id_field", "CLIENT_ID"),
        ("client_secret_field", "CLIENT_SECRET"),
        ("auth_method", "body"),
        ("scope", "read"),
        ("grant_type", "custom"),
    ]);
    let request = oauth2::validate(&values, &config).unwrap();
    assert_eq!(request.headers, vec![pair("Content-Type", "application/x-www-form-urlencoded")]);
    assert_eq!(
        request.body,
        Some("grant_type=custom&scope=read&client_id=id&client_secret=secret".to_string())
    );
}

#[test]
fn oauth2_construction_failures() {
    let values = map(vec![("CLIENT_ID", "id")]);
    assert_eq!(
        oauth2::validate(&values, &StrMap::new()),
        Err(Refusal::Fatal(GetapiError::ValidationFailed(
            "oauth2_client_credentials requires 'token_url' in config".to_string()
        )))
    );
    let config = map(vec![("token_url", "https://a")]);
    assert_eq!(
        oauth2::validate(&values, &config),
        Err(Refusal::Fatal(GetapiError::ValidationFailed(
            "oauth2_client_credentials requires 'client_id_field' in config".to_string()
        )))
    );
    let config = map(vec![("token_url", "https://a"), ("client_id_field", "CLIENT_ID")]);
    assert_eq!(
        oauth2::validate(&values, &config),
        Err(Refusal::Fatal(GetapiError::ValidationFailed(
            "oauth2_client_credentials requires 'client_secret_field' in config".to_string()
        )))
    );
    let config = map(vec![
        ("token_url", "https://a"),
        ("client_id_field", "OTHER_ID"),
        ("client_secret_field", "CLIENT_SECRET"),
    ]);
    assert_eq!(
        oauth2::validate(&values, &config),
        Err(Refusal::Failed(GetapiError::ValidationFailed(
            "OTHER_ID not found in collected values".to_string()
        )))
    );
    let config = map(vec![
        ("token_url", "https://a"),
        ("client_id_field", "CLIENT_ID"),
        ("client_secret_field", "CLIENT_SECRET"),
    ]);
    assert_eq!(
        oauth2::validate(&values, &config),
        Err(Refusal::Failed(GetapiError::ValidationFailed(
            "CLIENT_SECRET not found in collected values".to_string()
        )))
    );
}

#[test]
fn oauth2_verdicts() {
    assert_eq!(oauth2::judge(204, "204 No Content", ""), Ok(()));
    assert_eq!(
        oauth2::judge(401, "401 Unauthorized", "{\"error\":\"invalid_client\"}"),
        Err(Refusal::Failed(GetapiError::ValidationFailed(
            "OAuth2 token request returned 401 Unauthorized: {\"error\":\"invalid_client\"}".to_string()
        )))
    );
}

#[test]
fn refusals_are_fatal_or_not() {
    assert!(run("ldap", &StrMap::new(), &StrMap::new()).unwrap_err().is_fatal());
    assert!(http_get::validate(&StrMap::new(), &StrMap::new()).unwrap_err().is_fatal());
    assert!(oauth2::validate(&StrMap::new(), &StrMap::new()).unwrap_err().is_fatal());
    let config = map(vec![("url", "https://h"), ("api_key_field", "API_KEY")]);
    assert!(!http_get::validate(&StrMap::new(), &config).unwrap_err().is_fatal());
    assert!(!http_get::judge("https://h", 500, "500").unwrap_err().is_fatal());
    assert!(!oauth2::judge(403, "403 Forbidden", "").unwrap_err().is_fatal());
    assert!(!unsent("no route").is_fatal());
}

#[test]
fn http_get_credential_from_expanded_value() {
    let values = map(vec![("API_KEY", "abc")]);
    let config = map(vec![("header_name", "X-Key"), ("api_key_field", "API_KEY")]);
    assert_eq!(
        http_get::credential(Some("expanded".to_string()), &values, &config),
        Ok(vec![pair("X-Key", "expanded")])
    );
    assert_eq!(
        http_get::credential(None, &values, &config),
        Ok(vec![pair("Authorization", "Bearer abc")])
    );
    assert_eq!(
        http_get::credential(Some("v".to_string()), &values, &map(vec![])),
        Ok(vec![])
    );
    assert_eq!(http_get::extra_header("headers.X-Trace"), Some("X-Trace".to_string()));
    assert_eq!(http_get::extra_header("headers."), Some(String::new()));
    assert_eq!(http_get::extra_header("header.X"), None);
    assert_eq!(http_get::extra_header("url"), None);
}

#[test]
fn oauth2_request_to_a_given_endpoint() {
    let values = map(vec![("ID", "id"), ("SECRET", "secret")]);
    let config = map(vec![("client_id_field", "ID"), ("client_secret_field", "SECRET")]);
    let request = oauth2::validate_at("https://t".to_string(), &values, &config).unwrap();
    assert_eq!(request.url, "https://t");
    assert_eq!(request.body, Some("grant_type=client_credentials".to_string()));
    assert_eq!(
        oauth2::validate_at("https://t".to_string(), &values, &map(vec![])),
        Err(Refusal::Fatal(GetapiError::ValidationFailed(
            "oauth2_client_credentials requires 'client_id_field' in config".to_string()
        )))
    );
    assert_eq!(
        oauth2::validate_at("https://t".to_string(), &StrMap::new(), &config),
        Err(Refusal::Failed(GetapiError::ValidationFailed(
            "ID not found in collected values".to_string()
        )))
    );
}
