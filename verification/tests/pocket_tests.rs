use feeds_to_pocket::config::Configuration;
use feeds_to_pocket::errors::{PocketError, PocketSetupError};
use feeds_to_pocket::pocket::{
    classify_sink_response, get_authenticated_pocket, get_pocket, Pocket, PocketAuthorizeResponse,
};

#[test]
fn new_session_holds_the_credentials() {
    let pocket = Pocket::new("ck", Some("at"));
    assert_eq!(pocket.access_token(), Some("at"));
    let bare = Pocket::new("ck", None);
    assert_eq!(bare.access_token(), None);
}

#[test]
fn oauth_request_body_is_exact_json() {
    let pocket = Pocket::new("my-key", None);
    let body = pocket.oauth_request().to_json();
    assert_eq!(
        body,
        "{\"consumer_key\":\"my-key\",\"redirect_uri\":\"data:text/plain,Return%20to%20feeds-to-pocket%20and%20press%20Enter%20to%20finish%2E\",\"state\":null}"
    );
}

#[test]
fn json_strings_are_escaped() {
    let pocket = Pocket::new("k\"ey\\with\nodd\tchars", None);
    let body = pocket.oauth_request().to_json();
    assert!(body.starts_with("{\"consumer_key\":\"k\\\"ey\\\\with\\nodd\\tchars\","));
    let control = Pocket::new("a\u{1}b", None);
    let body2 = control.oauth_request().to_json();
    assert!(body2.starts_with("{\"consumer_key\":\"a\\u0001b\","));
}

#[test]
fn auth_url_embeds_the_code_form_urlencoded() {
    let mut pocket = Pocket::new("ck", None);
    let url = pocket.accept_auth_code("ab/12".to_string());
    assert_eq!(
        url,
        "https://getpocket.com/auth/authorize?request_token=ab%2F12&redirect_uri=data%3Atext%2Fplain%2CReturn%2520to%2520feeds-to-pocket%2520and%2520press%2520Enter%2520to%2520finish%252E"
    );
}

#[test]
fn authorize_request_uses_the_stored_code() {
    let mut pocket = Pocket::new("ck", None);
    pocket.accept_auth_code("the-code".to_string());
    let body = pocket.authorize_request().to_json();
    assert_eq!(body, "{\"consumer_key\":\"ck\",\"code\":\"the-code\"}");
}

#[test]
fn authorize_response_installs_the_access_token() {
    let mut pocket = Pocket::new("ck", None);
    let username = pocket.accept_authorize_response(PocketAuthorizeResponse {
        access_token: "new-token".to_string(),
        username: "someone".to_string(),
    });
    assert_eq!(username, "someone");
    assert_eq!(pocket.access_token(), Some("new-token"));
}

#[test]
fn add_request_body_carries_url_and_tags() {
    let pocket = Pocket::new("ck", Some("at"));
    let body = pocket
        .add_request(
            &"http://example.com/x".to_string(),
            None,
            Some("news,tech".to_string()),
            None,
        )
        .to_json();
    assert_eq!(
        body,
        "{\"consumer_key\":\"ck\",\"access_token\":\"at\",\"url\":\"http://example.com/x\",\"title\":null,\"tags\":\"news,tech\",\"tweet_id\":null}"
    );
}

#[test]
fn add_request_without_tags_sends_null() {
    let pocket = Pocket::new("ck", Some("at"));
    let body = pocket
        .add_request(&"http://example.com/x".to_string(), None, None, None)
        .to_json();
    assert_eq!(
        body,
        "{\"consumer_key\":\"ck\",\"access_token\":\"at\",\"url\":\"http://example.com/x\",\"title\":null,\"tags\":null,\"tweet_id\":null}"
    );
}

#[test]
fn structured_error_header_overrides_the_status() {
    let r = classify_sink_response(
        200,
        Some("152".to_string()),
        Some("rate limited".to_string()),
        Ok("body text".to_string()),
    );
    match r {
        Err(PocketError::Proto(code, message, body)) => {
            assert_eq!(code, "152");
            assert_eq!(message, "rate limited");
            assert_eq!(body, Some("body text".to_string()));
        },
        _ => panic!("expected a protocol error"),
    }
}

#[test]
fn missing_error_message_header_gets_a_fixed_text() {
    let r = classify_sink_response(400, Some("199".to_string()), None, Err("io".to_string()));
    match r {
        Err(PocketError::Proto(code, message, body)) => {
            assert_eq!(code, "199");
            assert_eq!(message, "unknown protocol error");
            assert_eq!(body, None);
        },
        _ => panic!("expected a protocol error"),
    }
}

#[test]
fn bad_status_without_error_header_is_an_http_failure() {
    let r = classify_sink_response(500, None, None, Ok("oops".to_string()));
    match r {
        Err(PocketError::Http(message, body)) => {
            assert_eq!(message, "the sink returned HTTP status 500");
            assert_eq!(body, Some("oops".to_string()));
        },
        _ => panic!("expected an HTTP failure"),
    }
}

#[test]
fn successful_exchange_returns_the_body() {
    let r = classify_sink_response(200, None, None, Ok("{\"ok\":1}".to_string()));
    assert_eq!(r.ok(), Some("{\"ok\":1}".to_string()));
}

#[test]
fn unreadable_body_on_success_is_an_io_failure() {
    let r = classify_sink_response(200, None, None, Err("connection reset".to_string()));
    match r {
        Err(PocketError::Io(m)) => assert_eq!(m, "connection reset"),
        _ => panic!("expected an io failure"),
    }
}

#[test]
fn missing_consumer_key_fails_fast() {
    let config = Configuration::default();
    assert!(matches!(
        get_pocket(&config),
        Err(PocketSetupError::MissingConsumerKey)
    ));
    assert!(matches!(
        get_authenticated_pocket(&config),
        Err(PocketSetupError::MissingConsumerKey)
    ));
}

#[test]
fn missing_access_token_fails_fast_for_delivery() {
    let mut config = Configuration::default();
    config.set_consumer_key("ck".to_string());
    assert!(get_pocket(&config).is_ok());
    assert!(matches!(
        get_authenticated_pocket(&config),
        Err(PocketSetupError::MissingAccessToken)
    ));
    config.set_access_token("at".to_string());
    let pocket = get_authenticated_pocket(&config).expect("both credentials set");
    assert_eq!(pocket.access_token(), Some("at"));
}
