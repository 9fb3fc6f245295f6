use fluminurs::api::{auth_redirect_code, build_auth_form, build_auth_url, build_token_form,
    drive_http_retry, extract_access_token, form_decode, generate_random_bytes,
    idp_response_parse, query_param, str_starts_with, url_fragment, url_query, zoom_signin_parse,
    zoom_sso_check, Api, HttpAttempt, HttpRetryOutcome};

#[test]
fn nonce_is_hex_of_requested_size() {
    let nonce = generate_random_bytes(16);
    assert_eq!(nonce.len(), 32);
    assert!(nonce.chars().all(|c| c.is_ascii_hexdigit() && !c.is_ascii_uppercase()));
}

#[test]
fn auth_url_embeds_nonce_twice() {
    let url = build_auth_url("00ff");
    assert_eq!(
        url,
        "https://vafs.nus.edu.sg/adfs/oauth2/authorize?response_type=code&client_id=E10493A3B1024F14BDC7D0D8B9F649E9-234390&state=00ff&redirect_uri=https%3A%2F%2Fluminus.nus.edu.sg%2Fauth%2Fcallback&scope=&resource=sg_edu_nus_oauth&nonce=00ff"
    );
}

#[test]
fn auth_and_token_forms() {
    let auth = build_auth_form("nusstu\\e0000000", "hunter2");
    assert_eq!(auth[0], ("UserName".to_string(), "nusstu\\e0000000".to_string()));
    assert_eq!(auth[1], ("Password".to_string(), "hunter2".to_string()));
    assert_eq!(auth[2], ("AuthMethod".to_string(), "FormsAuthentication".to_string()));
    let token = build_token_form("abc123");
    assert_eq!(token[0], ("grant_type".to_string(), "authorization_code".to_string()));
    assert_eq!(token[3], ("code".to_string(), "abc123".to_string()));
    assert_eq!(
        token[4],
        ("redirect_uri".to_string(), "https://luminus.nus.edu.sg/auth/callback".to_string())
    );
}

#[test]
fn form_decoding() {
    assert_eq!(form_decode("a%2Fb+c"), "a/b c");
    assert_eq!(form_decode("plain"), "plain");
    assert_eq!(form_decode("%3d%3D"), "==");
    // a stray percent stands for itself
    assert_eq!(form_decode("50%"), "50%");
}

#[test]
fn query_parsing() {
    assert_eq!(query_param("a=1&b=2&a=3", "a").as_deref(), Some("1"));
    assert_eq!(query_param("a=1&b=2", "b").as_deref(), Some("2"));
    assert_eq!(query_param("a=1&b=2", "c"), None);
    assert_eq!(query_param("flag&x=9", "flag").as_deref(), Some(""));
    assert_eq!(url_query("https://h/p?x=1&y=2#frag"), "x=1&y=2");
    assert_eq!(url_query("https://h/p"), "");
    assert_eq!(url_fragment("https://h/p#fid").as_deref(), Some("fid"));
    assert_eq!(url_fragment("https://h/p"), None);
}

#[test]
fn login_redirect_judgement() {
    assert_eq!(
        auth_redirect_code("https://vafs.nus.edu.sg/adfs/ls?denied"),
        Err("Invalid credentials")
    );
    assert_eq!(
        auth_redirect_code("https://luminus.nus.edu.sg/auth/callback?code=XYZ&state=s"),
        Ok("XYZ".to_string())
    );
    assert_eq!(
        auth_redirect_code("https://luminus.nus.edu.sg/auth/callback?state=s"),
        Err("Unknown authentication failure (no code returned)")
    );
}

#[test]
fn token_extraction_variants() {
    assert_eq!(
        extract_access_token(false, "{\"access_token\":\"t\"}"),
        Err("Unknown authentication failure (no token returned)")
    );
    assert_eq!(extract_access_token(true, "{\"access_token\":\"t0k3n\"}"), Ok("t0k3n".to_string()));
    assert_eq!(
        extract_access_token(true, "{\"other\":true}"),
        Err("Failed to deserialise token exchange response")
    );
    assert_eq!(
        extract_access_token(true, "not json"),
        Err("Failed to deserialise token exchange response")
    );
}

#[test]
fn http_retry_returns_first_success() {
    // a transport failing twice then succeeding yields exactly one response
    let steps = vec![HttpAttempt::SendFailed, HttpAttempt::SendFailed, HttpAttempt::SendOk];
    assert_eq!(drive_http_retry(true, &steps), HttpRetryOutcome::Success { attempts: 3 });
    let immediate = vec![HttpAttempt::SendOk];
    assert_eq!(drive_http_retry(true, &immediate), HttpRetryOutcome::Success { attempts: 1 });
}

#[test]
fn http_retry_permanent_failures() {
    assert_eq!(
        drive_http_retry(false, &vec![HttpAttempt::SendOk]),
        HttpRetryOutcome::SerializationError
    );
    let steps = vec![HttpAttempt::SendFailed, HttpAttempt::BuildFailed];
    assert_eq!(drive_http_retry(true, &steps), HttpRetryOutcome::BuildError);
    let all_failed = vec![HttpAttempt::SendFailed; 4];
    assert_eq!(drive_http_retry(true, &all_failed), HttpRetryOutcome::Pending);
}

#[test]
fn signin_page_parsing() {
    let html = "<html><body>\
        <form method=\"post\" action=\"https://idp.example/adfs/ls/\">\
        <input name=\"SAMLRequest\" value=\"REQ==\"/>\
        </form></body></html>";
    let (idp_url, saml) = zoom_signin_parse(html).unwrap();
    assert_eq!(idp_url, "https://idp.example/adfs/ls/");
    assert_eq!(saml, "REQ==");
    assert_eq!(zoom_signin_parse("<p>no form</p>"), Err("Unable to find form action URL"));
    let no_input = "<form method=\"post\" action=\"https://x\"></form>";
    assert_eq!(zoom_signin_parse(no_input), Err("Unable to find SAMLRequest value"));
    // an action with a bare ampersand is not valid entity text
    let bare_amp = "<form method=\"post\" action=\"https://x?a=1&b=2\">\
        <input name=\"SAMLRequest\" value=\"R\"/></form>";
    assert_eq!(zoom_signin_parse(bare_amp), Err("Unable to decode URL"));
}

#[test]
fn idp_response_parsing() {
    let html = "<form method=\"post\" action=\"https://sso.example/assert\">\
        <input name=\"SAMLResponse\" value=\"RESP==\"/></form>";
    let (sso_url, saml) = idp_response_parse(html).unwrap();
    assert_eq!(sso_url, "https://sso.example/assert");
    assert_eq!(saml, "RESP==");
}

#[test]
fn sso_outcome_depends_on_landing_page() {
    assert_eq!(zoom_sso_check("https://nus-sg.zoom.us/profile"), Ok(()));
    assert_eq!(zoom_sso_check("https://nus-sg.zoom.us/profile?ok=1"), Ok(()));
    assert_eq!(zoom_sso_check("https://nus-sg.zoom.us/signin"), Err("Zoom SSO failed"));
}

#[test]
fn session_builder() {
    let api = Api::new("jwt-token".to_string()).with_ffmpeg("/usr/bin/ffmpeg".to_string());
    assert_eq!(api.jwt, "jwt-token");
    assert_eq!(api.ffmpeg_path, "/usr/bin/ffmpeg");
    assert!(str_starts_with("abcdef", "abc"));
    assert!(!str_starts_with("ab", "abc"));
}
