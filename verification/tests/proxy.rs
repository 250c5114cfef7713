use moget::proxy::{build_proxy, choose_auth, ProxyConfig, ProxyError};

fn some(text: &str) -> Option<String> {
    Some(text.to_string())
}

fn login(username: &str, password: &str) -> Option<(String, String)> {
    Some((username.to_string(), password.to_string()))
}

#[test]
fn no_address_no_proxy() {
    assert_eq!(build_proxy(&None, &None), Ok(None));
    assert_eq!(build_proxy(&None, &some("nonsense")), Ok(None));
}

#[test]
fn proxy_without_login() {
    assert_eq!(
        build_proxy(&some("http://proxy:8080"), &None),
        Ok(Some(ProxyConfig { url: "http://proxy:8080".to_string(), auth: None }))
    );
}

#[test]
fn login_beside_the_address() {
    let proxy = build_proxy(&some("http://proxy"), &some("me:se:cret")).unwrap().unwrap();
    assert_eq!(proxy.auth, login("me", "se:cret"));
    assert_eq!(
        build_proxy(&some("http://proxy"), &some("me")),
        Err(ProxyError::Auth("me".to_string()))
    );
}

#[test]
fn login_in_the_address_takes_precedence() {
    let auth = |url, beside| build_proxy(&some(url), &beside).unwrap().unwrap().auth;
    assert_eq!(auth("http://a:b@proxy", some("me:secret")), login("a", "b"));
    assert_eq!(auth("http://a:b@proxy", None), login("a", "b"));
    assert_eq!(auth("http://a@proxy", some("no colon")), login("a", ""));
    assert_eq!(auth("http://:b@proxy", some("me:secret")), login("", "b"));
}

#[test]
fn address_that_no_proxy_can_have() {
    assert_eq!(
        build_proxy(&some("http://["), &some("no colon")),
        Err(ProxyError::Url("http://[".to_string()))
    );
}

#[test]
fn address_without_scheme() {
    let proxy = build_proxy(&some("proxy"), &some("me:secret")).unwrap().unwrap();
    assert_eq!(proxy.auth, login("me", "secret"));
}

#[test]
fn login_in_an_address_without_scheme() {
    let auth = |url, beside| build_proxy(&some(url), &beside).unwrap().unwrap().auth;
    assert_eq!(auth("u:p@proxy.example:3128", some("a:b")), login("u", "p"));
    assert_eq!(auth("u:p@proxy.example:3128", None), login("u", "p"));
    assert_eq!(auth("u@proxy.example", some("a:b")), login("u", ""));
    assert_eq!(auth("proxy.example:3128", some("a:b")), login("a", "b"));
    assert_eq!(auth("http://proxy.example:3128", some("a:b")), login("a", "b"));
    assert_eq!(auth("socks5://u:p@proxy.example", some("a:b")), login("u", "p"));
    let proxy = build_proxy(&some("u:p@proxy.example:3128"), &None).unwrap().unwrap();
    assert_eq!(proxy.url, "u:p@proxy.example:3128");
}

#[test]
fn choice_of_login() {
    assert_eq!(choose_auth(None, &None), Ok(None));
    assert_eq!(choose_auth(Some((String::new(), None)), &None), Ok(None));
    assert_eq!(choose_auth(Some((String::new(), None)), &some("a:b")), Ok(login("a", "b")));
    assert_eq!(choose_auth(Some(("u".to_string(), None)), &some("a:b")), Ok(login("u", "")));
    assert_eq!(choose_auth(Some((String::new(), some("p"))), &some("a:b")), Ok(login("", "p")));
    assert_eq!(choose_auth(None, &some("a")), Err(ProxyError::Auth("a".to_string())));
}
