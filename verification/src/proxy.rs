//! Which proxy is used, and how it is logged in to.

use crate::text;
use crate::url;
use vstd::prelude::*;

verus! {

/// A proxy: its address, and the user name and password for it. `T` is text: `String` in
/// running code, `Seq<char>` in specifications.
#[derive(Debug, PartialEq, Eq)]
pub struct ProxyConfig<T> {
    pub url: T,
    pub auth: Option<(T, T)>,
}

/// Why there can be no such proxy. `T` is text.
#[derive(Debug, PartialEq, Eq)]
pub enum ProxyError<T> {
    /// The address is none that a proxy can have.
    Url(T),
    /// The user name and the password are not separated by a colon.
    Auth(T),
}

/// A user name and, if there is one, a password that an address holds.
pub type UserInfo = Option<(Seq<char>, Option<Seq<char>>)>;

/// Whether `url` can be the address of a proxy.
pub uninterp spec fn proxy_accepted(url: Seq<char>) -> bool;

/// Calls `reqwest::Proxy::all`. The contract claims that whether it takes the address
/// depends on the address alone.
#[verifier::external_body]
fn accepts(url: &str) -> (accepted: bool)
    ensures
        accepted == proxy_accepted(url@),
{
    reqwest::Proxy::all(url).is_ok()
}

/// The view of a user name and a password that may be missing.
pub open spec fn auth_view(auth: Option<(String, String)>) -> Option<(Seq<char>, Seq<char>)> {
    match auth {
        Some((username, password)) => Some((username@, password@)),
        None => None,
    }
}

/// The view of what an address holds.
pub open spec fn user_info_view(info: Option<(String, Option<String>)>) -> UserInfo {
    match info {
        Some((username, password)) => Some((username@, text::opt_text(password))),
        None => None,
    }
}

/// Whether an address holds a user name or a password.
pub open spec fn holds_login(info: UserInfo) -> bool {
    info matches Some((username, password)) && (username.len() > 0 || password is Some)
}

/// The user name and the password to use. Those in the address take precedence.
pub open spec fn chosen_auth(info: UserInfo, auth: Option<Seq<char>>) -> Result<
    Option<(Seq<char>, Seq<char>)>,
    ProxyError<Seq<char>>,
> {
    if holds_login(info) {
        let (username, password) = info->0;
        Ok(
            Some(
                (
                    username,
                    match password {
                        Some(password) => password,
                        None => seq![],
                    },
                ),
            ),
        )
    } else {
        match auth {
            Some(auth) => match text::cut_once(auth, ':') {
                Some((username, password)) => Ok(Some((username, password))),
                None => Err(ProxyError::Auth(auth)),
            },
            None => Ok(None),
        }
    }
}

/// The user name and the password in the URL `url`.
pub open spec fn user_info_in(url: Seq<char>) -> UserInfo {
    match url::url_parsed(url) {
        Ok(_) => Some((url::url_username(url), url::url_password(url))),
        Err(_) => None,
    }
}

/// What the address of a proxy holds. An address may leave its protocol out: it stands for
/// the one that starts with `http://`.
pub open spec fn user_info_of(url: Seq<char>) -> UserInfo {
    if holds_login(user_info_in(url)) {
        user_info_in(url)
    } else {
        user_info_in("http://"@ + url)
    }
}

/// The proxy for an address and a login, which may be missing.
pub open spec fn proxy_of(url: Option<Seq<char>>, auth: Option<Seq<char>>) -> Result<
    Option<ProxyConfig<Seq<char>>>,
    ProxyError<Seq<char>>,
> {
    match url {
        None => Ok(None),
        Some(url) => if !proxy_accepted(url) {
            Err(ProxyError::Url(url))
        } else {
            match chosen_auth(user_info_of(url), auth) {
                Ok(auth) => Ok(Some(ProxyConfig { url, auth })),
                Err(e) => Err(e),
            }
        },
    }
}

impl View for ProxyError<String> {
    type V = ProxyError<Seq<char>>;

    open spec fn view(&self) -> ProxyError<Seq<char>> {
        match self {
            ProxyError::Url(url) => ProxyError::Url(url@),
            ProxyError::Auth(auth) => ProxyError::Auth(auth@),
        }
    }
}

impl View for ProxyConfig<String> {
    type V = ProxyConfig<Seq<char>>;

    open spec fn view(&self) -> ProxyConfig<Seq<char>> {
        ProxyConfig { url: self.url@, auth: auth_view(self.auth) }
    }
}

/// The view of a login or of an error.
pub open spec fn auth_result(
    auth: Result<Option<(String, String)>, ProxyError<String>>,
) -> Result<Option<(Seq<char>, Seq<char>)>, ProxyError<Seq<char>>> {
    match auth {
        Ok(auth) => Ok(auth_view(auth)),
        Err(e) => Err(e@),
    }
}

/// The view of a proxy or of an error.
pub open spec fn proxy_result(
    proxy: Result<Option<ProxyConfig<String>>, ProxyError<String>>,
) -> Result<Option<ProxyConfig<Seq<char>>>, ProxyError<Seq<char>>> {
    match proxy {
        Ok(Some(proxy)) => Ok(Some(proxy@)),
        Ok(None) => Ok(None),
        Err(e) => Err(e@),
    }
}

/// The user name and the password to use: those in the address, `info`, or else those in
/// `auth`, with a colon between them.
pub fn choose_auth(info: Option<(String, Option<String>)>, auth: &Option<String>) -> (chosen:
    Result<Option<(String, String)>, ProxyError<String>>)
    ensures
        auth_result(chosen) == chosen_auth(user_info_view(info), text::opt_text(*auth)),
{
    if let Some((username, password)) = info {
        let named = !username.as_str().is_empty();
        match password {
            Some(password) => {
                return Ok(Some((username, password)));
            },
            None => {
                if named {
                    return Ok(Some((username, String::new())));
                }
            },
        }
    }
    match auth {
        Some(auth) => match text::split_once(auth.as_str(), ':') {
            Some((username, password)) => Ok(Some((username, password))),
            None => Err(ProxyError::Auth(auth.clone())),
        },
        None => Ok(None),
    }
}

/// The user name and the password in the URL `url`.
fn find_user_info(url: &str) -> (info: Option<(String, Option<String>)>)
    ensures
        user_info_view(info) == user_info_in(url@),
{
    match (url::username_text(url), url::password_text(url)) {
        (Some(username), Some(password)) => Some((username, password)),
        _ => None,
    }
}

/// Whether an address holds a user name or a password.
fn has_login(info: &Option<(String, Option<String>)>) -> (yes: bool)
    ensures
        yes == holds_login(user_info_view(*info)),
{
    match info {
        Some((username, password)) => !username.as_str().is_empty() || password.is_some(),
        None => false,
    }
}

/// The proxy at `url`, logged in to with what the address holds or with `auth`. No proxy,
/// where there is no address.
pub fn build_proxy(url: &Option<String>, auth: &Option<String>) -> (proxy: Result<
    Option<ProxyConfig<String>>,
    ProxyError<String>,
>)
    ensures
        proxy_result(proxy) == proxy_of(text::opt_text(*url), text::opt_text(*auth)),
{
    let url = match url {
        Some(url) => url,
        None => {
            return Ok(None);
        },
    };
    if !accepts(url.as_str()) {
        return Err(ProxyError::Url(url.clone()));
    }
    let mut info = find_user_info(url.as_str());
    if !has_login(&info) {
        let full = "http://".to_owned().concat(url.as_str());
        info = find_user_info(full.as_str());
    }
    match choose_auth(info, auth) {
        Ok(auth) => Ok(Some(ProxyConfig { url: url.clone(), auth })),
        Err(e) => Err(e),
    }
}

/// A user name or a password in the address of a proxy takes precedence: what is given
/// beside the address changes nothing, and is not even looked at.
pub proof fn law_login_in_the_address_takes_precedence(
    info: UserInfo,
    auth: Option<Seq<char>>,
    other: Option<Seq<char>>,
)
    requires
        info matches Some((username, password)) && (username.len() > 0 || password is Some),
    ensures
        chosen_auth(info, auth) == chosen_auth(info, other),
        chosen_auth(info, auth) matches Ok(Some(login)) && (info matches Some((username, _))
            && login.0 == username),
{
}

/// So it is with the proxy itself, whether or not its address starts with a protocol.
pub proof fn law_proxy_uses_the_login_in_its_address(
    url: Seq<char>,
    auth: Option<Seq<char>>,
    username: Seq<char>,
    password: Option<Seq<char>>,
)
    requires
        proxy_accepted(url),
        username.len() > 0 || password is Some,
        user_info_in(url) == Some((username, password)) || ((user_info_in(url) is None
            || user_info_in(url) == Some((Seq::<char>::empty(), None::<Seq<char>>)))
            && user_info_in("http://"@ + url) == Some((username, password))),
    ensures
        proxy_of(Some(url), auth) matches Ok(Some(proxy)) && proxy.url == url && proxy.auth == Some(
            (
                username,
                match password {
                    Some(password) => password,
                    None => seq![],
                },
            ),
        ),
{
}

/// Nothing is logged in to where neither the address nor anything beside it says how.
pub proof fn law_no_login_without_one(info: UserInfo)
    requires
        !holds_login(info),
    ensures
        chosen_auth(info, None) == Ok::<_, ProxyError<Seq<char>>>(
            None::<(Seq<char>, Seq<char>)>,
        ),
{
}

/// A login beside the address is a user name, a colon and a password; the first colon
/// separates them. It is used where the address holds none, and refused where it has no
/// colon.
pub proof fn law_login_beside_the_address(
    username: Seq<char>,
    password: Seq<char>,
    info: UserInfo,
)
    requires
        !username.contains(':'),
        info is None || info == Some((Seq::<char>::empty(), None::<Seq<char>>)),
    ensures
        chosen_auth(info, Some(username + seq![':'] + password)) == Ok::<
            _,
            ProxyError<Seq<char>>,
        >(Some((username, password))),
        chosen_auth(info, Some(username)) == Err::<Option<(Seq<char>, Seq<char>)>, _>(
            ProxyError::Auth(username),
        ),
        chosen_auth(info, None) == Ok::<Option<(Seq<char>, Seq<char>)>, ProxyError<Seq<char>>>(
            None,
        ),
{
    text::law_cutting_undoes_joining(username, ':', password);
}

/// A user name in the address alone, or a password alone, is a login already; what is
/// missing is empty.
pub proof fn law_login_in_the_address(
    username: Seq<char>,
    password: Option<Seq<char>>,
    auth: Option<Seq<char>>,
)
    ensures
        username.len() > 0 || password is Some ==> chosen_auth(Some((username, password)), auth)
            == Ok::<_, ProxyError<Seq<char>>>(
            Some(
                (
                    username,
                    if password is Some {
                        password->0
                    } else {
                        Seq::empty()
                    },
                ),
            ),
        ),
        holds_login(Some((username, password))) <==> username.len() > 0 || password is Some,
        !holds_login(None),
{
}

/// What an address holds is what the URL parser finds in it, or, where that is no login, in
/// the address behind `http://`.
pub proof fn law_login_is_looked_for_in_the_address(url: Seq<char>)
    ensures
        url::url_parsed(url) is Ok && (url::url_username(url).len() > 0 || url::url_password(
            url,
        ) is Some) ==> user_info_of(url) == Some((url::url_username(url), url::url_password(url))),
        !(url::url_parsed(url) is Ok && (url::url_username(url).len() > 0 || url::url_password(
            url,
        ) is Some)) ==> user_info_of(url) == (if url::url_parsed("http://"@ + url) is Ok {
            Some((url::url_username("http://"@ + url), url::url_password("http://"@ + url)))
        } else {
            None
        }),
{
}

/// No proxy is used without an address. An address that no proxy can have is refused,
/// whatever the login is; any other is used as it is, with the login that is found for it.
pub proof fn law_proxy_is_at_its_address(url: Seq<char>, auth: Option<Seq<char>>)
    ensures
        proxy_of(None, auth) == Ok::<Option<ProxyConfig<Seq<char>>>, ProxyError<Seq<char>>>(None),
        !proxy_accepted(url) ==> proxy_of(Some(url), auth) == Err::<
            Option<ProxyConfig<Seq<char>>>,
            _,
        >(ProxyError::Url(url)),
        proxy_accepted(url) ==> match chosen_auth(user_info_of(url), auth) {
            Ok(login) => proxy_of(Some(url), auth) == Ok::<_, ProxyError<Seq<char>>>(
                Some(ProxyConfig { url, auth: login }),
            ),
            Err(e) => proxy_of(Some(url), auth) == Err::<Option<ProxyConfig<Seq<char>>>, _>(e),
        },
{
}

/// In specifications proxies, logins and errors are what they are.
pub proof fn law_proxies_are_seen_whole(
    proxy: Result<Option<ProxyConfig<String>>, ProxyError<String>>,
    login: Result<Option<(String, String)>, ProxyError<String>>,
    info: Option<(String, Option<String>)>,
)
    ensures
        match proxy {
            Ok(Some(config)) => {
                &&& proxy_result(proxy) matches Ok(Some(seen))
                &&& seen.url == config.url@
                &&& seen.auth is Some <==> config.auth is Some
                &&& config.auth matches Some((username, password)) ==> seen.auth == Some(
                    (username@, password@),
                )
            },
            Ok(None) => proxy_result(proxy) == Ok::<
                Option<ProxyConfig<Seq<char>>>,
                ProxyError<Seq<char>>,
            >(None),
            Err(ProxyError::Url(url)) => proxy_result(proxy) == Err::<
                Option<ProxyConfig<Seq<char>>>,
                _,
            >(ProxyError::Url(url@)),
            Err(ProxyError::Auth(auth)) => proxy_result(proxy) == Err::<
                Option<ProxyConfig<Seq<char>>>,
                _,
            >(ProxyError::Auth(auth@)),
        },
        match login {
            Ok(Some((username, password))) => auth_result(login) == Ok::<
                _,
                ProxyError<Seq<char>>,
            >(Some((username@, password@))),
            Ok(None) => auth_result(login) == Ok::<
                Option<(Seq<char>, Seq<char>)>,
                ProxyError<Seq<char>>,
            >(None),
            Err(ProxyError::Url(url)) => auth_result(login) == Err::<
                Option<(Seq<char>, Seq<char>)>,
                _,
            >(ProxyError::Url(url@)),
            Err(ProxyError::Auth(auth)) => auth_result(login) == Err::<
                Option<(Seq<char>, Seq<char>)>,
                _,
            >(ProxyError::Auth(auth@)),
        },
        match info {
            Some((username, Some(password))) => user_info_view(info) == Some(
                (username@, Some(password@)),
            ),
            Some((username, None)) => user_info_view(info) == Some(
                (username@, None::<Seq<char>>),
            ),
            None => user_info_view(info) is None,
        },
{
}

} // verus!
