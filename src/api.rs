use vstd::prelude::*;
use crate::document::Document;
use crate::error::ConfigError;

verus! {

/// The settings that every request handler shares.
pub struct AppState {
    pub username: String,
    pub password: String,
    pub url: String,
    pub config_path: String,
}

/// Whether the given credentials are accepted: with no username and no password
/// configured anything goes, otherwise both must match exactly.
pub open spec fn credentials_accepted(
    username: Seq<char>,
    password: Seq<char>,
    given_user: Seq<char>,
    given_password: Seq<char>,
) -> bool {
    (username.len() == 0 && password.len() == 0) || (given_user == username && given_password
        == password)
}

impl AppState {
    pub open spec fn accepts(&self, user_id: &str, password: &str) -> bool {
        credentials_accepted(self.username@, self.password@, user_id@, password@)
    }
}

/// Checks the credentials of a request against the configured ones. A request
/// without a password gives the empty password.
pub fn user_authentication(app_data: &AppState, user_id: &str, password: &str) -> (r: Result<
    (),
    ConfigError,
>)
    ensures
        r is Ok <==> app_data.accepts(user_id, password),
        r is Err ==> r == Err::<(), ConfigError>(ConfigError::Auth),
{
    let open = app_data.username.as_str().unicode_len() == 0 && app_data.password.as_str().unicode_len()
        == 0;
    if open {
        return Ok(());
    }
    let given_user = String::from_str(user_id);
    let given_password = String::from_str(password);
    if given_user.eq(&app_data.username) && given_password.eq(&app_data.password) {
        Ok(())
    } else {
        Err(ConfigError::Auth)
    }
}

/// What the catch-all page route serves.
#[derive(Debug, Clone, Copy, PartialEq, Eq, Structural)]
pub enum StaticPage {
    Favicon,
    Index,
    RedirectToIndex,
}

/// Chooses the page for a requested file name: the icon for `favicon.ico`, the
/// page for `index.html`, and a redirect to `/index.html` for anything else.
pub fn html_index(file_name: &str) -> (r: StaticPage)
    ensures
        file_name@ == "favicon.ico"@ ==> r == StaticPage::Favicon,
        file_name@ == "index.html"@ ==> r == StaticPage::Index,
        file_name@ != "favicon.ico"@ && file_name@ != "index.html"@ ==> r
            == StaticPage::RedirectToIndex,
{
    proof {
        reveal_strlit("favicon.ico");
        reveal_strlit("index.html");
        assert("favicon.ico"@.len() != "index.html"@.len());
    }
    let name = String::from_str(file_name);
    let favicon = String::from_str("favicon.ico");
    let index = String::from_str("index.html");
    if name.eq(&favicon) {
        StaticPage::Favicon
    } else if name.eq(&index) {
        StaticPage::Index
    } else {
        StaticPage::RedirectToIndex
    }
}

/// The reply to a login request.
pub fn api_login(app_data: &AppState, user_id: &str, password: &str) -> (r: Result<
    String,
    ConfigError,
>)
    ensures
        app_data.accepts(user_id, password) ==> r is Ok && r->Ok_0@ == "login success"@,
        !app_data.accepts(user_id, password) ==> r == Err::<String, ConfigError>(
            ConfigError::Auth,
        ),
{
    match user_authentication(app_data, user_id, password) {
        Ok(()) => Ok(String::from_str("login success")),
        Err(e) => Err(e),
    }
}

/// A snapshot of the local override document, for an authenticated request.
pub fn api_get_config(
    app_data: &AppState,
    local_config: &Document,
    user_id: &str,
    password: &str,
) -> (r: Result<Document, ConfigError>)
    ensures
        app_data.accepts(user_id, password) ==> r is Ok && r->Ok_0@ == local_config@,
        !app_data.accepts(user_id, password) ==> r == Err::<Document, ConfigError>(
            ConfigError::Auth,
        ),
{
    match user_authentication(app_data, user_id, password) {
        Ok(()) => Ok(local_config.deep_copy()),
        Err(e) => Err(e),
    }
}

/// Replaces the local override document with `new_config`, the document parsed
/// from the request (`None` where its text is malformed), for an authenticated
/// request. On success the result is the document to persist; on failure the
/// local document is left as it was.
pub fn api_update_config(
    app_data: &AppState,
    local_config: &mut Document,
    user_id: &str,
    password: &str,
    new_config: Option<Document>,
) -> (r: Result<Document, ConfigError>)
    ensures
        !app_data.accepts(user_id, password) ==> r == Err::<Document, ConfigError>(
            ConfigError::Auth,
        ),
        app_data.accepts(user_id, password) && new_config is None ==> r == Err::<
            Document,
            ConfigError,
        >(ConfigError::Parse),
        r is Err ==> *final(local_config) == *old(local_config),
        app_data.accepts(user_id, password) && new_config is Some ==> r is Ok
            && final(local_config)@ == new_config->0@ && r->Ok_0@ == new_config->0@,
{
    match user_authentication(app_data, user_id, password) {
        Err(e) => Err(e),
        Ok(()) => match new_config {
            None => Err(ConfigError::Parse),
            Some(config) => {
                let saved = config.deep_copy();
                *local_config = config;
                Ok(saved)
            },
        },
    }
}

} // verus!
