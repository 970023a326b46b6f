//! The agent inside an Android app: what the app is told, and what it has to say before the agent
//! starts.
use vstd::prelude::*;

use crate::json::{self, Json};
use crate::socks5;
use crate::socks5::client::string_option;
use crate::text;

verus! {

/// What the app is told of the agent's state, as JSON.
pub open spec fn status_json(state: Seq<char>, error: Option<Seq<char>>) -> Json {
    Json::Object(
        Map::<Seq<char>, Json>::empty().insert("state"@, Json::Text(state)).insert(
            "error"@,
            match error {
                Some(error) => Json::Text(error),
                None => Json::Null,
            },
        ),
    )
}

/// What the app is told of the agent's state.
pub fn report_android_status(state: &str, error: Option<&str>) -> (res: String)
    ensures
        res@ == json::rendered(status_json(state@, socks5::text_option(error))),
{
    let mut fields = json::no_fields();
    json::set_field(&mut fields, "state", json::text(state));
    match error {
        Some(error) => {
            json::set_field(&mut fields, "error", json::text(error));
        },
        None => {
            json::set_field(&mut fields, "error", json::null());
        },
    }
    json::render(&json::object(fields))
}

/// Where the agent keeps its totals: a file in the app's directory, where there is one.
pub open spec fn cache_file(directory: Option<Seq<char>>) -> Option<Seq<char>> {
    match directory {
        Some(directory) => if directory.len() > 0 {
            Some(directory + "/agent_cache.json"@)
        } else {
            None
        },
        None => None,
    }
}

/// Where the agent keeps its totals; what is wrong where the app has no directory.
pub fn service_cache_path(directory: Option<String>) -> (res: Result<String, String>)
    ensures
        match res {
            Ok(path) => cache_file(string_option(directory)) == Some(path@),
            Err(error) => cache_file(string_option(directory)) is None && error@
                == "app files directory is unavailable"@,
        },
{
    if let Some(directory) = directory {
        if directory.as_str().unicode_len() > 0 {
            return Ok(text::join(directory.as_str(), "/agent_cache.json"));
        }
    }
    Err(text::copy_text("app files directory is unavailable"))
}

/// The server's fingerprint, where the app has one that is not blank.
pub fn service_fingerprint(value: Option<String>) -> (res: Option<String>)
    ensures
        res == match value {
            Some(fingerprint) => if text::trimmed(fingerprint@).len() > 0 {
                Some(fingerprint)
            } else {
                None
            },
            None => None,
        },
{
    match value {
        Some(fingerprint) => {
            let chars = text::to_chars(fingerprint.as_str());
            if text::trim(chars.as_slice()).len() > 0 {
                Some(fingerprint)
            } else {
                None
            }
        },
        None => None,
    }
}

/// The agent's name, which it needs to have; what is wrong where it has none.
pub fn required_agent_id(id: String) -> (res: Result<String, String>)
    ensures
        match res {
            Ok(name) => name == id && id@.len() > 0,
            Err(error) => id@.len() == 0 && error@ == "agent ID is required"@,
        },
{
    if id.as_str().unicode_len() > 0 {
        Ok(id)
    } else {
        Err(text::copy_text("agent ID is required"))
    }
}

/// A password that was asked for, where one was given.
pub fn given_password(password: String) -> (res: Option<String>)
    ensures
        res == (if password@.len() > 0 {
            Some(password)
        } else {
            None
        }),
{
    if password.as_str().unicode_len() > 0 {
        Some(password)
    } else {
        None
    }
}

/// The app is told the state of its agent and what went wrong, where something did.
pub proof fn law_status_fields(state: Seq<char>, error: Seq<char>)
    ensures
        json::field(status_json(state, Some(error)), "state"@) == Some(Json::Text(state)),
        json::field(status_json(state, Some(error)), "error"@) == Some(Json::Text(error)),
        json::field(status_json(state, None), "state"@) == Some(Json::Text(state)),
        json::field(status_json(state, None), "error"@) == Some(Json::Null),
{
    reveal_strlit("state");
    reveal_strlit("error");
    assert("state"@.len() == 5);
    assert("error"@.len() == 5);
    assert("state"@[0] != "error"@[0]);
}

/// The agent's cache stands in the app's directory, where there is one.
pub proof fn law_cache_is_in_the_directory(directory: Seq<char>)
    ensures
        directory.len() > 0 ==> (cache_file(Some(directory)) matches Some(path) && path.take(
            directory.len() as int,
        ) == directory && path.skip(directory.len() as int) == "/agent_cache.json"@),
        directory.len() == 0 ==> cache_file(Some(directory)) is None,
        cache_file(None) is None,
{
    let path = directory + "/agent_cache.json"@;
    assert(path.take(directory.len() as int) =~= directory);
    assert(path.skip(directory.len() as int) =~= "/agent_cache.json"@);
}

} // verus!
