use vstd::prelude::*;

use vstd::string::*;

verus! {

/// User name and password used for the admin page when none is configured.
pub const DEFAULT_ADMIN_CREDENTIAL: &'static str = "admin";

/// Realm announced when the admin page asks for credentials.
pub const AUTHENTICATE_CHALLENGE: &'static str = "Basic realm=\"Admin Area\"";

/// Answer when the request carries no usable Basic credentials.
pub const MISSING_CREDENTIALS_MESSAGE: &'static str = "Unauthorized";

/// Answer when the credentials do not match.
pub const WRONG_CREDENTIALS_MESSAGE: &'static str = "Invalid credentials";

/// A user name and password pair.
pub struct Credentials {
    pub username: String,
    pub password: String,
}

/// Outcome of checking a request for the admin page.
#[derive(Clone, Copy, Debug, PartialEq, Eq, Structural)]
pub enum AdminAccess {
    Granted,
    MissingCredentials,
    WrongCredentials,
}

/// A configured credential: the configured value, or `admin` when there is none.
pub fn configured_credential(value: Option<String>) -> (credential: String)
    ensures
        credential@ == match value {
            Some(v) => v@,
            None => DEFAULT_ADMIN_CREDENTIAL@,
        },
{
    match value {
        Some(v) => v,
        None => String::from_str(DEFAULT_ADMIN_CREDENTIAL),
    }
}

/// The admin credentials from the configured user name and password.
pub fn admin_credentials(username: Option<String>, password: Option<String>) -> (c: Credentials)
    ensures
        c.username@ == match username {
            Some(v) => v@,
            None => DEFAULT_ADMIN_CREDENTIAL@,
        },
        c.password@ == match password {
            Some(v) => v@,
            None => DEFAULT_ADMIN_CREDENTIAL@,
        },
{
    Credentials {
        username: configured_credential(username),
        password: configured_credential(password),
    }
}

pub open spec fn admin_access(presented: Option<Credentials>, expected: Credentials) -> AdminAccess {
    match presented {
        None => AdminAccess::MissingCredentials,
        Some(c) => if c.username@ == expected.username@ && c.password@ == expected.password@ {
            AdminAccess::Granted
        } else {
            AdminAccess::WrongCredentials
        },
    }
}

/// Decides a request for the admin page: granted exactly when it carries Basic
/// credentials equal to the expected ones.
pub fn check_admin_access(presented: &Option<Credentials>, expected: &Credentials) -> (access: AdminAccess)
    ensures
        access == admin_access(*presented, *expected),
{
    match presented {
        None => AdminAccess::MissingCredentials,
        Some(c) => {
            if c.username == expected.username && c.password == expected.password {
                AdminAccess::Granted
            } else {
                AdminAccess::WrongCredentials
            }
        },
    }
}

/// The body of the refusal for a request that was not granted.
pub fn refusal_message(access: AdminAccess) -> (message: Option<&'static str>)
    ensures
        message == match access {
            AdminAccess::Granted => None,
            AdminAccess::MissingCredentials => Some(MISSING_CREDENTIALS_MESSAGE),
            AdminAccess::WrongCredentials => Some(WRONG_CREDENTIALS_MESSAGE),
        },
{
    match access {
        AdminAccess::Granted => None,
        AdminAccess::MissingCredentials => Some(MISSING_CREDENTIALS_MESSAGE),
        AdminAccess::WrongCredentials => Some(WRONG_CREDENTIALS_MESSAGE),
    }
}

/// Whether the server runs with the built-in `admin`/`admin` credentials, which
/// deserves a warning.
pub fn uses_default_credentials(c: &Credentials) -> (default: bool)
    ensures
        default == (c.username@ == DEFAULT_ADMIN_CREDENTIAL@ && c.password@
            == DEFAULT_ADMIN_CREDENTIAL@),
{
    let default_value = String::from_str(DEFAULT_ADMIN_CREDENTIAL);
    c.username == default_value && c.password == default_value
}

/// The admin page is granted exactly to credentials equal to the expected
/// ones; a request without credentials is refused as missing them, and
/// anything else as wrong.
pub proof fn access_granted_only_to_matching_credentials(
    presented: Option<Credentials>,
    expected: Credentials,
)
    ensures
        (admin_access(presented, expected) == AdminAccess::Granted) <==> (presented matches Some(c)
            && c.username@ == expected.username@ && c.password@ == expected.password@),
        (admin_access(presented, expected) == AdminAccess::MissingCredentials) <==> presented is None,
{
}

/// Unconfigured, the admin page accepts exactly `admin`/`admin`, and the
/// server warns about it.
pub proof fn unconfigured_admin_is_default(presented: Credentials, expected: Credentials)
    requires
        expected.username@ == DEFAULT_ADMIN_CREDENTIAL@,
        expected.password@ == DEFAULT_ADMIN_CREDENTIAL@,
    ensures
        (admin_access(Some(presented), expected) == AdminAccess::Granted) <==> (presented.username@
            == DEFAULT_ADMIN_CREDENTIAL@ && presented.password@ == DEFAULT_ADMIN_CREDENTIAL@),
{
}

} // verus!
