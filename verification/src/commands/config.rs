//! The user's identity that commits are recorded with.
use vstd::prelude::*;

use crate::bindings::{ini_get_from, ini_load_from_str, ini_new, ini_parse, ini_set_to, ini_values};
use crate::errors::RgitError;
use crate::text::{chars_of, skip_chars, starts_with, string_of};

verus! {

/// The author name and e-mail address of the repository's user.
#[derive(Debug)]
pub struct Config {
    _user_name: String,
    _user_email: String,
}

impl View for Config {
    /// The name, then the e-mail address.
    type V = (Seq<char>, Seq<char>);

    closed spec fn view(&self) -> (Seq<char>, Seq<char>) {
        (self._user_name@, self._user_email@)
    }
}

/// The section of the configuration file that holds the identity.
pub open spec fn user_section() -> Seq<char> {
    "User"@
}

/// A value of the configuration file, or the empty text when it is missing.
pub open spec fn value_or_empty(
    values: Map<(Seq<char>, Seq<char>), Seq<char>>,
    key: Seq<char>,
) -> Seq<char> {
    if values.contains_key((user_section(), key)) {
        values[(user_section(), key)]
    } else {
        Seq::<char>::empty()
    }
}

/// A text without one leading byte-order mark.
pub open spec fn without_bom(text: Seq<char>) -> Seq<char> {
    if text.len() > 0 && text[0] == '\u{feff}' {
        text.drop_first()
    } else {
        text
    }
}

/// The identity a configuration file holds, given what reading it gave
/// (`None` when it does not exist).
pub open spec fn loaded_config(
    file: Option<Result<String, std::io::Error>>,
    res: Result<Config, RgitError>,
) -> bool {
    match file {
        None => res matches Ok(c) && c@ == (Seq::<char>::empty(), Seq::<char>::empty()),
        Some(Err(_)) => res matches Err(RgitError::ConfigError),
        Some(Ok(t)) => match ini_parse(without_bom(t@)) {
            None => res matches Err(RgitError::ConfigError),
            Some(values) => res matches Ok(c) && c@ == (
                value_or_empty(values, "name"@),
                value_or_empty(values, "email"@),
            ),
        },
    }
}

impl Config {
    /// Reads the identity from a configuration file, given what reading it
    /// gave (`None` when the file does not exist): a missing file gives an
    /// empty identity; a file that cannot be read or parsed is an error;
    /// otherwise the name and e-mail address are the `name` and `email`
    /// values of its `User` section, empty where missing. A leading
    /// byte-order mark is skipped.
    pub fn load(file: Option<Result<String, std::io::Error>>) -> (res: Result<Self, RgitError>)
        ensures
            loaded_config(file, res),
    {
        let text = match file {
            None => {
                return Ok(Self::new());
            },
            Some(Err(_)) => {
                return Err(RgitError::ConfigError);
            },
            Some(Ok(t)) => t,
        };
        let cs = chars_of(text.as_str());
        let body = if cs.len() > 0 && cs[0] == '\u{feff}' {
            skip_chars(&cs, 1)
        } else {
            skip_chars(&cs, 0)
        };
        assert(body@ =~= without_bom(text@));
        let body_text = string_of(&body);
        let conf = match ini_load_from_str(body_text.as_str()) {
            Ok(c) => c,
            Err(_) => {
                return Err(RgitError::ConfigError);
            },
        };
        Ok(Self::from_document(&conf))
    }

    /// The identity a configuration document holds: the `name` and `email`
    /// values of its `User` section, empty where missing.
    pub fn from_document(conf: &ini::Ini) -> (res: Self)
        ensures
            res@ == (value_or_empty(ini_values(*conf), "name"@), value_or_empty(
                ini_values(*conf),
                "email"@,
            )),
    {
        let user_name = match ini_get_from(conf, "User", "name") {
            Some(v) => v,
            None => String::new(),
        };
        let user_email = match ini_get_from(conf, "User", "email") {
            Some(v) => v,
            None => String::new(),
        };
        Self { _user_name: user_name, _user_email: user_email }
    }

    /// The configuration file's document for this identity: a `User`
    /// section with the `name` and `email` values.
    pub fn set(&self) -> (res: ini::Ini)
        ensures
            ini_values(res) == map![
                (user_section(), "name"@) => self@.0,
                (user_section(), "email"@) => self@.1,
            ],
    {
        let mut conf = ini_new();
        ini_set_to(&mut conf, "User", "name", self._user_name.as_str());
        ini_set_to(&mut conf, "User", "email", self._user_email.as_str());
        proof {
            reveal_strlit("name");
            reveal_strlit("email");
            assert("name"@ != "email"@) by {
                assert("name"@.len() != "email"@.len());
            }
        }
        assert(ini_values(conf) =~= map![
            (user_section(), "name"@) => self@.0,
            (user_section(), "email"@) => self@.1,
        ]);
        conf
    }

    /// A configuration with an empty name and an empty address.
    pub fn new() -> (res: Config)
        ensures
            res@ == (Seq::<char>::empty(), Seq::<char>::empty()),
    {
        Config { _user_name: String::new(), _user_email: String::new() }
    }

    /// Sets the user's name; the address stays.
    pub fn user_name(&mut self, user_name: String) -> (res: Result<&mut Self, RgitError>)
        ensures
            res matches Ok(r) && r@ == with_name(old(self)@, user_name@) 
                && final(self)@ == final(r)@,
    {
        self._user_name = user_name;
        Ok(self)
    }

    /// Sets the user's e-mail address; the name stays.
    pub fn user_email(&mut self, user_email: String) -> (res: Result<&mut Self, RgitError>)
        ensures
            res matches Ok(r) && r@ == with_email(old(self)@, user_email@) 
                && final(self)@ == final(r)@,
    {
        self._user_email = user_email;
        Ok(self)
    }

    /// The user's name.
    pub fn get_user_name(&self) -> (res: Result<&str, RgitError>)
        ensures
            res matches Ok(s) && s@ == self@.0,
    {
        Ok(self._user_name.as_str())
    }

    /// The user's e-mail address.
    pub fn get_user_email(&self) -> (res: Result<&str, RgitError>)
        ensures
            res matches Ok(s) && s@ == self@.1,
    {
        Ok(self._user_email.as_str())
    }
}

/// Whether the text `a` is the text `b`.
fn same_text(a: &str, b: &str) -> (res: bool)
    ensures
        res == (a@ == b@),
{
    let ac = chars_of(a);
    let bc = chars_of(b);
    if ac.len() != bc.len() {
        return false;
    }
    assert(ac@.take(bc@.len() as int) =~= ac@);
    starts_with(&ac, &bc)
}

impl Config {
    /// Reads or sets one setting, named by its key: `user.name` or
    /// `user.email`. Given a value, the setting takes it and nothing is
    /// given back; given none, the setting's value is given back and
    /// nothing changes. Any other key is a configuration error, and nothing
    /// changes.
    pub fn setting(&mut self, key: &str, value: Option<String>) -> (res: Result<
        Option<String>,
        RgitError,
    >)
        ensures
            key@ == "user.name"@ ==> (match value {
                Some(v) => res matches Ok(None) && final(self)@ == with_name(old(self)@, v@),
                None => res matches Ok(Some(s)) && s@ == old(self)@.0 && *final(self) == *old(
                    self,
                ),
            }),
            key@ == "user.email"@ ==> (match value {
                Some(v) => res matches Ok(None) && final(self)@ == with_email(old(self)@, v@),
                None => res matches Ok(Some(s)) && s@ == old(self)@.1 && *final(self) == *old(
                    self,
                ),
            }),
            key@ != "user.name"@ && key@ != "user.email"@ ==> (res matches Err(
                RgitError::ConfigError,
            ) && *final(self) == *old(self)),
    {
        proof {
            reveal_strlit("user.name");
            reveal_strlit("user.email");
            assert("user.name"@ != "user.email"@) by {
                assert("user.name"@.len() != "user.email"@.len());
            }
        }
        if same_text(key, "user.name") {
            match value {
                Some(v) => {
                    self._user_name = v;
                    Ok(None)
                },
                None => Ok(Some(self._user_name.as_str().to_owned())),
            }
        } else if same_text(key, "user.email") {
            match value {
                Some(v) => {
                    self._user_email = v;
                    Ok(None)
                },
                None => Ok(Some(self._user_email.as_str().to_owned())),
            }
        } else {
            Err(RgitError::ConfigError)
        }
    }
}

/// Setting the name and then reading it gives the name back, and leaves
/// the address as it was; likewise for the address.
pub proof fn law_identity_read_back(before: (Seq<char>, Seq<char>), name: Seq<char>, email: Seq<char>)
    ensures
        with_name(before, name).0 == name,
        with_name(before, name).1 == before.1,
        with_email(before, email).1 == email,
        with_email(before, email).0 == before.0,
{
}

/// The identity after setting the name.
pub open spec fn with_name(before: (Seq<char>, Seq<char>), name: Seq<char>) -> (Seq<char>, Seq<char>) {
    (name, before.1)
}

/// The identity after setting the e-mail address.
pub open spec fn with_email(before: (Seq<char>, Seq<char>), email: Seq<char>) -> (Seq<char>, Seq<char>) {
    (before.0, email)
}

/// The values of the document written for an identity give that identity
/// back when read as `load` reads them.
pub proof fn law_document_holds_identity(name: Seq<char>, email: Seq<char>)
    ensures
        ({
            let values = map![(user_section(), "name"@) => name, (user_section(), "email"@) => email];
            value_or_empty(values, "name"@) == name && value_or_empty(values, "email"@) == email
        }),
{
    reveal_strlit("name");
    reveal_strlit("email");
    assert("name"@ != "email"@) by {
        assert("name"@.len() != "email"@.len());
    }
}

} // verus!
