//! Local settings and process environment, as plain data. Reading and
//! writing the backing file, and reading the process environment, stay with
//! the caller; this module owns the values and the exact text written back.

use vstd::prelude::*;

verus! {

use vstd::string::*;

/// What the process environment must provide at start.
pub struct Env {
    pub ics_auth_key: String,
    pub database_url: String,
}

/// Whether credentials are remembered when nothing was configured.
pub fn default_save_credentials() -> (r: bool)
    ensures
        r == false,
{
    false
}

/// The persisted settings.
pub struct ConfigContent {
    pub save_credentials: bool,
}

/// The settings together with the file they came from.
pub struct Config {
    content: ConfigContent,
    file_path: String,
}

impl Config {
    /// The settings read from the file at `file_path`; a missing key means
    /// the default.
    pub fn new(save_credentials: Option<bool>, file_path: String) -> (r: Config)
        ensures
            r.save_credentials_spec() == (match save_credentials {
                Option::Some(b) => b,
                Option::None => false,
            }),
            r.file_path_spec() == file_path@,
    {
        let value = match save_credentials {
            Some(b) => b,
            None => default_save_credentials(),
        };
        Config { content: ConfigContent { save_credentials: value }, file_path }
    }

    /// Whether credentials are remembered.
    pub closed spec fn save_credentials_spec(&self) -> bool {
        self.content.save_credentials
    }

    /// Where the settings live.
    pub closed spec fn file_path_spec(&self) -> Seq<char> {
        self.file_path@
    }

    /// Whether credentials are remembered.
    pub fn save_credentials(&self) -> (r: bool)
        ensures
            r == self.save_credentials_spec(),
    {
        self.content.save_credentials
    }

    /// The file the settings are written back to.
    pub fn file_path(&self) -> (r: &String)
        ensures
            r@ == self.file_path_spec(),
    {
        &self.file_path
    }

    /// Changes the setting; the caller writes `to_toml_text` back to the
    /// file.
    pub fn set_save_credentials(&mut self, save_credentials: bool)
        ensures
            final(self).save_credentials_spec() == save_credentials,
            final(self).file_path_spec() == old(self).file_path_spec(),
    {
        self.content.save_credentials = save_credentials;
    }

    /// The settings file's exact text.
    pub fn to_toml_text(&self) -> (r: String)
        ensures
            self.save_credentials_spec() ==> r@ == "save_credentials = true\n"@,
            !self.save_credentials_spec() ==> r@ == "save_credentials = false\n"@,
    {
        if self.content.save_credentials {
            String::from_str("save_credentials = true\n")
        } else {
            String::from_str("save_credentials = false\n")
        }
    }
}

} // verus!
