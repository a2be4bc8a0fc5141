//! What a run is configured with.

use vstd::prelude::*;
use vstd::string::StringExecFns;
use crate::extract::Field;
use crate::text::{decimal_string, decimal_text, text_view};

verus! {

/// A source to crawl: its title, which names its chapters in the store and
/// its feed; the page to render; the node whose presence shows that the
/// chapter list is ready; and the script that extracts the chapters.
#[derive(Debug, PartialEq, Eq)]
pub struct Instruction {
    pub title: String,
    pub url: String,
    pub list_node: String,
    pub js_script: String,
}

/// Where finished feeds are uploaded to.
#[derive(Debug, PartialEq, Eq)]
pub struct FtpSettings {
    pub host: String,
    pub port: u16,
    pub username: String,
    pub password: String,
    pub target_path: String,
}

/// The directory, beside the program, that feeds are written to.
pub fn feed_directory() -> (r: &'static str)
    ensures
        r@ == "rsstygen-rssfiles"@,
{
    "rsstygen-rssfiles"
}

/// The text of a configured value: a missing value is no text at all, and
/// a value that is no string counts as the empty string.
pub open spec fn setting_text(value: Field) -> Option<Seq<char>> {
    match value {
        Field::Missing => None,
        Field::Other => Some(Seq::empty()),
        Field::Text(text) => Some(text@),
    }
}

fn setting(value: &Field) -> (r: Option<String>)
    ensures
        text_view(r) == setting_text(*value),
{
    match value {
        Field::Missing => None,
        Field::Other => Some(String::new()),
        Field::Text(text) => Some(text.clone()),
    }
}

impl Instruction {
    /// The source configured under `title` with the three values found
    /// there. All three must be present; one that is no string is taken as
    /// the empty string.
    pub fn from_fields(title: &str, url: &Field, list_node: &Field, js_script: &Field) -> (r: Option<
        Instruction,
    >)
        ensures
            match r {
                Some(source) => {
                    &&& source.title@ == title@
                    &&& setting_text(*url) == Some(source.url@)
                    &&& setting_text(*list_node) == Some(source.list_node@)
                    &&& setting_text(*js_script) == Some(source.js_script@)
                },
                None => setting_text(*url) is None || setting_text(*list_node) is None
                    || setting_text(*js_script) is None,
            },
    {
        let url = match setting(url) {
            Some(text) => text,
            None => { return None; },
        };
        let list_node = match setting(list_node) {
            Some(text) => text,
            None => { return None; },
        };
        let js_script = match setting(js_script) {
            Some(text) => text,
            None => { return None; },
        };
        Some(Instruction { title: title.to_owned(), url, list_node, js_script })
    }

    /// The name of the source's feed file: its title followed by `.rss`.
    pub open spec fn feed_file(self) -> Seq<char> {
        self.title@ + ".rss"@
    }

    /// Executable form of [`Instruction::feed_file`].
    pub fn feed_file_name(&self) -> (r: String)
        ensures
            r@ == self.feed_file(),
    {
        let mut name = self.title.clone();
        name.append(".rss");
        name
    }
}

impl FtpSettings {
    /// The server's address: host, a colon, and the port in decimal.
    pub open spec fn address_text(self) -> Seq<char> {
        self.host@ + ":"@ + decimal_text(self.port as nat)
    }

    /// Executable form of [`FtpSettings::address_text`].
    pub fn address(&self) -> (r: String)
        ensures
            r@ == self.address_text(),
    {
        let mut text = self.host.clone();
        text.append(":");
        let port = decimal_string(self.port as usize);
        text.append(port.as_str());
        text
    }
}

} // verus!
