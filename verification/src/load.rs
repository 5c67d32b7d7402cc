//! Loading settings from a file.

use crate::cli::{config_format, format_of, Format};
use crate::config::{dev_tunnel_fault, Config, ConfigView};
use crate::error::{Error, ErrorView};
use crate::paths::PathStyle;
use crate::sshd_config::{banner_text, parse_for_user, parsed_for, read_banner};
use crate::text::{option_text, str_text};
use vstd::prelude::*;

verus! {

/// A failure with the path of the file that it is about.
pub open spec fn with_path(e: ErrorView, path: Seq<char>) -> ErrorView {
    match e {
        ErrorView::ConfigFile { message, .. } => ErrorView::ConfigFile { path, message },
        other => other,
    }
}

/// What was read of a TOML file.
pub open spec fn toml_view(r: Result<Config, String>) -> Result<ConfigView, Seq<char>> {
    match r {
        Ok(c) => Ok(c@),
        Err(e) => Err(e@),
    }
}

/// The settings of a TOML file, or what is wrong with them.
pub open spec fn from_toml_view(r: Result<ConfigView, Seq<char>>) -> Result<ConfigView, ErrorView> {
    match r {
        Err(message) => Err(ErrorView::ConfigFile { path: "<toml>"@, message }),
        Ok(c) => match dev_tunnel_fault(c.dev_tunnel) {
            Some(message) => Err(ErrorView::Config(message)),
            None => Ok(c),
        },
    }
}

/// What a result of loading settings holds.
pub open spec fn config_result(r: Result<Config, Error>) -> Result<ConfigView, ErrorView> {
    match r {
        Ok(c) => Ok(c@),
        Err(e) => Err(e@),
    }
}

/// A result with the path of the file that a failure is about.
pub open spec fn result_with_path(r: Result<ConfigView, ErrorView>, path: Seq<char>) -> Result<
    ConfigView,
    ErrorView,
> {
    match r {
        Ok(c) => Ok(c),
        Err(e) => Err(with_path(e, path)),
    }
}

/// The settings of the file at `path`, whose format is told by its extension.
pub open spec fn loaded(
    style: PathStyle,
    path: Seq<char>,
    content: Result<Seq<char>, Seq<char>>,
    home: Option<Seq<char>>,
    toml: Result<ConfigView, Seq<char>>,
) -> Result<ConfigView, ErrorView> {
    match content {
        Err(message) => Err(ErrorView::ConfigFile { path, message }),
        Ok(text) => match format_of(style, path) {
            Format::Toml => result_with_path(from_toml_view(toml), path),
            Format::Directives => result_with_path(parsed_for(style, text, home), path),
        },
    }
}

/// What could be read of a file.
pub open spec fn content_view(r: Result<String, String>) -> Result<Seq<char>, Seq<char>> {
    match r {
        Ok(s) => Ok(s@),
        Err(e) => Err(e@),
    }
}

fn put_path(e: Error, path: &str) -> (r: Error)
    ensures
        r@ == with_path(e@, path@),
{
    match e {
        Error::ConfigFile { message, .. } => Error::ConfigFile { path: path.to_owned(), message },
        other => other,
    }
}

impl Config {
    /// The settings that were read from TOML, where they are valid.
    pub fn from_toml(parsed: Result<Config, String>) -> (r: Result<Config, Error>)
        ensures
            config_result(r) == from_toml_view(toml_view(parsed)),
    {
        let config = match parsed {
            Ok(c) => c,
            Err(message) => return Err(
                Error::ConfigFile { path: "<toml>".to_owned(), message },
            ),
        };
        match config.validate_dev_tunnel() {
            Ok(_) => Ok(config),
            Err(e) => Err(e),
        }
    }

    /// The settings of the file at `path`, whose format is told by its extension.
    /// `content` is what it holds, or why it could not be read; `toml` is what was read
    /// from it, where it holds TOML.
    pub fn load_file(
        style: PathStyle,
        path: &str,
        content: Result<String, String>,
        home: Option<&str>,
        toml: Result<Config, String>,
    ) -> (r: Result<Config, Error>)
        ensures
            config_result(r) == loaded(
                style,
                path@,
                content_view(content),
                str_text(home),
                toml_view(toml),
            ),
    {
        let text = match content {
            Ok(t) => t,
            Err(message) => return Err(Error::ConfigFile { path: path.to_owned(), message }),
        };
        let result = match config_format(style, path) {
            Format::Toml => Config::from_toml(toml),
            Format::Directives => parse_for_user(style, text.as_str(), home),
        };
        match result {
            Ok(c) => Ok(c),
            Err(e) => Err(put_path(e, path)),
        }
    }

    /// The settings with the banner that the file named by a `Banner` directive holds,
    /// where it could be read.
    pub fn with_banner(self, file: Option<String>) -> (r: Config)
        ensures
            r@ == (ConfigView {
                banner: match self@.banner {
                    Some(value) => Some(
                        banner_text(value, option_text(file)),
                    ),
                    None => None,
                },
                ..self@
            }),
    {
        let mut config = self;
        config.banner = match config.banner {
            Some(value) => Some(read_banner(value.as_str(), file)),
            None => None,
        };
        config
    }
}

/// A file that cannot be read gives no settings. Any other gives what its format says: a file
/// with TOML what was read from it, where the tunnel can be hosted so, and every other file what
/// its directives say. A failure names the file.
pub proof fn what_files_give(
    style: PathStyle,
    path: Seq<char>,
    text: Seq<char>,
    message: Seq<char>,
    home: Option<Seq<char>>,
    toml: Result<ConfigView, Seq<char>>,
)
    ensures
        loaded(style, path, Err(message), home, toml) == Err::<ConfigView, ErrorView>(
            ErrorView::ConfigFile { path, message },
        ),
        format_of(style, path) == Format::Directives && parsed_for(style, text, home) is Ok
            ==> loaded(style, path, Ok(text), home, toml) == parsed_for(style, text, home),
        format_of(style, path) == Format::Directives ==> (parsed_for(
            style,
            text,
            home,
        ) matches Err(ErrorView::ConfigFile { path: _, message: m }) ==> loaded(
            style,
            path,
            Ok(text),
            home,
            toml,
        ) == Err::<ConfigView, ErrorView>(ErrorView::ConfigFile { path, message: m })),
        format_of(style, path) == Format::Toml ==> (toml matches Err(m) ==> loaded(
            style,
            path,
            Ok(text),
            home,
            toml,
        ) == Err::<ConfigView, ErrorView>(ErrorView::ConfigFile { path, message: m })),
        format_of(style, path) == Format::Toml ==> (toml matches Ok(c) ==> (dev_tunnel_fault(
            c.dev_tunnel,
        ) is None ==> loaded(style, path, Ok(text), home, toml) == Ok::<ConfigView, ErrorView>(c))),
        format_of(style, path) == Format::Toml ==> (toml matches Ok(c) ==> (dev_tunnel_fault(
            c.dev_tunnel,
        ) matches Some(m) ==> loaded(style, path, Ok(text), home, toml) == Err::<
            ConfigView,
            ErrorView,
        >(ErrorView::Config(m)))),
        toml matches Ok(c) ==> (dev_tunnel_fault(c.dev_tunnel) is None ==> from_toml_view(toml)
            == Ok::<ConfigView, ErrorView>(c)),
        toml matches Err(m) ==> from_toml_view(toml) == Err::<ConfigView, ErrorView>(
            ErrorView::ConfigFile { path: "<toml>"@, message: m },
        ),
{
}

/// What was read of a file is taken as it is.
pub proof fn files_are_taken_as_read(content: Result<String, String>, toml: Result<Config, String>)
    ensures
        content matches Ok(s) ==> content_view(content) == Ok::<Seq<char>, Seq<char>>(s@),
        content matches Err(e) ==> content_view(content) == Err::<Seq<char>, Seq<char>>(e@),
        toml matches Ok(c) ==> toml_view(toml) == Ok::<ConfigView, Seq<char>>(c@),
        toml matches Err(e) ==> toml_view(toml) == Err::<ConfigView, Seq<char>>(e@),
{
}

} // verus!
