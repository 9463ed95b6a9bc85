//! The settings of a run: citation style, placeholder and flags.

use crate::text::str_eq;
use vstd::prelude::*;
use vstd::string::*;

verus! {

/// How citations are shown inline and how the reference list is ordered.
#[derive(Clone, Copy, Debug, PartialEq, Eq, Structural)]
pub enum CitationStyle {
    /// Numbered citations; references in the order of first citation.
    Index,
    /// Author and year; references ordered by author and year.
    AuthorYear,
}

/// Why settings were rejected.
#[derive(Clone, Debug, PartialEq, Eq)]
pub enum ConfigError {
    /// The style is neither `numbered` nor `author-year`; holds the name
    /// that was given.
    UnknownStyle(String),
}

/// The style that a name stands for, if any.
pub open spec fn style_named(name: Seq<char>) -> Option<CitationStyle> {
    if name == "numbered"@ {
        Some(CitationStyle::Index)
    } else if name == "author-year"@ {
        Some(CitationStyle::AuthorYear)
    } else {
        None
    }
}

/// The message of an error.
pub open spec fn error_message(e: ConfigError) -> Seq<char> {
    match e {
        ConfigError::UnknownStyle(name) => "Unknown citation style '"@ + name@
            + "'. Use 'numbered' or 'author-year'"@,
    }
}

impl ConfigError {
    /// The message to show to the operator.
    pub fn message(&self) -> (m: String)
        ensures
            m@ == error_message(*self),
    {
        match self {
            ConfigError::UnknownStyle(name) => {
                let mut m = "Unknown citation style '".to_owned();
                m.append(name.as_str());
                m.append("'. Use 'numbered' or 'author-year'");
                m
            },
        }
    }
}

impl CitationStyle {
    /// Reads a style by its name: `numbered` or `author-year`.
    pub fn from_str(s: &str) -> (r: Result<CitationStyle, ConfigError>)
        ensures
            match r {
                Ok(style) => style_named(s@) == Some(style),
                Err(ConfigError::UnknownStyle(name)) => style_named(s@).is_none() && name@ == s@,
            },
    {
        if str_eq(s, "numbered") {
            Ok(CitationStyle::Index)
        } else if str_eq(s, "author-year") {
            Ok(CitationStyle::AuthorYear)
        } else {
            Err(ConfigError::UnknownStyle(s.to_owned()))
        }
    }
}

/// The settings as the host hands them over: each one may be absent.
#[derive(Clone, Debug, PartialEq, Eq)]
pub struct Settings {
    /// The bibliography file.
    pub bibliography: Option<String>,
    /// The name of the citation style.
    pub style: Option<String>,
    /// The file that receives the references of all documents.
    pub refs_file: Option<String>,
    /// The line that marks where the references go.
    pub placeholder: Option<String>,
    /// Whether references show their citation key.
    pub render_key: Option<bool>,
    /// Whether citations link to their references.
    pub link_refs: Option<bool>,
}

/// The settings of a run, with every default filled in.
#[derive(Clone, Debug, PartialEq, Eq)]
pub struct Config {
    pub bib_file: String,
    pub citation_style: CitationStyle,
    pub refs_file: Option<String>,
    pub placeholder: String,
    pub render_key: bool,
    pub link_refs: bool,
}

/// The model of a [`Config`].
pub struct ConfigView {
    pub bib_file: Seq<char>,
    pub citation_style: CitationStyle,
    pub refs_file: Option<Seq<char>>,
    pub placeholder: Seq<char>,
    pub render_key: bool,
    pub link_refs: bool,
}

impl View for Config {
    type V = ConfigView;

    open spec fn view(&self) -> ConfigView {
        ConfigView {
            bib_file: self.bib_file@,
            citation_style: self.citation_style,
            refs_file: self.refs_file.deep_view(),
            placeholder: self.placeholder@,
            render_key: self.render_key,
            link_refs: self.link_refs,
        }
    }
}

/// The text of an optional setting, or the default where it is absent.
pub open spec fn setting_or(value: Option<String>, default: Seq<char>) -> Seq<char> {
    match value {
        Some(s) => s@,
        None => default,
    }
}

/// The style that the settings ask for: author and year where none is named.
pub open spec fn style_or_default(name: Option<String>) -> Option<CitationStyle> {
    match name {
        Some(s) => style_named(s@),
        None => Some(CitationStyle::AuthorYear),
    }
}

/// The configuration that settings with a valid style stand for.
pub open spec fn config_of(settings: Settings, style: CitationStyle) -> ConfigView {
    ConfigView {
        bib_file: setting_or(settings.bibliography, "bibliography.bib"@),
        citation_style: style,
        refs_file: settings.refs_file.deep_view(),
        placeholder: setting_or(settings.placeholder, "[[_REFS_]]"@),
        render_key: match settings.render_key {
            Some(b) => b,
            None => true,
        },
        link_refs: match settings.link_refs {
            Some(b) => b,
            None => true,
        },
    }
}

fn owned_or(value: &Option<String>, default: &str) -> (r: String)
    ensures
        r@ == setting_or(*value, default@),
{
    match value {
        Some(s) => s.clone(),
        None => default.to_owned(),
    }
}

impl Config {
    /// Fills in the defaults of absent settings. Fails exactly when a style
    /// is named that does not exist.
    pub fn try_from(settings: &Settings) -> (r: Result<Config, ConfigError>)
        ensures
            match r {
                Ok(config) => {
                    &&& style_or_default(settings.style) matches Some(style)
                    &&& config@ == config_of(*settings, style)
                },
                Err(ConfigError::UnknownStyle(name)) => {
                    &&& style_or_default(settings.style).is_none()
                    &&& settings.style matches Some(given)
                    &&& name@ == given@
                },
            },
    {
        let citation_style = match &settings.style {
            Some(name) => match CitationStyle::from_str(name.as_str()) {
                Ok(style) => style,
                Err(e) => {
                    return Err(e);
                },
            },
            None => CitationStyle::AuthorYear,
        };
        let refs_file = match &settings.refs_file {
            Some(s) => Some(s.clone()),
            None => None,
        };
        Ok(
            Config {
                bib_file: owned_or(&settings.bibliography, "bibliography.bib"),
                citation_style,
                refs_file,
                placeholder: owned_or(&settings.placeholder, "[[_REFS_]]"),
                render_key: match settings.render_key {
                    Some(b) => b,
                    None => true,
                },
                link_refs: match settings.link_refs {
                    Some(b) => b,
                    None => true,
                },
            },
        )
    }
}

} // verus!
