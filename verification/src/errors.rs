//! The build's error taxonomy. Every error is fatal to an in-progress build;
//! none is retried or downgraded.
use vstd::prelude::*;

verus! {

/// Errors from feed-item construction and channel configuration.
#[derive(Debug, Clone)]
pub enum RssError {
    /// An item or channel with no usable title.
    MissingTitle,
    /// An item whose publish date is not a well-formed RFC 2822 date.
    BadPubdate(String),
    /// An item naming a channel id that no channel configuration defines.
    ChannelNotFound(String),
    /// A channel configuration without a `prepend` field.
    MissingPrepend,
    /// A channel configuration without a `path` field.
    MissingLink,
    /// A channel configuration without an `outfile` field.
    MissingPath,
}

/// Errors of the templating engine and the build around it.
#[derive(Debug, Clone)]
pub enum StcError {
    /// An opening front-matter delimiter with no closing delimiter.
    BadFrontMatter,
    /// A single-line configuration record without a `=` separator.
    CfgErr(String),
    /// A page naming a template that was never loaded.
    TemplateError(String),
    /// A feed error, carried through the build.
    RssError(RssError),
}

} // verus!
