//! Conversion of a legacy file by the word for its format, and the free
//! forms of the converter's helpers.

use vstd::prelude::*;
use crate::converter::{
    converted_stats, converted_text, distinct_names, file_name_lower, format_of, legacy_named,
    slug, slug_of, ConversionResult, IgnoreConverter, IgnoreFormat,
};
use crate::error::IgnoreError;
use crate::text::{from_chars, to_chars};

verus! {

/// The group name for the text of a comment.
pub fn slugify(text: &str) -> (r: String)
    ensures
        r@ == slug(text@),
{
    let chars = to_chars(text);
    from_chars(slug_of(chars.as_slice()).as_slice())
}

/// The word for a legacy format.
pub open spec fn format_word(f: IgnoreFormat) -> Seq<char> {
    if f == IgnoreFormat::Git {
        "git"@
    } else {
        "svn"@
    }
}

/// The word, `git` or `svn`, for the legacy format of the file at `path`,
/// told from its name.
pub fn determine_format(path: &str) -> (r: Result<&'static str, IgnoreError>)
    ensures
        match r {
            Ok(word) => format_of(path@) matches Some(f) && word@ == format_word(f),
            Err(e) => {
                &&& format_of(path@) is None
                &&& e matches IgnoreError::UnsupportedFormat(name)
                &&& name@ == file_name_lower(path@)
            },
        },
{
    match IgnoreConverter::new().determine_format(path) {
        Ok(IgnoreFormat::Git) => Ok("git"),
        Ok(_) => Ok("svn"),
        Err(e) => Err(e),
    }
}

/// Converts the text of a legacy file of the format that `format` names,
/// `git` or `svn`, and sums the conversion up: a git-style text is classified
/// into buckets, an svn-style text grouped by its comments. `timestamp` is
/// the text that the header gives as the date of the conversion. Fails,
/// before anything is converted, where the word names neither format.
pub fn convert_content(
    content: &str,
    format: &str,
    source_path: &str,
    dest_path: &str,
    timestamp: &str,
) -> (r: Result<(String, ConversionResult), IgnoreError>)
    ensures
        match r {
            Ok(done) => {
                &&& legacy_named(format@) matches Some(f)
                &&& done.0@ == converted_text(f, content@, timestamp@)
                &&& done.1.stats() == converted_stats(f, content@)
                &&& distinct_names(done.1.stats().platform)
                &&& done.1.source_file@ == source_path@
                &&& done.1.destination_file@ == dest_path@
            },
            Err(e) => {
                &&& legacy_named(format@) is None
                &&& e matches IgnoreError::UnsupportedFormat(name)
                &&& name@ == format@
            },
        },
{
    let converter = IgnoreConverter::new();
    let (text, stats) = match IgnoreFormat::from_word(format) {
        Ok(IgnoreFormat::Git) => converter.convert_from_git(content, timestamp),
        Ok(IgnoreFormat::Svn) => converter.convert_from_svn(content, timestamp),
        Ok(IgnoreFormat::Vcs) => {
            return Err(IgnoreError::UnsupportedFormat(format.to_owned()));
        },
        Err(e) => {
            return Err(e);
        },
    };
    Ok((text, ConversionResult::from_statistics(source_path, dest_path, stats)))
}

/// Converts the text of the legacy file at `source_path`, whose name tells
/// the format, and sums the conversion up. Fails, before anything is
/// converted, where the name tells no format.
pub fn convert_text(source_path: &str, dest_path: &str, content: &str, timestamp: &str) -> (r:
    Result<(String, ConversionResult), IgnoreError>)
    ensures
        match r {
            Ok(done) => {
                &&& format_of(source_path@) matches Some(f)
                &&& done.0@ == converted_text(f, content@, timestamp@)
                &&& done.1.stats() == converted_stats(f, content@)
                &&& distinct_names(done.1.stats().platform)
                &&& done.1.source_file@ == source_path@
                &&& done.1.destination_file@ == dest_path@
            },
            Err(e) => {
                &&& format_of(source_path@) is None
                &&& e matches IgnoreError::UnsupportedFormat(name)
                &&& name@ == file_name_lower(source_path@)
            },
        },
{
    IgnoreConverter::new().convert_text(source_path, dest_path, content, timestamp)
}

} // verus!
