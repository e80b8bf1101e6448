//! Locating the timetable data inside the pages that the NIKA site serves.
//!
//! The timetable page names a script file `nika_data_<8 digits>_<6 digits>.js`; that script
//! holds the whole timetable as one object literal. Fetching the two documents and decoding
//! the object are left to the caller; this module finds what to fetch and what to decode.

use vstd::prelude::*;
use crate::patterns::{
    data_object_pattern, data_object_regex, first_group, regex_error_display, regex_error_text,
    regex_compiles, regex_first_group, script_tag_pattern, script_tag_regex,
};
use crate::text::option_view;

verus! {

/// Scraper of the NIKA timetable site; the network part lives with the caller.
#[derive(Default, Debug, Clone, Copy, PartialEq, Eq, Hash)]
pub struct NikaClient {}

/// Failures of getting the timetable.
#[derive(Debug)]
pub enum NikaClientError {
    Request(reqwest::Error),
    Json(serde_json::Error),
    Regex(regex::Error),
    FilenameParsing,
}

/// Declares `reqwest::Error` so that the error above can carry it.
#[verifier::external_type_specification]
#[verifier::external_body]
pub struct ExReqwestError(reqwest::Error);

/// Declares `serde_json::Error` so that the error above can carry it.
#[verifier::external_type_specification]
#[verifier::external_body]
pub struct ExSerdeJsonError(serde_json::Error);

/// `r` is what a search that found `capture` gives: the group, or `FilenameParsing`.
pub open spec fn capture_outcome(capture: Option<Seq<char>>, r: Result<String, NikaClientError>) -> bool {
    match capture {
        Some(found) => r matches Ok(s) && s@ == found,
        None => r matches Err(NikaClientError::FilenameParsing),
    }
}

/// The text that the `Display` of a `reqwest::Error` writes.
pub uninterp spec fn request_error_display(e: reqwest::Error) -> Seq<char>;

/// The text that the `Display` of a `serde_json::Error` writes.
pub uninterp spec fn json_error_display(e: serde_json::Error) -> Seq<char>;

/// The address of the timetable page.
pub open spec fn schedule_page_address() -> Seq<char> {
    "https://lyceum.nstu.ru/rasp/schedule.html"@
}

/// The address of a script that the timetable page names.
pub open spec fn script_address(file_name: Seq<char>) -> Seq<char> {
    "https://lyceum.nstu.ru/rasp/"@ + file_name
}

impl NikaClient {
    /// The address of the timetable page.
    pub fn schedule_page_url() -> (url: String)
        ensures
            url@ == schedule_page_address(),
    {
        let mut url = String::new();
        url.append("https://lyceum.nstu.ru/rasp/schedule.html");
        url
    }

    /// The name of the data script that the timetable page `html` names: group 1 of the
    /// first match of `<script type="text/javascript" src="(nika_data_\d{8}_\d{6}\.js)"></script>`;
    /// `FilenameParsing` where there is none, `Regex` where the pattern does not compile.
    pub fn find_script_filename(html: &str) -> (r: Result<String, NikaClientError>)
        ensures
            r matches Err(NikaClientError::Regex(_)) <==> !regex_compiles(script_tag_pattern()),
            regex_compiles(script_tag_pattern()) ==> capture_outcome(regex_first_group(script_tag_pattern(), html@), r),
            !(r matches Err(NikaClientError::Request(_))) && !(r matches Err(NikaClientError::Json(_))),
    {
        let re = match script_tag_regex() {
            Ok(re) => re,
            Err(e) => return Err(NikaClientError::Regex(e)),
        };
        Self::require_capture(first_group(&re, html))
    }

    /// What a search for the script name or the data object gives: the group found, or
    /// `FilenameParsing` where nothing was found.
    pub fn require_capture(capture: Option<String>) -> (r: Result<String, NikaClientError>)
        ensures
            capture_outcome(option_view(capture), r),
    {
        match capture {
            Some(found) => Ok(found),
            None => Err(NikaClientError::FilenameParsing),
        }
    }

    /// The address of the data script `file_name`.
    pub fn script_url(file_name: &str) -> (url: String)
        ensures
            url@ == script_address(file_name@),
    {
        let mut url = String::new();
        url.append("https://lyceum.nstu.ru/rasp/");
        url.append(file_name);
        url
    }

    /// The object literal in the data script `script`: group 1 of the first match of
    /// `(\{.+})`; `FilenameParsing` where there is none, `Regex` where the pattern does not
    /// compile.
    pub fn find_data_object(script: &str) -> (r: Result<String, NikaClientError>)
        ensures
            r matches Err(NikaClientError::Regex(_)) <==> !regex_compiles(data_object_pattern()),
            regex_compiles(data_object_pattern()) ==> capture_outcome(regex_first_group(data_object_pattern(), script@), r),
            !(r matches Err(NikaClientError::Request(_))) && !(r matches Err(NikaClientError::Json(_))),
    {
        let re = match data_object_regex() {
            Ok(re) => re,
            Err(e) => return Err(NikaClientError::Regex(e)),
        };
        Self::require_capture(first_group(&re, script))
    }
}

/// The text of a `reqwest::Error`, as its `Display` writes it.
/// Claimed: the result is the named `request_error_display` of the error.
#[verifier::external_body]
fn request_error_text(e: &reqwest::Error) -> (s: String)
    ensures
        s@ == request_error_display(*e),
{
    format!("{}", e)
}

/// The text of a `serde_json::Error`, as its `Display` writes it.
/// Claimed: the result is the named `json_error_display` of the error.
#[verifier::external_body]
fn json_error_text(e: &serde_json::Error) -> (s: String)
    ensures
        s@ == json_error_display(*e),
{
    format!("{}", e)
}

impl NikaClientError {
    /// The text of the error: that of the error it carries, or `couldn't parse filename`.
    pub fn message(&self) -> (s: String)
        ensures
            s@ == match self {
                NikaClientError::Request(e) => request_error_display(*e),
                NikaClientError::Regex(e) => regex_error_display(*e),
                NikaClientError::Json(e) => json_error_display(*e),
                NikaClientError::FilenameParsing => "couldn't parse filename"@,
            },
    {
        match self {
            NikaClientError::Request(e) => request_error_text(e),
            NikaClientError::Regex(e) => regex_error_text(e),
            NikaClientError::Json(e) => json_error_text(e),
            NikaClientError::FilenameParsing => {
                let mut s = String::new();
                s.append("couldn't parse filename");
                s
            },
        }
    }
}

impl From<reqwest::Error> for NikaClientError {
    fn from(err: reqwest::Error) -> (r: NikaClientError) {
        NikaClientError::Request(err)
    }
}

impl vstd::std_specs::convert::FromSpecImpl<reqwest::Error> for NikaClientError {
    open spec fn obeys_from_spec() -> bool {
        true
    }

    open spec fn from_spec(v: reqwest::Error) -> NikaClientError {
        NikaClientError::Request(v)
    }
}

impl From<regex::Error> for NikaClientError {
    fn from(err: regex::Error) -> (r: NikaClientError) {
        NikaClientError::Regex(err)
    }
}

impl vstd::std_specs::convert::FromSpecImpl<regex::Error> for NikaClientError {
    open spec fn obeys_from_spec() -> bool {
        true
    }

    open spec fn from_spec(v: regex::Error) -> NikaClientError {
        NikaClientError::Regex(v)
    }
}

impl From<serde_json::Error> for NikaClientError {
    fn from(err: serde_json::Error) -> (r: NikaClientError) {
        NikaClientError::Json(err)
    }
}

impl vstd::std_specs::convert::FromSpecImpl<serde_json::Error> for NikaClientError {
    open spec fn obeys_from_spec() -> bool {
        true
    }

    open spec fn from_spec(v: serde_json::Error) -> NikaClientError {
        NikaClientError::Json(v)
    }
}

} // verus!
