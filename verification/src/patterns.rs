//! The regular expressions of the bot, run by the `regex` crate.

use vstd::prelude::*;
use crate::text::option_view;

verus! {

/// Declares `regex::Regex`, a compiled regular expression.
#[verifier::external_type_specification]
#[verifier::external_body]
pub struct ExRegex(regex::Regex);

/// Declares `regex::Error`, the error of compiling a regular expression.
#[verifier::external_type_specification]
#[verifier::external_body]
pub struct ExRegexError(regex::Error);

/// The pattern that a compiled regex was built from: what `Regex::as_str` gives back.
pub uninterp spec fn regex_source(re: regex::Regex) -> Seq<char>;

/// Whether `Regex::new` accepts `pattern`, under the default limits of the regex builder.
pub uninterp spec fn regex_compiles(pattern: Seq<char>) -> bool;

/// What group 1 of the first match of the regex compiled from `pattern` is in `haystack`
/// (`Regex::captures` and `Captures::get(1)`), `None` where there is no match or the group
/// takes no part in it.
pub uninterp spec fn regex_first_group(pattern: Seq<char>, haystack: Seq<char>) -> Option<Seq<char>>;

/// The text that the `Display` of a `regex::Error` writes.
pub uninterp spec fn regex_error_display(e: regex::Error) -> Seq<char>;

/// Compiles `pattern` with `regex::Regex::new`.
/// Claimed: it succeeds exactly where the named `regex_compiles` holds of `pattern`, and a
/// regex that comes back was compiled from `pattern` (the regex crate documents that
/// `as_str` returns "the original string of this regex"). Which patterns compile is left to
/// the name.
#[verifier::external_body]
pub(crate) fn compile_regex(pattern: &str) -> (r: Result<regex::Regex, regex::Error>)
    ensures
        r is Ok <==> regex_compiles(pattern@),
        r matches Ok(re) ==> regex_source(re) == pattern@,
{
    regex::Regex::new(pattern)
}

/// Group 1 of the first match of `re` in `haystack`, with `Regex::captures`.
/// Claimed: the result is the named `regex_first_group` of the regex's pattern and the
/// haystack.
#[verifier::external_body]
pub(crate) fn first_group(re: &regex::Regex, haystack: &str) -> (r: Option<String>)
    ensures
        option_view(r) == regex_first_group(regex_source(*re), haystack@),
{
    match re.captures(haystack) {
        Some(caps) => match caps.get(1) {
            Some(m) => Some(m.as_str().to_string()),
            None => None,
        },
        None => None,
    }
}

/// The text of a `regex::Error`, as its `Display` writes it.
/// Claimed: the result is the named `regex_error_display` of the error.
#[verifier::external_body]
pub(crate) fn regex_error_text(e: &regex::Error) -> (s: String)
    ensures
        s@ == regex_error_display(*e),
{
    format!("{}", e)
}

/// The data script that the timetable page names.
pub open spec fn script_tag_pattern() -> Seq<char> {
    "<script type=\"text/javascript\" src=\"(nika_data_\\d{8}_\\d{6}\\.js)\"></script>"@
}

/// The object literal of the data script.
pub open spec fn data_object_pattern() -> Seq<char> {
    "(\\{.+})"@
}

/// The data of a class button.
pub open spec fn class_data_pattern() -> Seq<char> {
    "class (.+)"@
}

/// The data of a teacher button.
pub open spec fn teacher_data_pattern() -> Seq<char> {
    "teacher (.+)"@
}

/// Compiles the pattern of the script tag.
pub(crate) fn script_tag_regex() -> (r: Result<regex::Regex, regex::Error>)
    ensures
        r is Ok <==> regex_compiles(script_tag_pattern()),
        r matches Ok(re) ==> regex_source(re) == script_tag_pattern(),
{
    compile_regex("<script type=\"text/javascript\" src=\"(nika_data_\\d{8}_\\d{6}\\.js)\"></script>")
}

/// Compiles the pattern of the object literal.
pub(crate) fn data_object_regex() -> (r: Result<regex::Regex, regex::Error>)
    ensures
        r is Ok <==> regex_compiles(data_object_pattern()),
        r matches Ok(re) ==> regex_source(re) == data_object_pattern(),
{
    compile_regex("(\\{.+})")
}

/// Compiles the pattern of class button data.
pub(crate) fn class_data_regex() -> (r: Result<regex::Regex, regex::Error>)
    ensures
        r is Ok <==> regex_compiles(class_data_pattern()),
        r matches Ok(re) ==> regex_source(re) == class_data_pattern(),
{
    compile_regex("class (.+)")
}

/// Compiles the pattern of teacher button data.
pub(crate) fn teacher_data_regex() -> (r: Result<regex::Regex, regex::Error>)
    ensures
        r is Ok <==> regex_compiles(teacher_data_pattern()),
        r matches Ok(re) ==> regex_source(re) == teacher_data_pattern(),
{
    compile_regex("teacher (.+)")
}


/// A pattern with no anchor and no flag: it holds none of `^`, `$` and `?`, so it is
/// searched for anywhere in the text, in the regex crate's default mode.
pub open spec fn unanchored(pattern: Seq<char>) -> bool {
    forall|i: int| 0 <= i < pattern.len() ==> #[trigger] pattern[i] != '^' && pattern[i] != '$' && pattern[i] != '?'
}

/// The bot searches with exactly these expressions, none of them anchored: the script tag
/// `<script type="text/javascript" src="(nika_data_\d{8}_\d{6}\.js)"></script>`, the
/// object literal `(\{.+})`, and the button data `class (.+)` and `teacher (.+)`.
pub proof fn bot_patterns_are_unanchored()
    ensures
        script_tag_pattern() == "<script type=\"text/javascript\" src=\"(nika_data_\\d{8}_\\d{6}\\.js)\"></script>"@,
        data_object_pattern() == "(\\{.+})"@,
        class_data_pattern() == "class (.+)"@,
        teacher_data_pattern() == "teacher (.+)"@,
        unanchored(script_tag_pattern()),
        unanchored(data_object_pattern()),
        unanchored(class_data_pattern()),
        unanchored(teacher_data_pattern()),
{
    reveal_strlit("<script type=\"text/javascript\" src=\"(nika_data_\\d{8}_\\d{6}\\.js)\"></script>");
    reveal_strlit("(\\{.+})");
    reveal_strlit("class (.+)");
    reveal_strlit("teacher (.+)");
}

} // verus!
