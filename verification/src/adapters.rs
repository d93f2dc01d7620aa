//! The calls that the library makes into `shellexpand`, `url` and parts of std that
//! Verus has no specification of. Verus trusts the contracts stated here.
use vstd::prelude::*;

verus! {

/// The error of `url::Url::parse`.
#[verifier::external_type_specification]
#[verifier::external_body]
pub struct ExUrlParseError(url::ParseError);

/// The path that `std::path::Path::join` makes of `base` and `part`, as text.
pub uninterp spec fn joined_path(base: Seq<char>, part: Seq<char>) -> Seq<char>;

/// The path segments of the URL `source` as `url` parses it: `None` when it does not
/// parse, `Some(None)` when the URL cannot be a base and so has no path segments.
pub uninterp spec fn url_path_segments_of(source: Seq<char>) -> Option<Option<Seq<Seq<char>>>>;

/// The `Debug` text of a string: `format!("{:?}", s)`.
pub uninterp spec fn debug_text(s: Seq<char>) -> Seq<char>;

/// What tilde expansion may make of `input`: the input itself, or, when it starts with a
/// `~` that is followed by `/` or ends it, some text followed by the rest of the input.
pub open spec fn tilde_expansion_of(input: Seq<char>, output: Seq<char>) -> bool {
    &&& !(input.len() > 0 && input[0] == '~' && (input.len() == 1 || input[1] == '/')) ==> output
        == input
    &&& output == input || (input.len() > 0 && output.len() >= input.len() - 1 && output.subrange(
        output.len() - (input.len() - 1),
        output.len() as int,
    ) == input.subrange(1, input.len() as int))
}

/// Calls `shellexpand::tilde`. Its source replaces a leading `~` that is followed by `/`
/// or ends the input with the home directory when one is known, and otherwise returns the
/// input unchanged. This holds on Unix, which this library is for; on Windows a leading
/// `~\` would be expanded too. What the home directory is depends on the environment, so the
/// contract only states that the result is the input, or the input with its first char
/// replaced by some text; and that the result is the input when no such `~` leads it.
#[verifier::external_body]
pub(crate) fn expand_tilde(s: &str) -> (r: String)
    ensures
        tilde_expansion_of(s@, r@),
{
    shellexpand::tilde(s).into_owned()
}

/// Calls `std::path::Path::join` on `base` and `part` and returns the path as text. Its
/// documentation states that an absolute `part` replaces `base`, and that a relative
/// `part` extends `base` with a separator if needed: after a `/` when `base` does not end
/// with one, directly when it does. The result for an empty `base` is left unstated.
/// These facts hold on Unix, where absolute paths start with `/`.
#[verifier::external_body]
pub(crate) fn path_join(base: &str, part: &str) -> (r: String)
    ensures
        r@ == joined_path(base@, part@),
        part@.len() > 0 && part@[0] == '/' ==> r@ == part@,
        !(part@.len() > 0 && part@[0] == '/') && base@.len() > 0 && base@.last() != '/' ==> r@
            == base@ + seq!['/'] + part@,
        !(part@.len() > 0 && part@[0] == '/') && base@.len() > 0 && base@.last() == '/' ==> r@
            == base@ + part@,
{
    std::path::Path::new(base).join(part).to_string_lossy().into_owned()
}

/// Calls `url::Url::parse` on `source` and, when it parses, `Url::path_segments`, and
/// collects the segments. The contract names the result: what the URL parser accepts and
/// how it splits a path take pages to state.
#[verifier::external_body]
pub(crate) fn url_path_segments(source: &str) -> (r: Result<Option<Vec<String>>, url::ParseError>)
    ensures
        match r {
            Err(_) => url_path_segments_of(source@) is None,
            Ok(None) => url_path_segments_of(source@) == Some(None::<Seq<Seq<char>>>),
            Ok(Some(segments)) => url_path_segments_of(source@) == Some(Some(segments.deep_view())),
        },
{
    let url = url::Url::parse(source)?;
    match url.path_segments() {
        Some(segments) => Ok(Some(segments.map(str::to_owned).collect())),
        None => Ok(None),
    }
}

/// Formats `s` with `{:?}`, as `format!` does: the text in double quotes, with the chars
/// that need it escaped. The contract names the result.
#[verifier::external_body]
pub(crate) fn debug_string(s: &str) -> (r: String)
    ensures
        r@ == debug_text(s@),
{
    format!("{:?}", s)
}

/// Calls `time::OffsetDateTime::now_utc` and returns it as nanoseconds since the Unix
/// epoch (`unix_timestamp_nanos`). The result is the time of the machine, so nothing is
/// stated of it.
#[verifier::external_body]
pub(crate) fn now_unix_nanos() -> i128 {
    time::OffsetDateTime::now_utc().unix_timestamp_nanos()
}

} // verus!
