//! File paths and the URIs that name them.

use vstd::prelude::*;
use vstd::string::*;

verus! {

/// The path, in bytes, that the URI text names as a file: an error's text where
/// it is no URL, and nothing where the URL names no local file.
pub uninterp spec fn url_file_path(uri: Seq<char>) -> Result<Option<Seq<u8>>, Seq<char>>;

/// Bytes as text, with replacement characters where they are no UTF-8.
pub uninterp spec fn lossy_text(bytes: Seq<u8>) -> Seq<char>;

/// The `file` URL of a path, nothing for a path that is not absolute.
pub uninterp spec fn file_url(path: Seq<char>) -> Option<Seq<char>>;

/// The results of [`file_path_of`] as sequences.
pub open spec fn path_outcome(r: Result<Option<Vec<u8>>, String>) -> Result<
    Option<Seq<u8>>,
    Seq<char>,
> {
    match r {
        Ok(Some(path)) => Ok(Some(path@)),
        Ok(None) => Ok(None),
        Err(reason) => Err(reason@),
    }
}

/// The path that a URI names.
///
/// Calls `url::Url::parse` and, on the URL, `url::Url::to_file_path`. The
/// contract claims that what comes back is a function of the text: the parse
/// error's words where the text is no URL, nothing where `to_file_path` has no
/// answer, and otherwise the bytes of its path, whether or not they are UTF-8.
/// What the path is, byte by byte, is not said here; see [`file_url_of`] for the
/// paths that come back from their own URL.
#[verifier::external_body]
pub(crate) fn file_path_of(uri: &str) -> (r: Result<Option<Vec<u8>>, String>)
    ensures
        path_outcome(r) == url_file_path(uri@),
{
    match url::Url::parse(uri) {
        Ok(url) => Ok(url.to_file_path().ok().map(|p| p.into_os_string().into_encoded_bytes())),
        Err(e) => Err(e.to_string()),
    }
}

/// A path's bytes as text.
///
/// Calls `String::from_utf8_lossy`. The contract claims that the text is a
/// function of the bytes, and that bytes that are UTF-8 give the text they
/// encode. How many replacement characters stand for the others is not said.
#[verifier::external_body]
pub(crate) fn text_of(bytes: &[u8]) -> (r: String)
    ensures
        r@ == lossy_text(bytes@),
        vstd::utf8::valid_utf8(bytes@) ==> r@ == vstd::utf8::decode_utf8(bytes@),
{
    String::from_utf8_lossy(bytes).into_owned()
}

/// Whether every slash begins a segment that is neither empty nor `.` nor `..`.
pub open spec fn plain_segments(path: Seq<char>) -> bool {
    forall|i: int| #![trigger path[i]]
        0 <= i < path.len() && path[i] == '/' ==> {
            &&& i + 1 < path.len()
            &&& path[i + 1] != '/'
            &&& !(path[i + 1] == '.' && (i + 2 == path.len() || path[i + 2] == '/'))
            &&& !(path[i + 1] == '.' && i + 2 < path.len() && path[i + 2] == '.' && (i + 3
                == path.len() || path[i + 3] == '/'))
        }
}

/// Whether a character is an ASCII letter.
pub open spec fn letter(c: char) -> bool {
    65 <= c as int <= 90 || 97 <= c as int <= 122
}

/// Whether a path starts at the root.
pub open spec fn absolute(path: Seq<char>) -> bool {
    path.len() > 0 && path[0] == '/'
}

/// The longest path whose URL is sure to be short enough to be parsed.
pub const MAX_URL_PATH: u32 = 0x1000_0000;

/// Whether an absolute path is spelled as its URL spells it back: it is the
/// root, or it has no empty segment, no `.` or `..`, and nothing at the end that
/// reads as a drive letter.
pub open spec fn plain_path(path: Seq<char>) -> bool {
    ||| path == seq!['/']
    ||| {
        &&& 1 < path.len() <= MAX_URL_PATH
        &&& path[0] == '/'
        &&& plain_segments(path)
        &&& !(letter(path[path.len() - 2]) && (path.last() == ':' || path.last() == '|'))
    }
}

/// What stands for a character of a URL's path in a resource URI: four that
/// the URL leaves as they are become escapes.
pub open spec fn escape(c: char) -> Seq<char> {
    if c == '[' {
        "%5B"@
    } else if c == ']' {
        "%5D"@
    } else if c == '^' {
        "%5E"@
    } else if c == '|' {
        "%7C"@
    } else {
        seq![c]
    }
}

/// A text with its characters escaped.
pub open spec fn escaped(s: Seq<char>) -> Seq<char>
    decreases s.len(),
{
    if s.len() == 0 {
        Seq::empty()
    } else {
        escaped(s.drop_last()) + escape(s.last())
    }
}

/// Whether reading a URI gives the bytes of a path.
pub open spec fn reads_back(uri: Seq<char>, path: Seq<char>) -> bool {
    url_file_path(uri) == Ok::<Option<Seq<u8>>, Seq<char>>(Some(vstd::utf8::encode_utf8(path)))
}

/// The `file` URL of a path.
///
/// Calls `url::Url::from_file_path`. The contract claims that the URL's text
/// is a function of the path's, that exactly the paths that start with a slash
/// have one, that the text starts with `file:///`, and that reading the URL of
/// a plainly spelled path, with its brackets, carets and bars escaped, gives the
/// path back: the URL holds the path's components with every byte escaped that
/// the parser would take for something else. All of this is what the function
/// does on Unix. The text of the URL is not said beyond that.
#[verifier::external_body]
pub(crate) fn file_url_of(path: &str) -> (r: Option<String>)
    ensures
        r.deep_view() == file_url(path@),
        r is Some == absolute(path@),
        r is Some ==> "file:///"@.is_prefix_of(r->Some_0@),
        plain_path(path@) ==> reads_back(escaped(r->Some_0@), path@),
{
    url::Url::from_file_path(std::path::Path::new(path)).ok().map(String::from)
}

} // verus!
