//! What the server decides besides the answers to requests: which asset a path shows, and when a
//! change of a file is worth a refresh.

use vstd::prelude::*;

use crate::paths::{self, is_summary_relevant_path};
use crate::text::{self, drop_leading, has_prefix};

verus! {

/// The version that is announced to the dashboard.
pub const SWANLAB_VERSION: &'static str = "0.1.10b2";

/// The media type of a file, guessed from its path.
pub uninterp spec fn media_type(path: Seq<char>) -> Seq<char>;

/// `mime_guess::from_path` and `MimeGuess::first_or_octet_stream`: the media type that is guessed
/// from the extension of a path. Which types are guessed for which extensions is left to the name
/// `media_type`.
#[verifier::external_body]
fn guess_media_type(path: &str) -> (r: String)
    ensures
        r@ == media_type(path@),
{
    mime_guess::from_path(path).first_or_octet_stream().as_ref().to_string()
}

/// The asset that a path shows: files below `assets/` show themselves, everything else shows the
/// page of the dashboard, which reads the path itself.
pub open spec fn asset_of(path: Seq<char>) -> Seq<char> {
    let p = text::without_leading(path, '/');
    if text::begins_with(p, "assets/"@) {
        p
    } else {
        "index.html"@
    }
}

/// The asset that a path shows.
pub fn asset_path(path: &str) -> (r: String)
    ensures
        r@ == asset_of(path@),
{
    let p = drop_leading(path, '/');
    if has_prefix(p.as_str(), "assets/") {
        p
    } else {
        "index.html".to_owned()
    }
}

/// An answer with a file.
#[derive(Debug, PartialEq)]
pub enum AssetReply {
    /// The file, with its media type.
    File { content_type: String, body: Vec<u8> },
    /// There is no such file.
    NotFound { message: String },
}

/// The answer with an asset, given its content and its media type.
pub fn asset_reply(content: Option<Vec<u8>>, media: String) -> (r: AssetReply)
    ensures
        match content {
            Some(data) => r == (AssetReply::File { content_type: media, body: data }),
            None => r matches AssetReply::NotFound { message } && message@ == "not found"@,
        },
{
    match content {
        Some(data) => AssetReply::File { content_type: media, body: data },
        None => AssetReply::NotFound { message: "not found".to_owned() },
    }
}

/// The answer with the asset that `path` shows, given the content of `asset_path(path)`.
pub fn spa_fallback(path: &str, content: Option<Vec<u8>>) -> (r: AssetReply)
    ensures
        match content {
            Some(data) => r matches AssetReply::File { content_type, body } && content_type@
                == media_type(asset_of(path@)) && body == data,
            None => r matches AssetReply::NotFound { message } && message@ == "not found"@,
        },
{
    asset_reply(content, guess_media_type(asset_path(path).as_str()))
}

/// Nanoseconds that pass at least between two signals of the watcher.
pub const SIGNAL_INTERVAL_NS: u128 = 2_000_000_000;

/// Whether a file among those that changed can change a summary.
pub open spec fn any_relevant(names: Seq<Seq<char>>) -> bool {
    exists|i: int|
        0 <= i < names.len() && (paths::extension(#[trigger] names[i]) == Some("log"@)
            || paths::extension(names[i]) == Some("json"@))
}

/// Whether a change of the files with some names is signalled, when `elapsed_ns` nanoseconds have
/// passed since the last signal: one of the files can change a summary, and the last signal is long
/// enough ago.
pub fn should_signal(names: &Vec<String>, elapsed_ns: u128) -> (r: bool)
    ensures
        r == (any_relevant(text::texts(names@)) && elapsed_ns >= SIGNAL_INTERVAL_NS),
{
    let ghost all = text::texts(names@);
    let mut i: usize = 0;
    while i < names.len()
        invariant
            i <= names.len(),
            all == text::texts(names@),
            forall|j: int|
                0 <= j < i ==> paths::extension(#[trigger] all[j]) != Some("log"@)
                    && paths::extension(all[j]) != Some("json"@),
        decreases names.len() - i,
    {
        proof {
            assert(all[i as int] == names@[i as int]@);
        }
        if is_summary_relevant_path(names[i].as_str()) {
            return elapsed_ns >= SIGNAL_INTERVAL_NS;
        }
        i += 1;
    }
    false
}

} // verus!
