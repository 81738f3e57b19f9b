//! The level servers that charts come from, and the addresses of what they
//! serve.

use crate::sonolus::Srl;
use crate::text::{has_prefix, starts_with};
use std::io::Read;
use vstd::prelude::*;
use vstd::string::{StrSliceExecFns, StringExecFns};

verus! {

/// A level server.
#[derive(Debug)]
pub struct Server {
    pub id: String,
    pub name: String,
    /// Colour of the server's name, as `0xRRGGBB`.
    pub color: i32,
    pub url: String,
}

/// Why no server could be named.
#[derive(Clone, Copy, Debug)]
pub enum ServerError {
    /// The level's name begins with the prefix of no known server.
    UnknownServer,
    /// What the server sent is no gzip stream.
    NotGzip,
}

impl ServerError {
    /// The error in words.
    pub fn message(&self) -> (text: &'static str)
        ensures
            text == match self {
                ServerError::UnknownServer => "サーバーを特定できませんでした。",
                ServerError::NotGzip => "データを展開できませんでした。",
            },
    {
        match self {
            ServerError::UnknownServer => "サーバーを特定できませんでした。",
            ServerError::NotGzip => "データを展開できませんでした。",
        }
    }
}

/// `text` from index `from` on, with every pair of slashes made one. Pairs
/// are taken from the left and do not overlap, so three slashes in a row
/// become two.
pub open spec fn collapsed(text: Seq<char>, from: nat) -> Seq<char>
    decreases text.len() - from,
{
    if from >= text.len() {
        Seq::empty()
    } else if from + 1 < text.len() && text[from as int] == '/' && text[from as int + 1] == '/' {
        seq!['/'] + collapsed(text, from + 2)
    } else {
        seq![text[from as int]] + collapsed(text, from + 1)
    }
}

/// The address of `path` on a server at `base`: an absolute address as it
/// is; any other behind the base and a slash, with doubled slashes made one
/// throughout.
pub open spec fn merged_url(base: Seq<char>, path: Seq<char>) -> Seq<char> {
    if has_prefix(path, "http"@) {
        path
    } else {
        collapsed(base + "/"@ + path, 0)
    }
}

/// What the gzip stream `data` unpacks to, where it is one: the content of
/// its first member.
pub uninterp spec fn gzip_content(data: Seq<u8>) -> Option<Seq<u8>>;

/// Unpacks a gzip stream with `flate2::read::GzDecoder`, read to its end.
/// The contract names the outcome [`gzip_content`] and claims nothing more
/// of it than that it depends on the bytes alone.
#[verifier::external_body]
fn gunzip(data: &[u8]) -> (content: Option<Vec<u8>>)
    ensures
        match content {
            Some(bytes) => gzip_content(data@) == Some(bytes@),
            None => gzip_content(data@) is None,
        },
{
    let mut content = Vec::new();
    match flate2::read::GzDecoder::new(data).read_to_end(&mut content) {
        Ok(_) => Some(content),
        Err(_) => None,
    }
}

/// Unpacks what a server sent gzipped: a chart, or the clip list of an
/// effect package.
pub fn decompress(data: &[u8]) -> (content: Result<Vec<u8>, ServerError>)
    ensures
        match content {
            Ok(bytes) => gzip_content(data@) == Some(bytes@),
            Err(error) => gzip_content(data@) is None && error is NotGzip,
        },
{
    match gunzip(data) {
        Some(bytes) => Ok(bytes),
        None => Err(ServerError::NotGzip),
    }
}

impl Server {
    /// Names the server of a level by the prefix of the level's name.
    pub fn guess(level_name: &str) -> (found: Result<Server, ServerError>)
        ensures
            match found {
                Ok(server) => if has_prefix(level_name@, "ptlv-"@) {
                    &&& server.id@ == "potato_leaves"@
                    &&& server.name@ == "Potato Leaves"@
                    &&& server.color == 0x88cb7f
                    &&& server.url@ == "https://ptlv.sevenc7c.com"@
                } else {
                    &&& has_prefix(level_name@, "chcy-"@)
                    &&& server.id@ == "chart_cyanvas"@
                    &&& server.name@ == "Chart Cyanvas"@
                    &&& server.color == 0x83ccd2
                    &&& server.url@ == "https://cc.sevenc7c.com"@
                },
                Err(error) => {
                    &&& error is UnknownServer
                    &&& !has_prefix(level_name@, "ptlv-"@)
                    &&& !has_prefix(level_name@, "chcy-"@)
                },
            },
    {
        if starts_with(level_name, "ptlv-") {
            Ok(
                Server {
                    id: String::from_str("potato_leaves"),
                    name: String::from_str("Potato Leaves"),
                    color: 0x88cb7f,
                    url: String::from_str("https://ptlv.sevenc7c.com"),
                },
            )
        } else if starts_with(level_name, "chcy-") {
            Ok(
                Server {
                    id: String::from_str("chart_cyanvas"),
                    name: String::from_str("Chart Cyanvas"),
                    color: 0x83ccd2,
                    url: String::from_str("https://cc.sevenc7c.com"),
                },
            )
        } else {
            Err(ServerError::UnknownServer)
        }
    }

    /// The address of `path` on this server.
    pub fn merge_url(&self, path: &str) -> (url: String)
        ensures
            url@ == merged_url(self.url@, path@),
    {
        if starts_with(path, "http") {
            return String::from_str(path);
        }
        let joined = String::from_str(self.url.as_str()).concat("/").concat(path);
        let text = joined.as_str();
        let n = text.unicode_len();
        let mut url = String::new();
        let mut i: usize = 0;
        proof {
            reveal_strlit("/");
        }
        while i < n
            invariant
                i <= n,
                n == text@.len(),
                "/"@ == seq!['/'],
                url@ + collapsed(text@, i as nat) == collapsed(text@, 0),
            decreases n - i,
        {
            let ghost before = url@;
            if text.get_char(i) == '/' && i + 1 < n && text.get_char(i + 1) == '/' {
                url.append("/");
                proof {
                    assert(url@ + collapsed(text@, (i + 2) as nat) =~= before + (seq!['/'] + collapsed(
                        text@,
                        (i + 2) as nat,
                    )));
                }
                i = i + 2;
            } else {
                url.append(text.substring_char(i, i + 1));
                proof {
                    assert(text@.subrange(i as int, i + 1) =~= seq![text@[i as int]]);
                    assert(url@ + collapsed(text@, (i + 1) as nat) =~= before + (seq![text@[i as int]]
                        + collapsed(text@, (i + 1) as nat)));
                }
                i = i + 1;
            }
        }
        assert(url@ + collapsed(text@, n as nat) =~= url@);
        url
    }

    /// The address at which this server describes the level `level_name`.
    pub fn level_url(&self, level_name: &str) -> (url: String)
        ensures
            url@ == self.url@ + "/sonolus/levels/"@ + level_name@,
    {
        String::from_str(self.url.as_str()).concat("/sonolus/levels/").concat(level_name)
    }

    /// The name under which a resource of this server is kept once fetched:
    /// the server's id, a hyphen, and the hash of the resource.
    pub fn cache_key(&self, srl: &Srl) -> (key: String)
        ensures
            key@ == self.id@ + "-"@ + srl.hash@,
    {
        String::from_str(self.id.as_str()).concat("-").concat(srl.hash.as_str())
    }
}

} // verus!
