//! Where the last picture is kept.
//!
//! Paths are bytes, with a separator between their parts.

use vstd::prelude::*;
use vstd::utf8::{encode_utf8, is_ascii_chars_encode_utf8};

use crate::request::APP_NAME;

verus! {

/// The byte between two parts of a path: a slash.
pub const SEPARATOR: u8 = 0x2f;

/// The name of the directory of caches, in the user's home directory.
pub const CACHES: &'static str = ".cache";

/// The name of the file, in the directory of the program.
pub const FILE: &'static str = "cache";

/// `path` followed by `part`. A `part` that begins with a separator stands alone.
/// Otherwise there is a separator before it, unless `path` is empty or ends in one.
pub open spec fn joined(path: Seq<u8>, part: Seq<u8>) -> Seq<u8> {
    if part.len() > 0 && part[0] == SEPARATOR {
        part
    } else if path.len() == 0 || path.last() == SEPARATOR {
        path + part
    } else {
        path.push(SEPARATOR) + part
    }
}

/// The directory of the caches of the user: `xdg_cache_home` where it is set, else
/// one in the home directory.
pub open spec fn caches(xdg_cache_home: Option<Seq<u8>>, home: Option<Seq<u8>>) -> Seq<u8> {
    match xdg_cache_home {
        Some(path) => path,
        None => joined(home.unwrap(), encode_utf8(CACHES@)),
    }
}

/// The path `path` with `part` at its end.
pub fn join(path: &Vec<u8>, part: &str) -> (longer: Vec<u8>)
    ensures
        longer@ == joined(path@, encode_utf8(part@)),
{
    let part: &[u8] = part.as_bytes();
    let mut longer: Vec<u8> = Vec::new();
    if part.len() == 0 || part[0] != SEPARATOR {
        longer.extend_from_slice(path.as_slice());
        assert(longer@ =~= path@);
        if path.len() > 0 && path[path.len() - 1] != SEPARATOR {
            longer.push(SEPARATOR);
        }
    }
    let ghost before = longer@;
    longer.extend_from_slice(part);
    assert(longer@ =~= before + part@);
    longer
}

/// The file that holds the last picture, and the directory that it is in.
#[derive(Debug, Clone, PartialEq, Eq)]
pub struct CachePath {
    pub directory: Vec<u8>,
    pub file: Vec<u8>,
}

impl CachePath {
    /// The file is in the directory.
    pub open spec fn wf(&self) -> bool {
        &&& self.directory@.len() > 0
        &&& self.file@ == self.directory@.push(SEPARATOR) + encode_utf8(FILE@)
    }
}

/// Where the picture is kept, by the environment variables `XDG_CACHE_HOME` and
/// `HOME`. The second counts where the first is not set.
pub fn cache_path(xdg_cache_home: &Option<Vec<u8>>, home: &Option<Vec<u8>>) -> (path: CachePath)
    requires
        xdg_cache_home is Some || home is Some,
    ensures
        path.directory@ == joined(
            caches(bytes_view(*xdg_cache_home), bytes_view(*home)),
            encode_utf8(APP_NAME@),
        ),
        path.file@ == joined(path.directory@, encode_utf8(FILE@)),
        path.wf(),
{
    let directory: Vec<u8> = match xdg_cache_home {
        Some(path) => join(path, APP_NAME),
        None => join(&join(home.as_ref().unwrap(), CACHES), APP_NAME),
    };
    let file: Vec<u8> = join(&directory, FILE);
    proof {
        lemma_names();
    }
    CachePath { directory, file }
}

/// The bytes of an environment variable, where it is set.
pub open spec fn bytes_view(variable: Option<Vec<u8>>) -> Option<Seq<u8>> {
    match variable {
        Some(bytes) => Some(bytes@),
        None => None,
    }
}

/// The names of the directories and of the file hold no separator, and none is
/// empty.
pub proof fn lemma_names()
    ensures
        encode_utf8(APP_NAME@) == seq![0x70u8, 0x61u8, 0x70u8, 0x69u8, 0x65u8, 0x72u8],
        encode_utf8(CACHES@) == seq![0x2eu8, 0x63u8, 0x61u8, 0x63u8, 0x68u8, 0x65u8],
        encode_utf8(FILE@) == seq![0x63u8, 0x61u8, 0x63u8, 0x68u8, 0x65u8],
{
    reveal_strlit("papier");
    reveal_strlit(".cache");
    reveal_strlit("cache");
    is_ascii_chars_encode_utf8("papier"@);
    is_ascii_chars_encode_utf8(".cache"@);
    is_ascii_chars_encode_utf8("cache"@);
    assert(encode_utf8(APP_NAME@) =~= seq![0x70u8, 0x61u8, 0x70u8, 0x69u8, 0x65u8, 0x72u8]);
    assert(encode_utf8(CACHES@) =~= seq![0x2eu8, 0x63u8, 0x61u8, 0x63u8, 0x68u8, 0x65u8]);
    assert(encode_utf8(FILE@) =~= seq![0x63u8, 0x61u8, 0x63u8, 0x68u8, 0x65u8]);
}

/// Where `XDG_CACHE_HOME` is set, `HOME` does not count.
pub proof fn lemma_home_is_second(path: Seq<u8>, home: Option<Seq<u8>>, other: Option<Seq<u8>>)
    ensures
        caches(Some(path), home) == caches(Some(path), other),
{
}

/// A relative path that is joined to another stays under it: the result begins with
/// the one and ends with the other, and there is at most a separator between them.
pub proof fn lemma_joined_is_under(path: Seq<u8>, part: Seq<u8>)
    requires
        part.len() > 0,
        part[0] != SEPARATOR,
    ensures
        ({
            let longer = joined(path, part);
            &&& path.len() + part.len() <= longer.len() <= path.len() + part.len() + 1
            &&& longer.take(path.len() as int) == path
            &&& longer.skip(longer.len() - part.len()) == part
            &&& longer.len() > path.len() + part.len() ==> longer[path.len() as int] == SEPARATOR
        }),
{
    let longer = joined(path, part);
    assert(longer.take(path.len() as int) =~= path);
    assert(longer.skip(longer.len() - part.len()) =~= part);
}

} // verus!
