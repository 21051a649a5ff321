//! Construction of download URIs and on-disk destination paths.
//!
//! Descriptors live flat under the pack store as
//! `{pack_store}/{vendor}.{name}.{version}.pdsc`; archives live nested as
//! `{pack_store}/{vendor}/{name}/{version}.pack`. The URI of either is the
//! publication URL joined with `/` when the URL does not already end in one.
//! Paths are kept as `/`-joined strings; the surrounding process turns them
//! into platform paths.

use vstd::prelude::*;
use vstd::string::StrSliceExecFns;
use vstd::string::StringExecFns;

verus! {

/// True of a URL that already names a directory: its last character is `/`.
pub open spec fn slash_terminated(s: Seq<char>) -> bool {
    s.len() > 0 && s[s.len() - 1] == '/'
}

/// The file name `{vendor}.{name}.{version}.pdsc`.
pub open spec fn pdsc_file_name(vendor: Seq<char>, name: Seq<char>, version: Seq<char>) -> Seq<char> {
    vendor + "."@ + name + "."@ + version + ".pdsc"@
}

/// The file name `{vendor}.{name}.{version}.pack`.
pub open spec fn pack_file_name(vendor: Seq<char>, name: Seq<char>, version: Seq<char>) -> Seq<char> {
    vendor + "."@ + name + "."@ + version + ".pack"@
}

/// The URL under which a descriptor is published: its directory URL and the
/// descriptor's file name, joined with `/` where the URL lacks one.
pub open spec fn pdsc_uri_chars(
    url: Seq<char>,
    vendor: Seq<char>,
    name: Seq<char>,
    version: Seq<char>,
) -> Seq<char> {
    if slash_terminated(url) {
        url + pdsc_file_name(vendor, name, version)
    } else {
        url + "/"@ + pdsc_file_name(vendor, name, version)
    }
}

/// The URL under which an archive is published. The joining rule is the same
/// as for descriptors; the suffix is `.pack` in both branches.
pub open spec fn pack_uri_chars(
    url: Seq<char>,
    vendor: Seq<char>,
    name: Seq<char>,
    version: Seq<char>,
) -> Seq<char> {
    if slash_terminated(url) {
        url + pack_file_name(vendor, name, version)
    } else {
        url + "/"@ + pack_file_name(vendor, name, version)
    }
}

/// The destination of a descriptor: flat under the pack store.
pub open spec fn pdsc_dest_chars(
    store: Seq<char>,
    vendor: Seq<char>,
    name: Seq<char>,
    version: Seq<char>,
) -> Seq<char> {
    store + "/"@ + pdsc_file_name(vendor, name, version)
}

/// The destination of an archive: nested `{vendor}/{name}/{version}.pack`.
pub open spec fn pack_dest_chars(
    store: Seq<char>,
    vendor: Seq<char>,
    name: Seq<char>,
    version: Seq<char>,
) -> Seq<char> {
    store + "/"@ + vendor + "/"@ + name + "/"@ + version + ".pack"@
}

/// Whether the string's last character is `/`.
pub fn ends_with_slash(s: &str) -> (r: bool)
    ensures
        r == slash_terminated(s@),
{
    let n = s.unicode_len();
    if n == 0 {
        false
    } else {
        s.get_char(n - 1) == '/'
    }
}

/// Builds `{url}{vendor}.{name}.{version}.pdsc`, inserting `/` after a URL
/// that does not end in one.
pub fn pdsc_uri_string(url: &str, vendor: &str, name: &str, version: &str) -> (r: String)
    ensures
        r@ == pdsc_uri_chars(url@, vendor@, name@, version@),
{
    let mut s = url.to_owned();
    if !ends_with_slash(url) {
        s.append("/");
    }
    s.append(vendor);
    s.append(".");
    s.append(name);
    s.append(".");
    s.append(version);
    s.append(".pdsc");
    s
}

/// Builds `{url}{vendor}.{name}.{version}.pack`, inserting `/` after a URL
/// that does not end in one.
pub fn pack_uri_string(url: &str, vendor: &str, name: &str, version: &str) -> (r: String)
    ensures
        r@ == pack_uri_chars(url@, vendor@, name@, version@),
{
    let mut s = url.to_owned();
    if !ends_with_slash(url) {
        s.append("/");
    }
    s.append(vendor);
    s.append(".");
    s.append(name);
    s.append(".");
    s.append(version);
    s.append(".pack");
    s
}

/// Builds the flat descriptor destination under the pack store.
pub fn pdsc_dest_string(store: &str, vendor: &str, name: &str, version: &str) -> (r: String)
    ensures
        r@ == pdsc_dest_chars(store@, vendor@, name@, version@),
{
    let mut s = store.to_owned();
    s.append("/");
    s.append(vendor);
    s.append(".");
    s.append(name);
    s.append(".");
    s.append(version);
    s.append(".pdsc");
    s
}

/// Builds the nested archive destination under the pack store.
pub fn pack_dest_string(store: &str, vendor: &str, name: &str, version: &str) -> (r: String)
    ensures
        r@ == pack_dest_chars(store@, vendor@, name@, version@),
{
    let mut s = store.to_owned();
    s.append("/");
    s.append(vendor);
    s.append("/");
    s.append(name);
    s.append("/");
    s.append(version);
    s.append(".pack");
    s
}

/// For a directory URL (one ending in `/`) the descriptor URI is exactly the
/// concatenation `url + vendor + "." + name + "." + version + ".pdsc"`.
pub proof fn lemma_pdsc_uri_round_trip(
    url: Seq<char>,
    vendor: Seq<char>,
    name: Seq<char>,
    version: Seq<char>,
)
    requires
        slash_terminated(url),
    ensures
        pdsc_uri_chars(url, vendor, name, version) == url + vendor + "."@ + name + "."@ + version
            + ".pdsc"@,
{
    assert(pdsc_uri_chars(url, vendor, name, version) =~= url + vendor + "."@ + name + "."@
        + version + ".pdsc"@);
}

/// The same round trip for archive URIs: the suffix is `.pack` whether or
/// not the URL ends in `/`.
pub proof fn lemma_pack_uri_round_trip(
    url: Seq<char>,
    vendor: Seq<char>,
    name: Seq<char>,
    version: Seq<char>,
)
    requires
        slash_terminated(url),
    ensures
        pack_uri_chars(url, vendor, name, version) == url + vendor + "."@ + name + "."@ + version
            + ".pack"@,
{
    assert(pack_uri_chars(url, vendor, name, version) =~= url + vendor + "."@ + name + "."@
        + version + ".pack"@);
}

#[verifier::external_type_specification]
#[verifier::external_body]
pub struct ExUri(hyper::Uri);

#[verifier::external_type_specification]
#[verifier::external_body]
pub struct ExInvalidUri(http::uri::InvalidUri);

/// Whether the characters form a URI that the HTTP layer accepts.
pub uninterp spec fn uri_well_formed(s: Seq<char>) -> bool;

/// The URI value those characters parse to, when they are well formed.
pub uninterp spec fn uri_of(s: Seq<char>) -> hyper::Uri;

/// Relies on the http crate's `Uri` implementation of `FromStr`
/// (re-exported by hyper): parsing succeeds or fails, and which URI value
/// comes back, as a function of the characters alone.
#[verifier::external_body]
pub(crate) fn parse_uri(s: &str) -> (r: Result<hyper::Uri, http::uri::InvalidUri>)
    ensures
        r is Ok <==> uri_well_formed(s@),
        r is Ok ==> r->Ok_0 == uri_of(s@),
{
    s.parse()
}

/// The index at which the extension of the last path component starts (the
/// position of its final `.`), or `-1` when that component has none.
pub open spec fn ext_split(s: Seq<char>) -> int
    decreases s.len(),
{
    if s.len() == 0 {
        -1
    } else if s.last() == '.' {
        s.len() - 1
    } else if s.last() == '/' {
        -1
    } else {
        ext_split(s.drop_last())
    }
}

/// The transient sibling of `dest` while its bytes are being written: the
/// final extension replaced by `part`, or `.part` appended when the last
/// path component has no extension.
pub open spec fn part_path_chars(dest: Seq<char>) -> Seq<char> {
    if ext_split(dest) >= 0 {
        dest.subrange(0, ext_split(dest)) + ".part"@
    } else {
        dest + ".part"@
    }
}

/// Builds the `.part` sibling of a destination path.
pub fn part_path_string(dest: &str) -> (r: String)
    ensures
        r@ == part_path_chars(dest@),
{
    let n = dest.unicode_len();
    let mut i = n;
    proof {
        assert(dest@.subrange(0, n as int) =~= dest@);
    }
    loop
        invariant
            i <= n,
            n == dest@.len(),
            ext_split(dest@) == ext_split(dest@.subrange(0, i as int)),
        ensures
            ext_split(dest@) < 0,
        decreases i,
    {
        if i == 0 {
            proof {
                assert(dest@.subrange(0, 0) =~= Seq::<char>::empty());
            }
            break;
        }
        let c = dest.get_char(i - 1);
        proof {
            assert(dest@.subrange(0, i as int).last() == dest@[i - 1]);
            assert(dest@.subrange(0, i as int).drop_last() =~= dest@.subrange(0, i - 1));
        }
        if c == '.' {
            let stem = dest.substring_char(0, i - 1);
            let mut s = stem.to_owned();
            s.append(".part");
            return s;
        }
        if c == '/' {
            break;
        }
        i = i - 1;
    }
    let mut s = dest.to_owned();
    s.append(".part");
    s
}

} // verus!
