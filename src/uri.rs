use vstd::prelude::*;

use crate::text::{digit_char, same_text, texts};

verus! {

/// The lower-case hexadecimal digit for `n` (below 16).
pub open spec fn hex_digit(n: nat) -> char {
    if n < 10 {
        digit_char(n)
    } else if n == 10 {
        'a'
    } else if n == 11 {
        'b'
    } else if n == 12 {
        'c'
    } else if n == 13 {
        'd'
    } else if n == 14 {
        'e'
    } else {
        'f'
    }
}

/// Two lower-case hexadecimal digits for each byte, the high half first.
pub open spec fn hex_of(b: Seq<u8>) -> Seq<char>
    decreases b.len(),
{
    if b.len() == 0 {
        Seq::empty()
    } else {
        hex_of(b.drop_last()) + seq![hex_digit(b.last() as nat / 16), hex_digit(b.last() as nat % 16)]
    }
}

/// Relies on `hex::encode`: two lower-case hexadecimal digits for each byte, the
/// high half first.
#[verifier::external_body]
fn hex_encode(bytes: &[u8]) -> (r: String)
    ensures
        r@ == hex_of(bytes@),
{
    hex::encode(bytes)
}

/// The prefix of a folder URI that opens a development container.
pub open spec fn container_uri_prefix() -> Seq<char> {
    "vscode-remote://dev-container+"@
}

/// The folder URI that opens `container_folder` in the development container
/// described by the JSON text `config_json`: the text is carried as the hex digits
/// of its UTF-8 bytes.
pub fn folder_uri(config_json: &str, container_folder: &str) -> (r: String)
    ensures
        r@ == container_uri_prefix() + hex_of(vstd::utf8::encode_utf8(config_json@))
            + container_folder@,
{
    let digits = hex_encode(config_json.as_bytes());
    let mut r = String::from_str("vscode-remote://dev-container+");
    r.append(digits.as_str());
    r.append(container_folder);
    r
}

/// A path with every pair of backslashes dropped and every other backslash made
/// a slash, from left to right.
pub open spec fn slashes_fixed(s: Seq<char>) -> Seq<char>
    decreases s.len(),
{
    if s.len() == 0 {
        s
    } else if s.len() >= 2 && s[0] == '\\' && s[1] == '\\' {
        slashes_fixed(s.subrange(2, s.len() as int))
    } else if s[0] == '\\' {
        seq!['/'] + slashes_fixed(s.drop_first())
    } else {
        seq![s[0]] + slashes_fixed(s.drop_first())
    }
}

/// The `file://` URI text for the path `uri`, with backslashes turned into slashes
/// (pairs of them dropped).
pub fn file_uri_text(uri: &str) -> (r: String)
    ensures
        r@ == "file://"@ + slashes_fixed(uri@),
{
    let n = uri.unicode_len();
    let ghost s = uri@;
    let mut r = String::from_str("file://");
    assert(s.subrange(0, n as int) =~= s);
    let mut i: usize = 0;
    while i < n
        invariant
            n == s.len(),
            s == uri@,
            i <= n,
            r@ + slashes_fixed(s.subrange(i as int, n as int)) == "file://"@ + slashes_fixed(s),
        decreases n - i,
    {
        let ghost rest = s.subrange(i as int, n as int);
        let c = uri.get_char(i);
        assert(rest[0] == c);
        if c == '\\' && i + 1 < n && uri.get_char(i + 1) == '\\' {
            assert(rest.subrange(2, rest.len() as int) =~= s.subrange(i + 2, n as int));
            i += 2;
        } else {
            assert(rest.drop_first() =~= s.subrange(i + 1, n as int));
            if c == '\\' {
                r.append("/");
                proof {
                    reveal_strlit("/");
                }
            } else {
                let one = uri.substring_char(i, i + 1);
                assert(one@ =~= seq![c]);
                r.append(one);
            }
            proof {
                assert(r@ + slashes_fixed(s.subrange(i + 1, n as int)) =~= "file://"@ + slashes_fixed(s));
            }
            i += 1;
        }
    }
    proof {
        assert(s.subrange(n as int, n as int) =~= Seq::<char>::empty());
        assert(r@ =~= r@ + slashes_fixed(s.subrange(n as int, n as int)));
    }
    r
}

/// The host and the path of the URL `text`, or nothing when `text` is no valid URL.
pub uninterp spec fn url_parts(text: Seq<char>) -> Option<(Option<Seq<char>>, Seq<char>)>;

/// The character views of a host and a path.
pub open spec fn parts_view(p: Option<(Option<String>, String)>) -> Option<(Option<Seq<char>>, Seq<char>)> {
    match p {
        Some((host, path)) => Some(
            (
                match host {
                    Some(h) => Some(h@),
                    None => None,
                },
                path@,
            ),
        ),
        None => None,
    }
}

/// Relies on url's `Url::parse` and, for a parsed URL, `Url::host_str` and
/// `Url::path`: the parts depend on the text alone.
#[verifier::external_body]
fn parse_url(text: &str) -> (r: Option<(Option<String>, String)>)
    ensures
        parts_view(r) == url_parts(text@),
{
    match url::Url::parse(text) {
        Ok(u) => Some((u.host_str().map(str::to_owned), u.path().to_owned())),
        Err(_) => None,
    }
}

/// The location of a development container configuration, as the editor expects
/// it: the host (authority) and the path of a `file://` URI.
#[derive(Debug, Clone)]
pub struct FileUriJson {
    pub authority: Option<String>,
    pub path: String,
}

impl FileUriJson {
    /// The `file://` URI of the path `uri`, or nothing when that is no valid URI.
    pub fn new(uri: &str) -> (r: Option<FileUriJson>)
        ensures
            r is Some <==> url_parts("file://"@ + slashes_fixed(uri@)) is Some,
            r matches Some(f) ==> parts_view(Some((f.authority, f.path))) == url_parts(
                "file://"@ + slashes_fixed(uri@),
            ),
    {
        let text = file_uri_text(uri);
        match parse_url(text.as_str()) {
            Some((authority, path)) => Some(FileUriJson { authority, path }),
            None => None,
        }
    }
}

/// The message when the arguments already name a folder URI.
pub open spec fn folder_uri_arg_message() -> Seq<char> {
    "Specifying `--folder-uri` is not possible while using vscli."@
}

/// The editor arguments for opening a development container: `args`, then
/// `--folder-uri` and `uri`; refused when `args` already hold `--folder-uri`.
pub fn container_launch_args(args: Vec<String>, uri: String) -> (r: Result<Vec<String>, String>)
    ensures
        (exists|i: int| 0 <= i < args@.len() && (#[trigger] args@[i])@ == "--folder-uri"@) <==> r is Err,
        r matches Err(m) ==> m@ == folder_uri_arg_message(),
        r matches Ok(v) ==> texts(v@) == texts(args@) + seq!["--folder-uri"@, uri@],
{
    let mut i: usize = 0;
    while i < args.len()
        invariant
            i <= args@.len(),
            forall|j: int| 0 <= j < i ==> (#[trigger] args@[j])@ != "--folder-uri"@,
        decreases args@.len() - i,
    {
        if same_text(args[i].as_str(), "--folder-uri") {
            return Err(String::from_str("Specifying `--folder-uri` is not possible while using vscli."));
        }
        i += 1;
    }
    let ghost given = args@;
    let mut args = args;
    args.push(String::from_str("--folder-uri"));
    args.push(uri);
    assert(texts(args@) =~= texts(given) + seq!["--folder-uri"@, uri@]);
    Ok(args)
}

/// The editor arguments for opening `path` without a container: the path, then `args`.
pub fn classic_launch_args(path: String, args: Vec<String>) -> (r: Vec<String>)
    ensures
        texts(r@) == seq![path@] + texts(args@),
{
    let ghost given = args@;
    let ghost p = path@;
    let mut args = args;
    args.insert(0, path);
    assert(texts(args@) =~= seq![p] + texts(given));
    args
}

} // verus!
