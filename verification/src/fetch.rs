use vstd::prelude::*;

use core::convert::Infallible;

use crate::text::{
    chars_end_with, chars_of, chars_start_with, find_char, index_of_char, push_char, slice_chars,
    starts_with, string_of,
};

verus! {

/// Where a crate comes from.
#[derive(Debug, Clone)]
pub enum CrateSource {
    /// A path on the local file system.
    Local(String),
    /// A crate of crates.io, optionally at a given version.
    CratesIo { name: String, version: Option<String> },
    /// A git repository, optionally at a branch, tag or revision.
    Git { url: String, reference: Option<String> },
}

/// A [`CrateSource`] with its strings taken by their characters.
pub ghost enum SourceView {
    Local(Seq<char>),
    CratesIo { name: Seq<char>, version: Option<Seq<char>> },
    Git { url: Seq<char>, reference: Option<Seq<char>> },
}

/// The characters of an optional string.
pub open spec fn opt_chars(o: Option<String>) -> Option<Seq<char>> {
    match o {
        Some(s) => Some(s@),
        None => None,
    }
}

impl View for CrateSource {
    type V = SourceView;

    open spec fn view(&self) -> SourceView {
        match self {
            CrateSource::Local(p) => SourceView::Local(p@),
            CrateSource::CratesIo { name, version } => SourceView::CratesIo {
                name: name@,
                version: opt_chars(*version),
            },
            CrateSource::Git { url, reference } => SourceView::Git {
                url: url@,
                reference: opt_chars(*reference),
            },
        }
    }
}

/// The part of `s` before the first `c` (all of `s` when there is none).
pub open spec fn before_char(s: Seq<char>, c: char) -> Seq<char> {
    match index_of_char(s, c) {
        Some(i) => s.take(i),
        None => s,
    }
}

/// The part of `s` after the first `c`, when there is one.
pub open spec fn after_char(s: Seq<char>, c: char) -> Option<Seq<char>> {
    match index_of_char(s, c) {
        Some(i) => Some(s.skip(i + 1)),
        None => None,
    }
}

/// `git:url` or `git:url#reference`: the reference is everything after the first `#`.
pub open spec fn git_source(rest: Seq<char>) -> SourceView {
    SourceView::Git { url: before_char(rest, '#'), reference: after_char(rest, '#') }
}

/// A hosting shorthand such as `github:user/repo#reference`: the URL is
/// `https://<host>/user/repo.git`; the reference is the text between the first
/// `#` and the next one.
pub open spec fn hosted_source(host: Seq<char>, rest: Seq<char>) -> SourceView {
    SourceView::Git {
        url: "https://"@ + host + seq!['/'] + before_char(rest, '#') + ".git"@,
        reference: match after_char(rest, '#') {
            Some(a) => Some(before_char(a, '#')),
            None => None,
        },
    }
}

/// `name` or `name@version`: the version is everything after the first `@`.
pub open spec fn crates_io_source(s: Seq<char>) -> SourceView {
    SourceView::CratesIo { name: before_char(s, '@'), version: after_char(s, '@') }
}

/// The text looks like a path: it contains `/` (which covers `/...`, `./...`
/// and `../...`).
pub open spec fn looks_like_path(s: Seq<char>) -> bool {
    starts_with(s, "/"@) || starts_with(s, "./"@) || starts_with(s, "../"@) || index_of_char(
        s,
        '/',
    ) is Some
}

/// What a source argument names: `git:`, `github:` and `gitlab:` prefixes give
/// git repositories; text that looks like a path, or that names an existing
/// file (`path_exists`), is a local path; anything else is a crates.io crate.
pub open spec fn parsed_source(s: Seq<char>, path_exists: bool) -> SourceView {
    if starts_with(s, "git:"@) {
        git_source(s.skip("git:"@.len() as int))
    } else if starts_with(s, "github:"@) {
        hosted_source("github.com"@, s.skip("github:"@.len() as int))
    } else if starts_with(s, "gitlab:"@) {
        hosted_source("gitlab.com"@, s.skip("gitlab:"@.len() as int))
    } else if looks_like_path(s) || path_exists {
        SourceView::Local(s)
    } else {
        crates_io_source(s)
    }
}

/// How a source is shown: a path as it is, `name@version` or `name`, `url#reference` or `url`.
pub open spec fn source_display(v: SourceView) -> Seq<char> {
    match v {
        SourceView::Local(p) => p,
        SourceView::CratesIo { name, version } => match version {
            Some(ver) => name + seq!['@'] + ver,
            None => name,
        },
        SourceView::Git { url, reference } => match reference {
            Some(r) => url + seq!['#'] + r,
            None => url,
        },
    }
}

/// `s` without its first `n` characters, as a string.
fn skip_string(s: &Vec<char>, n: usize) -> (r: String)
    requires
        n <= s.len(),
    ensures
        r@ == s@.skip(n as int),
{
    let v = slice_chars(s, n, s.len());
    assert(v@ =~= s@.skip(n as int));
    string_of(&v)
}

/// `s` split at the first `c`: the part before it, and the part after it when
/// there is one.
fn split_once(s: &Vec<char>, c: char) -> (r: (String, Option<String>))
    ensures
        r.0@ == before_char(s@, c),
        opt_chars(r.1) == after_char(s@, c),
{
    let n = s.len();
    match find_char(s, c) {
        Some(i) => {
            proof {
                lemma_index_of_char_bound(s@, c);
                assert(i < n);
            }
            let before = slice_chars(s, 0, i);
            assert(before@ =~= s@.take(i as int));
            (string_of(&before), Some(skip_string(s, i + 1)))
        },
        None => (string_of(s), None),
    }
}

/// The index of a character is within the text and holds that character.
pub proof fn lemma_index_of_char_bound(s: Seq<char>, c: char)
    ensures
        index_of_char(s, c) matches Some(i) ==> 0 <= i < s.len() && s[i] == c,
    decreases s.len(),
{
    if s.len() > 0 && s[0] != c {
        lemma_index_of_char_bound(s.drop_first(), c);
    }
}

impl CrateSource {
    /// Parses a source argument; see [`parsed_source`]. `path_exists` tells
    /// whether a file or directory exists at the path `s`.
    pub fn parse(s: &str, path_exists: bool) -> (r: Result<Self, Infallible>)
        ensures
            r matches Ok(src) && src@ == parsed_source(s@, path_exists),
    {
        let cs = chars_of(s);
        let git = chars_of("git:");
        if chars_start_with(&cs, &git) {
            return Ok(Self::parse_git_chars(&cs, git.len()));
        }
        let github = chars_of("github:");
        if chars_start_with(&cs, &github) {
            return Ok(Self::parse_hosted(&cs, github.len(), "github.com"));
        }
        let gitlab = chars_of("gitlab:");
        if chars_start_with(&cs, &gitlab) {
            return Ok(Self::parse_hosted(&cs, gitlab.len(), "gitlab.com"));
        }
        let slash = chars_of("/");
        let dot_slash = chars_of("./");
        let dot_dot_slash = chars_of("../");
        if chars_start_with(&cs, &slash) || chars_start_with(&cs, &dot_slash) || chars_start_with(
            &cs,
            &dot_dot_slash,
        ) || find_char(&cs, '/').is_some() || path_exists {
            return Ok(CrateSource::Local(s.to_owned()));
        }
        Ok(Self::parse_crates_io(s))
    }

    fn parse_git_chars(cs: &Vec<char>, prefix_len: usize) -> (r: Self)
        requires
            prefix_len <= cs.len(),
        ensures
            r@ == git_source(cs@.skip(prefix_len as int)),
    {
        let rest = slice_chars(cs, prefix_len, cs.len());
        assert(rest@ =~= cs@.skip(prefix_len as int));
        let (url, reference) = split_once(&rest, '#');
        CrateSource::Git { url, reference }
    }

    /// Parses the part after `git:`: the URL, then an optional `#reference`.
    pub fn parse_git(s: &str) -> (r: Result<Self, Infallible>)
        ensures
            r matches Ok(src) && src@ == git_source(s@),
    {
        let cs = chars_of(s);
        assert(cs@.skip(0) =~= cs@);
        Ok(Self::parse_git_chars(&cs, 0))
    }

    fn parse_hosted(cs: &Vec<char>, prefix_len: usize, host: &str) -> (r: Self)
        requires
            prefix_len <= cs.len(),
        ensures
            r@ == hosted_source(host@, cs@.skip(prefix_len as int)),
    {
        let rest = slice_chars(cs, prefix_len, cs.len());
        assert(rest@ =~= cs@.skip(prefix_len as int));
        let (path, after) = split_once(&rest, '#');
        let mut url = "https://".to_owned();
        url.append(host);
        push_char(&mut url, '/');
        url.append(path.as_str());
        url.append(".git");
        assert(url@ =~= "https://"@ + host@ + seq!['/'] + before_char(rest@, '#') + ".git"@);
        let reference = match after {
            Some(a) => {
                let (r, _) = split_once(&chars_of(a.as_str()), '#');
                Some(r)
            },
            None => None,
        };
        CrateSource::Git { url, reference }
    }

    /// Parses a crates.io source: the name, then an optional `@version`.
    pub fn parse_crates_io(s: &str) -> (r: Self)
        ensures
            r@ == crates_io_source(s@),
    {
        let (name, version) = split_once(&chars_of(s), '@');
        CrateSource::CratesIo { name, version }
    }

    /// How the source is shown; see [`source_display`].
    pub fn display_name(&self) -> (r: String)
        ensures
            r@ == source_display(self@),
    {
        match self {
            CrateSource::Local(path) => path.clone(),
            CrateSource::CratesIo { name, version } => {
                let mut r = name.clone();
                match version {
                    Some(v) => {
                        push_char(&mut r, '@');
                        r.append(v.as_str());
                    },
                    None => {},
                }
                r
            },
            CrateSource::Git { url, reference } => {
                let mut r = url.clone();
                match reference {
                    Some(x) => {
                        push_char(&mut r, '#');
                        r.append(x.as_str());
                    },
                    None => {},
                }
                r
            },
        }
    }
}

/// A crate fetched to a local directory, ready for analysis.
#[derive(Debug)]
pub struct FetchedCrate {
    pub name: String,
    pub path: String,
    pub source: CrateSource,
    /// The directory is a temporary copy that may be cleaned up.
    pub is_temporary: bool,
}

/// Splitting at the first `c` and putting `c` back gives the text again.
proof fn lemma_split_rejoin(s: Seq<char>, c: char)
    ensures
        after_char(s, c) matches Some(a) ==> before_char(s, c) + seq![c] + a == s,
        after_char(s, c) is None ==> before_char(s, c) == s,
{
    lemma_index_of_char_bound(s, c);
    if let Some(i) = index_of_char(s, c) {
        assert(s.take(i) + seq![c] + s.skip(i + 1) =~= s);
    }
}

/// Showing a parsed source gives back the argument, for every argument without
/// a `git:`, `github:` or `gitlab:` prefix (local paths and crates.io crates).
pub proof fn law_display_parsed_plain(s: Seq<char>, path_exists: bool)
    requires
        !starts_with(s, "git:"@),
        !starts_with(s, "github:"@),
        !starts_with(s, "gitlab:"@),
    ensures
        source_display(parsed_source(s, path_exists)) == s,
{
    lemma_split_rejoin(s, '@');
}

/// Showing a source parsed from `git:` followed by `rest` gives back `rest`.
pub proof fn law_display_parsed_git(rest: Seq<char>, path_exists: bool)
    ensures
        source_display(parsed_source("git:"@ + rest, path_exists)) == rest,
{
    let s = "git:"@ + rest;
    assert(s.take("git:"@.len() as int) =~= "git:"@);
    assert(s.skip("git:"@.len() as int) =~= rest);
    lemma_split_rejoin(rest, '#');
}

/// `c` does not occur in `a`.
pub open spec fn lacks_char(a: Seq<char>, c: char) -> bool {
    forall|i: int| 0 <= i < a.len() ==> a[i] != c
}

proof fn lemma_index_of_char_none(a: Seq<char>, c: char)
    requires
        lacks_char(a, c),
    ensures
        index_of_char(a, c) is None,
    decreases a.len(),
{
    if a.len() > 0 {
        lemma_index_of_char_none(a.drop_first(), c);
    }
}

proof fn lemma_index_of_char_some(s: Seq<char>, c: char, i: int)
    requires
        0 <= i < s.len(),
        s[i] == c,
    ensures
        index_of_char(s, c) is Some,
    decreases s.len(),
{
    if s[0] != c {
        lemma_index_of_char_some(s.drop_first(), c, i - 1);
    }
}

/// Splitting `a`, `c`, `b` at the first `c`, where `a` holds no `c`, gives `a` and `b`.
proof fn lemma_split_at_first(a: Seq<char>, c: char, b: Seq<char>)
    requires
        lacks_char(a, c),
    ensures
        before_char(a + seq![c] + b, c) == a,
        after_char(a + seq![c] + b, c) == Some(b),
        before_char(a, c) == a,
        after_char(a, c) is None,
    decreases a.len(),
{
    let s = a + seq![c] + b;
    lemma_index_of_char_none(a, c);
    lemma_index_of_char_at(a, c, b);
    assert(s.take(a.len() as int) =~= a);
    assert(s.skip(a.len() + 1int) =~= b);
}

proof fn lemma_index_of_char_at(a: Seq<char>, c: char, b: Seq<char>)
    requires
        lacks_char(a, c),
    ensures
        index_of_char(a + seq![c] + b, c) == Some(a.len() as int),
    decreases a.len(),
{
    let s = a + seq![c] + b;
    if a.len() > 0 {
        lemma_index_of_char_at(a.drop_first(), c, b);
        assert(s.drop_first() =~= a.drop_first() + seq![c] + b);
    }
}

proof fn lemma_no_prefix_of_plain(s: Seq<char>)
    requires
        lacks_char(s, '/'),
    ensures
        !looks_like_path(s),
{
    reveal_strlit("/");
    reveal_strlit("./");
    reveal_strlit("../");
    lemma_index_of_char_none(s, '/');
    if starts_with(s, "/"@) {
        assert(s.take(1)[0] == s[0]);
    }
    if starts_with(s, "./"@) {
        assert(s.take(2)[1] == s[1]);
    }
    if starts_with(s, "../"@) {
        assert(s.take(3)[2] == s[2]);
    }
}

/// A crates.io argument: `name` or `name@version`, with no `/` in it, no
/// `git:`, `github:` or `gitlab:` prefix, and no such file, names the crate
/// `name` of crates.io at that version (the version is what follows the first
/// `@`), or at any version.
pub proof fn law_parse_crates_io(name: Seq<char>, version: Option<Seq<char>>)
    requires
        lacks_char(name, '@'),
        lacks_char(name, '/'),
        version matches Some(v) ==> lacks_char(v, '/'),
        ({
            let s = match version {
                Some(v) => name + seq!['@'] + v,
                None => name,
            };
            !starts_with(s, "git:"@) && !starts_with(s, "github:"@) && !starts_with(s, "gitlab:"@)
        }),
    ensures
        parsed_source(
            match version {
                Some(v) => name + seq!['@'] + v,
                None => name,
            },
            false,
        ) == (SourceView::CratesIo { name, version }),
{
    match version {
        Some(v) => {
            let s = name + seq!['@'] + v;
            assert(lacks_char(s, '/'));
            lemma_no_prefix_of_plain(s);
            lemma_split_at_first(name, '@', v);
        },
        None => {
            lemma_no_prefix_of_plain(name);
            lemma_split_at_first(name, '@', Seq::empty());
        },
    }
}

/// An argument that contains `/`, or that names an existing file or
/// directory, and has no `git:`, `github:` or `gitlab:` prefix, is a local path.
pub proof fn law_parse_local(s: Seq<char>, path_exists: bool, i: int)
    requires
        !starts_with(s, "git:"@),
        !starts_with(s, "github:"@),
        !starts_with(s, "gitlab:"@),
        path_exists || (0 <= i < s.len() && s[i] == '/'),
    ensures
        parsed_source(s, path_exists) == SourceView::Local(s),
{
    if !path_exists {
        lemma_index_of_char_some(s, '/', i);
    }
}

/// `git:url` names the repository at `url`, and `git:url#reference` the same
/// repository at `reference` (the URL holding no `#`).
pub proof fn law_parse_git(url: Seq<char>, reference: Option<Seq<char>>, path_exists: bool)
    requires
        lacks_char(url, '#'),
    ensures
        parsed_source(
            "git:"@ + match reference {
                Some(r) => url + seq!['#'] + r,
                None => url,
            },
            path_exists,
        ) == (SourceView::Git { url, reference }),
{
    let rest = match reference {
        Some(r) => url + seq!['#'] + r,
        None => url,
    };
    let s = "git:"@ + rest;
    assert(s.take("git:"@.len() as int) =~= "git:"@);
    assert(s.skip("git:"@.len() as int) =~= rest);
    match reference {
        Some(r) => lemma_split_at_first(url, '#', r),
        None => lemma_split_at_first(url, '#', Seq::empty()),
    }
}

/// `github:user/repo` names `https://github.com/user/repo.git`, and
/// `github:user/repo#reference` the same repository at `reference`; likewise
/// `gitlab:` with `https://gitlab.com/`.
pub proof fn law_parse_hosted(path: Seq<char>, reference: Option<Seq<char>>, path_exists: bool)
    requires
        lacks_char(path, '#'),
        reference matches Some(r) ==> lacks_char(r, '#'),
    ensures
        parsed_source(
            "github:"@ + match reference {
                Some(r) => path + seq!['#'] + r,
                None => path,
            },
            path_exists,
        ) == (SourceView::Git { url: "https://github.com/"@ + path + ".git"@, reference }),
        parsed_source(
            "gitlab:"@ + match reference {
                Some(r) => path + seq!['#'] + r,
                None => path,
            },
            path_exists,
        ) == (SourceView::Git { url: "https://gitlab.com/"@ + path + ".git"@, reference }),
{
    reveal_strlit("git:");
    reveal_strlit("github:");
    reveal_strlit("gitlab:");
    reveal_strlit("https://");
    reveal_strlit("github.com");
    reveal_strlit("gitlab.com");
    reveal_strlit("https://github.com/");
    reveal_strlit("https://gitlab.com/");
    let rest = match reference {
        Some(r) => path + seq!['#'] + r,
        None => path,
    };
    match reference {
        Some(r) => {
            lemma_split_at_first(path, '#', r);
            lemma_split_at_first(r, '#', Seq::empty());
            assert(r + seq!['#'] + Seq::<char>::empty() =~= r + seq!['#']);
        },
        None => lemma_split_at_first(path, '#', Seq::empty()),
    }
    let gh = "github:"@ + rest;
    let gl = "gitlab:"@ + rest;
    assert(gh.take(7) =~= "github:"@);
    assert(gh.skip(7) =~= rest);
    assert(gl.take(7) =~= "gitlab:"@);
    assert(gl.skip(7) =~= rest);
    assert(gh.take(4)[3] != "git:"@[3]);
    assert(gl.take(4)[3] != "git:"@[3]);
    assert(gl.take(7)[3] != "github:"@[3]);
    assert("https://"@ + "github.com"@ + seq!['/'] =~= "https://github.com/"@);
    assert("https://"@ + "gitlab.com"@ + seq!['/'] =~= "https://gitlab.com/"@);
    assert("https://"@ + "github.com"@ + seq!['/'] + path + ".git"@ =~= "https://github.com/"@ + path + ".git"@);
    assert("https://"@ + "gitlab.com"@ + seq!['/'] + path + ".git"@ =~= "https://gitlab.com/"@ + path + ".git"@);
}

/// One step of the directory-name hash: `h * 31 + b`, wrapping at 2^64.
pub open spec fn hash_step(h: u64, b: u8) -> u64 {
    ((h as int * 31 + b as int) % 0x1_0000_0000_0000_0000) as u64
}

/// The hash of a byte string: starting from 0, one [`hash_step`] per byte.
pub open spec fn hash_of_bytes(bytes: Seq<u8>) -> u64
    decreases bytes.len(),
{
    if bytes.len() == 0 {
        0
    } else {
        hash_step(hash_of_bytes(bytes.drop_last()), bytes.last())
    }
}

/// The small hexadecimal digit for `d` (`0`..`9`, `a`..`f`).
pub open spec fn hex_char(d: nat) -> char {
    if d < 10 {
        (48 + d) as char
    } else {
        (87 + d) as char
    }
}

/// The last `count` hexadecimal digits of `n`, most significant first.
pub open spec fn hex_digits(n: nat, count: nat) -> Seq<char>
    decreases count,
{
    if count == 0 {
        Seq::empty()
    } else {
        hex_digits(n / 16, (count - 1) as nat).push(hex_char(n % 16))
    }
}

/// The name of the cache directory of a git URL: its hash, the hash taken
/// over the URL's UTF-8 bytes, as 16 hexadecimal digits.
pub open spec fn url_hash_text(url: Seq<char>) -> Seq<char> {
    hex_digits(hash_of_bytes(vstd::utf8::encode_utf8(url)) as nat, 16)
}

proof fn lemma_hash_step(h: u64, b: u8)
    ensures
        h.wrapping_mul(31).wrapping_add(b as u64) == hash_step(h, b),
{
    let m: int = 0x1_0000_0000_0000_0000;
    let y: int = (h as int * 31) % m;
    assert(0 <= y < m) by (nonlinear_arith)
        requires
            y == (h as int * 31) % m,
            m > 0,
    ;
    assert((h as int * 31 + (b as int)) % m == (y + (b as int)) % m) by (nonlinear_arith)
        requires
            y == (h as int * 31) % m,
            m > 0,
    ;
    assert(y + (b as int) >= m ==> (y + (b as int)) % m == y + (b as int) - m) by (nonlinear_arith)
        requires
            0 <= y < m,
            0 <= b < 256,
            m > 256,
    ;
    assert(y + (b as int) < m ==> (y + (b as int)) % m == y + (b as int)) by (nonlinear_arith)
        requires
            0 <= y < m,
            0 <= b < 256,
    ;
}

/// The hexadecimal digits of `n`; see [`hex_digits`].
fn hex_digits_of(n: u64, count: usize) -> (r: Vec<char>)
    ensures
        r@ == hex_digits(n as nat, count as nat),
    decreases count,
{
    if count == 0 {
        return Vec::new();
    }
    let mut r = hex_digits_of(n / 16, count - 1);
    let d = (n % 16) as u8;
    let c = if d < 10 {
        (48 + d) as char
    } else {
        (87 + d) as char
    };
    r.push(c);
    r
}

/// The hash of a text as 16 hexadecimal digits; see [`url_hash_text`].
pub fn simple_hash(s: &str) -> (r: String)
    ensures
        r@ == url_hash_text(s@),
{
    let bytes = s.as_bytes();
    let mut hash: u64 = 0;
    for i in 0..bytes.len()
        invariant
            bytes@ == vstd::utf8::encode_utf8(s@),
            hash == hash_of_bytes(bytes@.take(i as int)),
    {
        assert(bytes@.take(i + 1).drop_last() =~= bytes@.take(i as int));
        proof {
            lemma_hash_step(hash, bytes@[i as int]);
        }
        hash = hash.wrapping_mul(31).wrapping_add(bytes[i] as u64);
    }
    assert(bytes@.take(bytes.len() as int) =~= bytes@);
    let digits = hex_digits_of(hash, 16);
    string_of(&digits)
}

/// Different hashes give different directory names: the digits determine the
/// number, for every number below 16 to the power `count`.
pub proof fn law_hex_digits_injective(a: nat, b: nat, count: nat)
    requires
        a < vstd::arithmetic::power::pow(16, count),
        b < vstd::arithmetic::power::pow(16, count),
        hex_digits(a, count) == hex_digits(b, count),
    ensures
        a == b,
    decreases count,
{
    if count == 0 {
        assert(vstd::arithmetic::power::pow(16, 0) == 1) by {
            vstd::arithmetic::power::lemma_pow0(16);
        }
    } else {
        let c1 = (count - 1) as nat;
        let p = vstd::arithmetic::power::pow(16, c1);
        assert(vstd::arithmetic::power::pow(16, count) == 16 * p) by {
            vstd::arithmetic::power::lemma_pow_adds(16, 1, c1);
            vstd::arithmetic::power::lemma_pow1(16);
        }
        let ha = hex_digits(a / 16, c1);
        let hb = hex_digits(b / 16, c1);
        assert(ha.push(hex_char(a % 16)).last() == hex_char(a % 16));
        assert(hex_char(a % 16) == hex_char(b % 16));
        assert(a % 16 == b % 16) by {
            assert(a % 16 < 16 && b % 16 < 16);
            assert((hex_char(a % 16) as int) == (hex_char(b % 16) as int));
        }
        assert(ha =~= ha.push(hex_char(a % 16)).drop_last());
        assert(hb =~= hb.push(hex_char(b % 16)).drop_last());
        assert(ha == hb);
        assert(a / 16 < p && b / 16 < p) by (nonlinear_arith)
            requires
                a < 16 * p,
                b < 16 * p,
        ;
        law_hex_digits_injective(a / 16, b / 16, c1);
        assert(a == 16 * (a / 16) + a % 16) by (nonlinear_arith);
        assert(b == 16 * (b / 16) + b % 16) by (nonlinear_arith);
    }
}

/// `s` without every trailing `.git` (the suffix is removed as often as it occurs).
pub open spec fn trim_git_suffixes(s: Seq<char>) -> Seq<char>
    decreases s.len(),
{
    if s.len() >= 4 && s.skip(s.len() - 4) == seq!['.', 'g', 'i', 't'] {
        trim_git_suffixes(s.take(s.len() - 4))
    } else {
        s
    }
}

/// The part of `s` after its last `/` (all of `s` when there is none).
pub open spec fn after_last_slash(s: Seq<char>) -> Seq<char>
    decreases s.len(),
{
    if s.len() == 0 {
        s
    } else if s.last() == '/' {
        Seq::empty()
    } else {
        after_last_slash(s.drop_last()).push(s.last())
    }
}

/// The repository name of a git URL: its last path component, without `.git`.
pub open spec fn repo_name(url: Seq<char>) -> Seq<char> {
    after_last_slash(trim_git_suffixes(url))
}

/// The repository name of a git URL; see [`repo_name`].
pub fn extract_repo_name(url: &str) -> (r: String)
    ensures
        r@ == repo_name(url@),
{
    let cs = chars_of(url);
    let suffix = chars_of(".git");
    proof {
        reveal_strlit(".git");
        assert(suffix@ =~= seq!['.', 'g', 'i', 't']);
    }
    let mut end = cs.len();
    assert(cs@.take(end as int) =~= cs@);
    loop
        invariant
            end <= cs.len(),
            suffix@ == seq!['.', 'g', 'i', 't'],
            trim_git_suffixes(cs@) == trim_git_suffixes(cs@.take(end as int)),
        ensures
            end <= cs.len(),
            trim_git_suffixes(cs@) == cs@.take(end as int),
        decreases end,
    {
        let prefix = slice_chars(&cs, 0, end);
        if end >= 4 && chars_end_with(&prefix, &suffix) {
            assert(cs@.take(end as int).take(end - 4) =~= cs@.take(end - 4));
            end = end - 4;
        } else {
            assert(prefix@ =~= cs@.take(end as int));
            assert(!(prefix@.len() >= 4 && prefix@.skip(prefix@.len() - 4) == seq!['.', 'g', 'i', 't']));
            break;
        }
    }
    let ghost t = cs@.take(end as int);
    let mut start = end;
    assert(cs@.subrange(start as int, end as int) =~= Seq::<char>::empty());
    assert(cs@.take(start as int) =~= t);
    while start > 0 && cs[start - 1] != '/'
        invariant
            start <= end <= cs.len(),
            t == cs@.take(end as int),
            after_last_slash(t) == after_last_slash(cs@.take(start as int)) + cs@.subrange(
                start as int,
                end as int,
            ),
        decreases start,
    {
        let ghost p = cs@.take(start as int);
        assert(p.drop_last() =~= cs@.take(start - 1));
        assert(p.last() == cs@[start - 1]);
        assert(cs@.subrange(start - 1, end as int) =~= seq![cs@[start - 1]] + cs@.subrange(
            start as int,
            end as int,
        ));
        assert(after_last_slash(p) == after_last_slash(cs@.take(start - 1)).push(cs@[start - 1]));
        assert(after_last_slash(cs@.take(start - 1)).push(cs@[start - 1]) + cs@.subrange(
            start as int,
            end as int,
        ) =~= after_last_slash(cs@.take(start - 1)) + cs@.subrange(start - 1, end as int));
        start = start - 1;
    }
    assert(after_last_slash(cs@.take(start as int)) =~= Seq::<char>::empty());
    let name = slice_chars(&cs, start, end);
    string_of(&name)
}

/// A repository name never contains `/`.
pub proof fn law_repo_name_has_no_slash(url: Seq<char>)
    ensures
        forall|i: int| 0 <= i < repo_name(url).len() ==> repo_name(url)[i] != '/',
{
    lemma_after_last_slash_no_slash(trim_git_suffixes(url));
}

proof fn lemma_after_last_slash_no_slash(s: Seq<char>)
    ensures
        forall|i: int| 0 <= i < after_last_slash(s).len() ==> after_last_slash(s)[i] != '/',
    decreases s.len(),
{
    if s.len() > 0 && s.last() != '/' {
        lemma_after_last_slash_no_slash(s.drop_last());
        let prev = after_last_slash(s.drop_last());
        assert forall|i: int| 0 <= i < after_last_slash(s).len() implies after_last_slash(s)[i] != '/' by {
            if i < prev.len() {
                assert(after_last_slash(s)[i] == prev[i]);
            }
        }
    }
}

/// A directory `name-version` of the registry cache belongs to the crate
/// `name`, and to the requested version when one is given.
pub open spec fn registry_dir_matches(dir_name: Seq<char>, name: Seq<char>, version: Option<Seq<char>>) -> bool {
    starts_with(dir_name, name + seq!['-']) && match version {
        Some(v) => dir_name.skip(name.len() + 1int) == v,
        None => true,
    }
}

/// Whether a registry cache directory is the requested crate; see [`registry_dir_matches`].
pub fn registry_dir_match(dir_name: &str, name: &str, version: Option<&str>) -> (r: bool)
    ensures
        r == registry_dir_matches(dir_name@, name@, match version {
            Some(v) => Some(v@),
            None => None,
        }),
{
    let d = chars_of(dir_name);
    let mut prefix = name.to_owned();
    push_char(&mut prefix, '-');
    let p = chars_of(prefix.as_str());
    assert(p@ =~= name@ + seq!['-']);
    if !chars_start_with(&d, &p) {
        return false;
    }
    match version {
        Some(v) => {
            let rest = slice_chars(&d, p.len(), d.len());
            assert(p@.len() == name@.len() + 1);
            assert(rest@ =~= d@.skip(name@.len() + 1int));
            crate::text::chars_eq(&rest, &chars_of(v))
        },
        None => true,
    }
}

/// The manifest of the scratch crate through which a crates.io crate is
/// fetched: a package `fetch-<name>` that depends on `name` at the requested
/// version, or at any version (`*`).
pub open spec fn fetch_manifest_text(name: Seq<char>, version: Option<Seq<char>>) -> Seq<char> {
    let v = match version {
        Some(v) => v,
        None => "*"@,
    };
    "[package]\nname = \"fetch-"@ + name + "\"\nversion = \"0.0.0\"\nedition = \"2021\"\n\n[dependencies]\n"@
        + name + " = \""@ + v + "\"\n"@
}

/// The scratch manifest for fetching `name` is the package `fetch-<name>`,
/// and it ends with the `[dependencies]` section holding the single line
/// `name = "v"`, where `v` is the requested version, or `*` without one.
pub proof fn law_fetch_manifest_depends_on_crate(name: Seq<char>, version: Option<Seq<char>>)
    ensures
        ({
            let text = fetch_manifest_text(name, version);
            let v = match version {
                Some(v) => v,
                None => "*"@,
            };
            let tail = "[dependencies]\n"@ + name + " = \""@ + v + "\"\n"@;
            let head = "[package]\nname = \"fetch-"@ + name + "\"\n"@;
            &&& text.len() >= head.len() + tail.len()
            &&& text.subrange(0, head.len() as int) == head
            &&& text.subrange(text.len() - tail.len(), text.len() as int) == tail
        }),
{
    let v = match version {
        Some(v) => v,
        None => "*"@,
    };
    let a = "[package]\nname = \"fetch-"@;
    let b = "\"\nversion = \"0.0.0\"\nedition = \"2021\"\n\n[dependencies]\n"@;
    let deps = "[dependencies]\n"@;
    let nl = "\"\n"@;
    reveal_strlit("[package]\nname = \"fetch-");
    reveal_strlit("\"\nversion = \"0.0.0\"\nedition = \"2021\"\n\n[dependencies]\n");
    reveal_strlit("[dependencies]\n");
    reveal_strlit("\"\n");
    let mid = "\"\nversion = \"0.0.0\"\nedition = \"2021\"\n\n"@;
    reveal_strlit("\"\nversion = \"0.0.0\"\nedition = \"2021\"\n\n");
    assert(b =~= mid + deps);
    let text = fetch_manifest_text(name, version);
    let rest = name + " = \""@ + v + nl;
    let tail = deps + rest;
    let head = a + name + nl;
    assert(text =~= a + name + mid + tail);
    assert(nl =~= mid.subrange(0, 2));
    assert(text.subrange(0, head.len() as int) =~= head);
    assert(text.subrange(text.len() - tail.len(), text.len() as int) =~= tail);
    assert(tail =~= "[dependencies]\n"@ + name + " = \""@ + v + "\"\n"@);
}

/// The manifest of the fetching crate; see [`fetch_manifest_text`].
pub fn fetch_manifest(name: &str, version: Option<&str>) -> (r: String)
    ensures
        r@ == fetch_manifest_text(name@, match version {
            Some(v) => Some(v@),
            None => None,
        }),
{
    let mut r = "[package]\nname = \"fetch-".to_owned();
    r.append(name);
    r.append("\"\nversion = \"0.0.0\"\nedition = \"2021\"\n\n[dependencies]\n");
    r.append(name);
    r.append(" = \"");
    match version {
        Some(v) => r.append(v),
        None => r.append("*"),
    }
    r.append("\"\n");
    r
}

/// The directory names used while fetching `name` from crates.io: the scratch
/// crate `fetch-<name>` and the copy `crate-<name>`.
pub fn crates_io_dir_names(name: &str) -> (r: (String, String))
    ensures
        r.0@ == "fetch-"@ + name@,
        r.1@ == "crate-"@ + name@,
{
    let mut fetch_dir = "fetch-".to_owned();
    fetch_dir.append(name);
    let mut crate_dir = "crate-".to_owned();
    crate_dir.append(name);
    (fetch_dir, crate_dir)
}

/// The name of the directory a git URL is cloned into: `git-` and the URL's hash.
pub fn git_clone_dir_name(url: &str) -> (r: String)
    ensures
        r@ == "git-"@ + url_hash_text(url@),
{
    let mut r = "git-".to_owned();
    let h = simple_hash(url);
    r.append(h.as_str());
    r
}

/// The arguments of the `git` command that clones `url` (shallowly, at
/// `reference` when one is given); the target directory follows them.
pub fn git_clone_args(url: &str, reference: Option<&str>) -> (r: Vec<String>)
    ensures
        crate::text::string_views(r@) == seq!["clone"@, "--depth=1"@] + (match reference {
            Some(x) => seq!["--branch"@, x@],
            None => Seq::empty(),
        }) + seq![url@],
{
    let mut r: Vec<String> = Vec::new();
    r.push("clone".to_owned());
    r.push("--depth=1".to_owned());
    match reference {
        Some(x) => {
            r.push("--branch".to_owned());
            r.push(x.to_owned());
        },
        None => {},
    }
    r.push(url.to_owned());
    assert(crate::text::string_views(r@) =~= seq!["clone"@, "--depth=1"@] + (match reference {
        Some(x) => seq!["--branch"@, x@],
        None => Seq::empty(),
    }) + seq![url@]);
    r
}

/// The cache directory name of a URL is exactly 16 characters, each a
/// lowercase hexadecimal digit.
pub proof fn law_hash_text_is_hex(url: Seq<char>)
    ensures
        url_hash_text(url).len() == 16,
        forall|i: int| 0 <= i < 16 ==> {
            let c = #[trigger] url_hash_text(url)[i];
            ('0' <= c && c <= '9') || ('a' <= c && c <= 'f')
        },
{
    lemma_hex_digits_are_hex(hash_of_bytes(vstd::utf8::encode_utf8(url)) as nat, 16);
}

proof fn lemma_hex_digits_are_hex(n: nat, count: nat)
    ensures
        hex_digits(n, count).len() == count,
        forall|i: int| 0 <= i < count ==> {
            let c = #[trigger] hex_digits(n, count)[i];
            ('0' <= c && c <= '9') || ('a' <= c && c <= 'f')
        },
    decreases count,
{
    if count > 0 {
        lemma_hex_digits_are_hex(n / 16, (count - 1) as nat);
        let d = n % 16;
        assert(d < 16);
        let prev = hex_digits(n / 16, (count - 1) as nat);
        assert forall|i: int| 0 <= i < count implies {
            let c = #[trigger] hex_digits(n, count)[i];
            ('0' <= c && c <= '9') || ('a' <= c && c <= 'f')
        } by {
            if i < count - 1 {
                assert(hex_digits(n, count)[i] == prev[i]);
            } else {
                assert(hex_digits(n, count)[i] == hex_char(d));
            }
        }
    }
}

/// A registry cache directory belongs to the crate `name` at version `v`
/// exactly when it is named `name-v`; without a requested version, exactly
/// when its name starts with `name-`.
pub proof fn law_registry_dir(dir_name: Seq<char>, name: Seq<char>, v: Seq<char>)
    ensures
        registry_dir_matches(dir_name, name, Some(v)) <==> dir_name == name + seq!['-'] + v,
        registry_dir_matches(dir_name, name, None) <==> (name.len() < dir_name.len() && dir_name.take(
            name.len() as int,
        ) == name && dir_name[name.len() as int] == '-'),
{
    let p = name + seq!['-'];
    if dir_name == name + seq!['-'] + v {
        assert(dir_name.take(p.len() as int) =~= p);
        assert(dir_name.skip(name.len() + 1int) =~= v);
    }
    if registry_dir_matches(dir_name, name, Some(v)) {
        assert(dir_name =~= dir_name.take(p.len() as int) + dir_name.skip(name.len() + 1int));
    }
    if starts_with(dir_name, p) {
        assert(p.take(name.len() as int) =~= name);
        assert(p[name.len() as int] == '-');
        assert(dir_name.take(name.len() as int) =~= dir_name.take(p.len() as int).take(name.len() as int));
        assert(dir_name[name.len() as int] == dir_name.take(p.len() as int)[name.len() as int]);
    }
    if name.len() < dir_name.len() && dir_name.take(name.len() as int) == name && dir_name[name.len() as int] == '-' {
        assert(dir_name.take(p.len() as int) =~= p);
    }
}

proof fn lemma_after_last_slash_tail(a: Seq<char>, n: Seq<char>)
    requires
        lacks_char(n, '/'),
    ensures
        after_last_slash(a + seq!['/'] + n) == n,
    decreases n.len(),
{
    let s = a + seq!['/'] + n;
    if n.len() == 0 {
        assert(s.last() == '/');
    } else {
        assert(s.drop_last() =~= a + seq!['/'] + n.drop_last());
        lemma_after_last_slash_tail(a, n.drop_last());
        assert(n.drop_last().push(n.last()) =~= n);
    }
}

/// The repository name of `.../name` and of `.../name.git` is `name`, for a
/// name without `/` that does not itself end in `.git`.
pub proof fn law_repo_name_of_url(prefix: Seq<char>, name: Seq<char>)
    requires
        lacks_char(name, '/'),
        !(name.len() >= 4 && name.skip(name.len() - 4) == seq!['.', 'g', 'i', 't']),
    ensures
        repo_name(prefix + seq!['/'] + name) == name,
        repo_name(prefix + seq!['/'] + name + ".git"@) == name,
{
    reveal_strlit(".git");
    let s = prefix + seq!['/'] + name;
    let g = s + ".git"@;
    assert(g.skip(g.len() - 4) =~= seq!['.', 'g', 'i', 't']);
    assert(g.take(g.len() - 4) =~= s);
    if s.len() >= 4 && s.skip(s.len() - 4) == seq!['.', 'g', 'i', 't'] {
        if name.len() >= 4 {
            assert(s.skip(s.len() - 4) =~= name.skip(name.len() - 4));
        } else {
            let k = s.len() - 1 - name.len();
            assert(s[k] == '/');
            assert(s.skip(s.len() - 4)[k - (s.len() - 4)] == s[k]);
        }
    }
    assert(trim_git_suffixes(s) == s);
    lemma_after_last_slash_tail(prefix, name);
}

} // verus!
