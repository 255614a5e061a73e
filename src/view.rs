use vstd::prelude::*;
use vstd::view::View as _;

verus! {

/// A compiled page: its URL path and its fully rendered HTML document.
#[derive(Clone, Debug, PartialEq, Eq)]
pub struct View {
    pub web_path: String,
    pub source: String,
}

/// Index of the `.` that starts the extension of the last path component of
/// `p[0..n]`, searching backwards and stopping at the first `/`.
pub open spec fn extension_dot(p: Seq<char>, n: int) -> Option<int>
    decreases n,
{
    if n <= 0 {
        None
    } else if p[n - 1] == '/' {
        None
    } else if p[n - 1] == '.' {
        Some(n - 1)
    } else {
        extension_dot(p, n - 1)
    }
}

/// `p` without the trailing extension of its last component (unchanged if it has none).
pub open spec fn strip_extension(p: Seq<char>) -> Seq<char> {
    match extension_dot(p, p.len() as int) {
        Some(i) => p.subrange(0, i),
        None => p,
    }
}

/// `dir` is a prefix of `p`.
pub open spec fn has_prefix(p: Seq<char>, dir: Seq<char>) -> bool {
    dir.len() <= p.len() && p.subrange(0, dir.len() as int) == dir
}

/// The part of `p` below the directory `dir`, if `p` lies inside `dir`.
pub open spec fn relative_to(dir: Seq<char>, p: Seq<char>) -> Option<Seq<char>> {
    if dir.len() > 0 && dir.last() == '/' && has_prefix(p, dir) {
        Some(p.subrange(dir.len() as int, p.len() as int))
    } else if dir.len() < p.len() && has_prefix(p, dir) && p[dir.len() as int] == '/' {
        Some(p.subrange(dir.len() + 1int, p.len() as int))
    } else {
        None
    }
}

/// The URL path of the source file `p`: its path relative to the content
/// directory `dir` (or the whole path, for a file outside it), without the
/// extension, after a leading `/`.
pub open spec fn web_path_of(dir: Seq<char>, p: Seq<char>) -> Seq<char> {
    let rel = match relative_to(dir, p) {
        Some(r) => r,
        None => p,
    };
    seq!['/'] + strip_extension(rel)
}

/// The page name shown in a document title: the URL path without its leading `/`.
pub open spec fn page_name(web_path: Seq<char>) -> Seq<char> {
    if web_path.len() > 0 && web_path[0] == '/' {
        web_path.subrange(1, web_path.len() as int)
    } else {
        web_path
    }
}

/// The document title of the page at `web_path` on the site `site_title`.
pub open spec fn page_title(web_path: Seq<char>, site_title: Seq<char>) -> Seq<char> {
    page_name(web_path) + " on "@ + site_title
}

/// The document that wraps the fragment `body`: the stylesheet, the title,
/// the header and the fragment, each inserted verbatim.
pub open spec fn document(
    theme: Seq<char>,
    title: Seq<char>,
    header: Seq<char>,
    body: Seq<char>,
) -> Seq<char> {
    "\n    <style>\n\n    "@ + theme + "\n\n    </style>\n\n    <html>\n\n    <head>\n\n    <title>"@
        + title + "</title>\n\n    </head>\n\n    <body>\n\n    <header>\n\n    "@ + header
        + "\n\n    </header>\n\n    "@ + body + "\n\n    </body>\n\n    </html>\n    "@
}

/// Where the extension of the last component of `s` begins.
fn find_extension_dot(s: &str) -> (r: Option<usize>)
    ensures
        match r {
            Some(i) => i < s@.len() && extension_dot(s@, s@.len() as int) == Some(i as int),
            None => extension_dot(s@, s@.len() as int) is None,
        },
{
    let n = s.unicode_len();
    let mut i: usize = n;
    while i > 0
        invariant
            i <= n,
            n == s@.len(),
            extension_dot(s@, n as int) == extension_dot(s@, i as int),
        decreases i,
    {
        let c = s.get_char(i - 1);
        if c == '/' {
            return None;
        }
        if c == '.' {
            return Some(i - 1);
        }
        i = i - 1;
    }
    None
}

/// Whether `dir` is a prefix of `p`.
fn starts_with(p: &str, dir: &str) -> (r: bool)
    ensures
        r == has_prefix(p@, dir@),
{
    let pn = p.unicode_len();
    let dn = dir.unicode_len();
    if dn > pn {
        return false;
    }
    let head = p.substring_char(0, dn).to_owned();
    let d = dir.to_owned();
    head == d
}

/// The part of `p` below the directory `dir`, if `p` lies inside it.
fn relative_part<'a>(dir: &str, p: &'a str) -> (r: Option<&'a str>)
    ensures
        match r {
            Some(x) => relative_to(dir@, p@) == Some(x@),
            None => relative_to(dir@, p@) is None,
        },
{
    let pn = p.unicode_len();
    let dn = dir.unicode_len();
    let inside = starts_with(p, dir);
    if dn > 0 && dir.get_char(dn - 1) == '/' && inside {
        Some(p.substring_char(dn, pn))
    } else if dn < pn && inside && p.get_char(dn) == '/' {
        Some(p.substring_char(dn + 1, pn))
    } else {
        None
    }
}

/// The URL path of the source file `path`, for the content directory `content_dir`.
pub fn web_path(content_dir: &str, path: &str) -> (r: String)
    ensures
        r@ == web_path_of(content_dir@, path@),
{
    let rel = match relative_part(content_dir, path) {
        Some(x) => x,
        None => path,
    };
    let stem = match find_extension_dot(rel) {
        Some(i) => rel.substring_char(0, i),
        None => rel,
    };
    let mut r = "/".to_owned();
    proof {
        reveal_strlit("/");
        assert("/"@ == seq!['/']);
    }
    r.append(stem);
    r
}

/// The title of the page at `web_path` on the site `site_title`.
fn title_of(web_path: &str, site_title: &str) -> (r: String)
    ensures
        r@ == page_title(web_path@, site_title@),
{
    let n = web_path.unicode_len();
    let mut r = if n > 0 && web_path.get_char(0) == '/' {
        web_path.substring_char(1, n).to_owned()
    } else {
        web_path.to_owned()
    };
    r.append(" on ");
    r.append(site_title);
    r
}

/// Assembles the document for the fragment `src`.
pub fn generate_view(src: &str, theme: &str, title: &str, header: &str) -> (r: String)
    ensures
        r@ == document(theme@, title@, header@, src@),
{
    let mut r = "\n    <style>\n\n    ".to_owned();
    r.append(theme);
    r.append("\n\n    </style>\n\n    <html>\n\n    <head>\n\n    <title>");
    r.append(title);
    r.append("</title>\n\n    </head>\n\n    <body>\n\n    <header>\n\n    ");
    r.append(header);
    r.append("\n\n    </header>\n\n    ");
    r.append(src);
    r.append("\n\n    </body>\n\n    </html>\n    ");
    r
}

impl View {
    /// The page built from the source file `path`, whose text is `fragment`.
    pub fn build(
        path: &str,
        content_dir: &str,
        fragment: &str,
        theme: &str,
        site_title: &str,
        header: &str,
    ) -> (r: View)
        ensures
            r.web_path@ == web_path_of(content_dir@, path@),
            r.source@ == document(
                theme@,
                page_title(web_path_of(content_dir@, path@), site_title@),
                header@,
                fragment@,
            ),
    {
        let web_path = web_path(content_dir, path);
        let title = title_of(web_path.as_str(), site_title);
        let source = generate_view(fragment, theme, title.as_str(), header);
        View { web_path, source }
    }
}

/// Searching back from `n`, the extension starts at the dot `d` when no `.`
/// or `/` stands between them.
proof fn lemma_dot_found(q: Seq<char>, d: int, n: int)
    requires
        0 <= d < n <= q.len(),
        q[d] == '.',
        forall|j: int| d < j < n ==> q[j] != '.' && q[j] != '/',
    ensures
        extension_dot(q, n) == Some(d),
    decreases n - d,
{
    if n - 1 > d {
        lemma_dot_found(q, d, n - 1);
    }
}

/// A file `name.ext` directly inside the content directory has the URL path
/// `/name`, whatever its extension, when the extension holds no `.` or `/`
/// and the directory is named without a trailing `/`.
pub proof fn lemma_content_file_web_path(dir: Seq<char>, name: Seq<char>, ext: Seq<char>)
    requires
        !(dir.len() > 0 && dir.last() == '/'),
        forall|j: int| 0 <= j < name.len() ==> name[j] != '/',
        forall|j: int| 0 <= j < ext.len() ==> ext[j] != '.' && ext[j] != '/',
    ensures
        web_path_of(dir, dir + seq!['/'] + name + seq!['.'] + ext) == seq!['/'] + name,
{
    let p = dir + seq!['/'] + name + seq!['.'] + ext;
    let rel = name + seq!['.'] + ext;
    assert(p.subrange(0, dir.len() as int) == dir);
    assert(p[dir.len() as int] == '/');
    assert(p.subrange(dir.len() + 1int, p.len() as int) == rel);
    assert(relative_to(dir, p) == Some(rel));
    assert forall|j: int| name.len() < j < rel.len() implies rel[j] != '.' && rel[j] != '/' by {
        assert(rel[j] == ext[j - name.len() - 1]);
    }
    lemma_dot_found(rel, name.len() as int, rel.len() as int);
    assert(rel.subrange(0, name.len() as int) == name);
}

} // verus!
