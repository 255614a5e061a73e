use vstd::prelude::*;
use vstd::utf8::{decode_utf8, valid_utf8};
use vstd::view::View as _;

use crate::view::{document, page_title, web_path_of, View};

verus! {

/// The fixed entry file of the home page, at the project root.
pub const HOME_FILE: &'static str = "home.html";

/// The fixed entry file of the not-found page, at the project root.
pub const NOT_FOUND_FILE: &'static str = "404.html";

/// Why a site could not be compiled.
#[derive(Clone, Debug, PartialEq, Eq)]
pub enum BuildError {
    /// The file at this path could not be read.
    ReadFailed(String),
    /// The file at this path is not valid UTF-8.
    NotUtf8(String),
    /// The content directory could not be listed.
    DirUnreadable,
}

/// A file as the filesystem gave it: its path, whether it is a directory,
/// and its bytes (`None` when it could not be read).
#[derive(Clone, Debug)]
pub struct SourceFile {
    pub path: String,
    pub is_dir: bool,
    pub contents: Option<Vec<u8>>,
}

/// The text of a source file, or the error that reading it gives.
pub open spec fn loaded(f: SourceFile) -> Result<Seq<char>, BuildError> {
    match f.contents {
        None => Err(BuildError::ReadFailed(f.path)),
        Some(b) => if valid_utf8(b@) {
            Ok(decode_utf8(b@))
        } else {
            Err(BuildError::NotUtf8(f.path))
        },
    }
}

/// The URL path and document of the page built from the file at `path`.
pub open spec fn page(
    dir: Seq<char>,
    path: Seq<char>,
    fragment: Seq<char>,
    theme: Seq<char>,
    site_title: Seq<char>,
    header: Seq<char>,
) -> (Seq<char>, Seq<char>) {
    let w = web_path_of(dir, path);
    (w, document(theme, page_title(w, site_title), header, fragment))
}

/// The entries of a listing that are files, in order.
pub open spec fn content_files(es: Seq<SourceFile>) -> Seq<SourceFile>
    decreases es.len(),
{
    if es.len() == 0 {
        seq![]
    } else if es.last().is_dir {
        content_files(es.drop_last())
    } else {
        content_files(es.drop_last()).push(es.last())
    }
}

/// The pages of the content files of a listing, in order, or the error of
/// the first file that cannot be loaded. Directories are skipped.
pub open spec fn content_pages(
    dir: Seq<char>,
    es: Seq<SourceFile>,
    theme: Seq<char>,
    site_title: Seq<char>,
    header: Seq<char>,
) -> Result<Seq<(Seq<char>, Seq<char>)>, BuildError>
    decreases es.len(),
{
    if es.len() == 0 {
        Ok(seq![])
    } else {
        match content_pages(dir, es.drop_last(), theme, site_title, header) {
            Err(e) => Err(e),
            Ok(ps) => {
                let f = es.last();
                if f.is_dir {
                    Ok(ps)
                } else {
                    match loaded(f) {
                        Err(e) => Err(e),
                        Ok(t) => Ok(ps.push(page(dir, f.path@, t, theme, site_title, header))),
                    }
                }
            },
        }
    }
}

/// The whole page set: the home page, the not-found page, then one page per
/// content file; or the first error, checking the home file, the theme, the
/// header, the not-found file, the listing and the content files in turn.
pub open spec fn compiled(
    dir: Seq<char>,
    theme: SourceFile,
    site_title: Seq<char>,
    header: SourceFile,
    home: SourceFile,
    not_found: SourceFile,
    listing: Option<Seq<SourceFile>>,
) -> Result<Seq<(Seq<char>, Seq<char>)>, BuildError> {
    match loaded(home) {
        Err(e) => Err(e),
        Ok(h) => match loaded(theme) {
            Err(e) => Err(e),
            Ok(th) => match loaded(header) {
                Err(e) => Err(e),
                Ok(hd) => match loaded(not_found) {
                    Err(e) => Err(e),
                    Ok(nf) => match listing {
                        None => Err(BuildError::DirUnreadable),
                        Some(es) => match content_pages(dir, es, th, site_title, hd) {
                            Err(e) => Err(e),
                            Ok(ps) => Ok(
                                seq![
                                    page(dir, home.path@, h, th, site_title, hd),
                                    page(dir, not_found.path@, nf, th, site_title, hd),
                                ] + ps,
                            ),
                        },
                    },
                },
            },
        },
    }
}

/// URL path and document of each page.
pub open spec fn pages_view(v: Seq<View>) -> Seq<(Seq<char>, Seq<char>)> {
    v.map_values(|p: View| (p.web_path@, p.source@))
}

/// The outcome of a compilation, with each page as its URL path and document.
pub open spec fn outcome(r: Result<Vec<View>, BuildError>) -> Result<
    Seq<(Seq<char>, Seq<char>)>,
    BuildError,
> {
    match r {
        Ok(v) => Ok(pages_view(v@)),
        Err(e) => Err(e),
    }
}

/// Relies on `String::from_utf8`: it succeeds exactly on valid UTF-8, and
/// the string holds the characters that the bytes encode.
#[verifier::external_body]
fn utf8_text(bytes: &Vec<u8>) -> (r: Option<String>)
    ensures
        r is Some <==> valid_utf8(bytes@),
        r is Some ==> r->0@ == decode_utf8(bytes@),
{
    String::from_utf8(bytes.clone()).ok()
}

/// The text of a source file.
pub fn read_text(f: &SourceFile) -> (r: Result<String, BuildError>)
    ensures
        match r {
            Ok(s) => loaded(*f) == Ok::<Seq<char>, BuildError>(s@),
            Err(e) => loaded(*f) == Err::<Seq<char>, BuildError>(e),
        },
{
    match &f.contents {
        None => Err(BuildError::ReadFailed(f.path.clone())),
        Some(b) => match utf8_text(b) {
            Some(s) => Ok(s),
            None => Err(BuildError::NotUtf8(f.path.clone())),
        },
    }
}

/// Once the pages of a prefix of a listing fail, so do those of every longer prefix.
proof fn lemma_content_error_persists(
    dir: Seq<char>,
    es: Seq<SourceFile>,
    theme: Seq<char>,
    site_title: Seq<char>,
    header: Seq<char>,
    m: int,
    n: int,
)
    requires
        0 <= m <= n <= es.len(),
        content_pages(dir, es.take(m), theme, site_title, header) is Err,
    ensures
        content_pages(dir, es.take(n), theme, site_title, header) == content_pages(
            dir,
            es.take(m),
            theme,
            site_title,
            header,
        ),
    decreases n - m,
{
    if m < n {
        lemma_content_error_persists(dir, es, theme, site_title, header, m, n - 1);
        assert(es.take(n).drop_last() == es.take(n - 1));
    }
}

/// Compiles the site: the home page, the not-found page and a page for each
/// file of the content directory `dir`, whose entries are `listing` (`None`
/// when it could not be listed). Subdirectories are skipped, and the files
/// after them still compiled.
pub fn make_views(
    dir: &str,
    theme: &SourceFile,
    web_title: &str,
    header: &SourceFile,
    home: &SourceFile,
    not_found: &SourceFile,
    listing: &Option<Vec<SourceFile>>,
) -> (r: Result<Vec<View>, BuildError>)
    ensures
        outcome(r) == compiled(
            dir@,
            *theme,
            web_title@,
            *header,
            *home,
            *not_found,
            match listing {
                Some(es) => Some(es@),
                None => None,
            },
        ),
{
    let home_text = match read_text(home) {
        Ok(t) => t,
        Err(e) => return Err(e),
    };
    let theme_text = match read_text(theme) {
        Ok(t) => t,
        Err(e) => return Err(e),
    };
    let header_text = match read_text(header) {
        Ok(t) => t,
        Err(e) => return Err(e),
    };
    let not_found_text = match read_text(not_found) {
        Ok(t) => t,
        Err(e) => return Err(e),
    };
    let es = match listing {
        Some(es) => es,
        None => return Err(BuildError::DirUnreadable),
    };
    let ghost th = theme_text@;
    let ghost hd = header_text@;
    let mut views: Vec<View> = Vec::new();
    views.push(
        View::build(
            home.path.as_str(),
            dir,
            home_text.as_str(),
            theme_text.as_str(),
            web_title,
            header_text.as_str(),
        ),
    );
    views.push(
        View::build(
            not_found.path.as_str(),
            dir,
            not_found_text.as_str(),
            theme_text.as_str(),
            web_title,
            header_text.as_str(),
        ),
    );
    let ghost fixed = seq![
        page(dir@, home.path@, home_text@, th, web_title@, hd),
        page(dir@, not_found.path@, not_found_text@, th, web_title@, hd),
    ];
    assert(pages_view(views@) == fixed + seq![]);
    let n = es.len();
    let mut i: usize = 0;
    while i < n
        invariant
            i <= n,
            n == es@.len(),
            theme_text@ == th,
            header_text@ == hd,
            loaded(*home) == Ok::<Seq<char>, BuildError>(home_text@),
            loaded(*theme) == Ok::<Seq<char>, BuildError>(th),
            loaded(*header) == Ok::<Seq<char>, BuildError>(hd),
            loaded(*not_found) == Ok::<Seq<char>, BuildError>(not_found_text@),
            *listing == Some(*es),
            content_pages(dir@, es@.take(i as int), th, web_title@, hd) is Ok,
            pages_view(views@) == fixed + content_pages(
                dir@,
                es@.take(i as int),
                th,
                web_title@,
                hd,
            )->Ok_0,
        decreases n - i,
    {
        let f = &es[i];
        assert(es@.take(i + 1int).drop_last() == es@.take(i as int));
        assert(es@.take(i + 1int).last() == *f);
        if !f.is_dir {
            let text = match read_text(f) {
                Ok(t) => t,
                Err(e) => {
                    proof {
                        assert(content_pages(dir@, es@.take(i + 1int), th, web_title@, hd) == Err::<
                            Seq<(Seq<char>, Seq<char>)>,
                            BuildError,
                        >(e));
                        lemma_content_error_persists(
                            dir@,
                            es@,
                            th,
                            web_title@,
                            hd,
                            i + 1,
                            n as int,
                        );
                        assert(es@.take(n as int) == es@);
                        assert(content_pages(dir@, es@, th, web_title@, hd) == Err::<
                            Seq<(Seq<char>, Seq<char>)>,
                            BuildError,
                        >(e));
                    }
                    return Err(e);
                },
            };
            let ghost before = views@;
            views.push(
                View::build(
                    f.path.as_str(),
                    dir,
                    text.as_str(),
                    theme_text.as_str(),
                    web_title,
                    header_text.as_str(),
                ),
            );
            assert(pages_view(views@) == pages_view(before).push(
                page(dir@, f.path@, text@, th, web_title@, hd),
            ));
        }
        i = i + 1;
    }
    assert(es@.take(n as int) == es@);
    Ok(views)
}

/// The content pages follow the content files one for one, each at the URL
/// path of its file.
proof fn lemma_content_pages_paths(
    dir: Seq<char>,
    es: Seq<SourceFile>,
    theme: Seq<char>,
    site_title: Seq<char>,
    header: Seq<char>,
)
    requires
        content_pages(dir, es, theme, site_title, header) is Ok,
    ensures
        ({
            let qs = content_pages(dir, es, theme, site_title, header)->Ok_0;
            let cf = content_files(es);
            &&& qs.len() == cf.len()
            &&& forall|k: int| 0 <= k < cf.len() ==> #[trigger] qs[k].0 == web_path_of(dir, cf[k].path@)
        }),
    decreases es.len(),
{
    if es.len() > 0 {
        lemma_content_pages_paths(dir, es.drop_last(), theme, site_title, header);
    }
}

/// Each content file gives exactly one page: the one after the two fixed
/// pages at its place among the content files, whose URL path is derived
/// from the file's path. There is no other page, and any other page with
/// the same URL path comes from a file whose path derives the same one.
pub proof fn lemma_one_page_per_file(
    dir: Seq<char>,
    theme: SourceFile,
    site_title: Seq<char>,
    header: SourceFile,
    home: SourceFile,
    not_found: SourceFile,
    es: Seq<SourceFile>,
)
    requires
        compiled(dir, theme, site_title, header, home, not_found, Some(es)) is Ok,
    ensures
        ({
            let ps = compiled(dir, theme, site_title, header, home, not_found, Some(es))->Ok_0;
            let cf = content_files(es);
            &&& ps.len() == 2 + cf.len()
            &&& ps[0].0 == web_path_of(dir, home.path@)
            &&& ps[1].0 == web_path_of(dir, not_found.path@)
            &&& forall|k: int|
                0 <= k < cf.len() ==> #[trigger] ps[2 + k].0 == web_path_of(dir, cf[k].path@)
            &&& forall|k: int, i: int|
                0 <= k < cf.len() && 0 <= i < ps.len() && i != 2 + k && #[trigger] ps[i].0
                    == web_path_of(dir, #[trigger] cf[k].path@) ==> {
                    ||| i == 0 && web_path_of(dir, home.path@) == web_path_of(dir, cf[k].path@)
                    ||| i == 1 && web_path_of(dir, not_found.path@) == web_path_of(dir, cf[k].path@)
                    ||| i >= 2 && web_path_of(dir, cf[i - 2].path@) == web_path_of(dir, cf[k].path@)
                }
        }),
{
    let th = loaded(theme)->Ok_0;
    let hd = loaded(header)->Ok_0;
    lemma_content_pages_paths(dir, es, th, site_title, hd);
    let ps = compiled(dir, theme, site_title, header, home, not_found, Some(es))->Ok_0;
    let qs = content_pages(dir, es, th, site_title, hd)->Ok_0;
    assert forall|k: int| 0 <= k < content_files(es).len() implies #[trigger] ps[2 + k].0
        == web_path_of(dir, content_files(es)[k].path@) by {
        assert(ps[2 + k] == qs[k]);
    }
    assert forall|i: int| 2 <= i < ps.len() implies ps[i].0 == web_path_of(
        dir,
        content_files(es)[i - 2].path@,
    ) by {
        assert(ps[2 + (i - 2)].0 == web_path_of(dir, content_files(es)[i - 2].path@));
    }
}

/// The page set always holds the home page in slot 0 and the not-found page
/// in slot 1; with an empty content directory it holds exactly these two.
pub proof fn lemma_fixed_slots(
    dir: Seq<char>,
    theme: SourceFile,
    site_title: Seq<char>,
    header: SourceFile,
    home: SourceFile,
    not_found: SourceFile,
    listing: Option<Seq<SourceFile>>,
)
    ensures
        ({
            let r = compiled(dir, theme, site_title, header, home, not_found, listing);
            let th = loaded(theme)->Ok_0;
            let hd = loaded(header)->Ok_0;
            &&& r is Ok ==> {
                &&& r->Ok_0.len() >= 2
                &&& r->Ok_0[0] == page(dir, home.path@, loaded(home)->Ok_0, th, site_title, hd)
                &&& r->Ok_0[1] == page(
                    dir,
                    not_found.path@,
                    loaded(not_found)->Ok_0,
                    th,
                    site_title,
                    hd,
                )
            }
            &&& (listing == Some(Seq::<SourceFile>::empty()) && loaded(home) is Ok && loaded(
                theme,
            ) is Ok && loaded(header) is Ok && loaded(not_found) is Ok) ==> r is Ok
                && r->Ok_0.len() == 2
        }),
{
}

/// Compiling twice from the same files gives the same pages, in the same order.
pub proof fn lemma_compile_repeatable(
    dir: Seq<char>,
    theme: SourceFile,
    site_title: Seq<char>,
    header: SourceFile,
    home: SourceFile,
    not_found: SourceFile,
    listing: Option<Seq<SourceFile>>,
    first: Result<Vec<View>, BuildError>,
    second: Result<Vec<View>, BuildError>,
)
    requires
        outcome(first) == compiled(dir, theme, site_title, header, home, not_found, listing),
        outcome(second) == compiled(dir, theme, site_title, header, home, not_found, listing),
    ensures
        outcome(first) == outcome(second),
{
}

} // verus!
