use vstd::prelude::*;
use vstd::view::View as _;

use crate::view::View;

verus! {

/// Status of a served page.
pub const STATUS_OK: u16 = 200;

/// Status of the not-found page.
pub const STATUS_NOT_FOUND: u16 = 404;

/// Index of the first page among `pages[0..n]` whose URL path is `path`.
pub open spec fn first_match(pages: Seq<View>, path: Seq<char>, n: int) -> Option<int>
    decreases n,
{
    if n <= 0 {
        None
    } else {
        match first_match(pages, path, n - 1) {
            Some(i) => Some(i),
            None => if pages[n - 1].web_path@ == path {
                Some(n - 1)
            } else {
                None
            },
        }
    }
}

/// Status and body of the response to `method` on `path`: every request
/// but a `GET` gets the not-found page, `/` always gets the home page (slot
/// 0), any other path the first page with that URL path, or else the
/// not-found page (slot 1).
pub open spec fn response(method: Seq<char>, path: Seq<char>, pages: Seq<View>) -> (u16, Seq<char>) {
    if method != "GET"@ {
        (STATUS_NOT_FOUND, pages[1].source@)
    } else if path == "/"@ {
        (STATUS_OK, pages[0].source@)
    } else {
        match first_match(pages, path, pages.len() as int) {
            Some(i) => (STATUS_OK, pages[i].source@),
            None => (STATUS_NOT_FOUND, pages[1].source@),
        }
    }
}

/// Index of the first page whose URL path is `path`.
pub fn route(views: &Vec<View>, path: &str) -> (r: Option<usize>)
    ensures
        match r {
            Some(i) => i < views@.len() && first_match(views@, path@, views@.len() as int) == Some(
                i as int,
            ),
            None => first_match(views@, path@, views@.len() as int) is None,
        },
{
    let p = path.to_owned();
    let n = views.len();
    let mut i: usize = 0;
    while i < n
        invariant
            i <= n,
            n == views@.len(),
            p@ == path@,
            first_match(views@, path@, i as int) is None,
        decreases n - i,
    {
        if views[i].web_path == p {
            assert(first_match(views@, path@, i + 1int) == Some(i as int));
            proof {
                lemma_first_match_stable(views@, path@, i as int + 1, n as int);
            }
            return Some(i);
        }
        i = i + 1;
    }
    None
}

/// What `first_match` finds: a page at `path` with none before it, or no page at `path`.
proof fn lemma_first_match_meaning(pages: Seq<View>, path: Seq<char>, n: int)
    requires
        0 <= n <= pages.len(),
    ensures
        match first_match(pages, path, n) {
            Some(i) => 0 <= i < n && pages[i].web_path@ == path && forall|j: int|
                0 <= j < i ==> pages[j].web_path@ != path,
            None => forall|j: int| 0 <= j < n ==> pages[j].web_path@ != path,
        },
    decreases n,
{
    if n > 0 {
        lemma_first_match_meaning(pages, path, n - 1);
    }
}

/// Once a match is found among the first `m` pages, looking further changes nothing.
proof fn lemma_first_match_stable(pages: Seq<View>, path: Seq<char>, m: int, n: int)
    requires
        first_match(pages, path, m) is Some,
        m <= n,
    ensures
        first_match(pages, path, n) == first_match(pages, path, m),
    decreases n - m,
{
    if m < n {
        lemma_first_match_stable(pages, path, m, n - 1);
    }
}

/// Answers the request `method` `path` from the compiled pages: the status
/// code and the body to send.
pub fn dispatch(method: &str, path: &str, views: &Vec<View>) -> (r: (u16, String))
    requires
        views@.len() >= 2,
    ensures
        (r.0, r.1@) == response(method@, path@, views@),
{
    let m = method.to_owned();
    let get = "GET".to_owned();
    if !(m == get) {
        return (STATUS_NOT_FOUND, views[1].source.clone());
    }
    let p = path.to_owned();
    let root = "/".to_owned();
    if p == root {
        return (STATUS_OK, views[0].source.clone());
    }
    match route(views, path) {
        Some(i) => (STATUS_OK, views[i].source.clone()),
        None => (STATUS_NOT_FOUND, views[1].source.clone()),
    }
}

/// A `GET` of `/` always gets the home page, whatever URL path it has.
pub proof fn lemma_root_serves_home(pages: Seq<View>)
    requires
        pages.len() >= 2,
    ensures
        response("GET"@, "/"@, pages) == (STATUS_OK, pages[0].source@),
{
}

/// Every request whose method is not `GET` gets the not-found page.
pub proof fn lemma_other_methods_not_found(method: Seq<char>, path: Seq<char>, pages: Seq<View>)
    requires
        pages.len() >= 2,
        method != "GET"@,
    ensures
        response(method, path, pages) == (STATUS_NOT_FOUND, pages[1].source@),
{
}

/// A `GET` of the URL path of a page gets that page, when no page before it
/// has the same URL path and the path is not the root.
pub proof fn lemma_page_served(pages: Seq<View>, i: int)
    requires
        pages.len() >= 2,
        0 <= i < pages.len(),
        pages[i].web_path@ != "/"@,
        forall|j: int| 0 <= j < i ==> pages[j].web_path@ != pages[i].web_path@,
    ensures
        response("GET"@, pages[i].web_path@, pages) == (STATUS_OK, pages[i].source@),
{
    let u = pages[i].web_path@;
    lemma_first_match_meaning(pages, u, pages.len() as int);
    match first_match(pages, u, pages.len() as int) {
        Some(k) => {
            assert(!(k < i));
            assert(!(k > i));
        },
        None => {
            assert(pages[i].web_path@ != u);
        },
    }
}

/// A `GET` of a path other than the root that no page has gets the not-found page.
pub proof fn lemma_unknown_path_not_found(path: Seq<char>, pages: Seq<View>)
    requires
        pages.len() >= 2,
        path != "/"@,
        forall|j: int| 0 <= j < pages.len() ==> pages[j].web_path@ != path,
    ensures
        response("GET"@, path, pages) == (STATUS_NOT_FOUND, pages[1].source@),
{
    lemma_first_match_meaning(pages, path, pages.len() as int);
}

} // verus!
