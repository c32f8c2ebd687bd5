//! The files of the web interface: which one a path means, and how long it may be cached.
use vstd::prelude::*;

use crate::text::{chars_of, occurs, occurs_at, same, text_of};

verus! {

/// The path without the prefix, as often as it stands in front.
pub open spec fn without_prefix(path: Seq<char>, prefix: Seq<char>) -> Seq<char>
    decreases path.len(),
{
    if prefix.len() > 0 && occurs_at(path, prefix, 0) {
        without_prefix(path.subrange(prefix.len() as int, path.len() as int), prefix)
    } else {
        path
    }
}

/// The path without the prefix, as often as it stands in front.
fn strip_repeated(path: &str, prefix: &str) -> (r: String)
    requires
        prefix@.len() > 0,
    ensures
        r@ == without_prefix(path@, prefix@),
{
    let v = chars_of(path);
    let p = chars_of(prefix);
    let n: usize = v.len();
    let mut from: usize = 0;
    proof {
        assert(v@.subrange(0, n as int) =~= v@);
    }
    while occurs(&v, &p, from)
        invariant
            n == v@.len(),
            from <= n,
            p@ == prefix@,
            p@.len() > 0,
            without_prefix(v@.subrange(from as int, n as int), prefix@) == without_prefix(
                v@,
                prefix@,
            ),
        ensures
            from <= n,
            !occurs_at(v@, prefix@, from as int),
            without_prefix(v@.subrange(from as int, n as int), prefix@) == without_prefix(
                v@,
                prefix@,
            ),
        decreases n - from,
    {
        proof {
            let s = v@.subrange(from as int, n as int);
            let m = prefix@.len() as int;
            assert(s.subrange(0, m) =~= v@.subrange(from as int, from + m));
            assert(s.subrange(m, s.len() as int) =~= v@.subrange(from + m, n as int));
        }
        from = from + p.len();
    }
    proof {
        let s = v@.subrange(from as int, n as int);
        let m = prefix@.len() as int;
        if occurs_at(s, prefix@, 0) {
            assert(s.subrange(0, m) =~= v@.subrange(from as int, from + m));
        }
    }
    text_of(&v, from, n)
}

/// The file that a path below `/admin/` means; nothing for the paths of the API.
pub open spec fn admin_file(path: Seq<char>) -> Option<Seq<char>> {
    let file = without_prefix(path, "/admin/"@);
    if occurs_at(file, "api/"@, 0) {
        None
    } else {
        Some(file)
    }
}

/// The file that a path below `/admin/` means; nothing for the paths of the API.
pub fn admin_asset(path: &str) -> (r: Option<String>)
    ensures
        crate::text::option_text(r) == admin_file(path@),
{
    proof {
        reveal_strlit("/admin/");
    }
    let file = strip_repeated(path, "/admin/");
    if occurs(&chars_of(file.as_str()), &chars_of("api/"), 0) {
        None
    } else {
        Some(file)
    }
}

/// The file that a path of an asset means: it has no slashes in front.
pub fn asset_path(path: &str) -> (r: String)
    ensures
        r@ == without_prefix(path@, "/"@),
{
    proof {
        reveal_strlit("/");
    }
    strip_repeated(path, "/")
}

/// The file is a page.
pub open spec fn is_page(path: Seq<char>) -> bool {
    path == "index.html"@ || occurs_at(path, ".html"@, path.len() - ".html"@.len())
}

/// How long a file may be cached: pages not at all, all else for a day.
pub fn cache_control(path: &str) -> (r: &'static str)
    ensures
        r@ == if is_page(path@) {
            "no-cache"@
        } else {
            "public, max-age=86400"@
        },
{
    let v = chars_of(path);
    let ending = chars_of(".html");
    let page = same(path, "index.html") || (v.len() >= ending.len() && occurs(
        &v,
        &ending,
        v.len() - ending.len(),
    ));
    if page {
        "no-cache"
    } else {
        "public, max-age=86400"
    }
}

/// Which file is served for a page of the interface, given whether the file and the start page
/// exist: the file, or else the start page, or else nothing.
pub fn serve_or_start_page(path: &str, found: bool, start_found: bool) -> (r: Option<String>)
    ensures
        crate::text::option_text(r) == if found {
            Some(path@)
        } else if start_found {
            Some("index.html"@)
        } else {
            None
        },
{
    if found {
        Some(path.to_owned())
    } else if start_found {
        Some("index.html".to_owned())
    } else {
        None
    }
}

/// A prefix is taken off a path as often as it stands at its front.
pub proof fn law_repeated_prefix_is_taken_off(path: Seq<char>, prefix: Seq<char>)
    requires
        prefix.len() > 0,
    ensures
        without_prefix(prefix + path, prefix) == without_prefix(path, prefix),
        !occurs_at(path, prefix, 0) ==> without_prefix(path, prefix) == path,
        !occurs_at(without_prefix(path, prefix), prefix, 0),
    decreases path.len(),
{
    let longer = prefix + path;
    assert(longer.subrange(0, prefix.len() as int) =~= prefix);
    assert(longer.subrange(prefix.len() as int, longer.len() as int) =~= path);
    if occurs_at(path, prefix, 0) {
        law_repeated_prefix_is_taken_off(
            path.subrange(prefix.len() as int, path.len() as int),
            prefix,
        );
    }
}

/// Under the admin pages lies every file but those of the interface.
pub proof fn law_interface_is_no_file(path: Seq<char>)
    requires
        !occurs_at(path, "/admin/"@, 0),
    ensures
        occurs_at(path, "api/"@, 0) ==> admin_file(path) is None,
        !occurs_at(path, "api/"@, 0) ==> admin_file(path) == Some(path),
        admin_file("/admin/"@ + path) == admin_file(path),
{
    reveal_strlit("/admin/");
    law_repeated_prefix_is_taken_off(path, "/admin/"@);
}

/// A file is a page exactly where its name ends with that of pages.
pub proof fn law_pages_go_by_their_ending(front: Seq<char>, path: Seq<char>)
    ensures
        is_page(front + ".html"@),
        is_page(path) ==> exists|f: Seq<char>| path == #[trigger] (f + ".html"@),
{
    let p = front + ".html"@;
    let n = ".html"@.len() as int;
    assert(p.subrange(p.len() - n, p.len() as int) =~= ".html"@);
    reveal_strlit("index.html");
    reveal_strlit(".html");
    if is_page(path) {
        if path == "index.html"@ {
            let f = seq!['i', 'n', 'd', 'e', 'x'];
            assert(path =~= f + ".html"@);
        } else {
            let f = path.subrange(0, path.len() - n);
            assert(path =~= f + ".html"@);
        }
    }
}

} // verus!
