//! Which embedded asset a request under `/web/` asks for.

use vstd::prelude::*;

verus! {

/// The prefix under which the admin panel's assets are served.
pub open spec fn web_prefix() -> Seq<char> {
    seq!['/', 'w', 'e', 'b', '/']
}

/// A request path with every leading `/web/` taken off, as
/// `str::trim_start_matches("/web/")` does.
pub open spec fn strip_web_prefixes(path: Seq<char>) -> Seq<char>
    decreases path.len(),
{
    if path.len() >= 5 && path.take(5) == web_prefix() {
        strip_web_prefixes(path.skip(5))
    } else {
        path
    }
}

fn has_web_prefix_at(path: &str, i: usize, n: usize) -> (r: bool)
    requires
        n == path@.len(),
        i + 5 <= n,
    ensures
        r == (path@.skip(i as int).take(5) == web_prefix()),
{
    let r = path.get_char(i) == '/' && path.get_char(i + 1) == 'w' && path.get_char(i + 2) == 'e'
        && path.get_char(i + 3) == 'b' && path.get_char(i + 4) == '/';
    assert(r == (path@.skip(i as int).take(5) =~= web_prefix()));
    r
}

/// The asset that a request path under `/web/` names: the path with every
/// leading `/web/` taken off.
pub fn asset_path(path: &str) -> (r: &str)
    ensures
        r@ == strip_web_prefixes(path@),
{
    let n = path.unicode_len();
    let mut i: usize = 0;
    assert(path@.skip(0) =~= path@);
    while n - i >= 5 && has_web_prefix_at(path, i, n)
        invariant
            n == path@.len(),
            i <= n,
            strip_web_prefixes(path@) == strip_web_prefixes(path@.skip(i as int)),
        decreases n - i,
    {
        assert(path@.skip(i as int).skip(5) =~= path@.skip(i + 5));
        i = i + 5;
    }
    assert(path@.skip(i as int) =~= path@.subrange(i as int, n as int));
    path.substring_char(i, n)
}

/// The asset path is the request path with leading copies of `/web/`
/// taken off and nothing else: it is what follows a run of whole `/web/`
/// copies at the start of the path (the run starts with `/web/` and repeats
/// every five characters), and it does not itself start with `/web/`.
pub proof fn lemma_asset_path_strips_only_leading_prefixes(path: Seq<char>)
    ensures
        strip_web_prefixes(path).len() <= path.len(),
        strip_web_prefixes(path) == path.skip(path.len() - strip_web_prefixes(path).len()),
        (path.len() - strip_web_prefixes(path).len()) % 5 == 0,
        path.len() - strip_web_prefixes(path).len() >= 5 ==> path.take(5) == seq![
            '/',
            'w',
            'e',
            'b',
            '/',
        ],
        forall|i: int|
            5 <= i < path.len() - strip_web_prefixes(path).len() ==> #[trigger] path[i] == path[i
                - 5],
        !(strip_web_prefixes(path).len() >= 5 && strip_web_prefixes(path).take(5) == seq![
            '/',
            'w',
            'e',
            'b',
            '/',
        ]),
    decreases path.len(),
{
    let w = seq!['/', 'w', 'e', 'b', '/'];
    assert(w =~= web_prefix());
    if path.len() >= 5 && path.take(5) == web_prefix() {
        let rest = path.skip(5);
        lemma_asset_path_strips_only_leading_prefixes(rest);
        let r = strip_web_prefixes(rest);
        let m = rest.len() - r.len();
        assert(strip_web_prefixes(path) == r);
        assert(path.skip(path.len() - r.len()) =~= rest.skip(rest.len() - r.len()));
        assert forall|i: int| 5 <= i < m + 5 implies #[trigger] path[i] == path[i - 5] by {
            assert(path[i] == rest[i - 5]);
            if i < 10 {
                assert(rest.take(5) == w);
                assert(rest[i - 5] == rest.take(5)[i - 5]);
                assert(path[i - 5] == path.take(5)[i - 5]);
            } else {
                assert(rest[i - 5] == rest[i - 10]);
                assert(path[i - 5] == rest[i - 10]);
            }
        }
    } else {
        assert(path.skip(0) =~= path);
    }
}

/// A request path that is `/web/` followed by a path `p` that does not
/// start with `/web/` names exactly `p`.
pub proof fn lemma_asset_path_of_one_prefix(p: Seq<char>)
    requires
        !(p.len() >= 5 && p.take(5) == seq!['/', 'w', 'e', 'b', '/']),
    ensures
        strip_web_prefixes(seq!['/', 'w', 'e', 'b', '/'] + p) == p,
{
    let path = seq!['/', 'w', 'e', 'b', '/'] + p;
    assert(path.take(5) =~= web_prefix());
    assert(path.skip(5) =~= p);
    assert(web_prefix() =~= seq!['/', 'w', 'e', 'b', '/']);
    assert(!(p.len() >= 5 && p.take(5) == web_prefix()));
    assert(strip_web_prefixes(p) == p);
    assert(strip_web_prefixes(path) == strip_web_prefixes(p));
}

}
