//! The router: longest-prefix selection of a route for a request path.
//!
//! A route matches a path when the route's path is a prefix of it. Among
//! the routes that match, the one with the longest path is selected; of
//! several with the longest path, the one that was configured first.

use vstd::prelude::*;
use crate::server_config::RouterConfig;
use crate::text::{starts_with, text_bytes};
use crate::utf8::string_bytes;

verus! {

/// The paths of the routes, in order, as UTF-8 bytes.
pub open spec fn route_paths(routes: Seq<RouterConfig>) -> Seq<Seq<u8>> {
    Seq::new(routes.len(), |i: int| text_bytes(routes[i].path@))
}

/// Route `i` is the selected one: it matches, no matching route has a
/// longer path, and every matching route before it has a shorter one.
pub open spec fn is_selected(paths: Seq<Seq<u8>>, path: Seq<u8>, i: int) -> bool {
    &&& 0 <= i < paths.len()
    &&& paths[i].is_prefix_of(path)
    &&& forall|j: int|
        0 <= j < paths.len() && (#[trigger] paths[j]).is_prefix_of(path) ==> paths[j].len()
            <= paths[i].len()
    &&& forall|j: int|
        0 <= j < i && (#[trigger] paths[j]).is_prefix_of(path) ==> paths[j].len() < paths[i].len()
}

/// No route matches.
pub open spec fn none_matches(paths: Seq<Seq<u8>>, path: Seq<u8>) -> bool {
    forall|j: int| 0 <= j < paths.len() ==> !(#[trigger] paths[j]).is_prefix_of(path)
}

/// The route selected among the first `n`: the selection so far, replaced
/// by route `n - 1` when that one matches with a longer path.
pub open spec fn selected_upto(paths: Seq<Seq<u8>>, path: Seq<u8>, n: int) -> Option<int>
    decreases n,
{
    if n <= 0 {
        None
    } else {
        let before = selected_upto(paths, path, n - 1);
        if n <= paths.len() && paths[n - 1].is_prefix_of(path) && (before is None
            || paths[before->0].len() < paths[n - 1].len()) {
            Some(n - 1)
        } else {
            before
        }
    }
}

/// The route selected for `path`, if any route matches.
pub open spec fn selected(paths: Seq<Seq<u8>>, path: Seq<u8>) -> Option<int> {
    selected_upto(paths, path, paths.len() as int)
}

/// The selection among the first `n` routes is the longest match among
/// them, and the first of the longest.
pub proof fn lemma_selected_upto(paths: Seq<Seq<u8>>, path: Seq<u8>, n: int)
    requires
        0 <= n <= paths.len(),
    ensures
        match selected_upto(paths, path, n) {
            Some(i) => is_selected(paths.take(n), path, i),
            None => none_matches(paths.take(n), path),
        },
    decreases n,
{
    if n > 0 {
        lemma_selected_upto(paths, path, n - 1);
        let before = selected_upto(paths, path, n - 1);
        let short = paths.take(n - 1);
        let long = paths.take(n);
        assert forall|j: int| 0 <= j < n - 1 implies #[trigger] long[j] == short[j] by {}
        match selected_upto(paths, path, n) {
            Some(i) => {
                assert forall|j: int|
                    0 <= j < long.len() && (#[trigger] long[j]).is_prefix_of(path) implies long[j].len()
                    <= long[i].len() by {
                    if j < n - 1 {
                        assert(short[j].is_prefix_of(path));
                    }
                }
                assert forall|j: int|
                    0 <= j < i && (#[trigger] long[j]).is_prefix_of(path) implies long[j].len()
                    < long[i].len() by {
                    assert(short[j].is_prefix_of(path));
                }
            },
            None => {
                assert forall|j: int| 0 <= j < long.len() implies !(#[trigger] long[j]).is_prefix_of(
                    path,
                ) by {
                    if j < n - 1 {
                        assert(short[j] == long[j]);
                    }
                }
            },
        }
    }
}

/// Longest prefix wins: the selected route matches, no matching route has
/// a longer path, and among the longest the first one is taken. When
/// nothing is selected, no route matches.
pub proof fn lemma_longest_prefix_wins(paths: Seq<Seq<u8>>, path: Seq<u8>)
    ensures
        match selected(paths, path) {
            Some(i) => is_selected(paths, path, i),
            None => none_matches(paths, path),
        },
{
    lemma_selected_upto(paths, path, paths.len() as int);
    assert(paths.take(paths.len() as int) =~= paths);
}

/// At most one route is the selected one.
pub proof fn lemma_selection_is_unique(paths: Seq<Seq<u8>>, path: Seq<u8>, i: int, k: int)
    requires
        is_selected(paths, path, i),
        is_selected(paths, path, k),
    ensures
        i == k,
{
    if i < k {
        assert(paths[i].is_prefix_of(path));
    } else if k < i {
        assert(paths[k].is_prefix_of(path));
    }
}

/// Selects the route for a request path: the index of the route whose
/// path is the longest prefix of `path`, the first such route when several
/// are equally long; `None` when no route's path is a prefix of `path`.
pub fn select_route(routes: &Vec<RouterConfig>, path: &str) -> (r: Option<usize>)
    ensures
        match r {
            Some(i) => selected(route_paths(routes@), text_bytes(path@)) == Some(i as int)
                && is_selected(route_paths(routes@), text_bytes(path@), i as int),
            None => selected(route_paths(routes@), text_bytes(path@)) is None && none_matches(
                route_paths(routes@),
                text_bytes(path@),
            ),
        },
{
    let target = path.as_bytes();
    let ghost paths = route_paths(routes@);
    let mut best: Option<usize> = None;
    let mut best_len: usize = 0;
    let mut i: usize = 0;
    while i < routes.len()
        invariant
            i <= routes.len(),
            paths == route_paths(routes@),
            target@ == text_bytes(path@),
            match best {
                Some(b) => selected_upto(paths, target@, i as int) == Some(b as int) && b < i
                    && best_len == paths[b as int].len(),
                None => selected_upto(paths, target@, i as int) is None,
            },
        decreases routes.len() - i,
    {
        let candidate = string_bytes(&routes[i].path);
        assert(candidate@ == paths[i as int]);
        if starts_with(target, candidate) && (best.is_none() || best_len < candidate.len()) {
            best = Some(i);
            best_len = candidate.len();
        }
        i += 1;
    }
    proof {
        lemma_longest_prefix_wins(paths, target@);
    }
    best
}

} // verus!
