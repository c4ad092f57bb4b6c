use crate::path::{split_slash, SegView};
use crate::table::{
    captures, captures_upto, later_overrides, route_matches, routes_conflict, seg_matches,
    seg_overlap, table_at, table_lookup, table_wf, Handler, RouteView,
};
use vstd::prelude::*;

verus! {

/// Whether no parameter name appears twice in a captured parameter list.
pub open spec fn distinct_keys(ps: Seq<(Seq<char>, Seq<char>)>) -> bool {
    forall|k1: int, k2: int|
        0 <= k1 < k2 < ps.len() ==> (#[trigger] ps[k1]).0 != (#[trigger] ps[k2]).0
}

/// An empty table matches no path at all: before any registration, every
/// lookup — exact or through either trailing-slash fallback — reports no
/// match.
pub proof fn lemma_fresh_table_no_match(path: Seq<char>)
    ensures
        table_lookup(Seq::<RouteView>::empty(), path) is None,
{
}

/// A lookup is a function of the table and the path alone: two lookups of
/// the same path with no registration in between return the same result.
pub proof fn lemma_lookup_idempotent(
    routes: Seq<RouteView>,
    path: Seq<char>,
    r1: Option<(Handler, Seq<(Seq<char>, Seq<char>)>)>,
    r2: Option<(Handler, Seq<(Seq<char>, Seq<char>)>)>,
)
    requires
        r1 == table_lookup(routes, path),
        r2 == table_lookup(routes, path),
    ensures
        r1 == r2,
{
}

/// An exact registration always takes precedence: when the path as given
/// matches, the lookup returns that match and consults no fallback, so
/// templates with and without a trailing separator each resolve to their
/// own handler.
pub proof fn lemma_exact_match_wins(routes: Seq<RouteView>, path: Seq<char>)
    requires
        table_at(routes, split_slash(path)) is Some,
    ensures
        table_lookup(routes, path) == table_at(routes, split_slash(path)),
{
}

/// With no exact match, a path with a trailing separator — other than the
/// root path — resolves as the path with that separator removed.
pub proof fn lemma_strip_fallback(routes: Seq<RouteView>, path: Seq<char>)
    requires
        table_at(routes, split_slash(path)) is None,
        path.len() > 1,
        path.last() == '/',
    ensures
        table_lookup(routes, path) == table_at(routes, split_slash(path.drop_last())),
{
}

/// With no exact match, a path without a trailing separator resolves as
/// the path with one appended.
pub proof fn lemma_append_fallback(routes: Seq<RouteView>, path: Seq<char>)
    requires
        table_at(routes, split_slash(path)) is None,
        path.len() == 0 || path.last() != '/',
    ensures
        table_lookup(routes, path) == table_at(routes, split_slash(path.push('/'))),
{
}

/// The root path is immune to normalization: a lookup of `/` is the exact
/// lookup and nothing else, so the root is never stripped to an empty
/// path, whatever is registered.
pub proof fn lemma_root_exact_only(routes: Seq<RouteView>, path: Seq<char>)
    requires
        path == seq!['/'],
    ensures
        table_lookup(routes, path) == table_at(routes, split_slash(path)),
{
}

proof fn lemma_fixed_only_upto(segs: Seq<SegView>, pieces: Seq<Seq<char>>, n: int)
    requires
        0 <= n <= segs.len(),
        forall|i: int| 0 <= i < segs.len() ==> (#[trigger] segs[i]) is Fixed,
    ensures
        captures_upto(segs, pieces, n) == Seq::<(Seq<char>, Seq<char>)>::empty(),
    decreases n,
{
    if n > 0 {
        lemma_fixed_only_upto(segs, pieces, n - 1);
    }
}

/// A template without parameter segments captures nothing: any path it
/// matches, exactly or through a fallback, comes with an empty parameter
/// map.
pub proof fn lemma_fixed_only_no_params(segs: Seq<SegView>, pieces: Seq<Seq<char>>)
    requires
        forall|i: int| 0 <= i < segs.len() ==> (#[trigger] segs[i]) is Fixed,
    ensures
        captures(segs, pieces) == Seq::<(Seq<char>, Seq<char>)>::empty(),
{
    lemma_fixed_only_upto(segs, pieces, segs.len() as int);
}

/// Two templates that match one and the same split path are ambiguous.
pub proof fn lemma_both_match_conflict(a: Seq<SegView>, b: Seq<SegView>, pieces: Seq<Seq<char>>)
    requires
        route_matches(a, pieces),
        route_matches(b, pieces),
    ensures
        routes_conflict(a, b),
{
    assert forall|k: int| 0 <= k < a.len() implies #[trigger] seg_overlap(a[k], b[k]) by {
        assert(seg_matches(a[k], pieces[k]));
        assert(seg_matches(b[k], pieces[k]));
    }
}

/// In a well-formed table no two registered templates match the same
/// split path: a match, where one exists, is unique.
pub proof fn lemma_match_unique(routes: Seq<RouteView>, pieces: Seq<Seq<char>>, i: int, j: int)
    requires
        table_wf(routes),
        0 <= i < routes.len(),
        0 <= j < routes.len(),
        route_matches(routes[i].segs, pieces),
        route_matches(routes[j].segs, pieces),
    ensures
        i == j,
{
    if i < j {
        lemma_both_match_conflict(routes[i].segs, routes[j].segs, pieces);
    } else if j < i {
        lemma_both_match_conflict(routes[j].segs, routes[i].segs, pieces);
    }
}

/// Whether some segment at position `n` or later declares `name` as a
/// parameter.
spec fn name_recurs_from(segs: Seq<SegView>, name: Seq<char>, n: int) -> bool {
    exists|j: int| n <= j < segs.len() && (#[trigger] segs[j]) is Param && segs[j]->name == name
}

proof fn lemma_captures_origin_upto(segs: Seq<SegView>, pieces: Seq<Seq<char>>, n: int)
    requires
        segs.len() == pieces.len(),
        0 <= n <= segs.len(),
    ensures
        forall|k: int| #![trigger captures_upto(segs, pieces, n)[k]]
            0 <= k < captures_upto(segs, pieces, n).len() ==> exists|i: int| #![trigger segs[i]]
                0 <= i < n && segs[i] is Param && !later_overrides(segs, i) && captures_upto(
                    segs,
                    pieces,
                    n,
                )[k] == (segs[i]->name, pieces[i]),
    decreases n,
{
    if n > 0 {
        lemma_captures_origin_upto(segs, pieces, n - 1);
        let pre = captures_upto(segs, pieces, n - 1);
        let cur = captures_upto(segs, pieces, n);
        let kept = segs[n - 1] is Param && !later_overrides(segs, n - 1);
        assert forall|k: int| #![trigger cur[k]] 0 <= k < cur.len() implies exists|i: int|
            #![trigger segs[i]]
            0 <= i < n && segs[i] is Param && !later_overrides(segs, i) && cur[k] == (
            segs[i]->name,
            pieces[i],
            ) by {
            if k < pre.len() {
                let i0 = choose|i: int| #![trigger segs[i]]
                    0 <= i < n - 1 && segs[i] is Param && !later_overrides(segs, i) && pre[k] == (
                    segs[i]->name,
                    pieces[i],
                    );
                assert(cur[k] == pre[k]);
                assert(0 <= i0 < n && segs[i0] is Param && !later_overrides(segs, i0) && cur[k]
                    == (segs[i0]->name, pieces[i0]));
            } else {
                assert(kept && cur[k] == (segs[n - 1]->name, pieces[n - 1]));
            }
        }
    }
}

proof fn lemma_captures_kept_upto(segs: Seq<SegView>, pieces: Seq<Seq<char>>, n: int)
    requires
        segs.len() == pieces.len(),
        0 <= n <= segs.len(),
    ensures
        forall|i: int| #![trigger segs[i]]
            0 <= i < n && segs[i] is Param && !later_overrides(segs, i) ==> exists|k: int|
                #![trigger captures_upto(segs, pieces, n)[k]]
                0 <= k < captures_upto(segs, pieces, n).len() && captures_upto(segs, pieces, n)[k]
                    == (segs[i]->name, pieces[i]),
    decreases n,
{
    if n > 0 {
        lemma_captures_kept_upto(segs, pieces, n - 1);
        let pre = captures_upto(segs, pieces, n - 1);
        let cur = captures_upto(segs, pieces, n);
        assert forall|i: int| #![trigger segs[i]]
            0 <= i < n && segs[i] is Param && !later_overrides(segs, i) implies exists|k: int|
            #![trigger cur[k]]
            0 <= k < cur.len() && cur[k] == (segs[i]->name, pieces[i]) by {
            if i < n - 1 {
                let k0 = choose|k: int| #![trigger pre[k]]
                    0 <= k < pre.len() && pre[k] == (segs[i]->name, pieces[i]);
                assert(cur[k0] == pre[k0]);
                assert(0 <= k0 < cur.len() && cur[k0] == (segs[i]->name, pieces[i]));
            } else {
                let k0 = pre.len() as int;
                assert(0 <= k0 < cur.len() && cur[k0] == (segs[i]->name, pieces[i]));
            }
        }
    }
}

proof fn lemma_captures_names_upto(segs: Seq<SegView>, pieces: Seq<Seq<char>>, n: int)
    requires
        segs.len() == pieces.len(),
        0 <= n <= segs.len(),
    ensures
        forall|i: int| #![trigger segs[i]]
            0 <= i < n && segs[i] is Param && !name_recurs_from(segs, segs[i]->name, n)
                ==> exists|k: int|
                #![trigger captures_upto(segs, pieces, n)[k]]
                0 <= k < captures_upto(segs, pieces, n).len() && captures_upto(segs, pieces, n)[k].0
                    == segs[i]->name,
    decreases n,
{
    if n > 0 {
        lemma_captures_names_upto(segs, pieces, n - 1);
        let pre = captures_upto(segs, pieces, n - 1);
        let cur = captures_upto(segs, pieces, n);
        assert forall|i: int| #![trigger segs[i]]
            0 <= i < n && segs[i] is Param && !name_recurs_from(segs, segs[i]->name, n) implies
            exists|k: int| #![trigger cur[k]]
            0 <= k < cur.len() && cur[k].0 == segs[i]->name by {
            if i == n - 1 {
                // Nothing at position n or later reuses the name, so this
                // is its last occurrence and its pair was pushed.
                assert(!later_overrides(segs, i));
                let k0 = pre.len() as int;
                assert(0 <= k0 < cur.len() && cur[k0].0 == segs[i]->name);
            } else if segs[n - 1] is Param && segs[n - 1]->name == segs[i]->name {
                // The name recurs at the new position; that occurrence is
                // last, was pushed, and carries the name.
                assert(!later_overrides(segs, n - 1));
                let k0 = pre.len() as int;
                assert(0 <= k0 < cur.len() && cur[k0].0 == segs[i]->name);
            } else {
                assert(!name_recurs_from(segs, segs[i]->name, n - 1));
                let k0 = choose|k: int| #![trigger pre[k]]
                    0 <= k < pre.len() && pre[k].0 == segs[i]->name;
                assert(cur[k0] == pre[k0]);
                assert(0 <= k0 < cur.len() && cur[k0].0 == segs[i]->name);
            }
        }
    }
}

proof fn lemma_captures_distinct_upto(segs: Seq<SegView>, pieces: Seq<Seq<char>>, n: int)
    requires
        segs.len() == pieces.len(),
        0 <= n <= segs.len(),
    ensures
        distinct_keys(captures_upto(segs, pieces, n)),
    decreases n,
{
    if n > 0 {
        lemma_captures_distinct_upto(segs, pieces, n - 1);
        lemma_captures_origin_upto(segs, pieces, n - 1);
        let pre = captures_upto(segs, pieces, n - 1);
        let cur = captures_upto(segs, pieces, n);
        let kept = segs[n - 1] is Param && !later_overrides(segs, n - 1);
        assert forall|k1: int, k2: int|
            0 <= k1 < k2 < cur.len() implies (#[trigger] cur[k1]).0 != (#[trigger] cur[k2]).0 by {
            if k2 < pre.len() {
                assert(cur[k1] == pre[k1] && cur[k2] == pre[k2]);
            } else {
                assert(kept);
                assert(cur[k1] == pre[k1]);
                let i = choose|i: int| #![trigger segs[i]]
                    0 <= i < n - 1 && segs[i] is Param && !later_overrides(segs, i) && pre[k1]
                        == (segs[i]->name, pieces[i]);
                // Were the keys equal, the new position would override i.
                assert(segs[i]->name != segs[n - 1]->name);
            }
        }
    }
}

/// Every pair a matched template captures originates in one of its
/// declared parameter segments: the last segment declaring that name,
/// paired with the path piece standing at its position.
pub proof fn lemma_capture_origin(segs: Seq<SegView>, pieces: Seq<Seq<char>>, k: int)
    requires
        route_matches(segs, pieces),
        0 <= k < captures(segs, pieces).len(),
    ensures
        exists|i: int| #![trigger segs[i]]
            0 <= i < segs.len() && segs[i] is Param && !later_overrides(segs, i) && captures(
                segs,
                pieces,
            )[k] == (segs[i]->name, pieces[i]),
{
    lemma_captures_origin_upto(segs, pieces, segs.len() as int);
    // Naming the captured pair lets the quantified fact above apply to it.
    let pair = captures_upto(segs, pieces, segs.len() as int)[k];
}

/// A successful match binds all of the matched template's declared
/// parameter names, no name twice; a name declared more than once is
/// bound through its last occurrence, whose path piece wins.
pub proof fn lemma_captures_bind_declared_names(segs: Seq<SegView>, pieces: Seq<Seq<char>>)
    requires
        route_matches(segs, pieces),
    ensures
        forall|i: int| #![trigger segs[i]]
            0 <= i < segs.len() && segs[i] is Param && !later_overrides(segs, i) ==> exists|k: int|
                #![trigger captures(segs, pieces)[k]]
                0 <= k < captures(segs, pieces).len() && captures(segs, pieces)[k] == (
                segs[i]->name,
                pieces[i],
                ),
        forall|i: int| #![trigger segs[i]]
            0 <= i < segs.len() && segs[i] is Param ==> exists|k: int|
                #![trigger captures(segs, pieces)[k]]
                0 <= k < captures(segs, pieces).len() && captures(segs, pieces)[k].0
                    == segs[i]->name,
        distinct_keys(captures(segs, pieces)),
{
    lemma_captures_kept_upto(segs, pieces, segs.len() as int);
    lemma_captures_names_upto(segs, pieces, segs.len() as int);
    lemma_captures_distinct_upto(segs, pieces, segs.len() as int);
    assert forall|i: int| #![trigger segs[i]]
        0 <= i < segs.len() && segs[i] is Param implies exists|k: int|
        #![trigger captures(segs, pieces)[k]]
        0 <= k < captures(segs, pieces).len() && captures(segs, pieces)[k].0 == segs[i]->name by {
        assert(!name_recurs_from(segs, segs[i]->name, segs.len() as int));
    }
}

proof fn lemma_table_at_some(routes: Seq<RouteView>, pieces: Seq<Seq<char>>)
    requires
        table_at(routes, pieces) is Some,
    ensures
        exists|i: int|
            0 <= i < routes.len() && route_matches(#[trigger] routes[i].segs, pieces)
                && table_at(routes, pieces) == Some(
                (routes[i].handler, captures(routes[i].segs, pieces)),
            ),
    decreases routes.len(),
{
    if routes.len() > 0 && !route_matches(routes[0].segs, pieces) {
        lemma_table_at_some(routes.drop_first(), pieces);
        let i = choose|i: int|
            0 <= i < routes.drop_first().len() && route_matches(
                #[trigger] routes.drop_first()[i].segs,
                pieces,
            ) && table_at(routes.drop_first(), pieces) == Some(
                (routes.drop_first()[i].handler, captures(routes.drop_first()[i].segs, pieces)),
            );
        assert(routes[i + 1] == routes.drop_first()[i]);
        assert(route_matches(routes[i + 1].segs, pieces));
    }
}

/// Whatever a lookup returns carries a parameter map without a repeated
/// name: a repeated name in the matched template collapses to its last
/// occurrence.
pub proof fn lemma_lookup_params_distinct(routes: Seq<RouteView>, path: Seq<char>)
    ensures
        table_lookup(routes, path) matches Some(found) ==> distinct_keys(found.1),
{
    lemma_table_at_distinct(routes, split_slash(path));
    lemma_table_at_distinct(routes, split_slash(path.drop_last()));
    lemma_table_at_distinct(routes, split_slash(path.push('/')));
}

proof fn lemma_table_at_distinct(routes: Seq<RouteView>, pieces: Seq<Seq<char>>)
    ensures
        table_at(routes, pieces) matches Some(found) ==> distinct_keys(found.1),
{
    if table_at(routes, pieces) is Some {
        lemma_table_at_some(routes, pieces);
        let i = choose|i: int|
            0 <= i < routes.len() && route_matches(#[trigger] routes[i].segs, pieces)
                && table_at(routes, pieces) == Some(
                (routes[i].handler, captures(routes[i].segs, pieces)),
            );
        lemma_captures_bind_declared_names(routes[i].segs, pieces);
    }
}

} // verus!
