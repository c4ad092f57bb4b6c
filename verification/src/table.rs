use crate::path::{
    lemma_split_slash_append, lemma_split_slash_len, lemma_split_slash_strip, parse_route,
    parse_template, seg_views, split_path, split_slash, views_of, SegView, Segment,
};
use vstd::prelude::*;
use vstd::string::*;

verus! {

/// The opaque payload registered under a route: a cheaply copyable handle,
/// such as an index into a registry the caller keeps. The router never
/// inspects it and returns it verbatim on a successful lookup.
#[derive(Clone, Copy, Debug, PartialEq, Eq, Structural)]
pub struct Handler {
    pub id: u64,
}

/// The errors a registration can surface. A lookup never fails: a path
/// without a match is an ordinary absence, not an error.
#[derive(Clone, Copy, Debug, PartialEq, Eq, Structural)]
pub enum RouterError {
    /// The supplied method is outside the recognised set. Unreachable
    /// through [`crate::HttpMethod`], which is closed, but kept as the
    /// defensive contract for any dynamic boundary in front of the router.
    UnsupportedMethod,
    /// The template is structurally incompatible with one already
    /// registered in the same table; the table is left untouched.
    TemplateConflict,
}

/// One registration: a parsed template and its handler.
struct Route {
    segs: Vec<Segment>,
    handler: Handler,
}

/// The mathematical form of one registration.
pub struct RouteView {
    pub segs: Seq<SegView>,
    pub handler: Handler,
}

impl View for Route {
    type V = RouteView;

    closed spec fn view(&self) -> RouteView {
        RouteView { segs: seg_views(self.segs@), handler: self.handler }
    }
}

/// Whether one concrete path piece satisfies one template segment: a fixed
/// segment demands the piece letter for letter, a parameter takes any
/// non-empty piece.
pub open spec fn seg_matches(g: SegView, piece: Seq<char>) -> bool {
    match g {
        SegView::Fixed { text } => piece == text,
        SegView::Param { name } => piece.len() > 0,
    }
}

/// Whether a template matches a split path: same number of pieces, each
/// piece satisfying its segment.
pub open spec fn route_matches(segs: Seq<SegView>, pieces: Seq<Seq<char>>) -> bool {
    &&& segs.len() == pieces.len()
    &&& forall|i: int| 0 <= i < segs.len() ==> #[trigger] seg_matches(segs[i], pieces[i])
}

/// Whether a later segment of the template declares the same parameter
/// name again. A repeated name is allowed; the last occurrence wins, so
/// the earlier ones capture nothing.
pub open spec fn later_overrides(segs: Seq<SegView>, i: int) -> bool {
    exists|j: int|
        i < j < segs.len() && (#[trigger] segs[j]) is Param && segs[j]->name == segs[i]->name
}

/// The parameters the first `n` segments of a matched template capture, in
/// template order: one `(name, piece)` pair per parameter segment whose
/// name is not declared again later in the template.
pub open spec fn captures_upto(
    segs: Seq<SegView>,
    pieces: Seq<Seq<char>>,
    n: int,
) -> Seq<(Seq<char>, Seq<char>)>
    decreases n,
{
    if n <= 0 {
        Seq::empty()
    } else {
        let pre = captures_upto(segs, pieces, n - 1);
        match segs[n - 1] {
            SegView::Param { name } => if later_overrides(segs, n - 1) {
                pre
            } else {
                pre.push((name, pieces[n - 1]))
            },
            SegView::Fixed { text } => pre,
        }
    }
}

/// The full parameter list a matched template captures from a split path.
#[verifier::inline]
pub open spec fn captures(segs: Seq<SegView>, pieces: Seq<Seq<char>>) -> Seq<
    (Seq<char>, Seq<char>),
> {
    captures_upto(segs, pieces, segs.len() as int)
}

/// The views of a list of captured `(name, value)` parameter pairs.
pub open spec fn pairs_view(v: Seq<(String, String)>) -> Seq<(Seq<char>, Seq<char>)> {
    v.map_values(|p: (String, String)| (p.0@, p.1@))
}

/// The view of a lookup's outcome: the handler with the views of the
/// captured parameters, or nothing.
pub open spec fn found_view(r: Option<(Handler, Vec<(String, String)>)>) -> Option<
    (Handler, Seq<(Seq<char>, Seq<char>)>),
> {
    match r {
        Option::None => Option::None,
        Option::Some((h, v)) => Option::Some((h, pairs_view(v@))),
    }
}

/// What matching a split path against the registered templates, in
/// registration order, returns: the first match's handler and captured
/// parameters. In a well-formed table at most one template can match, so
/// the order cannot matter.
pub open spec fn table_at(routes: Seq<RouteView>, pieces: Seq<Seq<char>>) -> Option<
    (Handler, Seq<(Seq<char>, Seq<char>)>),
>
    decreases routes.len(),
{
    if routes.len() == 0 {
        Option::None
    } else if route_matches(routes[0].segs, pieces) {
        Option::Some((routes[0].handler, captures(routes[0].segs, pieces)))
    } else {
        table_at(routes.drop_first(), pieces)
    }
}

/// What a lookup returns: the path exactly as given wins; failing that, a
/// path with a trailing separator — except the root path, which is never
/// stripped — is retried without it, and a path without one is retried
/// with one appended.
pub open spec fn table_lookup(routes: Seq<RouteView>, path: Seq<char>) -> Option<
    (Handler, Seq<(Seq<char>, Seq<char>)>),
> {
    let exact = table_at(routes, split_slash(path));
    if exact is Some {
        exact
    } else if path.len() > 1 && path.last() == '/' {
        table_at(routes, split_slash(path.drop_last()))
    } else if path.len() == 0 || path.last() != '/' {
        table_at(routes, split_slash(path.push('/')))
    } else {
        Option::None
    }
}

/// Whether some concrete path piece could satisfy both segments at the same
/// position: the one way two templates can claim a common path.
pub open spec fn seg_overlap(a: SegView, b: SegView) -> bool {
    match (a, b) {
        (SegView::Fixed { text: x }, SegView::Fixed { text: y }) => x == y,
        (SegView::Fixed { text: x }, SegView::Param { name: _ }) => x.len() > 0,
        (SegView::Param { name: _ }, SegView::Fixed { text: y }) => y.len() > 0,
        (SegView::Param { name: _ }, SegView::Param { name: _ }) => true,
    }
}

/// Whether two templates are ambiguous: some concrete path would satisfy
/// both. That holds exactly when they have the same number of segments and
/// every position overlaps.
pub open spec fn routes_conflict(a: Seq<SegView>, b: Seq<SegView>) -> bool {
    &&& a.len() == b.len()
    &&& forall|i: int| 0 <= i < a.len() ==> #[trigger] seg_overlap(a[i], b[i])
}

/// Whether a template already ambiguous with one of `routes` is offered.
pub open spec fn has_conflict(routes: Seq<RouteView>, t: Seq<SegView>) -> bool {
    exists|i: int| 0 <= i < routes.len() && #[trigger] routes_conflict(routes[i].segs, t)
}

/// What registering a template against a table comes to: rejected exactly
/// when it is ambiguous with a template already registered, accepted
/// otherwise.
pub open spec fn insert_outcome(routes: Seq<RouteView>, t: Seq<SegView>) -> Result<
    (),
    RouterError,
> {
    if has_conflict(routes, t) {
        Err(RouterError::TemplateConflict)
    } else {
        Ok(())
    }
}

/// The invariant of one method's table: no two registered templates are
/// ambiguous for any concrete path.
pub open spec fn table_wf(routes: Seq<RouteView>) -> bool {
    forall|i: int, j: int|
        0 <= i < j < routes.len() ==> !routes_conflict(
            #[trigger] routes[i].segs,
            #[trigger] routes[j].segs,
        )
}

fn string_eq(a: &String, b: &String) -> (r: bool)
    ensures
        r == (a@ == b@),
{
    a.eq(b)
}

fn seg_overlap_exec(a: &Segment, b: &Segment) -> (r: bool)
    ensures
        r == seg_overlap(a@, b@),
{
    match (a, b) {
        (Segment::Fixed { text: x }, Segment::Fixed { text: y }) => string_eq(x, y),
        (Segment::Fixed { text: x }, Segment::Param { name: _ }) => x.as_str().unicode_len() > 0,
        (Segment::Param { name: _ }, Segment::Fixed { text: y }) => y.as_str().unicode_len() > 0,
        (Segment::Param { name: _ }, Segment::Param { name: _ }) => true,
    }
}

fn routes_conflict_exec(a: &Vec<Segment>, b: &Vec<Segment>) -> (r: bool)
    ensures
        r == routes_conflict(seg_views(a@), seg_views(b@)),
{
    if a.len() != b.len() {
        return false;
    }
    let mut i: usize = 0;
    while i < a.len()
        invariant
            i <= a@.len(),
            a@.len() == b@.len(),
            forall|k: int|
                0 <= k < i ==> #[trigger] seg_overlap(seg_views(a@)[k], seg_views(b@)[k]),
        decreases a@.len() - i,
    {
        if !seg_overlap_exec(&a[i], &b[i]) {
            assert(!seg_overlap(seg_views(a@)[i as int], seg_views(b@)[i as int]));
            return false;
        }
        i = i + 1;
    }
    true
}

proof fn lemma_pairs_push(v: Seq<(String, String)>, p: (String, String))
    ensures
        pairs_view(v.push(p)) == pairs_view(v).push((p.0@, p.1@)),
{
    assert(pairs_view(v.push(p)) =~= pairs_view(v).push((p.0@, p.1@)));
}

fn overridden_later(segs: &Vec<Segment>, i: usize, name: &String) -> (r: bool)
    requires
        i < segs@.len(),
        seg_views(segs@)[i as int] matches SegView::Param { name: nm } && nm == name@,
    ensures
        r == later_overrides(seg_views(segs@), i as int),
{
    let end = segs.len();
    let mut j: usize = i + 1;
    while j < end
        invariant
            i < j <= segs@.len(),
            end == segs@.len(),
            seg_views(segs@)[i as int] matches SegView::Param { name: nm } && nm == name@,
            forall|x: int|
                i < x < j ==> !((#[trigger] seg_views(segs@)[x]) is Param && seg_views(
                    segs@,
                )[x]->name == name@),
        decreases segs@.len() - j,
    {
        if let Segment::Param { name: later } = &segs[j] {
            if string_eq(later, name) {
                assert(seg_views(segs@)[j as int] is Param && seg_views(segs@)[j as int]->name
                    == seg_views(segs@)[i as int]->name);
                return true;
            }
        }
        j = j + 1;
    }
    false
}

fn try_match(segs: &Vec<Segment>, pieces: &Vec<String>) -> (r: Option<Vec<(String, String)>>)
    ensures
        r is Some <==> route_matches(seg_views(segs@), views_of(pieces@)),
        r matches Some(params) ==> pairs_view(params@) == captures(
            seg_views(segs@),
            views_of(pieces@),
        ),
{
    if segs.len() != pieces.len() {
        return None;
    }
    let mut out: Vec<(String, String)> = Vec::new();
    let mut i: usize = 0;
    proof {
        assert(pairs_view(Seq::<(String, String)>::empty()) =~= Seq::<(
            Seq<char>,
            Seq<char>,
        )>::empty());
    }
    while i < segs.len()
        invariant
            i <= segs@.len(),
            segs@.len() == pieces@.len(),
            forall|k: int|
                0 <= k < i ==> #[trigger] seg_matches(seg_views(segs@)[k], views_of(pieces@)[k]),
            pairs_view(out@) == captures_upto(seg_views(segs@), views_of(pieces@), i as int),
        decreases segs@.len() - i,
    {
        match &segs[i] {
            Segment::Fixed { text } => {
                if !string_eq(text, &pieces[i]) {
                    assert(!seg_matches(seg_views(segs@)[i as int], views_of(pieces@)[i as int]));
                    return None;
                }
            },
            Segment::Param { name } => {
                if pieces[i].as_str().unicode_len() == 0 {
                    assert(!seg_matches(seg_views(segs@)[i as int], views_of(pieces@)[i as int]));
                    return None;
                }
                if !overridden_later(segs, i, name) {
                    let pair = (name.clone(), pieces[i].clone());
                    proof {
                        lemma_pairs_push(out@, pair);
                    }
                    out.push(pair);
                }
            },
        }
        i = i + 1;
    }
    Some(out)
}

/// One method's matchable structure: the registered templates with their
/// handlers, kept mutually unambiguous.
pub struct RouteTable {
    routes: Vec<Route>,
}

impl View for RouteTable {
    type V = Seq<RouteView>;

    closed spec fn view(&self) -> Seq<RouteView> {
        self.routes@.map_values(|r: Route| r@)
    }
}

proof fn lemma_table_view_push(routes: Seq<Route>, r: Route)
    ensures
        routes.push(r).map_values(|x: Route| x@) == routes.map_values(|x: Route| x@).push(r@),
{
    assert(routes.push(r).map_values(|x: Route| x@) =~= routes.map_values(|x: Route| x@).push(
        r@,
    ));
}

impl RouteTable {
    /// The table's invariant, as [`table_wf`] states it.
    pub open spec fn wf(&self) -> bool {
        table_wf(self@)
    }

    /// An empty table: no template registered, nothing matches.
    pub fn new() -> (t: RouteTable)
        ensures
            t@ == Seq::<RouteView>::empty(),
            t.wf(),
    {
        let t = RouteTable { routes: Vec::new() };
        proof {
            assert(t@ =~= Seq::<RouteView>::empty());
        }
        t
    }

    /// Registers `handler` under the template `route`. Rejected with
    /// [`RouterError::TemplateConflict`], leaving the table untouched,
    /// exactly when the template is ambiguous with a template already
    /// registered; otherwise the registration is appended and is visible
    /// to every later lookup.
    pub fn insert(&mut self, route: &str, handler: Handler) -> (r: Result<(), RouterError>)
        requires
            old(self).wf(),
        ensures
            final(self).wf(),
            ({
                let t = parse_route(route@);
                &&& r == insert_outcome(old(self)@, t)
                &&& final(self)@ == (if r is Err {
                    old(self)@
                } else {
                    old(self)@.push((RouteView { segs: t, handler }))
                })
            }),
    {
        let segs = parse_template(route);
        let mut i: usize = 0;
        while i < self.routes.len()
            invariant
                i <= self.routes@.len(),
                *self == *old(self),
                old(self).wf(),
                seg_views(segs@) == parse_route(route@),
                forall|k: int|
                    0 <= k < i ==> !routes_conflict(
                        (#[trigger] self@[k]).segs,
                        seg_views(segs@),
                    ),
            decreases self.routes@.len() - i,
        {
            if routes_conflict_exec(&self.routes[i].segs, &segs) {
                assert(routes_conflict(self@[i as int].segs, seg_views(segs@)));
                return Err(RouterError::TemplateConflict);
            }
            i = i + 1;
        }
        proof {
            lemma_table_view_push(self.routes@, Route { segs, handler });
            assert(!has_conflict(self@, seg_views(segs@)));
        }
        self.routes.push(Route { segs, handler });
        Ok(())
    }

    /// Matches a split path against the registered templates, with no
    /// fallback, as [`table_at`] describes.
    fn at_pieces(&self, pieces: &Vec<String>) -> (r: Option<(Handler, Vec<(String, String)>)>)
        ensures
            found_view(r) == table_at(self@, views_of(pieces@)),
    {
        let mut i: usize = 0;
        proof {
            assert(self@.skip(0) =~= self@);
        }
        while i < self.routes.len()
            invariant
                i <= self.routes@.len(),
                table_at(self@, views_of(pieces@)) == table_at(
                    self@.skip(i as int),
                    views_of(pieces@),
                ),
            decreases self.routes@.len() - i,
        {
            proof {
                assert(self@.skip(i as int)[0] == self@[i as int]);
                assert(self@.skip(i as int).drop_first() =~= self@.skip(i + 1));
            }
            let route = &self.routes[i];
            if let Some(params) = try_match(&route.segs, pieces) {
                return Some((route.handler, params));
            }
            i = i + 1;
        }
        proof {
            assert(self@.skip(self@.len() as int) =~= Seq::<RouteView>::empty());
        }
        None
    }

    /// Resolves `path` against this table: first exactly as given; failing
    /// that, with one trailing separator removed — never for the root path
    /// `/` — and, for a path without a trailing separator, with one
    /// appended. Returns the matched template's handler together with the
    /// parameters it captured, as [`table_lookup`] describes.
    pub fn lookup(&self, path: &str) -> (r: Option<(Handler, Vec<(String, String)>)>)
        ensures
            found_view(r) == table_lookup(self@, path@),
    {
        let pieces = split_path(path);
        let n = path.unicode_len();
        let first = self.at_pieces(&pieces);
        if first.is_some() {
            return first;
        }
        if n > 1 && path.get_char(n - 1) == '/' {
            proof {
                lemma_split_slash_strip(path@);
                lemma_split_slash_len(path@);
            }
            let mut stripped = pieces;
            stripped.pop();
            proof {
                assert(views_of(stripped@) =~= split_slash(path@).drop_last());
            }
            self.at_pieces(&stripped)
        } else if n == 0 || path.get_char(n - 1) != '/' {
            let empty_piece = String::new();
            let mut extended = pieces;
            extended.push(empty_piece);
            proof {
                lemma_split_slash_append(path@);
                assert(views_of(extended@) =~= split_slash(path@).push(Seq::<char>::empty()));
            }
            self.at_pieces(&extended)
        } else {
            None
        }
    }
}

} // verus!
