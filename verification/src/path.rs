use vstd::prelude::*;
use vstd::string::*;

verus! {

/// One piece of a route template: either a fixed string that the path
/// segment must equal, or a named parameter that captures the segment.
#[derive(Debug)]
pub enum Segment {
    Fixed { text: String },
    Param { name: String },
}

/// The mathematical form of a [`Segment`]: the same two shapes, over
/// sequences of characters.
pub enum SegView {
    Fixed { text: Seq<char> },
    Param { name: Seq<char> },
}

impl View for Segment {
    type V = SegView;

    open spec fn view(&self) -> SegView {
        match self {
            Segment::Fixed { text } => SegView::Fixed { text: text@ },
            Segment::Param { name } => SegView::Param { name: name@ },
        }
    }
}

/// The views of a sequence of owned path segments.
pub open spec fn views_of(pieces: Seq<String>) -> Seq<Seq<char>> {
    pieces.map_values(|p: String| p@)
}

/// The views of a sequence of template segments.
pub open spec fn seg_views(segs: Seq<Segment>) -> Seq<SegView> {
    segs.map_values(|g: Segment| g@)
}

/// A path split at every `/`. The empty path has one empty piece; every
/// further `/` adds a piece, so `/a/` has the pieces ``, `a`, ``.
pub open spec fn split_slash(s: Seq<char>) -> Seq<Seq<char>>
    decreases s.len(),
{
    if s.len() == 0 {
        seq![Seq::<char>::empty()]
    } else if s.last() == '/' {
        split_slash(s.drop_last()).push(Seq::<char>::empty())
    } else {
        let r = split_slash(s.drop_last());
        r.update(r.len() - 1, r.last().push(s.last()))
    }
}

pub proof fn lemma_split_slash_len(s: Seq<char>)
    ensures
        split_slash(s).len() >= 1,
    decreases s.len(),
{
    if s.len() > 0 {
        lemma_split_slash_len(s.drop_last());
    }
}

/// Appending a trailing separator to a path appends one empty piece.
pub proof fn lemma_split_slash_append(s: Seq<char>)
    ensures
        split_slash(s.push('/')) == split_slash(s).push(Seq::<char>::empty()),
{
    assert(s.push('/').drop_last() =~= s);
}

/// Removing the trailing separator of a path removes its last, empty piece.
pub proof fn lemma_split_slash_strip(s: Seq<char>)
    requires
        s.len() > 0,
        s.last() == '/',
    ensures
        split_slash(s.drop_last()) == split_slash(s).drop_last(),
{
    lemma_split_slash_len(s.drop_last());
    assert(split_slash(s.drop_last()).push(Seq::<char>::empty()).drop_last() =~= split_slash(
        s.drop_last(),
    ));
}

proof fn lemma_seg_views_push(segs: Seq<Segment>, g: Segment)
    ensures
        seg_views(segs.push(g)) == seg_views(segs).push(g@),
{
    assert(seg_views(segs.push(g)) =~= seg_views(segs).push(g@));
}

proof fn lemma_views_push(pieces: Seq<String>, p: String)
    ensures
        views_of(pieces.push(p)) == views_of(pieces).push(p@),
{
    assert(views_of(pieces.push(p)) =~= views_of(pieces).push(p@));
}

/// Splits a path at every `/`, as [`split_slash`] describes.
pub fn split_path(s: &str) -> (pieces: Vec<String>)
    ensures
        views_of(pieces@) == split_slash(s@),
{
    let n = s.unicode_len();
    let mut pieces: Vec<String> = Vec::new();
    let mut start: usize = 0;
    let mut i: usize = 0;
    proof {
        assert(s@.subrange(0, 0) =~= Seq::<char>::empty());
        assert(views_of(Seq::<String>::empty()) =~= Seq::<Seq<char>>::empty());
    }
    while i < n
        invariant
            start <= i <= n,
            n == s@.len(),
            views_of(pieces@).push(s@.subrange(start as int, i as int)) == split_slash(
                s@.subrange(0, i as int),
            ),
        decreases n - i,
    {
        let c = s.get_char(i);
        proof {
            assert(s@.subrange(0, i + 1) =~= s@.subrange(0, i as int).push(s@[i as int]));
            assert(s@.subrange(0, i + 1).drop_last() =~= s@.subrange(0, i as int));
        }
        if c == '/' {
            let piece = s.substring_char(start, i).to_owned();
            proof {
                lemma_views_push(pieces@, piece);
                assert(s@.subrange(i + 1, i + 1) =~= Seq::<char>::empty());
            }
            pieces.push(piece);
            start = i + 1;
        } else {
            proof {
                let r = views_of(pieces@).push(s@.subrange(start as int, i as int));
                assert(r.last() == s@.subrange(start as int, i as int));
                assert(r.last().push(s@[i as int]) =~= s@.subrange(start as int, i + 1));
                assert(r.update(r.len() - 1, s@.subrange(start as int, i + 1)) =~= views_of(
                    pieces@,
                ).push(s@.subrange(start as int, i + 1)));
            }
        }
        i = i + 1;
    }
    let last = s.substring_char(start, n).to_owned();
    proof {
        lemma_views_push(pieces@, last);
        assert(s@.subrange(0, n as int) =~= s@);
    }
    pieces.push(last);
    pieces
}

/// How one piece of a template reads: a piece wrapped in `{` and `}` is a
/// named parameter, any other piece is fixed text.
pub open spec fn parse_seg(p: Seq<char>) -> SegView {
    if p.len() >= 2 && p.first() == '{' && p.last() == '}' {
        SegView::Param { name: p.subrange(1, p.len() - 1) }
    } else {
        SegView::Fixed { text: p }
    }
}

/// The segments of a route template: the path split at `/`, each piece read
/// as fixed text or as a named parameter.
pub open spec fn parse_route(path: Seq<char>) -> Seq<SegView> {
    split_slash(path).map_values(|p: Seq<char>| parse_seg(p))
}

/// Parses a route template into its segments, as [`parse_route`] describes.
pub fn parse_template(route: &str) -> (segs: Vec<Segment>)
    ensures
        seg_views(segs@) == parse_route(route@),
{
    let pieces = split_path(route);
    let mut segs: Vec<Segment> = Vec::new();
    let mut i: usize = 0;
    while i < pieces.len()
        invariant
            i <= pieces@.len(),
            segs@.len() == i,
            views_of(pieces@) == split_slash(route@),
            forall|k: int|
                0 <= k < i ==> seg_views(segs@)[k] == parse_seg(views_of(pieces@)[k]),
        decreases pieces@.len() - i,
    {
        let piece = &pieces[i];
        let m = piece.as_str().unicode_len();
        let seg = if m >= 2 && piece.as_str().get_char(0) == '{' && piece.as_str().get_char(m - 1)
            == '}' {
            let name = piece.as_str().substring_char(1, m - 1).to_owned();
            Segment::Param { name }
        } else {
            Segment::Fixed { text: piece.clone() }
        };
        proof {
            lemma_seg_views_push(segs@, seg);
            assert(views_of(pieces@)[i as int] == piece@);
            assert(seg@ == parse_seg(piece@));
        }
        segs.push(seg);
        i = i + 1;
    }
    proof {
        assert(seg_views(segs@) =~= parse_route(route@));
    }
    segs
}

} // verus!
