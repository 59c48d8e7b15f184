//! Locations on disk and the relative paths that archive entries name.
//!
//! A location is a base directory, which the caller supplies and the library
//! never inspects, followed by a sequence of plain name components. Because a
//! component is never `..`, never `.`, never empty and never holds a
//! separator, appending components to a location can only descend from it.

use vstd::prelude::*;
use vstd::slice::slice_to_vec;

verus! {

/// The byte that separates the components of an entry path: `/`.
pub const SEPARATOR: u8 = 47;

/// The byte `.`.
pub const DOT: u8 = 46;

/// The component `.`, which names the directory it stands in.
pub open spec fn is_dot(segment: Seq<u8>) -> bool {
    segment.len() == 1 && segment[0] == DOT
}

/// The component `..`, which names the parent directory.
pub open spec fn is_dot_dot(segment: Seq<u8>) -> bool {
    segment.len() == 2 && segment[0] == DOT && segment[1] == DOT
}

/// A component that names a child: not empty, neither `.` nor `..`, and free
/// of separators.
pub open spec fn is_normal(segment: Seq<u8>) -> bool {
    &&& segment.len() > 0
    &&& !is_dot(segment)
    &&& !is_dot_dot(segment)
    &&& forall|i: int| 0 <= i < segment.len() ==> segment[i] != SEPARATOR
}

/// The pieces of `raw` between its separators, in order. There is always one
/// more piece than there are separators, and a piece may be empty.
pub open spec fn segments(raw: Seq<u8>) -> Seq<Seq<u8>>
    decreases raw.len(),
{
    if raw.len() == 0 {
        seq![Seq::<u8>::empty()]
    } else {
        let before = segments(raw.drop_last());
        if raw.last() == SEPARATOR {
            before.push(Seq::<u8>::empty())
        } else {
            before.drop_last().push(before.last().push(raw.last()))
        }
    }
}

/// The pieces that name something: empty pieces and `.` are dropped.
pub open spec fn named(pieces: Seq<Seq<u8>>) -> Seq<Seq<u8>>
    decreases pieces.len(),
{
    if pieces.len() == 0 {
        Seq::<Seq<u8>>::empty()
    } else if pieces.last().len() == 0 || is_dot(pieces.last()) {
        named(pieces.drop_last())
    } else {
        named(pieces.drop_last()).push(pieces.last())
    }
}

/// An entry path that starts at the root of the file system.
pub open spec fn is_absolute(raw: Seq<u8>) -> bool {
    raw.len() > 0 && raw[0] == SEPARATOR
}

/// One of the pieces is `..`.
pub open spec fn has_dot_dot(pieces: Seq<Seq<u8>>) -> bool {
    exists|k: int| 0 <= k < pieces.len() && is_dot_dot(#[trigger] pieces[k])
}

/// An entry path with a `..` component.
pub open spec fn climbs(raw: Seq<u8>) -> bool {
    has_dot_dot(segments(raw))
}

/// The components that an entry path names below its destination, or `None`
/// for a path that could leave the destination: an absolute one, or one that
/// climbs.
pub open spec fn relative_parts(raw: Seq<u8>) -> Option<Seq<Seq<u8>>> {
    if is_absolute(raw) || climbs(raw) {
        None
    } else {
        Some(named(segments(raw)))
    }
}

/// The components held by a vector of byte vectors.
pub open spec fn parts_view(parts: Seq<Vec<u8>>) -> Seq<Seq<u8>> {
    Seq::new(parts.len(), |i: int| parts[i]@)
}

/// Appending a component to the vector appends its bytes to the view.
pub proof fn lemma_parts_view_push(parts: Seq<Vec<u8>>, last: Vec<u8>)
    ensures
        parts_view(parts.push(last)) == parts_view(parts).push(last@),
{
    assert(parts_view(parts.push(last)) =~= parts_view(parts).push(last@));
}

/// No piece between separators holds a separator.
pub proof fn lemma_segments_hold_no_separator(raw: Seq<u8>)
    ensures
        segments(raw).len() > 0,
        forall|k: int, j: int|
            0 <= k < segments(raw).len() && 0 <= j < segments(raw)[k].len() ==> #[trigger] segments(
                raw,
            )[k][j] != SEPARATOR,
    decreases raw.len(),
{
    if raw.len() > 0 {
        lemma_segments_hold_no_separator(raw.drop_last());
    }
}

/// Every piece that names something is one of the pieces, in the same order,
/// is not empty and is not `.`.
pub proof fn lemma_named_are_pieces(pieces: Seq<Seq<u8>>, k: int) -> (from: int)
    requires
        0 <= k < named(pieces).len(),
    ensures
        0 <= from < pieces.len(),
        named(pieces)[k] == pieces[from],
        pieces[from].len() > 0,
        !is_dot(pieces[from]),
    decreases pieces.len(),
{
    if pieces.last().len() == 0 || is_dot(pieces.last()) {
        lemma_named_are_pieces(pieces.drop_last(), k)
    } else if k == named(pieces).len() - 1 {
        pieces.len() - 1
    } else {
        lemma_named_are_pieces(pieces.drop_last(), k)
    }
}

/// The components that an accepted entry path names are all normal.
pub proof fn lemma_relative_parts_are_normal(raw: Seq<u8>)
    ensures
        relative_parts(raw) matches Some(parts) ==> forall|k: int|
            0 <= k < parts.len() ==> is_normal(#[trigger] parts[k]),
{
    if let Some(parts) = relative_parts(raw) {
        lemma_segments_hold_no_separator(raw);
        assert forall|k: int| 0 <= k < parts.len() implies is_normal(#[trigger] parts[k]) by {
            let from = lemma_named_are_pieces(segments(raw), k);
            assert(!is_dot_dot(segments(raw)[from]));
            assert forall|j: int| 0 <= j < parts[k].len() implies parts[k][j] != SEPARATOR by {
                assert(segments(raw)[from][j] != SEPARATOR);
            }
        }
    }
}

/// A list of pieces with one more piece at its end has a `..` exactly if the
/// list had one or the new piece is one.
pub proof fn lemma_has_dot_dot_push(pieces: Seq<Seq<u8>>, last: Seq<u8>)
    ensures
        has_dot_dot(pieces.push(last)) == (has_dot_dot(pieces) || is_dot_dot(last)),
{
    let longer = pieces.push(last);
    if has_dot_dot(pieces) {
        let k = choose|k: int| 0 <= k < pieces.len() && is_dot_dot(#[trigger] pieces[k]);
        assert(is_dot_dot(longer[k]));
    }
    if is_dot_dot(last) {
        assert(is_dot_dot(longer[pieces.len() as int]));
    }
    if has_dot_dot(longer) {
        let k = choose|k: int| 0 <= k < longer.len() && is_dot_dot(#[trigger] longer[k]);
        if k < pieces.len() {
            assert(is_dot_dot(pieces[k]));
        }
    }
}

/// What a [`Location`] stands for.
pub struct LocationView {
    pub base: Seq<u8>,
    pub parts: Seq<Seq<u8>>,
}

impl LocationView {
    /// The location `name` directly below this one.
    pub open spec fn child(self, name: Seq<u8>) -> LocationView {
        LocationView { base: self.base, parts: self.parts.push(name) }
    }

    /// The location reached by descending through `rel`.
    pub open spec fn join(self, rel: Seq<Seq<u8>>) -> LocationView {
        LocationView { base: self.base, parts: self.parts + rel }
    }

    /// This location is `dir` itself or lies below it: same base, the
    /// components of `dir` first, and then only normal components.
    pub open spec fn within(self, dir: LocationView) -> bool {
        &&& self.base == dir.base
        &&& dir.parts.len() <= self.parts.len()
        &&& self.parts.subrange(0, dir.parts.len() as int) == dir.parts
        &&& forall|k: int| dir.parts.len() <= k < self.parts.len() ==> is_normal(#[trigger] self.parts[k])
    }

    /// This location is `dir` itself or has `dir` as a prefix.
    pub open spec fn under(self, dir: LocationView) -> bool {
        &&& self.base == dir.base
        &&& dir.parts.len() <= self.parts.len()
        &&& self.parts.subrange(0, dir.parts.len() as int) == dir.parts
    }
}

/// Descending through normal components stays within the starting place.
pub proof fn lemma_descent_stays_within(dest: LocationView, rel: Seq<Seq<u8>>)
    requires
        forall|k: int| 0 <= k < rel.len() ==> is_normal(#[trigger] rel[k]),
    ensures
        dest.join(rel).within(dest),
{
    let joined = dest.join(rel);
    assert(joined.parts.subrange(0, dest.parts.len() as int) =~= dest.parts);
    assert forall|k: int| dest.parts.len() <= k < joined.parts.len() implies is_normal(
        #[trigger] joined.parts[k],
    ) by {
        assert(joined.parts[k] == rel[k - dest.parts.len()]);
    }
}

/// Two descents from one place that end in the same place went the same way.
pub proof fn lemma_descent_is_injective(dest: LocationView, a: Seq<Seq<u8>>, b: Seq<Seq<u8>>)
    requires
        dest.join(a) == dest.join(b),
    ensures
        a == b,
{
    assert(a.len() == b.len()) by {
        assert((dest.parts + a).len() == (dest.parts + b).len());
    }
    assert forall|k: int| 0 <= k < a.len() implies a[k] == b[k] by {
        assert((dest.parts + a)[dest.parts.len() + k] == a[k]);
        assert((dest.parts + b)[dest.parts.len() + k] == b[k]);
    }
    assert(a =~= b);
}

/// A place on disk: a base directory and the components below it.
#[derive(Debug, PartialEq, Eq)]
pub struct Location {
    pub base: Vec<u8>,
    pub parts: Vec<Vec<u8>>,
}

impl View for Location {
    type V = LocationView;

    open spec fn view(&self) -> LocationView {
        LocationView { base: self.base@, parts: parts_view(self.parts@) }
    }
}

impl Clone for Location {
    fn clone(&self) -> (r: Self)
        ensures
            r@ == self@,
    {
        Location { base: slice_to_vec(self.base.as_slice()), parts: copy_parts(&self.parts) }
    }
}

impl Location {
    /// The location of the base directory itself.
    pub fn new(base: Vec<u8>) -> (r: Location)
        ensures
            r@ == (LocationView { base: base@, parts: Seq::<Seq<u8>>::empty() }),
    {
        let r = Location { base, parts: Vec::new() };
        assert(r@.parts =~= Seq::<Seq<u8>>::empty());
        r
    }

    /// The location `name` directly below this one.
    pub fn child(&self, name: &[u8]) -> (r: Location)
        ensures
            r@ == self@.child(name@),
    {
        let mut parts = copy_parts(&self.parts);
        let ghost copied = parts@;
        let last = slice_to_vec(name);
        proof {
            lemma_parts_view_push(copied, last);
        }
        parts.push(last);
        Location { base: slice_to_vec(self.base.as_slice()), parts }
    }

    /// The location reached from this one by descending through `rel`.
    pub fn join(&self, rel: &Vec<Vec<u8>>) -> (r: Location)
        ensures
            r@ == self@.join(parts_view(rel@)),
    {
        let mut parts = copy_parts(&self.parts);
        let mut i: usize = 0;
        while i < rel.len()
            invariant
                i <= rel.len(),
                parts_view(parts@) == self@.parts + parts_view(rel@).take(i as int),
            decreases rel.len() - i,
        {
            let ghost so_far = parts@;
            let next = slice_to_vec(rel[i].as_slice());
            proof {
                lemma_parts_view_push(so_far, next);
            }
            parts.push(next);
            i = i + 1;
            assert(parts_view(rel@).take(i as int) =~= parts_view(rel@).take(i - 1).push(next@));
            assert(parts_view(parts@) =~= self@.parts + parts_view(rel@).take(i as int));
        }
        assert(parts_view(rel@).take(i as int) =~= parts_view(rel@));
        Location { base: slice_to_vec(self.base.as_slice()), parts }
    }

    /// The location that holds this one, or `None` for the base directory.
    pub fn parent(&self) -> (r: Option<Location>)
        ensures
            self@.parts.len() == 0 ==> r is None,
            self@.parts.len() > 0 ==> (r matches Some(p) && p@ == (LocationView {
                base: self@.base,
                parts: self@.parts.drop_last(),
            })),
    {
        if self.parts.len() == 0 {
            return None;
        }
        let mut parts = copy_parts(&self.parts);
        let ghost copied = parts@;
        parts.pop();
        proof {
            assert(parts_view(copied).len() == copied.len());
            assert(parts_view(self.parts@).len() == self.parts@.len());
            assert forall|k: int| 0 <= k < parts@.len() implies parts_view(parts@)[k]
                == self@.parts[k] by {
                assert(parts_view(copied)[k] == copied[k]@);
            }
            assert(parts_view(parts@) =~= self@.parts.drop_last());
        }
        Some(Location { base: slice_to_vec(self.base.as_slice()), parts })
    }
}

/// A copy of a list of components.
pub fn copy_parts(parts: &Vec<Vec<u8>>) -> (r: Vec<Vec<u8>>)
    ensures
        parts_view(r@) == parts_view(parts@),
{
    let mut out: Vec<Vec<u8>> = Vec::new();
    let mut i: usize = 0;
    while i < parts.len()
        invariant
            i <= parts.len(),
            parts_view(out@) == parts_view(parts@).take(i as int),
        decreases parts.len() - i,
    {
        let ghost so_far = out@;
        let next = slice_to_vec(parts[i].as_slice());
        proof {
            lemma_parts_view_push(so_far, next);
        }
        out.push(next);
        i = i + 1;
        assert(parts_view(parts@).take(i as int) =~= parts_view(parts@).take(i - 1).push(next@));
    }
    assert(parts_view(parts@).take(i as int) =~= parts_view(parts@));
    out
}

/// Whether `segment` is the component `.`.
fn dot(segment: &Vec<u8>) -> (r: bool)
    ensures
        r == is_dot(segment@),
{
    segment.len() == 1 && segment[0] == DOT
}

/// Whether `segment` is the component `..`.
fn dot_dot(segment: &Vec<u8>) -> (r: bool)
    ensures
        r == is_dot_dot(segment@),
{
    segment.len() == 2 && segment[0] == DOT && segment[1] == DOT
}

/// Splits an entry path into the components it names below its destination.
///
/// Empty components and `.` are dropped, so `./a//b/` names `a`, then `b`.
/// A path that starts with a separator, or that has a `..` component, is
/// refused: it could name a place outside the destination.
pub fn parse_relative(raw: &[u8]) -> (r: Option<Vec<Vec<u8>>>)
    ensures
        match relative_parts(raw@) {
            Some(parts) => r matches Some(v) && parts_view(v@) == parts,
            None => r is None,
        },
        r matches Some(v) ==> forall|k: int| 0 <= k < v.len() ==> is_normal(#[trigger] v[k]@),
{
    if raw.len() > 0 && raw[0] == SEPARATOR {
        return None;
    }
    let mut out: Vec<Vec<u8>> = Vec::new();
    let mut current: Vec<u8> = Vec::new();
    let mut climbing = false;
    let ghost mut closed: Seq<Seq<u8>> = Seq::empty();
    let mut i: usize = 0;
    while i < raw.len()
        invariant
            i <= raw.len(),
            segments(raw@.take(i as int)) == closed.push(current@),
            climbing == has_dot_dot(closed),
            !climbing ==> parts_view(out@) == named(closed),
            forall|j: int| 0 <= j < current.len() ==> current[j] != SEPARATOR,
            forall|k: int| 0 <= k < out.len() ==> is_normal(#[trigger] out[k]@),
        decreases raw.len() - i,
    {
        let byte = raw[i];
        proof {
            assert(raw@.take(i + 1).drop_last() =~= raw@.take(i as int));
            assert(raw@.take(i + 1).last() == byte);
            assert(closed.push(current@).drop_last() =~= closed);
        }
        if byte == SEPARATOR {
            proof {
                lemma_has_dot_dot_push(closed, current@);
                closed = closed.push(current@);
            }
            if dot_dot(&current) {
                climbing = true;
            } else if !(current.len() == 0 || dot(&current)) {
                proof {
                    lemma_parts_view_push(out@, current);
                }
                out.push(current);
            }
            current = Vec::new();
        } else {
            current.push(byte);
        }
        i = i + 1;
    }
    proof {
        assert(raw@.take(i as int) =~= raw@);
        assert(closed.push(current@).drop_last() =~= closed);
        lemma_has_dot_dot_push(closed, current@);
    }
    if climbing || dot_dot(&current) {
        return None;
    }
    if !(current.len() == 0 || dot(&current)) {
        proof {
            lemma_parts_view_push(out@, current);
        }
        out.push(current);
    }
    Some(out)
}

} // verus!
