//! PATH: lines of points that some objects follow.
use vstd::prelude::*;
use vstd::string::*;
use vstd::utf8::encode_utf8;
use crate::bytes::{
    le16, le32, le_i16, u32_bytes, i16_bytes, push_i16, push_u32, push_all, read_i16, read_u32,
    lemma_i16_roundtrip, lemma_u32_roundtrip,
};
use crate::compression::{segment_wrap, wrapped_segment};
use crate::ids::new_uuid;
use crate::segments::TopLevelSegment;
use crate::types::Compilable;

verus! {

#[derive(Debug, Clone, Copy, PartialEq, Eq)]
pub struct PathPoint {
    pub angle: i16,
    pub distance: i16,
    pub x_fine: u32,
    pub y_fine: u32,
    pub uuid: u128,
}

/// What a point stores in the file.
pub ghost struct PointView {
    pub angle: i16,
    pub distance: i16,
    pub x_fine: u32,
    pub y_fine: u32,
}

impl View for PathPoint {
    type V = PointView;

    open spec fn view(&self) -> PointView {
        PointView { angle: self.angle, distance: self.distance, x_fine: self.x_fine, y_fine: self.y_fine }
    }
}

pub open spec fn point_bytes(p: PointView) -> Seq<u8> {
    i16_bytes(p.angle) + i16_bytes(p.distance) + u32_bytes(p.x_fine) + u32_bytes(p.y_fine)
}

/// The point stored at `p`.
pub open spec fn point_at(s: Seq<u8>, p: int) -> PointView {
    PointView { angle: le_i16(s, p), distance: le_i16(s, p + 2), x_fine: le32(s, p + 4), y_fine: le32(s, p + 8) }
}

impl PathPoint {
    /// A point with a fresh identifier.
    pub fn new(angle: i16, distance: i16, x_fine: u32, y_fine: u32) -> (r: Self)
        ensures
            r@ == (PointView { angle, distance, x_fine, y_fine }),
    {
        PathPoint { angle, distance, x_fine, y_fine, uuid: new_uuid() }
    }
}

impl Default for PathPoint {
    fn default() -> (r: Self)
        ensures
            r@ == (PointView { angle: 0, distance: 1, x_fine: 0, y_fine: 0 }),
    {
        PathPoint::new(0, 1, 0, 0)
    }
}

impl Compilable for PathPoint {
    open spec fn spec_compile(&self) -> Seq<u8> {
        point_bytes(self@)
    }

    open spec fn can_compile(&self) -> bool {
        true
    }

    fn compile(&self) -> (r: Vec<u8>) {
        let mut comp: Vec<u8> = Vec::new();
        push_i16(&mut comp, self.angle);
        push_i16(&mut comp, self.distance);
        push_u32(&mut comp, self.x_fine);
        push_u32(&mut comp, self.y_fine);
        assert(comp@ =~= point_bytes(self@));
        comp
    }
}

#[derive(Debug, Clone, PartialEq)]
pub struct PathLine {
    pub points: Vec<PathPoint>,
    pub uuid: u128,
}

impl Default for PathLine {
    fn default() -> (r: Self)
        ensures
            r.points@.len() == 0,
    {
        PathLine { points: Vec::new(), uuid: new_uuid() }
    }
}

#[derive(Debug, Clone, PartialEq)]
pub struct PathDatabase {
    pub path_count: u32,
    pub lines: Vec<PathLine>,
}

impl Default for PathDatabase {
    fn default() -> (r: Self)
        ensures
            r.path_count == 0,
            r.lines@.len() == 0,
    {
        PathDatabase { path_count: 0, lines: Vec::new() }
    }
}

/// The points of a line, as stored.
pub open spec fn line_view(l: PathLine) -> Seq<PointView> {
    l.points@.map_values(|p: PathPoint| p@)
}

/// The abstract value of a path database.
pub ghost struct PathView {
    pub path_count: u32,
    pub lines: Seq<Seq<PointView>>,
}

impl View for PathDatabase {
    type V = PathView;

    open spec fn view(&self) -> PathView {
        PathView { path_count: self.path_count, lines: self.lines@.map_values(|l: PathLine| line_view(l)) }
    }
}

/// One line read from `p`: points up to and including the first with a
/// distance of zero, and where reading continues. `None` when the data
/// ends first.
pub open spec fn line_from(s: Seq<u8>, p: int) -> Option<(Seq<PointView>, int)>
    decreases s.len() - p,
{
    if p < 0 || p + 12 > s.len() {
        None
    } else if point_at(s, p).distance == 0 {
        Some((seq![point_at(s, p)], p + 12))
    } else {
        match line_from(s, p + 12) {
            Some((pts, q)) => Some((seq![point_at(s, p)] + pts, q)),
            None => None,
        }
    }
}

/// `n` lines read from `p`.
pub open spec fn lines_from(s: Seq<u8>, p: int, n: nat) -> Option<Seq<Seq<PointView>>>
    decreases n,
{
    if n == 0 {
        Some(Seq::empty())
    } else {
        match line_from(s, p) {
            Some((l, q)) => match lines_from(s, q, (n - 1) as nat) {
                Some(ls) => Some(seq![l] + ls),
                None => None,
            },
            None => None,
        }
    }
}

/// PATH bodies whose lines run past the end of the data (the reader
/// panics on them).
pub open spec fn path_truncated(s: Seq<u8>) -> bool {
    s.len() >= 4 && lines_from(s, 4, le32(s, 0) as nat) is None
}

/// The database a PATH body holds: the line count, then the lines. A body
/// shorter than the count gives the empty database.
pub open spec fn path_of(s: Seq<u8>) -> PathView {
    if s.len() < 4 {
        PathView { path_count: 0, lines: Seq::empty() }
    } else {
        PathView { path_count: le32(s, 0), lines: lines_from(s, 4, le32(s, 0) as nat)->0 }
    }
}

proof fn lemma_line_from_advances(s: Seq<u8>, p: int)
    ensures
        line_from(s, p) matches Some((pts, q)) ==> q >= p + 12 && q <= s.len() && pts.len() >= 1,
    decreases s.len() - p,
{
    if p >= 0 && p + 12 <= s.len() && point_at(s, p).distance != 0 {
        lemma_line_from_advances(s, p + 12);
    }
}

/// Reads one line from `pos`.
fn read_line(s: &[u8], pos: usize) -> (r: Option<(PathLine, usize)>)
    ensures
        match (r, line_from(s@, pos as int)) {
            (None, None) => true,
            (Some((l, q)), Some((pts, q2))) => line_view(l) == pts && q == q2,
            _ => false,
        },
{
    let mut line = PathLine::default();
    let mut p = pos;
    let ghost mut acc: Seq<PointView> = Seq::empty();
    proof {
        assert(line_view(line) =~= acc);
    }
    loop
        invariant
            pos <= p,
            line_view(line) == acc,
            line_from(s@, pos as int) == (match line_from(s@, p as int) {
                Some((pts, q)) => Some((acc + pts, q)),
                None => None,
            }),
        decreases s@.len() - p,
    {
        if p > s.len() || s.len() - p < 12 {
            return None;
        }
        let angle = read_i16(s, p);
        let distance = read_i16(s, p + 2);
        let x_fine = read_u32(s, p + 4);
        let y_fine = read_u32(s, p + 8);
        let point = PathPoint::new(angle, distance, x_fine, y_fine);
        line.points.push(point);
        proof {
            assert(line_view(line) =~= acc.push(point_at(s@, p as int)));
            if distance != 0 {
                match line_from(s@, p + 12) {
                    Some((pts, q)) => {
                        assert(acc + (seq![point_at(s@, p as int)] + pts) =~= acc.push(point_at(s@, p as int)) + pts);
                    },
                    None => {},
                }
            } else {
                assert(acc + seq![point_at(s@, p as int)] =~= acc.push(point_at(s@, p as int)));
            }
            acc = acc.push(point_at(s@, p as int));
        }
        p = p + 12;
        if distance == 0 {
            return Some((line, p));
        }
    }
}

/// The position of the first line with the identifier.
pub open spec fn first_line(ls: Seq<PathLine>, uuid: u128, i: int) -> bool {
    &&& 0 <= i < ls.len()
    &&& ls[i].uuid == uuid
    &&& forall|j: int| 0 <= j < i ==> (#[trigger] ls[j]).uuid != uuid
}

impl PathDatabase {
    /// Reads a PATH body, or gives `None` when a line runs past the end.
    pub(crate) fn parse(byte_data: &Vec<u8>) -> (r: Option<Self>)
        ensures
            r is None <==> path_truncated(byte_data@),
            r matches Some(p) ==> p@ == path_of(byte_data@),
    {
        let mut ret = PathDatabase::default();
        if byte_data.len() < 4 {
            assert(ret@.lines =~= Seq::<Seq<PointView>>::empty());
            return Some(ret);
        }
        ret.path_count = read_u32(byte_data.as_slice(), 0);
        let ghost n = ret.path_count as nat;
        let mut path_index: u32 = 0;
        let mut pos: usize = 4;
        let ghost mut acc: Seq<Seq<PointView>> = Seq::empty();
        assert(ret.lines@.map_values(|l: PathLine| line_view(l)) =~= acc);
        while path_index < ret.path_count
            invariant
                path_index <= ret.path_count,
                ret.path_count == le32(byte_data@, 0),
                n == ret.path_count,
                byte_data@.len() >= 4,
                ret.lines@.map_values(|l: PathLine| line_view(l)) == acc,
                lines_from(byte_data@, 4, n) == (match lines_from(byte_data@, pos as int, (n - path_index) as nat) {
                    Some(ls) => Some(acc + ls),
                    None => None,
                }),
            decreases ret.path_count - path_index,
        {
            match read_line(byte_data.as_slice(), pos) {
                Some((line, q)) => {
                    proof {
                        let rest = lines_from(byte_data@, q as int, (n - path_index - 1) as nat);
                        match rest {
                            Some(ls) => {
                                assert(acc + (seq![line_view(line)] + ls) =~= acc.push(line_view(line)) + ls);
                            },
                            None => {},
                        }
                        assert(ret.lines@.push(line).map_values(|l: PathLine| line_view(l)) =~= acc.push(line_view(line)));
                        acc = acc.push(line_view(line));
                    }
                    ret.lines.push(line);
                    pos = q;
                },
                None => {
                    return None;
                },
            }
            path_index += 1;
        }
        assert(acc + Seq::<Seq<PointView>>::empty() =~= acc);
        Some(ret)
    }

    /// Reads a PATH body; lines and points get fresh identifiers.
    pub fn new(byte_data: &Vec<u8>) -> (r: Self)
        requires
            !path_truncated(byte_data@),
        ensures
            r@ == path_of(byte_data@),
    {
        match Self::parse(byte_data) {
            Some(p) => p,
            None => PathDatabase::default(),
        }
    }

    /// Removes the first line with the identifier; `Err` when there is none.
    pub fn delete_line(&mut self, line_uuid: u128) -> (r: Result<(), ()>)
        ensures
            r is Ok == exists|i: int| 0 <= i < old(self).lines@.len() && old(self).lines@[i].uuid == line_uuid,
            r is Ok ==> exists|i: int|
                first_line(old(self).lines@, line_uuid, i) && final(self).lines@ == old(self).lines@.remove(i),
            r is Err ==> final(self).lines@ == old(self).lines@,
            final(self).path_count == old(self).path_count,
    {
        let mut i: usize = 0;
        while i < self.lines.len()
            invariant
                i <= self.lines@.len(),
                self.lines@ == old(self).lines@,
                self.path_count == old(self).path_count,
                forall|j: int| 0 <= j < i ==> (#[trigger] self.lines@[j]).uuid != line_uuid,
            decreases self.lines@.len() - i,
        {
            if self.lines[i].uuid == line_uuid {
                let ghost before = self.lines@;
                self.lines.remove(i);
                assert(first_line(before, line_uuid, i as int));
                return Ok(());
            }
            i += 1;
        }
        Err(())
    }
}

/// The bytes of the points of a line.
pub open spec fn points_bytes(ps: Seq<PointView>) -> Seq<u8>
    decreases ps.len(),
{
    if ps.len() == 0 {
        Seq::empty()
    } else {
        points_bytes(ps.drop_last()) + point_bytes(ps.last())
    }
}

/// The bytes of all the lines, one after the other.
pub open spec fn lines_bytes(ls: Seq<Seq<PointView>>) -> Seq<u8>
    decreases ls.len(),
{
    if ls.len() == 0 {
        Seq::empty()
    } else {
        lines_bytes(ls.drop_last()) + points_bytes(ls.last())
    }
}

impl TopLevelSegment for PathDatabase {
    /// The number of lines, then their points; the stored count is not
    /// written, the number of lines is.
    open spec fn spec_compile(&self) -> Seq<u8> {
        u32_bytes(self.lines@.len() as u32) + lines_bytes(self@.lines)
    }

    open spec fn spec_wrap(&self) -> Seq<u8> {
        wrapped_segment(self.spec_compile(), encode_utf8("PATH"@))
    }

    open spec fn spec_header(&self) -> Seq<char> {
        "PATH"@
    }

    open spec fn can_compile(&self) -> bool {
        true
    }

    fn compile(&self) -> (r: Vec<u8>) {
        let mut comp: Vec<u8> = Vec::new();
        push_u32(&mut comp, self.lines.len() as u32);
        let ghost head = comp@;
        let ghost lv = self@.lines;
        let mut i: usize = 0;
        while i < self.lines.len()
            invariant
                i <= self.lines@.len(),
                lv == self@.lines,
                comp@ == head + lines_bytes(lv.take(i as int)),
            decreases self.lines@.len() - i,
        {
            let line = &self.lines[i];
            let ghost before = comp@;
            let mut j: usize = 0;
            while j < line.points.len()
                invariant
                    j <= line.points@.len(),
                    *line == self.lines@[i as int],
                    i < self.lines@.len(),
                    comp@ == before + points_bytes(line_view(*line).take(j as int)),
                decreases line.points@.len() - j,
            {
                let b = line.points[j].compile();
                assert(line_view(*line).take(j + 1).drop_last() =~= line_view(*line).take(j as int));
                push_all(&mut comp, b.as_slice());
                j += 1;
            }
            assert(line_view(*line).take(j as int) =~= line_view(*line));
            assert(lv.take(i + 1).drop_last() =~= lv.take(i as int));
            assert(lv[i as int] == line_view(*line));
            assert(comp@ =~= head + lines_bytes(lv.take(i + 1)));
            i += 1;
        }
        assert(lv.take(i as int) =~= lv);
        comp
    }

    fn wrap(&self) -> (r: Vec<u8>) {
        let comp = self.compile();
        segment_wrap(&comp, String::from_str("PATH"))
    }

    fn header(&self) -> (r: String) {
        String::from_str("PATH")
    }
}

} // verus!

verus! {

/// A line as the reader finds it: at least one point, the last one with a
/// distance of zero and no other.
pub open spec fn line_well_formed(l: Seq<PointView>) -> bool {
    &&& l.len() >= 1
    &&& l.last().distance == 0
    &&& forall|k: int| 0 <= k < l.len() - 1 ==> (#[trigger] l[k]).distance != 0
}

proof fn lemma_point_read(pre: Seq<u8>, p: PointView, post: Seq<u8>)
    ensures
        point_at(pre + point_bytes(p) + post, pre.len() as int) == p,
{
    let s = pre + point_bytes(p) + post;
    let n = pre.len() as int;
    lemma_i16_roundtrip(p.angle);
    lemma_i16_roundtrip(p.distance);
    lemma_u32_roundtrip(p.x_fine);
    lemma_u32_roundtrip(p.y_fine);
    let pb = point_bytes(p);
    assert(pb.len() == 12);
    assert(s.subrange(n, n + 2) =~= i16_bytes(p.angle));
    assert(s.subrange(n + 2, n + 4) =~= i16_bytes(p.distance));
    assert(s.subrange(n + 4, n + 8) =~= u32_bytes(p.x_fine));
    assert(s.subrange(n + 8, n + 12) =~= u32_bytes(p.y_fine));
    assert(le_i16(s, n) == le_i16(i16_bytes(p.angle), 0));
    assert(le_i16(s, n + 2) == le_i16(i16_bytes(p.distance), 0));
    assert(le32(s, n + 4) == le32(u32_bytes(p.x_fine), 0));
    assert(le32(s, n + 8) == le32(u32_bytes(p.y_fine), 0));
}

proof fn lemma_points_bytes_front(ps: Seq<PointView>)
    requires
        ps.len() > 0,
    ensures
        points_bytes(ps) == point_bytes(ps[0]) + points_bytes(ps.skip(1)),
        points_bytes(ps).len() == 12 * ps.len(),
    decreases ps.len(),
{
    if ps.len() == 1 {
        assert(ps.drop_last() =~= Seq::<PointView>::empty());
        assert(ps.skip(1) =~= Seq::<PointView>::empty());
        assert(points_bytes(ps) =~= point_bytes(ps[0]) + points_bytes(ps.skip(1)));
    } else {
        lemma_points_bytes_front(ps.drop_last());
        assert(ps.skip(1).drop_last() =~= ps.drop_last().skip(1));
        assert(ps.skip(1).last() == ps.last());
        assert(points_bytes(ps) =~= point_bytes(ps[0]) + points_bytes(ps.skip(1)));
    }
}

#[verifier::spinoff_prover]
#[verifier::rlimit(60)]
proof fn lemma_line_read(pre: Seq<u8>, l: Seq<PointView>, post: Seq<u8>)
    requires
        line_well_formed(l),
    ensures
        line_from(pre + points_bytes(l) + post, pre.len() as int) == Some(
            (l, (pre.len() + points_bytes(l).len()) as int),
        ),
    decreases l.len(),
{
    lemma_points_bytes_front(l);
    let s = pre + points_bytes(l) + post;
    let rest = l.skip(1);
    assert(s =~= pre + point_bytes(l[0]) + (points_bytes(rest) + post));
    lemma_point_read(pre, l[0], points_bytes(rest) + post);
    if l.len() == 1 {
        assert(l =~= seq![l[0]]);
    } else {
        assert(l[0].distance != 0);
        assert(line_well_formed(rest)) by {
            assert(rest.last() == l.last());
            assert forall|k: int| 0 <= k < rest.len() - 1 implies (#[trigger] rest[k]).distance != 0 by {
                assert(rest[k] == l[k + 1]);
            }
        }
        let pre2 = pre + point_bytes(l[0]);
        lemma_line_read(pre2, rest, post);
        assert(s =~= pre2 + points_bytes(rest) + post);
        assert(seq![l[0]] + rest =~= l);
    }
}

proof fn lemma_lines_bytes_front(ls: Seq<Seq<PointView>>)
    requires
        ls.len() > 0,
    ensures
        lines_bytes(ls) == points_bytes(ls[0]) + lines_bytes(ls.skip(1)),
    decreases ls.len(),
{
    if ls.len() == 1 {
        assert(ls.drop_last() =~= Seq::<Seq<PointView>>::empty());
        assert(ls.skip(1) =~= Seq::<Seq<PointView>>::empty());
        assert(lines_bytes(ls) =~= points_bytes(ls[0]) + lines_bytes(ls.skip(1)));
    } else {
        lemma_lines_bytes_front(ls.drop_last());
        assert(ls.skip(1).drop_last() =~= ls.drop_last().skip(1));
        assert(ls.skip(1).last() == ls.last());
        assert(lines_bytes(ls) =~= points_bytes(ls[0]) + lines_bytes(ls.skip(1)));
    }
}

#[verifier::spinoff_prover]
#[verifier::rlimit(60)]
proof fn lemma_lines_read(pre: Seq<u8>, ls: Seq<Seq<PointView>>, post: Seq<u8>)
    requires
        forall|i: int| 0 <= i < ls.len() ==> line_well_formed(#[trigger] ls[i]),
    ensures
        lines_from(pre + lines_bytes(ls) + post, pre.len() as int, ls.len()) == Some(ls),
    decreases ls.len(),
{
    if ls.len() == 0 {
        assert(ls =~= Seq::<Seq<PointView>>::empty());
    } else {
        lemma_lines_bytes_front(ls);
        let rest = ls.skip(1);
        let s = pre + lines_bytes(ls) + post;
        assert(line_well_formed(ls[0]));
        assert(s =~= pre + points_bytes(ls[0]) + (lines_bytes(rest) + post));
        lemma_line_read(pre, ls[0], lines_bytes(rest) + post);
        let pre2 = pre + points_bytes(ls[0]);
        assert forall|i: int| 0 <= i < rest.len() implies line_well_formed(#[trigger] rest[i]) by {
            assert(rest[i] == ls[i + 1]);
        }
        lemma_lines_read(pre2, rest, post);
        assert(s =~= pre2 + lines_bytes(rest) + post);
        assert(seq![ls[0]] + rest =~= ls);
    }
}

/// Reading back what `compile` wrote gives the same lines, when each line
/// ends at its only zero-distance point and the count fits in 32 bits.
pub proof fn law_path_roundtrip(ls: Seq<Seq<PointView>>)
    requires
        ls.len() <= u32::MAX,
        forall|i: int| 0 <= i < ls.len() ==> line_well_formed(#[trigger] ls[i]),
    ensures
        !path_truncated(u32_bytes(ls.len() as u32) + lines_bytes(ls)),
        path_of(u32_bytes(ls.len() as u32) + lines_bytes(ls)) == (PathView {
            path_count: ls.len() as u32,
            lines: ls,
        }),
{
    let h = u32_bytes(ls.len() as u32);
    let s = h + lines_bytes(ls);
    lemma_u32_roundtrip(ls.len() as u32);
    assert(s.subrange(0, 4) =~= h);
    assert(le32(s, 0) == le32(h, 0));
    lemma_lines_read(h, ls, Seq::empty());
    assert(s =~= h + lines_bytes(ls) + Seq::<u8>::empty());
}

} // verus!

verus! {

/// A direction of a path segment, as the paths window edits it.
#[derive(Clone, Copy, PartialEq, Eq, Structural, PartialOrd, Ord, Debug)]
pub struct PathAngle {
    pub x: i16,
    pub y: i16,
}

} // verus!

verus! {

/// The line and point chosen in the paths window (nil when none).
#[derive(Debug, Clone, Copy, PartialEq, Eq)]
pub struct PathSettings {
    pub selected_line: u128,
    pub selected_point: u128,
}

impl Default for PathSettings {
    fn default() -> (r: Self)
        ensures
            r.selected_line == crate::ids::NIL_UUID,
            r.selected_point == crate::ids::NIL_UUID,
    {
        PathSettings { selected_line: crate::ids::NIL_UUID, selected_point: crate::ids::NIL_UUID }
    }
}

} // verus!
