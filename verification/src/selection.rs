//! A selection of background tiles, by their positions in the layer's
//! map, and copying it to the clipboard.
use vstd::prelude::*;
use vstd::relations::{sorted_by, total_ordering};
use crate::engine::BgClipboardSelectedTile;
use crate::types::MapTileRecordData;

verus! {

/// The column of map position `index` in a map `width` tiles wide (cut
/// to 16 bits).
pub open spec fn x_of(index: u32, width: u32) -> u16 {
    (index % width) as u16
}

/// The row of map position `index` in a map `width` tiles wide (cut to
/// 16 bits).
pub open spec fn y_of(index: u32, width: u32) -> u16 {
    (index / width) as u16
}

pub fn get_x_pos_of_map_index(index: u32, width: &u32) -> (r: u16)
    requires
        *width > 0,
    ensures
        r == x_of(index, *width),
{
    (index % *width) as u16
}

pub fn get_y_pos_of_map_index(index: u32, width: &u32) -> (r: u16)
    requires
        *width > 0,
    ensures
        r == y_of(index, *width),
{
    (index / *width) as u16
}

pub open spec fn u32_leq() -> spec_fn(u32, u32) -> bool {
    |a: u32, b: u32| a <= b
}

proof fn lemma_u32_total()
    ensures
        total_ordering(u32_leq()),
{
}

/// The positions in increasing order.
pub fn sorted_indexes(v: &Vec<u32>) -> (r: Vec<u32>)
    ensures
        r@ == v@.sort_by(u32_leq()),
{
    broadcast use vstd::seq_lib::group_to_multiset_ensures;
    let ghost leq = u32_leq();
    let mut out: Vec<u32> = Vec::new();
    let mut i: usize = 0;
    assert(v@.take(0) =~= Seq::<u32>::empty());
    while i < v.len()
        invariant
            i <= v@.len(),
            leq == u32_leq(),
            sorted_by(out@, leq),
            out@.to_multiset() == v@.take(i as int).to_multiset(),
        decreases v@.len() - i,
    {
        let x = v[i];
        let mut p: usize = 0;
        while p < out.len() && out[p] <= x
            invariant
                p <= out@.len(),
                forall|k: int| 0 <= k < p ==> out@[k] <= x,
            decreases out@.len() - p,
        {
            p += 1;
        }
        let ghost before = out@;
        proof {
            vstd::seq_lib::to_multiset_insert(before, p as int, x);
            assert(v@.take(i + 1) =~= v@.take(i as int).push(x));
            vstd::seq_lib::to_multiset_build(v@.take(i as int), x);
        }
        out.insert(p, x);
        proof {
            assert(out@ == before.insert(p as int, x));
            assert(v@.take(i + 1).to_multiset() == v@.take(i as int).to_multiset().insert(x));
            assert forall|a: int, b: int| 0 <= a < b < out@.len() implies leq(out@[a], out@[b]) by {
                if b < p {
                    assert(leq(before[a], before[b]));
                } else if b == p {
                    assert(before[a] <= x);
                } else if a == p {
                    assert(p < before.len() && !(before[p as int] <= x) || p >= before.len());
                    assert(leq(before[p as int], before[b - 1]) || b - 1 == p);
                } else if a < p {
                    assert(leq(before[a], before[b - 1]));
                } else {
                    assert(leq(before[a - 1], before[b - 1]));
                }
            }
        }
        i += 1;
    }
    proof {
        assert(v@.take(i as int) =~= v@);
        lemma_u32_total();
        v@.lemma_sort_by_ensures(leq);
        vstd::seq_lib::lemma_sorted_unique(out@, v@.sort_by(leq), leq);
    }
    out
}

/// The greatest of a non-empty sequence of values.
pub open spec fn seq_max(s: Seq<u16>) -> u16
    decreases s.len(),
{
    if s.len() <= 1 {
        if s.len() == 1 {
            s[0]
        } else {
            0
        }
    } else {
        let m = seq_max(s.drop_last());
        if s.last() > m {
            s.last()
        } else {
            m
        }
    }
}

/// The least of a non-empty sequence of values.
pub open spec fn seq_min(s: Seq<u16>) -> u16
    decreases s.len(),
{
    if s.len() <= 1 {
        if s.len() == 1 {
            s[0]
        } else {
            0xffff
        }
    } else {
        let m = seq_min(s.drop_last());
        if s.last() < m {
            s.last()
        } else {
            m
        }
    }
}

pub proof fn lemma_max_min(s: Seq<u16>)
    requires
        s.len() >= 1,
    ensures
        seq_min(s) <= seq_max(s),
        exists|i: int| 0 <= i < s.len() && s[i] == seq_max(s),
        forall|i: int| 0 <= i < s.len() ==> s[i] <= seq_max(s) && seq_min(s) <= s[i],
    decreases s.len(),
{
    if s.len() > 1 {
        lemma_max_min(s.drop_last());
        let i = choose|i: int| 0 <= i < s.drop_last().len() && s.drop_last()[i] == seq_max(s.drop_last());
        assert(s[i] == s.drop_last()[i]);
        if s.last() > seq_max(s.drop_last()) {
            assert(s[s.len() - 1] == seq_max(s));
        }
        assert forall|k: int| 0 <= k < s.len() implies s[k] <= seq_max(s) && seq_min(s) <= s[k] by {
            if k < s.len() - 1 {
                assert(s[k] == s.drop_last()[k]);
            }
        }
    } else {
        assert(s[0] == seq_max(s));
    }
}

/// The columns of the selected positions.
pub open spec fn xs_of(idx: Seq<u32>, width: u32) -> Seq<u16> {
    idx.map_values(|i: u32| x_of(i, width))
}

/// The rows of the selected positions.
pub open spec fn ys_of(idx: Seq<u32>, width: u32) -> Seq<u16> {
    idx.map_values(|i: u32| y_of(i, width))
}

/// The tiles selected on a background layer, by map position.
pub struct BgSelectData {
    pub dragging: bool,
    /// Positions in the layer's map.
    pub selected_map_indexes: Vec<u32>,
    pub selection_width: u16,
    pub selection_height: u16,
}

impl Default for BgSelectData {
    fn default() -> (r: Self)
        ensures
            !r.dragging,
            r.selected_map_indexes@.len() == 0,
            r.selection_width == 0,
            r.selection_height == 0,
    {
        BgSelectData { dragging: false, selected_map_indexes: Vec::new(), selection_width: 0, selection_height: 0 }
    }
}

/// The extent of values: greatest minus least plus one; 0 for none.
pub open spec fn extent(s: Seq<u16>) -> int {
    if s.len() == 0 {
        0
    } else {
        seq_max(s) - seq_min(s) + 1
    }
}

fn extent_of(vals: &Vec<u16>) -> (r: u16)
    requires
        extent(vals@) <= 0xffff,
    ensures
        r == extent(vals@),
{
    if vals.len() == 0 {
        return 0;
    }
    let mut max_v: u16 = 0;
    let mut min_v: u16 = 0xffff;
    let mut i: usize = 0;
    assert(vals@.take(1).drop_last() =~= Seq::<u16>::empty());
    while i < vals.len()
        invariant
            1 <= vals@.len(),
            i <= vals@.len(),
            i == 0 ==> max_v == 0 && min_v == 0xffff,
            i > 0 ==> max_v == seq_max(vals@.take(i as int)) && min_v == seq_min(vals@.take(i as int)),
        decreases vals@.len() - i,
    {
        let x = vals[i];
        assert(vals@.take(i + 1).drop_last() =~= vals@.take(i as int));
        if x > max_v {
            max_v = x;
        }
        if x < min_v {
            min_v = x;
        }
        i += 1;
    }
    assert(vals@.take(i as int) =~= vals@);
    proof {
        lemma_max_min(vals@);
    }
    max_v - min_v + 1
}

impl BgSelectData {
    /// The selection's width in tiles; 0 when nothing is selected.
    pub fn get_selection_width(&self, map_width: u16) -> (r: u16)
        requires
            self.selected_map_indexes@.len() > 0 ==> map_width > 0,
        ensures
            r == extent(xs_of(self.selected_map_indexes@, map_width as u32)),
    {
        let mut xs: Vec<u16> = Vec::new();
        let mut i: usize = 0;
        while i < self.selected_map_indexes.len()
            invariant
                i <= self.selected_map_indexes@.len(),
                self.selected_map_indexes@.len() > 0 ==> map_width > 0,
                xs@ == xs_of(self.selected_map_indexes@.take(i as int), map_width as u32),
            decreases self.selected_map_indexes@.len() - i,
        {
            xs.push(get_x_pos_of_map_index(self.selected_map_indexes[i], &(map_width as u32)));
            i += 1;
            assert(xs@ =~= xs_of(self.selected_map_indexes@.take(i as int), map_width as u32));
        }
        assert(self.selected_map_indexes@.take(i as int) =~= self.selected_map_indexes@);
        proof {
            if xs@.len() > 0 {
                lemma_max_min(xs@);
                let j = choose|j: int| 0 <= j < xs@.len() && xs@[j] == seq_max(xs@);
                let idx = self.selected_map_indexes@[j];
                assert(xs@[j] == x_of(idx, map_width as u32));
                assert(idx % (map_width as u32) < map_width);
                assert(seq_max(xs@) < map_width);
            }
        }
        extent_of(&xs)
    }

    /// The selection's height in tiles; 0 when nothing is selected.
    pub fn get_selection_height(&self, map_width: u16) -> (r: u16)
        requires
            self.selected_map_indexes@.len() > 0 ==> map_width > 0,
            extent(ys_of(self.selected_map_indexes@, map_width as u32)) <= 0xffff,
        ensures
            r == extent(ys_of(self.selected_map_indexes@, map_width as u32)),
    {
        let mut ys: Vec<u16> = Vec::new();
        let mut i: usize = 0;
        while i < self.selected_map_indexes.len()
            invariant
                i <= self.selected_map_indexes@.len(),
                self.selected_map_indexes@.len() > 0 ==> map_width > 0,
                ys@ == ys_of(self.selected_map_indexes@.take(i as int), map_width as u32),
            decreases self.selected_map_indexes@.len() - i,
        {
            ys.push(get_y_pos_of_map_index(self.selected_map_indexes[i], &(map_width as u32)));
            i += 1;
            assert(ys@ =~= ys_of(self.selected_map_indexes@.take(i as int), map_width as u32));
        }
        assert(self.selected_map_indexes@.take(i as int) =~= self.selected_map_indexes@);
        extent_of(&ys)
    }

    /// Sorts the selection and gives the column and row of its first
    /// (lowest) position; `None` when nothing is selected.
    pub fn get_top_left(&mut self, map_width: u16) -> (r: Option<(u16, u16)>)
        requires
            old(self).selected_map_indexes@.len() > 0 ==> map_width > 0,
        ensures
            final(self).selected_map_indexes@ == old(self).selected_map_indexes@.sort_by(u32_leq()),
            final(self).dragging == old(self).dragging,
            final(self).selection_width == old(self).selection_width,
            final(self).selection_height == old(self).selection_height,
            match r {
                None => old(self).selected_map_indexes@.len() == 0,
                Some((x, y)) => final(self).selected_map_indexes@.len() > 0 && x == x_of(
                    final(self).selected_map_indexes@[0],
                    map_width as u32,
                ) && y == y_of(final(self).selected_map_indexes@[0], map_width as u32),
            },
    {
        broadcast use vstd::seq_lib::group_to_multiset_ensures;
        let sorted = sorted_indexes(&self.selected_map_indexes);
        proof {
            lemma_u32_total();
            old(self).selected_map_indexes@.lemma_sort_by_ensures(u32_leq());
        }
        self.selected_map_indexes = sorted;
        proof {
            assert(self.selected_map_indexes@.to_multiset().len() == old(self).selected_map_indexes@.to_multiset().len());
        }
        if self.selected_map_indexes.len() == 0 {
            return None;
        }
        let first = self.selected_map_indexes[0];
        let w = map_width as u32;
        Some((get_x_pos_of_map_index(first, &w), get_y_pos_of_map_index(first, &w)))
    }

    /// The selected tiles with their offsets from the top-left selected
    /// position; the selection is sorted first.
    pub fn to_clipboard_tiles(&mut self, map_width: u16, map_tiles: &[MapTileRecordData]) -> (r: Vec<BgClipboardSelectedTile>)
        requires
            old(self).selected_map_indexes@.len() > 0 ==> map_width > 0,
            forall|i: int| 0 <= i < old(self).selected_map_indexes@.len() ==> (#[trigger] old(self).selected_map_indexes@[i]) < map_tiles@.len(),
        ensures
            final(self).selected_map_indexes@ == old(self).selected_map_indexes@.sort_by(u32_leq()),
            r@.len() == final(self).selected_map_indexes@.len(),
            forall|i: int| 0 <= i < r@.len() ==> {
                let s = final(self).selected_map_indexes@;
                let w = map_width as u32;
                &&& (#[trigger] r@[i]).tile == map_tiles@[s[i] as int]
                &&& r@[i].x_offset == x_of(s[i], w) - x_of(s[0], w)
                &&& r@[i].y_offset == y_of(s[i], w) - y_of(s[0], w)
            },
    {
        broadcast use vstd::seq_lib::group_to_multiset_ensures;
        let mut ret: Vec<BgClipboardSelectedTile> = Vec::new();
        if self.selected_map_indexes.len() == 0 {
            proof {
                lemma_u32_total();
                old(self).selected_map_indexes@.lemma_sort_by_ensures(u32_leq());
                assert(old(self).selected_map_indexes@.sort_by(u32_leq()).to_multiset().len() == 0);
                assert(old(self).selected_map_indexes@.sort_by(u32_leq()) =~= old(self).selected_map_indexes@);
            }
            return ret;
        }
        let top_left = self.get_top_left(map_width);
        let (tx, ty) = match top_left {
            Some(p) => p,
            None => {
                return ret;
            },
        };
        proof {
            lemma_u32_total();
            old(self).selected_map_indexes@.lemma_sort_by_ensures(u32_leq());
            assert forall|i: int| 0 <= i < self.selected_map_indexes@.len() implies (#[trigger] self.selected_map_indexes@[i]) < map_tiles@.len() by {
                let x = self.selected_map_indexes@[i];
                assert(self.selected_map_indexes@.contains(x));
                assert(self.selected_map_indexes@.to_multiset().count(x) > 0);
                assert(old(self).selected_map_indexes@.contains(x));
            }
        }
        let w = map_width as u32;
        let mut i: usize = 0;
        while i < self.selected_map_indexes.len()
            invariant
                i <= self.selected_map_indexes@.len(),
                self.selected_map_indexes@.len() > 0,
                w == map_width as u32,
                w > 0,
                tx == x_of(self.selected_map_indexes@[0], w),
                ty == y_of(self.selected_map_indexes@[0], w),
                forall|k: int| 0 <= k < self.selected_map_indexes@.len() ==> (#[trigger] self.selected_map_indexes@[k]) < map_tiles@.len(),
                ret@.len() == i,
                forall|k: int| 0 <= k < i ==> {
                    let s = self.selected_map_indexes@;
                    &&& (#[trigger] ret@[k]).tile == map_tiles@[s[k] as int]
                    &&& ret@[k].x_offset == x_of(s[k], w) - x_of(s[0], w)
                    &&& ret@[k].y_offset == y_of(s[k], w) - y_of(s[0], w)
                },
            decreases self.selected_map_indexes@.len() - i,
        {
            let idx = self.selected_map_indexes[i];
            let ax = get_x_pos_of_map_index(idx, &w) as i32;
            let ay = get_y_pos_of_map_index(idx, &w) as i32;
            let clip = BgClipboardSelectedTile {
                tile: map_tiles[idx as usize],
                x_offset: ax - tx as i32,
                y_offset: ay - ty as i32,
            };
            ret.push(clip);
            i += 1;
        }
        ret
    }

    /// Empties the selection.
    pub fn clear(&mut self)
        ensures
            !final(self).dragging,
            final(self).selected_map_indexes@.len() == 0,
            final(self).selection_width == 0,
            final(self).selection_height == 0,
    {
        self.dragging = false;
        self.selected_map_indexes.clear();
        self.selection_height = 0;
        self.selection_width = 0;
    }
}

} // verus!
