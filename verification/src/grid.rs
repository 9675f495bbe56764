//! Row-wise resizing of row-major tile grids.
use vstd::prelude::*;

verus! {

/// `k` copies of `blank`.
pub open spec fn blanks<T>(k: nat, blank: T) -> Seq<T> {
    Seq::new(k, |i: int| blank)
}

/// Each complete row of `w` entries gets `k` blank entries appended; a
/// trailing incomplete row is kept as it is.
pub open spec fn widened<T>(s: Seq<T>, w: nat, k: nat, blank: T) -> Seq<T>
    decreases s.len(),
{
    if w == 0 || s.len() < w {
        s
    } else {
        s.take(w as int) + blanks(k, blank) + widened(s.skip(w as int), w, k, blank)
    }
}

/// Each complete row of `w` entries loses its last `d` entries; a trailing
/// incomplete row is kept as it is.
pub open spec fn narrowed<T>(s: Seq<T>, w: nat, d: nat) -> Seq<T>
    decreases s.len(),
{
    if w == 0 || s.len() < w {
        s
    } else {
        s.take(w - d) + narrowed(s.skip(w as int), w, d)
    }
}

/// Narrowing by the amount a grid was widened gives the grid back.
pub proof fn law_narrow_undoes_widen<T>(s: Seq<T>, w: nat, k: nat, blank: T)
    requires
        w > 0,
    ensures
        narrowed(widened(s, w, k, blank), w + k, k) == s,
    decreases s.len(),
{
    let ws = widened(s, w, k, blank);
    if s.len() < w {
        assert(ws == s);
        assert(narrowed(s, w + k, k) == s);
    } else {
        let rest = widened(s.skip(w as int), w, k, blank);
        law_narrow_undoes_widen(s.skip(w as int), w, k, blank);
        let row = s.take(w as int) + blanks(k, blank);
        assert(ws == row + rest);
        assert((row + rest).take((w + k) as int) =~= row);
        assert((row + rest).skip((w + k) as int) =~= rest);
        assert(row.take(w as int) =~= s.take(w as int));
        assert(narrowed(ws, w + k, k) == s.take(w as int) + narrowed(rest, w + k, k));
        assert(s.take(w as int) + s.skip(w as int) =~= s);
    }
}

proof fn lemma_widened_step<T>(s: Seq<T>, pos: int, w: nat, k: nat, blank: T)
    requires
        w > 0,
        0 <= pos,
        pos + w <= s.len(),
    ensures
        widened(s.skip(pos), w, k, blank) == s.subrange(pos, pos + w) + blanks(k, blank) + widened(
            s.skip(pos + w),
            w,
            k,
            blank,
        ),
{
    assert(s.skip(pos).take(w as int) =~= s.subrange(pos, pos + w));
    assert(s.skip(pos).skip(w as int) =~= s.skip(pos + w));
}

proof fn lemma_narrowed_step<T>(s: Seq<T>, pos: int, w: nat, d: nat)
    requires
        w > 0,
        d <= w,
        0 <= pos,
        pos + w <= s.len(),
    ensures
        narrowed(s.skip(pos), w, d) == s.subrange(pos, pos + w - d) + narrowed(s.skip(pos + w), w, d),
{
    assert(s.skip(pos).take(w - d) =~= s.subrange(pos, pos + w - d));
    assert(s.skip(pos).skip(w as int) =~= s.skip(pos + w));
}

/// Length of a widened grid.
pub proof fn lemma_widened_len<T>(s: Seq<T>, w: nat, k: nat, blank: T)
    requires
        w > 0,
    ensures
        widened(s, w, k, blank).len() == s.len() + k * (s.len() / w),
    decreases s.len(),
{
    let l = s.len() as int;
    let wi = w as int;
    let ki = k as int;
    if s.len() >= w {
        lemma_widened_len(s.skip(w as int), w, k, blank);
        assert((l - wi) / wi == l / wi - 1) by (nonlinear_arith)
            requires
                l >= wi,
                wi > 0,
        ;
        assert(ki * (l / wi) == ki * ((l - wi) / wi) + ki) by (nonlinear_arith)
            requires
                (l - wi) / wi == l / wi - 1,
        ;
    } else {
        assert(l / wi == 0) by (nonlinear_arith)
            requires
                0 <= l < wi,
        ;
    }
}

/// Builds the widened grid.
pub fn widen_rows<T: Copy>(s: &Vec<T>, w: usize, k: usize, blank: T) -> (r: Vec<T>)
    requires
        w > 0,
        s@.len() + k * (s@.len() / (w as nat)) <= usize::MAX,
    ensures
        r@ == widened(s@, w as nat, k as nat, blank),
{
    let mut out: Vec<T> = Vec::new();
    let mut pos: usize = 0;
    let n = s.len();
    proof {
        lemma_widened_len(s@, w as nat, k as nat, blank);
        assert(s@.skip(0) =~= s@);
    }
    while w <= n - pos
        invariant
            w > 0,
            n == s@.len(),
            pos <= n,
            out@ + widened(s@.skip(pos as int), w as nat, k as nat, blank) == widened(
                s@,
                w as nat,
                k as nat,
                blank,
            ),
            widened(s@, w as nat, k as nat, blank).len() <= usize::MAX,
        decreases n - pos,
    {
        proof {
            lemma_widened_step(s@, pos as int, w as nat, k as nat, blank);
        }
        let ghost before = out@;
        let mut j: usize = 0;
        while j < w
            invariant
                j <= w,
                pos + w <= n,
                n == s@.len(),
                out@ == before + s@.subrange(pos as int, pos + j),
            decreases w - j,
        {
            out.push(s[pos + j]);
            j += 1;
            assert(out@ =~= before + s@.subrange(pos as int, pos + j));
        }
        let ghost mid = out@;
        let mut b: usize = 0;
        while b < k
            invariant
                b <= k,
                out@ == mid + blanks(b as nat, blank),
            decreases k - b,
        {
            out.push(blank);
            b += 1;
            assert(out@ =~= mid + blanks(b as nat, blank));
        }
        assert(out@ =~= before + (s@.subrange(pos as int, pos + w) + blanks(k as nat, blank)));
        pos = pos + w;
    }
    let ghost before = out@;
    assert(widened(s@.skip(pos as int), w as nat, k as nat, blank) == s@.skip(pos as int));
    while pos < n
        invariant
            pos <= n,
            n == s@.len(),
            out@ + s@.skip(pos as int) == widened(s@, w as nat, k as nat, blank),
        decreases n - pos,
    {
        assert(s@.skip(pos as int) =~= seq![s@[pos as int]] + s@.skip(pos + 1));
        out.push(s[pos]);
        pos += 1;
    }
    assert(s@.skip(pos as int) =~= Seq::<T>::empty());
    assert(out@ =~= widened(s@, w as nat, k as nat, blank));
    out
}

/// Builds the narrowed grid.
pub fn narrow_rows<T: Copy>(s: &Vec<T>, w: usize, d: usize) -> (r: Vec<T>)
    requires
        w > 0,
        d <= w,
    ensures
        r@ == narrowed(s@, w as nat, d as nat),
{
    let mut out: Vec<T> = Vec::new();
    let mut pos: usize = 0;
    let n = s.len();
    proof {
        assert(s@.skip(0) =~= s@);
    }
    while w <= n - pos
        invariant
            w > 0,
            d <= w,
            n == s@.len(),
            pos <= n,
            out@ + narrowed(s@.skip(pos as int), w as nat, d as nat) == narrowed(s@, w as nat, d as nat),
        decreases n - pos,
    {
        proof {
            lemma_narrowed_step(s@, pos as int, w as nat, d as nat);
        }
        let ghost before = out@;
        let mut j: usize = 0;
        while j < w - d
            invariant
                j <= w - d,
                d <= w,
                pos + w <= n,
                n == s@.len(),
                out@ == before + s@.subrange(pos as int, pos + j),
            decreases w - d - j,
        {
            out.push(s[pos + j]);
            j += 1;
            assert(out@ =~= before + s@.subrange(pos as int, pos + j));
        }
        assert(out@ =~= before + s@.subrange(pos as int, pos + w - d));
        pos = pos + w;
    }
    assert(narrowed(s@.skip(pos as int), w as nat, d as nat) == s@.skip(pos as int));
    while pos < n
        invariant
            pos <= n,
            n == s@.len(),
            out@ + s@.skip(pos as int) == narrowed(s@, w as nat, d as nat),
        decreases n - pos,
    {
        assert(s@.skip(pos as int) =~= seq![s@[pos as int]] + s@.skip(pos + 1));
        out.push(s[pos]);
        pos += 1;
    }
    assert(s@.skip(pos as int) =~= Seq::<T>::empty());
    assert(out@ =~= narrowed(s@, w as nat, d as nat));
    out
}

/// The first `n` entries, padded with `fill` up to `n` when shorter.
pub open spec fn resized<T>(s: Seq<T>, n: nat, fill: T) -> Seq<T> {
    if n <= s.len() {
        s.take(n as int)
    } else {
        s + blanks((n - s.len()) as nat, fill)
    }
}

/// Truncates or pads a vector to `n` entries.
pub fn resize_to<T: Copy>(v: &mut Vec<T>, n: usize, fill: T)
    ensures
        final(v)@ == resized(old(v)@, n as nat, fill),
{
    if n <= v.len() {
        v.truncate(n);
        assert(v@ =~= resized(old(v)@, n as nat, fill));
    } else {
        let ghost start = v@;
        while v.len() < n
            invariant
                start.len() <= v@.len() <= n,
                v@ == start + blanks((v@.len() - start.len()) as nat, fill),
            decreases n - v@.len(),
        {
            v.push(fill);
            assert(v@ =~= start + blanks((v@.len() - start.len()) as nat, fill));
        }
    }
}

/// Widening a grid of `h` full rows of `w` entries by `k` gives `h` rows
/// of `w + k` entries: each row's entries in their columns, then `k`
/// blanks.
pub proof fn law_widened_entries<T>(s: Seq<T>, w: nat, k: nat, blank: T, h: nat)
    requires
        w > 0,
        s.len() == w * h,
    ensures
        widened(s, w, k, blank).len() == h * (w + k),
        forall|r: int, c: int|
            0 <= r < h && 0 <= c < w + k ==> #[trigger] widened(s, w, k, blank)[r * (w + k) + c] == if c < w {
                s[r * w + c]
            } else {
                blank
            },
    decreases h,
{
    let t = widened(s, w, k, blank);
    if h == 0 {
        assert(s.len() == 0) by (nonlinear_arith)
            requires
                s.len() == w * h,
                h == 0,
        ;
    } else {
        assert(s.len() >= w) by (nonlinear_arith)
            requires
                s.len() == w * h,
                h >= 1,
        ;
        let rest = s.skip(w as int);
        assert(rest.len() == w * (h - 1)) by (nonlinear_arith)
            requires
                rest.len() == s.len() - w,
                s.len() == w * h,
        ;
        law_widened_entries(rest, w, k, blank, (h - 1) as nat);
        let tr = widened(rest, w, k, blank);
        let row = s.take(w as int) + blanks(k, blank);
        assert(t == row + tr);
        assert(t.len() == h * (w + k)) by (nonlinear_arith)
            requires
                t.len() == w + k + tr.len(),
                tr.len() == (h - 1) * (w + k),
        ;
        assert forall|r: int, c: int| 0 <= r < h && 0 <= c < w + k implies #[trigger] t[r * (w + k) + c] == if c < w {
            s[r * w + c]
        } else {
            blank
        } by {
            if r == 0 {
                assert(t[c] == row[c]);
            } else {
                assert(r * (w + k) + c == (w + k) + ((r - 1) * (w + k) + c)) by (nonlinear_arith);
                assert(r * w + c == w + ((r - 1) * w + c)) by (nonlinear_arith);
                assert((r - 1) * (w + k) + c >= 0) by (nonlinear_arith)
                    requires
                        r >= 1,
                        c >= 0,
                ;
                assert((r - 1) * w + c >= 0) by (nonlinear_arith)
                    requires
                        r >= 1,
                        c >= 0,
                ;
                assert((r - 1) * (w + k) + c < (h - 1) * (w + k)) by (nonlinear_arith)
                    requires
                        r < h,
                        c < w + k,
                ;
                assert(t[(w + k) + ((r - 1) * (w + k) + c)] == tr[(r - 1) * (w + k) + c]);
                if c < w {
                    assert((r - 1) * w + c < w * (h - 1)) by (nonlinear_arith)
                        requires
                            r < h,
                            c < w,
                    ;
                    assert(rest[(r - 1) * w + c] == s[w + ((r - 1) * w + c)]);
                }
            }
        }
    }
}

/// Narrowing a grid of `h` full rows of `w` entries by `d` gives `h` rows
/// of `w - d` entries: each row's first entries in their columns.
pub proof fn law_narrowed_entries<T>(s: Seq<T>, w: nat, d: nat, h: nat)
    requires
        w > 0,
        d <= w,
        s.len() == w * h,
    ensures
        narrowed(s, w, d).len() == h * (w - d),
        forall|r: int, c: int|
            0 <= r < h && 0 <= c < w - d ==> #[trigger] narrowed(s, w, d)[r * (w - d) + c] == s[r * w + c],
    decreases h,
{
    let t = narrowed(s, w, d);
    if h == 0 {
        assert(s.len() == 0) by (nonlinear_arith)
            requires
                s.len() == w * h,
                h == 0,
        ;
    } else {
        assert(s.len() >= w) by (nonlinear_arith)
            requires
                s.len() == w * h,
                h >= 1,
        ;
        let rest = s.skip(w as int);
        assert(rest.len() == w * (h - 1)) by (nonlinear_arith)
            requires
                rest.len() == s.len() - w,
                s.len() == w * h,
        ;
        law_narrowed_entries(rest, w, d, (h - 1) as nat);
        let tr = narrowed(rest, w, d);
        let row = s.take(w - d);
        assert(t == row + tr);
        assert(t.len() == h * (w - d)) by (nonlinear_arith)
            requires
                t.len() == (w - d) + tr.len(),
                tr.len() == (h - 1) * (w - d),
        ;
        assert forall|r: int, c: int| 0 <= r < h && 0 <= c < w - d implies #[trigger] t[r * (w - d) + c] == s[r * w
            + c] by {
            if r == 0 {
                assert(t[c] == row[c]);
            } else {
                assert(r * (w - d) + c == (w - d) + ((r - 1) * (w - d) + c)) by (nonlinear_arith);
                assert(r * w + c == w + ((r - 1) * w + c)) by (nonlinear_arith);
                assert((r - 1) * (w - d) + c >= 0) by (nonlinear_arith)
                    requires
                        r >= 1,
                        c >= 0,
                        d <= w,
                ;
                assert((r - 1) * w + c >= 0) by (nonlinear_arith)
                    requires
                        r >= 1,
                        c >= 0,
                ;
                let wd: int = w - d;
                assert((r - 1) * wd + c < (h - 1) * wd) by (nonlinear_arith)
                    requires
                        1 <= r < h,
                        0 <= c < wd,
                ;
                assert(t[(w - d) + ((r - 1) * (w - d) + c)] == tr[(r - 1) * (w - d) + c]);
                assert((r - 1) * w + c < w * (h - 1)) by (nonlinear_arith)
                    requires
                        r < h,
                        c < w - d,
                        d <= w,
                ;
                assert(rest[(r - 1) * w + c] == s[w + ((r - 1) * w + c)]);
            }
        }
    }
}

} // verus!
