//! Board engine: sliding, merging and scoring on a 4x4 grid of tiles.
use vstd::prelude::*;

use crate::digest::{keccak256, keccak_digest};
use crate::key::Key;

verus! {

/// Direction of a move.
#[derive(Clone, Copy, Debug, PartialEq, Eq, Structural)]
pub enum Direction {
    Up,
    Down,
    Left,
    Right,
}

/// The largest of two integers.
pub open spec fn max_int(a: int, b: int) -> int {
    if a >= b { a } else { b }
}

/// The non-zero tiles of a line, in their order.
pub open spec fn nonzero(s: Seq<u16>) -> Seq<u16>
    decreases s.len(),
{
    if s.len() == 0 {
        Seq::empty()
    } else if s.last() == 0 {
        nonzero(s.drop_last())
    } else {
        nonzero(s.drop_last()).push(s.last())
    }
}

/// `s` followed by zeros up to length `n`.
pub open spec fn pad_zeros(s: Seq<u16>, n: nat) -> Seq<u16> {
    s + Seq::new((n - s.len()) as nat, |i: int| 0u16)
}

/// A line with its zeros removed and its tiles packed to the front.
pub open spec fn compacted(s: Seq<u16>) -> Seq<u16> {
    pad_zeros(nonzero(s), s.len())
}

/// The two front tiles of `s` are equal and non-zero, so they merge.
pub open spec fn front_pair(s: Seq<u16>) -> bool {
    s.len() >= 2 && s[0] == s[1] && s[0] != 0
}

/// Doubling this tile does not fit in 16 bits.
pub open spec fn too_big_to_double(v: u16) -> bool {
    v >= 32768
}

/// One left-to-right merge pass over packed tiles: each equal adjacent pair,
/// taken greedily from the front, becomes one tile of twice the value.
pub open spec fn merged(s: Seq<u16>) -> Seq<u16>
    decreases s.len(),
{
    if front_pair(s) {
        seq![(2 * s[0]) as u16] + merged(s.subrange(2, s.len() as int))
    } else if s.len() >= 1 {
        seq![s[0]] + merged(s.subrange(1, s.len() as int))
    } else {
        s
    }
}

/// The merge pass reaches a pair whose doubled value does not fit.
pub open spec fn merge_blocked(s: Seq<u16>) -> bool
    decreases s.len(),
{
    if front_pair(s) {
        too_big_to_double(s[0]) || merge_blocked(s.subrange(2, s.len() as int))
    } else if s.len() >= 1 {
        merge_blocked(s.subrange(1, s.len() as int))
    } else {
        false
    }
}

/// Sum of the tiles created by the merge pass.
pub open spec fn merge_gain(s: Seq<u16>) -> int
    decreases s.len(),
{
    if front_pair(s) {
        2 * s[0] + merge_gain(s.subrange(2, s.len() as int))
    } else if s.len() >= 1 {
        merge_gain(s.subrange(1, s.len() as int))
    } else {
        0
    }
}

/// Largest tile created by the merge pass (0 if none).
pub open spec fn merge_peak(s: Seq<u16>) -> int
    decreases s.len(),
{
    if front_pair(s) {
        max_int(2 * s[0], merge_peak(s.subrange(2, s.len() as int)))
    } else if s.len() >= 1 {
        merge_peak(s.subrange(1, s.len() as int))
    } else {
        0
    }
}

/// A line after sliding toward its front: compact, merge, compact again.
/// A line whose merge would overflow a tile is left as it was.
pub open spec fn slide_line(s: Seq<u16>) -> Seq<u16> {
    if merge_blocked(nonzero(s)) {
        s
    } else {
        pad_zeros(merged(nonzero(s)), s.len())
    }
}

/// Score earned by sliding a line: the sum of the tiles its merges create,
/// or 0 when a merge would overflow and the line stays as it was.
pub open spec fn line_gain(s: Seq<u16>) -> int {
    if merge_blocked(nonzero(s)) {
        0
    } else {
        merge_gain(nonzero(s))
    }
}

/// Largest tile created by sliding a line; 0 if none, or when a merge would
/// overflow and the line stays as it was.
pub open spec fn line_peak(s: Seq<u16>) -> int {
    if merge_blocked(nonzero(s)) {
        0
    } else {
        merge_peak(nonzero(s))
    }
}

proof fn lemma_merge_peak_nonneg(s: Seq<u16>)
    ensures
        merge_peak(s) >= 0,
    decreases s.len(),
{
    if front_pair(s) {
        lemma_merge_peak_nonneg(s.subrange(2, s.len() as int));
    } else if s.len() >= 1 {
        lemma_merge_peak_nonneg(s.subrange(1, s.len() as int));
    }
}

/// Sum of the tiles of a line.
pub open spec fn total(s: Seq<u16>) -> int
    decreases s.len(),
{
    if s.len() == 0 {
        0
    } else {
        s[0] + total(s.drop_first())
    }
}

/// Every tile of the line is non-zero.
pub open spec fn all_nonzero(s: Seq<u16>) -> bool {
    forall|i: int| 0 <= i < s.len() ==> s[i] != 0
}

proof fn lemma_total_single(x: u16)
    ensures
        total(seq![x]) == x,
{
    assert(seq![x].drop_first() =~= Seq::<u16>::empty());
    assert(total(Seq::<u16>::empty()) == 0);
}

proof fn lemma_total_concat(a: Seq<u16>, b: Seq<u16>)
    ensures
        total(a + b) == total(a) + total(b),
    decreases a.len(),
{
    if a.len() == 0 {
        assert(a + b =~= b);
    } else {
        lemma_total_concat(a.drop_first(), b);
        assert((a + b).drop_first() =~= a.drop_first() + b);
    }
}

proof fn lemma_total_zeros(n: nat)
    ensures
        total(Seq::new(n, |i: int| 0u16)) == 0,
    decreases n,
{
    if n > 0 {
        lemma_total_zeros((n - 1) as nat);
        assert(Seq::new(n, |i: int| 0u16).drop_first() =~= Seq::new((n - 1) as nat, |i: int| 0u16));
    }
}

proof fn lemma_nonzero_total(s: Seq<u16>)
    ensures
        total(nonzero(s)) == total(s),
        all_nonzero(nonzero(s)),
        nonzero(s).len() <= s.len(),
    decreases s.len(),
{
    if s.len() > 0 {
        let d = s.drop_last();
        lemma_nonzero_total(d);
        assert(s =~= d + seq![s.last()]);
        lemma_total_concat(d, seq![s.last()]);
        assert(seq![s.last()].drop_first() =~= Seq::<u16>::empty());
        lemma_total_single(s.last());
        if s.last() != 0 {
            assert(nonzero(s) =~= nonzero(d) + seq![s.last()]);
            lemma_total_concat(nonzero(d), seq![s.last()]);
        }
    }
}

proof fn lemma_nonzero_of_nonzero(s: Seq<u16>)
    requires
        all_nonzero(s),
    ensures
        nonzero(s) == s,
    decreases s.len(),
{
    if s.len() > 0 {
        lemma_nonzero_of_nonzero(s.drop_last());
        assert(s.drop_last().push(s.last()) =~= s);
    }
}

proof fn lemma_nonzero_pad(s: Seq<u16>, n: nat)
    requires
        s.len() <= n,
    ensures
        nonzero(pad_zeros(s, n)) == nonzero(s),
    decreases n,
{
    if n > s.len() {
        let p = pad_zeros(s, n);
        lemma_nonzero_pad(s, (n - 1) as nat);
        assert(p.drop_last() =~= pad_zeros(s, (n - 1) as nat));
    } else {
        assert(pad_zeros(s, n) =~= s);
    }
}

proof fn lemma_merged_total(t: Seq<u16>)
    requires
        all_nonzero(t),
        !merge_blocked(t),
    ensures
        total(merged(t)) == total(t),
        all_nonzero(merged(t)),
        merged(t).len() <= t.len(),
    decreases t.len(),
{
    if front_pair(t) {
        let r = t.subrange(2, t.len() as int);
        lemma_merged_total(r);
        lemma_total_concat(seq![(2 * t[0]) as u16], merged(r));
        assert(seq![(2 * t[0]) as u16].drop_first() =~= Seq::<u16>::empty());
        lemma_total_single((2 * t[0]) as u16);
        assert(t.drop_first().drop_first() =~= r);
        assert(total(t.drop_first()) == t[1] + total(r));
        let m = merged(t);
        assert forall|i: int| 0 <= i < m.len() implies m[i] != 0 by {
            if i > 0 {
                assert(m[i] == merged(r)[i - 1]);
            }
        }
    } else if t.len() >= 1 {
        let r = t.subrange(1, t.len() as int);
        lemma_merged_total(r);
        lemma_total_concat(seq![t[0]], merged(r));
        assert(seq![t[0]].drop_first() =~= Seq::<u16>::empty());
        lemma_total_single(t[0]);
        assert(t.drop_first() =~= r);
        let m = merged(t);
        assert forall|i: int| 0 <= i < m.len() implies m[i] != 0 by {
            if i > 0 {
                assert(m[i] == merged(r)[i - 1]);
            }
        }
    }
}

/// Sliding a line conserves its tiles: unless a merge would overflow (the
/// line then stays as it was), its non-zero tiles afterwards are exactly the
/// merge of its non-zero tiles, its length is kept, and so is the sum of
/// its tiles. The score earned, `line_gain`, sums only the tiles the merges create.
pub proof fn lemma_slide_conserves(s: Seq<u16>)
    ensures
        slide_line(s).len() == s.len(),
        total(slide_line(s)) == total(s),
        !merge_blocked(nonzero(s)) ==> nonzero(slide_line(s)) == merged(nonzero(s)),
        merge_blocked(nonzero(s)) ==> slide_line(s) == s && line_gain(s) == 0 && line_peak(s) == 0,
{
    lemma_nonzero_total(s);
    if !merge_blocked(nonzero(s)) {
        let m = merged(nonzero(s));
        lemma_merged_total(nonzero(s));
        lemma_nonzero_pad(m, s.len());
        lemma_nonzero_of_nonzero(m);
        lemma_total_concat(m, Seq::new((s.len() - m.len()) as nat, |i: int| 0u16));
        lemma_total_zeros((s.len() - m.len()) as nat);
    }
}

/// Unless a merge would overflow, a slid line is compacted: compacting it
/// again changes nothing, and it holds no more tiles than before.
pub proof fn lemma_slide_compacts(s: Seq<u16>)
    requires
        !merge_blocked(nonzero(s)),
    ensures
        compacted(slide_line(s)) == slide_line(s),
        nonzero(slide_line(s)).len() <= nonzero(s).len(),
{
    lemma_slide_conserves(s);
    lemma_nonzero_total(s);
    lemma_merged_total(nonzero(s));
}


/// Compacting a line that is already compacted leaves it as it is.
pub proof fn lemma_compact_idempotent(s: Seq<u16>)
    ensures
        compacted(compacted(s)) == compacted(s),
{
    lemma_nonzero_total(s);
    lemma_nonzero_pad(nonzero(s), s.len());
    lemma_nonzero_of_nonzero(nonzero(s));
}

proof fn lemma_merged_same_length(t: Seq<u16>)
    ensures
        merged(t).len() <= t.len(),
        merged(t).len() == t.len() ==> merge_gain(t) == 0 && merge_peak(t) == 0,
    decreases t.len(),
{
    if front_pair(t) {
        lemma_merged_same_length(t.subrange(2, t.len() as int));
    } else if t.len() >= 1 {
        lemma_merged_same_length(t.subrange(1, t.len() as int));
    }
}

/// A line that sliding leaves as it was earns nothing and creates no tile.
pub proof fn lemma_unchanged_line_earns_nothing(s: Seq<u16>)
    requires
        slide_line(s) == s,
    ensures
        line_gain(s) == 0,
        line_peak(s) == 0,
{
    let t = nonzero(s);
    if !merge_blocked(t) {
        lemma_nonzero_total(s);
        lemma_merged_total(t);
        lemma_nonzero_pad(merged(t), s.len());
        lemma_nonzero_of_nonzero(merged(t));
        assert(merged(t) == t);
        lemma_merged_same_length(t);
    }
}


/// Slides and merges one line toward index 0; returns the score earned and
/// the largest tile created.
pub fn slide_and_merge(row: &mut [u16; 4]) -> (r: (u32, u16))
    ensures
        final(row)@ == slide_line(old(row)@),
        r.0 as int == line_gain(old(row)@),
        r.1 as int == line_peak(old(row)@),
        r.0 <= 131068,
{
    let ghost line = row@;
    let mut tiles: Vec<u16> = Vec::new();
    let mut i: usize = 0;
    while i < 4
        invariant
            i <= 4,
            row@ == line,
            tiles@ == nonzero(line.subrange(0, i as int)),
            tiles@.len() <= i,
        decreases 4 - i,
    {
        proof {
            assert(line.subrange(0, i + 1).drop_last() =~= line.subrange(0, i as int));
        }
        if row[i] != 0 {
            tiles.push(row[i]);
        }
        i += 1;
    }
    assert(line.subrange(0, 4) =~= line);
    let ghost packed = tiles@;
    let n = tiles.len();
    let mut out = [0u16; 4];
    let mut w: usize = 0;
    let mut k: usize = 0;
    let mut gain: u32 = 0;
    let mut peak: u16 = 0;
    assert(packed.subrange(0, n as int) =~= packed);
    proof {
        lemma_merge_peak_nonneg(packed);
    }
    assert(out@.subrange(0, 0) + merged(packed) =~= merged(packed));
    while k < n
        invariant
            n == packed.len() <= 4,
            tiles@ == packed,
            row@ == line,
            packed == nonzero(line),
            w <= k <= n,
            gain <= 32767 * k,
            merged(packed) == out@.subrange(0, w as int) + merged(packed.subrange(k as int, n as int)),
            merge_blocked(packed) == merge_blocked(packed.subrange(k as int, n as int)),
            merge_gain(packed) == gain + merge_gain(packed.subrange(k as int, n as int)),
            merge_peak(packed) == max_int(peak as int, merge_peak(packed.subrange(k as int, n as int))),
            forall|j: int| w <= j < 4 ==> out[j] == 0,
        decreases n - k,
    {
        let ghost rest = packed.subrange(k as int, n as int);
        if k + 1 < n && tiles[k] == tiles[k + 1] && tiles[k] != 0 {
            assert(front_pair(rest));
            assert(rest.subrange(2, rest.len() as int) =~= packed.subrange(k + 2, n as int));
            match tiles[k].checked_mul(2) {
                Some(v) => {
                    out[w] = v;
                    gain = gain + v as u32;
                    if v > peak {
                        peak = v;
                    }
                    k += 2;
                },
                None => {
                    return (0, 0);
                },
            }
        } else {
            assert(!front_pair(rest));
            assert(rest.subrange(1, rest.len() as int) =~= packed.subrange(k + 1, n as int));
            out[w] = tiles[k];
            k += 1;
        }
        assert(out@.subrange(0, w + 1) =~= out@.subrange(0, w as int).push(out[w as int]));
        w += 1;
    }
    assert(packed.subrange(n as int, n as int) =~= Seq::<u16>::empty());
    assert(out@ =~= pad_zeros(merged(packed), 4));
    *row = out;
    (gain, peak)
}

/// A 4x4 grid of tiles, indexed `[row][column]`.
pub type Grid = [[u16; 4]; 4];

/// Position of the `i`-th cell of line `k` when sliding toward `dir`; the
/// line is read from the edge that tiles slide to.
pub open spec fn line_cell(dir: Direction, k: int, i: int) -> (int, int) {
    match dir {
        Direction::Left => (k, i),
        Direction::Right => (k, 3 - i),
        Direction::Up => (i, k),
        Direction::Down => (3 - i, k),
    }
}

/// Whether cell `(r, c)` lies on line `k` of direction `dir`.
pub open spec fn on_line(dir: Direction, k: int, r: int, c: int) -> bool {
    match dir {
        Direction::Left | Direction::Right => r == k,
        Direction::Up | Direction::Down => c == k,
    }
}

/// Index along its line of cell `(r, c)` for direction `dir`.
pub open spec fn index_on_line(dir: Direction, r: int, c: int) -> int {
    match dir {
        Direction::Left => c,
        Direction::Right => 3 - c,
        Direction::Up => r,
        Direction::Down => 3 - r,
    }
}

/// Line `k` of the grid as seen when sliding toward `dir`.
pub open spec fn line_of(b: Grid, dir: Direction, k: int) -> Seq<u16> {
    Seq::new(4, |i: int| b[line_cell(dir, k, i).0][line_cell(dir, k, i).1])
}

/// Score earned by lines `0..n` of a move.
pub open spec fn gain_upto(b: Grid, dir: Direction, n: int) -> int
    decreases n,
{
    if n <= 0 {
        0
    } else {
        gain_upto(b, dir, n - 1) + line_gain(line_of(b, dir, n - 1))
    }
}

/// Largest tile created by lines `0..n` of a move (0 if none).
pub open spec fn peak_upto(b: Grid, dir: Direction, n: int) -> int
    decreases n,
{
    if n <= 0 {
        0
    } else {
        max_int(peak_upto(b, dir, n - 1), line_peak(line_of(b, dir, n - 1)))
    }
}

/// Score earned by a move.
pub open spec fn board_gain(b: Grid, dir: Direction) -> int {
    gain_upto(b, dir, 4)
}

/// Largest tile created by a move (0 if none).
pub open spec fn board_peak(b: Grid, dir: Direction) -> int {
    peak_upto(b, dir, 4)
}

/// Two grids hold the same tile in every cell.
pub open spec fn same_cells(a: Grid, b: Grid) -> bool {
    forall|r: int, c: int| 0 <= r < 4 && 0 <= c < 4 ==> a[r][c] == b[r][c]
}

/// `after` is `before` with every line of direction `dir` slid, the score raised
/// by what the merges earned and the top tile raised to the largest new tile.
pub open spec fn moved(before: GameAccount, after: GameAccount, dir: Direction) -> bool {
    &&& forall|k: int| 0 <= k < 4 ==> line_of(after.board, dir, k) == slide_line(line_of(before.board, dir, k))
    &&& after.score == before.score + board_gain(before.board, dir)
    &&& after.top_tile == max_int(before.top_tile as int, board_peak(before.board, dir))
    &&& after.nft_mint == before.nft_mint
}

/// Score and top tile fit their types after a move toward `dir`.
pub open spec fn move_fits(g: GameAccount, dir: Direction) -> bool {
    g.score + board_gain(g.board, dir) <= u32::MAX
}

proof fn lemma_line_cell(dir: Direction, k: int, i: int)
    requires
        0 <= k < 4,
        0 <= i < 4,
    ensures
        0 <= line_cell(dir, k, i).0 < 4,
        0 <= line_cell(dir, k, i).1 < 4,
        forall|m: int| on_line(dir, m, line_cell(dir, k, i).0, line_cell(dir, k, i).1) == (m == k),
        index_on_line(dir, line_cell(dir, k, i).0, line_cell(dir, k, i).1) == i,
{
}

/// Tile in flat cell `p` (row-major, `0..16`).
pub open spec fn flat_cell(b: Grid, p: int) -> u16 {
    b[p / 4][p % 4]
}

/// Flat positions of the empty cells among `0..n`, in increasing order.
pub open spec fn empties_upto(b: Grid, n: int) -> Seq<usize>
    decreases n,
{
    if n <= 0 {
        Seq::empty()
    } else if flat_cell(b, n - 1) == 0 {
        empties_upto(b, n - 1).push((n - 1) as usize)
    } else {
        empties_upto(b, n - 1)
    }
}

/// Flat positions of all empty cells, in row-major order.
pub open spec fn empty_cells(b: Grid) -> Seq<usize> {
    empties_upto(b, 16)
}

/// The grid as bytes: cells in row-major order, each as two bytes, low byte first.
pub open spec fn grid_bytes(b: Grid) -> Seq<u8> {
    Seq::new(
        32,
        |i: int|
            if i % 2 == 0 {
                (flat_cell(b, i / 2) % 256) as u8
            } else {
                (flat_cell(b, i / 2) / 256) as u8
            },
    )
}

/// Value of a spawned tile given the first digest byte of its cell's index.
pub open spec fn spawn_value(d: u8) -> u16 {
    if d % 10 == 0 {
        4
    } else {
        2
    }
}

/// Index into the empty cells chosen for a spawn.
pub open spec fn spawn_index(b: Grid) -> int {
    keccak256(grid_bytes(b))[0] as int % empty_cells(b).len() as int
}

/// `after` is `before` with tile `v` put in flat cell `p` and the top tile
/// raised to `v` if lower.
pub open spec fn placed(before: GameAccount, after: GameAccount, p: int, v: u16) -> bool {
    &&& forall|r: int, c: int|
        0 <= r < 4 && 0 <= c < 4 ==> after.board[r][c] == if r * 4 + c == p {
            v
        } else {
            before.board[r][c]
        }
    &&& after.top_tile == max_int(before.top_tile as int, v as int)
    &&& after.score == before.score
    &&& after.nft_mint == before.nft_mint
}

/// `after` is `before` after one spawn: unchanged when no cell is empty, else
/// a tile put in the empty cell picked by the grid's digest.
pub open spec fn spawned(before: GameAccount, after: GameAccount) -> bool {
    if empty_cells(before.board).len() == 0 {
        after == before
    } else {
        let i = spawn_index(before.board);
        placed(
            before,
            after,
            empty_cells(before.board)[i] as int,
            spawn_value(keccak256(seq![i as u8])[0]),
        )
    }
}

/// No cell is empty.
pub open spec fn grid_full(b: Grid) -> bool {
    forall|r: int, c: int| 0 <= r < 4 && 0 <= c < 4 ==> b[r][c] != 0
}

/// Some two horizontally or vertically adjacent cells hold the same tile.
pub open spec fn has_equal_neighbours(b: Grid) -> bool {
    exists|r: int, c: int|
        0 <= r < 4 && 0 <= c < 4 && ((c < 3 && #[trigger] b[r][c] == b[r][c + 1]) || (r < 3 && b[r][c] == b[r
            + 1][c]))
}

/// The grid is full and no two adjacent cells are equal.
pub open spec fn game_over(b: Grid) -> bool {
    grid_full(b) && !has_equal_neighbours(b)
}

proof fn lemma_empties_bounded(b: Grid, n: int)
    requires
        0 <= n <= 16,
    ensures
        empties_upto(b, n).len() <= n,
        forall|i: int| 0 <= i < empties_upto(b, n).len() ==> empties_upto(b, n)[i] < n,
    decreases n,
{
    if n > 0 {
        lemma_empties_bounded(b, n - 1);
    }
}

proof fn lemma_cell_on_line(dir: Direction, k: int, x: int, y: int)
    requires
        0 <= x < 4,
        0 <= y < 4,
        on_line(dir, k, x, y),
    ensures
        0 <= index_on_line(dir, x, y) < 4,
        line_cell(dir, k, index_on_line(dir, x, y)) == (x, y),
{
}

fn cell_of_line(dir: Direction, k: usize, i: usize) -> (p: (usize, usize))
    requires
        k < 4,
        i < 4,
    ensures
        p.0 as int == line_cell(dir, k as int, i as int).0,
        p.1 as int == line_cell(dir, k as int, i as int).1,
        p.0 < 4,
        p.1 < 4,
{
    match dir {
        Direction::Left => (k, i),
        Direction::Right => (k, 3 - i),
        Direction::Up => (i, k),
        Direction::Down => (3 - i, k),
    }
}

fn read_line(b: &Grid, dir: Direction, k: usize) -> (r: [u16; 4])
    requires
        k < 4,
    ensures
        r@ == line_of(*b, dir, k as int),
{
    let mut r = [0u16; 4];
    let mut i: usize = 0;
    while i < 4
        invariant
            i <= 4,
            k < 4,
            forall|j: int| 0 <= j < i ==> r[j] == line_of(*b, dir, k as int)[j],
        decreases 4 - i,
    {
        let (x, y) = cell_of_line(dir, k, i);
        r[i] = b[x][y];
        i += 1;
    }
    assert(r@ =~= line_of(*b, dir, k as int));
    r
}

fn set_cell(b: &mut Grid, r: usize, c: usize, v: u16)
    requires
        r < 4,
        c < 4,
    ensures
        forall|x: int, y: int|
            0 <= x < 4 && 0 <= y < 4 ==> final(b)[x][y] == if x == r && y == c {
                v
            } else {
                old(b)[x][y]
            },
{
    let mut row = b[r];
    row[c] = v;
    b[r] = row;
}

#[verifier::spinoff_prover]
fn write_line(b: &mut Grid, dir: Direction, k: usize, line: [u16; 4])
    requires
        k < 4,
    ensures
        forall|x: int, y: int|
            0 <= x < 4 && 0 <= y < 4 ==> final(b)[x][y] == if on_line(dir, k as int, x, y) {
                line[index_on_line(dir, x, y)]
            } else {
                old(b)[x][y]
            },
{
    let ghost b0 = *b;
    let mut i: usize = 0;
    while i < 4
        invariant
            i <= 4,
            k < 4,
            forall|x: int, y: int|
                0 <= x < 4 && 0 <= y < 4 ==> b[x][y] == if on_line(dir, k as int, x, y)
                    && index_on_line(dir, x, y) < i {
                    line[index_on_line(dir, x, y)]
                } else {
                    b0[x][y]
                },
        decreases 4 - i,
    {
        let (x, y) = cell_of_line(dir, k, i);
        let ghost before = *b;
        set_cell(b, x, y, line[i]);
        let ghost i0 = i;
        i += 1;
        proof {
            lemma_line_cell(dir, k as int, i0 as int);
            assert forall|x2: int, y2: int| 0 <= x2 < 4 && 0 <= y2 < 4 implies b[x2][y2] == if on_line(
                dir,
                k as int,
                x2,
                y2,
            ) && index_on_line(dir, x2, y2) < i {
                line[index_on_line(dir, x2, y2)]
            } else {
                b0[x2][y2]
            } by {
                if on_line(dir, k as int, x2, y2) {
                    lemma_cell_on_line(dir, k as int, x2, y2);
                }
                assert(b[x2][y2] == if x2 == x && y2 == y {
                    line[i0 as int]
                } else {
                    before[x2][y2]
                });
            }
        }
    }
}

/// Whether two grids hold the same tile in every cell.
pub fn grids_equal(a: &Grid, b: &Grid) -> (r: bool)
    ensures
        r == same_cells(*a, *b),
{
    let mut x: usize = 0;
    while x < 4
        invariant
            x <= 4,
            forall|r: int, c: int| 0 <= r < x && 0 <= c < 4 ==> a[r][c] == b[r][c],
        decreases 4 - x,
    {
        let mut y: usize = 0;
        while y < 4
            invariant
                x < 4,
                y <= 4,
                forall|r: int, c: int| 0 <= r < x && 0 <= c < 4 ==> a[r][c] == b[r][c],
                forall|c: int| 0 <= c < y ==> a[x as int][c] == b[x as int][c],
            decreases 4 - y,
        {
            if a[x][y] != b[x][y] {
                return false;
            }
            y += 1;
        }
        x += 1;
    }
    true
}

/// No two adjacent tiles of the line are equal.
pub open spec fn no_equal_adjacent(s: Seq<u16>) -> bool {
    forall|i: int| 0 <= i < s.len() - 1 ==> #[trigger] s[i] != s[i + 1]
}

proof fn lemma_merge_without_pairs(t: Seq<u16>)
    requires
        no_equal_adjacent(t),
    ensures
        merged(t) == t,
        !merge_blocked(t),
    decreases t.len(),
{
    if t.len() >= 1 {
        let r = t.subrange(1, t.len() as int);
        assert(no_equal_adjacent(r)) by {
            assert forall|i: int| 0 <= i < r.len() - 1 implies #[trigger] r[i] != r[i + 1] by {
                assert(r[i] == t[i + 1] && r[i + 1] == t[i + 2]);
            }
        }
        lemma_merge_without_pairs(r);
        assert(seq![t[0]] + r =~= t);
    }
}

proof fn lemma_game_over_line(b: Grid, dir: Direction, k: int)
    requires
        game_over(b),
        0 <= k < 4,
    ensures
        slide_line(line_of(b, dir, k)) == line_of(b, dir, k),
        line_gain(line_of(b, dir, k)) == 0,
        line_peak(line_of(b, dir, k)) == 0,
{
    let l = line_of(b, dir, k);
    assert forall|i: int| 0 <= i < 4 implies l[i] != 0 by {
        lemma_line_cell(dir, k, i);
        let (x, y) = line_cell(dir, k, i);
        assert(b[x][y] != 0);
    }
    assert forall|i: int| 0 <= i < 3 implies #[trigger] l[i] != l[i + 1] by {
        match dir {
            Direction::Left => {
                assert(!(b[k][i] == b[k][i + 1]));
            },
            Direction::Right => {
                assert(!(b[k][2 - i] == b[k][2 - i + 1]));
            },
            Direction::Up => {
                assert(!(b[i][k] == b[i + 1][k]));
            },
            Direction::Down => {
                assert(!(b[2 - i][k] == b[2 - i + 1][k]));
            },
        }
    }
    lemma_nonzero_of_nonzero(l);
    lemma_merge_without_pairs(l);
    lemma_no_pairs_no_gain(l);
    assert(pad_zeros(l, 4) =~= l);
}

proof fn lemma_no_pairs_no_gain(t: Seq<u16>)
    requires
        no_equal_adjacent(t),
    ensures
        merge_gain(t) == 0,
        merge_peak(t) == 0,
    decreases t.len(),
{
    if t.len() >= 1 {
        let r = t.subrange(1, t.len() as int);
        assert(no_equal_adjacent(r)) by {
            assert forall|i: int| 0 <= i < r.len() - 1 implies #[trigger] r[i] != r[i + 1] by {
                assert(r[i] == t[i + 1] && r[i + 1] == t[i + 2]);
            }
        }
        lemma_no_pairs_no_gain(r);
    }
}

/// On a game-over board no move changes anything: every line stays as it
/// is, and score and top tile are kept.
pub proof fn lemma_game_over_no_move(before: GameAccount, after: GameAccount, dir: Direction)
    requires
        game_over(before.board),
        moved(before, after, dir),
    ensures
        same_cells(before.board, after.board),
        after.score == before.score,
        after.top_tile == before.top_tile,
{
    let b = before.board;
    assert forall|k: int| 0 <= k < 4 implies line_of(after.board, dir, k) == line_of(b, dir, k) by {
        lemma_game_over_line(b, dir, k);
    }
    assert forall|x: int, y: int| 0 <= x < 4 && 0 <= y < 4 implies before.board[x][y] == after.board[x][y] by {
        let k = match dir {
            Direction::Left | Direction::Right => x,
            Direction::Up | Direction::Down => y,
        };
        lemma_cell_on_line(dir, k, x, y);
        let i = index_on_line(dir, x, y);
        assert(line_of(after.board, dir, k)[i] == line_of(b, dir, k)[i]);
    }
    assert forall|n: int| 0 <= n <= 4 implies gain_upto(b, dir, n) == 0 && peak_upto(b, dir, n) == 0 by {
        lemma_game_over_upto(b, dir, n);
    }
}

proof fn lemma_game_over_upto(b: Grid, dir: Direction, n: int)
    requires
        game_over(b),
        0 <= n <= 4,
    ensures
        gain_upto(b, dir, n) == 0,
        peak_upto(b, dir, n) == 0,
    decreases n,
{
    if n > 0 {
        lemma_game_over_upto(b, dir, n - 1);
        lemma_game_over_line(b, dir, n - 1);
    }
}

/// A move that changes no cell leaves the score and the top tile as they were.
pub proof fn lemma_no_change_no_score(before: GameAccount, after: GameAccount, dir: Direction)
    requires
        moved(before, after, dir),
        same_cells(before.board, after.board),
    ensures
        after.score == before.score,
        after.top_tile == before.top_tile,
{
    let b = before.board;
    assert forall|k: int| 0 <= k < 4 implies slide_line(line_of(b, dir, k)) == line_of(b, dir, k) by {
        assert forall|i: int| 0 <= i < 4 implies line_of(after.board, dir, k)[i] == line_of(b, dir, k)[i] by {
            lemma_line_cell(dir, k, i);
        }
        assert(line_of(after.board, dir, k) =~= line_of(b, dir, k));
    }
    lemma_unchanged_upto(b, dir, 4);
}

proof fn lemma_unchanged_upto(b: Grid, dir: Direction, n: int)
    requires
        0 <= n <= 4,
        forall|k: int| 0 <= k < 4 ==> slide_line(line_of(b, dir, k)) == line_of(b, dir, k),
    ensures
        gain_upto(b, dir, n) == 0,
        peak_upto(b, dir, n) == 0,
    decreases n,
{
    if n > 0 {
        lemma_unchanged_upto(b, dir, n - 1);
        lemma_unchanged_line_earns_nothing(line_of(b, dir, n - 1));
    }
}


/// Every tile of the line is below 32768, so doubling it fits.
pub open spec fn all_doublable(s: Seq<u16>) -> bool {
    forall|i: int| 0 <= i < s.len() ==> s[i] < 32768
}

proof fn lemma_doublable_not_blocked(t: Seq<u16>)
    requires
        all_doublable(t),
    ensures
        !merge_blocked(t),
    decreases t.len(),
{
    if front_pair(t) {
        let r = t.subrange(2, t.len() as int);
        assert(all_doublable(r)) by {
            assert forall|i: int| 0 <= i < r.len() implies r[i] < 32768 by {
                assert(r[i] == t[i + 2]);
            }
        }
        lemma_doublable_not_blocked(r);
    } else if t.len() >= 1 {
        let r = t.subrange(1, t.len() as int);
        assert(all_doublable(r)) by {
            assert forall|i: int| 0 <= i < r.len() implies r[i] < 32768 by {
                assert(r[i] == t[i + 1]);
            }
        }
        lemma_doublable_not_blocked(r);
    }
}

proof fn lemma_nonzero_doublable(s: Seq<u16>)
    requires
        all_doublable(s),
    ensures
        all_doublable(nonzero(s)),
    decreases s.len(),
{
    if s.len() > 0 {
        let d = s.drop_last();
        assert(all_doublable(d)) by {
            assert forall|i: int| 0 <= i < d.len() implies d[i] < 32768 by {
                assert(d[i] == s[i]);
            }
        }
        lemma_nonzero_doublable(d);
    }
}

proof fn lemma_full_length_merge_no_pairs(t: Seq<u16>)
    requires
        all_nonzero(t),
        merged(t).len() == t.len(),
    ensures
        no_equal_adjacent(t),
    decreases t.len(),
{
    if front_pair(t) {
        lemma_merged_same_length(t.subrange(2, t.len() as int));
    } else if t.len() >= 1 {
        let r = t.subrange(1, t.len() as int);
        assert(all_nonzero(r)) by {
            assert forall|i: int| 0 <= i < r.len() implies r[i] != 0 by {
                assert(r[i] == t[i + 1]);
            }
        }
        lemma_full_length_merge_no_pairs(r);
        assert forall|i: int| 0 <= i < t.len() - 1 implies #[trigger] t[i] != t[i + 1] by {
            if i > 0 {
                assert(t[i] == r[i - 1] && t[i + 1] == r[i]);
            }
        }
    }
}

/// Facts on a line of doublable tiles that sliding leaves as it was: its
/// tiles are packed to the front and no two adjacent ones are equal.
proof fn lemma_unchanged_line_shape(l: Seq<u16>)
    requires
        all_doublable(l),
        slide_line(l) == l,
    ensures
        l == pad_zeros(nonzero(l), l.len()),
        all_nonzero(nonzero(l)),
        no_equal_adjacent(nonzero(l)),
{
    let t = nonzero(l);
    lemma_nonzero_doublable(l);
    lemma_doublable_not_blocked(t);
    lemma_slide_conserves(l);
    lemma_nonzero_total(l);
    assert(merged(t) == t);
    lemma_full_length_merge_no_pairs(t);
}

/// A line with an empty cell before a tile changes when slid.
proof fn lemma_gap_moves(l: Seq<u16>, i: int, j: int)
    requires
        all_doublable(l),
        0 <= i < j < l.len(),
        l[i] == 0,
        l[j] != 0,
    ensures
        slide_line(l) != l,
{
    if slide_line(l) == l {
        lemma_unchanged_line_shape(l);
        let t = nonzero(l);
        if i < t.len() {
            assert(l[i] == t[i]);
        } else {
            assert(l[j] == 0);
        }
    }
}

/// A line with two equal adjacent tiles changes when slid.
proof fn lemma_pair_moves(l: Seq<u16>, i: int)
    requires
        all_doublable(l),
        0 <= i < l.len() - 1,
        l[i] != 0,
        l[i] == l[i + 1],
    ensures
        slide_line(l) != l,
{
    if slide_line(l) == l {
        lemma_unchanged_line_shape(l);
        let t = nonzero(l);
        if i + 1 < t.len() {
            assert(l[i] == t[i] && l[i + 1] == t[i + 1]);
            assert(t[i] != t[i + 1]);
        } else if i < t.len() {
            assert(l[i + 1] == 0);
        } else {
            assert(l[i] == 0);
        }
    }
}

proof fn lemma_line_change_changes_cells(before: GameAccount, after: GameAccount, dir: Direction, k: int)
    requires
        0 <= k < 4,
        moved(before, after, dir),
        slide_line(line_of(before.board, dir, k)) != line_of(before.board, dir, k),
    ensures
        !same_cells(before.board, after.board),
{
    if same_cells(before.board, after.board) {
        assert forall|i: int| 0 <= i < 4 implies line_of(after.board, dir, k)[i] == line_of(
            before.board,
            dir,
            k,
        )[i] by {
            lemma_line_cell(dir, k, i);
        }
        assert(line_of(after.board, dir, k) =~= line_of(before.board, dir, k));
    }
}

proof fn lemma_line_doublable(b: Grid, dir: Direction, k: int)
    requires
        0 <= k < 4,
        forall|r: int, c: int| 0 <= r < 4 && 0 <= c < 4 ==> b[r][c] <= 16384,
    ensures
        all_doublable(line_of(b, dir, k)),
{
    assert forall|i: int| 0 <= i < 4 implies line_of(b, dir, k)[i] < 32768 by {
        lemma_line_cell(dir, k, i);
    }
}

/// On a board that is not over, holds a tile and has no tile above 16384,
/// some move changes a cell: the returned direction is such a move.
pub proof fn lemma_live_board_has_move(before: GameAccount) -> (dir: Direction)
    requires
        !game_over(before.board),
        exists|r: int, c: int| 0 <= r < 4 && 0 <= c < 4 && before.board[r][c] != 0,
        forall|r: int, c: int| 0 <= r < 4 && 0 <= c < 4 ==> before.board[r][c] <= 16384,
    ensures
        forall|after: GameAccount| #[trigger]
            moved(before, after, dir) ==> !same_cells(before.board, after.board),
{
    let b = before.board;
    let (d, k) = lemma_live_line(b);
    assert forall|after: GameAccount| #[trigger] moved(before, after, d) implies !same_cells(
        before.board,
        after.board,
    ) by {
        lemma_line_change_changes_cells(before, after, d, k);
    }
    d
}

proof fn lemma_live_line(b: Grid) -> (r: (Direction, int))
    requires
        !game_over(b),
        exists|r: int, c: int| 0 <= r < 4 && 0 <= c < 4 && b[r][c] != 0,
        forall|r: int, c: int| 0 <= r < 4 && 0 <= c < 4 ==> b[r][c] <= 16384,
    ensures
        0 <= r.1 < 4,
        slide_line(line_of(b, r.0, r.1)) != line_of(b, r.0, r.1),
{
    let (r1, c1) = choose|r: int, c: int| 0 <= r < 4 && 0 <= c < 4 && b[r][c] != 0;
    if !grid_full(b) {
        let (r, c) = choose|r: int, c: int| 0 <= r < 4 && 0 <= c < 4 && b[r][c] == 0;
        if exists|c2: int| 0 <= c2 < 4 && b[r][c2] != 0 {
            let c2 = choose|c2: int| 0 <= c2 < 4 && b[r][c2] != 0;
            if c2 > c {
                lemma_line_doublable(b, Direction::Left, r);
                lemma_gap_moves(line_of(b, Direction::Left, r), c, c2);
                (Direction::Left, r)
            } else {
                lemma_line_doublable(b, Direction::Right, r);
                lemma_gap_moves(line_of(b, Direction::Right, r), 3 - c, 3 - c2);
                (Direction::Right, r)
            }
        } else {
            assert(b[r][c1] == 0);
            if r1 > r {
                lemma_line_doublable(b, Direction::Up, c1);
                lemma_gap_moves(line_of(b, Direction::Up, c1), r, r1);
                (Direction::Up, c1)
            } else {
                lemma_line_doublable(b, Direction::Down, c1);
                lemma_gap_moves(line_of(b, Direction::Down, c1), 3 - r, 3 - r1);
                (Direction::Down, c1)
            }
        }
    } else {
        let (r, c) = choose|r: int, c: int|
            0 <= r < 4 && 0 <= c < 4 && ((c < 3 && #[trigger] b[r][c] == b[r][c + 1]) || (r < 3
                && b[r][c] == b[r + 1][c]));
        assert(b[r][c] != 0);
        if c < 3 && b[r][c] == b[r][c + 1] {
            lemma_line_doublable(b, Direction::Left, r);
            lemma_pair_moves(line_of(b, Direction::Left, r), c);
            (Direction::Left, r)
        } else {
            lemma_line_doublable(b, Direction::Up, c);
            lemma_pair_moves(line_of(b, Direction::Up, c), r);
            (Direction::Up, c)
        }
    }
}


/// One game session: its asset, board, score and highest tile.
#[derive(Clone, Copy, Debug)]
pub struct GameAccount {
    pub nft_mint: Key,
    pub board: Grid,
    pub score: u32,
    pub top_tile: u16,
}

impl GameAccount {
    fn slide(&mut self, dir: Direction)
        requires
            move_fits(*old(self), dir),
        ensures
            moved(*old(self), *final(self), dir),
    {
        let ghost b0 = self.board;
        let mut b = self.board;
        let mut total: u32 = 0;
        let mut peak: u16 = 0;
        let mut k: usize = 0;
        while k < 4
            invariant
                k <= 4,
                total as int == gain_upto(b0, dir, k as int),
                total <= 131068 * k,
                peak as int == peak_upto(b0, dir, k as int),
                forall|j: int| 0 <= j < k ==> line_of(b, dir, j) == slide_line(line_of(b0, dir, j)),
                forall|j: int| k <= j < 4 ==> line_of(b, dir, j) == line_of(b0, dir, j),
            decreases 4 - k,
        {
            let ghost bk = b;
            let mut line = read_line(&b, dir, k);
            let (g, p) = slide_and_merge(&mut line);
            write_line(&mut b, dir, k, line);
            assert forall|j: int| 0 <= j < 4 && j != k implies line_of(b, dir, j) == line_of(bk, dir, j) by {
                assert forall|i: int| 0 <= i < 4 implies line_of(b, dir, j)[i] == line_of(bk, dir, j)[i] by {
                    lemma_line_cell(dir, j, i);
                    let (x, y) = line_cell(dir, j, i);
                    assert(0 <= x < 4 && 0 <= y < 4);
                    assert(!on_line(dir, k as int, x, y));
                    assert(b[x][y] == bk[x][y]);
                }
                assert(line_of(b, dir, j) =~= line_of(bk, dir, j));
            }
            assert forall|i: int| 0 <= i < 4 implies line_of(b, dir, k as int)[i] == line[i] by {
                lemma_line_cell(dir, k as int, i);
                let (x, y) = line_cell(dir, k as int, i);
                assert(0 <= x < 4 && 0 <= y < 4);
                assert(on_line(dir, k as int, x, y) && index_on_line(dir, x, y) == i);
                assert(b[x][y] == line[i]);
            }
            assert(line_of(b, dir, k as int) =~= line@);
            total = total + g;
            if p > peak {
                peak = p;
            }
            k += 1;
        }
        self.board = b;
        self.score = self.score + total;
        if peak > self.top_tile {
            self.top_tile = peak;
        }
    }
    /// Whether the score still fits in 32 bits after a move toward `dir`.
    pub fn move_score_fits(&self, dir: Direction) -> (r: bool)
        ensures
            r == move_fits(*self, dir),
    {
        let mut total: u32 = 0;
        let mut k: usize = 0;
        while k < 4
            invariant
                k <= 4,
                total as int == gain_upto(self.board, dir, k as int),
                total <= 131068 * k,
            decreases 4 - k,
        {
            let mut line = read_line(&self.board, dir, k);
            let (g, _) = slide_and_merge(&mut line);
            total = total + g;
            k += 1;
        }
        self.score as u64 + total as u64 <= u32::MAX as u64
    }


    /// Slides all tiles toward `dir` (see `moved`); returns whether any cell changed.
    pub fn apply_move(&mut self, dir: Direction) -> (changed: bool)
        requires
            move_fits(*old(self), dir),
        ensures
            moved(*old(self), *final(self), dir),
            changed == !same_cells(old(self).board, final(self).board),
            !changed ==> final(self).score == old(self).score
                && final(self).top_tile == old(self).top_tile,
    {
        let before = self.board;
        match dir {
            Direction::Up => self.move_up(),
            Direction::Down => self.move_down(),
            Direction::Left => self.move_left(),
            Direction::Right => self.move_right(),
        }
        let same = grids_equal(&before, &self.board);
        proof {
            if same {
                lemma_no_change_no_score(*old(self), *self, dir);
            }
        }
        !same
    }

    /// Slides every row toward column 0.
    pub fn move_left(&mut self)
        requires
            move_fits(*old(self), Direction::Left),
        ensures
            moved(*old(self), *final(self), Direction::Left),
    {
        self.slide(Direction::Left)
    }

    /// Slides every row toward column 3.
    pub fn move_right(&mut self)
        requires
            move_fits(*old(self), Direction::Right),
        ensures
            moved(*old(self), *final(self), Direction::Right),
    {
        self.slide(Direction::Right)
    }

    /// Slides every column toward row 0.
    pub fn move_up(&mut self)
        requires
            move_fits(*old(self), Direction::Up),
        ensures
            moved(*old(self), *final(self), Direction::Up),
    {
        self.slide(Direction::Up)
    }

    /// Slides every column toward row 3.
    pub fn move_down(&mut self)
        requires
            move_fits(*old(self), Direction::Down),
        ensures
            moved(*old(self), *final(self), Direction::Down),
    {
        self.slide(Direction::Down)
    }

    /// Flat positions of the empty cells, in row-major order.
    pub fn empty_cells(&self) -> (r: Vec<usize>)
        ensures
            r@ == empty_cells(self.board),
    {
        let mut r: Vec<usize> = Vec::new();
        let mut p: usize = 0;
        while p < 16
            invariant
                p <= 16,
                r@ == empties_upto(self.board, p as int),
            decreases 16 - p,
        {
            if self.board[p / 4][p % 4] == 0 {
                r.push(p);
            }
            p += 1;
        }
        r
    }

    /// The board as bytes: cells in row-major order, each low byte first.
    pub fn board_bytes(&self) -> (r: Vec<u8>)
        ensures
            r@ == grid_bytes(self.board),
    {
        let mut r: Vec<u8> = Vec::new();
        let mut p: usize = 0;
        while p < 16
            invariant
                p <= 16,
                r@.len() == 2 * p,
                forall|i: int| 0 <= i < 2 * p ==> r@[i] == grid_bytes(self.board)[i],
            decreases 16 - p,
        {
            let v = self.board[p / 4][p % 4];
            r.push((v % 256) as u8);
            r.push((v / 256) as u8);
            p += 1;
        }
        assert(r@ =~= grid_bytes(self.board));
        r
    }

    /// Value of the tile to spawn, from the first digest byte of its cell's index:
    /// 4 when that byte is a multiple of 10, else 2.
    pub fn tile_from_digest(d: u8) -> (v: u16)
        ensures
            v == spawn_value(d),
    {
        if d % 10 == 0 {
            4
        } else {
            2
        }
    }

    /// Puts tile `v` in flat cell `p`, raising the top tile to `v` if lower.
    pub fn put_tile(&mut self, p: usize, v: u16)
        requires
            p < 16,
        ensures
            placed(*old(self), *final(self), p as int, v),
    {
        set_cell(&mut self.board, p / 4, p % 4, v);
        if v > self.top_tile {
            self.top_tile = v;
        }
    }

    /// Spawns a tile in an empty cell, chosen from the digest of the board; a
    /// no-op on a full board.
    pub fn add_new_tile(&mut self)
        ensures
            spawned(*old(self), *final(self)),
    {
        let empties = self.empty_cells();
        if empties.len() == 0 {
            return;
        }
        let digest = keccak_digest(&self.board_bytes());
        let index = digest[0] as usize % empties.len();
        proof {
            lemma_empties_bounded(self.board, 16);
        }
        let index_bytes: Vec<u8> = vec![index as u8];
        assert(index_bytes@ =~= seq![index as u8]);
        let tile = Self::tile_from_digest(keccak_digest(&index_bytes)[0]);
        self.put_tile(empties[index], tile);
    }

    /// Whether no move is left: the board is full and no two adjacent cells are equal.
    pub fn is_game_over(&self) -> (r: bool)
        ensures
            r == game_over(self.board),
    {
        let b = self.board;
        let mut x: usize = 0;
        while x < 4
            invariant
                x <= 4,
                b == self.board,
                forall|r: int, c: int|
                    0 <= r < x && 0 <= c < 4 ==> #[trigger] b[r][c] != 0 && (c < 3 ==> b[r][c] != b[r][c + 1])
                        && (r < 3 ==> b[r][c] != b[r + 1][c]),
            decreases 4 - x,
        {
            let mut y: usize = 0;
            while y < 4
                invariant
                    x < 4,
                    y <= 4,
                    b == self.board,
                    forall|r: int, c: int|
                        0 <= r < x && 0 <= c < 4 ==> #[trigger] b[r][c] != 0 && (c < 3 ==> b[r][c] != b[r][c
                            + 1]) && (r < 3 ==> b[r][c] != b[r + 1][c]),
                    forall|c: int|
                        0 <= c < y ==> #[trigger] b[x as int][c] != 0 && (c < 3 ==> b[x as int][c] != b[x as int][c
                            + 1]) && (x < 3 ==> b[x as int][c] != b[x + 1][c]),
                decreases 4 - y,
            {
                if b[x][y] == 0 {
                    assert(!grid_full(b));
                    return false;
                }
                if y < 3 && b[x][y] == b[x][y + 1] {
                    assert(has_equal_neighbours(b) && b[x as int][y as int] == b[x as int][y + 1]);
                    return false;
                }
                if x < 3 && b[x][y] == b[x + 1][y] {
                    assert(has_equal_neighbours(b) && b[x as int][y as int] == b[x + 1][y as int]);
                    return false;
                }
                y += 1;
            }
            x += 1;
        }
        true
    }
}

} // verus!
