//! Standard mode: one glyph per pixel, consecutive equal pixels merged into runs.
use vstd::prelude::*;
use crate::codec::{foreground_of, reset, rgb_to_ansi};

verus! {

/// True when the pixel's alpha is exactly 255; any other alpha counts as transparent.
pub open spec fn is_opaque(c: [u8; 4]) -> bool {
    c[3] == 255
}

/// `s` written `n` times in a row.
pub open spec fn repeat(s: Seq<char>, n: nat) -> Seq<char>
    decreases n,
{
    if n == 0 {
        Seq::empty()
    } else {
        repeat(s, (n - 1) as nat) + s
    }
}

/// The text for a run of `len` pixels of `color`.
pub open spec fn slice_text(len: nat, color: [u8; 4], glyph: Seq<char>, blank: Seq<char>) -> Seq<char> {
    if len == 0 {
        Seq::empty()
    } else if !is_opaque(color) {
        repeat(blank, len)
    } else {
        foreground_of(color) + repeat(glyph, len) + reset()
    }
}

/// The maximal runs of equal pixels of `row`, left to right, as (color, length).
pub open spec fn runs(row: Seq<[u8; 4]>) -> Seq<([u8; 4], nat)>
    decreases row.len(),
{
    if row.len() == 0 {
        Seq::empty()
    } else {
        let prev = runs(row.drop_last());
        let c = row.last();
        if prev.len() > 0 && prev.last().0 == c {
            prev.update(prev.len() - 1, (c, prev.last().1 + 1))
        } else {
            prev.push((c, 1))
        }
    }
}

/// The text of a sequence of runs, each rendered on its own.
pub open spec fn runs_text(rs: Seq<([u8; 4], nat)>, glyph: Seq<char>, blank: Seq<char>) -> Seq<char>
    decreases rs.len(),
{
    if rs.len() == 0 {
        Seq::empty()
    } else {
        runs_text(rs.drop_last(), glyph, blank) + slice_text(rs.last().1, rs.last().0, glyph, blank)
    }
}

/// The standard-mode text of one row.
pub open spec fn row_text(row: Seq<[u8; 4]>, glyph: Seq<char>, blank: Seq<char>) -> Seq<char> {
    runs_text(runs(row), glyph, blank)
}

/// The pixels that a sequence of runs stands for, left to right.
pub open spec fn expand(rs: Seq<([u8; 4], nat)>) -> Seq<[u8; 4]>
    decreases rs.len(),
{
    if rs.len() == 0 {
        Seq::empty()
    } else {
        expand(rs.drop_last()) + Seq::new(rs.last().1, |i: int| rs.last().0)
    }
}

/// The sum of the lengths of a sequence of runs.
pub open spec fn total_length(rs: Seq<([u8; 4], nat)>) -> nat
    decreases rs.len(),
{
    if rs.len() == 0 {
        0
    } else {
        total_length(rs.drop_last()) + rs.last().1
    }
}

/// Writing `s` first `a` and then `b` times is writing it `a + b` times.
pub proof fn lemma_repeat_add(s: Seq<char>, a: nat, b: nat)
    ensures
        repeat(s, a) + repeat(s, b) == repeat(s, a + b),
    decreases b,
{
    if b == 0 {
        assert(repeat(s, a) + repeat(s, 0) =~= repeat(s, a));
    } else {
        lemma_repeat_add(s, a, (b - 1) as nat);
        assert(repeat(s, a) + repeat(s, b) =~= repeat(s, a) + repeat(s, (b - 1) as nat) + s);
    }
}

/// The runs of a row partition it exactly: they cover the row with no gap and no overlap,
/// their lengths add up to the row's width, each is non-empty, and neighbouring runs differ
/// in color or alpha.
pub proof fn lemma_runs_partition_row(row: Seq<[u8; 4]>)
    ensures
        expand(runs(row)) == row,
        total_length(runs(row)) == row.len(),
        forall|i: int| 0 <= i < runs(row).len() ==> #[trigger] runs(row)[i].1 >= 1,
        forall|i: int|
            0 <= i && i + 1 < runs(row).len() ==> #[trigger] runs(row)[i].0 != runs(row)[i + 1].0,
    decreases row.len(),
{
    if row.len() > 0 {
        let prev_row = row.drop_last();
        lemma_runs_partition_row(prev_row);
        let prev = runs(prev_row);
        let c = row.last();
        let rs = runs(row);
        if prev.len() > 0 && prev.last().0 == c {
            let n = prev.last().1;
            assert(rs.drop_last() =~= prev.drop_last());
            assert(Seq::new(n + 1, |i: int| c) =~= Seq::new(n, |i: int| c).push(c));
            assert(expand(rs) =~= expand(prev).push(c));
            assert(row =~= prev_row.push(c));
        } else {
            assert(rs.drop_last() =~= prev);
            assert(expand(rs) =~= expand(prev) + seq![c]);
            assert(row =~= prev_row.push(c));
        }
    }
}

/// A non-empty row of one color `c` is a single run as wide as the row.
proof fn lemma_uniform_runs(row: Seq<[u8; 4]>, c: [u8; 4])
    requires
        row.len() >= 1,
        forall|i: int| 0 <= i < row.len() ==> #[trigger] row[i] == c,
    ensures
        runs(row) == seq![(c, row.len())],
    decreases row.len(),
{
    if row.len() == 1 {
        assert(row.drop_last() =~= Seq::<[u8; 4]>::empty());
        assert(runs(row.drop_last()) == Seq::<([u8; 4], nat)>::empty());
        assert(runs(row) =~= seq![(c, 1nat)]);
    } else {
        lemma_uniform_runs(row.drop_last(), c);
        assert(runs(row) =~= seq![(c, row.len())]);
    }
}

/// A non-empty row of a single opaque color is the foreground sequence once, the glyph once
/// per pixel, and the reset sequence once.
pub proof fn lemma_uniform_opaque_row(row: Seq<[u8; 4]>, c: [u8; 4], glyph: Seq<char>, blank: Seq<char>)
    requires
        row.len() >= 1,
        is_opaque(c),
        forall|i: int| 0 <= i < row.len() ==> #[trigger] row[i] == c,
    ensures
        row_text(row, glyph, blank) == foreground_of(c) + repeat(glyph, row.len()) + reset(),
{
    lemma_uniform_runs(row, c);
    let rs = runs(row);
    assert(rs.drop_last() =~= Seq::<([u8; 4], nat)>::empty());
    assert(runs_text(rs.drop_last(), glyph, blank) == Seq::<char>::empty());
    assert(row_text(row, glyph, blank) =~= foreground_of(c) + repeat(glyph, row.len()) + reset());
}

/// Runs of transparent pixels render as one placeholder per pixel.
proof fn lemma_transparent_runs_text(rs: Seq<([u8; 4], nat)>, glyph: Seq<char>, blank: Seq<char>)
    requires
        forall|i: int| 0 <= i < rs.len() ==> !is_opaque(#[trigger] rs[i].0),
    ensures
        runs_text(rs, glyph, blank) == repeat(blank, total_length(rs)),
    decreases rs.len(),
{
    if rs.len() > 0 {
        let prev = rs.drop_last();
        assert forall|i: int| 0 <= i < prev.len() implies !is_opaque(#[trigger] prev[i].0) by {
            assert(prev[i] == rs[i]);
        }
        lemma_transparent_runs_text(prev, glyph, blank);
        assert(!is_opaque(rs[rs.len() - 1].0));
        lemma_repeat_add(blank, total_length(prev), rs.last().1);
        if rs.last().1 == 0 {
            assert(runs_text(rs, glyph, blank) =~= runs_text(prev, glyph, blank));
        }
    }
}

/// Each run of a row whose pixels are all transparent is transparent.
proof fn lemma_transparent_runs(row: Seq<[u8; 4]>)
    requires
        forall|i: int| 0 <= i < row.len() ==> !is_opaque(#[trigger] row[i]),
    ensures
        forall|i: int| 0 <= i < runs(row).len() ==> !is_opaque(#[trigger] runs(row)[i].0),
    decreases row.len(),
{
    if row.len() > 0 {
        let prev_row = row.drop_last();
        assert forall|i: int| 0 <= i < prev_row.len() implies !is_opaque(#[trigger] prev_row[i]) by {
            assert(prev_row[i] == row[i]);
        }
        lemma_transparent_runs(prev_row);
        let prev = runs(prev_row);
        let rs = runs(row);
        assert(!is_opaque(row[row.len() - 1]));
        assert forall|i: int| 0 <= i < rs.len() implies !is_opaque(#[trigger] rs[i].0) by {
            if i < prev.len() {
                assert(!is_opaque(prev[i].0));
            }
        }
    }
}

/// A row with no fully opaque pixel is one placeholder per pixel, whatever the colors.
pub proof fn lemma_transparent_row(row: Seq<[u8; 4]>, glyph: Seq<char>, blank: Seq<char>)
    requires
        forall|i: int| 0 <= i < row.len() ==> !is_opaque(#[trigger] row[i]),
    ensures
        row_text(row, glyph, blank) == repeat(blank, row.len()),
{
    lemma_transparent_runs(row);
    lemma_transparent_runs_text(runs(row), glyph, blank);
    lemma_runs_partition_row(row);
}

/// `length` copies of `empty_pixel_string`.
pub fn get_empty_slice(length: u64, empty_pixel_string: &str) -> (r: String)
    ensures
        r@ == repeat(empty_pixel_string@, length as nat),
{
    let mut output = String::new();
    let mut n: u64 = 0;
    while n < length
        invariant
            n <= length,
            output@ == repeat(empty_pixel_string@, n as nat),
        decreases length - n,
    {
        output.append(empty_pixel_string);
        n = n + 1;
    }
    output
}

/// The text for a run of `length` pixels of `color`: blanks when the color is not
/// fully opaque, else the colored glyphs followed by a reset.
pub fn pixel_slice_to_ansi(length: u64, color: &[u8; 4], pixel_ascii: &str, empty_pixel_string: &str) -> (r: String)
    ensures
        r@ == slice_text(length as nat, *color, pixel_ascii@, empty_pixel_string@),
{
    let mut output = String::new();
    if length > 0 {
        if color[3] != 255 {
            let blanks = get_empty_slice(length, empty_pixel_string);
            output.append(blanks.as_str());
        } else {
            let fg = rgb_to_ansi(color);
            output.append(fg.as_str());
            let ghost head = output@;
            let mut n: u64 = 0;
            while n < length
                invariant
                    n <= length,
                    output@ == head + repeat(pixel_ascii@, n as nat),
                decreases length - n,
            {
                output.append(pixel_ascii);
                n = n + 1;
            }
            output.append("\x1b[0m");
        }
    }
    output
}

/// True when the two pixels agree on all four channels.
pub fn same_pixel(a: &[u8; 4], b: &[u8; 4]) -> (r: bool)
    ensures
        r == (*a == *b),
{
    let r = a[0] == b[0] && a[1] == b[1] && a[2] == b[2] && a[3] == b[3];
    proof {
        broadcast use vstd::array::group_array_axioms;
        if r {
            assert(*a =~= *b);
        } else {
            assert(!(*a =~= *b));
        }
    }
    r
}

/// The standard-mode text of one row: each maximal run of equal pixels becomes one slice.
pub fn row_to_ansi(row: &[[u8; 4]], pixel_ascii: &str, empty_pixel_string: &str) -> (r: String)
    ensures
        r@ == row_text(row@, pixel_ascii@, empty_pixel_string@),
{
    let mut output = String::new();
    let len = row.len();
    if len == 0 {
        return output;
    }
    let mut current: [u8; 4] = row[0];
    let mut current_len: usize = 1;
    let mut x: usize = 1;
    proof {
        assert(row@.take(1).drop_last() =~= Seq::<[u8; 4]>::empty());
        assert(runs(Seq::<[u8; 4]>::empty()) == Seq::<([u8; 4], nat)>::empty());
        assert(runs(row@.take(1)) =~= seq![(current, 1nat)]);
        assert(runs(row@.take(1)).drop_last() =~= Seq::<([u8; 4], nat)>::empty());
    }
    while x < len
        invariant
            1 <= x <= len,
            len == row@.len(),
            1 <= current_len <= x,
            runs(row@.take(x as int)).len() >= 1,
            runs(row@.take(x as int)).last() == (current, current_len as nat),
            output@ == runs_text(runs(row@.take(x as int)).drop_last(), pixel_ascii@, empty_pixel_string@),
        decreases len - x,
    {
        let p = row[x];
        proof {
            assert(row@.take(x + 1).drop_last() =~= row@.take(x as int));
        }
        let ghost rs = runs(row@.take(x as int));
        if same_pixel(&p, &current) {
            current_len = current_len + 1;
            proof {
                assert(runs(row@.take(x + 1)).drop_last() =~= rs.drop_last());
            }
        } else {
            let piece = pixel_slice_to_ansi(current_len as u64, &current, pixel_ascii, empty_pixel_string);
            output.append(piece.as_str());
            current = p;
            current_len = 1;
            proof {
                assert(runs(row@.take(x + 1)).drop_last() =~= rs);
            }
        }
        x = x + 1;
    }
    let piece = pixel_slice_to_ansi(current_len as u64, &current, pixel_ascii, empty_pixel_string);
    output.append(piece.as_str());
    proof {
        assert(row@.take(len as int) =~= row@);
    }
    output
}

} // verus!
