//! Rendering a board as text, and drawing random boards.

use vstd::prelude::*;

use rand::Rng;

verus! {

/// The character of the decimal digit `d` (`0 <= d < 10`).
pub open spec fn digit_char(d: int) -> char {
    seq!['0', '1', '2', '3', '4', '5', '6', '7', '8', '9'][d]
}

/// The decimal writing of `v`, without leading zeros.
pub open spec fn decimal(v: u8) -> Seq<char> {
    if v < 10 {
        seq![digit_char(v as int)]
    } else if v < 100 {
        seq![digit_char(v as int / 10), digit_char(v as int % 10)]
    } else {
        seq![digit_char(v as int / 100), digit_char((v as int / 10) % 10), digit_char(v as int % 10)]
    }
}

/// The cells of one row, written in decimal and separated by single spaces.
pub open spec fn row_text(cells: Seq<u8>) -> Seq<char>
    decreases cells.len(),
{
    if cells.len() == 0 {
        Seq::empty()
    } else if cells.len() == 1 {
        decimal(cells[0])
    } else {
        row_text(cells.drop_last()) + seq![' '] + decimal(cells.last())
    }
}

/// The board cut into rows of `w` cells (the last one possibly shorter), each
/// written by `row_text`, the rows separated by newlines.
pub open spec fn grid_text(g: Seq<u8>, w: nat) -> Seq<char>
    decreases g.len(),
{
    if g.len() <= w || w == 0 {
        row_text(g)
    } else {
        row_text(g.take(w as int)) + seq!['\n'] + grid_text(g.skip(w as int), w)
    }
}

fn digit_str(d: u8) -> (r: &'static str)
    requires
        d < 10,
    ensures
        r@ == seq![digit_char(d as int)],
{
    proof {
        reveal_strlit("0");
        reveal_strlit("1");
        reveal_strlit("2");
        reveal_strlit("3");
        reveal_strlit("4");
        reveal_strlit("5");
        reveal_strlit("6");
        reveal_strlit("7");
        reveal_strlit("8");
        reveal_strlit("9");
    }
    match d {
        0 => "0",
        1 => "1",
        2 => "2",
        3 => "3",
        4 => "4",
        5 => "5",
        6 => "6",
        7 => "7",
        8 => "8",
        _ => "9",
    }
}

fn append_decimal(s: &mut String, v: u8)
    ensures
        final(s)@ == old(s)@ + decimal(v),
{
    let ghost start = s@;
    if v >= 100 {
        s.append(digit_str(v / 100));
    }
    if v >= 10 {
        s.append(digit_str((v / 10) % 10));
    }
    s.append(digit_str(v % 10));
    assert(s@ =~= start + decimal(v));
}

/// Writes the board as rows of `width` cells, each cell in decimal, cells
/// separated by a space and rows by a newline.
pub fn grid_to_string(grid: &[u8], width: usize) -> (r: String)
    requires
        width > 0,
    ensures
        r@ == grid_text(grid@, width as nat),
{
    let ghost g = grid@;
    proof {
        reveal_strlit(" ");
        reveal_strlit("\n");
    }
    let mut s = String::new();
    let n = grid.len();
    let mut start: usize = 0;
    assert(g.skip(0) =~= g);
    assert(grid_text(g, width as nat) =~= s@ + grid_text(g.skip(0), width as nat));
    while start < n
        invariant
            width > 0,
            n == g.len(),
            g == grid@,
            start <= n,
            grid_text(g, width as nat) == s@ + grid_text(g.skip(start as int), width as nat),
        decreases n - start,
    {
        proof {
            reveal_strlit("\n");
        }
        let ghost rest = g.skip(start as int);
        let end = if n - start > width {
            start + width
        } else {
            n
        };
        let ghost row = g.subrange(start as int, end as int);
        let ghost base = s@;
        let mut j: usize = start;
        while j < end
            invariant
                start <= j <= end,
                end <= n,
                n == g.len(),
                g == grid@,
                row == g.subrange(start as int, end as int),
                s@ == base + row_text(g.subrange(start as int, j as int)),
            decreases end - j,
        {
            proof {
                reveal_strlit(" ");
            }
            let ghost pre = g.subrange(start as int, (j + 1) as int);
            assert(pre.drop_last() =~= g.subrange(start as int, j as int));
            assert(pre.last() == g[j as int]);
            if j > start {
                s.append(" ");
            }
            append_decimal(&mut s, grid[j]);
            if j == start {
                assert(row_text(g.subrange(start as int, j as int)) =~= Seq::<char>::empty());
            }
            assert(s@ =~= base + row_text(pre));
            j = j + 1;
        }
        if end == n {
            assert(rest =~= row);
            assert(s@ =~= base + grid_text(rest, width as nat));
            return s;
        }
        assert(rest.take(width as int) =~= row);
        assert(rest.skip(width as int) =~= g.skip(end as int));
        s.append("\n");
        assert(rest.len() > width);
        assert(grid_text(rest, width as nat) == row_text(rest.take(width as int)) + seq!['\n']
            + grid_text(rest.skip(width as int), width as nat));
        assert(grid_text(g, width as nat) =~= s@ + grid_text(g.skip(end as int), width as nat));
        start = end;
    }
    assert(g.skip(start as int) =~= Seq::<u8>::empty());
    assert(s@ =~= s@ + grid_text(g.skip(start as int), width as nat));
    s
}

#[verifier::external_type_specification]
#[verifier::external_body]
pub struct ExThreadRng(rand::rngs::ThreadRng);

/// Relies on rand::thread_rng for a handle on the thread's random generator;
/// nothing is known of its state.
pub assume_specification[ rand::thread_rng ]() -> rand::rngs::ThreadRng;

/// Relies on rand::Rng::gen_range, which returns a value of the half-open
/// range it is given, here `0..10`.
#[verifier::external_body]
fn random_digit(rng: &mut rand::rngs::ThreadRng) -> (d: u8)
    ensures
        d < 10,
{
    rng.gen_range(0..10u8)
}

/// A board of `width * height` random digits, each in `0..10`.
pub fn random_grid(width: usize, height: usize) -> (r: Vec<u8>)
    requires
        width * height <= usize::MAX,
    ensures
        r@.len() == width * height,
        forall|i: int| 0 <= i < r@.len() ==> r@[i] < 10,
{
    let mut rng = rand::thread_rng();
    let n = width * height;
    let mut o: Vec<u8> = Vec::new();
    let mut i: usize = 0;
    while i < n
        invariant
            i <= n,
            o@.len() == i,
            forall|k: int| 0 <= k < o@.len() ==> o@[k] < 10,
        decreases n - i,
    {
        let v = random_digit(&mut rng);
        o.push(v);
        i = i + 1;
    }
    o
}

} // verus!
