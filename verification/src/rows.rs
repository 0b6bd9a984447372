//! Flat buffers seen as consecutive rows of equal width.
use vstd::prelude::*;

verus! {

/// The first `n` rows that `row` gives, laid end to end.
pub open spec fn joined<T>(n: nat, row: spec_fn(int) -> Seq<T>) -> Seq<T>
    decreases n,
{
    if n == 0 {
        Seq::empty()
    } else {
        joined((n - 1) as nat, row) + row(n - 1)
    }
}

/// Row `i` of a buffer cut into rows of `width` entries.
pub open spec fn row_of<T>(buffer: Seq<T>, width: nat, i: int) -> Seq<T> {
    buffer.subrange(i * width, i * width + width)
}

/// The rows of a sequence of rows, by number.
pub open spec fn listed<T>(rows: Seq<Seq<T>>) -> spec_fn(int) -> Seq<T> {
    |i: int| rows[i]
}

/// `n` rows of one width fill exactly `n * width` entries.
pub proof fn lemma_joined_len<T>(n: nat, width: nat, row: spec_fn(int) -> Seq<T>)
    requires
        forall|i: int| 0 <= i < n ==> (#[trigger] row(i)).len() == width,
    ensures
        joined(n, row).len() == n * width,
    decreases n,
{
    if n > 0 {
        lemma_joined_len((n - 1) as nat, width, row);
        assert((n - 1) * width + width == n * width) by (nonlinear_arith)
            requires
                n > 0,
        ;
    } else {
        assert(0 * width == 0) by (nonlinear_arith);
    }
}

/// Cutting joined rows apart again gives each row back.
pub proof fn lemma_joined_row<T>(n: nat, width: nat, row: spec_fn(int) -> Seq<T>, i: int)
    requires
        forall|j: int| 0 <= j < n ==> (#[trigger] row(j)).len() == width,
        0 <= i < n,
    ensures
        row_of(joined(n, row), width, i) == row(i),
    decreases n,
{
    lemma_joined_len(n, width, row);
    lemma_joined_len((n - 1) as nat, width, row);
    lemma_row_bounds(n as int, width as int, i);
    if i < n - 1 {
        lemma_row_bounds(n - 1, width as int, i);
        lemma_joined_row((n - 1) as nat, width, row, i);
        assert(row_of(joined(n, row), width, i) =~= row_of(joined((n - 1) as nat, row), width, i));
    } else {
        assert(row_of(joined(n, row), width, i) =~= row(i));
    }
}

/// Rows joined in two stretches are the rows joined in one.
pub proof fn lemma_joined_split<T>(
    a: nat,
    b: nat,
    first: spec_fn(int) -> Seq<T>,
    second: spec_fn(int) -> Seq<T>,
    whole: spec_fn(int) -> Seq<T>,
)
    requires
        forall|i: int| 0 <= i < a ==> #[trigger] whole(i) == first(i),
        forall|i: int| 0 <= i < b ==> #[trigger] whole(a + i) == second(i),
    ensures
        joined(a + b, whole) == joined(a, first) + joined(b, second),
    decreases b,
{
    if b == 0 {
        lemma_joined_same(a, whole, first);
        assert(joined(a, first) + joined(0, second) =~= joined(a, first));
    } else {
        lemma_joined_split(a, (b - 1) as nat, first, second, whole);
        assert(whole(a + (b - 1)) == second(b - 1));
        assert(joined(a + b, whole) == joined((a + b - 1) as nat, whole) + whole(a + b - 1));
        assert((a + b - 1) as nat == a + (b - 1) as nat);
        assert(joined(a, first) + joined(b, second) =~= (joined(a, first) + joined(
            (b - 1) as nat,
            second,
        )) + second(b - 1));
    }
}

/// Joining depends on the joined rows alone.
pub proof fn lemma_joined_same<T>(
    n: nat,
    left: spec_fn(int) -> Seq<T>,
    right: spec_fn(int) -> Seq<T>,
)
    requires
        forall|i: int| 0 <= i < n ==> #[trigger] left(i) == right(i),
    ensures
        joined(n, left) == joined(n, right),
    decreases n,
{
    if n > 0 {
        lemma_joined_same((n - 1) as nat, left, right);
        assert(left(n - 1) == right(n - 1));
    }
}

/// Row `i` of `n` lies inside `n * width` entries.
pub proof fn lemma_row_bounds(n: int, width: int, i: int)
    requires
        0 <= i < n,
        0 <= width,
    ensures
        0 <= i * width,
        i * width + width <= n * width,
        (i + 1) * width == i * width + width,
{
    assert(0 <= i * width) by (nonlinear_arith)
        requires
            0 <= i,
            0 <= width,
    ;
    assert((i + 1) * width == i * width + width) by (nonlinear_arith);
    assert((i + 1) * width <= n * width) by (nonlinear_arith)
        requires
            i + 1 <= n,
            0 <= width,
    ;
}

/// `n` times the same entry.
pub fn filled<T: Copy>(value: T, n: usize) -> (out: Vec<T>)
    ensures
        out@.len() == n,
        forall|i: int| 0 <= i < n ==> #[trigger] out@[i] == value,
{
    let mut out: Vec<T> = Vec::new();
    while out.len() < n
        invariant
            out@.len() <= n,
            forall|i: int| 0 <= i < out@.len() ==> #[trigger] out@[i] == value,
        decreases n - out@.len(),
    {
        out.push(value);
    }
    out
}

/// Appends a copy of `src` to `dst`.
pub fn push_all<T: Copy>(dst: &mut Vec<T>, src: &[T])
    ensures
        final(dst)@ == old(dst)@ + src@,
{
    let n: usize = src.len();
    let mut i: usize = 0;
    while i < n
        invariant
            n == src@.len(),
            i <= n,
            dst@ == old(dst)@ + src@.take(i as int),
        decreases n - i,
    {
        dst.push(src[i]);
        i += 1;
        assert(src@.take(i as int) =~= src@.take(i - 1).push(src@[i - 1]));
    }
    assert(src@.take(n as int) =~= src@);
}

/// Copies `src` over the entries of `dst` that start at `at`.
pub fn write_at<T: Copy>(dst: &mut [T], at: usize, src: &[T])
    requires
        at + src@.len() <= old(dst)@.len(),
    ensures
        final(dst)@ == old(dst)@.take(at as int) + src@ + old(dst)@.skip(at + src@.len()),
{
    let n: usize = src.len();
    let ghost total: usize = dst.len();
    let mut i: usize = 0;
    while i < n
        invariant
            n == src@.len(),
            i <= n,
            at + n <= total,
            total == old(dst)@.len(),
            dst@.len() == old(dst)@.len(),
            forall|j: int| 0 <= j < dst@.len() ==> #[trigger] dst@[j] == (if at <= j < at + i {
                src@[j - at]
            } else {
                old(dst)@[j]
            }),
        decreases n - i,
    {
        dst[at + i] = src[i];
        i += 1;
    }
    assert(dst@ =~= old(dst)@.take(at as int) + src@ + old(dst)@.skip(at + src@.len()));
}

} // verus!
