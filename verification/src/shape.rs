//! Shapes of dense arrays and the rules by which operations combine them.
//!
//! A shape lists the extent of each axis, outermost first. Every rule is a
//! specification function from input shapes to the shape of the result, `None`
//! where the shapes do not fit, beside an executable function that computes it.
use vstd::prelude::*;

verus! {

/// Every extent is at least zero.
pub open spec fn valid(s: Seq<i32>) -> bool {
    forall|i: int| 0 <= i < s.len() ==> #[trigger] s[i] >= 0
}

/// Computes [`valid`].
pub fn is_valid(s: &Vec<i32>) -> (r: bool)
    ensures
        r == valid(s@),
{
    let mut i: usize = 0;
    while i < s.len()
        invariant
            i <= s.len(),
            forall|j: int| 0 <= j < i ==> #[trigger] s@[j] >= 0,
        decreases s.len() - i,
    {
        if s[i] < 0 {
            return false;
        }
        i += 1;
    }
    true
}

/// The number of elements of an array of shape `s`.
pub open spec fn volume(s: Seq<i32>) -> int
    decreases s.len(),
{
    if s.len() == 0 {
        1
    } else {
        volume(s.drop_last()) * s.last()
    }
}

/// A valid shape has no negative volume.
pub proof fn lemma_volume_nonnegative(s: Seq<i32>)
    requires
        valid(s),
    ensures
        volume(s) >= 0,
    decreases s.len(),
{
    if s.len() > 0 {
        assert(valid(s.drop_last()));
        lemma_volume_nonnegative(s.drop_last());
        let v = volume(s.drop_last());
        let d = s.last() as int;
        assert(v * d >= 0) by (nonlinear_arith)
            requires
                v >= 0,
                d >= 0,
        ;
    }
}

/// The elements of an array with one axis.
pub proof fn lemma_volume1(a: i32)
    ensures
        volume(seq![a]) == a,
{
    assert(seq![a].drop_last() =~= Seq::<i32>::empty());
    assert(volume(Seq::<i32>::empty()) == 1);
    assert(1 * a == a);
}

/// The elements of an array with two axes.
pub proof fn lemma_volume2(a: i32, b: i32)
    ensures
        volume(seq![a, b]) == a * b,
{
    assert(seq![a, b].drop_last() =~= seq![a]);
    lemma_volume1(a);
}

/// The elements of an array with three axes.
pub proof fn lemma_volume3(a: i32, b: i32, c: i32)
    ensures
        volume(seq![a, b, c]) == a * b * c,
{
    assert(seq![a, b, c].drop_last() =~= seq![a, b]);
    lemma_volume2(a, b);
}

/// The elements of an array with four axes.
pub proof fn lemma_volume4(a: i32, b: i32, c: i32, d: i32)
    ensures
        volume(seq![a, b, c, d]) == a * b * c * d,
{
    assert(seq![a, b, c, d].drop_last() =~= seq![a, b, c]);
    lemma_volume3(a, b, c);
}

/// A shape with an empty axis has no elements.
proof fn lemma_volume_zero(s: Seq<i32>, k: int)
    requires
        0 <= k < s.len(),
        s[k] == 0,
    ensures
        volume(s) == 0,
    decreases s.len(),
{
    if k == s.len() - 1 {
        let v = volume(s.drop_last());
        assert(v * 0 == 0);
    } else {
        lemma_volume_zero(s.drop_last(), k);
        assert(0 * s.last() == 0);
    }
}

/// With no empty axis, leaving out trailing axes never raises the volume.
proof fn lemma_volume_prefix(s: Seq<i32>, k: int)
    requires
        0 <= k <= s.len(),
        forall|i: int| 0 <= i < s.len() ==> #[trigger] s[i] > 0,
    ensures
        0 < volume(s.take(k)) <= volume(s),
    decreases s.len(),
{
    if k == s.len() {
        assert(s.take(k) =~= s);
        if s.len() > 0 {
            lemma_volume_prefix(s.drop_last(), k - 1);
            assert(s.drop_last().take(k - 1) =~= s.drop_last());
            let v = volume(s.drop_last());
            let d = s.last() as int;
            assert(v * d > 0) by (nonlinear_arith)
                requires
                    v > 0,
                    d > 0,
            ;
        }
    } else {
        lemma_volume_prefix(s.drop_last(), k);
        assert(s.drop_last().take(k) =~= s.take(k));
        let v = volume(s.drop_last());
        let d = s.last() as int;
        assert(v * d >= v) by (nonlinear_arith)
            requires
                v > 0,
                d > 0,
        ;
    }
}

/// Computes the number of elements, `None` where it leaves the range of `u64`.
pub fn element_count(s: &Vec<i32>) -> (r: Option<u64>)
    requires
        valid(s@),
    ensures
        r is Some <==> volume(s@) <= u64::MAX,
        r matches Some(v) ==> v == volume(s@),
{
    let mut i: usize = 0;
    while i < s.len()
        invariant
            i <= s.len(),
            valid(s@),
            forall|j: int| 0 <= j < i ==> #[trigger] s@[j] > 0,
        decreases s.len() - i,
    {
        if s[i] == 0 {
            proof {
                lemma_volume_zero(s@, i as int);
            }
            return Some(0);
        }
        i += 1;
    }
    let mut v: u64 = 1;
    let mut k: usize = 0;
    while k < s.len()
        invariant
            k <= s.len(),
            forall|j: int| 0 <= j < s.len() ==> #[trigger] s@[j] > 0,
            v == volume(s@.take(k as int)),
        decreases s.len() - k,
    {
        proof {
            assert(s@.take(k + 1).drop_last() =~= s@.take(k as int));
            lemma_volume_prefix(s@, k + 1);
        }
        match v.checked_mul(s[k] as u64) {
            Some(next) => {
                v = next;
            },
            None => {
                return None;
            },
        }
        k += 1;
    }
    assert(s@.take(k as int) =~= s@);
    Some(v)
}

/// Extent `i` of `s` when it is extended by leading ones to `rank` axes.
pub open spec fn extent(s: Seq<i32>, rank: int, i: int) -> i32 {
    if i < rank - s.len() {
        1
    } else {
        s[i - (rank - s.len())]
    }
}

/// The larger of two ranks.
pub open spec fn common_rank(a: Seq<i32>, b: Seq<i32>) -> nat {
    if a.len() < b.len() {
        b.len()
    } else {
        a.len()
    }
}

/// Two extents agree, or one of them is stretched from one.
pub open spec fn extents_match(x: i32, y: i32) -> bool {
    x == y || x == 1 || y == 1
}

/// The shape of an elementwise operation on shapes `a` and `b`: axes are aligned
/// from the innermost outwards, and extents of one are stretched.
#[verifier::opaque]
pub open spec fn broadcast(a: Seq<i32>, b: Seq<i32>) -> Option<Seq<i32>> {
    let rank = common_rank(a, b);
    if forall|i: int|
        0 <= i < rank ==> extents_match(
            #[trigger] extent(a, rank as int, i),
            extent(b, rank as int, i),
        ) {
        Some(
            Seq::new(
                rank,
                |i: int|
                    if extent(a, rank as int, i) == 1 {
                        extent(b, rank as int, i)
                    } else {
                        extent(a, rank as int, i)
                    },
            ),
        )
    } else {
        None
    }
}

/// Computes [`extent`].
fn extent_at(s: &Vec<i32>, rank: usize, i: usize) -> (r: i32)
    requires
        s.len() <= rank,
        i < rank,
    ensures
        r == extent(s@, rank as int, i as int),
{
    let missing: usize = rank - s.len();
    if i < missing {
        1
    } else {
        s[i - missing]
    }
}

/// Computes [`broadcast`].
pub fn broadcast_shapes(a: &Vec<i32>, b: &Vec<i32>) -> (r: Option<Vec<i32>>)
    requires
        valid(a@),
        valid(b@),
    ensures
        r is Some <==> broadcast(a@, b@) is Some,
        r matches Some(s) ==> broadcast(a@, b@) == Some(s@) && valid(s@),
{
    proof {
        reveal(broadcast);
    }
    let rank: usize = if a.len() < b.len() {
        b.len()
    } else {
        a.len()
    };
    let mut out: Vec<i32> = Vec::new();
    let mut i: usize = 0;
    while i < rank
        invariant
            i <= rank,
            rank == common_rank(a@, b@),
            valid(a@),
            valid(b@),
            out.len() == i,
            valid(out@),
            forall|j: int|
                0 <= j < i ==> extents_match(
                    #[trigger] extent(a@, rank as int, j),
                    extent(b@, rank as int, j),
                ),
            forall|j: int|
                0 <= j < i ==> #[trigger] out@[j] == (if extent(a@, rank as int, j) == 1 {
                    extent(b@, rank as int, j)
                } else {
                    extent(a@, rank as int, j)
                }),
        decreases rank - i,
    {
        let x = extent_at(a, rank, i);
        let y = extent_at(b, rank, i);
        if x == y || x == 1 || y == 1 {
            out.push(if x == 1 { y } else { x });
        } else {
            proof {
                reveal(broadcast);
                assert(!extents_match(
                    extent(a@, rank as int, i as int),
                    extent(b@, rank as int, i as int),
                ));
            }
            return None;
        }
        i += 1;
    }
    assert(broadcast(a@, b@) is Some);
    assert(out@ =~= broadcast(a@, b@)->0);
    Some(out)
}

/// `x` is an extent: it is not negative and fits the index type.
pub open spec fn is_extent(x: int) -> bool {
    0 <= x <= i32::MAX
}

/// Where position `p` of an axis of extent `n` falls: negative positions count
/// from the end, and positions outside the axis move to its nearer end.
pub open spec fn clamp_position(n: int, p: int) -> int {
    let q = if p < 0 {
        p + n
    } else {
        p
    };
    if q < 0 {
        0
    } else if q > n {
        n
    } else {
        q
    }
}

/// The extent of positions `start..stop` of an axis of extent `n`.
pub open spec fn slice_extent(n: int, start: int, stop: int) -> int {
    let s = clamp_position(n, start);
    let e = clamp_position(n, stop);
    if e > s {
        e - s
    } else {
        0
    }
}

/// The shape of positions `start..stop` along `axis`.
#[verifier::opaque]
pub open spec fn slice_shape(s: Seq<i32>, axis: int, start: int, stop: int) -> Option<Seq<i32>> {
    if 0 <= axis < s.len() {
        Some(s.update(axis, slice_extent(s[axis] as int, start, stop) as i32))
    } else {
        None
    }
}

/// Computes [`clamp_position`].
fn clamped(n: i32, p: i32) -> (r: i32)
    requires
        n >= 0,
    ensures
        r == clamp_position(n as int, p as int),
        0 <= r <= n,
{
    let q: i32 = if p < 0 {
        p + n
    } else {
        p
    };
    if q < 0 {
        0
    } else if q > n {
        n
    } else {
        q
    }
}

/// A copy of a shape.
pub fn copy_shape(s: &Vec<i32>) -> (r: Vec<i32>)
    ensures
        r@ == s@,
{
    let mut out: Vec<i32> = Vec::new();
    let mut i: usize = 0;
    while i < s.len()
        invariant
            i <= s.len(),
            out@ == s@.take(i as int),
        decreases s.len() - i,
    {
        out.push(s[i]);
        i += 1;
        assert(s@.take(i as int) =~= s@.take(i - 1).push(s@[i - 1]));
    }
    assert(s@.take(i as int) =~= s@);
    out
}

/// Whether two shapes are the same.
pub fn same_shape(a: &Vec<i32>, b: &Vec<i32>) -> (r: bool)
    ensures
        r == (a@ == b@),
{
    if a.len() != b.len() {
        return false;
    }
    let mut i: usize = 0;
    while i < a.len()
        invariant
            i <= a.len(),
            a.len() == b.len(),
            forall|j: int| 0 <= j < i ==> #[trigger] a@[j] == b@[j],
        decreases a.len() - i,
    {
        if a[i] != b[i] {
            return false;
        }
        i += 1;
    }
    assert(a@ =~= b@);
    true
}

/// Computes [`slice_shape`].
pub fn sliced_shape(s: &Vec<i32>, axis: usize, start: i32, stop: i32) -> (r: Option<Vec<i32>>)
    requires
        valid(s@),
    ensures
        r is Some <==> slice_shape(s@, axis as int, start as int, stop as int) is Some,
        r matches Some(t) ==> slice_shape(s@, axis as int, start as int, stop as int) == Some(t@)
            && valid(t@),
{
    proof {
        reveal(slice_shape);
    }
    if axis >= s.len() {
        return None;
    }
    let from = clamped(s[axis], start);
    let to = clamped(s[axis], stop);
    let mut out = copy_shape(s);
    out.set(axis, if to > from { to - from } else { 0 });
    Some(out)
}

/// The shape after reading the elements of an array of shape `s`, in order, as one
/// of shape `dims`.
#[verifier::opaque]
pub open spec fn reshape_shape(s: Seq<i32>, dims: Seq<i32>) -> Option<Seq<i32>> {
    if valid(dims) && volume(s) <= u64::MAX && volume(dims) == volume(s) {
        Some(dims)
    } else {
        None
    }
}

/// Whether [`reshape_shape`] accepts `dims`.
pub fn reshapes_to(s: &Vec<i32>, dims: &Vec<i32>) -> (r: bool)
    requires
        valid(s@),
    ensures
        r <==> reshape_shape(s@, dims@) is Some,
{
    proof {
        reveal(reshape_shape);
    }
    if !is_valid(dims) {
        return false;
    }
    match (element_count(s), element_count(dims)) {
        (Some(x), Some(y)) => x == y,
        _ => false,
    }
}

/// The shape after stretching an array of shape `s` to `dims`.
#[verifier::opaque]
pub open spec fn stretch_shape(s: Seq<i32>, dims: Seq<i32>) -> Option<Seq<i32>> {
    if valid(dims) && broadcast(s, dims) == Some(dims) {
        Some(dims)
    } else {
        None
    }
}

/// Whether [`stretch_shape`] accepts `dims`.
pub fn stretches_to(s: &Vec<i32>, dims: &Vec<i32>) -> (r: bool)
    requires
        valid(s@),
    ensures
        r <==> stretch_shape(s@, dims@) is Some,
{
    proof {
        reveal(stretch_shape);
    }
    if !is_valid(dims) {
        return false;
    }
    match broadcast_shapes(s, dims) {
        Some(t) => same_shape(&t, dims),
        None => false,
    }
}

/// Two shapes of one rank that differ at most along `axis`.
pub open spec fn differ_only_on(a: Seq<i32>, b: Seq<i32>, axis: int) -> bool {
    a.len() == b.len() && forall|i: int|
        0 <= i < a.len() && i != axis ==> #[trigger] a[i] == b[i]
}

/// Computes [`differ_only_on`].
pub fn differs_only_on(a: &Vec<i32>, b: &Vec<i32>, axis: usize) -> (r: bool)
    ensures
        r == differ_only_on(a@, b@, axis as int),
{
    if a.len() != b.len() {
        return false;
    }
    let mut i: usize = 0;
    while i < a.len()
        invariant
            i <= a.len(),
            a.len() == b.len(),
            forall|j: int| 0 <= j < i && j != axis ==> #[trigger] a@[j] == b@[j],
        decreases a.len() - i,
    {
        if i != axis && a[i] != b[i] {
            return false;
        }
        i += 1;
    }
    true
}

/// The extents along `axis`, added up.
pub open spec fn axis_total(shapes: Seq<Seq<i32>>, axis: int) -> int
    decreases shapes.len(),
{
    if shapes.len() == 0 {
        0
    } else {
        axis_total(shapes.drop_last(), axis) + shapes.last()[axis]
    }
}

/// The shape of arrays joined along `axis`.
#[verifier::opaque]
pub open spec fn concat_shape(shapes: Seq<Seq<i32>>, axis: int) -> Option<Seq<i32>> {
    if shapes.len() > 0 && 0 <= axis < shapes[0].len() && (forall|k: int|
        0 <= k < shapes.len() ==> differ_only_on(shapes[0], #[trigger] shapes[k], axis))
        && is_extent(axis_total(shapes, axis)) {
        Some(shapes[0].update(axis, axis_total(shapes, axis) as i32))
    } else {
        None
    }
}

/// Joining more arrays never shortens the axis.
pub proof fn lemma_axis_total_prefix(shapes: Seq<Seq<i32>>, axis: int, k: int)
    requires
        0 <= k <= shapes.len(),
        forall|i: int| 0 <= i < shapes.len() ==> (#[trigger] shapes[i])[axis] >= 0,
    ensures
        0 <= axis_total(shapes.take(k), axis) <= axis_total(shapes, axis),
    decreases shapes.len(),
{
    if k == shapes.len() {
        assert(shapes.take(k) =~= shapes);
        if shapes.len() > 0 {
            assert forall|i: int| 0 <= i < shapes.drop_last().len() implies (
            #[trigger] shapes.drop_last()[i])[axis] >= 0 by {
                assert(shapes.drop_last()[i] == shapes[i]);
            }
            lemma_axis_total_prefix(shapes.drop_last(), axis, k - 1);
            assert(shapes.drop_last().take(k - 1) =~= shapes.drop_last());
            assert(shapes.last() == shapes[k - 1]);
        }
    } else {
        assert forall|i: int| 0 <= i < shapes.drop_last().len() implies (
        #[trigger] shapes.drop_last()[i])[axis] >= 0 by {
            assert(shapes.drop_last()[i] == shapes[i]);
        }
        lemma_axis_total_prefix(shapes.drop_last(), axis, k);
        assert(shapes.drop_last().take(k) =~= shapes.take(k));
        assert(shapes.last() == shapes[shapes.len() - 1]);
    }
}

/// The shape after adding `before` and `after` elements to the ends of `axis`.
#[verifier::opaque]
pub open spec fn pad_shape(s: Seq<i32>, axis: int, before: int, after: int) -> Option<Seq<i32>> {
    if 0 <= axis < s.len() && before >= 0 && after >= 0 && is_extent(s[axis] + before + after) {
        Some(s.update(axis, (s[axis] + before + after) as i32))
    } else {
        None
    }
}

/// The shape without `axis`.
#[verifier::opaque]
pub open spec fn reduce_shape(s: Seq<i32>, axis: int) -> Option<Seq<i32>> {
    if 0 <= axis < s.len() {
        Some(s.remove(axis))
    } else {
        None
    }
}

/// The last flat position that `frames` windows of `size` elements read in each of
/// `batch` rows, when rows start `row` and windows `hop` elements apart.
pub open spec fn windows_reach(batch: int, frames: int, size: int, row: int, hop: int) -> int {
    (batch - 1) * row + (frames - 1) * hop + (size - 1)
}

/// The shape of `frames` windows of `size` elements in each of `batch` rows of an
/// array of shape `s`. No window reads past the last element.
#[verifier::opaque]
pub open spec fn windows_shape(
    s: Seq<i32>,
    batch: int,
    frames: int,
    size: int,
    row: int,
    hop: int,
) -> Option<Seq<i32>> {
    if is_extent(batch) && is_extent(frames) && is_extent(size) && row >= 0 && hop >= 0 && volume(s)
        <= u64::MAX && (batch == 0 || frames == 0 || size == 0 || windows_reach(
        batch,
        frames,
        size,
        row,
        hop,
    ) < volume(s)) {
        Some(seq![batch as i32, frames as i32, size as i32])
    } else {
        None
    }
}

/// Whether [`windows_shape`] accepts its arguments.
pub fn windows_fit(s: &Vec<i32>, batch: i32, frames: i32, size: i32, row: i32, hop: i32) -> (r:
    bool)
    requires
        valid(s@),
    ensures
        r <==> windows_shape(
            s@,
            batch as int,
            frames as int,
            size as int,
            row as int,
            hop as int,
        ) is Some,
{
    proof {
        reveal(windows_shape);
    }
    if batch < 0 || frames < 0 || size < 0 || row < 0 || hop < 0 {
        return false;
    }
    match element_count(s) {
        Some(count) => {
            if batch == 0 || frames == 0 || size == 0 {
                true
            } else {
                proof {
                    let (b, f) = (batch as int - 1, frames as int - 1);
                    let (p, q) = (row as int, hop as int);
                    assert(0 <= b * p <= 0x7fff_ffff * 0x7fff_ffff) by (nonlinear_arith)
                        requires
                            0 <= b <= 0x7fff_ffff,
                            0 <= p <= 0x7fff_ffff,
                    ;
                    assert(0 <= f * q <= 0x7fff_ffff * 0x7fff_ffff) by (nonlinear_arith)
                        requires
                            0 <= f <= 0x7fff_ffff,
                            0 <= q <= 0x7fff_ffff,
                    ;
                }
                let reach: i128 = (batch as i128 - 1) * (row as i128) + (frames as i128 - 1) * (
                hop as i128) + (size as i128 - 1);
                reach < count as i128
            }
        },
        None => false,
    }
}

/// The axes of an array of shape `s` before those of its matrices.
pub open spec fn leading(s: Seq<i32>) -> Seq<i32> {
    if s.len() > 2 {
        s.take(s.len() - 2)
    } else {
        Seq::empty()
    }
}

/// The rows of the matrices of shape `s`: none where there is one axis only, which is then a
/// row.
pub open spec fn rows(s: Seq<i32>) -> Seq<i32> {
    if s.len() > 1 {
        seq![s[s.len() - 2]]
    } else {
        Seq::empty()
    }
}

/// The columns of the matrices of shape `s`: none where there is one axis only, which is then
/// a column.
pub open spec fn columns(s: Seq<i32>) -> Seq<i32> {
    if s.len() > 1 {
        seq![s.last()]
    } else {
        Seq::empty()
    }
}

/// The length of the columns of the matrices of shape `s`.
pub open spec fn column_length(s: Seq<i32>) -> i32 {
    if s.len() > 1 {
        s[s.len() - 2]
    } else {
        s[0]
    }
}

/// The shape of the matrix products of arrays of shapes `x` and `w`: the last two axes are
/// those of the matrices, and the axes before them are broadcast.
#[verifier::opaque]
pub open spec fn matmul_shape(x: Seq<i32>, w: Seq<i32>) -> Option<Seq<i32>> {
    if x.len() >= 1 && w.len() >= 1 && x.last() == column_length(w) {
        match broadcast(leading(x), leading(w)) {
            Some(lead) => Some(lead + rows(x) + columns(w)),
            None => None,
        }
    } else {
        None
    }
}

/// The product with one matrix.
pub proof fn lemma_one_matrix(x: Seq<i32>, w: Seq<i32>)
    requires
        x.len() >= 1,
        w.len() == 2,
        x.last() == w[0],
    ensures
        matmul_shape(x, w) == Some(x.drop_last().push(w[1])),
{
    reveal(matmul_shape);
    reveal(broadcast);
    let lead = leading(x);
    let none = Seq::<i32>::empty();
    assert(leading(w) =~= none);
    let rank = lead.len() as int;
    assert forall|i: int| 0 <= i < rank implies extent(none, rank, i) == 1 && extent(lead, rank, i)
        == lead[i] by {}
    assert(broadcast(lead, none)->0 =~= lead);
    assert(lead + rows(x) + columns(w) =~= x.drop_last().push(w[1]));
}

/// Computes [`leading`].
fn leading_axes(s: &Vec<i32>) -> (r: Vec<i32>)
    requires
        valid(s@),
    ensures
        r@ == leading(s@),
        valid(r@),
{
    let mut out: Vec<i32> = Vec::new();
    let mut i: usize = 0;
    let count: usize = if s.len() > 2 {
        s.len() - 2
    } else {
        0
    };
    while i < count
        invariant
            valid(s@),
            i <= count,
            count == leading(s@).len(),
            out@ == leading(s@).take(i as int),
        decreases count - i,
    {
        out.push(s[i]);
        i += 1;
        assert(leading(s@).take(i as int) =~= leading(s@).take(i - 1).push(s@[i - 1]));
    }
    assert(leading(s@).take(i as int) =~= leading(s@));
    assert(valid(out@));
    out
}

/// Computes [`matmul_shape`].
pub fn product_shape(x: &Vec<i32>, w: &Vec<i32>) -> (r: Option<Vec<i32>>)
    requires
        valid(x@),
        valid(w@),
    ensures
        r is Some <==> matmul_shape(x@, w@) is Some,
        r matches Some(s) ==> matmul_shape(x@, w@) == Some(s@) && valid(s@),
{
    proof {
        reveal(matmul_shape);
    }
    if x.len() == 0 || w.len() == 0 {
        return None;
    }
    let length: i32 = if w.len() > 1 {
        w[w.len() - 2]
    } else {
        w[0]
    };
    if x[x.len() - 1] != length {
        return None;
    }
    match broadcast_shapes(&leading_axes(x), &leading_axes(w)) {
        Some(lead) => {
            let mut s = lead;
            if x.len() > 1 {
                s.push(x[x.len() - 2]);
            }
            if w.len() > 1 {
                s.push(w[w.len() - 1]);
            }
            assert(s@ =~= matmul_shape(x@, w@)->0);
            Some(s)
        },
        None => None,
    }
}

/// The shape of the non-redundant half of the spectra of the innermost axis, each
/// taken over `n` points.
#[verifier::opaque]
pub open spec fn rfft_shape(x: Seq<i32>, n: int) -> Option<Seq<i32>> {
    if x.len() >= 1 && n >= 1 && is_extent(n) {
        Some(x.update(x.len() - 1, (n / 2 + 1) as i32))
    } else {
        None
    }
}

/// The shape of the elements of `x` that `index` picks along `axis`.
#[verifier::opaque]
pub open spec fn pick_shape(x: Seq<i32>, index: Seq<i32>, axis: int) -> Option<Seq<i32>> {
    if 0 <= axis < x.len() && differ_only_on(x, index, axis) && (x[axis] > 0 || index[axis] == 0) {
        Some(index)
    } else {
        None
    }
}

/// How many neighbouring inputs a kernel of `k` taps spans at this dilation.
pub open spec fn kernel_span(k: int, dilation: int) -> int {
    dilation * (k - 1) + 1
}

/// The length of a convolution over `length` inputs.
pub open spec fn conv_length(
    length: int,
    k: int,
    stride: int,
    padding: int,
    dilation: int,
) -> int {
    (length + 2 * padding - kernel_span(k, dilation)) / stride + 1
}

/// The shape of a convolution of `x` (batch, length, channels) with `w` (output
/// channels, taps, channels).
#[verifier::opaque]
pub open spec fn conv_shape(
    x: Seq<i32>,
    w: Seq<i32>,
    stride: int,
    padding: int,
    dilation: int,
) -> Option<Seq<i32>> {
    if x.len() == 3 && w.len() == 3 && x[2] == w[2] && w[1] >= 1 && stride >= 1 && padding >= 0
        && dilation >= 1 && x[1] + 2 * padding >= kernel_span(w[1] as int, dilation) && is_extent(
        conv_length(x[1] as int, w[1] as int, stride, padding, dilation),
    ) {
        Some(
            seq![
                x[0],
                conv_length(x[1] as int, w[1] as int, stride, padding, dilation) as i32,
                w[0],
            ],
        )
    } else {
        None
    }
}

/// Computes [`conv_shape`].
pub fn convolved_shape(
    x: &Vec<i32>,
    w: &Vec<i32>,
    stride: i32,
    padding: i32,
    dilation: i32,
) -> (r: Option<Vec<i32>>)
    requires
        valid(x@),
        valid(w@),
    ensures
        r is Some <==> conv_shape(
            x@,
            w@,
            stride as int,
            padding as int,
            dilation as int,
        ) is Some,
        r matches Some(t) ==> conv_shape(
            x@,
            w@,
            stride as int,
            padding as int,
            dilation as int,
        ) == Some(t@) && valid(t@),
{
    proof {
        reveal(conv_shape);
    }
    if x.len() != 3 || w.len() != 3 {
        return None;
    }
    if x[2] != w[2] || w[1] < 1 || stride < 1 || padding < 0 || dilation < 1 {
        return None;
    }
    proof {
        let (d, k) = (dilation as int, w@[1] as int - 1);
        assert(0 <= d * k <= 0x7fff_ffff * 0x7fff_ffff) by (nonlinear_arith)
            requires
                0 <= d <= 0x7fff_ffff,
                0 <= k <= 0x7fff_ffff,
        ;
    }
    let span: i64 = (dilation as i64) * (w[1] as i64 - 1) + 1;
    let padded: i64 = x[1] as i64 + 2 * (padding as i64);
    if padded < span {
        return None;
    }
    let length: i64 = (padded - span) / (stride as i64) + 1;
    proof {
        let (n, s) = (padded - span, stride as int);
        assert(0 <= n / s <= n) by (nonlinear_arith)
            requires
                n >= 0,
                s >= 1,
        ;
    }
    if length > i32::MAX as i64 {
        return None;
    }
    let out: Vec<i32> = vec![x[0], length as i32, w[0]];
    assert(out@ =~= conv_shape(x@, w@, stride as int, padding as int, dilation as int)->0);
    Some(out)
}

/// The length of a transposed convolution over `length` inputs.
pub open spec fn transposed_length(length: int, k: int, stride: int, padding: int) -> int {
    (length - 1) * stride - 2 * padding + k
}

/// The shape of a transposed convolution of `x` (batch, length, channels) with `w`
/// (output channels, taps, channels).
#[verifier::opaque]
pub open spec fn transposed_shape(
    x: Seq<i32>,
    w: Seq<i32>,
    stride: int,
    padding: int,
) -> Option<Seq<i32>> {
    if x.len() == 3 && w.len() == 3 && x[2] == w[2] && x[1] >= 1 && w[1] >= 1 && stride >= 1
        && padding >= 0 && is_extent(
        transposed_length(x[1] as int, w[1] as int, stride, padding),
    ) {
        Some(
            seq![x[0], transposed_length(x[1] as int, w[1] as int, stride, padding) as i32, w[0]],
        )
    } else {
        None
    }
}

/// Computes [`transposed_shape`].
pub fn transpose_convolved_shape(x: &Vec<i32>, w: &Vec<i32>, stride: i32, padding: i32) -> (r:
    Option<Vec<i32>>)
    requires
        valid(x@),
        valid(w@),
    ensures
        r is Some <==> transposed_shape(x@, w@, stride as int, padding as int) is Some,
        r matches Some(t) ==> transposed_shape(x@, w@, stride as int, padding as int) == Some(t@)
            && valid(t@),
{
    proof {
        reveal(transposed_shape);
    }
    if x.len() != 3 || w.len() != 3 {
        return None;
    }
    if x[2] != w[2] || x[1] < 1 || w[1] < 1 || stride < 1 || padding < 0 {
        return None;
    }
    proof {
        let (n, s) = (x@[1] as int - 1, stride as int);
        assert(0 <= n * s <= 0x7fff_ffff * 0x7fff_ffff) by (nonlinear_arith)
            requires
                0 <= n <= 0x7fff_ffff,
                0 <= s <= 0x7fff_ffff,
        ;
    }
    let length: i64 = (x[1] as i64 - 1) * (stride as i64) - 2 * (padding as i64) + (w[1] as i64);
    if length < 0 || length > i32::MAX as i64 {
        return None;
    }
    let out: Vec<i32> = vec![x[0], length as i32, w[0]];
    assert(out@ =~= transposed_shape(x@, w@, stride as int, padding as int)->0);
    Some(out)
}

} // verus!
