//! Elementwise multiplication of rank-three tensors whose shapes need not
//! agree: an axis of extent one is repeated to match the other operand.
use vstd::prelude::*;
use vstd::string::*;
use crate::scalar::{is_product, Scalar};
use crate::tensor::{checked_volume, lemma_offset3_onto, offset3, volume, Tensor3};

verus! {

/// What the engine reports in place of a result.
#[derive(Debug)]
pub enum MathError {
    /// Two operands disagree on an axis and neither has extent one there.
    /// The message names both shapes.
    ShapeMismatchError(String),
}

/// The character of the decimal digit `d`.
pub open spec fn digit(d: int) -> char {
    if d == 0 {
        '0'
    } else if d == 1 {
        '1'
    } else if d == 2 {
        '2'
    } else if d == 3 {
        '3'
    } else if d == 4 {
        '4'
    } else if d == 5 {
        '5'
    } else if d == 6 {
        '6'
    } else if d == 7 {
        '7'
    } else if d == 8 {
        '8'
    } else {
        '9'
    }
}

/// `n` in decimal, without leading zeros.
pub open spec fn decimal(n: int) -> Seq<char>
    decreases n,
{
    if n < 10 {
        seq![digit(n)]
    } else {
        decimal(n / 10).push(digit(n % 10))
    }
}

/// A shape as text: its three extents in parentheses, separated by a comma
/// and a space.
pub open spec fn shape_text(shape: (usize, usize, usize)) -> Seq<char> {
    seq!['('] + decimal(shape.0 as int) + seq![',', ' '] + decimal(shape.1 as int) + seq![',', ' ']
        + decimal(shape.2 as int) + seq![')']
}

/// The message of a shape mismatch between `shape1` and `shape2`.
pub open spec fn mismatch_text(
    shape1: (usize, usize, usize),
    shape2: (usize, usize, usize),
) -> Seq<char> {
    "tensor1.shape = "@ + shape_text(shape1) + ", tensor2.shape = "@ + shape_text(shape2)
}

fn digit_str(d: usize) -> (s: &'static str)
    requires
        d < 10,
    ensures
        s@ == seq![digit(d as int)],
{
    proof {
        reveal_strlit("0");
        reveal_strlit("1");
        reveal_strlit("2");
        reveal_strlit("3");
        reveal_strlit("4");
        reveal_strlit("5");
        reveal_strlit("6");
        reveal_strlit("7");
        reveal_strlit("8");
        reveal_strlit("9");
    }
    let s = if d == 0 {
        "0"
    } else if d == 1 {
        "1"
    } else if d == 2 {
        "2"
    } else if d == 3 {
        "3"
    } else if d == 4 {
        "4"
    } else if d == 5 {
        "5"
    } else if d == 6 {
        "6"
    } else if d == 7 {
        "7"
    } else if d == 8 {
        "8"
    } else {
        "9"
    };
    assert(s@ =~= seq![digit(d as int)]);
    s
}

fn push_decimal(text: &mut String, n: usize)
    ensures
        final(text)@ == old(text)@ + decimal(n as int),
    decreases n,
{
    if n < 10 {
        text.append(digit_str(n));
    } else {
        push_decimal(text, n / 10);
        text.append(digit_str(n % 10));
        assert(text@ =~= old(text)@ + decimal(n as int));
    }
}

fn push_shape(text: &mut String, shape: (usize, usize, usize))
    ensures
        final(text)@ == old(text)@ + shape_text(shape),
{
    proof {
        reveal_strlit("(");
        reveal_strlit(", ");
        reveal_strlit(")");
    }
    text.append("(");
    push_decimal(text, shape.0);
    text.append(", ");
    push_decimal(text, shape.1);
    text.append(", ");
    push_decimal(text, shape.2);
    text.append(")");
    assert(text@ =~= old(text)@ + shape_text(shape));
}

/// The message of a shape mismatch between `shape1` and `shape2`.
pub fn mismatch_message(shape1: (usize, usize, usize), shape2: (usize, usize, usize)) -> (text:
    String)
    ensures
        text@ == mismatch_text(shape1, shape2),
{
    let mut text = String::from_str("tensor1.shape = ");
    push_shape(&mut text, shape1);
    text.append(", tensor2.shape = ");
    push_shape(&mut text, shape2);
    assert(text@ =~= mismatch_text(shape1, shape2));
    text
}

/// The extent of the product along an axis on which the operands have
/// the extents `a` and `b`: the common extent; where they differ and one of
/// them is one, the larger; otherwise none.
pub open spec fn broadcast_extent(a: usize, b: usize) -> Option<usize> {
    if a == b {
        Some(a)
    } else if a == 1 || b == 1 {
        Some(if a > b { a } else { b })
    } else {
        None
    }
}

/// The shape of the product of operands of the shapes `shape1` and `shape2`;
/// none where they disagree on an axis.
pub open spec fn broadcast_shape(
    shape1: (usize, usize, usize),
    shape2: (usize, usize, usize),
) -> Option<(usize, usize, usize)> {
    match (
        broadcast_extent(shape1.0, shape2.0),
        broadcast_extent(shape1.1, shape2.1),
        broadcast_extent(shape1.2, shape2.2),
    ) {
        (Some(e0), Some(e1), Some(e2)) => Some((e0, e1, e2)),
        _ => None,
    }
}

/// Whether one of the extents `a` and `b` is zero and the other is one. The
/// product would have extent one on such an axis, and the empty operand no
/// cell to repeat.
pub open spec fn repeats_nothing(a: usize, b: usize) -> bool {
    (a == 0 && b == 1) || (a == 1 && b == 0)
}

/// Whether a product of operands of these shapes can be formed and stored: no
/// axis asks an empty operand to be repeated, and the number of cells of the
/// product fits the machine.
pub open spec fn broadcast_feasible(
    shape1: (usize, usize, usize),
    shape2: (usize, usize, usize),
) -> bool {
    match broadcast_shape(shape1, shape2) {
        Some(shape) => {
            &&& !repeats_nothing(shape1.0, shape2.0)
            &&& !repeats_nothing(shape1.1, shape2.1)
            &&& !repeats_nothing(shape1.2, shape2.2)
            &&& volume(shape) <= usize::MAX
        },
        None => true,
    }
}

/// Where an operand of the given extent is read for the index `i` of the
/// product: at `i` itself, held back to the operand's last index.
pub open spec fn source_index(i: int, extent: int) -> int {
    if i < extent {
        i
    } else {
        extent - 1
    }
}

/// The cell of `tensor` that the product reads at its index `(i, j, k)`.
pub open spec fn source_cell<T: Scalar>(tensor: Tensor3<T>, i: int, j: int, k: int) -> T {
    tensor.at(
        source_index(i, tensor.shape.0 as int),
        source_index(j, tensor.shape.1 as int),
        source_index(k, tensor.shape.2 as int),
    )
}

/// The cell at `(i, j, k)` of a product stored in `cells` is a product of the
/// cells that the two operands supply there.
pub open spec fn cell_multiplied<T: Scalar>(
    tensor1: Tensor3<T>,
    tensor2: Tensor3<T>,
    shape: (usize, usize, usize),
    cells: Seq<T>,
    i: int,
    j: int,
    k: int,
) -> bool {
    is_product(
        source_cell(tensor1, i, j, k),
        source_cell(tensor2, i, j, k),
        cells[offset3(shape, i, j, k)],
    )
}

/// `product` is an elementwise product of `tensor1` and `tensor2` under
/// broadcasting: it has their common shape, and each of its cells is a
/// product of the cells that the operands supply there.
pub open spec fn is_broadcast_product<T: Scalar>(
    tensor1: Tensor3<T>,
    tensor2: Tensor3<T>,
    product: Tensor3<T>,
) -> bool {
    &&& product.wf()
    &&& broadcast_shape(tensor1.shape, tensor2.shape) == Some(product.shape)
    &&& forall|i: int, j: int, k: int|
        0 <= i < product.shape.0 && 0 <= j < product.shape.1 && 0 <= k < product.shape.2
            ==> #[trigger] cell_multiplied(
            tensor1,
            tensor2,
            product.shape,
            product.data@,
            i,
            j,
            k,
        )
}

/// The shape of the product of operands of the given shapes, or the error
/// that names both.
pub fn product_shape(shape1: (usize, usize, usize), shape2: (usize, usize, usize)) -> (result:
    Result<(usize, usize, usize), MathError>)
    ensures
        match result {
            Ok(shape) => broadcast_shape(shape1, shape2) == Some(shape),
            Err(MathError::ShapeMismatchError(text)) => {
                &&& broadcast_shape(shape1, shape2) is None
                &&& text@ == mismatch_text(shape1, shape2)
            },
        },
{
    let e0 = axis_extent(shape1.0, shape2.0);
    let e1 = axis_extent(shape1.1, shape2.1);
    let e2 = axis_extent(shape1.2, shape2.2);
    match (e0, e1, e2) {
        (Some(n0), Some(n1), Some(n2)) => Ok((n0, n1, n2)),
        _ => Err(MathError::ShapeMismatchError(mismatch_message(shape1, shape2))),
    }
}

/// Whether a product of operands of these shapes can be formed and stored.
pub fn can_broadcast(shape1: (usize, usize, usize), shape2: (usize, usize, usize)) -> (r: bool)
    ensures
        r == broadcast_feasible(shape1, shape2),
{
    match product_shape(shape1, shape2) {
        Ok(shape) => {
            !repeats(shape1.0, shape2.0) && !repeats(shape1.1, shape2.1) && !repeats(
                shape1.2,
                shape2.2,
            ) && checked_volume(shape).is_some()
        },
        Err(_) => true,
    }
}

fn repeats(a: usize, b: usize) -> (r: bool)
    ensures
        r == repeats_nothing(a, b),
{
    (a == 0 && b == 1) || (a == 1 && b == 0)
}

fn axis_extent(a: usize, b: usize) -> (r: Option<usize>)
    ensures
        r == broadcast_extent(a, b),
{
    if a == b {
        Some(a)
    } else if a == 1 || b == 1 {
        Some(if a > b { a } else { b })
    } else {
        None
    }
}

fn held_back(i: usize, extent: usize) -> (r: usize)
    requires
        extent >= 1,
    ensures
        r == source_index(i as int, extent as int),
        r < extent,
{
    if i < extent {
        i
    } else {
        extent - 1
    }
}

/// The elementwise product of two tensors under broadcasting.
///
/// On each axis the operands must have the same extent, or one of them the
/// extent one; its cell is then repeated along that axis. Where they disagree
/// on an axis, the error names both shapes.
pub fn tensor3_broadcast_numpy_like<T: Scalar>(tensor1: &Tensor3<T>, tensor2: &Tensor3<T>) -> (result:
    Result<Tensor3<T>, MathError>)
    requires
        tensor1.wf(),
        tensor2.wf(),
        broadcast_feasible(tensor1.shape, tensor2.shape),
    ensures
        match result {
            Ok(product) => is_broadcast_product(*tensor1, *tensor2, product),
            Err(MathError::ShapeMismatchError(text)) => {
                &&& broadcast_shape(tensor1.shape, tensor2.shape) is None
                &&& text@ == mismatch_text(tensor1.shape, tensor2.shape)
            },
        },
        result is Ok <==> broadcast_shape(tensor1.shape, tensor2.shape) is Some,
{
    let shape1 = tensor1.dim();
    let shape2 = tensor2.dim();
    let shape = match product_shape(shape1, shape2) {
        Ok(shape) => shape,
        Err(error) => {
            return Err(error);
        },
    };
    let cell = |i: usize, j: usize, k: usize| -> (v: T)
        requires
            i < shape.0,
            j < shape.1,
            k < shape.2,
        ensures
            is_product(
                source_cell(*tensor1, i as int, j as int, k as int),
                source_cell(*tensor2, i as int, j as int, k as int),
                v,
            ),
        {
            let v1 = tensor1.get(
                held_back(i, shape1.0),
                held_back(j, shape1.1),
                held_back(k, shape1.2),
            );
            let v2 = tensor2.get(
                held_back(i, shape2.0),
                held_back(j, shape2.1),
                held_back(k, shape2.2),
            );
            v1.times(v2)
        };
    let product = Tensor3::from_shape_fn(shape, cell);
    assert forall|i: int, j: int, k: int|
        0 <= i < product.shape.0 && 0 <= j < product.shape.1 && 0 <= k
            < product.shape.2 implies #[trigger] cell_multiplied(
        *tensor1,
        *tensor2,
        product.shape,
        product.data@,
        i,
        j,
        k,
    ) by {
        assert(call_ensures(cell, (i as usize, j as usize, k as usize), product.at(i, j, k)));
    }
    Ok(product)
}

/// Whether two extents differ and neither of them is one.
pub open spec fn extents_clash(a: usize, b: usize) -> bool {
    a != b && a != 1 && b != 1
}

/// Two shapes have no product exactly when their extents clash on some
/// axis, whichever of the three it is and whatever the other two hold.
pub proof fn lemma_mismatch_on_any_axis(
    shape1: (usize, usize, usize),
    shape2: (usize, usize, usize),
)
    ensures
        broadcast_shape(shape1, shape2) is None <==> (extents_clash(shape1.0, shape2.0)
            || extents_clash(shape1.1, shape2.1) || extents_clash(shape1.2, shape2.2)),
        extents_clash(shape1.0, shape2.0) ==> broadcast_shape(shape1, shape2) is None,
        extents_clash(shape1.1, shape2.1) ==> broadcast_shape(shape1, shape2) is None,
        extents_clash(shape1.2, shape2.2) ==> broadcast_shape(shape1, shape2) is None,
{
}

/// An operand is read at the index of the product where it extends that far,
/// and at its only index, zero, on an axis along which it is repeated.
pub proof fn lemma_source_index(i: int, extent: int)
    requires
        0 <= i,
        1 <= extent,
    ensures
        i < extent ==> source_index(i, extent) == i,
        extent == 1 ==> source_index(i, extent) == 0,
        0 <= source_index(i, extent) < extent,
{
}

/// The shape of a product does not depend on the order of the operands.
pub proof fn lemma_broadcast_shape_commutes(
    shape1: (usize, usize, usize),
    shape2: (usize, usize, usize),
)
    ensures
        broadcast_shape(shape1, shape2) == broadcast_shape(shape2, shape1),
        broadcast_feasible(shape1, shape2) == broadcast_feasible(shape2, shape1),
{
}

/// Where the product of two numbers does not depend on their order, neither
/// does the product of two tensors: what is a product of `tensor1` and
/// `tensor2` is one of `tensor2` and `tensor1`.
pub proof fn lemma_broadcast_commutes<T: Scalar>(
    tensor1: Tensor3<T>,
    tensor2: Tensor3<T>,
    product: Tensor3<T>,
)
    requires
        forall|a: T, b: T, r: T| #[trigger] is_product(a, b, r) ==> is_product(b, a, r),
        is_broadcast_product(tensor1, tensor2, product),
    ensures
        is_broadcast_product(tensor2, tensor1, product),
{
    lemma_broadcast_shape_commutes(tensor1.shape, tensor2.shape);
    assert forall|i: int, j: int, k: int|
        0 <= i < product.shape.0 && 0 <= j < product.shape.1 && 0 <= k
            < product.shape.2 implies #[trigger] cell_multiplied(
        tensor2,
        tensor1,
        product.shape,
        product.data@,
        i,
        j,
        k,
    ) by {
        assert(cell_multiplied(tensor1, tensor2, product.shape, product.data@, i, j, k));
    }
}

/// Where a product of two numbers is one number, a product of two tensors is
/// one tensor: the contract of the engine leaves nothing open.
pub proof fn lemma_broadcast_product_unique<T: Scalar>(
    tensor1: Tensor3<T>,
    tensor2: Tensor3<T>,
    product: Tensor3<T>,
    other: Tensor3<T>,
)
    requires
        forall|a: T, b: T, r1: T, r2: T|
            #[trigger] is_product(a, b, r1) && #[trigger] is_product(a, b, r2) ==> r1 == r2,
        is_broadcast_product(tensor1, tensor2, product),
        is_broadcast_product(tensor1, tensor2, other),
    ensures
        other.shape == product.shape,
        other.data@ == product.data@,
{
    let shape = product.shape;
    assert forall|n: int| 0 <= n < product.data@.len() implies other.data@[n]
        == product.data@[n] by {
        lemma_offset3_onto(shape, n);
        let (i, j, k) = choose|i: int, j: int, k: int|
            0 <= i < shape.0 && 0 <= j < shape.1 && 0 <= k < shape.2 && #[trigger] offset3(
                shape,
                i,
                j,
                k,
            ) == n;
        assert(cell_multiplied(tensor1, tensor2, shape, product.data@, i, j, k));
        assert(cell_multiplied(tensor1, tensor2, shape, other.data@, i, j, k));
    }
    assert(other.data@ =~= product.data@);
}

/// Where a product of two numbers is one number and does not depend on their
/// order, the engine gives the same tensor for both orders of its operands.
pub proof fn lemma_broadcast_orders_agree<T: Scalar>(
    tensor1: Tensor3<T>,
    tensor2: Tensor3<T>,
    product: Tensor3<T>,
    swapped: Tensor3<T>,
)
    requires
        forall|a: T, b: T, r1: T, r2: T|
            #[trigger] is_product(a, b, r1) && #[trigger] is_product(a, b, r2) ==> r1 == r2,
        forall|a: T, b: T, r: T| #[trigger] is_product(a, b, r) ==> is_product(b, a, r),
        is_broadcast_product(tensor1, tensor2, product),
        is_broadcast_product(tensor2, tensor1, swapped),
    ensures
        swapped.shape == product.shape,
        swapped.data@ == product.data@,
{
    lemma_broadcast_commutes(tensor2, tensor1, swapped);
    lemma_broadcast_product_unique(tensor1, tensor2, product, swapped);
}

} // verus!
