//! What the graph needs of tensors, of operations and of losses. Tensor
//! arithmetic itself is supplied by the caller through these traits.
use vstd::prelude::*;

verus! {

/// The values that a sequence of references points to.
pub open spec fn derefs<T>(s: Seq<&T>) -> Seq<T> {
    s.map_values(|t: &T| *t)
}

/// A data-dependent failure reported by tensor arithmetic or an operation.
#[derive(Clone, Copy, Debug, PartialEq, Eq, Structural)]
pub enum TensorError {
    /// Two shapes that had to agree did not.
    ShapeMismatch,
    /// An index (an embedding row, an axis) lay outside its range.
    IndexOutOfRange,
    /// An operation was given inputs it cannot work on.
    InvalidInput,
}

/// Tensor values as the graph stores them. Each method is a pure function of
/// its arguments, success or failure included, named by the spec function
/// beside it. An implementation verified with Verus defines those spec
/// functions; their defaults leave the values unspecified, so that
/// implementations outside Verus still compile.
pub trait TensorOps: Sized {
    /// The scalar type that a mean reduces a tensor to.
    type Scalar;

    /// The extents of the axes.
    closed spec fn shape_spec(&self) -> Seq<usize> {
        arbitrary()
    }

    /// The number of axes.
    closed spec fn dim_spec(&self) -> nat {
        arbitrary()
    }

    /// The element-wise sum, or the error when the shapes do not allow it.
    closed spec fn add_spec(&self, other: &Self) -> Result<Self, TensorError> {
        arbitrary()
    }

    /// The tensor split into the slices that keep its trailing `keep` axes,
    /// all leading axes flattened into one.
    closed spec fn inners_spec(&self, keep: nat) -> Result<Vec<Self>, TensorError> {
        arbitrary()
    }

    /// A zero tensor of this tensor's shape.
    closed spec fn zeros_spec(&self) -> Self {
        arbitrary()
    }

    /// Every element divided by `count`.
    closed spec fn div_count_spec(&self, count: nat) -> Result<Self, TensorError> {
        arbitrary()
    }

    /// The number of elements.
    closed spec fn size_spec(&self) -> nat {
        arbitrary()
    }

    /// The mean of the elements.
    closed spec fn mean_spec(&self) -> Self::Scalar {
        arbitrary()
    }

    fn shape(&self) -> (r: Vec<usize>)
        ensures
            r@ == self.shape_spec(),
    ;

    fn dim(&self) -> (r: usize)
        ensures
            r == self.dim_spec(),
    ;

    fn add(&self, other: &Self) -> (r: Result<Self, TensorError>)
        ensures
            r == self.add_spec(other),
    ;

    fn inners_right(&self, keep: usize) -> (r: Result<Vec<Self>, TensorError>)
        ensures
            r == self.inners_spec(keep as nat),
    ;

    fn zeros_like(&self) -> (r: Self)
        ensures
            r == self.zeros_spec(),
    ;

    fn fill_zero(&mut self)
        ensures
            *final(self) == old(self).zeros_spec(),
    ;

    fn div_count(&self, count: usize) -> (r: Result<Self, TensorError>)
        ensures
            r == self.div_count_spec(count as nat),
    ;

    fn size(&self) -> (r: usize)
        ensures
            r == self.size_spec(),
    ;

    fn mean(&self) -> (r: Self::Scalar)
        ensures
            r == self.mean_spec(),
    ;
}

/// A differentiable operation. Operations hold no mutable state, so `run`
/// and `grad`, success or failure included, are functions of their
/// arguments, named by the spec functions (unspecified unless an
/// implementation defines them).
pub trait Function<T> {
    /// The forward value of the operation on `inps`.
    closed spec fn run_spec(&self, inps: Seq<T>, training: bool) -> Result<T, TensorError> {
        arbitrary()
    }

    /// One gradient per input, each shaped like its input or as a stack of
    /// such gradients.
    closed spec fn grad_spec(&self, inps: Seq<T>, out_grad: T) -> Result<Vec<T>, TensorError> {
        arbitrary()
    }

    fn run(&self, inps: &Vec<&T>, training: bool) -> (r: Result<T, TensorError>)
        ensures
            r == self.run_spec(derefs(inps@), training),
    ;

    fn grad(&self, inps: &Vec<&T>, out_grad: &T) -> (r: Result<Vec<T>, TensorError>)
        ensures
            r == self.grad_spec(derefs(inps@), *out_grad),
    ;
}

/// A loss: the per-element loss of an output tensor and its gradient, a
/// function of the output named by `loss_spec` (unspecified unless an
/// implementation defines it).
pub trait Loss<T> {
    closed spec fn loss_spec(&self, output: T) -> Result<(T, T), TensorError> {
        arbitrary()
    }

    fn run(&self, output: &T) -> (r: Result<(T, T), TensorError>)
        ensures
            r == self.loss_spec(*output),
    ;
}

/// Updates parameter tensors in place from their gradients. What a step
/// returns and leaves in the parameters is named by `step_spec`, over the
/// optimizer's state before the step (unspecified unless an implementation
/// defines it).
pub trait Optimizer<T> {
    /// The learning rate's type.
    type Rate;

    closed spec fn step_spec(&self, params: Seq<T>, grads: Seq<T>, learning_rate: Self::Rate) -> (
        Result<(), TensorError>,
        Seq<T>,
    ) {
        arbitrary()
    }

    /// Steps `params` by `grads`, the gradient of each in the same order.
    fn step(&mut self, params: &mut Vec<T>, grads: &Vec<&T>, learning_rate: Self::Rate) -> (r:
        Result<(), TensorError>)
        requires
            old(params)@.len() == grads@.len(),
        ensures
            (r, final(params)@) == old(self).step_spec(old(params)@, derefs(grads@), learning_rate),
            final(params)@.len() == old(params)@.len(),
    ;
}

/// Gathers rows of an embedding table by the indices that this value holds,
/// a function of the table named by `lookup_spec` (unspecified unless an
/// implementation defines it).
pub trait Lookup<T> {
    closed spec fn lookup_spec(&self, table: T) -> Result<T, TensorError> {
        arbitrary()
    }

    fn lookup(&self, table: &T) -> (r: Result<T, TensorError>)
        ensures
            r == self.lookup_spec(*table),
    ;
}

} // verus!
