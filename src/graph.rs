//! The computation graph: tensor store, recorded computations, replay and
//! reverse-mode gradient accumulation.
use vstd::prelude::*;
use crate::tensor::{derefs, Function, Lookup, Loss, Optimizer, TensorError, TensorOps};
use std::collections::HashSet;

verus! {

/// A stable handle of a tensor in a graph: its allocation index.
pub type TensorId = usize;

/// One recorded operation: its output handle, its input handles and the
/// operation itself.
#[derive(Clone)]
struct Computation<F> {
    out: TensorId,
    inps: Vec<TensorId>,
    func: F,
}

/// A tensor store together with the computations recorded on it, kept in
/// ascending order of their output handles.
#[derive(Clone)]
pub struct Graph<T, F> {
    tensors: Vec<T>,
    grads: Vec<T>,
    names: Vec<String>,
    computations: Vec<Computation<F>>,
}

/// The outcome of one direct addition into `acc`: the accumulator is left
/// as it was when the addition fails.
pub open spec fn add_step<T: TensorOps>(acc: T, t: T) -> (Result<(), TensorError>, T) {
    match acc.add_spec(&t) {
        Ok(b) => (Ok(()), b),
        Err(e) => (Err(e), acc),
    }
}

/// One more direct addition after the outcome `p`, unless `p` failed.
pub open spec fn after_step<T: TensorOps>(p: (Result<(), TensorError>, T), t: T) -> (Result<(), TensorError>, T) {
    if p.0 is Err {
        p
    } else {
        add_step(p.1, t)
    }
}

/// Folds `slices` into `acc` by direct additions, first slice first,
/// stopping at the first failure.
pub open spec fn accumulate<T: TensorOps>(acc: T, slices: Seq<T>) -> (Result<(), TensorError>, T)
    decreases slices.len(),
{
    if slices.len() == 0 {
        (Ok(()), acc)
    } else {
        after_step(accumulate(acc, slices.drop_last()), slices.last())
    }
}

/// The outcome, and the accumulator left, when `add` is added to the
/// gradient accumulator `acc` of a tensor with `dims` axes: a stack of
/// gradients is summed slice by slice, anything shorter is added directly.
pub open spec fn added_grad<T: TensorOps>(acc: T, add: T, dims: nat) -> (Result<(), TensorError>, T) {
    if add.dim_spec() >= dims {
        match add.inners_spec(dims) {
            Ok(v) => accumulate(acc, v@),
            Err(e) => (Err(e), acc),
        }
    } else {
        add_step(acc, add)
    }
}

/// The values of the tensors that `ids` name.
pub open spec fn pick<T>(vals: Seq<T>, ids: Seq<usize>) -> Seq<T> {
    ids.map_values(|j: usize| vals[j as int])
}

/// The outcome, and the values left, after the first `k` recorded
/// computations are evaluated in order, stopping at the first failure.
pub open spec fn replay_prefix<T, F: Function<T>>(
    vals: Seq<T>,
    outs: Seq<usize>,
    inps: Seq<Seq<usize>>,
    funcs: Seq<F>,
    training: bool,
    k: nat,
) -> (Result<(), TensorError>, Seq<T>)
    decreases k,
{
    if k == 0 {
        (Ok(()), vals)
    } else {
        let p = replay_prefix(vals, outs, inps, funcs, training, (k - 1) as nat);
        if p.0 is Err {
            p
        } else {
            match funcs[k - 1].run_spec(pick(p.1, inps[k - 1]), training) {
                Ok(t) => (Ok(()), p.1.update(outs[k - 1] as int, t)),
                Err(e) => (Err(e), p.1),
            }
        }
    }
}

/// The indices of the computations that a backward pass over `count`
/// records visits, newest first, at most `limit` of them.
pub open spec fn backward_visits(count: nat, limit: Option<usize>) -> Seq<int> {
    let m = match limit {
        Some(l) => if (l as nat) < count {
            l as nat
        } else {
            count
        },
        None => count,
    };
    Seq::new(m, |i: int| count - 1 - i)
}

/// The smaller of two counts: how many (input, gradient) pairs there are.
pub open spec fn paired(a: nat, b: nat) -> nat {
    if a < b {
        a
    } else {
        b
    }
}

/// The outcome, and the gradients left, after the first `j` gradients of
/// `gs` are added, pairwise, to the handles in `ids`, stopping at the first
/// failure; `vals` gives each tensor's axes.
pub open spec fn add_input_grads<T: TensorOps>(
    vals: Seq<T>,
    grads: Seq<T>,
    ids: Seq<usize>,
    gs: Seq<T>,
    j: nat,
) -> (Result<(), TensorError>, Seq<T>)
    decreases j,
{
    if j == 0 {
        (Ok(()), grads)
    } else {
        let p = add_input_grads(vals, grads, ids, gs, (j - 1) as nat);
        if p.0 is Err {
            p
        } else {
            let h = ids[j - 1] as int;
            let s = added_grad(p.1[h], gs[j - 1], vals[h].dim_spec());
            (s.0, p.1.update(h, s.1))
        }
    }
}

/// The outcome, and the gradients left, after the first `i` computations of
/// `visits` have each turned the gradient accumulated on their output into
/// gradients of their inputs, stopping at the first failure.
pub open spec fn backprop<T: TensorOps, F: Function<T>>(
    vals: Seq<T>,
    grads: Seq<T>,
    outs: Seq<usize>,
    inps: Seq<Seq<usize>>,
    funcs: Seq<F>,
    visits: Seq<int>,
    i: nat,
) -> (Result<(), TensorError>, Seq<T>)
    decreases i,
{
    if i == 0 {
        (Ok(()), grads)
    } else {
        let p = backprop(vals, grads, outs, inps, funcs, visits, (i - 1) as nat);
        if p.0 is Err {
            p
        } else {
            let k = visits[i - 1];
            match funcs[k].grad_spec(pick(vals, inps[k]), p.1[outs[k] as int]) {
                Ok(gs) => add_input_grads(vals, p.1, inps[k], gs@, paired(inps[k].len(), gs@.len())),
                Err(e) => (Err(e), p.1),
            }
        }
    }
}

/// A pass's outcome with the value `v` returned on success.
pub open spec fn finish<S, T>(b: (Result<(), TensorError>, Seq<T>), v: S) -> (Result<S, TensorError>, Seq<T>) {
    if b.0 is Err {
        (Err(b.0->Err_0), b.1)
    } else {
        (Ok(v), b.1)
    }
}

/// The handles below `n` that `params` holds, in ascending order.
pub open spec fn selected(params: Set<usize>, n: nat) -> Seq<usize>
    decreases n,
{
    if n == 0 {
        Seq::empty()
    } else if params.contains((n - 1) as usize) {
        selected(params, (n - 1) as nat).push((n - 1) as usize)
    } else {
        selected(params, (n - 1) as nat)
    }
}

impl<T: TensorOps, F: Function<T>> Graph<T, F> {
    /// The tensor values, by handle.
    pub closed spec fn values(&self) -> Seq<T> {
        self.tensors@
    }

    /// The gradient accumulators, by handle.
    pub closed spec fn grad_values(&self) -> Seq<T> {
        self.grads@
    }

    /// The tensor names, by handle.
    pub closed spec fn labels(&self) -> Seq<Seq<char>> {
        self.names@.map_values(|s: String| s@)
    }

    /// The output handle of each recorded computation, in recording order.
    pub closed spec fn outputs(&self) -> Seq<usize> {
        self.computations@.map_values(|c: Computation<F>| c.out)
    }

    /// The input handles of each recorded computation.
    pub closed spec fn inputs(&self) -> Seq<Seq<usize>> {
        self.computations@.map_values(|c: Computation<F>| c.inps@)
    }

    /// The operation of each recorded computation.
    pub closed spec fn operations(&self) -> Seq<F> {
        self.computations@.map_values(|c: Computation<F>| c.func)
    }

    /// The store's three tables have one entry per handle; each computation
    /// writes an allocated handle, after every handle it reads, and handles
    /// are recorded in ascending order.
    pub closed spec fn wf(&self) -> bool {
        &&& self.grads@.len() == self.tensors@.len()
        &&& self.names@.len() == self.tensors@.len()
        &&& forall|i: int|
            0 <= i < self.computations@.len() ==> #[trigger] self.computations@[i].out
                < self.tensors@.len()
        &&& forall|i: int, j: int|
            0 <= i < self.computations@.len() && 0 <= j < self.computations@[i].inps@.len()
                ==> #[trigger] self.computations@[i].inps@[j] < self.computations@[i].out
        &&& forall|i: int, k: int|
            0 <= i < k < self.computations@.len() ==> #[trigger] self.computations@[i].out
                < #[trigger] self.computations@[k].out
    }

    /// The tensor values after every recorded computation is evaluated again
    /// in ascending handle order.
    pub open spec fn replayed(&self, training: bool) -> (Result<(), TensorError>, Seq<T>) {
        replay_prefix(
            self.values(),
            self.outputs(),
            self.inputs(),
            self.operations(),
            training,
            self.outputs().len(),
        )
    }

    /// The outcome, and the gradients left, when a backward pass starts from
    /// the gradients `grads` and visits the computations that `limit` allows,
    /// newest first.
    pub open spec fn backprop_from(&self, grads: Seq<T>, limit: Option<usize>) -> (
        Result<(), TensorError>,
        Seq<T>,
    ) {
        let visits = backward_visits(self.outputs().len(), limit);
        backprop(
            self.values(),
            grads,
            self.outputs(),
            self.inputs(),
            self.operations(),
            visits,
            visits.len(),
        )
    }

    /// What `backward_all(id, loss_fn, limit)` returns and the gradients it
    /// leaves: a loss or seed failure touches nothing; otherwise the output's
    /// gradient is seeded with the mean-reduced loss gradient and the visited
    /// computations pass gradients back until the first failure.
    pub open spec fn backward_outcome<L: Loss<T>>(&self, id: TensorId, loss_fn: L, limit: Option<usize>) -> (
        Result<T::Scalar, TensorError>,
        Seq<T>,
    ) {
        match loss_fn.loss_spec(self.values()[id as int]) {
            Err(e) => (Err(e), self.grad_values()),
            Ok(lg) => match lg.1.div_count_spec(lg.0.size_spec()) {
                Err(e) => (Err(e), self.grad_values()),
                Ok(seed) => {
                    let s = added_grad(
                        self.grad_values()[id as int],
                        seed,
                        self.values()[id as int].dim_spec(),
                    );
                    let seeded = self.grad_values().update(id as int, s.1);
                    if s.0 is Err {
                        (Err(s.0->Err_0), seeded)
                    } else {
                        finish(self.backprop_from(seeded, limit), lg.0.mean_spec())
                    }
                },
            },
        }
    }

    /// What `opt` is asked to do by `optimize`: step the tensors whose
    /// handles `params` holds, in ascending handle order, with their
    /// gradients in the same order.
    pub open spec fn optimizer_step<O: Optimizer<T>>(&self, opt: O, params: Set<usize>, rate: O::Rate) -> (
        Result<(), TensorError>,
        Seq<T>,
    ) {
        let sel = selected(params, self.values().len());
        opt.step_spec(pick(self.values(), sel), pick(self.grad_values(), sel), rate)
    }

    /// Whether a backward pass with `limit` hands a gradient to handle `h`
    /// through one of the computations it visits.
    pub open spec fn backward_reaches(&self, limit: Option<usize>, h: usize) -> bool {
        exists|i: int|
            0 <= i < backward_visits(self.outputs().len(), limit).len()
                && #[trigger] self.inputs()[backward_visits(
                self.outputs().len(),
                limit,
            )[i]].contains(h)
    }

    proof fn lemma_wf_views(&self)
        requires
            self.wf(),
        ensures
            self.grad_values().len() == self.values().len(),
            self.labels().len() == self.values().len(),
            self.inputs().len() == self.outputs().len(),
            self.operations().len() == self.outputs().len(),
            forall|i: int| 0 <= i < self.outputs().len() ==> #[trigger] self.outputs()[i] < self.values().len(),
            forall|i: int, j: int|
                0 <= i < self.outputs().len() && 0 <= j < self.inputs()[i].len()
                    ==> #[trigger] self.inputs()[i][j] < self.outputs()[i],
    {
    }

    pub fn new() -> (r: Self)
        ensures
            r.wf(),
            r.values().len() == 0,
            r.grad_values().len() == 0,
            r.labels().len() == 0,
            r.outputs().len() == 0,
    {
        let r = Graph {
            tensors: Vec::new(),
            grads: Vec::new(),
            names: Vec::new(),
            computations: Vec::new(),
        };
        proof {
            assert(r.outputs() =~= Seq::<usize>::empty());
            assert(r.labels() =~= Seq::<Seq<char>>::empty());
        }
        r
    }

    /// Adds a tensor with a zero gradient and returns its handle, which is
    /// the number of tensors allocated before it.
    pub fn allocate(&mut self, t: T, name: String) -> (r: TensorId)
        requires
            old(self).wf(),
            old(self).values().len() < usize::MAX,
        ensures
            final(self).wf(),
            r == old(self).values().len(),
            final(self).values() == old(self).values().push(t),
            final(self).grad_values() == old(self).grad_values().push(t.zeros_spec()),
            final(self).labels() == old(self).labels().push(name@),
            final(self).outputs() == old(self).outputs(),
            final(self).inputs() == old(self).inputs(),
            final(self).operations() == old(self).operations(),
    {
        let z = t.zeros_like();
        self.grads.push(z);
        self.tensors.push(t);
        self.names.push(name);
        proof {
            assert(self.labels() =~= old(self).labels().push(name@));
            assert(self.outputs() =~= old(self).outputs());
            assert(self.inputs() =~= old(self).inputs());
            assert(self.operations() =~= old(self).operations());
        }
        self.tensors.len() - 1
    }

    fn gather<'a>(tensors: &'a Vec<T>, ids: &Vec<TensorId>) -> (r: Vec<&'a T>)
        requires
            forall|j: int| 0 <= j < ids@.len() ==> #[trigger] ids@[j] < tensors@.len(),
        ensures
            derefs(r@) == pick(tensors@, ids@),
    {
        let mut r: Vec<&'a T> = Vec::new();
        let mut i: usize = 0;
        while i < ids.len()
            invariant
                i <= ids@.len(),
                r@.len() == i,
                forall|j: int| 0 <= j < ids@.len() ==> #[trigger] ids@[j] < tensors@.len(),
                derefs(r@) =~= pick(tensors@, ids@.take(i as int)),
            decreases ids@.len() - i,
        {
            let ghost prev = r@;
            let e = &tensors[ids[i]];
            r.push(e);
            proof {
                assert(ids@.take(i + 1) =~= ids@.take(i as int).push(ids@[i as int]));
                assert(derefs(prev) =~= pick(tensors@, ids@.take(i as int)));
                assert(r@.len() == prev.len() + 1);
                assert(forall|j: int| 0 <= j < prev.len() ==> r@[j] == prev[j]);
                assert(r@[i as int] == e);
                assert forall|j: int| 0 <= j < i + 1 implies #[trigger] derefs(r@)[j]
                    == pick(tensors@, ids@.take(i + 1))[j] by {
                    if j < i {
                        assert(derefs(prev)[j] == pick(tensors@, ids@.take(i as int))[j]);
                    }
                }
                assert(derefs(r@) =~= pick(tensors@, ids@.take(i + 1)));
            }
            i = i + 1;
        }
        proof {
            assert(ids@.take(i as int) =~= ids@);
        }
        r
    }

    /// Adds `add` to the gradient of `id`. A gradient with at least as many
    /// axes as the tensor is a stack of per-instance gradients, whose slices
    /// are summed into the accumulator one after another; the first failing
    /// addition ends the call with its error, the earlier ones kept.
    pub fn add_grad(&mut self, id: TensorId, add: T) -> (r: Result<(), TensorError>)
        requires
            old(self).wf(),
            id < old(self).values().len(),
        ensures
            final(self).wf(),
            final(self).values() == old(self).values(),
            final(self).labels() == old(self).labels(),
            final(self).outputs() == old(self).outputs(),
            final(self).inputs() == old(self).inputs(),
            final(self).operations() == old(self).operations(),
            final(self).grad_values().len() == old(self).grad_values().len(),
            forall|h: int|
                0 <= h < old(self).grad_values().len() && h != id ==> #[trigger] final(self).grad_values()[h]
                    == old(self).grad_values()[h],
            (r, final(self).grad_values()[id as int]) == added_grad(
                old(self).grad_values()[id as int],
                add,
                old(self).values()[id as int].dim_spec(),
            ),
    {
        let dims = self.tensors[id].dim();
        if add.dim() >= dims {
            let slices = match add.inners_right(dims) {
                Ok(s) => s,
                Err(e) => return Err(e),
            };
            let ghost acc0 = old(self).grads@[id as int];
            let mut i: usize = 0;
            while i < slices.len()
                invariant
                    self.wf(),
                    id < self.tensors@.len(),
                    i <= slices@.len(),
                    add.inners_spec(dims as nat) == Ok::<Vec<T>, TensorError>(slices),
                    dims == old(self).tensors@[id as int].dim_spec(),
                    add.dim_spec() >= dims,
                    acc0 == old(self).grads@[id as int],
                    self.tensors@ == old(self).tensors@,
                    self.names@ == old(self).names@,
                    self.computations@ == old(self).computations@,
                    self.grads@.len() == old(self).grads@.len(),
                    forall|h: int|
                        0 <= h < self.grads@.len() && h != id ==> #[trigger] self.grads@[h]
                            == old(self).grads@[h],
                    accumulate(acc0, slices@.take(i as int)) == (Ok::<(), TensorError>(()), self.grads@[id as int]),
                decreases slices@.len() - i,
            {
                proof {
                    assert(slices@.take(i + 1).drop_last() =~= slices@.take(i as int));
                    assert(slices@.take(i + 1).last() == slices@[i as int]);
                }
                let sum = match self.grads[id].add(&slices[i]) {
                    Ok(s) => s,
                    Err(e) => {
                        proof {
                            assert(accumulate(acc0, slices@.take(i + 1)) == (
                                Err::<(), TensorError>(e),
                                self.grads@[id as int],
                            ));
                            lemma_accumulate_stays_failed(acc0, slices@, (i + 1) as nat);
                            assert(slices@ == add.inners_spec(dims as nat)->Ok_0@);
                        }
                        return Err(e);
                    },
                };
                self.grads.set(id, sum);
                i = i + 1;
            }
            proof {
                assert(slices@.take(i as int) =~= slices@);
            }
        } else {
            let sum = match self.grads[id].add(&add) {
                Ok(s) => s,
                Err(e) => return Err(e),
            };
            self.grads.set(id, sum);
        }
        Ok(())
    }

    /// Evaluates `f` on the tensors `tensor_ids` name, stores the result as a
    /// new tensor and records the computation under the new handle. An error
    /// of `f` is returned as it is, with nothing allocated or recorded.
    pub fn call(&mut self, f: F, tensor_ids: &[TensorId]) -> (r: Result<TensorId, TensorError>)
        requires
            old(self).wf(),
            old(self).values().len() < usize::MAX,
            forall|j: int|
                0 <= j < tensor_ids@.len() ==> #[trigger] tensor_ids@[j] < old(self).values().len(),
        ensures
            final(self).wf(),
            f.run_spec(pick(old(self).values(), tensor_ids@), false) is Err ==> {
                &&& r == Err::<TensorId, TensorError>(
                    f.run_spec(pick(old(self).values(), tensor_ids@), false)->Err_0,
                )
                &&& *final(self) == *old(self)
            },
            f.run_spec(pick(old(self).values(), tensor_ids@), false) is Ok ==> {
                let t = f.run_spec(pick(old(self).values(), tensor_ids@), false)->Ok_0;
                &&& r == Ok::<TensorId, TensorError>(old(self).values().len() as TensorId)
                &&& final(self).values() == old(self).values().push(t)
                &&& final(self).grad_values() == old(self).grad_values().push(t.zeros_spec())
                &&& final(self).labels() == old(self).labels().push(Seq::empty())
                &&& final(self).outputs() == old(self).outputs().push(r->Ok_0)
                &&& final(self).inputs() == old(self).inputs().push(tensor_ids@)
                &&& final(self).operations() == old(self).operations().push(f)
            },
    {
        let mut ids: Vec<TensorId> = Vec::new();
        let mut i: usize = 0;
        while i < tensor_ids.len()
            invariant
                i <= tensor_ids@.len(),
                ids@ == tensor_ids@.take(i as int),
            decreases tensor_ids@.len() - i,
        {
            ids.push(tensor_ids[i]);
            i = i + 1;
            proof {
                assert(ids@ =~= tensor_ids@.take(i as int));
            }
        }
        proof {
            assert(tensor_ids@.take(i as int) =~= tensor_ids@);
        }
        let out = {
            let tensors = Self::gather(&self.tensors, &ids);
            match f.run(&tensors, false) {
                Ok(t) => t,
                Err(e) => return Err(e),
            }
        };
        let child = self.allocate(out, String::new());
        proof {
            old(self).lemma_wf_views();
            assert forall|k: int| 0 <= k < self.computations@.len() implies #[trigger] self.computations@[k].out
                < child by {
                assert(self.computations@[k].out == self.outputs()[k]);
                assert(old(self).outputs()[k] < old(self).values().len());
            }
        }
        self.computations.push(Computation { out: child, inps: ids, func: f });
        proof {
            assert(self.outputs() =~= old(self).outputs().push(child));
            assert(self.inputs() =~= old(self).inputs().push(tensor_ids@));
            assert(self.operations() =~= old(self).operations().push(f));
        }
        Ok(child)
    }

    /// Evaluates every recorded computation again, in ascending handle order,
    /// from the current values of its inputs. The first failing computation
    /// ends the call with its error; those before it keep their new values.
    pub fn forward(&mut self, training: bool) -> (r: Result<(), TensorError>)
        requires
            old(self).wf(),
        ensures
            final(self).wf(),
            final(self).grad_values() == old(self).grad_values(),
            final(self).labels() == old(self).labels(),
            final(self).outputs() == old(self).outputs(),
            final(self).inputs() == old(self).inputs(),
            final(self).operations() == old(self).operations(),
            final(self).values().len() == old(self).values().len(),
            (r, final(self).values()) == old(self).replayed(training),
    {
        let ghost outs = self.outputs();
        let ghost inps = self.inputs();
        let ghost funcs = self.operations();
        proof {
            self.lemma_wf_views();
        }
        let mut k: usize = 0;
        while k < self.computations.len()
            invariant
                self.wf(),
                k <= self.computations@.len(),
                self.grads@ == old(self).grads@,
                self.names@ == old(self).names@,
                self.computations@ == old(self).computations@,
                outs == self.outputs(),
                inps == self.inputs(),
                funcs == self.operations(),
                outs == old(self).outputs(),
                inps == old(self).inputs(),
                funcs == old(self).operations(),
                self.tensors@.len() == old(self).tensors@.len(),
                replay_prefix(old(self).tensors@, outs, inps, funcs, training, k as nat) == (
                    Ok::<(), TensorError>(()),
                    self.tensors@,
                ),
            decreases self.computations@.len() - k,
        {
            proof {
                self.lemma_wf_views();
                assert(outs[k as int] == self.computations@[k as int].out);
                assert(inps[k as int] == self.computations@[k as int].inps@);
                assert(funcs[k as int] == self.computations@[k as int].func);
            }
            let out = self.computations[k].out;
            let result = {
                let c = &self.computations[k];
                proof {
                    assert forall|j: int| 0 <= j < c.inps@.len() implies #[trigger] c.inps@[j]
                        < self.tensors@.len() by {
                        assert(c.inps@[j] < c.out);
                    }
                }
                let tensors = Self::gather(&self.tensors, &c.inps);
                match c.func.run(&tensors, training) {
                    Ok(t) => t,
                    Err(e) => {
                        proof {
                            lemma_replay_stays_failed(
                                old(self).tensors@,
                                outs,
                                inps,
                                funcs,
                                training,
                                (k + 1) as nat,
                                outs.len(),
                            );
                        }
                        return Err(e);
                    },
                }
            };
            self.tensors.set(out, result);
            k = k + 1;
        }
        Ok(())
    }

    /// Whether one of the first `n` computations that a backward pass with
    /// `limit` visits reads handle `h`.
    pub open spec fn reached_within(&self, limit: Option<usize>, n: int, h: usize) -> bool {
        exists|i: int|
            0 <= i < n && i < backward_visits(self.outputs().len(), limit).len()
                && #[trigger] self.inputs()[backward_visits(
                self.outputs().len(),
                limit,
            )[i]].contains(h)
    }

    /// Seeds the gradient of `id` with the mean-reduced gradient of `loss_fn`
    /// on it, then walks the recorded computations from the newest down (at
    /// most `limit` of them), adding each one's input gradients to its
    /// inputs. Returns the mean loss. The first error, of the loss, of the
    /// seed or of a step, is returned as it is; gradients already added stay.
    pub fn backward_all<L: Loss<T>>(&mut self, id: TensorId, loss_fn: L, limit: Option<usize>) -> (r:
        Result<T::Scalar, TensorError>)
        requires
            old(self).wf(),
            id < old(self).values().len(),
        ensures
            final(self).wf(),
            final(self).values() == old(self).values(),
            final(self).labels() == old(self).labels(),
            final(self).outputs() == old(self).outputs(),
            final(self).inputs() == old(self).inputs(),
            final(self).operations() == old(self).operations(),
            final(self).grad_values().len() == old(self).grad_values().len(),
            forall|h: usize|
                h < old(self).grad_values().len() && h != id && !old(self).backward_reaches(
                    limit,
                    h,
                ) ==> #[trigger] final(self).grad_values()[h as int] == old(self).grad_values()[h as int],
            (r, final(self).grad_values()) == old(self).backward_outcome(id, loss_fn, limit),
    {
        let (loss, grad) = match loss_fn.run(&self.tensors[id]) {
            Ok(p) => p,
            Err(e) => return Err(e),
        };
        let seed = match grad.div_count(loss.size()) {
            Ok(s) => s,
            Err(e) => return Err(e),
        };
        let ghost g0 = self.grads@;
        let ghost s0 = added_grad(g0[id as int], seed, self.tensors@[id as int].dim_spec());
        let seeded_res = self.add_grad(id, seed);
        let ghost seeded = self.grads@;
        proof {
            assert(seeded =~= g0.update(id as int, s0.1));
        }
        match seeded_res {
            Ok(()) => {},
            Err(e) => return Err(e),
        }
        let count = self.computations.len();
        let m = match limit {
            Some(l) => if l < count {
                l
            } else {
                count
            },
            None => count,
        };
        let ghost visits = backward_visits(count as nat, limit);
        let ghost vals = old(self).values();
        let ghost outs = old(self).outputs();
        let ghost inps = old(self).inputs();
        let ghost funcs = old(self).operations();
        proof {
            assert(old(self).backprop_from(seeded, limit) == backprop(
                vals,
                seeded,
                outs,
                inps,
                funcs,
                visits,
                visits.len(),
            ));
            assert(old(self).backward_outcome(id, loss_fn, limit) == finish(
                old(self).backprop_from(seeded, limit),
                loss.mean_spec(),
            ));
        }
        proof {
            old(self).lemma_wf_views();
            assert(visits.len() == m);
        }
        let mut i: usize = 0;
        while i < m
            invariant
                self.wf(),
                m == visits.len(),
                m <= count,
                count == self.computations@.len(),
                count == old(self).outputs().len(),
                visits == backward_visits(count as nat, limit),
                i <= m,
                id < self.tensors@.len(),
                self.tensors@ == old(self).tensors@,
                self.values() == old(self).values(),
                self.labels() == old(self).labels(),
                self.outputs() == old(self).outputs(),
                self.inputs() == old(self).inputs(),
                self.operations() == old(self).operations(),
                self.grad_values().len() == old(self).grad_values().len(),
                forall|h: usize|
                    h < old(self).grad_values().len() && h != id && !old(self).reached_within(
                        limit,
                        i as int,
                        h,
                    ) ==> #[trigger] self.grad_values()[h as int] == old(self).grad_values()[h as int],
                backprop(vals, seeded, outs, inps, funcs, visits, i as nat) == (
                    Ok::<(), TensorError>(()),
                    self.grads@,
                ),
                old(self).backprop_from(seeded, limit) == backprop(
                    vals,
                    seeded,
                    outs,
                    inps,
                    funcs,
                    visits,
                    visits.len(),
                ),
                old(self).backward_outcome(id, loss_fn, limit) == finish(
                    old(self).backprop_from(seeded, limit),
                    loss.mean_spec(),
                ),
                vals == old(self).values(),
                outs == old(self).outputs(),
                inps == old(self).inputs(),
                funcs == old(self).operations(),
            decreases m - i,
        {
            let k: usize = count - 1 - i;
            proof {
                self.lemma_wf_views();
                assert(visits[i as int] == k);
                assert(self.computations@[k as int].inps@ == self.inputs()[k as int]);
                assert(self.computations@[k as int].out == self.outputs()[k as int]);
                assert(self.computations@[k as int].func == self.operations()[k as int]);
            }
            let out = self.computations[k].out;
            let mut grads_in = {
                let c = &self.computations[k];
                proof {
                    assert forall|j: int| 0 <= j < c.inps@.len() implies #[trigger] c.inps@[j]
                        < self.tensors@.len() by {
                        assert(c.inps@[j] < c.out);
                    }
                }
                let tensors = Self::gather(&self.tensors, &c.inps);
                match c.func.grad(&tensors, &self.grads[out]) {
                    Ok(g) => g,
                    Err(e) => {
                        proof {
                            assert(derefs(tensors@) == pick(vals, inps[k as int]));
                            assert(backprop(vals, seeded, outs, inps, funcs, visits, (i + 1) as nat) == (
                                Err::<(), TensorError>(e),
                                self.grads@,
                            ));
                            lemma_backprop_stays_failed(
                                vals,
                                seeded,
                                outs,
                                inps,
                                funcs,
                                visits,
                                (i + 1) as nat,
                                m as nat,
                            );
                        }
                        return Err(e);
                    },
                }
            };
            let ghost g_i = self.grads@;
            let ghost gs_vec = grads_in;
            let ghost gs = grads_in@;
            proof {
                assert(funcs[k as int].grad_spec(pick(vals, inps[k as int]), g_i[outs[k as int] as int])
                    == Ok::<Vec<T>, TensorError>(gs_vec));
            }
            let n_inps = self.computations[k].inps.len();
            let mut j: usize = 0;
            while j < n_inps && grads_in.len() > 0
                invariant
                    self.wf(),
                    k < count,
                    k == visits[i as int],
                    i < m,
                    m == visits.len(),
                    count == self.computations@.len(),
                    count == old(self).outputs().len(),
                    visits == backward_visits(count as nat, limit),
                    n_inps == old(self).inputs()[k as int].len(),
                    j <= n_inps,
                    id < self.tensors@.len(),
                    self.tensors@ == old(self).tensors@,
                    self.values() == old(self).values(),
                    self.labels() == old(self).labels(),
                    self.outputs() == old(self).outputs(),
                    self.inputs() == old(self).inputs(),
                    self.operations() == old(self).operations(),
                    self.grad_values().len() == old(self).grad_values().len(),
                    forall|h: usize|
                        h < old(self).grad_values().len() && h != id && !old(self).reached_within(
                            limit,
                            i + 1,
                            h,
                        ) ==> #[trigger] self.grad_values()[h as int] == old(self).grad_values()[h as int],
                    backprop(vals, seeded, outs, inps, funcs, visits, i as nat) == (
                        Ok::<(), TensorError>(()),
                        g_i,
                    ),
                    old(self).backprop_from(seeded, limit) == backprop(
                        vals,
                        seeded,
                        outs,
                        inps,
                        funcs,
                        visits,
                        m as nat,
                    ),
                    gs == gs_vec@,
                    old(self).backward_outcome(id, loss_fn, limit) == finish(
                        old(self).backprop_from(seeded, limit),
                        loss.mean_spec(),
                    ),

                    funcs[k as int].grad_spec(pick(vals, inps[k as int]), g_i[outs[k as int] as int])
                        == Ok::<Vec<T>, TensorError>(gs_vec),
                    j <= gs.len(),
                    k < outs.len(),
                    outs[k as int] < vals.len(),
                    g_i.len() == vals.len(),
                    vals == self.tensors@,
                    grads_in@ == gs.skip(j as int),
                    vals == old(self).values(),
                    outs == old(self).outputs(),
                    inps == old(self).inputs(),
                    funcs == old(self).operations(),

                    add_input_grads(vals, g_i, inps[k as int], gs, j as nat) == (
                        Ok::<(), TensorError>(()),
                        self.grads@,
                    ),
                decreases n_inps - j,
            {
                proof {
                    self.lemma_wf_views();
                    assert(self.computations@[k as int].inps@ == self.inputs()[k as int]);
                }
                let h = self.computations[k].inps[j];
                proof {
                    assert(old(self).inputs()[visits[i as int]].contains(h)) by {
                        assert(old(self).inputs()[k as int][j as int] == h);
                    }
                    assert(old(self).reached_within(limit, i + 1, h));
                    assert(h < self.tensors@.len()) by {
                        assert(self.inputs()[k as int][j as int] < self.outputs()[k as int]);
                    }
                }
                proof {
                    assert(grads_in@.len() > 0);
                    assert(j < gs.len());
                }
                let g = grads_in.remove(0);
                let ghost before = self.grads@;
                proof {
                    assert(h == inps[k as int][j as int]);
                    assert(g == gs[j as int]);
                }
                let ghost s = added_grad(before[h as int], g, vals[h as int].dim_spec());
                let res = self.add_grad(h, g);
                proof {
                    assert(self.grads@ =~= before.update(h as int, s.1));
                    assert(add_input_grads(vals, g_i, inps[k as int], gs, (j + 1) as nat) == (
                        res,
                        self.grads@,
                    ));
                }
                proof {
                    assert forall|h2: usize|
                        h2 < old(self).grad_values().len() && h2 != id && !old(self).reached_within(
                            limit,
                            i + 1,
                            h2,
                        ) implies #[trigger] self.grad_values()[h2 as int] == old(self).grad_values()[h2 as int] by {
                        assert(h2 != h);
                    }
                }
                match res {
                    Ok(()) => {},
                    Err(e) => {
                        proof {
                            assert(add_input_grads(vals, g_i, inps[k as int], gs, (j + 1) as nat).0 is Err);
                            lemma_input_grads_stay_failed(
                                vals,
                                g_i,
                                inps[k as int],
                                gs,
                                (j + 1) as nat,
                                paired(inps[k as int].len(), gs.len()),
                            );
                            lemma_backprop_stays_failed(
                                vals,
                                seeded,
                                outs,
                                inps,
                                funcs,
                                visits,
                                (i + 1) as nat,
                                m as nat,
                            );
                            assert(backprop(vals, seeded, outs, inps, funcs, visits, m as nat) == (
                                Err::<(), TensorError>(e),
                                self.grads@,
                            ));
                        }
                        return Err(e);
                    },
                }
                proof {
                    assert(gs.skip(j as int).skip(1) =~= gs.skip(j + 1));
                }
                j = j + 1;
            }
            proof {
                assert(j == paired(inps[k as int].len(), gs.len()));
            }
            i = i + 1;
        }
        Ok(loss.mean())
    }

    fn same_extents(a: &Vec<usize>, b: &Vec<usize>) -> (r: bool)
        ensures
            r == (a@ == b@),
    {
        if a.len() != b.len() {
            return false;
        }
        let mut i: usize = 0;
        while i < a.len()
            invariant
                a@.len() == b@.len(),
                i <= a@.len(),
                forall|j: int| 0 <= j < i ==> a@[j] == b@[j],
            decreases a@.len() - i,
        {
            if a[i] != b[i] {
                return false;
            }
            i = i + 1;
        }
        proof {
            assert(a@ =~= b@);
        }
        true
    }

    /// Replaces the value of `tensor_id` by a tensor of the same shape; a
    /// tensor of another shape is refused and nothing changes.
    pub fn load(&mut self, tensor_id: TensorId, tensor: T) -> (r: Result<(), TensorError>)
        requires
            old(self).wf(),
            tensor_id < old(self).values().len(),
        ensures
            final(self).wf(),
            tensor.shape_spec() == old(self).values()[tensor_id as int].shape_spec() ==> {
                &&& r is Ok
                &&& final(self).values() == old(self).values().update(tensor_id as int, tensor)
            },
            tensor.shape_spec() != old(self).values()[tensor_id as int].shape_spec() ==> {
                &&& r == Err::<(), TensorError>(TensorError::ShapeMismatch)
                &&& *final(self) == *old(self)
            },
            final(self).grad_values() == old(self).grad_values(),
            final(self).labels() == old(self).labels(),
            final(self).outputs() == old(self).outputs(),
            final(self).inputs() == old(self).inputs(),
            final(self).operations() == old(self).operations(),
    {
        let current = self.tensors[tensor_id].shape();
        let given = tensor.shape();
        if !Self::same_extents(&current, &given) {
            return Err(TensorError::ShapeMismatch);
        }
        self.tensors.set(tensor_id, tensor);
        Ok(())
    }

    /// Replaces the gradient of `tensor_id`.
    pub fn load_grad(&mut self, tensor_id: TensorId, tensor: T)
        requires
            old(self).wf(),
            tensor_id < old(self).values().len(),
        ensures
            final(self).wf(),
            final(self).values() == old(self).values(),
            final(self).grad_values() == old(self).grad_values().update(tensor_id as int, tensor),
            final(self).labels() == old(self).labels(),
            final(self).outputs() == old(self).outputs(),
            final(self).inputs() == old(self).inputs(),
            final(self).operations() == old(self).operations(),
    {
        self.grads.set(tensor_id, tensor);
    }

    /// Resets every gradient to zeros of its own shape.
    pub fn zero_grad(&mut self)
        requires
            old(self).wf(),
        ensures
            final(self).wf(),
            final(self).values() == old(self).values(),
            final(self).grad_values().len() == old(self).grad_values().len(),
            forall|h: int|
                0 <= h < old(self).grad_values().len() ==> #[trigger] final(self).grad_values()[h]
                    == old(self).grad_values()[h].zeros_spec(),
            final(self).labels() == old(self).labels(),
            final(self).outputs() == old(self).outputs(),
            final(self).inputs() == old(self).inputs(),
            final(self).operations() == old(self).operations(),
    {
        let mut i: usize = 0;
        while i < self.grads.len()
            invariant
                self.wf(),
                i <= self.grads@.len(),
                self.tensors@ == old(self).tensors@,
                self.names@ == old(self).names@,
                self.computations@ == old(self).computations@,
                self.grads@.len() == old(self).grads@.len(),
                forall|h: int| 0 <= h < i ==> #[trigger] self.grads@[h] == old(self).grads@[h].zeros_spec(),
                forall|h: int| i <= h < self.grads@.len() ==> #[trigger] self.grads@[h] == old(self).grads@[h],
            decreases self.grads@.len() - i,
        {
            let z = self.grads[i].zeros_like();
            self.grads.set(i, z);
            i = i + 1;
        }
    }

    /// The name of `id`.
    pub fn name_of(&self, id: TensorId) -> (r: &str)
        requires
            self.wf(),
            id < self.values().len(),
        ensures
            r@ == self.labels()[id as int],
    {
        self.names[id].as_str()
    }

    /// The number of tensors allocated so far.
    pub fn tensor_count(&self) -> (r: usize)
        ensures
            r == self.values().len(),
    {
        self.tensors.len()
    }

    /// The value of `id`.
    pub fn get(&self, id: TensorId) -> (r: &T)
        requires
            id < self.values().len(),
        ensures
            *r == self.values()[id as int],
    {
        &self.tensors[id]
    }

    /// The gradient of `id`.
    pub fn get_grad(&self, id: TensorId) -> (r: &T)
        requires
            self.wf(),
            id < self.values().len(),
        ensures
            *r == self.grad_values()[id as int],
    {
        &self.grads[id]
    }

    /// Loads into `tensor_id` the rows of the table `embedding_id` that
    /// `input` selects. An error of the lookup, or of the load, is returned
    /// as it is and nothing changes.
    pub fn embed<I: Lookup<T>>(&mut self, tensor_id: TensorId, embedding_id: TensorId, input: &I) -> (r:
        Result<(), TensorError>)
        requires
            old(self).wf(),
            tensor_id < old(self).values().len(),
            embedding_id < old(self).values().len(),
        ensures
            final(self).wf(),
            input.lookup_spec(old(self).values()[embedding_id as int]) is Err ==> {
                &&& r == Err::<(), TensorError>(
                    input.lookup_spec(old(self).values()[embedding_id as int])->Err_0,
                )
                &&& *final(self) == *old(self)
            },
            input.lookup_spec(old(self).values()[embedding_id as int]) is Ok ==> {
                let t = input.lookup_spec(old(self).values()[embedding_id as int])->Ok_0;
                &&& t.shape_spec() == old(self).values()[tensor_id as int].shape_spec() ==> {
                    &&& r is Ok
                    &&& final(self).values() == old(self).values().update(tensor_id as int, t)
                }
                &&& t.shape_spec() != old(self).values()[tensor_id as int].shape_spec() ==> {
                    &&& r == Err::<(), TensorError>(TensorError::ShapeMismatch)
                    &&& *final(self) == *old(self)
                }
            },
            final(self).grad_values() == old(self).grad_values(),
            final(self).labels() == old(self).labels(),
            final(self).outputs() == old(self).outputs(),
            final(self).inputs() == old(self).inputs(),
            final(self).operations() == old(self).operations(),
    {
        let rows = match input.lookup(self.get(embedding_id)) {
            Ok(t) => t,
            Err(e) => return Err(e),
        };
        self.load(tensor_id, rows)
    }

    /// Hands the tensors whose handles are in `params`, in ascending handle
    /// order, to `opt` together with their gradients in the same order, and
    /// stores what it leaves in them back at those handles. Handles in
    /// `params` that name no tensor are ignored; the step's result is
    /// returned as it is.
    pub fn optimize<O: Optimizer<T>>(
        &mut self,
        opt: &mut O,
        params: &HashSet<TensorId>,
        learning_rate: O::Rate,
    ) -> (r: Result<(), TensorError>)
        requires
            old(self).wf(),
        ensures
            final(self).wf(),
            final(self).values().len() == old(self).values().len(),
            forall|h: usize|
                h < old(self).values().len() && !params@.contains(h) ==> #[trigger] final(self).values()[h as int]
                    == old(self).values()[h as int],
            r == old(self).optimizer_step(*old(opt), params@, learning_rate).0,
            forall|k: int|
                0 <= k < selected(params@, old(self).values().len()).len() ==> final(self).values()[#[trigger] selected(
                    params@,
                    old(self).values().len(),
                )[k] as int] == old(self).optimizer_step(*old(opt), params@, learning_rate).1[k],
            final(self).grad_values() == old(self).grad_values(),
            final(self).labels() == old(self).labels(),
            final(self).outputs() == old(self).outputs(),
            final(self).inputs() == old(self).inputs(),
            final(self).operations() == old(self).operations(),
    {
        broadcast use vstd::std_specs::hash::group_hash_axioms;

        let mut ids: Vec<TensorId> = Vec::new();
        let mut chosen: Vec<T> = Vec::new();
        let mut i: usize = 0;
        while i < self.tensors.len()
            invariant
                self.wf(),
                i <= self.tensors@.len(),
                self.tensors@.len() == old(self).tensors@.len(),
                self.grads@ == old(self).grads@,
                self.names@ == old(self).names@,
                self.computations@ == old(self).computations@,
                ids@ == selected(params@, i as nat),
                chosen@ == pick(old(self).tensors@, ids@),
                forall|j: int| 0 <= j < ids@.len() ==> #[trigger] ids@[j] < i,
                forall|j: int, k: int| 0 <= j < k < ids@.len() ==> #[trigger] ids@[j] < #[trigger] ids@[k],
                forall|j: int| 0 <= j < ids@.len() ==> params@.contains(#[trigger] ids@[j]),
                forall|h: usize|
                    h < self.tensors@.len() && !params@.contains(h) ==> #[trigger] self.tensors@[h as int]
                        == old(self).tensors@[h as int],
                forall|h: int| i <= h < self.tensors@.len() ==> #[trigger] self.tensors@[h] == old(self).tensors@[h],
            decreases self.tensors@.len() - i,
        {
            if params.contains(&i) {
                let mut t = self.tensors[i].zeros_like();
                self.tensors.set_and_swap(i, &mut t);
                chosen.push(t);
                ids.push(i);
                proof {
                    assert(chosen@ =~= pick(old(self).tensors@, ids@));
                }
            }
            i = i + 1;
        }
        proof {
            assert(ids@ == selected(params@, old(self).values().len()));
        }
        let res = {
            let grads = Self::gather(&self.grads, &ids);
            proof {
                assert(derefs(grads@).len() == pick(self.grads@, ids@).len());
            }
            opt.step(&mut chosen, &grads, learning_rate)
        };
        let ghost out = chosen@;
        let mut j: usize = ids.len();
        while j > 0
            invariant
                self.wf(),
                j <= ids@.len(),
                out.len() == ids@.len(),
                chosen@ == out.take(j as int),
                self.tensors@.len() == old(self).tensors@.len(),
                self.grads@ == old(self).grads@,
                self.names@ == old(self).names@,
                self.computations@ == old(self).computations@,
                forall|k: int| 0 <= k < ids@.len() ==> #[trigger] ids@[k] < self.tensors@.len(),
                forall|a: int, b: int| 0 <= a < b < ids@.len() ==> #[trigger] ids@[a] < #[trigger] ids@[b],
                forall|k: int| 0 <= k < ids@.len() ==> params@.contains(#[trigger] ids@[k]),
                forall|h: usize|
                    h < self.tensors@.len() && !params@.contains(h) ==> #[trigger] self.tensors@[h as int]
                        == old(self).tensors@[h as int],
                forall|k: int| j <= k < ids@.len() ==> self.tensors@[#[trigger] ids@[k] as int] == out[k],
            decreases j,
        {
            let t = chosen.pop().unwrap();
            proof {
                assert(t == out[j - 1]);
                assert(chosen@ =~= out.take(j - 1));
            }
            self.tensors.set(ids[j - 1], t);
            j = j - 1;
        }
        res
    }
}

/// Adds the slices of `s` to `acc` one direct addition at a time, first
/// slice first, stopping at the first failure.
pub open spec fn sequential_sum<T: TensorOps>(acc: T, s: Seq<T>) -> (Result<(), TensorError>, T)
    decreases s.len(),
{
    if s.len() == 0 {
        (Ok(()), acc)
    } else {
        match acc.add_spec(&s[0]) {
            Ok(b) => sequential_sum(b, s.drop_first()),
            Err(e) => (Err(e), acc),
        }
    }
}

proof fn lemma_sequential_sum_last<T: TensorOps>(acc: T, s: Seq<T>)
    requires
        s.len() > 0,
    ensures
        sequential_sum(acc, s) == after_step(sequential_sum(acc, s.drop_last()), s.last()),
    decreases s.len(),
{
    if s.len() > 1 {
        assert(s.drop_last()[0] == s[0]);
        assert(s.drop_first().drop_last() =~= s.drop_last().drop_first());
        assert(s.drop_first().last() == s.last());
        match acc.add_spec(&s[0]) {
            Ok(b) => {
                lemma_sequential_sum_last(b, s.drop_first());
            },
            Err(e) => {},
        }
    } else {
        assert(s.drop_first().len() == 0);
        assert(s.drop_last().len() == 0);
        assert(s.last() == s[0]);
        assert(sequential_sum(acc, s.drop_last()) == (Ok::<(), TensorError>(()), acc));
        match acc.add_spec(&s[0]) {
            Ok(b) => {
                assert(sequential_sum(b, s.drop_first()) == (Ok::<(), TensorError>(()), b));
            },
            Err(e) => {},
        }
    }
}

proof fn lemma_accumulate_is_sequential<T: TensorOps>(acc: T, s: Seq<T>)
    ensures
        accumulate(acc, s) == sequential_sum(acc, s),
    decreases s.len(),
{
    if s.len() > 0 {
        lemma_accumulate_is_sequential(acc, s.drop_last());
        lemma_sequential_sum_last(acc, s);
    }
}

proof fn lemma_accumulate_stays_failed<T: TensorOps>(acc: T, s: Seq<T>, i: nat)
    requires
        i <= s.len(),
        accumulate(acc, s.take(i as int)).0 is Err,
    ensures
        accumulate(acc, s) == accumulate(acc, s.take(i as int)),
    decreases s.len() - i,
{
    if i < s.len() {
        assert(s.take(i + 1 as int).drop_last() =~= s.take(i as int));
        lemma_accumulate_stays_failed(acc, s, (i + 1) as nat);
    } else {
        assert(s.take(i as int) =~= s);
    }
}

proof fn lemma_input_grads_stay_failed<T: TensorOps>(
    vals: Seq<T>,
    grads: Seq<T>,
    ids: Seq<usize>,
    gs: Seq<T>,
    j: nat,
    n: nat,
)
    requires
        j <= n,
        add_input_grads(vals, grads, ids, gs, j).0 is Err,
    ensures
        add_input_grads(vals, grads, ids, gs, n) == add_input_grads(vals, grads, ids, gs, j),
    decreases n - j,
{
    if j < n {
        lemma_input_grads_stay_failed(vals, grads, ids, gs, j, (n - 1) as nat);
    }
}

proof fn lemma_backprop_stays_failed<T: TensorOps, F: Function<T>>(
    vals: Seq<T>,
    grads: Seq<T>,
    outs: Seq<usize>,
    inps: Seq<Seq<usize>>,
    funcs: Seq<F>,
    visits: Seq<int>,
    i: nat,
    n: nat,
)
    requires
        i <= n,
        backprop(vals, grads, outs, inps, funcs, visits, i).0 is Err,
    ensures
        backprop(vals, grads, outs, inps, funcs, visits, n) == backprop(vals, grads, outs, inps, funcs, visits, i),
    decreases n - i,
{
    if i < n {
        lemma_backprop_stays_failed(vals, grads, outs, inps, funcs, visits, i, (n - 1) as nat);
    }
}

proof fn lemma_replay_stays_failed<T, F: Function<T>>(
    vals: Seq<T>,
    outs: Seq<usize>,
    inps: Seq<Seq<usize>>,
    funcs: Seq<F>,
    training: bool,
    k: nat,
    n: nat,
)
    requires
        k <= n,
        replay_prefix(vals, outs, inps, funcs, training, k).0 is Err,
    ensures
        replay_prefix(vals, outs, inps, funcs, training, n) == replay_prefix(vals, outs, inps, funcs, training, k),
    decreases n - k,
{
    if k < n {
        lemma_replay_stays_failed(vals, outs, inps, funcs, training, k, (n - 1) as nat);
    }
}

proof fn lemma_add_input_grads_frame<T: TensorOps>(
    vals: Seq<T>,
    grads: Seq<T>,
    ids: Seq<usize>,
    gs: Seq<T>,
    j: nat,
    h: int,
)
    requires
        j <= ids.len(),
        j <= gs.len(),
        0 <= h < grads.len(),
        forall|x: int| 0 <= x < ids.len() ==> #[trigger] ids[x] < grads.len(),
        forall|x: int| 0 <= x < ids.len() ==> #[trigger] ids[x] != h,
    ensures
        add_input_grads(vals, grads, ids, gs, j).1.len() == grads.len(),
        add_input_grads(vals, grads, ids, gs, j).1[h] == grads[h],
    decreases j,
{
    if j > 0 {
        lemma_add_input_grads_frame(vals, grads, ids, gs, (j - 1) as nat, h);
        assert(ids[j - 1] < grads.len());
        assert(ids[j - 1] != h);
    }
}

/// Adding a stack of gradients whose slices have the target's axes gives
/// the outcome, and the accumulator, that adding each slice directly, in
/// order, gives.
pub proof fn lemma_stacked_add_is_sequential<T: TensorOps>(acc: T, stack: T, dims: nat)
    requires
        stack.dim_spec() >= dims,
        stack.inners_spec(dims) is Ok,
    ensures
        added_grad(acc, stack, dims) == sequential_sum(acc, stack.inners_spec(dims)->Ok_0@),
{
    lemma_accumulate_is_sequential(acc, stack.inners_spec(dims)->Ok_0@);
}

/// A backward pass limited to `m` of `count > m` computations visits exactly
/// the newest `m`, newest first, and none of the older ones.
pub proof fn lemma_backward_limit(count: nat, m: usize)
    requires
        count > m,
    ensures
        backward_visits(count, Some(m)).len() == m,
        forall|i: int| 0 <= i < m ==> #[trigger] backward_visits(count, Some(m))[i] == count - 1 - i,
        forall|k: int|
            0 <= k < count - m ==> !backward_visits(count, Some(m)).contains(k),
{
    assert forall|k: int| 0 <= k < count - m implies !backward_visits(count, Some(m)).contains(k) by {
        if backward_visits(count, Some(m)).contains(k) {
            let i = choose|i: int| 0 <= i < m && backward_visits(count, Some(m))[i] == k;
            assert(backward_visits(count, Some(m))[i] == count - 1 - i);
        }
    }
}

impl<T: TensorOps, F: Function<T>> Graph<T, F> {
    /// Every input handle of a recorded computation is smaller than its
    /// output handle.
    pub proof fn lemma_inputs_precede_output(&self, i: int, j: int)
        requires
            self.wf(),
            0 <= i < self.outputs().len(),
            0 <= j < self.inputs()[i].len(),
        ensures
            self.inputs()[i][j] < self.outputs()[i],
    {
        self.lemma_wf_views();
    }

    /// The gradient and name tables have one entry per tensor.
    pub proof fn lemma_wf_lengths(&self)
        requires
            self.wf(),
        ensures
            self.grad_values().len() == self.values().len(),
            self.labels().len() == self.values().len(),
    {
        self.lemma_wf_views();
    }

    proof fn lemma_replay_len(&self, vals: Seq<T>, training: bool, k: nat)
        requires
            self.wf(),
            vals.len() == self.values().len(),
            k <= self.outputs().len(),
        ensures
            replay_prefix(vals, self.outputs(), self.inputs(), self.operations(), training, k).1.len()
                == vals.len(),
        decreases k,
    {
        if k > 0 {
            self.lemma_replay_len(vals, training, (k - 1) as nat);
        }
    }

    /// A handle that no computation in `[k, m)` writes keeps the value it had
    /// after the first `k`.
    proof fn lemma_replay_frame(&self, vals: Seq<T>, training: bool, k: nat, m: nat, h: int)
        requires
            self.wf(),
            vals.len() == self.values().len(),
            k <= m <= self.outputs().len(),
            0 <= h < vals.len(),
            forall|i: int| k <= i < m ==> #[trigger] self.outputs()[i] != h,
        ensures
            replay_prefix(vals, self.outputs(), self.inputs(), self.operations(), training, m).1[h]
                == replay_prefix(vals, self.outputs(), self.inputs(), self.operations(), training, k).1[h],
        decreases m - k,
    {
        if m > k {
            self.lemma_replay_frame(vals, training, k, (m - 1) as nat, h);
            self.lemma_replay_len(vals, training, (m - 1) as nat);
            assert(self.outputs()[m - 1] != h);
        }
    }

    /// Replaying the first `k` computations on the values that a successful
    /// full replay produced succeeds and changes nothing.
    proof fn lemma_replay_fixed(&self, training: bool, k: nat)
        requires
            self.wf(),
            k <= self.outputs().len(),
            self.replayed(training).0 is Ok,
        ensures
            replay_prefix(self.replayed(training).1, self.outputs(), self.inputs(), self.operations(), training, k)
                == (Ok::<(), TensorError>(()), self.replayed(training).1),
        decreases k,
    {
        let outs = self.outputs();
        let inps = self.inputs();
        let funcs = self.operations();
        let n = outs.len();
        let v0 = self.values();
        let v1 = self.replayed(training).1;
        self.lemma_wf_views();
        self.lemma_replay_len(v0, training, n);
        if k > 0 {
            self.lemma_replay_fixed(training, (k - 1) as nat);
            let o = outs[k - 1] as int;
            let before = replay_prefix(v0, outs, inps, funcs, training, (k - 1) as nat);
            let after = replay_prefix(v0, outs, inps, funcs, training, k);
            self.lemma_replay_len(v0, training, (k - 1) as nat);
            if before.0 is Err {
                lemma_replay_stays_failed(v0, outs, inps, funcs, training, (k - 1) as nat, n);
            }
            if after.0 is Err {
                lemma_replay_stays_failed(v0, outs, inps, funcs, training, k, n);
            }
            assert forall|i: int| k <= i < n implies #[trigger] outs[i] != o by {
                assert(self.computations@[k - 1].out < self.computations@[i].out);
            }
            self.lemma_replay_frame(v0, training, k, n, o);
            assert forall|j: int| 0 <= j < inps[k - 1].len() implies #[trigger] v1[inps[k - 1][j] as int]
                == before.1[inps[k - 1][j] as int] by {
                let h = inps[k - 1][j] as int;
                assert(h < o);
                assert forall|i: int| k - 1 <= i < n implies #[trigger] outs[i] != h by {
                    if i > k - 1 {
                        assert(self.computations@[k - 1].out < self.computations@[i].out);
                    }
                }
                self.lemma_replay_frame(v0, training, (k - 1) as nat, n, h);
            }
            assert(pick(v1, inps[k - 1]) =~= pick(before.1, inps[k - 1]));
            assert(replay_prefix(v1, outs, inps, funcs, training, k).1 =~= v1);
        }
    }

    /// Replay is deterministic: once a replay of every recorded computation
    /// has succeeded, replaying them all again succeeds and leaves every value
    /// as it is.
    pub proof fn lemma_forward_deterministic(&self, training: bool)
        requires
            self.wf(),
            self.replayed(training).0 is Ok,
        ensures
            replay_prefix(
                self.replayed(training).1,
                self.outputs(),
                self.inputs(),
                self.operations(),
                training,
                self.outputs().len(),
            ) == (Ok::<(), TensorError>(()), self.replayed(training).1),
    {
        self.lemma_replay_fixed(training, self.outputs().len());
    }

    proof fn lemma_backprop_frame(&self, grads: Seq<T>, visits: Seq<int>, i: nat, h: int)
        requires
            self.wf(),
            grads.len() == self.values().len(),
            i <= visits.len(),
            forall|x: int| 0 <= x < visits.len() ==> 0 <= #[trigger] visits[x] < self.outputs().len(),
            0 <= h < grads.len(),
            forall|x: int, y: int|
                0 <= x < i && 0 <= y < self.inputs()[visits[x]].len() ==> #[trigger] self.inputs()[visits[x]][y]
                    != h,
        ensures
            backprop(self.values(), grads, self.outputs(), self.inputs(), self.operations(), visits, i).1.len()
                == grads.len(),
            backprop(self.values(), grads, self.outputs(), self.inputs(), self.operations(), visits, i).1[h]
                == grads[h],
        decreases i,
    {
        if i > 0 {
            self.lemma_wf_views();
            self.lemma_backprop_frame(grads, visits, (i - 1) as nat, h);
            let p = backprop(
                self.values(),
                grads,
                self.outputs(),
                self.inputs(),
                self.operations(),
                visits,
                (i - 1) as nat,
            );
            let k = visits[i - 1];
            let ids = self.inputs()[k];
            if p.0 is Ok {
                match self.operations()[k].grad_spec(pick(self.values(), ids), p.1[self.outputs()[k] as int]) {
                    Ok(gs) => {
                        assert forall|x: int| 0 <= x < ids.len() implies #[trigger] ids[x] < p.1.len() by {
                            assert(ids[x] < self.outputs()[k]);
                        }
                        assert forall|x: int| 0 <= x < ids.len() implies #[trigger] ids[x] != h by {
                            assert(self.inputs()[visits[i - 1]][x] != h);
                        }
                        lemma_add_input_grads_frame(
                            self.values(),
                            p.1,
                            ids,
                            gs@,
                            paired(ids.len(), gs@.len()),
                            h,
                        );
                    },
                    Err(_) => {},
                }
            }
        }
    }

    /// A backward pass limited to `m` of more than `m` computations, from any
    /// gradients, leaves the gradient of every handle that is not an input of
    /// the newest `m` computations as it was, whether or not it succeeds.
    pub proof fn lemma_backward_limit_frame(&self, grads: Seq<T>, m: usize, h: usize)
        requires
            self.wf(),
            grads.len() == self.values().len(),
            h < self.values().len(),
            self.outputs().len() > m,
            forall|k: int|
                self.outputs().len() - m <= k < self.outputs().len() ==> !(#[trigger] self.inputs()[k]).contains(
                    h,
                ),
        ensures
            self.backprop_from(grads, Some(m)).1[h as int] == grads[h as int],
    {
        self.lemma_wf_views();
        let count = self.outputs().len();
        let visits = backward_visits(count, Some(m));
        lemma_backward_limit(count, m);
        assert forall|x: int, y: int|
            0 <= x < visits.len() && 0 <= y < self.inputs()[visits[x]].len() implies #[trigger] self.inputs()[visits[x]][y]
                != h by {
            assert(visits[x] == count - 1 - x);
            assert(!self.inputs()[visits[x]].contains(h));
        }
        self.lemma_backprop_frame(grads, visits, visits.len(), h as int);
    }
}

} // verus!
