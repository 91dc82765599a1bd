//! Kernel generators for layer normalisation over the last axis.
use vstd::prelude::*;
use crate::graph::TensorId;
use crate::kernel::{
    decimal, decimal_of, padded_global_size, padded_size, GpuFunction, GpuFunctionGroup,
    LOCAL_WORK_SIZE,
};

verus! {

/// The product of the extents in `s`, multiplied from the left.
pub open spec fn extent_product(s: Seq<usize>) -> nat
    decreases s.len(),
{
    if s.len() == 0 {
        1
    } else {
        extent_product(s.drop_last()) * (s.last() as nat)
    }
}

/// Every partial product of the extents fits in a `usize`.
pub open spec fn prefix_products_fit(s: Seq<usize>) -> bool {
    forall|i: int| 0 <= i < s.len() ==> #[trigger] extent_product(s.take(i)) <= usize::MAX
}

/// The length of one normalised row: the last extent.
pub open spec fn row_len(shape: Seq<usize>) -> nat {
    shape.last() as nat
}

/// The number of rows: the product of all extents but the last.
pub open spec fn row_count(shape: Seq<usize>) -> nat {
    extent_product(shape.drop_last())
}

/// Shapes the generators accept: at least one axis, and every count they
/// derive fits in a `usize`.
pub open spec fn generator_shape(shape: Seq<usize>) -> bool {
    &&& shape.len() >= 1
    &&& prefix_products_fit(shape)
    &&& padded_size(row_count(shape), LOCAL_WORK_SIZE as nat) <= usize::MAX
}

pub open spec fn forward_kernel_name(out_id: nat) -> Seq<char> {
    "calc_"@ + decimal_of(out_id)
}

pub open spec fn grad_kernel_name(out_id: nat, stage: nat) -> Seq<char> {
    "grad_"@ + decimal_of(out_id) + "_"@ + decimal_of(stage)
}

/// The forward kernel: one thread per row computes the mean and the biased
/// variance of its row, normalises it and applies scale and shift.
pub open spec fn forward_kernel_source(out_id: nat, n: nat, works: nat) -> Seq<char> {
    forward_kernel_source_from(decimal_of(out_id), decimal_of(n), decimal_of(works))
}

/// The kernel text with the rendered numbers put in.
pub open spec fn forward_kernel_source_from(out_id: Seq<char>, n: Seq<char>, works: Seq<char>) -> Seq<char> {
    "__kernel void calc_"@
    + out_id
    + "(\n                        __global float* out,\n                        __global float* a,\n                        __global float* coeff,\n                        __global float* bias) {\n        uint id = get_global_id(0);\n        if(id < "@
    + works
    + ") {\n            a += id * "@
    + n
    + ";\n            out += id * "@
    + n
    + ";\n            float size_inv = 1./"@
    + n
    + ";\n            float avg = 0.;\n            for(uint i = 0; i < "@
    + n
    + "; i++) {\n                avg += a[i];\n            }\n            avg *= size_inv;\n            float var = 0.;\n            for(uint i = 0; i < "@
    + n
    + "; i++) {\n                var += (a[i] - avg) * (a[i] - avg);\n            }\n            float var_inv = 1. / sqrt(var * size_inv + 1e-5);\n            for(uint i = 0; i < "@
    + n
    + "; i++) {\n                out[i] = (a[i] - avg) * var_inv * coeff[i] + bias[i];\n            }\n        }\n    }"@
}

fn forward_kernel_text(out_id_text: &String, n_text: &String, works_text: &String) -> (r: String)
    ensures
        r@ == forward_kernel_source_from(out_id_text@, n_text@, works_text@),
{
    let mut s = String::from_str("__kernel void calc_");
    s.append(out_id_text.as_str());
    s.append("(\n                        __global float* out,\n                        __global float* a,\n                        __global float* coeff,\n                        __global float* bias) {\n        uint id = get_global_id(0);\n        if(id < ");
    s.append(works_text.as_str());
    s.append(") {\n            a += id * ");
    s.append(n_text.as_str());
    s.append(";\n            out += id * ");
    s.append(n_text.as_str());
    s.append(";\n            float size_inv = 1./");
    s.append(n_text.as_str());
    s.append(";\n            float avg = 0.;\n            for(uint i = 0; i < ");
    s.append(n_text.as_str());
    s.append("; i++) {\n                avg += a[i];\n            }\n            avg *= size_inv;\n            float var = 0.;\n            for(uint i = 0; i < ");
    s.append(n_text.as_str());
    s.append("; i++) {\n                var += (a[i] - avg) * (a[i] - avg);\n            }\n            float var_inv = 1. / sqrt(var * size_inv + 1e-5);\n            for(uint i = 0; i < ");
    s.append(n_text.as_str());
    s.append("; i++) {\n                out[i] = (a[i] - avg) * var_inv * coeff[i] + bias[i];\n            }\n        }\n    }");
    s
}

/// The first backward stage: one thread per row writes the scale-gradient
/// terms to the shared buffer and adds the row's full Jacobian product to the
/// input gradient.
pub open spec fn row_stage_kernel_source(out_id: nat, n: nat, works: nat) -> Seq<char> {
    row_stage_kernel_source_from(decimal_of(out_id), decimal_of(n), decimal_of(works))
}

/// The kernel text with the rendered numbers put in.
pub open spec fn row_stage_kernel_source_from(out_id: Seq<char>, n: Seq<char>, works: Seq<char>) -> Seq<char> {
    "__kernel void grad_"@
    + out_id
    + "_0(\n                        __global float* out,\n                        __global float* out_grad,\n                        __global float* coeff_grad_temp,\n                        __global float* inp,\n                        __global float* inp_grad,\n                        __global float* coeff,\n                        __global float* coeff_grad,\n                        __global float* bias,\n                        __global float* bias_grad) {\n        uint id = get_global_id(0);\n        out += id * "@
    + n
    + ";\n        out_grad += id * "@
    + n
    + ";\n        inp += id * "@
    + n
    + ";\n        inp_grad += id * "@
    + n
    + ";\n        coeff_grad_temp += id * "@
    + n
    + ";\n\n        if(id < "@
    + works
    + ") {\n            for(uint i = 0; i < "@
    + n
    + "; i++) {\n                coeff_grad_temp[i] = (out[i] - bias[i]) * out_grad[i] / coeff[i];\n            }\n\n            float n_inv = 1.0 / "@
    + n
    + ";\n            float avg = 0.0;\n            for(uint i = 0; i < "@
    + n
    + "; i++) {\n                avg += inp[i];\n            }\n            avg *= n_inv;\n\n            float sigma2 = 0.0;\n            for(uint i = 0; i < "@
    + n
    + "; i++) {\n                sigma2 += (inp[i] - avg) * (inp[i] - avg);\n            }\n            sigma2 *= n_inv;\n            sigma2 += 0.00001;\n\n            float sigma2_inv = 1.0 / sigma2;\n            float sigma = sqrt(sigma2);\n            float sigma_inv = 1. / sigma;\n\n            for(uint i = 0; i < "@
    + n
    + "; i++) {\n                float a = inp[i];\n                for(uint j = 0; j < "@
    + n
    + "; j++) {\n                    if(i == j) {\n                        inp_grad[i] += ((1. - n_inv) * sigma - (a - avg) * (a - avg) * sigma_inv * n_inv) * sigma2_inv * out_grad[j] * coeff[j];\n                    } else {\n                        float b = inp[j];\n                        inp_grad[i] += (-n_inv * sigma - (b - avg) * (a - avg) * sigma_inv * n_inv) * sigma2_inv * out_grad[j] * coeff[j];\n                    }\n                }\n            }\n        }\n    }"@
}

fn row_stage_kernel_text(out_id_text: &String, n_text: &String, works_text: &String) -> (r: String)
    ensures
        r@ == row_stage_kernel_source_from(out_id_text@, n_text@, works_text@),
{
    let mut s = String::from_str("__kernel void grad_");
    s.append(out_id_text.as_str());
    s.append("_0(\n                        __global float* out,\n                        __global float* out_grad,\n                        __global float* coeff_grad_temp,\n                        __global float* inp,\n                        __global float* inp_grad,\n                        __global float* coeff,\n                        __global float* coeff_grad,\n                        __global float* bias,\n                        __global float* bias_grad) {\n        uint id = get_global_id(0);\n        out += id * ");
    s.append(n_text.as_str());
    s.append(";\n        out_grad += id * ");
    s.append(n_text.as_str());
    s.append(";\n        inp += id * ");
    s.append(n_text.as_str());
    s.append(";\n        inp_grad += id * ");
    s.append(n_text.as_str());
    s.append(";\n        coeff_grad_temp += id * ");
    s.append(n_text.as_str());
    s.append(";\n\n        if(id < ");
    s.append(works_text.as_str());
    s.append(") {\n            for(uint i = 0; i < ");
    s.append(n_text.as_str());
    s.append("; i++) {\n                coeff_grad_temp[i] = (out[i] - bias[i]) * out_grad[i] / coeff[i];\n            }\n\n            float n_inv = 1.0 / ");
    s.append(n_text.as_str());
    s.append(";\n            float avg = 0.0;\n            for(uint i = 0; i < ");
    s.append(n_text.as_str());
    s.append("; i++) {\n                avg += inp[i];\n            }\n            avg *= n_inv;\n\n            float sigma2 = 0.0;\n            for(uint i = 0; i < ");
    s.append(n_text.as_str());
    s.append("; i++) {\n                sigma2 += (inp[i] - avg) * (inp[i] - avg);\n            }\n            sigma2 *= n_inv;\n            sigma2 += 0.00001;\n\n            float sigma2_inv = 1.0 / sigma2;\n            float sigma = sqrt(sigma2);\n            float sigma_inv = 1. / sigma;\n\n            for(uint i = 0; i < ");
    s.append(n_text.as_str());
    s.append("; i++) {\n                float a = inp[i];\n                for(uint j = 0; j < ");
    s.append(n_text.as_str());
    s.append("; j++) {\n                    if(i == j) {\n                        inp_grad[i] += ((1. - n_inv) * sigma - (a - avg) * (a - avg) * sigma_inv * n_inv) * sigma2_inv * out_grad[j] * coeff[j];\n                    } else {\n                        float b = inp[j];\n                        inp_grad[i] += (-n_inv * sigma - (b - avg) * (a - avg) * sigma_inv * n_inv) * sigma2_inv * out_grad[j] * coeff[j];\n                    }\n                }\n            }\n        }\n    }");
    s
}

/// The second backward stage: one thread per feature sums the shared buffer
/// and the output gradient over all rows into the scale and shift gradients.
pub open spec fn reduction_stage_kernel_source(out_id: nat, n: nat, works: nat) -> Seq<char> {
    reduction_stage_kernel_source_from(decimal_of(out_id), decimal_of(n), decimal_of(works))
}

/// The kernel text with the rendered numbers put in.
pub open spec fn reduction_stage_kernel_source_from(out_id: Seq<char>, n: Seq<char>, works: Seq<char>) -> Seq<char> {
    "__kernel void grad_"@
    + out_id
    + "_1(\n                        __global float* out,\n                        __global float* out_grad,\n                        __global float* coeff_grad_temp,\n                        __global float* inp,\n                        __global float* inp_grad,\n                        __global float* coeff,\n                        __global float* coeff_grad,\n                        __global float* bias,\n                        __global float* bias_grad) {\n        uint id = get_global_id(0);\n        if(id < "@
    + n
    + ") {\n            for(uint i = 0; i < "@
    + works
    + "; i++) {\n                coeff_grad[id] += coeff_grad_temp[i * "@
    + n
    + " + id];\n                bias_grad[id] += out_grad[i * "@
    + n
    + " + id];\n            }\n        }\n    }"@
}

fn reduction_stage_kernel_text(out_id_text: &String, n_text: &String, works_text: &String) -> (r: String)
    ensures
        r@ == reduction_stage_kernel_source_from(out_id_text@, n_text@, works_text@),
{
    let mut s = String::from_str("__kernel void grad_");
    s.append(out_id_text.as_str());
    s.append("_1(\n                        __global float* out,\n                        __global float* out_grad,\n                        __global float* coeff_grad_temp,\n                        __global float* inp,\n                        __global float* inp_grad,\n                        __global float* coeff,\n                        __global float* coeff_grad,\n                        __global float* bias,\n                        __global float* bias_grad) {\n        uint id = get_global_id(0);\n        if(id < ");
    s.append(n_text.as_str());
    s.append(") {\n            for(uint i = 0; i < ");
    s.append(works_text.as_str());
    s.append("; i++) {\n                coeff_grad[id] += coeff_grad_temp[i * ");
    s.append(n_text.as_str());
    s.append(" + id];\n                bias_grad[id] += out_grad[i * ");
    s.append(n_text.as_str());
    s.append(" + id];\n            }\n        }\n    }");
    s
}

fn row_count_of(shape: &Vec<usize>) -> (r: usize)
    requires
        shape@.len() >= 1,
        prefix_products_fit(shape@),
    ensures
        r == row_count(shape@),
{
    let last: usize = shape.len() - 1;
    let mut works: usize = 1;
    let mut i: usize = 0;
    while i < last
        invariant
            last == shape@.len() - 1,
            i <= last,
            prefix_products_fit(shape@),
            works == extent_product(shape@.take(i as int)),
        decreases last - i,
    {
        assert(shape@.take(i + 1).drop_last() =~= shape@.take(i as int));
        assert(extent_product(shape@.take(i + 1)) <= usize::MAX);
        works = works * shape[i];
        i = i + 1;
    }
    assert(shape@.take(last as int) =~= shape@.drop_last());
    works
}

fn kernel_name(prefix: &str, out_id_text: &String) -> (r: String)
    ensures
        r@ == prefix@ + out_id_text@,
{
    let mut s = String::from_str(prefix);
    s.append(out_id_text.as_str());
    s
}

/// Generates the forward kernel of layer normalisation for an output tensor
/// `out_id` whose input has the shape `inps[0]`: one thread per row, in work
/// groups of 32.
pub fn gpu_run(out_id: TensorId, inps: &[Vec<usize>]) -> (r: GpuFunction)
    requires
        inps@.len() >= 1,
        generator_shape(inps@[0]@),
    ensures
        r.source_code@ == forward_kernel_source(
            out_id as nat,
            row_len(inps@[0]@),
            row_count(inps@[0]@),
        ),
        r.kernel_name@ == forward_kernel_name(out_id as nat),
        r.local_work_size == LOCAL_WORK_SIZE,
        r.global_work_size == padded_size(row_count(inps@[0]@), LOCAL_WORK_SIZE as nat),
{
    let shape = &inps[0];
    let n = shape[shape.len() - 1];
    let works = row_count_of(shape);
    let out_id_text = decimal(out_id);
    let n_text = decimal(n);
    let works_text = decimal(works);
    let source_code = forward_kernel_text(&out_id_text, &n_text, &works_text);
    let local_work_size = LOCAL_WORK_SIZE;
    let global_work_size = padded_global_size(works, local_work_size);
    GpuFunction {
        source_code,
        kernel_name: kernel_name("calc_", &out_id_text),
        local_work_size,
        global_work_size,
    }
}

/// Generates the two-stage backward kernels of layer normalisation: a
/// per-row stage sized like the forward kernel, then a per-feature reduction
/// sized to the row length, sharing one buffer of `n * works` elements.
pub fn gpu_grad(out_id: TensorId, inps: &[Vec<usize>]) -> (r: GpuFunctionGroup)
    requires
        inps@.len() >= 1,
        generator_shape(inps@[0]@),
        padded_size(row_len(inps@[0]@), LOCAL_WORK_SIZE as nat) <= usize::MAX,
        row_len(inps@[0]@) * row_count(inps@[0]@) <= usize::MAX,
    ensures
        r.funcs@.len() == 2,
        r.funcs@[0].source_code@ == row_stage_kernel_source(
            out_id as nat,
            row_len(inps@[0]@),
            row_count(inps@[0]@),
        ),
        r.funcs@[0].kernel_name@ == grad_kernel_name(out_id as nat, 0),
        r.funcs@[0].local_work_size == LOCAL_WORK_SIZE,
        r.funcs@[0].global_work_size == padded_size(
            row_count(inps@[0]@),
            LOCAL_WORK_SIZE as nat,
        ),
        r.funcs@[1].source_code@ == reduction_stage_kernel_source(
            out_id as nat,
            row_len(inps@[0]@),
            row_count(inps@[0]@),
        ),
        r.funcs@[1].kernel_name@ == grad_kernel_name(out_id as nat, 1),
        r.funcs@[1].local_work_size == LOCAL_WORK_SIZE,
        r.funcs@[1].global_work_size == padded_size(row_len(inps@[0]@), LOCAL_WORK_SIZE as nat),
        r.shared_buffers@ == seq![(row_len(inps@[0]@) * row_count(inps@[0]@)) as usize],
{
    let shape = &inps[0];
    let n = shape[shape.len() - 1];
    let works = row_count_of(shape);
    let out_id_text = decimal(out_id);
    let n_text = decimal(n);
    let works_text = decimal(works);
    let source_code = row_stage_kernel_text(&out_id_text, &n_text, &works_text);
    let source_code_2 = reduction_stage_kernel_text(&out_id_text, &n_text, &works_text);
    let local_work_size = LOCAL_WORK_SIZE;
    let global_work_size = padded_global_size(works, local_work_size);
    let local_work_size_2 = LOCAL_WORK_SIZE;
    let global_work_size_2 = padded_global_size(n, local_work_size_2);
    let mut name_0 = kernel_name("grad_", &out_id_text);
    name_0.append("_0");
    let mut name_1 = kernel_name("grad_", &out_id_text);
    name_1.append("_1");
    proof {
        reveal_strlit("_0");
        reveal_strlit("_1");
        reveal_strlit("_");
        assert(decimal_of(0) == seq!['0']);
        assert(decimal_of(1) == seq!['1']);
        assert(name_0@ =~= grad_kernel_name(out_id as nat, 0));
        assert(name_1@ =~= grad_kernel_name(out_id as nat, 1));
    }
    let mut funcs: Vec<GpuFunction> = Vec::new();
    funcs.push(
        GpuFunction {
            source_code,
            kernel_name: name_0,
            local_work_size,
            global_work_size,
        },
    );
    funcs.push(
        GpuFunction {
            source_code: source_code_2,
            kernel_name: name_1,
            local_work_size: local_work_size_2,
            global_work_size: global_work_size_2,
        },
    );
    let mut shared_buffers: Vec<usize> = Vec::new();
    shared_buffers.push(n * works);
    GpuFunctionGroup { funcs, shared_buffers }
}

} // verus!
