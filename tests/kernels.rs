use autograd::kernel::{decimal, padded_global_size, LOCAL_WORK_SIZE};
use autograd::layer_norm::{gpu_grad, gpu_run};

fn expected_forward(out_id: usize, n: usize, works: usize) -> String {
    format!(
        "__kernel void calc_{out_id}(
                        __global float* out,
                        __global float* a,
                        __global float* coeff,
                        __global float* bias) {{
        uint id = get_global_id(0);
        if(id < {works}) {{
            a += id * {n};
            out += id * {n};
            float size_inv = 1./{n};
            float avg = 0.;
            for(uint i = 0; i < {n}; i++) {{
                avg += a[i];
            }}
            avg *= size_inv;
            float var = 0.;
            for(uint i = 0; i < {n}; i++) {{
                var += (a[i] - avg) * (a[i] - avg);
            }}
            float var_inv = 1. / sqrt(var * size_inv + 1e-5);
            for(uint i = 0; i < {n}; i++) {{
                out[i] = (a[i] - avg) * var_inv * coeff[i] + bias[i];
            }}
        }}
    }}"
    )
}

fn expected_reduction(out_id: usize, n: usize, works: usize) -> String {
    format!(
        "__kernel void grad_{out_id}_1(
                        __global float* out,
                        __global float* out_grad,
                        __global float* coeff_grad_temp,
                        __global float* inp,
                        __global float* inp_grad,
                        __global float* coeff,
                        __global float* coeff_grad,
                        __global float* bias,
                        __global float* bias_grad) {{
        uint id = get_global_id(0);
        if(id < {n}) {{
            for(uint i = 0; i < {works}; i++) {{
                coeff_grad[id] += coeff_grad_temp[i * {n} + id];
                bias_grad[id] += out_grad[i * {n} + id];
            }}
        }}
    }}"
    )
}

#[test]
fn decimal_renders_numbers() {
    assert_eq!(decimal(0), "0");
    assert_eq!(decimal(7), "7");
    assert_eq!(decimal(10), "10");
    assert_eq!(decimal(1234), "1234");
    assert_eq!(decimal(usize::MAX), usize::MAX.to_string());
}

#[test]
fn padded_size_is_next_multiple() {
    assert_eq!(padded_global_size(50, 32), 64);
    assert_eq!(padded_global_size(1, 32), 32);
    assert_eq!(padded_global_size(32, 32), 32);
    assert_eq!(padded_global_size(33, 32), 64);
    assert_eq!(padded_global_size(0, 32), 0);
    assert_eq!(padded_global_size(7, 1), 7);
    assert_eq!(padded_global_size(usize::MAX - 31, 32), usize::MAX - 31);
    assert_eq!(padded_global_size(usize::MAX - 40, 32), usize::MAX - 31);
}

#[test]
fn forward_kernel_for_fifty_rows() {
    let f = gpu_run(9, &[vec![5, 10, 8]]);
    assert_eq!(f.kernel_name, "calc_9");
    assert_eq!(f.local_work_size, LOCAL_WORK_SIZE);
    assert_eq!(f.local_work_size, 32);
    assert_eq!(f.global_work_size, 64);
    assert_eq!(f.source_code, expected_forward(9, 8, 50));
}

#[test]
fn forward_kernel_text_matches_template() {
    let f = gpu_run(123, &[vec![2, 4], vec![4], vec![4]]);
    assert_eq!(f.kernel_name, "calc_123");
    assert_eq!(f.global_work_size, 32);
    assert_eq!(f.source_code, expected_forward(123, 4, 2));
    assert!(f.source_code.contains("if(id < 2)"));
    assert!(f.source_code.contains("float size_inv = 1./4;"));
}

#[test]
fn forward_kernel_one_axis_has_one_row() {
    let f = gpu_run(0, &[vec![6]]);
    assert_eq!(f.kernel_name, "calc_0");
    assert_eq!(f.global_work_size, 32);
    assert_eq!(f.source_code, expected_forward(0, 6, 1));
}

#[test]
fn backward_kernels_two_stages() {
    let g = gpu_grad(7, &[vec![3, 40], vec![40], vec![40]]);
    assert_eq!(g.funcs.len(), 2);
    assert_eq!(g.funcs[0].kernel_name, "grad_7_0");
    assert_eq!(g.funcs[1].kernel_name, "grad_7_1");
    assert_eq!(g.funcs[0].local_work_size, 32);
    assert_eq!(g.funcs[0].global_work_size, 32);
    assert_eq!(g.funcs[1].local_work_size, 32);
    assert_eq!(g.funcs[1].global_work_size, 64);
    assert_eq!(g.shared_buffers, vec![120]);
    assert_eq!(g.funcs[1].source_code, expected_reduction(7, 40, 3));
    assert!(g.funcs[0].source_code.starts_with("__kernel void grad_7_0("));
    assert!(g.funcs[0].source_code.contains("if(id < 3) {"));
    assert!(g.funcs[0].source_code.contains("out += id * 40;"));
    assert!(g.funcs[0].source_code.contains("float n_inv = 1.0 / 40;"));
}

#[test]
fn backward_kernels_many_rows() {
    let g = gpu_grad(15, &[vec![2, 25, 4]]);
    assert_eq!(g.funcs[0].global_work_size, 64);
    assert_eq!(g.funcs[1].global_work_size, 32);
    assert_eq!(g.shared_buffers, vec![200]);
    assert_eq!(g.funcs[1].source_code, expected_reduction(15, 4, 50));
}

fn expected_row_stage(out_id: usize, n: usize, works: usize) -> String {
    format!(
        "__kernel void grad_{out_id}_0(
                        __global float* out,
                        __global float* out_grad,
                        __global float* coeff_grad_temp,
                        __global float* inp,
                        __global float* inp_grad,
                        __global float* coeff,
                        __global float* coeff_grad,
                        __global float* bias,
                        __global float* bias_grad) {{
        uint id = get_global_id(0);
        out += id * {n};
        out_grad += id * {n};
        inp += id * {n};
        inp_grad += id * {n};
        coeff_grad_temp += id * {n};

        if(id < {works}) {{
            for(uint i = 0; i < {n}; i++) {{
                coeff_grad_temp[i] = (out[i] - bias[i]) * out_grad[i] / coeff[i];
            }}

            float n_inv = 1.0 / {n};
            float avg = 0.0;
            for(uint i = 0; i < {n}; i++) {{
                avg += inp[i];
            }}
            avg *= n_inv;

            float sigma2 = 0.0;
            for(uint i = 0; i < {n}; i++) {{
                sigma2 += (inp[i] - avg) * (inp[i] - avg);
            }}
            sigma2 *= n_inv;
            sigma2 += 0.00001;

            float sigma2_inv = 1.0 / sigma2;
            float sigma = sqrt(sigma2);
            float sigma_inv = 1. / sigma;

            for(uint i = 0; i < {n}; i++) {{
                float a = inp[i];
                for(uint j = 0; j < {n}; j++) {{
                    if(i == j) {{
                        inp_grad[i] += ((1. - n_inv) * sigma - (a - avg) * (a - avg) * sigma_inv * n_inv) * sigma2_inv * out_grad[j] * coeff[j];
                    }} else {{
                        float b = inp[j];
                        inp_grad[i] += (-n_inv * sigma - (b - avg) * (a - avg) * sigma_inv * n_inv) * sigma2_inv * out_grad[j] * coeff[j];
                    }}
                }}
            }}
        }}
    }}"
    )
}

#[test]
fn backward_row_stage_text_matches_template() {
    let g = gpu_grad(4, &[vec![6, 5]]);
    assert_eq!(g.funcs[0].source_code, expected_row_stage(4, 5, 6));
    let g = gpu_grad(31, &[vec![2, 3, 16]]);
    assert_eq!(g.funcs[0].source_code, expected_row_stage(31, 16, 6));
}
