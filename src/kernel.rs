//! Device kernels as values: source text, entry-point name and launch geometry.
use vstd::prelude::*;

verus! {

/// One compute kernel ready to be handed to a device runtime.
pub struct GpuFunction {
    pub source_code: String,
    pub kernel_name: String,
    pub local_work_size: usize,
    pub global_work_size: usize,
}

/// Kernels that run in order and share the auxiliary buffers listed in
/// `shared_buffers` (one size, in elements, per buffer).
pub struct GpuFunctionGroup {
    pub funcs: Vec<GpuFunction>,
    pub shared_buffers: Vec<usize>,
}

/// The size of every work group that the generators emit.
pub const LOCAL_WORK_SIZE: usize = 32;

/// `works` padded up to a multiple of `local`.
pub open spec fn padded_size(works: nat, local: nat) -> nat
    recommends
        local > 0,
{
    (works + ((local - works % local) as nat) % local) as nat
}

/// The global launch size for `works` threads in groups of `local`:
/// the surplus threads are masked out by the kernel itself.
pub fn padded_global_size(works: usize, local: usize) -> (r: usize)
    requires
        local > 0,
        padded_size(works as nat, local as nat) <= usize::MAX,
    ensures
        r == padded_size(works as nat, local as nat),
{
    proof {
        lemma_padded_size_is_least_multiple(works as nat, local as nat);
    }
    works + ((local - (works % local)) % local)
}

/// The padded launch size is the least multiple of `local` that is at least
/// `works`, and it never exceeds `works` by `local` or more.
pub proof fn lemma_padded_size_is_least_multiple(works: nat, local: nat)
    requires
        local > 0,
    ensures
        padded_size(works, local) % local == 0,
        padded_size(works, local) >= works,
        padded_size(works, local) < works + local,
        forall|k: nat| #[trigger] (k * local) >= works ==> k * local >= padded_size(works, local),
{
    let q = works / local;
    let r = works % local;
    assert(works == local * q + r && 0 <= r < local) by (nonlinear_arith)
        requires
            local > 0,
            q == works / local,
            r == works % local,
    ;
    if r == 0 {
        vstd::arithmetic::div_mod::lemma_mod_self_0(local as int);
        assert(padded_size(works, local) == works);
        assert forall|k: nat| #[trigger] (k * local) >= works implies k * local >= padded_size(
            works,
            local,
        ) by {}
    } else {
        assert(((local - r) as nat) % local == local - r) by (nonlinear_arith)
            requires
                0 < r < local,
        ;
        assert(padded_size(works, local) == local * (q + 1)) by (nonlinear_arith)
            requires
                works == local * q + r,
                padded_size(works, local) == works + (local - r),
        ;
        assert((local * (q + 1)) % local == 0) by (nonlinear_arith)
            requires
                local > 0,
        ;
        assert forall|k: nat| #[trigger] (k * local) >= works implies k * local >= padded_size(
            works,
            local,
        ) by {
            assert(k * local >= local * (q + 1)) by (nonlinear_arith)
                requires
                    k * local >= local * q + r,
                    0 < r < local,
                    local > 0,
            ;
        }
    }
}

/// The character of a decimal digit.
pub open spec fn digit_char(d: nat) -> char {
    if d == 0 {
        '0'
    } else if d == 1 {
        '1'
    } else if d == 2 {
        '2'
    } else if d == 3 {
        '3'
    } else if d == 4 {
        '4'
    } else if d == 5 {
        '5'
    } else if d == 6 {
        '6'
    } else if d == 7 {
        '7'
    } else if d == 8 {
        '8'
    } else {
        '9'
    }
}

/// The decimal notation of `v`, without leading zeros.
pub open spec fn decimal_of(v: nat) -> Seq<char>
    decreases v,
{
    if v < 10 {
        seq![digit_char(v)]
    } else {
        decimal_of(v / 10) + seq![digit_char(v % 10)]
    }
}

fn digit_str(d: usize) -> (r: &'static str)
    requires
        d < 10,
    ensures
        r@ == seq![digit_char(d as nat)],
{
    proof {
        reveal_strlit("0");
        reveal_strlit("1");
        reveal_strlit("2");
        reveal_strlit("3");
        reveal_strlit("4");
        reveal_strlit("5");
        reveal_strlit("6");
        reveal_strlit("7");
        reveal_strlit("8");
        reveal_strlit("9");
    }
    if d == 0 {
        "0"
    } else if d == 1 {
        "1"
    } else if d == 2 {
        "2"
    } else if d == 3 {
        "3"
    } else if d == 4 {
        "4"
    } else if d == 5 {
        "5"
    } else if d == 6 {
        "6"
    } else if d == 7 {
        "7"
    } else if d == 8 {
        "8"
    } else {
        "9"
    }
}

/// Renders `v` in decimal.
pub fn decimal(v: usize) -> (r: String)
    ensures
        r@ == decimal_of(v as nat),
    decreases v,
{
    if v < 10 {
        String::from_str(digit_str(v))
    } else {
        let mut s = decimal(v / 10);
        s.append(digit_str(v % 10));
        s
    }
}

} // verus!
