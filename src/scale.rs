use vstd::arithmetic::div_mod::{lemma_div_is_ordered, lemma_div_multiples_vanish};
use vstd::arithmetic::mul::lemma_mul_inequality;
use vstd::prelude::*;

verus! {

/// How an amplitude magnitude is turned into a pixel height.
#[derive(Debug, Clone, Copy, PartialEq, Eq, Structural)]
pub enum ScaleMode {
    Linear,
    Logarithm,
}

/// Number of entries of a base-2 logarithm table: one per magnitude of a
/// 16-bit sample span, `0..=65535`.
pub const LOG2_TABLE_LEN: usize = 65536;

/// A usable logarithm table: one entry per magnitude, never decreasing from
/// magnitude one on (entry zero is never read).
pub open spec fn log2_table_ok(t: Seq<u64>) -> bool {
    &&& t.len() == LOG2_TABLE_LEN
    &&& forall|i: int, j: int| 1 <= i <= j < LOG2_TABLE_LEN ==> #[trigger] t[i] <= #[trigger] t[j]
}

/// Base-2 logarithms of the magnitudes `0..=65535` in fixed point: entry `v`
/// is `log2(v)` times a fixed power of two, rounded down. Only ratios of
/// entries are used, so the power of two is the caller's choice.
pub struct Log2Table {
    values: Vec<u64>,
}

impl View for Log2Table {
    type V = Seq<u64>;

    closed spec fn view(&self) -> Seq<u64> {
        self.values@
    }
}

impl Log2Table {
    #[verifier::type_invariant]
    closed spec fn inv(self) -> bool {
        log2_table_ok(self.values@)
    }

    /// Takes the table over, when it has one entry per magnitude and never
    /// decreases from magnitude one on.
    pub fn new(values: Vec<u64>) -> (r: Option<Log2Table>)
        ensures
            r is Some <==> log2_table_ok(values@),
            r is Some ==> r.unwrap()@ == values@,
    {
        if values.len() != LOG2_TABLE_LEN {
            return None;
        }
        let mut i: usize = 2;
        while i < LOG2_TABLE_LEN
            invariant
                2 <= i <= LOG2_TABLE_LEN,
                values@.len() == LOG2_TABLE_LEN,
                forall|a: int, b: int| 1 <= a <= b < i ==> #[trigger] values@[a] <= #[trigger] values@[b],
            decreases LOG2_TABLE_LEN - i,
        {
            if values[i - 1] > values[i] {
                return None;
            }
            i = i + 1;
        }
        Some(Log2Table { values })
    }

    /// The entry of magnitude `v`.
    pub fn at(&self, v: u32) -> (r: u64)
        requires
            v < LOG2_TABLE_LEN,
        ensures
            r == self@[v as int],
    {
        proof {
            use_type_invariant(self);
        }
        self.values[v as usize]
    }
}

/// Height in pixels of magnitude `v`, on a plot `plot` pixels high whose top
/// stands for magnitude `max_value`. Linear: `plot * v / max_value` rounded
/// down. Logarithm: `log2(v) / log2(max_value)` of the plot, rounded down,
/// and nothing below magnitude one.
pub open spec fn scaled_height(v: int, plot: int, max_value: int, scale: ScaleMode, log2: Seq<u64>) -> int {
    match scale {
        ScaleMode::Linear => plot * v / max_value,
        ScaleMode::Logarithm => if v < 1 || log2[max_value] == 0 {
            0
        } else {
            plot * (log2[v] as int) / (log2[max_value] as int)
        },
    }
}

/// A scaled height never exceeds the plot, and never decreases as the
/// magnitude grows.
pub proof fn lemma_scaled_height_monotone(
    v1: int,
    v2: int,
    plot: int,
    max_value: int,
    scale: ScaleMode,
    log2: Seq<u64>,
)
    requires
        0 <= v1 <= v2 <= max_value,
        1 <= max_value < LOG2_TABLE_LEN,
        0 <= plot,
        log2_table_ok(log2),
    ensures
        0 <= scaled_height(v1, plot, max_value, scale, log2) <= scaled_height(v2, plot, max_value, scale, log2),
        scaled_height(v2, plot, max_value, scale, log2) <= plot,
{
    match scale {
        ScaleMode::Linear => {
            lemma_mul_inequality(v1, v2, plot);
            lemma_mul_inequality(v2, max_value, plot);
            lemma_mul_inequality(0, v1, plot);
            assert(plot * v1 == v1 * plot) by (nonlinear_arith);
            assert(plot * v2 == v2 * plot) by (nonlinear_arith);
            assert(plot * max_value == max_value * plot) by (nonlinear_arith);
            lemma_div_is_ordered(plot * v1, plot * v2, max_value);
            lemma_div_is_ordered(plot * v2, plot * max_value, max_value);
            lemma_div_is_ordered(0, plot * v1, max_value);
            lemma_div_multiples_vanish(plot, max_value);
            assert(max_value * plot == plot * max_value) by (nonlinear_arith);
        },
        ScaleMode::Logarithm => {
            let m = log2[max_value] as int;
            if m != 0 {
                if v1 >= 1 {
                    lemma_mul_inequality(log2[v1] as int, log2[v2] as int, plot);
                    lemma_mul_inequality(0, log2[v1] as int, plot);
                    assert(plot * (log2[v1] as int) == (log2[v1] as int) * plot) by (nonlinear_arith);
                    assert(plot * (log2[v2] as int) == (log2[v2] as int) * plot) by (nonlinear_arith);
                    lemma_div_is_ordered(plot * (log2[v1] as int), plot * (log2[v2] as int), m);
                    lemma_div_is_ordered(0, plot * (log2[v1] as int), m);
                }
                if v2 >= 1 {
                    lemma_mul_inequality(log2[v2] as int, m, plot);
                    lemma_mul_inequality(0, log2[v2] as int, plot);
                    assert(plot * (log2[v2] as int) == (log2[v2] as int) * plot) by (nonlinear_arith);
                    assert(plot * m == m * plot) by (nonlinear_arith);
                    lemma_div_is_ordered(plot * (log2[v2] as int), plot * m, m);
                    lemma_div_is_ordered(0, plot * (log2[v2] as int), m);
                    lemma_div_multiples_vanish(plot, m);
                    assert(m * plot == plot * m) by (nonlinear_arith);
                }
            }
        },
    }
}

/// Height in pixels of magnitude `v` (see `scaled_height`); a magnitude
/// under one has no height on the logarithmic scale.
pub fn scale_height(v: u32, plot: u32, max_value: u32, scale: ScaleMode, log2: &Log2Table) -> (r: u32)
    requires
        v <= max_value,
        1 <= max_value < LOG2_TABLE_LEN,
    ensures
        r == scaled_height(v as int, plot as int, max_value as int, scale, log2@),
        r <= plot,
        scale == ScaleMode::Logarithm && v < 1 ==> r == 0,
        log2_table_ok(log2@),
{
    proof {
        use_type_invariant(log2);
        lemma_scaled_height_monotone(v as int, v as int, plot as int, max_value as int, scale, log2@);
    }
    match scale {
        ScaleMode::Linear => {
            assert((plot as int) * (v as int) <= 0xffff_ffff * 0xffff) by (nonlinear_arith)
                requires
                    plot <= 0xffff_ffff,
                    v <= 0xffff,
            ;
            ((plot as u64) * (v as u64) / (max_value as u64)) as u32
        },
        ScaleMode::Logarithm => {
            let m = log2.at(max_value);
            if v < 1 || m == 0 {
                0
            } else {
                let t = log2.at(v);
                assert((plot as int) * (t as int) <= 0xffff_ffff * 0xffff_ffff_ffff_ffff)
                    by (nonlinear_arith)
                    requires
                        plot <= 0xffff_ffff,
                        t <= 0xffff_ffff_ffff_ffff,
                ;
                ((plot as u128) * (t as u128) / (m as u128)) as u32
            }
        },
    }
}

} // verus!
