//! The prover: commits to the traces, derives the challenges, computes and
//! commits to the quotients, and opens both commitments at the
//! out-of-domain point.
use crate::config::{
    is_matrix_wf, matrices_data, matrices_wf, opening_view, rows_view, rows_wf, Committed,
    MatrixData, Opened, StarkConfig, Val,
};
use crate::extension::{
    all_ext_wf, exp_power_of_2 as ext_exp_power_of_2,
    exp_power_of_2_spec as ext_exp_power_of_2_spec, scale, scale_spec, ExtensionField,
};
use crate::field::{all_wf, exp_power_of_2, pow, Field};
use crate::flatten::{decompose_and_flatten, decompose_and_flatten_spec, flattened_width};
use crate::matrix::{
    lemma_entry_in_bounds, lemma_strided_height, rows_of, strided_values, RowMajorMatrix,
};
use crate::quotient::{domain_valid, is_domain_valid, quotient_values, quotient_values_spec};
use crate::stark_proof::{Commitments, OpenedValues, Proof};
use crate::symbolic::Air;
use crate::util::{
    checked_pow2, copy_vec, is_power_of_two, lemma_log2_pow2, lemma_pow2_fits, log2_exact,
    log2_spec, log2_strict_usize, pow2_usize,
};
use vstd::arithmetic::div_mod::{lemma_div_multiples_vanish, lemma_fundamental_div_mod};
use vstd::arithmetic::power2::{lemma_pow2_adds, lemma_pow2_pos, lemma_pow2_strictly_increases, pow2};
use vstd::prelude::*;

verus! {

/// The flattened parts of the quotient of `air`, computed from the
/// low-degree extension `lde` of its trace of `2^degree_bits` rows: the
/// extension is thinned out to the `2^log_quotient_degree`-fold domain, the
/// quotient is evaluated there, decomposed and flattened.
pub open spec fn quotient_matrix_spec<SC: StarkConfig>(
    config: SC,
    air: Air<Val<SC>>,
    degree_bits: nat,
    lde: MatrixData<Val<SC>>,
    alpha: SC::Challenge,
) -> MatrixData<Val<SC>> {
    let log_quotient_degree = air.log_quotient_degree_spec();
    let shift = config.coset_shift_spec();
    let stride = pow2((config.log_blowup_spec() - log_quotient_degree) as nat);
    let strided = MatrixData {
        values: strided_values(lde.values, lde.width, stride, 0),
        width: lde.width,
    };
    MatrixData {
        values: decompose_and_flatten_spec(
            quotient_values_spec(
                air.constraints@,
                degree_bits,
                log_quotient_degree,
                shift,
                strided,
                alpha,
            ),
            shift,
            log_quotient_degree,
        ),
        width: flattened_width::<SC::Challenge>(log_quotient_degree),
    }
}

/// What the prover computes on the way to a proof.
pub struct ProverTranscript<SC: StarkConfig> {
    /// The commitment to the traces.
    pub trace: Committed<SC::Commitment, SC::ProverData>,
    /// The challenge that folds the constraints.
    pub alpha: SC::Challenge,
    /// The flattened parts of the quotient of each arithmetization.
    pub quotient_matrices: Seq<MatrixData<Val<SC>>>,
    /// The commitment to the quotient parts.
    pub quotient: Committed<SC::Commitment, SC::ProverData>,
    /// The out-of-domain point.
    pub zeta: SC::Challenge,
    /// For each trace the points `zeta` and `zeta * g`.
    pub trace_points: Seq<Seq<SC::Challenge>>,
    /// For each quotient the point `zeta^k`.
    pub quotient_points: Seq<Seq<SC::Challenge>>,
    /// The opening of both commitments.
    pub opened: Opened<SC::Challenge, SC::OpeningProof, SC::Challenger>,
}

/// The binary logarithm of the height of trace `i`.
pub open spec fn degree_bits_spec<F: Field>(traces: Seq<RowMajorMatrix<F>>, i: int) -> nat {
    log2_spec(traces[i].height_spec())
}

/// The points at which the traces are opened: `zeta` and `zeta * g`.
pub open spec fn trace_points_spec<SC: StarkConfig>(
    traces: Seq<RowMajorMatrix<Val<SC>>>,
    zeta: SC::Challenge,
) -> Seq<Seq<SC::Challenge>> {
    Seq::new(
        traces.len(),
        |i: int|
            seq![
                zeta,
                scale_spec(zeta, Val::<SC>::generator_spec(degree_bits_spec(traces, i))),
            ],
    )
}

/// The points at which the quotient parts are opened: `zeta^k`.
pub open spec fn quotient_points_spec<E: ExtensionField>(
    count: nat,
    zeta: E,
    log_quotient_degree: nat,
) -> Seq<Seq<E>> {
    Seq::new(count, |i: int| seq![ext_exp_power_of_2_spec(zeta, log_quotient_degree)])
}

/// The run of the protocol on the prover's side, from the state
/// `challenger` of the transcript.
pub open spec fn prover_transcript<SC: StarkConfig>(
    config: SC,
    airs: Seq<Air<Val<SC>>>,
    challenger: SC::Challenger,
    traces: Seq<RowMajorMatrix<Val<SC>>>,
) -> ProverTranscript<SC> {
    let trace = config.commit_batches_spec(matrices_data(traces));
    let sampled_alpha = config.sample_ext_element_spec(
        config.observe_spec(challenger, trace.commitment),
    );
    let alpha = sampled_alpha.0;
    let ldes = config.ldes_spec(trace.data);
    let quotient_matrices = Seq::new(
        airs.len(),
        |i: int| quotient_matrix_spec(config, airs[i], degree_bits_spec(traces, i), ldes[i], alpha),
    );
    let log_quotient_degree = airs[0].log_quotient_degree_spec();
    let quotient = config.commit_shifted_batches_spec(
        quotient_matrices,
        pow(config.coset_shift_spec(), pow2(log_quotient_degree)),
    );
    let sampled_zeta = config.sample_ext_element_spec(
        config.observe_spec(sampled_alpha.1, quotient.commitment),
    );
    let zeta = sampled_zeta.0;
    let trace_points = trace_points_spec::<SC>(traces, zeta);
    let quotient_points = quotient_points_spec(airs.len(), zeta, log_quotient_degree);
    ProverTranscript {
        trace,
        alpha,
        quotient_matrices,
        quotient,
        zeta,
        trace_points,
        quotient_points,
        opened: config.open_multi_batches_spec(
            trace.data,
            trace_points,
            quotient.data,
            quotient_points,
            sampled_zeta.1,
        ),
    }
}

/// The arithmetizations and the traces fit each other and the
/// configuration: as many traces as arithmetizations, each trace as wide as
/// its arithmetization and a power of two high, one number of quotient parts
/// for all, no more than the blow-up of the commitment scheme, and every
/// extended domain, that of the scheme and that of the quotient, valid.
pub open spec fn prover_inputs_valid<SC: StarkConfig>(
    config: SC,
    airs: Seq<Air<Val<SC>>>,
    traces: Seq<RowMajorMatrix<Val<SC>>>,
) -> bool {
    let shift = config.coset_shift_spec();
    let log_blowup = config.log_blowup_spec();
    &&& airs.len() == traces.len()
    &&& airs.len() >= 1
    &&& matrices_wf(traces)
    &&& shift != Val::<SC>::zero_spec()
    &&& pow2(log_blowup) <= usize::MAX
    &&& flattened_width::<SC::Challenge>(airs[0].log_quotient_degree_spec()) <= usize::MAX
    &&& forall|i: int|
        0 <= i < airs.len() ==> {
            &&& (#[trigger] airs[i]).wf()
            &&& airs[i].width == traces[i].width
            &&& is_power_of_two(traces[i].height_spec())
            &&& airs[i].log_quotient_degree_spec() == airs[0].log_quotient_degree_spec()
            &&& airs[i].log_quotient_degree_spec() <= log_blowup
            &&& degree_bits_spec(traces, i) + log_blowup <= Val::<SC>::two_adicity()
            &&& pow2(degree_bits_spec(traces, i) + log_blowup) <= usize::MAX
            &&& domain_valid(
                degree_bits_spec(traces, i),
                airs[i].log_quotient_degree_spec(),
                shift,
            )
        }
}

/// Whether arithmetization `air` and its trace fit each other and the
/// configuration, for `log_quotient_degree` quotient parts in all.
fn check_pair<SC: StarkConfig>(
    config: &SC,
    air: &Air<Val<SC>>,
    trace: &RowMajorMatrix<Val<SC>>,
    log_quotient_degree: usize,
) -> (b: bool)
    ensures
        b == {
            let degree_bits = log2_spec(trace.height_spec());
            &&& trace.wf()
            &&& all_wf(trace.values@)
            &&& air.wf()
            &&& air.width == trace.width
            &&& is_power_of_two(trace.height_spec())
            &&& air.log_quotient_degree_spec() == log_quotient_degree
            &&& air.log_quotient_degree_spec() <= config.log_blowup_spec()
            &&& degree_bits + config.log_blowup_spec() <= Val::<SC>::two_adicity()
            &&& pow2(degree_bits + config.log_blowup_spec()) <= usize::MAX
            &&& domain_valid(degree_bits, air.log_quotient_degree_spec(), config.coset_shift_spec())
        },
{
    if !is_matrix_wf(trace) || !air.is_wf() || air.width() != trace.width() {
        return false;
    }
    let degree_bits = match log2_strict_usize(trace.height()) {
        Some(k) => k,
        None => {
            return false;
        },
    };
    proof {
        lemma_log2_pow2(degree_bits as nat);
    }
    let log_blowup = config.log_blowup();
    if air.get_log_quotient_degree() != log_quotient_degree || log_quotient_degree > log_blowup {
        return false;
    }
    if degree_bits > usize::MAX - log_blowup {
        proof {
            if pow2(degree_bits as nat + log_blowup as nat) <= usize::MAX {
                lemma_pow2_fits(degree_bits as nat + log_blowup as nat);
            }
        }
        return false;
    }
    degree_bits + log_blowup <= Val::<SC>::max_two_adic_bits() && checked_pow2(
        degree_bits + log_blowup,
    ).is_some() && is_domain_valid(
        degree_bits,
        log_quotient_degree,
        config.coset_shift(),
    )
}

/// Whether the arithmetizations and the traces fit each other and the
/// configuration, as `prove` asks.
pub fn check_prover_inputs<SC: StarkConfig>(
    config: &SC,
    air: &Vec<Air<Val<SC>>>,
    trace: &Vec<RowMajorMatrix<Val<SC>>>,
) -> (b: bool)
    ensures
        b == prover_inputs_valid(*config, air@, trace@),
{
    let count = air.len();
    if trace.len() != count || count == 0 {
        return false;
    }
    proof {
        Val::<SC>::lemma_constants();
        SC::Challenge::lemma_dimension();
    }
    let shift = config.coset_shift();
    if shift.is_equal(Val::<SC>::zero()) || checked_pow2(config.log_blowup()).is_none() {
        return false;
    }
    let log_quotient_degree = air[0].get_log_quotient_degree();
    let dimension = SC::Challenge::degree();
    let ghost k = pow2(log_quotient_degree as nat);
    match checked_pow2(log_quotient_degree) {
        Some(quotient_degree) => {
            if quotient_degree > usize::MAX / dimension {
                proof {
                    assert(k * dimension > usize::MAX) by (nonlinear_arith)
                        requires
                            k > usize::MAX / dimension,
                            dimension >= 1,
                    ;
                }
                return false;
            }
            proof {
                assert(k * dimension <= usize::MAX) by (nonlinear_arith)
                    requires
                        k <= usize::MAX / dimension,
                        dimension >= 1,
                        k >= 0,
                ;
            }
        },
        None => {
            proof {
                assert(k * dimension >= k) by (nonlinear_arith)
                    requires
                        dimension >= 1,
                        k >= 0,
                ;
            }
            return false;
        },
    }
    let mut i: usize = 0;
    while i < count
        invariant
            i <= count,
            count == air@.len(),
            count == trace@.len(),
            log_quotient_degree == air@[0].log_quotient_degree_spec(),
            forall|j: int|
                0 <= j < i ==> {
                    &&& (#[trigger] trace@[j]).wf()
                    &&& all_wf(trace@[j].values@)
                    &&& air@[j].wf()
                    &&& air@[j].width == trace@[j].width
                    &&& is_power_of_two(trace@[j].height_spec())
                    &&& air@[j].log_quotient_degree_spec() == air@[0].log_quotient_degree_spec()
                    &&& air@[j].log_quotient_degree_spec() <= config.log_blowup_spec()
                    &&& degree_bits_spec(trace@, j) + config.log_blowup_spec()
                        <= Val::<SC>::two_adicity()
                    &&& pow2(degree_bits_spec(trace@, j) + config.log_blowup_spec())
                        <= usize::MAX
                    &&& domain_valid(
                        degree_bits_spec(trace@, j),
                        air@[j].log_quotient_degree_spec(),
                        config.coset_shift_spec(),
                    )
                },
        decreases count - i,
    {
        if !check_pair(config, &air[i], &trace[i], log_quotient_degree) {
            proof {
                let j = i as int;
                assert(!(air@[j].wf() && matrices_wf(trace@) && air@[j].width == trace@[j].width
                    && is_power_of_two(trace@[j].height_spec())
                    && air@[j].log_quotient_degree_spec() == air@[0].log_quotient_degree_spec()
                    && air@[j].log_quotient_degree_spec() <= config.log_blowup_spec()
                    && degree_bits_spec(trace@, j) + config.log_blowup_spec()
                    <= Val::<SC>::two_adicity() && pow2(
                    degree_bits_spec(trace@, j) + config.log_blowup_spec(),
                ) <= usize::MAX && domain_valid(
                    degree_bits_spec(trace@, j),
                    air@[j].log_quotient_degree_spec(),
                    config.coset_shift_spec(),
                ))) by {
                    if matrices_wf(trace@) {
                        assert(trace@[j].wf() && all_wf(trace@[j].values@));
                    }
                }
            }
            return false;
        }
        i += 1;
    }
    proof {
        assert(matrices_wf(trace@));
        assert forall|i: int| 0 <= i < air@.len() implies {
            &&& (#[trigger] air@[i]).wf()
            &&& air@[i].width == trace@[i].width
            &&& is_power_of_two(trace@[i].height_spec())
            &&& air@[i].log_quotient_degree_spec() == air@[0].log_quotient_degree_spec()
            &&& air@[i].log_quotient_degree_spec() <= config.log_blowup_spec()
            &&& degree_bits_spec(trace@, i) + config.log_blowup_spec() <= Val::<SC>::two_adicity()
            &&& pow2(degree_bits_spec(trace@, i) + config.log_blowup_spec()) <= usize::MAX
            &&& domain_valid(
                degree_bits_spec(trace@, i),
                air@[i].log_quotient_degree_spec(),
                config.coset_shift_spec(),
            )
        } by {
            assert(trace@[i].wf());
        }
    }
    true
}

/// Proves as `prove` does where the arithmetizations and the traces fit each
/// other and the configuration, and returns `None`, with the transcript
/// untouched, where they do not.
pub fn try_prove<SC: StarkConfig>(
    config: &SC,
    air: &Vec<Air<Val<SC>>>,
    challenger: &mut SC::Challenger,
    trace: Vec<RowMajorMatrix<Val<SC>>>,
) -> (r: Option<Proof<SC>>)
    ensures
        r is Some <==> prover_inputs_valid(*config, air@, trace@),
        r matches Some(proof) ==> proof.matches(
            prover_transcript(*config, air@, *old(challenger), trace@),
            trace@,
        ) && *final(challenger) == prover_transcript(
            *config,
            air@,
            *old(challenger),
            trace@,
        ).opened.challenger,
        r is None ==> *final(challenger) == *old(challenger),
{
    if check_prover_inputs(config, air, &trace) {
        Some(prove(config, air, challenger, trace))
    } else {
        None
    }
}

/// The flattened parts of the quotient of `air`, from the low-degree
/// extension `lde` of its trace on the scheme's full extended domain.
pub fn quotient_matrix<SC: StarkConfig>(
    config: &SC,
    air: &Air<Val<SC>>,
    degree_bits: usize,
    lde: &RowMajorMatrix<Val<SC>>,
    alpha: SC::Challenge,
) -> (r: RowMajorMatrix<Val<SC>>)
    requires
        air.wf(),
        lde.wf(),
        all_wf(lde.values@),
        lde.width == air.width,
        lde.height_spec() == pow2(degree_bits as nat + config.log_blowup_spec()),
        air.log_quotient_degree_spec() <= config.log_blowup_spec(),
        pow2(config.log_blowup_spec()) <= usize::MAX,
        domain_valid(
            degree_bits as nat,
            air.log_quotient_degree_spec(),
            config.coset_shift_spec(),
        ),
        config.coset_shift_spec() != Val::<SC>::zero_spec(),
        flattened_width::<SC::Challenge>(air.log_quotient_degree_spec()) <= usize::MAX,
        alpha.wf(),
    ensures
        r.data() == quotient_matrix_spec(*config, *air, degree_bits as nat, lde.data(), alpha),
        r.wf(),
        all_wf(r.values@),
{
    let log_quotient_degree = air.get_log_quotient_degree();
    let log_blowup = config.log_blowup();
    let log_stride = log_blowup - log_quotient_degree;
    proof {
        let (n, k, s) = (degree_bits as nat, log_quotient_degree as nat, log_stride as nat);
        lemma_pow2_pos(s);
        if s < log_blowup {
            lemma_pow2_strictly_increases(s, log_blowup as nat);
        }
        // 2^(n + b) = 2^(n + k) * 2^s
        lemma_pow2_adds(n + k, s);
        assert(n + k + s == n + log_blowup);
        lemma_strided_height(pow2(n + k), pow2(s));
        lemma_log2_pow2(n + k);
    }
    let stride = pow2_usize(log_stride);
    let strided = lde.vertically_strided(stride, 0);
    proof {
        assert(strided.data() == MatrixData {
            values: strided_values(lde.values@, lde.width as nat, stride as nat, 0),
            width: lde.width as nat,
        });
        assert forall|i: int| 0 <= i < strided.values@.len() implies (
        #[trigger] strided.values@[i]).wf() by {
            let w = lde.width as int;
            let row = i / w;
            let col = i % w;
            lemma_fundamental_div_mod(i, w);
            assert(w * row == row * w) by (nonlinear_arith);
            assert(row < strided.height_spec()) by (nonlinear_arith)
                requires
                    row * w + col < strided.height_spec() * w,
                    0 <= col < w,
            ;
            assert(0 <= row) by (nonlinear_arith)
                requires
                    0 <= i,
                    w > 0,
                    row == i / w,
            ;
            assert(strided.at(row, col) == lde.at(0 + row * stride, col));
            assert(row * stride < lde.height_spec()) by (nonlinear_arith)
                requires
                    row < strided.height_spec(),
                    strided.height_spec() * stride == lde.height_spec(),
                    stride > 0,
                    row >= 0,
            ;
            lde.lemma_len();
            lemma_entry_in_bounds(
                w,
                lde.height_spec() as int,
                row * stride,
                col,
            );
        }
    }
    let values = quotient_values(config, air, degree_bits, log_quotient_degree, &strided, alpha);
    decompose_and_flatten(values, config.coset_shift(), log_quotient_degree)
}

impl<SC: StarkConfig> Proof<SC> {
    /// The proof holds what the run `t` of the protocol on `traces` gave: the
    /// two commitments, the opening proof, the logarithm of each trace's
    /// height, and for each trace the opened values of its columns at `zeta`
    /// and at `zeta * g` and of its quotient parts at `zeta^k`.
    pub open spec fn matches(
        &self,
        t: ProverTranscript<SC>,
        traces: Seq<RowMajorMatrix<Val<SC>>>,
    ) -> bool {
        &&& self.commitments.trace == t.trace.commitment
        &&& self.commitments.quotient_chunks == t.quotient.commitment
        &&& self.opening_proof == t.opened.proof
        &&& self.degree_bits@.len() == traces.len()
        &&& forall|i: int|
            0 <= i < traces.len() ==> #[trigger] self.degree_bits@[i] == degree_bits_spec(
                traces,
                i,
            )
        &&& self.opened_values.trace_local@.len() == traces.len()
        &&& self.opened_values.trace_next@.len() == traces.len()
        &&& self.opened_values.quotient_chunks@.len() == traces.len()
        &&& forall|i: int|
            0 <= i < traces.len() ==> {
                &&& (#[trigger] self.opened_values.trace_local@[i])@ == t.opened.values[0][i][0]
                &&& self.opened_values.trace_next@[i]@ == t.opened.values[0][i][1]
                &&& self.opened_values.quotient_chunks@[i]@ == t.opened.values[1][i][0]
            }
    }
}

/// The binary logarithms of the heights of the traces.
pub fn trace_degree_bits<F: Field>(traces: &Vec<RowMajorMatrix<F>>) -> (r: Vec<usize>)
    requires
        forall|i: int| 0 <= i < traces@.len() ==> is_power_of_two((#[trigger] traces@[i]).height_spec()),
    ensures
        r@.len() == traces@.len(),
        forall|i: int| 0 <= i < traces@.len() ==> #[trigger] r@[i] == degree_bits_spec(traces@, i),
{
    let mut r: Vec<usize> = Vec::new();
    let mut i: usize = 0;
    while i < traces.len()
        invariant
            i <= traces@.len(),
            forall|j: int|
                0 <= j < traces@.len() ==> is_power_of_two((#[trigger] traces@[j]).height_spec()),
            r@.len() == i,
            forall|j: int| 0 <= j < i ==> #[trigger] r@[j] == degree_bits_spec(traces@, j),
        decreases traces@.len() - i,
    {
        r.push(log2_exact(traces[i].height()));
        i += 1;
    }
    r
}

/// Proves that each trace satisfies its arithmetization.
///
/// The proof and the state in which the transcript is left are those of
/// `prover_transcript`: functions of the configuration, the arithmetizations,
/// the transcript's state and the traces alone.
pub fn prove<SC: StarkConfig>(
    config: &SC,
    air: &Vec<Air<Val<SC>>>,
    challenger: &mut SC::Challenger,
    trace: Vec<RowMajorMatrix<Val<SC>>>,
) -> (proof: Proof<SC>)
    requires
        prover_inputs_valid(*config, air@, trace@),
    ensures
        proof.matches(prover_transcript(*config, air@, *old(challenger), trace@), trace@),
        *final(challenger) == prover_transcript(
            *config,
            air@,
            *old(challenger),
            trace@,
        ).opened.challenger,
{
    let ghost traces = trace@;
    let ghost airs = air@;
    let ghost t = prover_transcript(*config, airs, *challenger, traces);
    let count = trace.len();
    proof {
        assert forall|i: int| 0 <= i < traces.len() implies is_power_of_two(
            (#[trigger] traces[i]).height_spec(),
        ) by {
            assert(airs[i].wf());
        }
        assert(airs[0].wf());
    }
    let log_degrees = trace_degree_bits(&trace);
    let log_quotient_degree = air[0].get_log_quotient_degree();

    let (trace_commit, trace_data) = config.commit_batches(trace);
    config.observe(challenger, &trace_commit);
    let alpha = config.sample_ext_element(challenger);
    let ghost after_alpha = *challenger;

    let trace_ldes = config.get_ldes(&trace_data);
    proof {
        assert(trace_ldes@.len() == count) by {
            assert(matrices_data(trace_ldes@).len() == trace_ldes@.len());
        }
    }
    let mut quotient_chunks_flattened_all: Vec<RowMajorMatrix<Val<SC>>> = Vec::new();
    let mut i: usize = 0;
    while i < count
        invariant
            i <= count,
            count == traces.len(),
            airs == air@,
            prover_inputs_valid(*config, airs, traces),
            alpha == t.alpha,
            alpha.wf(),
            log_degrees@.len() == count,
            forall|j: int| 0 <= j < count ==> #[trigger] log_degrees@[j] == degree_bits_spec(traces, j),
            trace_ldes@.len() == count,
            matrices_wf(trace_ldes@),
            matrices_data(trace_ldes@) == config.ldes_spec(t.trace.data),
            forall|j: int|
                0 <= j < count ==> (#[trigger] config.ldes_spec(t.trace.data)[j]).width
                    == traces[j].width && config.ldes_spec(t.trace.data)[j].values.len()
                    == traces[j].values@.len() * pow2(config.log_blowup_spec()),
            t.quotient_matrices.len() == count,
            forall|j: int|
                0 <= j < count ==> #[trigger] t.quotient_matrices[j] == quotient_matrix_spec(
                    *config,
                    airs[j],
                    degree_bits_spec(traces, j),
                    config.ldes_spec(t.trace.data)[j],
                    t.alpha,
                ),
            quotient_chunks_flattened_all@.len() == i,
            matrices_wf(quotient_chunks_flattened_all@),
            forall|j: int|
                0 <= j < i ==> (#[trigger] quotient_chunks_flattened_all@[j]).data()
                    == t.quotient_matrices[j],
        decreases count - i,
    {
        let lde = &trace_ldes[i];
        proof {
            let j = i as int;
            assert(airs[j].wf());
            assert(lde.data() == matrices_data(trace_ldes@)[j]);
            assert(lde.data() == config.ldes_spec(t.trace.data)[j]);
            assert(matrices_data(traces)[j] == traces[j].data());
            traces[j].lemma_len();
            lemma_pow2_pos(degree_bits_spec(traces, j));
            assert(pow2(degree_bits_spec(traces, j)) == traces[j].height_spec());
            lemma_lde_height(
                traces[j].values@.len(),
                traces[j].width as nat,
                degree_bits_spec(traces, j),
                config.log_blowup_spec(),
            );
            assert(traces[j].wf());
        }
        let matrix = quotient_matrix(config, &air[i], log_degrees[i], lde, alpha);
        quotient_chunks_flattened_all.push(matrix);
        i += 1;
    }
    proof {
        assert(matrices_data(quotient_chunks_flattened_all@) =~= t.quotient_matrices);
    }
    let shift_power = exp_power_of_2(config.coset_shift(), log_quotient_degree);
    let (quotient_commit, quotient_data) = config.commit_shifted_batches(
        quotient_chunks_flattened_all,
        shift_power,
    );
    config.observe(challenger, &quotient_commit);
    let zeta = config.sample_ext_element(challenger);
    let zeta_power = ext_exp_power_of_2(zeta, log_quotient_degree);

    let mut trace_points: Vec<Vec<SC::Challenge>> = Vec::new();
    let mut quotient_points: Vec<Vec<SC::Challenge>> = Vec::new();
    let mut i: usize = 0;
    while i < count
        invariant
            i <= count,
            count == traces.len(),
            prover_inputs_valid(*config, airs, traces),
            zeta == t.zeta,
            zeta.wf(),
            zeta_power.wf(),
            zeta_power == ext_exp_power_of_2_spec(t.zeta, airs[0].log_quotient_degree_spec()),
            log_degrees@.len() == count,
            forall|j: int| 0 <= j < count ==> #[trigger] log_degrees@[j] == degree_bits_spec(traces, j),
            trace_points@.len() == i,
            quotient_points@.len() == i,
            rows_wf(rows_view(trace_points@)),
            rows_wf(rows_view(quotient_points@)),
            forall|j: int|
                0 <= j < i ==> (#[trigger] trace_points@[j])@ == trace_points_spec::<SC>(
                    traces,
                    t.zeta,
                )[j],
            forall|j: int|
                0 <= j < i ==> (#[trigger] quotient_points@[j])@ == seq![zeta_power],
        decreases count - i,
    {
        proof {
            assert(airs[i as int].wf());
            Val::<SC>::lemma_generator(degree_bits_spec(traces, i as int));
        }
        let g = Val::<SC>::two_adic_generator(log_degrees[i]);
        let next_point = scale(zeta, g);
        let ghost before_trace = trace_points@;
        let ghost before_quotient = quotient_points@;
        let mut at_trace: Vec<SC::Challenge> = Vec::new();
        at_trace.push(zeta);
        at_trace.push(next_point);
        let mut at_quotient: Vec<SC::Challenge> = Vec::new();
        at_quotient.push(zeta_power);
        proof {
            assert(at_trace@ =~= trace_points_spec::<SC>(traces, t.zeta)[i as int]);
            assert(at_quotient@ =~= seq![zeta_power]);
        }
        trace_points.push(at_trace);
        quotient_points.push(at_quotient);
        proof {
            assert forall|j: int| 0 <= j < rows_view(trace_points@).len() implies all_ext_wf(
                #[trigger] rows_view(trace_points@)[j],
            ) by {
                if j < i {
                    assert(rows_view(trace_points@)[j] == rows_view(before_trace)[j]);
                }
            }
            assert forall|j: int| 0 <= j < rows_view(quotient_points@).len() implies all_ext_wf(
                #[trigger] rows_view(quotient_points@)[j],
            ) by {
                if j < i {
                    assert(rows_view(quotient_points@)[j] == rows_view(before_quotient)[j]);
                }
            }
        }
        i += 1;
    }
    proof {
        assert(rows_view(trace_points@) =~= t.trace_points);
        assert(rows_view(quotient_points@) =~= t.quotient_points);
    }
    let (opened, opening_proof) = config.open_multi_batches(
        &trace_data,
        &trace_points,
        &quotient_data,
        &quotient_points,
        challenger,
    );

    let mut trace_local: Vec<Vec<SC::Challenge>> = Vec::new();
    let mut trace_next: Vec<Vec<SC::Challenge>> = Vec::new();
    let mut quotient_chunks: Vec<Vec<SC::Challenge>> = Vec::new();
    let mut i: usize = 0;
    while i < count
        invariant
            i <= count,
            opened@.len() == 2,
            opened@[0]@.len() == count,
            opened@[1]@.len() == count,
            forall|j: int| 0 <= j < count ==> (#[trigger] opened@[0]@[j])@.len() == 2,
            forall|j: int| 0 <= j < count ==> (#[trigger] opened@[1]@[j])@.len() == 1,
            opening_view(opened@) == t.opened.values,
            trace_local@.len() == i,
            trace_next@.len() == i,
            quotient_chunks@.len() == i,
            forall|j: int|
                0 <= j < i ==> {
                    &&& (#[trigger] trace_local@[j])@ == t.opened.values[0][j][0]
                    &&& trace_next@[j]@ == t.opened.values[0][j][1]
                    &&& quotient_chunks@[j]@ == t.opened.values[1][j][0]
                },
        decreases count - i,
    {
        proof {
            let j = i as int;
            assert(opening_view(opened@)[0][j][0] == opened@[0]@[j]@[0]@);
            assert(opening_view(opened@)[0][j][1] == opened@[0]@[j]@[1]@);
            assert(opening_view(opened@)[1][j][0] == opened@[1]@[j]@[0]@);
        }
        trace_local.push(copy_vec(&opened[0][i][0]));
        trace_next.push(copy_vec(&opened[0][i][1]));
        quotient_chunks.push(copy_vec(&opened[1][i][0]));
        i += 1;
    }
    let proof = Proof {
        commitments: Commitments { trace: trace_commit, quotient_chunks: quotient_commit },
        opened_values: OpenedValues { trace_local, trace_next, quotient_chunks },
        opening_proof,
        degree_bits: log_degrees,
    };
    proof {
        assert(proof.commitments.trace == t.trace.commitment);
        assert(proof.commitments.quotient_chunks == t.quotient.commitment);
        assert(proof.opening_proof == t.opened.proof);
        assert(*challenger == t.opened.challenger);
        assert forall|i: int| 0 <= i < traces.len() implies {
            &&& (#[trigger] proof.opened_values.trace_local@[i])@ == t.opened.values[0][i][0]
            &&& proof.opened_values.trace_next@[i]@ == t.opened.values[0][i][1]
            &&& proof.opened_values.quotient_chunks@[i]@ == t.opened.values[1][i][0]
        } by {}
        assert forall|i: int| 0 <= i < traces.len() implies #[trigger] proof.degree_bits@[i]
            == degree_bits_spec(traces, i) by {}
        assert(proof.matches(t, traces));
    }
    proof
}

/// The low-degree extension of a trace of `2^degree_bits` rows has
/// `2^(degree_bits + log_blowup)` rows.
proof fn lemma_lde_height(len: nat, width: nat, degree_bits: nat, log_blowup: nat)
    requires
        width > 0,
        len == pow2(degree_bits) * width,
    ensures
        rows_of(len * pow2(log_blowup), width) == pow2(degree_bits + log_blowup),
{
    lemma_pow2_adds(degree_bits, log_blowup);
    let h = pow2(degree_bits + log_blowup) as int;
    assert(len * pow2(log_blowup) == width * h) by (nonlinear_arith)
        requires
            len == pow2(degree_bits) * width,
            h == pow2(degree_bits) * pow2(log_blowup),
    ;
    lemma_div_multiples_vanish(h, width as int);
}

} // verus!
