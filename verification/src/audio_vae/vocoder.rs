//! From spectrograms to waveforms.
use vstd::prelude::*;

use crate::array::Array;
use crate::audio_vae::causal_conv2d::{self, leaky_relu};
use crate::audio_vae::filters;
use crate::audio_vae::resample::{self, Activation1d, UpSample1d};
use crate::audio_vae::resnet::{self, load_conv, ResBlock1, LRELU_SLOPE};
use crate::error::Failure;
use crate::lemmas;
use crate::model::{self, BinOp, Dtype, TensorView, UnOp};
use crate::nn::conv1d::{Conv1d, ConvTranspose1d};
use crate::reals::{self, Functions};
use crate::scalar::{Scalar, INFINITY, MINUS_ONE, ONE, ZERO};
use crate::weights::{self, Weights, WeightsView};

verus! {

/// 0.01
pub const FINAL_SLOPE: Scalar = 0x3F84_7AE1_47AE_147B;

/// 1e-5
pub const MEL_FLOOR: Scalar = 0x3EE4_F8B5_88E3_68F1;

/// Whether a checkpoint holds the convolutions and the activations of a pair.
pub open spec fn amp_pair_present(channels: nat, kernel_size: nat, i: int, vb: WeightsView) -> bool {
    &&& resnet::pair_present(channels, kernel_size, i, vb)
    &&& Activation1d::present(channels, vb.pp("acts1"@).at(i as nat))
    &&& Activation1d::present(channels, vb.pp("acts2"@).at(i as nat))
}

/// Pairs of convolutions behind activations at twice the rate, each added to its input.
pub struct AmpBlock1 {
    pub convs1: Vec<Conv1d>,
    pub convs2: Vec<Conv1d>,
    pub acts1: Vec<Activation1d>,
    pub acts2: Vec<Activation1d>,
}

impl AmpBlock1 {
    /// Whether pair `i` is the one that a checkpoint holds.
    pub open spec fn pair_loaded(
        &self,
        i: int,
        kernel_size: nat,
        dilation: nat,
        vb: WeightsView,
    ) -> bool {
        &&& resnet::conv_loaded(self.convs1@[i], i as nat, kernel_size, dilation, vb.pp("convs1"@))
        &&& resnet::conv_loaded(self.convs2@[i], i as nat, kernel_size, 1, vb.pp("convs2"@))
        &&& self.acts1@[i].loaded(vb.pp("acts1"@).at(i as nat))
        &&& self.acts2@[i].loaded(vb.pp("acts2"@).at(i as nat))
    }

    /// Whether there are so many pairs.
    pub open spec fn has_pairs(&self, n: nat) -> bool {
        self.convs1@.len() == n && self.convs2@.len() == n && self.acts1@.len() == n && self.acts2@.len() == n
    }

    /// Whether this is the block that a checkpoint holds.
    pub open spec fn loaded(
        &self,
        kernel_size: nat,
        dilations: Seq<usize>,
        vb: WeightsView,
    ) -> bool {
        &&& self.has_pairs(dilations.len())
        &&& forall|i: int|
            0 <= i < dilations.len() ==> #[trigger] self.pair_loaded(
                i,
                kernel_size,
                dilations[i] as nat,
                vb,
            )
    }

    /// Whether a checkpoint holds a block with so many pairs.
    pub open spec fn present(channels: nat, kernel_size: nat, pairs: nat, vb: WeightsView) -> bool {
        forall|i: int| 0 <= i < pairs ==> #[trigger] amp_pair_present(channels, kernel_size, i, vb)
    }

    pub fn new(channels: usize, kernel_size: usize, dilations: &Vec<usize>, vb: &Weights) -> (r:
        Result<AmpBlock1, Failure>)
        ensures
            r matches Ok(b) ==> b.loaded(kernel_size as nat, dilations@, vb@),
            r is Ok ==> AmpBlock1::present(channels as nat, kernel_size as nat, dilations@.len(), vb@),
            vb@.sound() && resnet::reaches(kernel_size as nat, dilations@) && AmpBlock1::present(
                channels as nat,
                kernel_size as nat,
                dilations@.len(),
                vb@,
            ) ==> r is Ok,
    {
        let mut block = AmpBlock1 {
            convs1: Vec::new(),
            convs2: Vec::new(),
            acts1: Vec::new(),
            acts2: Vec::new(),
        };
        let vb1 = vb.pp("convs1");
        let vb2 = vb.pp("convs2");
        let a1_vb = vb.pp("acts1");
        let a2_vb = vb.pp("acts2");
        let mut i: usize = 0;
        while i < dilations.len()
            invariant
                i <= dilations.len(),
                vb1@ == vb@.pp("convs1"@),
                vb2@ == vb@.pp("convs2"@),
                a1_vb@ == vb@.pp("acts1"@),
                a2_vb@ == vb@.pp("acts2"@),
                block.has_pairs(i as nat),
                forall|k: int|
                    0 <= k < i ==> #[trigger] block.pair_loaded(
                        k,
                        kernel_size as nat,
                        dilations@[k] as nat,
                        vb@,
                    ),
                forall|k: int|
                    0 <= k < i ==> #[trigger] amp_pair_present(channels as nat, kernel_size as nat, k, vb@),
            decreases dilations.len() - i,
        {
            let ghost before = block;
            let ghost pair = amp_pair_present(channels as nat, kernel_size as nat, i as int, vb@);
            assert(resnet::reaches(kernel_size as nat, dilations@) ==> dilations@[i as int] * (kernel_size - 1)
                <= usize::MAX);
            let c1 = load_conv(channels, kernel_size, dilations[i], i, &vb1)?;
            let c2 = load_conv(channels, kernel_size, 1, i, &vb2)?;
            let a1 = Activation1d::new(channels, &a1_vb.at(i))?;
            let a2 = Activation1d::new(channels, &a2_vb.at(i))?;
            block.convs1.push(c1);
            block.convs2.push(c2);
            block.acts1.push(a1);
            block.acts2.push(a2);
            assert forall|k: int| 0 <= k < i + 1 implies #[trigger] block.pair_loaded(
                k,
                kernel_size as nat,
                dilations@[k] as nat,
                vb@,
            ) by {
                if k < i {
                    assert(before.pair_loaded(
                        k,
                        kernel_size as nat,
                        dilations@[k] as nat,
                        vb@,
                    ));
                }
            }
            i = i + 1;
        }
        Ok(block)
    }

    /// `x` after pair `i`.
    pub open spec fn pair(&self, x: TensorView, i: int) -> TensorView {
        let h = self.convs1@[i].apply(self.acts1@[i].apply(x));
        let h = self.convs2@[i].apply(self.acts2@[i].apply(h));
        model::binary(BinOp::Plus, x, h)
    }

    /// `x` after the first `n` pairs.
    pub open spec fn after(&self, x: TensorView, n: nat) -> TensorView
        decreases n,
    {
        if n == 0 {
            x
        } else {
            self.pair(self.after(x, (n - 1) as nat), n - 1)
        }
    }

    /// What the block computes from `x`.
    pub open spec fn apply(&self, x: TensorView) -> TensorView {
        self.after(x, self.convs1@.len())
    }

    /// Whether pair `i` can be computed from sound of this shape, in main memory and in single
    /// precision, and keeps the shape.
    pub open spec fn pair_keeps(&self, i: int, d: Seq<nat>) -> bool {
        let a = self.acts1@[i].dims_out(d);
        let b = self.convs1@[i].dims_out(a);
        let c = self.acts2@[i].dims_out(b);
        &&& self.acts1@[i].accepts_shape(d) && self.convs1@[i].accepts_shape(a)
        &&& self.acts2@[i].accepts_shape(b) && self.convs2@[i].accepts_shape(c)
        &&& self.convs2@[i].dims_out(c) == d
    }

    /// Whether the block can be computed from sound of this shape, in main memory and in single
    /// precision, and keeps the shape.
    pub open spec fn keeps_shape(&self, d: Seq<nat>) -> bool {
        &&& self.has_pairs(self.convs1@.len())
        &&& forall|i: int| 0 <= i < self.convs1@.len() ==> #[trigger] self.pair_keeps(i, d)
    }

    pub fn forward(&self, x: &Array) -> (r: Result<Array, Failure>)
        ensures
            r matches Ok(t) ==> t@ == self.apply(x@),
            r is Ok ==> self.has_pairs(self.convs1@.len()),
            x.on_cpu() && x@.dtype == Dtype::F32 && self.keeps_shape(x@.dims) ==> (r matches Ok(t) && t.on_cpu()
                && t@.dtype == Dtype::F32 && t@.dims == x@.dims),
    {
        let ghost fine = x.on_cpu() && x@.dtype == Dtype::F32 && self.keeps_shape(x@.dims);
        let n: usize = self.convs1.len();
        if self.convs2.len() != n || self.acts1.len() != n || self.acts2.len() != n {
            return Err(Failure::Shape);
        }
        let mut h = x.clone();
        let mut i: usize = 0;
        while i < n
            invariant
                i <= n,
                n == self.convs1.len(),
                self.has_pairs(n as nat),
                h@ == self.after(x@, i as nat),
                fine == (x.on_cpu() && x@.dtype == Dtype::F32 && self.keeps_shape(x@.dims)),
                fine ==> h.on_cpu() && h@.dtype == Dtype::F32 && h@.dims == x@.dims,
            decreases n - i,
        {
            assert(fine ==> self.pair_keeps(i as int, x@.dims));
            let xt = self.acts1[i].forward(&h)?;
            let xt = self.convs1[i].forward(&xt)?;
            let xt = self.acts2[i].forward(&xt)?;
            let xt = self.convs2[i].forward(&xt)?;
            h = h.pairwise(BinOp::Plus, &xt)?;
            i = i + 1;
        }
        Ok(h)
    }
}

/// A residual block of a vocoder.
pub enum VocoderResBlock {
    Res1(ResBlock1),
    Amp1(AmpBlock1),
}

impl VocoderResBlock {
    /// What the block computes from `x`.
    #[verifier::opaque]
    pub open spec fn apply(&self, x: TensorView) -> TensorView {
        match self {
            VocoderResBlock::Res1(b) => b.apply(x),
            VocoderResBlock::Amp1(b) => b.apply(x),
        }
    }

    /// Whether the block can be computed from sound of this shape, in main memory and in single
    /// precision, and keeps the shape.
    #[verifier::opaque]
    pub open spec fn keeps_shape(&self, d: Seq<nat>) -> bool {
        match self {
            VocoderResBlock::Res1(b) => b.keeps_shape(d),
            VocoderResBlock::Amp1(b) => b.keeps_shape(d),
        }
    }

    pub fn forward(&self, x: &Array) -> (r: Result<Array, Failure>)
        ensures
            r matches Ok(t) ==> t@ == self.apply(x@),
            x.on_cpu() && x@.dtype == Dtype::F32 && self.keeps_shape(x@.dims) ==> (r matches Ok(t) && t.on_cpu()
                && t@.dtype == Dtype::F32 && t@.dims == x@.dims),
    {
        proof {
            reveal(VocoderResBlock::keeps_shape);
            reveal(VocoderResBlock::apply);
        }
        match self {
            VocoderResBlock::Res1(b) => b.forward(x),
            VocoderResBlock::Amp1(b) => b.forward(x),
        }
    }
}

/// What a vocoder is made of.
pub struct VocoderPlan {
    pub rates: Seq<usize>,
    pub kernel_sizes: Seq<usize>,
    pub res_kernel_sizes: Seq<usize>,
    pub res_dilations: Seq<Seq<usize>>,
    pub initial_channel: nat,
    pub stereo: bool,
    pub amp: bool,
    pub tanh: bool,
    pub final_activation: bool,
    pub final_bias: bool,
}

/// Lists of lists.
pub open spec fn nested(v: Seq<Vec<usize>>) -> Seq<Seq<usize>> {
    v.map_values(|d: Vec<usize>| d@)
}

/// `c` halved `n` times, rounding down.
pub open spec fn halved(c: nat, n: nat) -> nat
    decreases n,
{
    if n == 0 {
        c
    } else {
        halved(c, (n - 1) as nat) / 2
    }
}

impl VocoderPlan {
    /// The number of stages that have both a rate and a kernel.
    pub open spec fn stages(self) -> nat {
        if self.rates.len() < self.kernel_sizes.len() {
            self.rates.len()
        } else {
            self.kernel_sizes.len()
        }
    }

    /// The number of residual blocks of a stage.
    pub open spec fn blocks(self) -> nat {
        if self.res_kernel_sizes.len() < self.res_dilations.len() {
            self.res_kernel_sizes.len()
        } else {
            self.res_dilations.len()
        }
    }

    /// Whether the reaches of the kernels and the numbers of the blocks can be counted.
    pub open spec fn countable(self) -> bool {
        &&& forall|j: int|
            0 <= j < self.blocks() ==> resnet::reaches(
                #[trigger] self.res_kernel_sizes[j] as nat,
                self.res_dilations[j],
            )
        &&& (self.rates.len() + 1) * self.res_kernel_sizes.len() <= usize::MAX
    }

    /// The number of channels behind the last stage.
    pub open spec fn final_channels(self) -> nat {
        halved(self.initial_channel, self.rates.len())
    }
}

/// Raises the rate of a spectrogram stage by stage until it is a waveform.
pub struct Vocoder {
    pub conv_pre: Conv1d,
    pub ups: Vec<ConvTranspose1d>,
    /// The residual blocks of each stage.
    pub resblocks: Vec<Vec<VocoderResBlock>>,
    pub act_post: Option<Activation1d>,
    pub conv_post: Conv1d,
    pub num_upsamples: usize,
    pub num_kernels: usize,
    pub apply_final_activation: bool,
    pub use_tanh_at_final: bool,
    pub is_amp: bool,
}

/// Whether block `j` of stage `i` is the one that a checkpoint holds.
pub open spec fn block_loaded(
    b: VocoderResBlock,
    plan: VocoderPlan,
    i: nat,
    j: int,
    vb: WeightsView,
) -> bool {
    let k = plan.res_kernel_sizes[j] as nat;
    let at = vb.at((i * plan.res_kernel_sizes.len() + j) as nat);
    match b {
        VocoderResBlock::Res1(b) => !plan.amp && b.loaded(k, plan.res_dilations[j], at),
        VocoderResBlock::Amp1(b) => plan.amp && b.loaded(
            k,
            plan.res_dilations[j],
            at,
        ),
    }
}

/// Whether a checkpoint holds block `j` of stage `i`.
pub open spec fn block_present(plan: VocoderPlan, i: nat, j: int, vb: WeightsView) -> bool {
    let channels = halved(plan.initial_channel, i + 1);
    let k = plan.res_kernel_sizes[j] as nat;
    let at = vb.at((i * plan.res_kernel_sizes.len() + j) as nat);
    if plan.amp {
        AmpBlock1::present(channels, k, plan.res_dilations[j].len(), at)
    } else {
        ResBlock1::present(channels, k, plan.res_dilations[j].len(), at)
    }
}

/// Whether a checkpoint holds the blocks of stage `i`.
pub open spec fn stage_present(plan: VocoderPlan, i: nat, vb: WeightsView) -> bool {
    forall|j: int| 0 <= j < plan.blocks() ==> #[trigger] block_present(plan, i, j, vb)
}

/// Whether the blocks of stage `i` are those that a checkpoint holds.
pub open spec fn stage_loaded(
    blocks: Seq<VocoderResBlock>,
    plan: VocoderPlan,
    i: nat,
    vb: WeightsView,
) -> bool {
    &&& blocks.len() == plan.blocks()
    &&& forall|j: int|
        0 <= j < plan.blocks() ==> block_loaded(#[trigger] blocks[j], plan, i, j, vb)
}

/// Whether the transposed convolution of stage `i` is the one that a checkpoint holds.
pub open spec fn up_loaded(u: ConvTranspose1d, plan: VocoderPlan, i: int, vb: WeightsView) -> bool {
    &&& up_present(plan, i, vb)
    &&& u.loaded(
        (plan.kernel_sizes[i] - plan.rates[i]) as nat / 2,
        plan.rates[i] as nat,
        vb.at(i as nat),
    )
}

/// Whether a checkpoint holds the transposed convolution of stage `i`.
pub open spec fn up_present(plan: VocoderPlan, i: int, vb: WeightsView) -> bool {
    &&& plan.kernel_sizes[i] >= plan.rates[i]
    &&& ConvTranspose1d::present(
        halved(plan.initial_channel, i as nat),
        halved(plan.initial_channel, (i + 1) as nat),
        plan.kernel_sizes[i] as nat,
        vb.at(i as nat),
    )
}

/// Loads the transposed convolutions.
fn load_ups(rates: &Vec<usize>, kernel_sizes: &Vec<usize>, initial_channel: usize, plan: Ghost<VocoderPlan>, vb: &Weights) -> (r:
    Result<Vec<ConvTranspose1d>, Failure>)
    requires
        plan@.rates == rates@,
        plan@.kernel_sizes == kernel_sizes@,
        plan@.initial_channel == initial_channel,
    ensures
        r matches Ok(v) ==> v@.len() == plan@.stages() && forall|i: int|
            0 <= i < plan@.stages() ==> up_loaded(#[trigger] v@[i], plan@, i, vb@),
        r is Ok ==> forall|i: int| 0 <= i < plan@.stages() ==> #[trigger] up_present(plan@, i, vb@),
        vb@.sound() && (forall|i: int| 0 <= i < plan@.stages() ==> #[trigger] up_present(plan@, i, vb@)) ==> r is Ok,
{
    let mut ups: Vec<ConvTranspose1d> = Vec::new();
    let mut width: usize = initial_channel;
    let mut i: usize = 0;
    while i < rates.len() && i < kernel_sizes.len()
        invariant
            plan@.rates == rates@,
            plan@.kernel_sizes == kernel_sizes@,
            plan@.initial_channel == initial_channel,
            i <= plan@.stages(),
            width == halved(initial_channel as nat, i as nat),
            ups@.len() == i,
            forall|k: int| 0 <= k < i ==> up_loaded(#[trigger] ups@[k], plan@, k, vb@),
            forall|k: int| 0 <= k < i ==> #[trigger] up_present(plan@, k, vb@),
        decreases rates.len() - i,
    {
        let ghost here = up_present(plan@, i as int, vb@);
        let rate: usize = rates[i];
        let kernel_size: usize = kernel_sizes[i];
        if kernel_size < rate {
            return Err(Failure::Shape);
        }
        let padding: usize = (kernel_size - rate) / 2;
        ups.push(ConvTranspose1d::new(width, width / 2, kernel_size, padding, rate, &vb.at(i))?);
        width = width / 2;
        i = i + 1;
    }
    Ok(ups)
}

/// Loads the residual blocks of stage `i`, which has `channels` channels.
fn load_stage(
    i: usize,
    channels: usize,
    kernel_sizes: &Vec<usize>,
    dilations: &Vec<Vec<usize>>,
    amp: bool,
    plan: Ghost<VocoderPlan>,
    vb: &Weights,
) -> (r: Result<Vec<VocoderResBlock>, Failure>)
    requires
        plan@.res_kernel_sizes == kernel_sizes@,
        plan@.res_dilations == nested(dilations@),
        plan@.amp == amp,
        channels == halved(plan@.initial_channel, (i + 1) as nat),
        i < plan@.rates.len(),
    ensures
        r matches Ok(v) ==> stage_loaded(
            v@,
            plan@,
            i as nat,
            vb@,
        ),
        r is Ok ==> stage_present(plan@, i as nat, vb@),
        vb@.sound() && plan@.countable() && stage_present(plan@, i as nat, vb@) ==> r is Ok,
{
    proof {
        let (a, n, r) = (i as int, kernel_sizes@.len() as int, plan@.rates.len() as int);
        assert(a * n + n <= (r + 1) * n) by (nonlinear_arith)
            requires
                a < r,
                n >= 0,
        ;
    }
    let mut blocks: Vec<VocoderResBlock> = Vec::new();
    let start: usize = match i.checked_mul(kernel_sizes.len()) {
        Some(n) => n,
        None => {
            return Err(Failure::Overflow);
        },
    };
    let mut j: usize = 0;
    while j < kernel_sizes.len() && j < dilations.len()
        invariant
            plan@.res_kernel_sizes == kernel_sizes@,
            plan@.res_dilations == nested(dilations@),
            plan@.amp == amp,
            channels == halved(plan@.initial_channel, (i + 1) as nat),
            start == i * kernel_sizes@.len(),
            plan@.countable() ==> start + kernel_sizes@.len() <= usize::MAX,
            forall|k: int| 0 <= k < j ==> #[trigger] block_present(plan@, i as nat, k, vb@),
            j <= plan@.blocks(),
            blocks@.len() == j,
            forall|k: int|
                0 <= k < j ==> block_loaded(
                    #[trigger] blocks@[k],
                    plan@,
                    i as nat,
                    k,
                    vb@,
                ),
        decreases kernel_sizes.len() - j,
    {
        let idx: usize = match start.checked_add(j) {
            Some(n) => n,
            None => {
                return Err(Failure::Overflow);
            },
        };
        assert(plan@.res_dilations[j as int] == dilations@[j as int]@);
        proof {
            let here = block_present(plan@, i as nat, j as int, vb@);
            if plan@.countable() {
                assert(resnet::reaches(plan@.res_kernel_sizes[j as int] as nat, plan@.res_dilations[j as int]));
            }
        }
        let block = if amp {
            VocoderResBlock::Amp1(AmpBlock1::new(channels, kernel_sizes[j], &dilations[j], &vb.at(idx))?)
        } else {
            VocoderResBlock::Res1(ResBlock1::new(channels, kernel_sizes[j], &dilations[j], &vb.at(idx))?)
        };
        blocks.push(block);
        j = j + 1;
    }
    Ok(blocks)
}

impl Vocoder {
    /// Whether this is the vocoder that a checkpoint holds.
    pub open spec fn loaded(&self, plan: VocoderPlan, vb: WeightsView) -> bool {
        &&& self.conv_pre.loaded(3, 1, true, vb.pp("conv_pre"@))
        &&& self.ups@.len() == plan.stages()
        &&& forall|i: int|
            0 <= i < plan.stages() ==> up_loaded(#[trigger] self.ups@[i], plan, i, vb.pp("ups"@))
        &&& self.resblocks@.len() == plan.rates.len()
        &&& forall|i: int|
            0 <= i < plan.rates.len() ==> stage_loaded(
                (#[trigger] self.resblocks@[i])@,
                plan,
                i as nat,
                vb.pp("resblocks"@),
            )
        &&& plan.amp == self.act_post is Some
        &&& self.act_post matches Some(a) ==> a.loaded(vb.pp("act_post"@))
        &&& self.conv_post.loaded(3, 1, plan.final_bias, vb.pp("conv_post"@))
        &&& self.num_upsamples == plan.rates.len()
        &&& self.num_kernels == plan.res_kernel_sizes.len()
        &&& self.apply_final_activation == plan.final_activation
        &&& self.use_tanh_at_final == plan.tanh
        &&& self.is_amp == plan.amp
    }

    /// Whether a checkpoint holds a vocoder of these sizes.
    pub open spec fn present(plan: VocoderPlan, vb: WeightsView) -> bool {
        &&& Conv1d::present(
            if plan.stereo {
                128
            } else {
                64
            },
            plan.initial_channel,
            7,
            true,
            vb.pp("conv_pre"@),
        )
        &&& Conv1d::present(
            plan.final_channels(),
            if plan.stereo {
                2
            } else {
                1
            },
            7,
            plan.final_bias,
            vb.pp("conv_post"@),
        )
        &&& forall|i: int| 0 <= i < plan.stages() ==> #[trigger] up_present(plan, i, vb.pp("ups"@))
        &&& forall|i: int|
            0 <= i < plan.rates.len() ==> #[trigger] stage_present(plan, i as nat, vb.pp("resblocks"@))
        &&& plan.amp ==> Activation1d::present(plan.final_channels(), vb.pp("act_post"@))
    }

    /// A vocoder with plain residual blocks, a bias in its last convolution and tanh behind
    /// it.
    pub fn new(
        upsample_rates: &Vec<usize>,
        upsample_kernel_sizes: &Vec<usize>,
        resblock_kernel_sizes: &Vec<usize>,
        resblock_dilation_sizes: &Vec<Vec<usize>>,
        upsample_initial_channel: usize,
        stereo: bool,
        vb: &Weights,
    ) -> (r: Result<Vocoder, Failure>)
        ensures
            r matches Ok(v) ==> v.loaded(
                (VocoderPlan {
                    rates: upsample_rates@,
                    kernel_sizes: upsample_kernel_sizes@,
                    res_kernel_sizes: resblock_kernel_sizes@,
                    res_dilations: nested(resblock_dilation_sizes@),
                    initial_channel: upsample_initial_channel as nat,
                    stereo,
                    amp: false,
                    tanh: true,
                    final_activation: true,
                    final_bias: true,
                }),
                vb@,
            ),
            ({
                let plan = VocoderPlan {
                    rates: upsample_rates@,
                    kernel_sizes: upsample_kernel_sizes@,
                    res_kernel_sizes: resblock_kernel_sizes@,
                    res_dilations: nested(resblock_dilation_sizes@),
                    initial_channel: upsample_initial_channel as nat,
                    stereo,
                    amp: false,
                    tanh: true,
                    final_activation: true,
                    final_bias: true,
                };
                &&& r is Ok ==> Vocoder::present(plan, vb@)
                &&& vb@.sound() && plan.countable() && Vocoder::present(plan, vb@) ==> r is Ok
            }),
    {
        Vocoder::new_with_options(
            upsample_rates,
            upsample_kernel_sizes,
            resblock_kernel_sizes,
            resblock_dilation_sizes,
            upsample_initial_channel,
            stereo,
            false,
            true,
            true,
            true,
            vb,
        )
    }

    /// Loads a vocoder.
    pub fn new_with_options(
        upsample_rates: &Vec<usize>,
        upsample_kernel_sizes: &Vec<usize>,
        resblock_kernel_sizes: &Vec<usize>,
        resblock_dilation_sizes: &Vec<Vec<usize>>,
        upsample_initial_channel: usize,
        stereo: bool,
        amp_resblock: bool,
        use_tanh_at_final: bool,
        apply_final_activation: bool,
        use_bias_at_final: bool,
            vb: &Weights,
    ) -> (r: Result<Vocoder, Failure>)
        ensures
            r matches Ok(v) ==> v.loaded(
                (VocoderPlan {
                    rates: upsample_rates@,
                    kernel_sizes: upsample_kernel_sizes@,
                    res_kernel_sizes: resblock_kernel_sizes@,
                    res_dilations: nested(resblock_dilation_sizes@),
                    initial_channel: upsample_initial_channel as nat,
                    stereo,
                    amp: amp_resblock,
                    tanh: use_tanh_at_final,
                    final_activation: apply_final_activation,
                    final_bias: use_bias_at_final,
                }),
                vb@,
            ),
            r is Ok ==> Vocoder::present(
                (VocoderPlan {
                    rates: upsample_rates@,
                    kernel_sizes: upsample_kernel_sizes@,
                    res_kernel_sizes: resblock_kernel_sizes@,
                    res_dilations: nested(resblock_dilation_sizes@),
                    initial_channel: upsample_initial_channel as nat,
                    stereo,
                    amp: amp_resblock,
                    tanh: use_tanh_at_final,
                    final_activation: apply_final_activation,
                    final_bias: use_bias_at_final,
                }),
                vb@,
            ),
            ({
                let plan = VocoderPlan {
                    rates: upsample_rates@,
                    kernel_sizes: upsample_kernel_sizes@,
                    res_kernel_sizes: resblock_kernel_sizes@,
                    res_dilations: nested(resblock_dilation_sizes@),
                    initial_channel: upsample_initial_channel as nat,
                    stereo,
                    amp: amp_resblock,
                    tanh: use_tanh_at_final,
                    final_activation: apply_final_activation,
                    final_bias: use_bias_at_final,
                };
                vb@.sound() && plan.countable() && Vocoder::present(plan, vb@) ==> r is Ok
            }),
    {
        let ghost plan = VocoderPlan {
            rates: upsample_rates@,
            kernel_sizes: upsample_kernel_sizes@,
            res_kernel_sizes: resblock_kernel_sizes@,
            res_dilations: nested(resblock_dilation_sizes@),
            initial_channel: upsample_initial_channel as nat,
            stereo,
            amp: amp_resblock,
            tanh: use_tanh_at_final,
            final_activation: apply_final_activation,
            final_bias: use_bias_at_final,
        };
        let in_channels: usize = if stereo {
            128
        } else {
            64
        };
        let conv_pre = Conv1d::new(in_channels, upsample_initial_channel, 7, 3, 1, true, &vb.pp("conv_pre"))?;
        let ups = load_ups(
            upsample_rates,
            upsample_kernel_sizes,
            upsample_initial_channel,
            Ghost(plan),
            &vb.pp("ups"),
        )?;
        let rb_vb = vb.pp("resblocks");
        let mut resblocks: Vec<Vec<VocoderResBlock>> = Vec::new();
        let mut width: usize = upsample_initial_channel;
        let mut i: usize = 0;
        while i < upsample_rates.len()
            invariant
                i <= upsample_rates.len(),
                rb_vb@ == vb@.pp("resblocks"@),
                plan == (VocoderPlan {
                    rates: upsample_rates@,
                    kernel_sizes: upsample_kernel_sizes@,
                    res_kernel_sizes: resblock_kernel_sizes@,
                    res_dilations: nested(resblock_dilation_sizes@),
                    initial_channel: upsample_initial_channel as nat,
                    stereo,
                    amp: amp_resblock,
                    tanh: use_tanh_at_final,
                    final_activation: apply_final_activation,
                    final_bias: use_bias_at_final,
                }),
                forall|k: int| 0 <= k < i ==> #[trigger] stage_present(plan, k as nat, rb_vb@),
                width == halved(upsample_initial_channel as nat, i as nat),
                resblocks@.len() == i,
                forall|k: int|
                    0 <= k < i ==> stage_loaded(
                        (#[trigger] resblocks@[k])@,
                        plan,
                        k as nat,
                        rb_vb@,
                    ),
            decreases upsample_rates.len() - i,
        {
            width = width / 2;
            proof {
                let k = i as int;
                assert(stage_present(plan, k as nat, rb_vb@) == stage_present(plan, i as nat, rb_vb@));
            }
            let stage = load_stage(
                i,
                width,
                resblock_kernel_sizes,
                resblock_dilation_sizes,
                amp_resblock,
                Ghost(plan),
                &rb_vb,
            )?;
            resblocks.push(stage);
            i = i + 1;
        }
        let out_channels: usize = if stereo {
            2
        } else {
            1
        };
        let conv_post = Conv1d::new(width, out_channels, 7, 3, 1, use_bias_at_final, &vb.pp("conv_post"))?;
        let act_post = if amp_resblock {
            Some(Activation1d::new(width, &vb.pp("act_post"))?)
        } else {
            None
        };
        Ok(
            Vocoder {
                conv_pre,
                ups,
                resblocks,
                act_post,
                conv_post,
                num_upsamples: upsample_rates.len(),
                num_kernels: resblock_kernel_sizes.len(),
                apply_final_activation,
                use_tanh_at_final,
                is_amp: amp_resblock,
            },
        )
    }

    /// The sum of the first `n` residual blocks of stage `i`.
    pub open spec fn block_sum(&self, i: int, x: TensorView, n: nat) -> TensorView
        decreases n,
    {
        if n <= 1 {
            self.resblocks@[i]@[0].apply(x)
        } else {
            model::binary(
                BinOp::Plus,
                self.block_sum(i, x, (n - 1) as nat),
                self.resblocks@[i]@[n - 1].apply(x),
            )
        }
    }

    /// What stage `i` computes: its rate is raised, then the mean of its residual blocks is
    /// taken.
    pub open spec fn stage(&self, i: int, x: TensorView) -> TensorView {
        let active = if self.is_amp {
            x
        } else {
            causal_conv2d::leaky_relu_of(x, LRELU_SLOPE)
        };
        let n = self.num_kernels as nat;
        model::affine(
            self.block_sum(i, self.ups@[i].apply(active), n),
            model::unary(UnOp::Recip, model::count(n)),
            model::number(ZERO),
        )
    }

    /// `x` after the first `n` stages.
    pub open spec fn after_stages(&self, x: TensorView, n: nat) -> TensorView
        decreases n,
    {
        if n == 0 {
            x
        } else {
            self.stage(n - 1, self.after_stages(x, (n - 1) as nat))
        }
    }

    /// The spectrograms of the channels one below the other, time along the last axis.
    pub open spec fn stacked(x: TensorView) -> TensorView {
        let y = model::transpose(x, 2, 3);
        model::reshape(y, seq![x.dims[0], x.dims[1] * x.dims[3], x.dims[2]])
    }

    /// What is computed behind the last stage.
    pub open spec fn last(&self, x: TensorView) -> TensorView {
        let active = match self.act_post {
            Some(a) => a.apply(x),
            None => causal_conv2d::leaky_relu_of(x, FINAL_SLOPE),
        };
        let y = self.conv_post.apply(active);
        if !self.apply_final_activation {
            y
        } else if self.use_tanh_at_final {
            model::unary(UnOp::Tanh, y)
        } else {
            model::clamp(y, MINUS_ONE, ONE)
        }
    }

    /// The waveform of a spectrogram.
    #[verifier::opaque]
    pub open spec fn apply(&self, x: TensorView) -> TensorView {
        let h = self.conv_pre.apply(Vocoder::stacked(x));
        self.last(self.after_stages(h, self.num_upsamples as nat))
    }

    /// Whether stage `i` can be computed from sound of this shape, in main memory and in single
    /// precision.
    pub open spec fn stage_accepts(&self, i: int, d: Seq<nat>) -> bool {
        let wide = self.ups@[i].dims_out(d);
        &&& i < self.ups@.len() && i < self.resblocks@.len()
        &&& 0 < self.num_kernels <= self.resblocks@[i]@.len()
        &&& self.ups@[i].accepts_shape(d)
        &&& forall|j: int| 0 <= j < self.num_kernels ==> (#[trigger] self.resblocks@[i]@[j]).keeps_shape(wide)
    }

    /// The shape of what the first `n` stages make of sound of this shape.
    pub open spec fn dims_after(&self, d: Seq<nat>, n: nat) -> Seq<nat>
        decreases n,
    {
        if n == 0 {
            d
        } else {
            self.ups@[n - 1].dims_out(self.dims_after(d, (n - 1) as nat))
        }
    }

    /// Whether stage `i` can be computed from what the stages before it make of sound of this shape.
    pub open spec fn reaches(&self, d: Seq<nat>, i: int) -> bool {
        self.stage_accepts(i, self.dims_after(d, i as nat))
    }

    /// The shape of the spectrograms of this shape one below the other.
    pub open spec fn stacked_dims(d: Seq<nat>) -> Seq<nat> {
        seq![d[0], d[1] * d[3], d[2]]
    }

    /// Whether what stands behind the last stage can be computed from sound of this shape.
    pub open spec fn finishes(&self, d: Seq<nat>) -> bool {
        match self.act_post {
            Some(a) => a.accepts_shape(d) && self.conv_post.accepts_shape(a.dims_out(d)),
            None => self.conv_post.accepts_shape(d),
        }
    }

    /// The shape of what is computed behind the last stage from sound of this shape.
    pub open spec fn finished_dims(&self, d: Seq<nat>) -> Seq<nat> {
        match self.act_post {
            Some(a) => self.conv_post.dims_out(a.dims_out(d)),
            None => self.conv_post.dims_out(d),
        }
    }

    /// Whether the waveform of a spectrogram of this shape can be computed, in main memory and in
    /// single precision.
    pub open spec fn accepts_shape(&self, d: Seq<nat>) -> bool {
        let h = self.conv_pre.dims_out(Vocoder::stacked_dims(d));
        &&& d.len() == 4
        &&& self.conv_pre.accepts_shape(Vocoder::stacked_dims(d))
        &&& forall|i: int| 0 <= i < self.num_upsamples ==> #[trigger] self.reaches(h, i)
        &&& self.finishes(self.dims_after(h, self.num_upsamples as nat))
    }

    /// The shape of the waveform of a spectrogram of this shape.
    pub open spec fn dims_out(&self, d: Seq<nat>) -> Seq<nat> {
        let h = self.conv_pre.dims_out(Vocoder::stacked_dims(d));
        self.finished_dims(self.dims_after(h, self.num_upsamples as nat))
    }

    fn run_stage(&self, i: usize, x: &Array) -> (r: Result<Array, Failure>)
        ensures
            r matches Ok(t) ==> t@ == self.stage(i as int, x@),
            x.on_cpu() && x@.dtype == Dtype::F32 && self.stage_accepts(i as int, x@.dims) ==> (r matches Ok(t)
                && t.on_cpu() && t@.dtype == Dtype::F32 && t@.dims == self.ups@[i as int].dims_out(x@.dims)),
            r is Ok ==> i < self.ups@.len() && i < self.resblocks@.len() && 0 < self.num_kernels
                <= self.resblocks@[i as int]@.len(),
    {
        let ghost fine = x.on_cpu() && x@.dtype == Dtype::F32 && self.stage_accepts(i as int, x@.dims);
        if i >= self.ups.len() || i >= self.resblocks.len() {
            return Err(Failure::Shape);
        }
        let ghost wide = self.ups@[i as int].dims_out(x@.dims);
        let blocks = &self.resblocks[i];
        if self.num_kernels == 0 || blocks.len() < self.num_kernels {
            return Err(Failure::Shape);
        }
        let active = if self.is_amp {
            x.clone()
        } else {
            leaky_relu(x, LRELU_SLOPE)?
        };
        let raised = self.ups[i].forward(&active)?;
        assert(fine ==> self.resblocks@[i as int]@[0].keeps_shape(wide));
        let mut sum = blocks[0].forward(&raised)?;
        let mut j: usize = 1;
        while j < self.num_kernels
            invariant
                1 <= j <= self.num_kernels <= blocks.len(),
                i < self.resblocks.len(),
                blocks@ == self.resblocks@[i as int]@,
                sum@ == self.block_sum(i as int, raised@, j as nat),
                fine == (x.on_cpu() && x@.dtype == Dtype::F32 && self.stage_accepts(i as int, x@.dims)),
                fine ==> raised.on_cpu() && raised@.dtype == Dtype::F32 && raised@.dims == wide,
                fine ==> sum.on_cpu() && sum@.dtype == Dtype::F32 && sum@.dims == wide,
                fine ==> forall|k: int|
                    0 <= k < self.num_kernels ==> (#[trigger] self.resblocks@[i as int]@[k]).keeps_shape(wide),
            decreases self.num_kernels - j,
        {
            assert(fine ==> self.resblocks@[i as int]@[j as int].keeps_shape(wide));
            let y = blocks[j].forward(&raised)?;
            sum = sum.pairwise(BinOp::Plus, &y)?;
            j = j + 1;
        }
        let share = Array::count(self.num_kernels)?.unary(UnOp::Recip)?;
        sum.scale_by(&share)
    }

    fn finish(&self, x: &Array) -> (r: Result<Array, Failure>)
        ensures
            r matches Ok(t) ==> t@ == self.last(x@),
            x.on_cpu() && x@.dtype == Dtype::F32 && self.finishes(x@.dims) ==> (r matches Ok(t) && t.on_cpu()
                && t@.dtype == Dtype::F32 && t@.dims == self.finished_dims(x@.dims)),
    {
        let x = match &self.act_post {
            Some(a) => a.forward(x)?,
            None => leaky_relu(x, FINAL_SLOPE)?,
        };
        let x = self.conv_post.forward(&x)?;
        if !self.apply_final_activation {
            Ok(x)
        } else if self.use_tanh_at_final {
            x.unary(UnOp::Tanh)
        } else {
            x.clamp(MINUS_ONE, ONE)
        }
    }

    /// Converts spectrograms `(B, channels, time, frequency)` into waveforms.
    pub fn forward(&self, x: &Array) -> (r: Result<Array, Failure>)
        ensures
            r matches Ok(t) ==> t@ == self.apply(x@),
            r is Ok ==> x@.rank() == 4,
            x@.rank() != 4 ==> r == Err::<Array, Failure>(
                Failure::Rank { expected: 4, got: x@.rank() as usize },
            ),
            x.on_cpu() && x@.dtype == Dtype::F32 && self.accepts_shape(x@.dims) ==> (r matches Ok(t) && t.on_cpu()
                && t@.dtype == Dtype::F32 && t@.dims == self.dims_out(x@.dims)),
    {
        proof {
            reveal(Vocoder::apply);
        }
        let ghost fine = x.on_cpu() && x@.dtype == Dtype::F32 && self.accepts_shape(x@.dims);
        let (b, s, t, c) = x.dims4()?;
        let turned = x.transpose(2, 3)?;
        proof {
            lemma_stacked_size(x@);
            if fine {
                lemmas::lemma_extent_is_numel(Vocoder::stacked_dims(x@.dims));
                lemmas::lemma_extent_is_numel(x@.dims);
                lemmas::lemma_numel3(b as nat, s as nat * c as nat, t as nat);
                lemmas::lemma_factors(b as nat, s as nat * c as nat, t as nat);
            }
        }
        let height: usize = match s.checked_mul(c) {
            Some(n) => n,
            None => {
                return Err(Failure::Overflow);
            },
        };
        let stacked = turned.reshape3(b, height, t)?;
        let mut h = self.conv_pre.forward(&stacked)?;
        let ghost start = h@;
        let mut i: usize = 0;
        while i < self.num_upsamples
            invariant
                i <= self.num_upsamples,
                x@.rank() == 4,
                h@ == self.after_stages(start, i as nat),
                fine == (x.on_cpu() && x@.dtype == Dtype::F32 && self.accepts_shape(x@.dims)),
                fine ==> start.dims == self.conv_pre.dims_out(Vocoder::stacked_dims(x@.dims)),
                fine ==> h.on_cpu() && h@.dtype == Dtype::F32 && h@.dims == self.dims_after(start.dims, i as nat),
            decreases self.num_upsamples - i,
        {
            assert(fine ==> self.reaches(start.dims, i as int));
            h = self.run_stage(i, &h)?;
            i = i + 1;
        }
        self.finish(&h)
    }
}

/// Standing one below the other, spectrograms hold as many numbers as before.
proof fn lemma_stacked_size(x: TensorView)
    requires
        x.rank() == 4,
    ensures
        model::numel(model::transpose(x, 2, 3).dims) == model::numel(x.dims),
        model::numel(Vocoder::stacked_dims(x.dims)) == model::numel(x.dims),
        model::transpose(x, 2, 3).dtype == x.dtype,
{
    let d = x.dims;
    let (b, s, t, c) = (d[0], d[1], d[2], d[3]);
    let turned = model::transpose(x, 2, 3).dims;
    assert(d =~= seq![b, s, t, c]);
    lemmas::lemma_permute_dims(x, model::swapped(4, 2, 3));
    assert(turned =~= seq![b, s, c, t]);
    lemmas::lemma_numel4(b, s, t, c);
    lemmas::lemma_numel4(b, s, c, t);
    lemmas::lemma_numel3(b, s * c, t);
    let a = b * s;
    assert(a * t * c == a * c * t) by (nonlinear_arith);
    assert(b * (s * c) * t == b * s * c * t) by (nonlinear_arith);
}

/// Logarithmic mel spectrograms by convolution with a Fourier basis.
pub struct MelStft {
    pub forward_basis: Array,
    pub mel_basis: Array,
    pub hop_length: usize,
    pub win_length: usize,
}

impl MelStft {
    /// Whether this is the transform that a checkpoint holds.
    pub open spec fn loaded(&self, hop_length: nat, win_length: nat, vb: WeightsView) -> bool {
        &&& self.forward_basis@ == vb.pp("stft_fn"@).get("forward_basis"@)
        &&& self.mel_basis@ == vb.get("mel_basis"@)
        &&& self.hop_length == hop_length
        &&& self.win_length == win_length
    }

    /// Whether a checkpoint holds a transform of this size.
    pub open spec fn present(filter_length: nat, vb: WeightsView) -> bool {
        &&& vb.pp("stft_fn"@).holds("forward_basis"@, seq![filter_length + 2, 1, filter_length])
        &&& vb.holds("mel_basis"@, seq![64, filter_length / 2 + 1])
    }

    pub fn new(filter_length: usize, hop_length: usize, win_length: usize, vb: &Weights) -> (r: Result<
        MelStft,
        Failure,
    >)
        ensures
            r matches Ok(m) ==> m.loaded(hop_length as nat, win_length as nat, vb@),
            r is Ok ==> MelStft::present(filter_length as nat, vb@),
            vb@.sound() && MelStft::present(filter_length as nat, vb@) ==> r is Ok,
    {
        proof {
            let stft = vb@.pp("stft_fn"@);
            let dims: Seq<nat> = seq![filter_length as nat + 2, 1, filter_length as nat];
            if vb@.sound() && stft.holds("forward_basis"@, dims) {
                weights::lemma_axis_counts(stft, "forward_basis"@, dims, 0);
            }
        }
        let rows: usize = match filter_length.checked_add(2) {
            Some(n) => n,
            None => {
                return Err(Failure::Overflow);
            },
        };
        let forward_basis = vb.pp("stft_fn").get3(rows, 1, filter_length, "forward_basis")?;
        let mel_basis = vb.get2(64, filter_length / 2 + 1, "mel_basis")?;
        Ok(MelStft { forward_basis, mel_basis, hop_length, win_length })
    }

    /// `y` as `(B, 1, T)` with zeros in front of it.
    pub open spec fn framed(&self, y: TensorView) -> TensorView {
        let y = if y.rank() == 2 {
            model::unsqueeze(y, 1)
        } else {
            y
        };
        let left = if self.win_length > self.hop_length {
            (self.win_length - self.hop_length) as nat
        } else {
            0
        };
        model::pad_zeros(y, 2, left, 0)
    }

    /// The magnitude of each frequency in each frame.
    pub open spec fn magnitude(&self, y: TensorView) -> TensorView {
        let padded = self.framed(y);
        let bands = model::conv1d(
            padded,
            model::cast(self.forward_basis@, padded.dtype),
            None,
            0,
            self.hop_length as nat,
            1,
            1,
        );
        let n = bands.dims[1] / 2;
        let re = model::unary(UnOp::Sqr, model::narrow(bands, 1, 0, n));
        let im = model::unary(UnOp::Sqr, model::narrow(bands, 1, n, n));
        model::unary(UnOp::Sqrt, model::binary(BinOp::Plus, re, im))
    }

    /// The logarithmic mel spectrogram of `y`.
    #[verifier::opaque]
    pub open spec fn apply(&self, y: TensorView) -> TensorView {
        let m = self.magnitude(y);
        let basis = model::broadcast_to(
            model::unsqueeze(model::cast(self.mel_basis@, m.dtype), 0),
            seq![m.dims[0], self.mel_basis@.dims[0], m.dims[1]],
        );
        model::unary(UnOp::Log, model::clamp(model::matmul(basis, m), MEL_FLOOR, INFINITY))
    }

    /// The shape of sound of this shape as `(B, 1, T)` with zeros in front of it.
    pub open spec fn framed_dims(&self, d: Seq<nat>) -> Seq<nat> {
        let left = if self.win_length > self.hop_length {
            (self.win_length - self.hop_length) as nat
        } else {
            0
        };
        seq![d[0], 1, left + d.last()]
    }

    /// The number of frames of sound of this shape.
    pub open spec fn frames(&self, d: Seq<nat>) -> nat {
        model::windows(
            self.framed_dims(d)[2],
            self.forward_basis@.dims[2],
            0,
            self.hop_length as nat,
            1,
        )
    }

    /// The shape of the spectrogram of sound of this shape.
    pub open spec fn dims_out(&self, d: Seq<nat>) -> Seq<nat> {
        seq![d[0], self.mel_basis@.dims[0], self.frames(d)]
    }

    /// Whether the magnitudes of sound of this shape can be computed, in main memory and in
    /// single precision.
    pub open spec fn measures(&self, d: Seq<nat>) -> bool {
        let basis = self.forward_basis@.dims;
        &&& d.len() == 2 || (d.len() == 3 && d[1] == 1)
        &&& model::numel(self.framed_dims(d)) > 0 && model::fits(self.framed_dims(d))
        &&& self.forward_basis.usable() && basis.len() == 3 && basis[1] == 1 && model::numel(basis) > 0
        &&& model::has_window(self.framed_dims(d)[2], basis[2], 0, self.hop_length as nat, 1)
        &&& model::fits(seq![d[0], basis[0], self.frames(d)])
    }

    /// Whether the spectrogram of sound of this shape can be computed, in main memory and in
    /// single precision.
    pub open spec fn accepts_shape(&self, d: Seq<nat>) -> bool {
        let (mels, n) = (self.mel_basis@.dims[0], self.forward_basis@.dims[0] / 2);
        &&& self.measures(d)
        &&& self.mel_basis.usable() && self.mel_basis@.dims == seq![mels, n]
        &&& model::fits(seq![d[0], mels, n])
        &&& model::fits(self.dims_out(d))
    }

    fn compute_magnitude(&self, y: &Array) -> (r: Result<Array, Failure>)
        ensures
            r matches Ok(t) ==> t@ == self.magnitude(y@),
            y.on_cpu() && y@.dtype == Dtype::F32 && self.measures(y@.dims) ==> (r matches Ok(t) && t.on_cpu()
                && t@.dtype == Dtype::F32 && t@.dims == seq![
                y@.dims[0],
                self.forward_basis@.dims[0] / 2,
                self.frames(y@.dims),
            ]),
    {
        let ghost fine = y.on_cpu() && y@.dtype == Dtype::F32 && self.measures(y@.dims);
        let ghost d = y@.dims;
        let y = if y.rank() == 2 {
            y.unsqueeze(1)?
        } else {
            y.clone()
        };
        let left: usize = if self.win_length > self.hop_length {
            self.win_length - self.hop_length
        } else {
            0
        };
        proof {
            if fine {
                lemmas::lemma_pad(y@, 2, left as nat, 0);
                assert(y@.dims =~= seq![d[0], 1, d.last()]);
                assert(y@.dims.update(2, left as nat + y@.dims[2] + 0) =~= self.framed_dims(d));
                lemmas::lemma_numel3(d[0], 1, self.framed_dims(d)[2]);
                lemmas::lemma_extent_is_numel(self.framed_dims(d));
                lemmas::lemma_factors(d[0], 1, self.framed_dims(d)[2]);
            }
        }
        let y = y.pad_with_zeros(2, left, 0)?;
        let basis = self.forward_basis.to_dtype(y.dtype())?;
        proof {
            reveal(model::conv1d);
        }
        let bands = y.conv1d(&basis, &None, 0, self.hop_length, 1, 1)?;
        let n_freqs: usize = bands.dim(1)? / 2;
        proof {
            lemmas::lemma_narrow_dims(bands@, 1, 0, n_freqs as nat);
            lemmas::lemma_narrow_dims(bands@, 1, n_freqs as nat, n_freqs as nat);
            if fine {
                assert(bands@.dims.update(1, n_freqs as nat) =~= seq![
                    d[0],
                    self.forward_basis@.dims[0] / 2,
                    self.frames(d),
                ]);
            }
        }
        let re = bands.narrow(1, 0, n_freqs)?.unary(UnOp::Sqr)?;
        let im = bands.narrow(1, n_freqs, n_freqs)?.unary(UnOp::Sqr)?;
        re.pairwise(BinOp::Plus, &im)?.unary(UnOp::Sqrt)
    }

    pub fn mel_spectrogram(&self, y: &Array) -> (r: Result<Array, Failure>)
        ensures
            r matches Ok(t) ==> t@ == self.apply(y@),
            y.on_cpu() && y@.dtype == Dtype::F32 && self.accepts_shape(y@.dims) ==> (r matches Ok(t) && t.on_cpu()
                && t@.dtype == Dtype::F32 && t@.dims == self.dims_out(y@.dims)),
    {
        let ghost fine = y.on_cpu() && y@.dtype == Dtype::F32 && self.accepts_shape(y@.dims);
        proof {
            reveal(MelStft::apply);
        }
        let magnitude = self.compute_magnitude(y)?;
        let (batch, n_freqs, _frames) = magnitude.dims3()?;
        let n_mels: usize = self.mel_basis.dim(0)?;
        let dims: Vec<usize> = vec![batch, n_mels, n_freqs];
        assert(model::nats(dims@) =~= seq![batch as nat, n_mels as nat, n_freqs as nat]);
        proof {
            reveal(model::broadcast_to);
            if fine {
                assert(self.mel_basis@.dims.insert(0, 1) =~= seq![1, n_mels as nat, n_freqs as nat]);
                assert(model::nats(dims@).drop_last().push(self.frames(y@.dims)) =~= self.dims_out(y@.dims));
            }
        }
        let basis = self.mel_basis.to_dtype(magnitude.dtype())?.unsqueeze(0)?.expand(&dims)?.contiguous()?;
        let mel = basis.matmul(&magnitude.contiguous()?)?;
        mel.clamp(MEL_FLOOR, INFINITY)?.unary(UnOp::Log)
    }
}

/// A vocoder whose waveform is brought to three times its sampling rate: a second vocoder
/// adds the high frequencies to the resampled waveform.
pub struct VocoderWithBwe {
    pub vocoder: Vocoder,
    pub bwe_generator: Vocoder,
    pub mel_stft: MelStft,
    pub resampler: UpSample1d,
    pub input_sampling_rate: usize,
    pub output_sampling_rate: usize,
    pub hop_length: usize,
}

/// The dilations of the residual blocks.
pub open spec fn bwe_dilations() -> Seq<Seq<usize>> {
    seq![seq![1usize, 3, 5], seq![1usize, 3, 5], seq![1usize, 3, 5]]
}

/// The vocoder for the low frequencies.
pub open spec fn base_plan() -> VocoderPlan {
    VocoderPlan {
        rates: seq![5usize, 2, 2, 2, 2, 2],
        kernel_sizes: seq![11usize, 4, 4, 4, 4, 4],
        res_kernel_sizes: seq![3usize, 7, 11],
        res_dilations: bwe_dilations(),
        initial_channel: 1536,
        stereo: true,
        amp: true,
        tanh: false,
        final_activation: true,
        final_bias: false,
    }
}

/// The vocoder for the high frequencies.
pub open spec fn bwe_plan() -> VocoderPlan {
    VocoderPlan {
        rates: seq![6usize, 5, 2, 2, 2],
        kernel_sizes: seq![12usize, 11, 4, 4, 4],
        res_kernel_sizes: seq![3usize, 7, 11],
        res_dilations: bwe_dilations(),
        initial_channel: 512,
        stereo: true,
        amp: true,
        tanh: false,
        final_activation: false,
        final_bias: false,
    }
}

#[verifier::spinoff_prover]
fn load_bwe_part(
    rates: Vec<usize>,
    kernel_sizes: Vec<usize>,
    initial_channel: usize,
    final_activation: bool,
    vb: &Weights,
) -> (r: Result<Vocoder, Failure>)
    ensures
        r matches Ok(v) ==> v.loaded(
            (VocoderPlan {
                rates: rates@,
                kernel_sizes: kernel_sizes@,
                initial_channel: initial_channel as nat,
                final_activation,
                ..base_plan()
            }),
            vb@,
        ),
        ({
            let plan = VocoderPlan {
                rates: rates@,
                kernel_sizes: kernel_sizes@,
                initial_channel: initial_channel as nat,
                final_activation,
                ..base_plan()
            };
            &&& r is Ok ==> Vocoder::present(plan, vb@)
            &&& vb@.sound() && rates.len() <= 100 && Vocoder::present(plan, vb@) ==> r is Ok
        }),
{
    let res_kernels: Vec<usize> = vec![3, 7, 11];
    let d0: Vec<usize> = vec![1, 3, 5];
    let d1: Vec<usize> = vec![1, 3, 5];
    let d2: Vec<usize> = vec![1, 3, 5];
    assert(d0@ =~= seq![1usize, 3, 5] && d1@ =~= d0@ && d2@ =~= d0@);
    let dilations: Vec<Vec<usize>> = vec![d0, d1, d2];
    assert(res_kernels@ =~= seq![3usize, 7, 11]);
    assert(nested(dilations@) =~= bwe_dilations());
    proof {
        assert forall|j: int| 0 <= j < 3 implies resnet::reaches(
            #[trigger] res_kernels@[j] as nat,
            bwe_dilations()[j],
        ) by {
            let k = res_kernels@[j] as nat;
            let d = bwe_dilations()[j];
            assert(d == seq![1usize, 3, 5]);
            assert forall|i: int| 0 <= i < d.len() implies (#[trigger] d[i]) * (k - 1) <= usize::MAX by {
                let n = d[i] as int;
                assert(n * (k - 1) <= 50) by (nonlinear_arith)
                    requires
                        0 <= n <= 5,
                        1 <= k <= 11,
                ;
            }
        }
    }
    Vocoder::new_with_options(
        &rates,
        &kernel_sizes,
        &res_kernels,
        &dilations,
        initial_channel,
        true,
        true,
        false,
        final_activation,
        false,
        vb,
    )
}

impl VocoderWithBwe {
    /// Whether this is the vocoder that a checkpoint holds.
    pub open spec fn loaded(&self, vb: WeightsView) -> bool {
        &&& self.vocoder.loaded(base_plan(), vb.pp("vocoder"@))
        &&& self.bwe_generator.loaded(bwe_plan(), vb.pp("bwe_generator"@))
        &&& self.mel_stft.loaded(80, 512, vb.pp("mel_stft"@))
        &&& self.resampler.is_hann(3)
        &&& self.input_sampling_rate == 16000
        &&& self.output_sampling_rate == 48000
        &&& self.hop_length == 80
    }

    /// Whether a checkpoint holds both vocoders and the transform between them.
    pub open spec fn present(vb: WeightsView) -> bool {
        &&& Vocoder::present(base_plan(), vb.pp("vocoder"@))
        &&& Vocoder::present(bwe_plan(), vb.pp("bwe_generator"@))
        &&& MelStft::present(512, vb.pp("mel_stft"@))
    }

    pub fn new(vb: &Weights) -> (r: Result<VocoderWithBwe, Failure>)
        ensures
            r matches Ok(v) ==> v.loaded(vb@),
            r is Ok ==> VocoderWithBwe::present(vb@),
            vb@.sound() && VocoderWithBwe::present(vb@) ==> r is Ok,
    {
        proof {
            lemmas::lemma_extent1(filters::hann_size(3));
        }
        let rates: Vec<usize> = vec![5, 2, 2, 2, 2, 2];
        let kernels: Vec<usize> = vec![11, 4, 4, 4, 4, 4];
        assert(rates@ =~= base_plan().rates);
        assert(kernels@ =~= base_plan().kernel_sizes);
        let vocoder = load_bwe_part(rates, kernels, 1536, true, &vb.pp("vocoder"))?;
        let rates: Vec<usize> = vec![6, 5, 2, 2, 2];
        let kernels: Vec<usize> = vec![12, 11, 4, 4, 4];
        assert(rates@ =~= bwe_plan().rates);
        assert(kernels@ =~= bwe_plan().kernel_sizes);
        let bwe_generator = load_bwe_part(rates, kernels, 512, false, &vb.pp("bwe_generator"))?;
        let mel_stft = MelStft::new(512, 80, 512, &vb.pp("mel_stft"))?;
        Ok(
            VocoderWithBwe {
                vocoder,
                bwe_generator,
                mel_stft,
                resampler: UpSample1d::new_hann(3)?,
                input_sampling_rate: 16000,
                output_sampling_rate: 48000,
                hop_length: 80,
            },
        )
    }

    /// Samples of the waveform for each second.
    pub fn output_sampling_rate(&self) -> (r: u32)
        requires
            self.output_sampling_rate <= u32::MAX,
        ensures
            r == self.output_sampling_rate,
    {
        self.output_sampling_rate as u32
    }

    /// The low waveform extended by zeros to a whole number of hops.
    pub open spec fn whole_hops(&self, x: TensorView) -> TensorView {
        let over = x.dims[2] % (self.hop_length as nat);
        if over != 0 {
            model::pad_zeros(x, 2, 0, (self.hop_length - over) as nat)
        } else {
            x
        }
    }

    /// The spectrogram of each channel of a waveform.
    pub open spec fn mel_of(&self, audio: TensorView) -> TensorView {
        let (b, c, n) = (audio.dims[0], audio.dims[1], audio.dims[2]);
        let mel = self.mel_stft.apply(model::reshape(audio, seq![b * c, n]));
        model::reshape(mel, seq![b, c, mel.dims[1], mel.dims[2]])
    }

    /// The number of samples into which `n` samples are converted.
    pub open spec fn output_length(&self, n: nat) -> int {
        n * self.output_sampling_rate as int / self.input_sampling_rate as int
    }

    /// The waveform of a spectrogram.
    pub open spec fn apply(&self, mel_spec: TensorView) -> TensorView {
        let low = self.vocoder.apply(mel_spec);
        let x = self.whole_hops(low);
        let residual = self.bwe_generator.apply(model::transpose(self.mel_of(x), 2, 3));
        let sum = model::binary(BinOp::Plus, residual, self.resampler.apply(x));
        model::narrow(
            model::clamp(sum, MINUS_ONE, ONE),
            2,
            0,
            self.output_length(low.dims[2]) as nat,
        )
    }

    /// The shape of the spectrogram of each channel of a waveform of this shape.
    pub open spec fn mel_dims(&self, d: Seq<nat>) -> Seq<nat> {
        let mel = self.mel_stft.dims_out(seq![d[0] * d[1], d[2]]);
        seq![d[0], d[1], mel[1], mel[2]]
    }

    /// Whether the spectrogram of each channel of a waveform of this shape can be computed.
    pub open spec fn hears(&self, d: Seq<nat>) -> bool {
        &&& d.len() == 3 && model::numel(d) > 0
        &&& self.mel_stft.accepts_shape(seq![d[0] * d[1], d[2]])
    }

    fn compute_mel(&self, audio: &Array) -> (r: Result<Array, Failure>)
        ensures
            r matches Ok(t) ==> t@ == self.mel_of(audio@),
            r is Ok ==> audio@.rank() == 3,
            audio.on_cpu() && audio@.dtype == Dtype::F32 && self.hears(audio@.dims) ==> (r matches Ok(t)
                && t.on_cpu() && t@.dtype == Dtype::F32 && t@.dims == self.mel_dims(audio@.dims)),
    {
        let ghost fine = audio.on_cpu() && audio@.dtype == Dtype::F32 && self.hears(audio@.dims);
        let (batch, channels, samples) = audio.dims3()?;
        proof {
            if fine {
                lemmas::lemma_numel3(batch as nat, channels as nat, samples as nat);
                lemmas::lemma_numel2(batch as nat * channels as nat, samples as nat);
                lemmas::lemma_factors(batch as nat, channels as nat, samples as nat);
                lemmas::lemma_extent_is_numel(audio@.dims);
                lemmas::lemma_extent_is_numel(seq![batch as nat * channels as nat, samples as nat]);
            }
        }
        let count: usize = match batch.checked_mul(channels) {
            Some(n) => n,
            None => {
                return Err(Failure::Overflow);
            },
        };
        let flat = audio.reshape2(count, samples)?;
        let mel = self.mel_stft.mel_spectrogram(&flat)?;
        let (_n, n_mels, frames) = mel.dims3()?;
        proof {
            if fine {
                let (b, c, m, f) = (batch as nat, channels as nat, n_mels as nat, frames as nat);
                assert(mel@.dims =~= seq![b * c, m, f]);
                lemmas::lemma_numel3(b * c, m, f);
                lemmas::lemma_numel4(b, c, m, f);
                lemma_extent4(b, c, m, f);
            }
        }
        mel.reshape4(batch, channels, n_mels, frames)
    }

    /// The shape of a low waveform of this shape extended to a whole number of hops.
    pub open spec fn whole_dims(&self, d: Seq<nat>) -> Seq<nat> {
        let over = d[2] % (self.hop_length as nat);
        if over != 0 {
            d.update(2, (d[2] + (self.hop_length - over)) as nat)
        } else {
            d
        }
    }

    /// The shape of the waveform of a spectrogram of this shape.
    pub open spec fn dims_out(&self, d: Seq<nat>) -> Seq<nat> {
        let low = self.vocoder.dims_out(d);
        seq![low[0], low[1], self.output_length(low[2]) as nat]
    }

    /// Whether the waveform of a spectrogram of this shape can be computed, in main memory and in
    /// single precision.
    pub open spec fn accepts_shape(&self, d: Seq<nat>) -> bool {
        let low = self.vocoder.dims_out(d);
        let x = self.whole_dims(low);
        let mel = self.mel_dims(x);
        let turned = seq![mel[0], mel[1], mel[3], mel[2]];
        &&& self.vocoder.accepts_shape(d)
        &&& self.hop_length > 0 && self.input_sampling_rate > 0
        &&& low[2] * self.output_sampling_rate <= usize::MAX
        &&& model::fits(x) && self.hears(x)
        &&& self.bwe_generator.accepts_shape(turned) && self.resampler.accepts_shape(x)
        &&& self.bwe_generator.dims_out(turned) == self.resampler.dims_out(x)
        &&& self.output_length(low[2]) <= self.resampler.dims_out(x)[2]
    }

    /// Converts spectrograms `(B, channels, time, frequency)` into waveforms.
    pub fn forward(&self, mel_spec: &Array) -> (r: Result<Array, Failure>)
        ensures
            r matches Ok(t) ==> t@ == self.apply(mel_spec@),
            mel_spec.on_cpu() && mel_spec@.dtype == Dtype::F32 && self.accepts_shape(mel_spec@.dims) ==> (
            r matches Ok(t) && t.on_cpu() && t@.dtype == Dtype::F32 && t@.dims == self.dims_out(mel_spec@.dims)),
    {
        let ghost fine = mel_spec.on_cpu() && mel_spec@.dtype == Dtype::F32 && self.accepts_shape(mel_spec@.dims);
        let low = self.vocoder.forward(mel_spec)?;
        let (_b, _c, length) = low.dims3()?;
        if self.hop_length == 0 || self.input_sampling_rate == 0 {
            return Err(Failure::Shape);
        }
        let output_length: usize = match length.checked_mul(self.output_sampling_rate) {
            Some(n) => n / self.input_sampling_rate,
            None => {
                return Err(Failure::Overflow);
            },
        };
        let remainder: usize = length % self.hop_length;
        let ghost low_dims = low@.dims;
        proof {
            if fine {
                let gap = (self.hop_length - remainder) as nat;
                lemmas::lemma_pad(low@, 2, 0, gap);
                let x = self.whole_dims(low_dims);
                if remainder != 0 {
                    assert(x =~= low_dims.update(2, 0 + low_dims[2] + gap));
                }
                assert(x =~= seq![x[0], x[1], x[2]]);
                lemmas::lemma_numel3(x[0], x[1], x[2]);
                lemmas::lemma_extent_is_numel(x);
                lemmas::lemma_factors(x[0], x[1], x[2]);
            }
        }
        let x = if remainder != 0 {
            low.pad_with_zeros(2, 0, self.hop_length - remainder)?
        } else {
            low
        };
        let mel = self.compute_mel(&x)?;
        let mel_for_bwe = mel.transpose(2, 3)?;
        proof {
            if fine {
                let d = mel@.dims;
                lemmas::lemma_permute_dims(mel@, model::swapped(4, 2, 3));
                assert(mel_for_bwe@.dims =~= seq![d[0], d[1], d[3], d[2]]);
            }
        }
        let residual = self.bwe_generator.forward(&mel_for_bwe)?;
        let skip = self.resampler.forward(&x)?;
        let out = residual.pairwise(BinOp::Plus, &skip)?.clamp(MINUS_ONE, ONE)?;
        proof {
            lemmas::lemma_narrow_dims(out@, 2, 0, output_length as nat);
            if fine {
                assert(out@.dims.update(2, output_length as nat) =~= self.dims_out(mel_spec@.dims));
            }
        }
        out.narrow(2, 0, output_length)
    }
}

/// A shape of four axes, of which the first two are not empty, takes as much room as that in
/// which those two are one.
proof fn lemma_extent4(b: nat, c: nat, m: nat, f: nat)
    requires
        b * c > 0,
    ensures
        model::extent(seq![b, c, m, f]) == model::extent(seq![b * c, m, f]),
        model::numel(seq![b, c, m, f]) == model::numel(seq![b * c, m, f]),
{
    let whole = seq![b, c];
    let one = seq![b * c];
    lemmas::lemma_numel2(b, c);
    lemmas::lemma_numel1(b * c);
    lemmas::lemma_extent_is_numel(whole);
    lemmas::lemma_extent_is_numel(one);
    lemmas::lemma_numel_push(whole, m);
    lemmas::lemma_numel_push(whole.push(m), f);
    lemmas::lemma_numel_push(one, m);
    lemmas::lemma_numel_push(one.push(m), f);
    assert(whole.push(m).push(f) =~= seq![b, c, m, f]);
    assert(one.push(m).push(f) =~= seq![b * c, m, f]);
}

/// The waveform has three times as many samples as the low one, whatever the length.
pub proof fn law_bwe_triples(v: VocoderWithBwe, vb: WeightsView, n: nat)
    requires
        v.loaded(vb),
    ensures
        v.output_length(n) == 3 * n,
{
    assert(n * 48000 == 16000 * (3 * n));
    vstd::arithmetic::div_mod::lemma_div_multiples_vanish(3 * n as int, 16000);
}

/// The number from -1 to 1 that is closest to `v`.
pub open spec fn limited(v: real) -> real {
    if v < -1real {
        -1real
    } else if v > 1real {
        1real
    } else {
        v
    }
}

/// Whether the waveforms that are put together for a spectrogram have one shape.
pub open spec fn tuned(v: VocoderWithBwe, mel_spec: TensorView) -> bool {
    let low = v.vocoder.apply(mel_spec);
    let x = v.whole_hops(low);
    let residual = v.bwe_generator.apply(model::transpose(v.mel_of(x), 2, 3));
    &&& residual.wf() && residual.rank() == 3 && residual.dtype.float()
    &&& v.resampler.apply(x).dims == residual.dims
    &&& 0 <= v.output_length(low.dims[2]) <= residual.dims[2]
}

/// The waveform of the high frequencies that belongs to a spectrogram.
pub open spec fn high_part(v: VocoderWithBwe, mel_spec: TensorView) -> TensorView {
    v.bwe_generator.apply(model::transpose(v.mel_of(v.whole_hops(v.vocoder.apply(mel_spec))), 2, 3))
}

/// The low waveform that belongs to a spectrogram, at the higher sampling rate.
pub open spec fn low_part(v: VocoderWithBwe, mel_spec: TensorView) -> TensorView {
    v.resampler.apply(v.whole_hops(v.vocoder.apply(mel_spec)))
}

proof fn lemma_sample(v: VocoderWithBwe, mel_spec: TensorView, idx: Seq<int>, f: Functions)
    requires
        tuned(v, mel_spec),
        model::in_bounds(
            high_part(v, mel_spec).dims.update(2, v.output_length(v.vocoder.apply(mel_spec).dims[2]) as nat),
            idx,
        ),
    ensures
        reals::value(v.apply(mel_spec).at(idx), f) == limited(
            reals::value(high_part(v, mel_spec).at(idx), f) + reals::value(low_part(v, mel_spec).at(idx), f),
        ),
{
    broadcast use reals::group_reading;
    reals::lemma_constants();
    let (high, low) = (high_part(v, mel_spec), low_part(v, mel_spec));
    let d = high.dims;
    let n = v.output_length(v.vocoder.apply(mel_spec).dims[2]) as nat;
    let sum = model::binary(BinOp::Plus, high, low);
    let lower = model::cast(model::number(MINUS_ONE), sum.dtype);
    let upper = model::cast(model::number(ONE), sum.dtype);
    let raised = model::binary(BinOp::Maximum, sum, lower);
    let all = model::binary(BinOp::Minimum, raised, upper);
    assert(all == model::clamp(sum, MINUS_ONE, ONE));
    assert(model::in_bounds(d, idx)) by {
        assert forall|k: int| 0 <= k < d.len() implies 0 <= #[trigger] idx[k] < d[k] by {
            assert(0 <= idx[k] < d.update(2, n)[k]);
        }
    }
    lemmas::lemma_ravel(d, idx);
    lemmas::lemma_narrow_at(all, 2, 0, n, idx);
    assert(idx.update(2, idx[2] + 0) =~= idx);
    let at = model::ravel(d, idx);
    assert(reals::value(sum.cells[at], f) == reals::value(high.cells[at], f) + reals::value(low.cells[at], f));
    assert(reals::value(lower.cells[0], f) == -1real && reals::value(upper.cells[0], f) == 1real);
}

/// Without high frequencies the waveform is the low one at the higher sampling rate, kept between -1
/// and 1.
pub proof fn law_low_part_passes(v: VocoderWithBwe, mel_spec: TensorView, idx: Seq<int>, f: Functions)
    requires
        tuned(v, mel_spec),
        reals::all_zero(high_part(v, mel_spec), f),
        model::in_bounds(
            high_part(v, mel_spec).dims.update(2, v.output_length(v.vocoder.apply(mel_spec).dims[2]) as nat),
            idx,
        ),
    ensures
        reals::value(v.apply(mel_spec).at(idx), f) == limited(reals::value(low_part(v, mel_spec).at(idx), f)),
{
    lemma_sample(v, mel_spec, idx, f);
    lemma_sample_place(v, mel_spec, idx);
}

proof fn lemma_sample_place(v: VocoderWithBwe, mel_spec: TensorView, idx: Seq<int>)
    requires
        tuned(v, mel_spec),
        model::in_bounds(
            high_part(v, mel_spec).dims.update(2, v.output_length(v.vocoder.apply(mel_spec).dims[2]) as nat),
            idx,
        ),
    ensures
        model::in_bounds(high_part(v, mel_spec).dims, idx),
        0 <= model::ravel(high_part(v, mel_spec).dims, idx) < high_part(v, mel_spec).cells.len(),
{
    let d = high_part(v, mel_spec).dims;
    let n = v.output_length(v.vocoder.apply(mel_spec).dims[2]) as nat;
    assert forall|k: int| 0 <= k < d.len() implies 0 <= #[trigger] idx[k] < d[k] by {
        assert(0 <= idx[k] < d.update(2, n)[k]);
    }
    lemmas::lemma_ravel(d, idx);
}

/// Where the low waveform is silent, the waveform is that of the high frequencies, kept between -1
/// and 1.
pub proof fn law_high_part_passes(v: VocoderWithBwe, mel_spec: TensorView, idx: Seq<int>, f: Functions)
    requires
        tuned(v, mel_spec),
        ({
            let x = v.whole_hops(v.vocoder.apply(mel_spec));
            x.wf() && reals::all_zero(x, f) && v.resampler.accepts_shape(x.dims)
        }),
        v.resampler.filter@.wf(),
        model::in_bounds(
            high_part(v, mel_spec).dims.update(2, v.output_length(v.vocoder.apply(mel_spec).dims[2]) as nat),
            idx,
        ),
    ensures
        reals::value(v.apply(mel_spec).at(idx), f) == limited(reals::value(high_part(v, mel_spec).at(idx), f)),
{
    lemma_sample(v, mel_spec, idx, f);
    lemma_sample_place(v, mel_spec, idx);
    let x = v.whole_hops(v.vocoder.apply(mel_spec));
    assert(reals::multiple(x, x, 0real, f)) by {
        assert forall|j: int| 0 <= j < x.cells.len() implies reals::value(#[trigger] x.cells[j], f) == 0real
            * reals::value(x.cells[j], f) by {
            let y = reals::value(x.cells[j], f);
            assert(0real * y == 0real) by (nonlinear_arith);
        }
    }
    resample::law_resampling_is_linear(v.resampler, x, x, 0real, f);
    let low = v.resampler.apply(x);
    reals::lemma_multiple_at(low, low, 0real, idx, f);
    let y = reals::value(low.at(idx), f);
    assert(0real * y == 0real) by (nonlinear_arith);
}

/// Where nothing is cut off, the high frequencies are what the waveform has more than the low one.
pub proof fn law_high_part_is_added(v: VocoderWithBwe, mel_spec: TensorView, idx: Seq<int>, f: Functions)
    requires
        tuned(v, mel_spec),
        model::in_bounds(
            high_part(v, mel_spec).dims.update(2, v.output_length(v.vocoder.apply(mel_spec).dims[2]) as nat),
            idx,
        ),
    ensures
        -1real <= reals::value(v.apply(mel_spec).at(idx), f) <= 1real,
        -1real < reals::value(v.apply(mel_spec).at(idx), f) < 1real ==> reals::value(v.apply(mel_spec).at(idx), f)
            - reals::value(low_part(v, mel_spec).at(idx), f) == reals::value(high_part(v, mel_spec).at(idx), f),
{
    lemma_sample(v, mel_spec, idx, f);
}

} // verus!
