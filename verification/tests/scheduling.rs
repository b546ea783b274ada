use candle_core::{DType, Device, Tensor};

use maor::array::Array;
use maor::scheduler::diffusion_step::{
    euler_step, res2s_midpoint, res2s_midpoint_at, res2s_step, res2s_step_at, Res2sWeights,
};
use maor::scheduler::guiders::{apply_guidance, cfg_delta, multi_modal_guide, projection_coef, std_scalar};
use maor::scheduler::schedule::{linear_quadratic_schedule, maor_schedule, shift_level, stretch_levels};

fn array(t: Tensor) -> Array {
    Array::new(t).unwrap()
}

fn floats(a: &Array) -> Vec<f32> {
    a.tensor().flatten_all().unwrap().to_dtype(DType::F32).unwrap().to_vec1().unwrap()
}

fn row(values: &[f32]) -> Array {
    array(Tensor::new(values, &Device::Cpu).unwrap())
}

fn level(s: f32) -> Array {
    array(Tensor::new(s, &Device::Cpu).unwrap())
}

fn levels(s: &[f32]) -> Vec<Array> {
    s.iter().map(|&x| level(x)).collect()
}

fn values(sigmas: &[Array]) -> Vec<f32> {
    sigmas.iter().map(|s| s.tensor().to_scalar::<f32>().unwrap()).collect()
}

fn bits(x: f64) -> u64 {
    x.to_bits()
}

fn phi1(z: f64) -> f64 {
    z.exp_m1() / z
}

fn phi2(z: f64) -> f64 {
    (z.exp_m1() - z) / (z * z)
}

fn weights(sigma: f64, next: f64) -> Res2sWeights {
    let h = -(next / sigma).ln();
    Res2sWeights { phi1_mid: bits(phi1(-h * 0.5)), phi1: bits(phi1(-h)), phi2: bits(phi2(-h)) }
}

#[test]
fn test_euler_step_reduces_noise() {
    let sample = row(&[1.0, 0.5, -0.3]);
    let denoised = row(&[0.8, 0.4, -0.2]);
    let sigmas = levels(&[0.5, 0.3, 0.1, 0.0]);

    let next = euler_step(&sample, &denoised, &sigmas, 0).unwrap();
    let next_vals = floats(&next);
    assert!((next_vals[0] - 0.92).abs() < 1e-5);
    assert!((next_vals[1] - 0.46).abs() < 1e-5);
    assert!((next_vals[2] - (-0.26)).abs() < 1e-5);
}

#[test]
fn test_euler_step_to_zero_sigma() {
    let sample = row(&[1.0]);
    let denoised = row(&[0.5]);
    let sigmas = levels(&[1.0, 0.0]);

    let next = euler_step(&sample, &denoised, &sigmas, 0).unwrap();
    let val = floats(&next);
    assert!((val[0] - 0.5).abs() < 1e-5);
}

#[test]
fn test_res2s_final_zero_returns_stage1() {
    let sample = row(&[1.0]);
    let denoised_stage1 = row(&[0.25]);
    let denoised_stage2 = row(&[0.75]);
    let sigmas = levels(&[0.1, 0.0]);

    let unused = Res2sWeights { phi1_mid: 0, phi1: 0, phi2: 0 };
    let next = res2s_step(&sample, &denoised_stage1, &denoised_stage2, &sigmas, 0, &unused).unwrap();
    let val = floats(&next);
    assert!((val[0] - 0.25).abs() < 1e-5);
}

#[test]
fn test_res2s_midpoint_between_sigmas() {
    let sample = row(&[1.0]);
    let denoised = row(&[0.0]);

    let w = weights(1.0, 0.25);
    let (midpoint, midpoint_sigma) =
        res2s_midpoint(&sample, &denoised, &level(1.0), &level(0.25), w.phi1_mid).unwrap().unwrap();
    let val = floats(&midpoint);
    let midpoint_sigma = midpoint_sigma.tensor().to_scalar::<f32>().unwrap();
    assert!(midpoint_sigma < 1.0 && midpoint_sigma > 0.25);
    assert!(val[0] < 1.0 && val[0] > 0.0);
    assert!((midpoint_sigma - 0.5).abs() < 1e-6);
    assert!((val[0] - 0.5).abs() < 1e-6);
}

#[test]
fn midpoint_is_none_without_noise() {
    let x = row(&[1.0]);
    assert!(res2s_midpoint(&x, &x, &level(0.5), &level(0.0), bits(1.0)).unwrap().is_none());
    assert!(res2s_midpoint(&x, &x, &level(0.5), &level(-1.0), bits(1.0)).unwrap().is_none());
}

#[test]
fn the_number_read_of_a_level_decides() {
    let (x, a, b) = (row(&[1.0]), row(&[0.25]), row(&[0.75]));
    let (sigma, next, w) = (level(0.8), level(0.2), weights(0.8, 0.2));
    let direct = floats(&res2s_step(&x, &a, &b, &levels(&[0.8, 0.2]), 0, &w).unwrap());
    for number in [0.2, 5e-324, f64::INFINITY, f64::NAN] {
        let m = res2s_midpoint_at(&x, &a, &sigma, &next, w.phi1_mid, bits(number)).unwrap();
        assert!(m.is_some());
        let t = res2s_step_at(&x, &a, &b, &sigma, &next, &w, bits(number)).unwrap();
        assert_eq!(floats(&t), direct);
    }
    for number in [0.0, -0.0, -1.0, f64::NEG_INFINITY] {
        let m = res2s_midpoint_at(&x, &a, &sigma, &next, w.phi1_mid, bits(number)).unwrap();
        assert!(m.is_none());
        let t = res2s_step_at(&x, &a, &b, &sigma, &next, &w, bits(number)).unwrap();
        assert_eq!(floats(&t), vec![0.25]);
    }
}

#[test]
fn levels_are_moved_as_they_are_read() {
    let number = |x: f64| array(Tensor::new(x, &Device::Cpu).unwrap());
    let read = |a: &Array| a.tensor().to_scalar::<f64>().unwrap();
    let e = number(2.0);
    assert_eq!(read(&shift_level(number(0.5), &e, bits(0.5)).unwrap()), 2.0 / (2.0 + (1.0 / 0.5 - 1.0)));
    for other in [0.0, 1.0, 1.5, -0.5, f64::NAN] {
        assert_eq!(read(&shift_level(number(0.5), &e, bits(other)).unwrap()), 0.5);
    }
    let sigmas = || vec![number(1.0), number(0.6), number(0.2), number(0.0)];
    let numbers = vec![bits(1.0), bits(0.6), bits(0.2), bits(0.0)];
    let moved = stretch_levels(sigmas(), &numbers, bits(0.8), bits(0.1)).unwrap();
    let moved: Vec<f64> = moved.iter().map(read).collect();
    assert_eq!(moved[0], 1.0);
    assert!((moved[1] - (1.0 - 0.4 / (0.8 / 0.9))).abs() < 1e-12);
    assert!((moved[2] - 0.1).abs() < 1e-12);
    assert_eq!(moved[3], 0.0);
    let kept = stretch_levels(sigmas(), &numbers, bits(0.0), bits(0.1)).unwrap();
    assert_eq!(kept.iter().map(read).collect::<Vec<f64>>(), vec![1.0, 0.6, 0.2, 0.0]);
    let zeros = vec![bits(0.0), bits(-0.0), bits(0.0), bits(0.0)];
    let kept = stretch_levels(sigmas(), &zeros, bits(0.8), bits(0.1)).unwrap();
    assert_eq!(kept.iter().map(read).collect::<Vec<f64>>(), vec![1.0, 0.6, 0.2, 0.0]);
}

#[test]
fn res2s_with_one_prediction_is_exponential() {
    // With the same prediction at both stages the step is exact: the distance from it shrinks
    // as the noise does.
    let sample = row(&[1.0]);
    let denoised = row(&[0.2]);
    let sigmas = levels(&[0.8, 0.2]);
    let w = weights(0.8f32 as f64, 0.2f32 as f64);
    let next = floats(&res2s_step(&sample, &denoised, &denoised, &sigmas, 0, &w).unwrap());
    assert!((next[0] - (0.2 + 0.8 * 0.25)).abs() < 1e-5);
}

#[test]
fn test_cfg_no_guidance() {
    let cond = row(&[1.0, 2.0]);
    let uncond = row(&[0.5, 1.0]);
    let delta = cfg_delta(&cond, &uncond, bits(1.0)).unwrap();
    let vals = floats(&delta);
    assert!(vals[0].abs() < 1e-6);
    assert!(vals[1].abs() < 1e-6);
}

#[test]
fn test_cfg_scale_7_5() {
    let cond = row(&[1.0]);
    let uncond = row(&[0.0]);
    let delta = cfg_delta(&cond, &uncond, bits(7.5)).unwrap();
    let val = floats(&delta);
    assert!((val[0] - 6.5).abs() < 1e-5);
    assert_eq!(floats(&apply_guidance(&cond, &delta).unwrap()), vec![7.5]);
}

#[test]
fn test_projection_coef_parallel() {
    let a = row(&[2.0, 4.0]);
    let b = row(&[1.0, 2.0]);
    let coef: f64 = projection_coef(&a, &b).unwrap().tensor().to_scalar().unwrap();
    assert!((coef - 2.0).abs() < 1e-5);
}

#[test]
fn guidance_that_is_off_changes_nothing() {
    let cond = row(&[1.0, -2.0, 0.5]);
    let other = row(&[9.0, 9.0, 9.0]);
    let out = multi_modal_guide(
        &cond,
        Some(&other),
        Some(&other),
        Some(&other),
        bits(1.0),
        bits(0.0),
        bits(1.0),
        bits(0.0),
    )
    .unwrap();
    assert_eq!(floats(&out), floats(&cond));
    let out = multi_modal_guide(&cond, None, None, None, bits(3.0), bits(1.0), bits(2.0), bits(-0.0)).unwrap();
    assert_eq!(floats(&out), floats(&cond));
}

#[test]
fn guidance_adds_up() {
    let cond = row(&[1.0]);
    let text = row(&[0.5]);
    let perturbed = row(&[0.25]);
    let modality = row(&[2.0]);
    let out = multi_modal_guide(
        &cond,
        Some(&text),
        Some(&perturbed),
        Some(&modality),
        bits(3.0),
        bits(2.0),
        bits(1.5),
        bits(0.0),
    )
    .unwrap();
    // 1 + 2 * 0.5 + 2 * 0.75 + 0.5 * (-1)
    assert!((floats(&out)[0] - 3.0).abs() < 1e-6);
}

#[test]
fn rescaling_restores_the_deviation() {
    let cond = row(&[1.0, -1.0, 1.0, -1.0]);
    let text = row(&[0.0, 0.0, 0.0, 0.0]);
    let out = multi_modal_guide(&cond, Some(&text), None, None, bits(3.0), bits(0.0), bits(1.0), bits(1.0)).unwrap();
    for (a, b) in floats(&out).iter().zip(floats(&cond)) {
        assert!((a - b).abs() < 1e-6);
    }
    let flat = row(&[2.0, 2.0]);
    let out = multi_modal_guide(&flat, Some(&flat), None, None, bits(3.0), bits(0.0), bits(1.0), bits(1.0)).unwrap();
    assert_eq!(floats(&out), vec![2.0, 2.0]);
    let std: f64 = std_scalar(&row(&[1.0, 3.0])).unwrap().tensor().to_scalar().unwrap();
    assert!((std - 1.0).abs() < 1e-12);
}

fn standard(steps: usize, tokens: Option<usize>) -> Vec<f32> {
    values(&maor_schedule(steps, tokens, bits(2.05), bits(0.95), true, bits(0.1)).unwrap())
}

#[test]
fn test_maor_schedule_length() {
    let sigmas = standard(40, None);
    assert_eq!(sigmas.len(), 41);
}

#[test]
fn test_maor_schedule_endpoints() {
    let sigmas = standard(20, None);
    assert!((sigmas[0] - 1.0).abs() < 0.01, "first sigma: {}", sigmas[0]);
    assert!(sigmas.last().unwrap().abs() < 1e-6, "last sigma: {}", sigmas.last().unwrap());
}

#[test]
fn test_maor_schedule_monotonic_decreasing() {
    let sigmas = standard(40, Some(4096));
    for i in 0..sigmas.len() - 1 {
        assert!(sigmas[i] >= sigmas[i + 1], "not monotonic at {}: {} < {}", i, sigmas[i], sigmas[i + 1]);
    }
}

#[test]
fn test_maor_schedule_stretch_terminal() {
    let sigmas = standard(20, Some(4096));
    let last_nonzero = sigmas.iter().rposition(|s| *s > 0.0).unwrap();
    assert!((sigmas[last_nonzero] - 0.1).abs() < 0.01, "last non-zero sigma: {}", sigmas[last_nonzero]);
}

#[test]
fn schedule_without_stretch_is_the_shifted_line() {
    let sigmas = values(&maor_schedule(4, Some(1024), bits(2.05), bits(0.95), false, bits(0.1)).unwrap());
    let e = 0.95f64.exp();
    for (i, s) in sigmas.iter().enumerate() {
        let line = 1.0 - i as f64 / 4.0;
        let expected = if line > 0.0 && line < 1.0 { e / (e + 1.0 / line - 1.0) } else { line };
        assert!((*s as f64 - expected).abs() < 1e-6, "{s} vs {expected}");
    }
    // A single step has nothing between one and zero, and stretching leaves it alone.
    assert_eq!(standard(1, None), vec![1.0, 0.0]);
}

#[test]
fn test_linear_quadratic_schedule_length() {
    let sigmas = linear_quadratic_schedule(20, bits(0.025), None).unwrap();
    assert_eq!(sigmas.len(), 21);
}

#[test]
fn test_linear_quadratic_schedule_single_step() {
    let sigmas = values(&linear_quadratic_schedule(1, bits(0.025), None).unwrap());
    assert_eq!(sigmas, vec![1.0, 0.0]);
}

#[test]
fn test_linear_quadratic_monotonic() {
    let sigmas = values(&linear_quadratic_schedule(40, bits(0.025), None).unwrap());
    for i in 0..sigmas.len() - 1 {
        assert!(sigmas[i] >= sigmas[i + 1], "not monotonic at {}: {} < {}", i, sigmas[i], sigmas[i + 1]);
    }
}

#[test]
fn linear_steps_take_the_threshold() {
    let sigmas = values(&linear_quadratic_schedule(4, bits(0.1), Some(4)).unwrap());
    let expected = [1.0, 0.975, 0.95, 0.925, 0.0];
    for (a, b) in sigmas.iter().zip(expected.iter()) {
        assert!((a - b).abs() < 1e-6, "{a} vs {b}");
    }
}

#[test]
fn rescaling_moves_the_deviation() {
    let cond = row(&[1.0, -1.0]);
    let none = row(&[0.0, 0.0]);
    let guided = |share: f64| {
        multi_modal_guide(&cond, Some(&none), None, None, bits(3.0), bits(0.0), bits(1.0), bits(share)).unwrap()
    };
    assert_eq!(floats(&guided(0.0)), vec![3.0, -3.0]);
    let half = floats(&guided(0.5));
    assert!((half[0] - 2.0).abs() < 1e-6 && (half[1] + 2.0).abs() < 1e-6);
    let whole = floats(&guided(1.0));
    assert!((whole[0] - 1.0).abs() < 1e-6 && (whole[1] + 1.0).abs() < 1e-6);
}

#[test]
fn rescaling_leaves_a_flat_prediction() {
    let cond = row(&[2.0, 2.0, 2.0]);
    let out = multi_modal_guide(&cond, None, None, None, bits(1.0), bits(0.0), bits(1.0), bits(0.7)).unwrap();
    assert_eq!(floats(&out), vec![2.0, 2.0, 2.0]);
}

#[test]
fn projection_onto_a_small_vector() {
    let coef = projection_coef(&row(&[2e-6, 1.0]), &row(&[1e-6, 0.0])).unwrap();
    let c: f64 = coef.tensor().to_scalar().unwrap();
    assert!((c - 2.0).abs() < 1e-6, "{c}");
}
