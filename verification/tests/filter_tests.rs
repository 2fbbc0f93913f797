use synth::filters::{Filter, LowPass, SimpleReverb};

#[test]
fn low_pass_zero_is_a_fixed_point() {
    // DC input of 0 yields output 0 forever.
    let mut f = LowPass::new(100);
    for _ in 0..10_000 {
        assert_eq!(f.process(0), 0);
        assert_eq!(f.last_output, 0);
    }
}

#[test]
fn echo_zero_is_a_fixed_point() {
    let mut f = SimpleReverb::new(48_000, 100, 500, 500);
    for _ in 0..10_000 {
        assert_eq!(f.process(0), 0);
    }
    assert!(f.delay_line.iter().all(|&v| v == 0));
}

#[test]
fn filter_chain_zero_is_a_fixed_point() {
    let mut chain = vec![
        Filter::LowPass(LowPass::new(100)),
        Filter::Echo(SimpleReverb::new(48_000, 100, 500, 500)),
    ];
    for _ in 0..5_000 {
        let mut sample: i64 = 0;
        for f in chain.iter_mut() {
            sample = f.process(sample);
        }
        assert_eq!(sample, 0);
    }
}

#[test]
fn low_pass_smooths_a_step() {
    // y += cutoff * (x - y): with cutoff 0.1 the first outputs for a
    // unit step are 0.1, 0.19, 0.271, ...
    let mut f = LowPass::new(100);
    assert_eq!(f.process(1_000_000), 100_000);
    assert_eq!(f.process(1_000_000), 190_000);
    assert_eq!(f.process(1_000_000), 271_000);
}

#[test]
fn low_pass_output_never_overshoots() {
    let mut f = LowPass::new(700);
    let target: i64 = 123_456_789;
    let mut last: i64 = 0;
    for _ in 0..200 {
        let y = f.process(target);
        assert!(last <= y && y <= target);
        last = y;
    }
}

#[test]
fn echo_delays_by_its_line_length() {
    // 100 ms at 48 kHz is 4800 samples; mix 0.5 passes half the input
    // through dry and half of the delayed signal wet.
    let mut f = SimpleReverb::new(48_000, 100, 500, 500);
    assert_eq!(f.delay_line.len(), 4800);
    assert_eq!(f.process(1_000_000), 500_000); // dry half, delayed cell is 0
    for _ in 0..4799 {
        assert_eq!(f.process(0), 0);
    }
    // The impulse written 4800 samples ago arrives: wet half only.
    assert_eq!(f.process(0), 500_000);
}

#[test]
fn echo_clamps_feedback_and_mix_at_construction() {
    let f = SimpleReverb::new(48_000, 100, 5_000, 2_000);
    assert_eq!(f.feedback, 990);
    assert_eq!(f.mix, 1000);
    let f = SimpleReverb::new(48_000, 100, -3, -4);
    assert_eq!(f.feedback, 0);
    assert_eq!(f.mix, 0);
}

#[test]
fn echo_line_is_never_empty() {
    // Even at a rate too low for the delay time, one cell remains.
    let f = SimpleReverb::new(1, 100, 500, 500);
    assert_eq!(f.delay_line.len(), 1);
}
