use butterbrot::sampler::{proposal_for, propose, select_trace, Attempt, MHOrbits, Proposal, Verdict};
use rand::Rng;

#[test]
fn budget_is_the_sample_count() {
    let chain = MHOrbits::new(5, 30, 4, 2);
    assert_eq!(chain.remaining(), 5);
    assert!(!chain.finished());
    assert!(chain.warming_up());
    assert_eq!(chain.warmup_left(), 30);
    assert_eq!(chain.length(), 2);
    assert_eq!(chain.iterations(), 4);
}

#[test]
fn empty_budget_is_finished() {
    assert!(MHOrbits::new(0, 0, 10, 0).finished());
    assert!(MHOrbits::new(0, 7, 10, 0).finished());
    assert_eq!(MHOrbits::new(0, 7, 10, 0).remaining(), 0);
    assert!(MHOrbits::new(-3, 1, 10, 0).finished());
    assert_eq!(MHOrbits::new(-3, 1, 10, 0).remaining(), -3);
}

#[test]
fn negative_warmup_is_no_warmup() {
    let mut chain = MHOrbits::new(1, -5, 10, 0);
    assert!(!chain.warming_up());
    assert_eq!(chain.warmup_left(), 0);
    assert_eq!(chain.step(Attempt::Accepted { trace_len: 1 }), Verdict::Emit);
}

#[test]
fn only_acceptance_uses_budget() {
    let mut chain = MHOrbits::new(2, 0, 100, 7);
    assert_eq!(chain.step(Attempt::Bound), Verdict::Retry);
    assert_eq!(chain.remaining(), 2);
    assert_eq!(chain.length(), 7);
    assert_eq!(chain.step(Attempt::Rejected), Verdict::Retry);
    assert_eq!(chain.remaining(), 2);
    assert_eq!(chain.length(), 7);
    assert_eq!(chain.step(Attempt::Accepted { trace_len: 13 }), Verdict::Emit);
    assert_eq!(chain.remaining(), 1);
    assert_eq!(chain.length(), 13);
    assert!(!chain.finished());
    assert_eq!(chain.step(Attempt::Accepted { trace_len: 0 }), Verdict::Emit);
    assert_eq!(chain.remaining(), 0);
    assert_eq!(chain.length(), 0);
    assert!(chain.finished());
}

#[test]
fn exhausted_chain_yields_nothing() {
    let mut chain = MHOrbits::new(1, 0, 100, 7);
    assert_eq!(chain.step(Attempt::Accepted { trace_len: 3 }), Verdict::Emit);
    for attempt in [Attempt::Accepted { trace_len: 9 }, Attempt::Bound, Attempt::Rejected] {
        assert_eq!(chain.step(attempt), Verdict::Exhausted);
        assert_eq!(chain.remaining(), 0);
        assert_eq!(chain.length(), 3);
        assert!(chain.finished());
    }
}

#[test]
fn warmup_is_discarded_and_costs_no_budget() {
    let mut chain = MHOrbits::new(5, 30, 4, 0);
    assert_eq!(chain.step(Attempt::Bound), Verdict::Retry);
    assert_eq!(chain.step(Attempt::Rejected), Verdict::Retry);
    assert_eq!(chain.warmup_left(), 30);
    for done in 1..=30 {
        assert!(chain.warming_up());
        assert_eq!(chain.step(Attempt::Accepted { trace_len: done }), Verdict::Discard);
        assert_eq!(chain.warmup_left(), 30 - done);
        assert_eq!(chain.length(), done);
        assert_eq!(chain.remaining(), 5);
    }
    assert!(!chain.warming_up());
    assert!(!chain.finished());
    let mut emitted = 0;
    while chain.step(Attempt::Accepted { trace_len: 2 }) == Verdict::Emit {
        emitted += 1;
        assert_eq!(chain.remaining(), 5 - emitted);
    }
    assert_eq!(emitted, 5);
    assert!(chain.finished());
    assert_eq!(chain.remaining(), 0);
    assert_eq!(chain.step(Attempt::Accepted { trace_len: 2 }), Verdict::Exhausted);
}

#[test]
fn warmup_runs_even_for_an_empty_budget() {
    let mut chain = MHOrbits::new(0, 2, 4, 0);
    assert!(chain.finished());
    assert_eq!(chain.step(Attempt::Accepted { trace_len: 1 }), Verdict::Discard);
    assert_eq!(chain.step(Attempt::Accepted { trace_len: 1 }), Verdict::Discard);
    assert_eq!(chain.step(Attempt::Accepted { trace_len: 1 }), Verdict::Exhausted);
    assert_eq!(chain.remaining(), 0);
}

#[test]
fn select_trace_keeps_points_inside() {
    assert_eq!(select_trace(&vec![true, false, false, true, true, false]), vec![0, 3, 4]);
    assert_eq!(select_trace(&vec![false, false]), Vec::<usize>::new());
    assert_eq!(select_trace(&vec![]), Vec::<usize>::new());
    assert_eq!(select_trace(&vec![true, true, true]), vec![0, 1, 2]);
    // a last point outside the rectangle is not part of the trace
    assert_eq!(select_trace(&vec![false, true, false]), vec![1]);
}

#[test]
fn proposal_is_fresh_on_highest_face_only() {
    for roll in 0..5 {
        assert_eq!(proposal_for(roll), Proposal::Nearby);
    }
    assert_eq!(proposal_for(5), Proposal::Fresh);
}

#[test]
fn propose_gives_both_kinds() {
    let mut rng = rand::thread_rng();
    let mut fresh = 0;
    let mut nearby = 0;
    for _ in 0..6000 {
        match propose(&mut rng) {
            Proposal::Fresh => fresh += 1,
            Proposal::Nearby => nearby += 1,
        }
    }
    assert_eq!(fresh + nearby, 6000);
    // one in six is fresh: far from none and far from half
    assert!(fresh > 500 && fresh < 1500, "fresh = {}", fresh);
}

/// One step of `z = z * z + c`.
fn mandelbrot_step(c: (f64, f64), z: (f64, f64)) -> (f64, f64) {
    (z.0 * z.0 - z.1 * z.1 + c.0, 2.0 * z.0 * z.1 + c.1)
}

/// The first `n` points of the orbit of `c`.
fn orbit(c: (f64, f64), n: i32) -> Vec<(f64, f64)> {
    let mut points = Vec::new();
    let mut z = (0.0, 0.0);
    for _ in 0..n {
        z = mandelbrot_step(c, z);
        points.push(z);
    }
    points
}

fn modulus(z: (f64, f64)) -> f64 {
    (z.0 * z.0 + z.1 * z.1).sqrt()
}

fn escaping_seed(rng: &mut rand::rngs::ThreadRng, iterations: i32) -> (f64, f64) {
    loop {
        let c = (rng.gen_range(-2f64, 2f64), rng.gen_range(-2f64, 2f64));
        if modulus(*orbit(c, iterations).last().unwrap()) >= 2.0 {
            return c;
        }
    }
}

#[test]
fn mh_orbits_struct() {
    let (sample_count, warmup, iterations) = (5, 30, 4);
    let lower = (-1f64, -7.0);
    let upper = (10.0, 10.0);
    let inside = |z: &(f64, f64)| lower.0 <= z.0 && z.0 < upper.0 && lower.1 <= z.1 && z.1 < upper.1;

    let mut rng = rand::thread_rng();
    let mut sample = escaping_seed(&mut rng, iterations);
    let flags: Vec<bool> = orbit(sample, iterations).iter().map(inside).collect();
    let mut mh_orbit = MHOrbits::new(sample_count, warmup, iterations, select_trace(&flags).len() as i32);
    assert_eq!(mh_orbit.remaining(), 5);
    assert!(!mh_orbit.finished());

    let mut traces: Vec<Vec<(f64, f64)>> = Vec::new();
    let mut discarded = 0;
    let mut attempts = 0;
    while !mh_orbit.finished() {
        attempts += 1;
        assert!(attempts < 1_000_000);
        let candidate = match propose(&mut rng) {
            Proposal::Fresh => escaping_seed(&mut rng, iterations),
            Proposal::Nearby => {
                let phi = rng.gen_range(0f64, 1f64) * std::f64::consts::PI * 2f64;
                let radius = 0.05 * rng.gen_range(0f64, 1f64);
                (sample.0 + radius * phi.cos(), sample.1 + radius * phi.sin())
            }
        };
        let points = orbit(candidate, iterations);
        let mut trace = Vec::new();
        let attempt = if modulus(points[points.len() - 1]) < 2.0 {
            Attempt::Bound
        } else {
            let flags: Vec<bool> = points.iter().map(inside).collect();
            trace = select_trace(&flags).into_iter().map(|k| points[k]).collect();
            let ratio = trace.len() as f64 / mh_orbit.length() as f64;
            if 1f64.min(ratio.powi(3)) < rng.gen_range(0f64, 1f64) {
                Attempt::Rejected
            } else {
                Attempt::Accepted { trace_len: trace.len() as i32 }
            }
        };
        let before = mh_orbit.remaining();
        match mh_orbit.step(attempt) {
            Verdict::Emit => {
                assert_eq!(discarded, warmup);
                assert_eq!(mh_orbit.remaining(), before - 1);
                assert_eq!(mh_orbit.length(), trace.len() as i32);
                sample = candidate;
                traces.push(trace);
            }
            Verdict::Discard => {
                assert!(traces.is_empty());
                assert_eq!(mh_orbit.remaining(), before);
                assert_eq!(mh_orbit.length(), trace.len() as i32);
                sample = candidate;
                discarded += 1;
            }
            Verdict::Retry => assert_eq!(mh_orbit.remaining(), before),
            Verdict::Exhausted => unreachable!(),
        }
    }

    assert_eq!(discarded, 30);
    assert_eq!(traces.len(), 5);
    assert_eq!(mh_orbit.remaining(), 0);
    for i in traces.iter() {
        println!(":=========================================:");
        assert!(i.len() <= iterations as usize);
        for j in i {
            println!("Complex number:\t{{ real: {}, jmag: {} }}", j.0, j.1);
            assert!(inside(j));
        }
    }
    assert_eq!(mh_orbit.step(Attempt::Accepted { trace_len: 1 }), Verdict::Exhausted);
}
