use raytracer::trace::{trace_step, TraceStep, MAX_DEPTH};

#[test]
fn primary_ray_that_hits_is_shaded_one_level_down() {
    assert_eq!(trace_step(0, true), TraceStep::Shade { child_depth: 1 });
}

#[test]
fn ray_that_misses_ends_in_background() {
    assert_eq!(trace_step(0, false), TraceStep::Background);
    assert_eq!(trace_step(3, false), TraceStep::Background);
}

#[test]
fn deepest_level_still_shades() {
    assert_eq!(MAX_DEPTH, 4);
    assert_eq!(trace_step(4, true), TraceStep::Shade { child_depth: 5 });
}

#[test]
fn past_the_bound_a_hit_ends_in_background() {
    assert_eq!(trace_step(5, true), TraceStep::Background);
    assert_eq!(trace_step(6, true), TraceStep::Background);
    assert_eq!(trace_step(usize::MAX, true), TraceStep::Background);
}

#[test]
fn a_chain_of_hits_shades_five_levels() {
    let mut depth = 0usize;
    let mut shaded = 0usize;
    while let TraceStep::Shade { child_depth } = trace_step(depth, true) {
        shaded += 1;
        depth = child_depth;
    }
    assert_eq!(shaded, 5);
    assert_eq!(depth, 5);
}
