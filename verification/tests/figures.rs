use lumen_dev::device::node::Rgb;
use lumen_dev::dual_core::compare;
use lumen_dev::dual_core::join;
use lumen_dev::dual_core::speed;
use lumen_dev::dual_core::Worker;
use lumen_dev::throughput::figures::figures;
use lumen_dev::throughput::figures::Pixel;
use lumen_dev::throughput::figures::Run;
use lumen_dev::throughput::histo::file_name;
use lumen_dev::throughput::histo::histogram;
use lumen_dev::throughput::histo::summary_line;
use lumen_dev::throughput::opcost::cost;
use lumen_dev::throughput::opcost::fit;
use lumen_dev::throughput::opcost::ns_per_run;
use lumen_dev::throughput::probes::nops;
use lumen_dev::throughput::probes::program_for;
use lumen_dev::throughput::probes::Declared;
use lumen_dev::throughput::probes::Ins;
use lumen_dev::throughput::probes::Shape;

#[test]
fn a_run_comes_to_its_figures() {
    assert_eq!(figures(0), None);
    // Thirty frames at 14 467 microseconds each.
    let f = figures(14_467 * 30).unwrap();
    assert_eq!(f.per_frame_us, 14_467);
    assert_eq!(f.per_pixel_centi, 4_822);
    assert_eq!(f.percent, 86);
    assert_eq!(f.max_fps, 69);
    let f = figures(4_496 * 30).unwrap();
    assert_eq!((f.per_pixel_centi, f.percent, f.max_fps), (1_498, 26, 222));
    let short = figures(29).unwrap();
    assert_eq!((short.per_frame_us, short.max_fps), (0, 0));
    assert!(figures(u64::MAX).is_some());
}

#[test]
fn a_run_that_faults_comes_to_nothing() {
    let mut r = Run::new();
    assert!(r.frame(true));
    assert!(r.pixel(Pixel::Colour));
    assert!(r.pixel(Pixel::Nothing));
    assert!(r.pixel(Pixel::Colour));
    assert_eq!(r.finish(55), (55, 2));
    assert!(!r.pixel(Pixel::Fault));
    assert_eq!(r.finish(55), (0, 0));
    let mut s = Run::new();
    assert!(!s.frame(false));
    assert_eq!(s.finish(9), (0, 0));
}

#[test]
fn the_dispatch_is_fitted() {
    assert_eq!(ns_per_run(30_776), 15_388);
    let f = fit(16, 15_388, 256, 216_385).unwrap();
    assert_eq!(f.per_instruction_centi, 83_748);
    assert_eq!(f.cycles, 133);
    // 15 388 - 837 * 16
    assert_eq!(f.overhead_ns, 1_996);
    let line = fit(16, 100 + 7 * 16, 256, 100 + 7 * 256).unwrap();
    assert_eq!((line.per_instruction_centi, line.overhead_ns), (700, 100));
    assert_eq!(fit(16, 10, 16, 20), None);
    assert_eq!(fit(16, 20, 256, 20), None);
    assert_eq!(fit(1_000, 5, 1_001, 100).unwrap().overhead_ns, 0);
}

#[test]
fn an_instruction_costs_what_it_costs() {
    // 64 instructions, 6 400 nanoseconds above the baseline.
    let c = cost(60_000, 53_600, 10);
    assert_eq!(c.above_centi, 10_000);
    assert_eq!(c.actual_ns, 937);
    assert_eq!(c.percent, 93);
    let nop = cost(53_600, 53_600, 8);
    assert_eq!((nop.above_centi, nop.actual_ns, nop.percent), (0, 837, 104));
    assert_eq!(cost(1, 53_600, 8).actual_ns, 837);
    assert_eq!(cost(60_000, 53_600, 0).percent, 0);
}

#[test]
fn probes_repeat_one_instruction() {
    let d = Declared { half: 0, two: 1, palette: 2, channel: 3 };
    let p = program_for(Shape::Plain, d);
    assert_eq!(p.len(), 67);
    assert_eq!(p[0], Ins::LoadConstant { dst: 16, constant: 0 });
    assert_eq!(p[1], Ins::LoadConstant { dst: 17, constant: 1 });
    assert!(p[2..66].iter().all(|i| *i == Ins::Measured { dst: 20, a: 16, b: 17 }));
    assert_eq!(p[66], Ins::Emit { r: 16, g: 16, b: 16 });
    assert_eq!(program_for(Shape::Run, d)[2], Ins::Measured { dst: 20, a: 16, b: 0 });
    assert_eq!(program_for(Shape::Palette, d)[2], Ins::Measured { dst: 20, a: 16, b: 2 });
    assert_eq!(program_for(Shape::Channel, d)[2], Ins::Measured { dst: 20, a: 3, b: 0 });
    assert_eq!(program_for(Shape::Previous, d)[2], Ins::Measured { dst: 20, a: 0, b: 0 });
    assert_eq!(
        program_for(Shape::Constant, d)[2],
        Ins::MeasuredConstant { dst: 20, constant: 0 }
    );
    let idle = nops(16);
    assert_eq!(idle.len(), 17);
    assert!(idle[..16].iter().all(|i| *i == Ins::Nop));
    assert_eq!(idle[16], Ins::Emit { r: 0, g: 0, b: 0 });
}

#[test]
fn instructions_are_ranked_by_how_often_they_occur() {
    let names: Vec<String> = ["Mul", "Add", "Nop", "Add", "Mul", "Lerp", "Add"]
        .iter()
        .map(|s| s.to_string())
        .collect();
    let h = histogram(&names);
    assert_eq!(summary_line(&h), "Addx3 Mulx2 Lerpx1 Nopx1");
    assert_eq!(summary_line(&histogram(&[])), "");
    let prefixes: Vec<String> = ["Log2", "Log", "Lerp"].iter().map(|s| s.to_string()).collect();
    assert_eq!(summary_line(&histogram(&prefixes)), "Lerpx1 Logx1 Log2x1");
}

#[test]
fn the_last_part_of_a_path() {
    assert_eq!(file_name("a/b\\c.lfxb"), "c.lfxb");
    assert_eq!(file_name("c.lfxb"), "c.lfxb");
    assert_eq!(file_name("a/"), "");
    assert_eq!(file_name(""), "");
}

#[test]
fn two_cores_against_one() {
    let s = speed(17_169 * 30, 8_245 * 30);
    assert_eq!((s.one_us, s.two_us), (17_169, 8_245));
    assert_eq!(s.speedup_centi, 208);
    assert_eq!(s.percent, 49);
    assert_eq!(speed(100, 0).speedup_centi, 0);
}

#[test]
fn pictures_are_the_same_or_not() {
    let px = |i: i32| Rgb { r: i, g: 0, b: -i };
    let a: Vec<Rgb> = (0..4).map(px).collect();
    let mut b = a.clone();
    assert_eq!(compare(&a, &b), (true, 0));
    b[2].b = 7;
    assert_eq!(compare(&a, &b), (false, 1));
    assert_eq!(compare(&a, &a[..3]), (false, 0));
    let back: Vec<Rgb> = (10..13).map(px).collect();
    join(&mut b, &back, 2);
    assert_eq!(b, vec![px(0), px(1), px(10), px(11)]);
}

#[test]
fn a_frame_is_drawn_once() {
    let mut w = Worker::new();
    assert!(!w.take(0));
    assert!(w.take(1));
    assert!(!w.take(1));
    assert!(w.take(2));
    // A new run starts over.
    assert!(w.take(1));
}
