use verilator_simulation_manager::monitor::IterationMonitor;
use verilator_simulation_manager::monitor::Monitor;
use verilator_simulation_manager::monitor::NullMonitor;

#[test]
fn null_monitor_reports_nothing() {
    let mut m = NullMonitor::init();
    assert!(m.on_loop(0).is_none());
    assert!(m.on_loop(1_000_000).is_none());
}

#[test]
fn iteration_monitor_reports_after_more_than_n() {
    let mut m = IterationMonitor::<2>::init();
    assert!(m.on_loop(1).is_none());
    assert!(m.on_loop(2).is_none());
    let report = m.on_loop(3).unwrap();
    assert_eq!(report.num_iters, 3);
    assert_eq!(report.delta_iters, 3);
    assert!(m.on_loop(4).is_none());
    assert!(m.on_loop(5).is_none());
    let report = m.on_loop(9).unwrap();
    assert_eq!(report.delta_iters, 6);
}
