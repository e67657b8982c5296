//! The quasi-Newton driver, its data model, the netlist classifiers and the
//! snippet emitters.

use scheesim::emit::{replace_accumulator, replace_scalar, replace_vector};
use scheesim::fixed::{fx_mul, Fixed, SolveError};
use scheesim::netlist::{Connection, ConnectionType, ElectoCircuitConnection, ElementMarker,
    JunctionChannel};
use scheesim::newton::{quasi_newton_iter_linear_until_converge, GetSetAll, NonLinearCalculateKth,
    RhsValueType, UnknownFactor};
use scheesim::solve::LinearSystemSolve;

const SCALE_F: f64 = 4294967296.0;

fn fx(x: f64) -> Fixed {
    Fixed::from_mantissa((x * SCALE_F).round() as i64)
}

fn fl(f: Fixed) -> f64 {
    f.mantissa() as f64 / SCALE_F
}

fn square(x: Fixed) -> Fixed {
    fx_mul(x, x).unwrap_or(Fixed::zero())
}

#[test]
fn unknown_factor_words() {
    assert_eq!(
        UnknownFactor::zero_factor("VOLT"),
        Some(UnknownFactor::Voltage(fx(0.0)))
    );
    assert_eq!(
        UnknownFactor::zero_factor("ampere"),
        Some(UnknownFactor::Current(fx(0.0)))
    );
    assert_eq!(
        UnknownFactor::zero_factor("i"),
        Some(UnknownFactor::Current(fx(0.0)))
    );
    assert_eq!(UnknownFactor::zero_factor("watt"), None);
}

#[test]
fn unknown_factor_set_keeps_kind() {
    let mut u = UnknownFactor::Voltage(fx(0.0));
    u.set(fx(2.5));
    assert_eq!(u, UnknownFactor::Voltage(fx(2.5)));
    assert_eq!(fl(u.get()), 2.5);
    let mut c = UnknownFactor::Current(fx(1.0));
    c.set(fx(-1.0));
    assert_eq!(c, UnknownFactor::Current(fx(-1.0)));
}

#[test]
fn get_set_all_round_trip() {
    let mut v = vec![
        UnknownFactor::Voltage(fx(1.0)),
        UnknownFactor::Current(fx(2.0)),
    ];
    let raw = v.get_all();
    assert_eq!(fl(raw[0]), 1.0);
    assert_eq!(fl(raw[1]), 2.0);
    v.set_all(vec![fx(5.0), fx(6.0)]);
    assert_eq!(v[0], UnknownFactor::Voltage(fx(5.0)));
    assert_eq!(v[1], UnknownFactor::Current(fx(6.0)));
}

#[test]
fn rhs_entries_evaluate() {
    let c: RhsValueType<fn(Fixed) -> Fixed> = RhsValueType::new_linear(fx(3.0));
    assert_eq!(fl(c.result()), 3.0);
    let f: RhsValueType<fn(Fixed) -> Fixed> = RhsValueType::new_linearizer(square, fx(0.5));
    assert_eq!(fl(f.result()), 0.25);
}

#[test]
fn rhs_update_arg_changes_evaluation() {
    let mut f: RhsValueType<fn(Fixed) -> Fixed> = RhsValueType::new_linearizer(square, fx(0.5));
    f.update_arg(fx(3.0));
    assert_eq!(fl(f.result()), 9.0);
    // A constant entry has no cached argument: updating leaves it alone.
    let mut c: RhsValueType<fn(Fixed) -> Fixed> = RhsValueType::new_linear(fx(1.0));
    c.update_arg(fx(7.0));
    assert_eq!(fl(c.result()), 1.0);
}

#[test]
fn rhs_calculate_damps_each_entry() {
    let v: Vec<RhsValueType<fn(Fixed) -> Fixed>> = vec![
        RhsValueType::new_linear(fx(0.0)),
        RhsValueType::new_linear(fx(1.0)),
    ];
    let out = v.calculate_linearize_at_kth(fx(1.0), 1).unwrap();
    assert_eq!(out[0].mantissa(), 0);
    assert!((fl(out[1]) - 0.6931).abs() < 1e-3);
}

#[test]
fn rhs_update_all_pairwise() {
    let mut v: Vec<RhsValueType<fn(Fixed) -> Fixed>> = vec![
        RhsValueType::new_linearizer(square, fx(1.0)),
        RhsValueType::new_linearizer(square, fx(2.0)),
    ];
    v.update_all(vec![fx(4.0), fx(5.0)]);
    assert_eq!(fl(v[0].result()), 16.0);
    assert_eq!(fl(v[1].result()), 25.0);
}

fn identity2() -> Vec<Vec<Fixed>> {
    vec![vec![fx(1.0), fx(0.0)], vec![fx(0.0), fx(1.0)]]
}

#[test]
fn newton_driver_converges_on_quadratic_rhs() {
    // A = I, nonlinear rhs (x -> x^2, x -> x^2), x0 = (0.5, 0.5).
    let rhs: Vec<RhsValueType<fn(Fixed) -> Fixed>> = vec![
        RhsValueType::new_linearizer(square, fx(0.5)),
        RhsValueType::new_linearizer(square, fx(0.5)),
    ];
    let mut x0 = vec![
        UnknownFactor::Voltage(fx(0.5)),
        UnknownFactor::Voltage(fx(0.5)),
    ];
    let traj = quasi_newton_iter_linear_until_converge(
        &identity2(),
        rhs,
        &mut x0,
        fx(1.0),
        20,
        fx(1e-8),
        fx(1e-8),
        LinearSystemSolve::LFactorize,
        None,
        None,
        None,
    )
    .unwrap();
    assert!(traj.len() >= 2);
    assert!(traj.len() <= 21);
    // The trajectory starts at the initial guess and keeps kinds.
    assert_eq!(traj[0][0], UnknownFactor::Voltage(fx(0.5)));
    for step in &traj {
        assert_eq!(step.len(), 2);
        assert!(matches!(step[0], UnknownFactor::Voltage(_)));
    }
    // Stability: one more allowed iteration changes nothing.
    let rhs2: Vec<RhsValueType<fn(Fixed) -> Fixed>> = vec![
        RhsValueType::new_linearizer(square, fx(0.5)),
        RhsValueType::new_linearizer(square, fx(0.5)),
    ];
    let mut x1 = vec![
        UnknownFactor::Voltage(fx(0.5)),
        UnknownFactor::Voltage(fx(0.5)),
    ];
    let traj2 = quasi_newton_iter_linear_until_converge(
        &identity2(),
        rhs2,
        &mut x1,
        fx(1.0),
        21,
        fx(1e-8),
        fx(1e-8),
        LinearSystemSolve::LFactorize,
        None,
        None,
        None,
    )
    .unwrap();
    assert_eq!(traj.len(), traj2.len());
    let a = traj.last().unwrap();
    let b = traj2.last().unwrap();
    assert_eq!(a[0], b[0]);
    assert_eq!(a[1], b[1]);
}

#[test]
fn newton_driver_keeps_constant_rhs() {
    // With constant entries the damped right-hand side is the same every
    // step; on the identity matrix the run settles on it and stops.
    let rhs: Vec<RhsValueType<fn(Fixed) -> Fixed>> = vec![
        RhsValueType::new_linear(fx(0.0)),
        RhsValueType::new_linear(fx(0.0)),
    ];
    let mut x0 = vec![
        UnknownFactor::Voltage(fx(0.5)),
        UnknownFactor::Current(fx(-0.5)),
    ];
    let traj = quasi_newton_iter_linear_until_converge(
        &identity2(),
        rhs,
        &mut x0,
        fx(1.0),
        10,
        fx(1e-8),
        fx(1e-8),
        LinearSystemSolve::LFactorize,
        None,
        None,
        None,
    )
    .unwrap();
    // Step 1: solution 0 vs guess 0.5 (no convergence); step 2: 0 vs 0.
    assert_eq!(traj.len(), 3);
    assert_eq!(traj[2][0], UnknownFactor::Voltage(fx(0.0)));
    assert_eq!(traj[2][1], UnknownFactor::Current(fx(0.0)));
}

#[test]
fn newton_driver_propagates_solver_errors() {
    // A singular linear core surfaces as the inner solver's error.
    let singular = vec![vec![fx(1.0), fx(2.0)], vec![fx(2.0), fx(4.0)]];
    let rhs: Vec<RhsValueType<fn(Fixed) -> Fixed>> = vec![
        RhsValueType::new_linear(fx(1.0)),
        RhsValueType::new_linear(fx(1.0)),
    ];
    let mut x0 = vec![
        UnknownFactor::Voltage(fx(0.0)),
        UnknownFactor::Current(fx(0.0)),
    ];
    let r = quasi_newton_iter_linear_until_converge(
        &singular,
        rhs,
        &mut x0,
        fx(1.0),
        5,
        fx(1e-8),
        fx(1e-8),
        LinearSystemSolve::LFactorize,
        None,
        None,
        None,
    );
    assert_eq!(r, Err(SolveError::Singular));
}

#[test]
fn element_marker_classification() {
    assert_eq!(ElementMarker::from(".Resistor", 1), Some(ElementMarker::Resistor));
    assert_eq!(ElementMarker::from(".ACSWEEP", 2), Some(ElementMarker::ACSweep));
    assert_eq!(ElementMarker::from(".diode", 3), Some(ElementMarker::Diode));
    assert_eq!(ElementMarker::from("resistor", 4), None);
    assert_eq!(ElementMarker::from(".memristor", 5), None);
}

#[test]
fn junction_channel_classification() {
    assert_eq!(JunctionChannel::from("NPN", 1), Some(JunctionChannel::NPN));
    assert_eq!(JunctionChannel::from("pn", 1), Some(JunctionChannel::PN));
    assert_eq!(JunctionChannel::from("P", 1), Some(JunctionChannel::P));
    assert_eq!(JunctionChannel::from("xyz", 1), None);
}

#[test]
fn connection_classification() {
    assert!(matches!(Connection::from("PREV", true), Connection::Prev));
    assert!(matches!(Connection::from("previous", false), Connection::Prev));
    assert!(matches!(Connection::from("next", true), Connection::Next));
    assert!(matches!(Connection::from("Ground", true), Connection::Ground));
    match Connection::from("node7", true) {
        Connection::Serial(name) => assert_eq!(name, "node7"),
        other => panic!("expected serial, got {other:?}"),
    }
    match Connection::from("node8", false) {
        Connection::Parallel(name) => assert_eq!(name, "node8"),
        other => panic!("expected parallel, got {other:?}"),
    }
}

#[test]
fn circuit_connection_record() {
    let mut c = ElectoCircuitConnection::init();
    assert!(matches!(c.serial_in, ConnectionType::Init));
    assert!(c.serial_base.is_none());
    assert_eq!(c.parallel.len(), 0);
    c.modify_serial_in(ConnectionType::Named(String::from("a")));
    c.modify_serial_out(ConnectionType::Ground);
    c.modify_serial_base(ConnectionType::Previous);
    c.add_parallel(ConnectionType::Probe);
    c.add_parallel(ConnectionType::Next);
    assert!(matches!(c.serial_in, ConnectionType::Named(_)));
    assert!(matches!(c.serial_out, ConnectionType::Ground));
    assert!(matches!(c.serial_base, Some(ConnectionType::Previous)));
    assert_eq!(c.parallel.len(), 2);
}

#[test]
fn snippet_emitters() {
    assert_eq!(
        replace_scalar("xs", "2.0", "+"),
        "xs.iter().cloned().map(|it| it + 2.0).collect::<Vec<_>>()"
    );
    assert_eq!(
        replace_vector("xs", "ys", "*"),
        "xs.iter().cloned().zip(ys.iter().cloned()).map(|(op, rhs)| op * rhs).collect::<Vec<_>>()"
    );
    assert_eq!(
        replace_accumulator("xs", "ys", "*"),
        "xs.iter().cloned().zip(ys.iter().cloned()).map(|(op, rhs)| op * rhs).sum::<_>()"
    );
}
