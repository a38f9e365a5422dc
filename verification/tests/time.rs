use eevee::time::{SimTime, TimeUnit, Timescale};

#[test]
fn units_scale_amounts() {
    assert_eq!(TimeUnit::Ns.fs(), 1_000_000);
    assert_eq!(SimTime::from_units(5, TimeUnit::Ns).as_fs(), 5_000_000);
    assert_eq!(SimTime::zero(), SimTime::default());
}

#[test]
fn time_arithmetic() {
    let a = SimTime::from_units(3, TimeUnit::Ns);
    let b = SimTime::from_units(2, TimeUnit::Ns);
    assert_eq!((a + b).as_fs(), 5_000_000);
    assert_eq!((a - b).as_fs(), 1_000_000);
    assert!(b < a);
}

#[test]
fn time_display() {
    assert_eq!(SimTime::from_units(5, TimeUnit::Ns).to_string(), "5ns");
    assert_eq!(SimTime::from_fs(0).to_string(), "0fs");
    assert_eq!(SimTime::from_fs(1500).to_string(), "1500fs");
    assert_eq!(SimTime::from_units(2, TimeUnit::Us).to_string(), "2us");
}

#[test]
fn default_timescale() {
    let ts = Timescale::default();
    assert_eq!(ts.unit_fs(), 1_000_000);
    assert_eq!(ts.prec_fs(), 1_000);
}
