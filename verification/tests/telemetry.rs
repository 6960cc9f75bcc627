use xbee_uart::telemetry::Speeeeeeeeeed;

#[test]
fn speed_equality_is_by_fields() {
    let a = Speeeeeeeeeed { velocity: 12, acceleration: -340 };
    let b = Speeeeeeeeeed { velocity: 12, acceleration: -340 };
    let c = Speeeeeeeeeed { velocity: 12, acceleration: 340 };
    assert_eq!(a, b);
    assert_ne!(a, c);
}
