//! Tests for the start-up options.

use rate_gate::opts::Opts;

#[test]
fn default_listen_address() {
    let o = Opts::default();
    assert_eq!(o.listen, "[::1]:3000");
}

#[test]
fn explicit_listen_address() {
    let o = Opts::new("0.0.0.0:8080".to_owned());
    assert_eq!(o.listen, "0.0.0.0:8080");
}
