//! Wire cost.

use downlink_padding::cost::{wire_bytes, TLS_RECORD_OVERHEAD};

#[test]
fn every_record_pays_its_framing() {
    assert_eq!(TLS_RECORD_OVERHEAD, 22);
    assert_eq!(wire_bytes(&[]), 0);
    assert_eq!(wire_bytes(&[0]), 22);
    assert_eq!(wire_bytes(&[27, 754, 281, 53]), 27 + 754 + 281 + 53 + 4 * 22);
}
