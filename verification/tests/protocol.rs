use loom::protocol::{
    MessageKind, Operation, Packet, ProtocolError, StatusCode, MAX_PAYLOAD_LEN,
};

fn packet() -> Packet {
    Packet {
        kind: MessageKind::Response,
        request_id: 42,
        operation: Operation::Status,
        status: StatusCode::Success,
        more: true,
        payload: b"active".to_vec(),
    }
}

#[test]
fn round_trips_packet() {
    let packet = packet();
    assert_eq!(Packet::decode(&packet.encode().unwrap()).unwrap(), packet);
}

#[test]
fn rejects_truncated_excess_and_reserved_data() {
    let encoded = packet().encode().unwrap();
    assert!(matches!(
        Packet::decode(&encoded[..10]),
        Err(ProtocolError::Truncated { .. })
    ));

    let mut excess = encoded.clone();
    excess.push(0);
    assert!(matches!(
        Packet::decode(&excess),
        Err(ProtocolError::LengthMismatch { .. })
    ));

    let mut reserved = encoded;
    reserved[22] = 1;
    assert_eq!(Packet::decode(&reserved), Err(ProtocolError::ReservedBits));
}

#[test]
fn enforces_packet_bound() {
    let mut packet = packet();
    packet.payload = vec![0; MAX_PAYLOAD_LEN + 1];
    assert!(matches!(
        packet.encode(),
        Err(ProtocolError::PayloadTooLarge(_))
    ));
}

#[test]
fn operation_numbers_are_stable() {
    assert_eq!(Operation::Start.number(), 1);
    assert_eq!(Operation::Apply.number(), 13);
    assert_eq!(Operation::Poweroff.number(), 18);
}

#[test]
fn every_number_names_one_operation() {
    let mut known = 0;
    for value in 0..=64 {
        if let Ok(operation) = Operation::from_number(value) {
            assert_eq!(operation.number(), value);
            known += 1;
        } else {
            assert_eq!(
                Operation::from_number(value),
                Err(ProtocolError::InvalidOperation(value))
            );
        }
    }
    assert_eq!(known, 20);
}

#[test]
fn encodes_the_header_in_little_endian() {
    let encoded = packet().encode().unwrap();
    assert_eq!(encoded.len(), 28 + 6);
    assert_eq!(encoded[8..16], [42, 0, 0, 0, 0, 0, 0, 0]);
    assert_eq!(encoded[16..18], [5, 0]);
    assert_eq!(encoded[20..22], [1, 0]);
    assert_eq!(encoded[24..28], [6, 0, 0, 0]);
    assert_eq!(encoded[28..], *b"active");
}

#[test]
fn refuses_each_wrong_header_field() {
    let good = packet().encode().unwrap();
    let with = |at: usize, value: u8| {
        let mut bytes = good.clone();
        bytes[at] = value;
        Packet::decode(&bytes)
    };
    assert!(matches!(with(0, 0), Err(ProtocolError::InvalidMagic(_))));
    assert_eq!(with(4, 9), Err(ProtocolError::UnsupportedVersion(9)));
    assert_eq!(with(6, 9), Err(ProtocolError::InvalidMessageKind(9)));
    assert_eq!(with(16, 99), Err(ProtocolError::InvalidOperation(99)));
    assert_eq!(with(18, 99), Err(ProtocolError::InvalidStatus(99)));
    assert_eq!(with(20, 2), Err(ProtocolError::ReservedBits));
    assert_eq!(
        with(24, 5),
        Err(ProtocolError::LengthMismatch {
            declared: 5,
            actual: 6
        })
    );
    let long = vec![0; MAX_PAYLOAD_LEN + 29];
    assert_eq!(
        Packet::decode(&long),
        Err(ProtocolError::PacketTooLarge(MAX_PAYLOAD_LEN + 29))
    );
}

#[test]
fn protocol_errors_speak_plainly() {
    let truncated = ProtocolError::Truncated {
        expected: 28,
        actual: 3,
    };
    assert_eq!(
        truncated.message(),
        "packet is truncated: expected at least 28 bytes, got 3"
    );
}
