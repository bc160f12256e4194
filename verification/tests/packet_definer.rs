use sandstone::packets::packet_definer::{PacketDirection, PacketState};

#[test]
fn states_that_a_handshake_can_ask_for() {
    assert_eq!(PacketState::from_id(1), Some(PacketState::STATUS));
    assert_eq!(PacketState::from_id(2), Some(PacketState::LOGIN));
    for id in [0u8, 3, 4, 255] {
        assert_eq!(PacketState::from_id(id), None);
    }
    assert_eq!(PacketState::STATUS.get_id(), Some(1));
    assert_eq!(PacketState::LOGIN.get_id(), Some(2));
    assert_eq!(PacketState::HANDSHAKING.get_id(), None);
    assert_eq!(PacketState::CONFIGURATION.get_id(), None);
    assert_eq!(PacketState::PLAY.get_id(), None);
    for id in 0..=255u8 {
        if let Some(state) = PacketState::from_id(id) {
            assert_eq!(state.get_id(), Some(id));
        }
    }
}

#[test]
fn directions_are_told_apart() {
    assert_ne!(PacketDirection::SERVER, PacketDirection::CLIENT);
    assert_ne!(PacketDirection::SERVER, PacketDirection::BIDIRECTIONAL);
    assert_eq!(PacketDirection::CLIENT, PacketDirection::CLIENT);
}

#[test]
fn state_machine_edges() {
    let all = [
        PacketState::HANDSHAKING,
        PacketState::STATUS,
        PacketState::LOGIN,
        PacketState::CONFIGURATION,
        PacketState::PLAY,
    ];
    let edges = [
        (PacketState::HANDSHAKING, PacketState::STATUS),
        (PacketState::HANDSHAKING, PacketState::LOGIN),
        (PacketState::LOGIN, PacketState::CONFIGURATION),
        (PacketState::CONFIGURATION, PacketState::PLAY),
    ];
    for from in all {
        for to in all {
            assert_eq!(from.leads_to(to), edges.contains(&(from, to)));
        }
    }
}
