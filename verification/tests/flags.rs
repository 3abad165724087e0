use bevy_replicon::change_message_arrays::ChangeMessageArrays;
use bevy_replicon::change_message_flags::ChangeMessageFlags;
use bevy_replicon::init_message_arrays::InitMessageArrays;

#[test]
fn change_message_arrays_last() {
    assert_eq!(
        ChangeMessageArrays::changes().last(),
        ChangeMessageArrays::changes()
    );
    assert_eq!(
        ChangeMessageArrays::mappings().last(),
        ChangeMessageArrays::mappings()
    );
    assert_eq!(
        ChangeMessageArrays::all().last(),
        ChangeMessageArrays::changes()
    );
    assert_eq!(
        (ChangeMessageArrays::despawns() | ChangeMessageArrays::removals()).last(),
        ChangeMessageArrays::removals()
    );
}

#[test]
fn change_message_flags_last() {
    assert_eq!(
        ChangeMessageFlags::changes().last(),
        ChangeMessageFlags::changes()
    );
    assert_eq!(
        ChangeMessageFlags::mappings().last(),
        ChangeMessageFlags::mappings()
    );
    assert_eq!(
        ChangeMessageFlags::all().last(),
        ChangeMessageFlags::changes()
    );
    assert_eq!(
        (ChangeMessageFlags::despawns() | ChangeMessageFlags::removals()).last(),
        ChangeMessageFlags::removals()
    );
}

#[test]
fn init_message_arrays_last() {
    assert_eq!(
        InitMessageArrays::changes().last(),
        InitMessageArrays::changes()
    );
    assert_eq!(
        InitMessageArrays::mappings().last(),
        InitMessageArrays::mappings()
    );
    assert_eq!(InitMessageArrays::all().last(), InitMessageArrays::changes());
    assert_eq!(
        (InitMessageArrays::despawns() | InitMessageArrays::removals()).last(),
        InitMessageArrays::removals()
    );
}

#[test]
fn flags_bits_and_emptiness() {
    assert_eq!(ChangeMessageArrays::all().bits(), 0b1111);
    assert!(ChangeMessageArrays::from_bits_retain(0).is_empty());
    assert!(!ChangeMessageArrays::despawns().is_empty());
    assert_eq!(ChangeMessageArrays::from_bits_retain(0b0110).last().bits(), 0b0100);
    assert_eq!(ChangeMessageArrays::from_bits_retain(0x80).last().bits(), 0x80);
    assert_eq!(ChangeMessageArrays::from_bits_retain(0xff).last().bits(), 0x80);
}
