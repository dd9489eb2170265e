use kvstore::common::{Frame, FrameType};

#[test]
fn zero_copy_1() {
    // The key of a parsed frame is a slice of the buffer it was parsed from.
    let buffer = "Get name";
    let frame = Frame::deserialize(buffer);
    let offset = frame.key.as_ptr() as usize - buffer.as_ptr() as usize;

    assert_eq!(offset, "Get ".len());

    // A copy of the buffer lives elsewhere, so the key is not at that offset from the first buffer.
    let buffer2 = buffer.to_string();
    let frame = Frame::deserialize(&buffer2);
    let offset = frame.key.as_ptr() as usize - buffer.as_ptr() as usize;

    assert_ne!(offset, "Get ".len());
}

#[test]
fn get_sub() {
    let f = Frame {
        command: FrameType::Get,
        key: "name",
        value: None,
    };
    let serial = f.serialize();
    let x = Frame::deserialize(&serial);

    assert_eq!(
        Frame {
            command: FrameType::Get,
            key: "name",
            value: None
        },
        x
    );

    // sub
    let f = Frame {
        command: FrameType::Sub,
        key: "name",
        value: None,
    };
    let serial = f.serialize();
    let x = Frame::deserialize(&serial);

    assert_eq!(
        Frame {
            command: FrameType::Sub,
            key: "name",
            value: None
        },
        x
    );
}

#[test]
fn set_pub() {
    let command = FrameType::SetValue;
    let key = "name";
    let value = Some("foopler");

    {
        let frame = Frame { command: command.clone(), key, value };
        let serial = frame.serialize();
        let x = Frame::deserialize(&serial);

        assert_eq!(Frame { command, key, value }, x);
    }

    let command = FrameType::Pub;

    {
        let frame = Frame { command: command.clone(), key, value };
        let serial = frame.serialize();
        let x = Frame::deserialize(&serial);

        assert_eq!(Frame { command, key, value }, x);
    }
}

#[test]
fn encode_gives_wire_names() {
    assert_eq!(FrameType::Get.encode(), "Get");
    assert_eq!(FrameType::SetValue.encode(), "Set");
    assert_eq!(FrameType::Pub.encode(), "Pub");
    assert_eq!(FrameType::Sub.encode(), "Sub");
}

#[test]
fn decode_reads_wire_names() {
    assert_eq!(FrameType::decode("Get"), Some(FrameType::Get));
    assert_eq!(FrameType::decode("Set"), Some(FrameType::SetValue));
    assert_eq!(FrameType::decode("Pub"), Some(FrameType::Pub));
    assert_eq!(FrameType::decode("Sub"), Some(FrameType::Sub));
    assert_eq!(FrameType::decode("get"), None);
    assert_eq!(FrameType::decode("Gets"), None);
    assert_eq!(FrameType::decode(""), None);
}

#[test]
fn serialize_joins_with_single_spaces() {
    let f = Frame { command: FrameType::SetValue, key: "k", value: Some("v w") };
    assert_eq!(f.serialize(), "Set k v w");
    let f = Frame { command: FrameType::Get, key: "", value: None };
    assert_eq!(f.serialize(), "Get ");
}

#[test]
fn value_runs_to_the_end() {
    let x = Frame::deserialize("Set greeting hello big world");
    assert_eq!(x.command, FrameType::SetValue);
    assert_eq!(x.key, "greeting");
    assert_eq!(x.value, Some("hello big world"));
}

#[test]
fn trailing_space_gives_no_value() {
    let x = Frame::deserialize("Set name ");
    assert_eq!(x.key, "name");
    assert_eq!(x.value, None);
    let x = Frame::deserialize("Set name  ");
    assert_eq!(x.key, "name");
    assert_eq!(x.value, Some(" "));
}

#[test]
fn empty_value_does_not_come_back() {
    // A frame with an empty value does not read back as itself.
    let f = Frame { command: FrameType::Pub, key: "k", value: Some("") };
    let serial = f.serialize();
    assert_eq!(serial, "Pub k ");
    let x = Frame::deserialize(&serial);
    assert_eq!(x.value, None);
}

#[test]
fn non_ascii_key_without_value() {
    let x = Frame::deserialize("Get nàme");
    assert_eq!(x.key, "nàme");
    assert_eq!(x.value, None);
}

#[test]
fn non_ascii_key_is_cut_by_character_position() {
    // The end of the key is found by character position and applied as a byte position.
    let x = Frame::deserialize("Set nàme v");
    assert_eq!(x.key, "nàm");
    assert_eq!(x.value, Some(" v"));
    assert!(Frame::parsable("Set nàme v"));
}

#[test]
fn parsable_rejects_what_deserialize_cannot_read() {
    assert!(Frame::parsable("Get name"));
    assert!(Frame::parsable("Sub "));
    assert!(!Frame::parsable("Get"));
    assert!(!Frame::parsable("Bad name"));
    assert!(!Frame::parsable(" Get name"));
    assert!(!Frame::parsable("Getname"));
    // "Set é x": the key ends at character 5, which is inside the two bytes of 'é'.
    assert!(!Frame::parsable("Set é x"));
}

#[test]
fn from_reads_a_command() {
    assert_eq!(FrameType::from("Get"), FrameType::Get);
    assert_eq!(FrameType::from("Set"), FrameType::SetValue);
    assert_eq!(FrameType::from("Pub"), FrameType::Pub);
    assert_eq!(FrameType::from("Sub"), FrameType::Sub);
}

#[test]
fn non_ascii_key_without_value_comes_back() {
    let f = Frame { command: FrameType::Sub, key: "nàme", value: None };
    let serial = f.serialize();
    let x = Frame::deserialize(&serial);
    assert_eq!(x, Frame { command: FrameType::Sub, key: "nàme", value: None });
}
