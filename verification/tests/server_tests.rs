use kvstore::common::{Frame, FrameType};
use kvstore::server::{pair_text, read_step, respond, Action, Channels, ReadStep, ServerError};
use kvstore::storage::Storage;

fn fresh_state() -> (Storage, Channels) {
    let store = std::sync::Arc::try_unwrap(Storage::new()).ok().unwrap();
    (store, Channels::new())
}

#[test]
fn set_then_get() {
    let (mut store, mut channels) = fresh_state();
    let set = Frame { command: FrameType::SetValue, key: "name", value: Some("foopler") };
    match respond(&mut store, &mut channels, &set, 0) {
        Ok(Action::Reply(t)) => assert_eq!(t, "name -> foopler"),
        other => panic!("unexpected {:?}", other),
    }
    let get = Frame { command: FrameType::Get, key: "name", value: None };
    match respond(&mut store, &mut channels, &get, 0) {
        Ok(Action::Reply(t)) => assert_eq!(t, "foopler"),
        other => panic!("unexpected {:?}", other),
    }
}

#[test]
fn get_missing_key() {
    let (mut store, mut channels) = fresh_state();
    let get = Frame { command: FrameType::Get, key: "nope", value: None };
    match respond(&mut store, &mut channels, &get, 0) {
        Err(e) => assert_eq!(e.message(), "Invalid key nope"),
        other => panic!("unexpected {:?}", other),
    }
}

#[test]
fn pub_without_channel() {
    let (mut store, mut channels) = fresh_state();
    let p = Frame { command: FrameType::Pub, key: "news", value: Some("hi") };
    match respond(&mut store, &mut channels, &p, 0) {
        Err(e) => {
            assert!(matches!(e, ServerError::NoChannel(_)));
            assert_eq!(e.message(), "no channel for 'news'");
        }
        other => panic!("unexpected {:?}", other),
    }
    let p = Frame { command: FrameType::Pub, key: "news", value: None };
    assert!(matches!(respond(&mut store, &mut channels, &p, 0), Ok(Action::Nothing)));
}

#[test]
fn sub_then_pub() {
    let (mut store, mut channels) = fresh_state();
    let s = Frame { command: FrameType::Sub, key: "news", value: None };
    match respond(&mut store, &mut channels, &s, 7) {
        Ok(Action::Subscribe { channel, topic, replaced }) => {
            assert_eq!(channel, 7);
            assert_eq!(topic, "news");
            assert_eq!(replaced, None);
        }
        other => panic!("unexpected {:?}", other),
    }
    // A second subscription opens nothing.
    assert!(matches!(respond(&mut store, &mut channels, &s, 8), Ok(Action::Nothing)));
    let p = Frame { command: FrameType::Pub, key: "news", value: Some("hello") };
    match respond(&mut store, &mut channels, &p, 9) {
        Ok(Action::Publish { channel, message, reply }) => {
            assert_eq!(channel, 7);
            assert_eq!(message, "hello");
            assert_eq!(reply, "Sent");
        }
        other => panic!("unexpected {:?}", other),
    }
}

#[test]
fn sub_files_channel_under_trimmed_name() {
    let (mut store, mut channels) = fresh_state();
    let s = Frame { command: FrameType::Sub, key: "news\n", value: None };
    match respond(&mut store, &mut channels, &s, 3) {
        Ok(Action::Subscribe { channel, topic, replaced }) => {
            assert_eq!(channel, 3);
            assert_eq!(topic, "news\n");
            assert_eq!(replaced, None);
        }
        other => panic!("unexpected {:?}", other),
    }
    let p = Frame { command: FrameType::Pub, key: "news", value: Some("x") };
    assert!(matches!(
        respond(&mut store, &mut channels, &p, 4),
        Ok(Action::Publish { channel: 3, .. })
    ));
    // The untrimmed name finds no channel.
    let p = Frame { command: FrameType::Pub, key: "news\n", value: Some("x") };
    assert!(matches!(respond(&mut store, &mut channels, &p, 4), Err(ServerError::NoChannel(_))));
}

#[test]
fn pair_text_joins_with_arrow() {
    assert_eq!(pair_text("a", "b"), "a -> b");
}

#[test]
fn resubscription_under_trimmed_name_replaces_channel() {
    let (mut store, mut channels) = fresh_state();
    let s = Frame { command: FrameType::Sub, key: "news", value: None };
    assert!(matches!(respond(&mut store, &mut channels, &s, 0), Ok(Action::Subscribe { channel: 0, .. })));
    // "news " has no channel of its own, but its trimmed name has one, which it takes over.
    let s = Frame { command: FrameType::Sub, key: "news ", value: None };
    match respond(&mut store, &mut channels, &s, 1) {
        Ok(Action::Subscribe { channel, replaced, .. }) => {
            assert_eq!(channel, 1);
            assert_eq!(replaced, Some(0));
        }
        other => panic!("unexpected {:?}", other),
    }
    let p = Frame { command: FrameType::Pub, key: "news", value: Some("x") };
    assert!(matches!(respond(&mut store, &mut channels, &p, 2), Ok(Action::Publish { channel: 1, .. })));
}

#[test]
fn read_step_decides_what_follows_a_read() {
    assert_eq!(read_step(0, "Get name"), ReadStep::Stop);
    assert_eq!(read_step(8, "Get name"), ReadStep::Answer);
    assert_eq!(read_step(4, "Oops"), ReadStep::Unreadable);
    assert_eq!(read_step(8, "Set name"), ReadStep::SetWithoutValue);
    assert_eq!(read_step(10, "Set name v"), ReadStep::Answer);
    assert_eq!(read_step(8, "Pub name"), ReadStep::Answer);
}
