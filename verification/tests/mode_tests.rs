use kvstore::client::{ClientState, ClientStep};
use kvstore::common::FrameType;
use kvstore::mode::{get_mode, OperationMode};

#[test]
fn mode_from_first_argument() {
    assert_eq!(get_mode(Some("c")), Ok(OperationMode::Client));
    assert_eq!(get_mode(Some("s")), Ok(OperationMode::Server));
    assert_eq!(get_mode(None), Err("No Operation Mode detected".to_string()));
    assert_eq!(get_mode(Some("x")), Err("Invalid Mode: x".to_string()));
    assert_eq!(get_mode(Some("cs")), Err("Invalid Mode: cs".to_string()));
}

#[test]
fn client_subscribes_with_sub() {
    let s = ClientState::Interactive;
    assert_eq!(s.poll_step(), ClientStep::SendFrame);
    assert_eq!(s.next(FrameType::Get), ClientState::Interactive);
    assert_eq!(s.next(FrameType::SetValue), ClientState::Interactive);
    assert_eq!(s.next(FrameType::Pub), ClientState::Interactive);
    let s = s.next(FrameType::Sub);
    assert_eq!(s, ClientState::Subscribed);
    assert_eq!(s.poll_step(), ClientStep::AwaitResponse);
    assert_eq!(s.next(FrameType::Get), ClientState::Subscribed);
}
