use agent_bridge::frame::encode_frame;
use agent_bridge::pageant::{copy_data, PageantError, PendingRequest, COPYDATA_TAG, REGION_SIZE};

fn region_with(reply: &[u8]) -> Vec<u8> {
    let mut region = vec![0u8; REGION_SIZE];
    region[..reply.len()].copy_from_slice(reply);
    region
}

#[test]
fn oversized_request_is_refused() {
    let payload = vec![0u8; 8188];
    let frame = encode_frame(&payload).unwrap();
    assert!(matches!(PendingRequest::new(frame), Err(PageantError::RequestTooLong)));
    assert!(matches!(PendingRequest::new(vec![0u8; 9000]), Err(PageantError::RequestTooLong)));
}

#[test]
fn largest_request_is_accepted() {
    let frame = encode_frame(&vec![1u8; 8187]).unwrap();
    assert_eq!(frame.len(), 8191);
    assert!(PendingRequest::new(frame).is_ok());
}

#[test]
fn missing_window_fails() {
    let pending = PendingRequest::new(vec![0, 0, 0, 0]).unwrap();
    assert!(matches!(pending.locate(false, 7), Err(PageantError::NoPageantWindow)));
}

#[test]
fn region_name_holds_thread_id_in_hex() {
    assert_eq!(copy_data(0x1a2b), b"PageantRequest1a2b\0".to_vec());
    assert_eq!(copy_data(0), b"PageantRequest0\0".to_vec());
    assert_eq!(copy_data(u32::MAX), b"PageantRequestffffffff\0".to_vec());
}

#[test]
fn mock_agent_reply_is_returned() {
    let request = vec![0x00, 0x00, 0x00, 0x02, 0x41, 0x42];
    let prepared = PendingRequest::new(request.clone()).unwrap().locate(true, 0x10).unwrap();
    assert_eq!(prepared.frame(), &request[..]);
    assert_eq!(prepared.copy_data(), b"PageantRequest10\0");
    assert_eq!(prepared.tag(), COPYDATA_TAG);
    assert_eq!(COPYDATA_TAG, 0x804e50ba);
    let region = region_with(&[0x00, 0x00, 0x00, 0x01, 0x4f]);
    assert_eq!(prepared.finish(true, &region), Ok(vec![0x00, 0x00, 0x00, 0x01, 0x4f]));
}

#[test]
fn unacknowledged_notification_fails() {
    let prepared = PendingRequest::new(vec![0, 0, 0, 0]).unwrap().locate(true, 1).unwrap();
    let region = region_with(&[0, 0, 0, 1, 0x4f]);
    assert_eq!(prepared.finish(false, &region), Err(PageantError::SendMessageFailed));
}

#[test]
fn response_length_is_bounded_by_region() {
    let prepared = PendingRequest::new(vec![0, 0, 0, 0]).unwrap().locate(true, 1).unwrap();
    let region = region_with(&[0, 0, 0x1f, 0xfd]);
    assert_eq!(prepared.finish(true, &region), Err(PageantError::ResponseTooLong));
    let prepared = PendingRequest::new(vec![0, 0, 0, 0]).unwrap().locate(true, 1).unwrap();
    let region = region_with(&[0, 0, 0x1f, 0xfc]);
    assert_eq!(prepared.finish(true, &region).map(|f| f.len()), Ok(REGION_SIZE));
}
