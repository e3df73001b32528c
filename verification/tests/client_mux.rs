use diameter_client::client::ConnectionState;
use diameter_client::client::DiameterClient;
use diameter_client::error::Error;
use diameter_client::message::DiameterMessage;
use diameter_client::message::REQUEST_FLAG;

fn request_message(hop: u32) -> DiameterMessage {
    DiameterMessage::new(272, 4, REQUEST_FLAG, hop, 900 + hop)
}

fn response_message(hop: u32) -> DiameterMessage {
    DiameterMessage::new(272, 4, 0, hop, 100 + hop)
}

#[test]
fn test_request_refused_while_disconnected() {
    let mut client = DiameterClient::new();
    assert_eq!(client.state(), ConnectionState::Disconnected);
    match client.request(request_message(1)) {
        Ok(_) => panic!("request accepted without a connection"),
        Err(e) => assert_eq!(e, Error::NotConnected),
    }
}

#[test]
fn test_request_refused_after_fault() {
    let mut client = DiameterClient::new();
    client.mark_connected();
    client.mark_faulted();
    assert_eq!(client.state(), ConnectionState::Faulted);
    match client.request(request_message(1)) {
        Ok(_) => panic!("request accepted without a connection"),
        Err(e) => assert_eq!(e, Error::NotConnected),
    }
}

#[test]
fn test_concurrent_requests_answered_in_reverse_order() {
    let mut client = DiameterClient::new();
    client.mark_connected();

    let mut handles = Vec::new();
    for hop in [11u32, 22, 33] {
        handles.push(client.request(request_message(hop)).unwrap());
    }

    // A simulated peer answers in reverse order of registration.
    for hop in [33u32, 22, 11] {
        client.process_decoded_msg(response_message(hop)).unwrap();
    }

    // Each caller resolves to its own request's matching response.
    for (handle, hop) in handles.iter_mut().zip([11u32, 22, 33]) {
        assert_eq!(handle.get_request().get_hop_by_hop_id(), hop);
        let mut rx = handle.take_receiver().unwrap();
        let response = rx.try_recv().unwrap();
        assert_eq!(response.hop_by_hop_id, hop);
        assert_eq!(response.end_to_end_id, 100 + hop);
    }
}

#[test]
fn test_correlation_miss_is_reported_and_survived() {
    let mut client = DiameterClient::new();
    client.mark_connected();
    let mut handle = client.request(request_message(7)).unwrap();

    // A response nobody asked for is reported, not delivered, and the
    // multiplexer keeps routing afterwards.
    let err = client.process_decoded_msg(response_message(99)).unwrap_err();
    assert_eq!(err, Error::UnmatchedResponse(99));

    client.process_decoded_msg(response_message(7)).unwrap();
    let mut rx = handle.take_receiver().unwrap();
    let response = rx.try_recv().unwrap();
    assert_eq!(response.hop_by_hop_id, 7);
}

#[test]
fn test_response_accessor_consumes_once() {
    let mut client = DiameterClient::new();
    client.mark_connected();
    let mut handle = client.request(request_message(5)).unwrap();
    client.process_decoded_msg(response_message(5)).unwrap();

    let first = handle.take_receiver();
    assert!(first.is_ok());
    let second = handle.take_receiver();
    assert_eq!(second.unwrap_err(), Error::ResponseAlreadyTaken);
}

#[test]
fn test_dropped_handle_reported_on_delivery() {
    let mut client = DiameterClient::new();
    client.mark_connected();
    let handle = client.request(request_message(8)).unwrap();
    drop(handle);
    let err = client.process_decoded_msg(response_message(8)).unwrap_err();
    assert_eq!(err, Error::ResponseDropped);
}

#[test]
fn test_error_taxonomy_for_the_read_loop() {
    assert!(Error::MessageTooLarge.is_fatal_to_connection());
    assert!(Error::InvalidMessageLength.is_fatal_to_connection());
    assert!(Error::UnsupportedAddressType.is_fatal_to_connection());
    assert!(!Error::UnmatchedResponse(9).is_fatal_to_connection());
    assert!(!Error::ResponseDropped.is_fatal_to_connection());
}

#[test]
fn test_duplicate_correlation_id_overwrites_silently() {
    let mut client = DiameterClient::new();
    client.mark_connected();
    let mut first = client.request(request_message(4)).unwrap();
    let mut second = client.request(request_message(4)).unwrap();
    client.process_decoded_msg(response_message(4)).unwrap();
    // The entry belonged to the later registration: the response reaches the
    // second handle, while the first one is left waiting forever by design.
    let mut second_rx = second.take_receiver().unwrap();
    assert_eq!(second_rx.try_recv().unwrap().hop_by_hop_id, 4);
    let mut first_rx = first.take_receiver().unwrap();
    assert!(first_rx.try_recv().is_err());
}
