use dlc_relay::registry::{OfferRegistry, OfferedContract};
use dlc_relay::protocol::{transition, ConvState, ProtocolError, Step};
use dlc_relay::segment::{segment_message, split_payload, Reassembly};
use dlc_relay::wire::{
    decode_frame, decode_message, encode_frame, encode_message, DlcMessage, MessageKind,
    WireError, WireFrame, SEGMENT_START_HEADER,
};

fn offer(body: Vec<u8>) -> DlcMessage {
    DlcMessage { kind: MessageKind::Offer, body }
}

#[test]
fn message_encoding_is_tag_then_body() {
    let bytes = encode_message(&offer(vec![9, 8, 7]));
    assert_eq!(bytes, vec![0xA7, 0x1A, 9, 8, 7]);
    let sign = encode_message(&DlcMessage { kind: MessageKind::Sign, body: vec![] });
    assert_eq!(sign, vec![0xA7, 0x1E]);
}

#[test]
fn message_round_trips_through_the_codec() {
    let m = DlcMessage { kind: MessageKind::Accept, body: vec![1, 2, 3, 4, 5] };
    let bytes = encode_message(&m);
    let back = decode_message(&bytes).unwrap();
    assert_eq!(back.kind, MessageKind::Accept);
    assert_eq!(back.body, vec![1, 2, 3, 4, 5]);
}

#[test]
fn segment_frames_round_trip() {
    let f = WireFrame::SegmentStart { total_len: 70000, first_chunk: vec![5, 6] };
    let bytes = encode_frame(&f);
    assert_eq!(bytes, vec![0xA7, 0x94, 0x00, 0x01, 0x11, 0x70, 5, 6]);
    match decode_frame(&bytes).unwrap() {
        WireFrame::SegmentStart { total_len, first_chunk } => {
            assert_eq!(total_len, 70000);
            assert_eq!(first_chunk, vec![5, 6]);
        }
        _ => panic!("wrong frame"),
    }
    let c = WireFrame::SegmentChunk { seq: 258, bytes: vec![1] };
    let bytes = encode_frame(&c);
    assert_eq!(bytes, vec![0xA7, 0x96, 0x01, 0x02, 1]);
    match decode_frame(&bytes).unwrap() {
        WireFrame::SegmentChunk { seq, bytes } => {
            assert_eq!(seq, 258);
            assert_eq!(bytes, vec![1]);
        }
        _ => panic!("wrong frame"),
    }
}

#[test]
fn decode_errors() {
    assert_eq!(decode_frame(&vec![]).unwrap_err(), WireError::Truncated);
    assert_eq!(decode_frame(&vec![0xA7]).unwrap_err(), WireError::Truncated);
    assert_eq!(decode_frame(&vec![0xA7, 0x94, 0, 0]).unwrap_err(), WireError::Truncated);
    assert_eq!(decode_frame(&vec![0xA7, 0x96, 0]).unwrap_err(), WireError::Truncated);
    assert_eq!(decode_frame(&vec![0x00, 0x01, 3]).unwrap_err(), WireError::UnknownType);
    // a segment frame where a whole message is required
    assert_eq!(
        decode_message(&vec![0xA7, 0x96, 0, 1, 9]).unwrap_err(),
        WireError::UnknownType
    );
}

#[test]
fn split_payload_chunks() {
    let p: Vec<u8> = (0u8..10).collect();
    let chunks = split_payload(&p, 4);
    assert_eq!(chunks, vec![vec![0, 1, 2, 3], vec![4, 5, 6, 7], vec![8, 9]]);
    assert!(split_payload(&vec![], 4).is_empty());
    assert_eq!(split_payload(&vec![1, 2], 2), vec![vec![1, 2]]);
}

#[test]
fn segmentation_of_an_offer_over_the_ceiling() {
    let ceiling: usize = 1000;
    let body: Vec<u8> = (0..(ceiling + 100 - 2)).map(|i| (i % 251) as u8).collect();
    let encoded = encode_message(&offer(body));
    assert_eq!(encoded.len(), ceiling + 100);
    let frames = segment_message(&encoded, ceiling);
    assert_eq!(frames.len(), 2);
    for f in &frames {
        assert!(encode_frame(f).len() <= ceiling);
    }
    let mut buf = match &frames[0] {
        WireFrame::SegmentStart { total_len, first_chunk } => {
            assert_eq!(*total_len as usize, ceiling + 100);
            assert_eq!(first_chunk.len(), ceiling - SEGMENT_START_HEADER);
            Reassembly::start(*total_len, first_chunk.clone()).unwrap()
        }
        _ => panic!("expected a segment start"),
    };
    match &frames[1] {
        WireFrame::SegmentChunk { seq, bytes } => {
            assert_eq!(*seq, 1);
            buf.push_chunk(*seq, bytes).unwrap();
        }
        _ => panic!("expected a segment chunk"),
    }
    assert!(buf.complete());
    assert_eq!(buf.finish().unwrap(), encoded);
}

#[test]
fn reassembly_refuses_out_of_order_and_overflow() {
    let mut b = Reassembly::start(6, vec![1, 2]).unwrap();
    assert_eq!(b.push_chunk(3, &vec![5]).unwrap_err(), WireError::SegmentOutOfOrder);
    assert_eq!(b.push_chunk(1, &vec![3, 4, 5, 6, 7]).unwrap_err(), WireError::SegmentOverflow);
    b.push_chunk(1, &vec![3, 4]).unwrap();
    assert!(!b.complete());
    b.push_chunk(2, &vec![5, 6]).unwrap();
    assert_eq!(b.finish().unwrap(), vec![1, 2, 3, 4, 5, 6]);
    let short = Reassembly::start(3, vec![1]).unwrap();
    assert_eq!(short.finish().unwrap_err(), WireError::SegmentIncomplete);
    assert_eq!(Reassembly::start(2_000_000, vec![]).err(), Some(WireError::SegmentTooLarge));
    assert_eq!(Reassembly::start(1, vec![1, 2]).err(), Some(WireError::SegmentOverflow));
}

fn record(id: u8, t: u64) -> OfferedContract {
    OfferedContract {
        contract_id: vec![id; 32],
        counterparty: vec![7; 32],
        raw_offer: vec![id],
        received_at: t,
    }
}

#[test]
fn registry_put_is_idempotent_and_ordered() {
    let mut r = OfferRegistry::new();
    assert!(r.put(record(1, 30)));
    assert!(r.put(record(2, 10)));
    assert!(!r.put(record(1, 50)));
    assert!(r.put(record(3, 30)));
    assert_eq!(r.len(), 3);
    let ids: Vec<u8> = r.list().iter().map(|o| o.contract_id[0]).collect();
    assert_eq!(ids, vec![2, 1, 3]);
    assert_eq!(r.list()[1].received_at, 30);
    assert!(r.contains(&vec![3; 32]));
}

#[test]
fn registry_take_removes_once() {
    let mut r = OfferRegistry::new();
    r.put(record(1, 1));
    r.put(record(2, 2));
    let got = r.take(&vec![1; 32]).unwrap();
    assert_eq!(got.raw_offer, vec![1]);
    assert!(r.take(&vec![1; 32]).is_none());
    assert_eq!(r.len(), 1);
    assert!(r.get(&vec![2; 32]).is_some());
    assert!(r.get(&vec![9; 32]).is_none());
}

#[test]
fn state_machine_transitions() {
    assert_eq!(transition(ConvState::Idle, Step::ReceiveOffer), Ok(ConvState::OfferReceived));
    assert_eq!(transition(ConvState::OfferReceived, Step::SendAccept), Ok(ConvState::AcceptSent));
    assert_eq!(transition(ConvState::AcceptSent, Step::ReceiveSign), Ok(ConvState::Funded));
    assert_eq!(transition(ConvState::Idle, Step::SendOffer), Ok(ConvState::OfferSent));
    assert_eq!(transition(ConvState::OfferSent, Step::ReceiveAccept), Ok(ConvState::AcceptReceived));
    assert_eq!(transition(ConvState::AcceptReceived, Step::SendSign), Ok(ConvState::Funded));
    assert_eq!(transition(ConvState::OfferSent, Step::Reject), Ok(ConvState::Rejected));
    assert_eq!(transition(ConvState::AcceptSent, Step::Expire), Ok(ConvState::Timeout));
    assert_eq!(
        transition(ConvState::Idle, Step::ReceiveSign),
        Err(ProtocolError::StateTransitionInvalid(ConvState::Idle, Step::ReceiveSign))
    );
    assert_eq!(
        transition(ConvState::Funded, Step::Reject),
        Err(ProtocolError::StateTransitionInvalid(ConvState::Funded, Step::Reject))
    );
}
