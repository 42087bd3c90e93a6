use dlc_relay::envelope::{load_or_create, Identity, KeystoreError};
use dlc_relay::handler::{
    build_tags, decode_payload, envelope_plaintext, HandlerError, InboundEvent, NostrDlcHandler,
    OutboundEnvelope, DLC_MESSAGE_KIND,
};
use dlc_relay::protocol::{ConvState, ProtocolError, Step};
use dlc_relay::wire::{encode_frame, encode_message, DlcMessage, MessageKind, WireError, WireFrame};
use dlc_relay::segment::segment_message;

fn handler(seed: u8) -> NostrDlcHandler {
    let id = Identity::from_secret(vec![seed; 32]).unwrap();
    NostrDlcHandler::new(id, "wss://relay.example".to_string())
}

fn offer_body(id: u8, extra: usize) -> Vec<u8> {
    let mut b = vec![0u8; 37];
    b.extend(vec![id; 32]);
    b.extend(vec![0x55; extra]);
    b
}

fn inbound(env: &OutboundEnvelope, from: &NostrDlcHandler, event_id: u8) -> InboundEvent {
    InboundEvent {
        id: vec![event_id; 32],
        sender: from.public_key(),
        kind: env.kind,
        content: env.content.clone(),
    }
}

fn raw_event(from: &NostrDlcHandler, from_seed: u8, to: &NostrDlcHandler, bytes: &[u8]) -> InboundEvent {
    let sk = nostr::secp256k1::SecretKey::from_slice(&[from_seed; 32]).unwrap();
    let pk = nostr::secp256k1::XOnlyPublicKey::from_slice(&to.public_key()).unwrap();
    let content = nostr::nips::nip04::encrypt(&sk, &pk, base64::encode(bytes)).unwrap();
    InboundEvent { id: vec![0xEE; 32], sender: from.public_key(), kind: DLC_MESSAGE_KIND, content }
}

#[test]
fn happy_path_offer_accept_sign() {
    let mut alice = handler(1);
    let mut bob = handler(2);
    let bob_pk = bob.public_key();
    let alice_pk = alice.public_key();

    let offer = DlcMessage { kind: MessageKind::Offer, body: offer_body(0xAA, 8) };
    assert_eq!(alice.note_sent(&bob_pk, MessageKind::Offer), Ok(ConvState::OfferSent));
    let env = alice.create_dlc_msg_event(&bob_pk, None, &offer).unwrap();
    assert_eq!(env.recipient, bob_pk);
    assert_eq!(env.tags.len(), 1);

    let got = bob.handle_dlc_msg_event(&inbound(&env, &alice, 0x0E), 100).unwrap().unwrap();
    assert_eq!(got.kind, MessageKind::Offer);
    assert_eq!(got.body, offer.body);
    assert_eq!(bob.offer_count(), 1);
    let listed = bob.list_offers();
    assert_eq!(listed[0].contract_id, vec![0xAA; 32]);
    assert_eq!(listed[0].counterparty, alice_pk);
    assert_eq!(bob.conversation_state(&alice_pk), ConvState::OfferReceived);

    let rec = bob.accept(&vec![0xAA; 32]).unwrap();
    assert_eq!(rec.counterparty, alice_pk);
    assert_eq!(bob.offer_count(), 0);
    assert_eq!(bob.conversation_state(&alice_pk), ConvState::AcceptSent);

    let accept = DlcMessage { kind: MessageKind::Accept, body: vec![1, 2, 3] };
    let env = bob.create_dlc_msg_event(&alice_pk, Some(vec![0x0E; 32]), &accept).unwrap();
    let got = alice.handle_dlc_msg_event(&inbound(&env, &bob, 0x0F), 101).unwrap().unwrap();
    assert_eq!(got.kind, MessageKind::Accept);
    assert_eq!(alice.conversation_state(&bob_pk), ConvState::AcceptReceived);

    let sign = DlcMessage { kind: MessageKind::Sign, body: vec![4, 5] };
    assert_eq!(alice.note_sent(&bob_pk, MessageKind::Sign), Ok(ConvState::Funded));
    let env = alice.create_dlc_msg_event(&bob_pk, Some(vec![0x0F; 32]), &sign).unwrap();
    let got = bob.handle_dlc_msg_event(&inbound(&env, &alice, 0x10), 102).unwrap().unwrap();
    assert_eq!(got.kind, MessageKind::Sign);
    assert_eq!(bob.conversation_state(&alice_pk), ConvState::Funded);
    assert_eq!(alice.conversation_state(&bob_pk), ConvState::Funded);
}

#[test]
fn malformed_envelope_is_dropped_and_loop_continues() {
    let alice = handler(1);
    let mut bob = handler(2);
    let bad = InboundEvent {
        id: vec![1; 32],
        sender: alice.public_key(),
        kind: DLC_MESSAGE_KIND,
        content: "not-base64!!".to_string(),
    };
    assert_eq!(bob.handle_dlc_msg_event(&bad, 1), Err(HandlerError::EnvelopeMalformed));
    assert_eq!(bob.offer_count(), 0);
    let offer = DlcMessage { kind: MessageKind::Offer, body: offer_body(3, 0) };
    let env = alice.create_dlc_msg_event(&bob.public_key(), None, &offer).unwrap();
    assert!(bob.handle_dlc_msg_event(&inbound(&env, &alice, 2), 2).unwrap().is_some());
    assert_eq!(bob.offer_count(), 1);
}

#[test]
fn other_event_kinds_are_ignored() {
    let alice = handler(1);
    let mut bob = handler(2);
    let offer = DlcMessage { kind: MessageKind::Offer, body: offer_body(3, 0) };
    let env = alice.create_dlc_msg_event(&bob.public_key(), None, &offer).unwrap();
    let mut ev = inbound(&env, &alice, 2);
    ev.kind = 4;
    assert_eq!(bob.handle_dlc_msg_event(&ev, 1).unwrap().is_none(), true);
    assert_eq!(bob.offer_count(), 0);
}

#[test]
fn segmented_offer_is_reassembled() {
    let ceiling: usize = 200;
    let alice = handler(1);
    let mut bob = handler(2);
    let body = offer_body(0x42, ceiling + 100 - 2 - 69);
    let encoded = encode_message(&DlcMessage { kind: MessageKind::Offer, body: body.clone() });
    assert_eq!(encoded.len(), ceiling + 100);
    let frames = segment_message(&encoded, ceiling);
    assert_eq!(frames.len(), 2);

    let first = encode_frame(&frames[0]);
    assert!(bob.handle_dlc_msg_event(&raw_event(&alice, 1, &bob, &first), 5).unwrap().is_none());
    // a chunk that skips ahead is refused and purges the buffer
    let skip = encode_frame(&WireFrame::SegmentChunk { seq: 3, bytes: vec![0] });
    assert_eq!(
        bob.handle_dlc_msg_event(&raw_event(&alice, 1, &bob, &skip), 6),
        Err(HandlerError::Wire(WireError::SegmentOutOfOrder))
    );
    // the retransmission in order succeeds
    assert!(bob.handle_dlc_msg_event(&raw_event(&alice, 1, &bob, &first), 7).unwrap().is_none());
    let second = encode_frame(&frames[1]);
    let got = bob.handle_dlc_msg_event(&raw_event(&alice, 1, &bob, &second), 8).unwrap().unwrap();
    assert_eq!(got.kind, MessageKind::Offer);
    assert_eq!(got.body, body);
    assert_eq!(bob.offer_count(), 1);
}

#[test]
fn chunk_without_start_is_discarded() {
    let alice = handler(1);
    let mut bob = handler(2);
    let chunk = encode_frame(&WireFrame::SegmentChunk { seq: 1, bytes: vec![1, 2] });
    assert_eq!(bob.handle_dlc_msg_event(&raw_event(&alice, 1, &bob, &chunk), 1), Ok(None));
}

#[test]
fn duplicate_offer_is_recorded_once() {
    let alice = handler(1);
    let mut bob = handler(2);
    let offer = DlcMessage { kind: MessageKind::Offer, body: offer_body(9, 4) };
    let env = alice.create_dlc_msg_event(&bob.public_key(), None, &offer).unwrap();
    assert!(bob.handle_dlc_msg_event(&inbound(&env, &alice, 1), 1).unwrap().is_some());
    assert_eq!(bob.handle_dlc_msg_event(&inbound(&env, &alice, 1), 2), Ok(None));
    assert_eq!(bob.offer_count(), 1);
}

#[test]
fn reply_is_threaded_to_the_inbound_event() {
    let alice = handler(1);
    let bob = handler(2);
    let accept = DlcMessage { kind: MessageKind::Accept, body: vec![7] };
    let env = bob.create_dlc_msg_event(&alice.public_key(), Some(vec![0xAB; 32]), &accept).unwrap();
    assert_eq!(env.kind, DLC_MESSAGE_KIND);
    assert_eq!(env.tags.len(), 2);
    assert_eq!(env.tags[0], ("p".to_string(), hex::encode(alice.public_key())));
    assert_eq!(env.tags[1], ("e".to_string(), "ab".repeat(32)));
}

#[test]
fn offers_from_two_counterparties_both_recorded() {
    let a = handler(3);
    let b = handler(4);
    let mut bob = handler(2);
    let ea = a
        .create_dlc_msg_event(&bob.public_key(), None, &DlcMessage { kind: MessageKind::Offer, body: offer_body(0xA1, 0) })
        .unwrap();
    let eb = b
        .create_dlc_msg_event(&bob.public_key(), None, &DlcMessage { kind: MessageKind::Offer, body: offer_body(0xB1, 0) })
        .unwrap();
    assert!(bob.handle_dlc_msg_event(&inbound(&ea, &a, 1), 10).unwrap().is_some());
    assert!(bob.handle_dlc_msg_event(&inbound(&eb, &b, 2), 10).unwrap().is_some());
    assert_eq!(bob.offer_count(), 2);
    assert_eq!(bob.conversation_state(&a.public_key()), ConvState::OfferReceived);
    assert_eq!(bob.conversation_state(&b.public_key()), ConvState::OfferReceived);
}

#[test]
fn protocol_errors_and_unknown_contract() {
    let alice = handler(1);
    let mut bob = handler(2);
    let sign = DlcMessage { kind: MessageKind::Sign, body: vec![1] };
    let env = alice.create_dlc_msg_event(&bob.public_key(), None, &sign).unwrap();
    assert_eq!(
        bob.handle_dlc_msg_event(&inbound(&env, &alice, 1), 1),
        Err(HandlerError::Protocol(ProtocolError::StateTransitionInvalid(ConvState::Idle, Step::ReceiveSign)))
    );
    assert_eq!(bob.accept(&vec![1; 32]).err(), Some(HandlerError::UnknownContract));
    let short = DlcMessage { kind: MessageKind::Offer, body: vec![0; 10] };
    let env = alice.create_dlc_msg_event(&bob.public_key(), None, &short).unwrap();
    assert_eq!(
        bob.handle_dlc_msg_event(&inbound(&env, &alice, 2), 2),
        Err(HandlerError::Wire(WireError::Truncated))
    );
}

#[test]
fn encryption_needs_a_full_recipient_key() {
    let alice = handler(1);
    let m = DlcMessage { kind: MessageKind::Sign, body: vec![] };
    assert_eq!(alice.create_dlc_msg_event(&vec![1, 2, 3], None, &m).err(), Some(HandlerError::EncryptionFailed));
}

#[test]
fn wrapped_encodings_do_real_work() {
    let m = DlcMessage { kind: MessageKind::Offer, body: vec![1, 2, 3] };
    let plain = envelope_plaintext(&m);
    assert_eq!(plain, base64::encode([0xA7u8, 0x1A, 1, 2, 3]));
    match decode_payload(&plain).unwrap() {
        WireFrame::Message(d) => assert_eq!(d.body, vec![1, 2, 3]),
        _ => panic!("expected a message"),
    }
    assert_eq!(decode_payload(&"***".to_string()).err(), Some(HandlerError::Base64Invalid));
    let tags = build_tags(&vec![0x0f, 0xa0], &None);
    assert_eq!(tags, vec![("p".to_string(), "0fa0".to_string())]);
}

#[test]
fn keystore_validation_and_persistence() {
    assert_eq!(Identity::from_secret(vec![0; 32]).err(), Some(KeystoreError::KeystoreCorrupt));
    assert_eq!(Identity::from_secret(vec![1; 31]).err(), Some(KeystoreError::KeystoreCorrupt));
    assert_eq!(Identity::from_secret(vec![0xFF; 32]).err(), Some(KeystoreError::KeystoreCorrupt));
    let (first, write) = load_or_create(None, vec![5; 32]).unwrap();
    assert!(write);
    let stored = first.secret_bytes();
    let (second, write2) = load_or_create(Some(stored), vec![6; 32]).unwrap();
    assert!(!write2);
    assert_eq!(second.public_key(), first.public_key());
    assert_eq!(second.secret_bytes(), vec![5; 32]);
    let sk = nostr::secp256k1::SecretKey::from_slice(&[5; 32]).unwrap();
    let expected = nostr::Keys::new(sk).public_key().serialize().to_vec();
    assert_eq!(first.public_key(), expected);
}

#[test]
fn bad_iv_is_malformed_not_a_panic() {
    let alice = handler(1);
    let mut bob = handler(2);
    for content in ["AA==?iv=AA==", "?iv=", "abc?iv=AAAAAAAAAAAAAAAAAAAAAA==?iv=AAAAAAAAAAAAAAAAAAAAAA=="] {
        let ev = InboundEvent {
            id: vec![1; 32],
            sender: alice.public_key(),
            kind: DLC_MESSAGE_KIND,
            content: content.to_string(),
        };
        assert_eq!(bob.parse_dlc_msg_event(&ev).err(), Some(HandlerError::EnvelopeMalformed));
        assert_eq!(bob.handle_dlc_msg_event(&ev, 1), Err(HandlerError::EnvelopeMalformed));
    }
}

#[test]
fn content_for_another_key_fails_to_decrypt() {
    let alice = handler(1);
    let mut bob = handler(2);
    let carol = handler(3);
    let m = DlcMessage { kind: MessageKind::Sign, body: vec![1, 2, 3, 4] };
    let env = alice.create_dlc_msg_event(&carol.public_key(), None, &m).unwrap();
    let r = bob.handle_dlc_msg_event(&inbound(&env, &alice, 1), 1);
    assert!(matches!(r, Err(HandlerError::DecryptionFailed) | Err(HandlerError::Base64Invalid)));
    // carol reads it
    let got = carol.parse_dlc_msg_event(&inbound(&env, &alice, 1)).unwrap();
    assert_eq!(got, WireFrame::Message(m));
}

#[test]
fn outbound_segmentation_is_read_back() {
    let ceiling: usize = 200;
    let alice = handler(1);
    let mut bob = handler(2);
    let body = offer_body(0x43, ceiling + 100 - 2 - 69);
    let offer = DlcMessage { kind: MessageKind::Offer, body: body.clone() };
    let envs = alice.create_dlc_msg_events(&bob.public_key(), Some(vec![9; 32]), &offer, ceiling).unwrap();
    assert_eq!(envs.len(), 2);
    assert!(bob.handle_dlc_msg_event(&inbound(&envs[0], &alice, 1), 1).unwrap().is_none());
    let got = bob.handle_dlc_msg_event(&inbound(&envs[1], &alice, 2), 2).unwrap().unwrap();
    assert_eq!(got, offer);
    assert_eq!(envs[1].tags[1], ("e".to_string(), "09".repeat(32)));

    let small = DlcMessage { kind: MessageKind::Sign, body: vec![1] };
    let one = alice.create_dlc_msg_events(&bob.public_key(), None, &small, ceiling).unwrap();
    assert_eq!(one.len(), 1);
    let big = DlcMessage { kind: MessageKind::Sign, body: vec![0; 70000] };
    assert_eq!(
        alice.create_dlc_msg_events(&bob.public_key(), None, &big, 7).err(),
        Some(HandlerError::Wire(WireError::SegmentTooLarge))
    );
}
