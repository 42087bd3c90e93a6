//! The DLC message handler: from an inbound relay event to the message handed to the
//! contract manager, and from a reply to the outbound envelope.
use vstd::prelude::*;
use crate::wire::{
    WireError, WireFrame, FrameModel, DlcMessage, MessageKind, parse_frame, frame_bytes,
    decode_frame, decode_message, lemma_frame_round_trip, copy_range,
};
use crate::segment::{Reassembly, MAX_REASSEMBLY_LEN};
use crate::registry::{OfferRegistry, OfferedContract, OfferModel, holds_id, put_spec};
use crate::protocol::{Conversations, ConvState, ProtocolError, Step, next_state};
use crate::envelope::{
    Identity, base64_bytes, base64_text, nip04_plaintext, hex_of, base64_encode, base64_decode,
    hex_encode, nip04_encrypt, nip04_decrypt, is_nip04_shape, nip04_shape, owns_key,
    is_valid_secret, xonly_public_key,
};
use crate::segment::{segment_message, segment_frames};
use crate::wire::{encode_frame, encode_message, SEGMENT_START_HEADER};
use crate::keyed::{lookup, keys_unique, lemma_lookup_at, lemma_lookup_absent, lemma_lookup_update, lemma_lookup_push};

verus! {

/// Event kind of DLC traffic on the relay (the text-note kind).
pub const DLC_MESSAGE_KIND: u64 = 1;

/// Where the temporary contract id starts in an offer's body: after the protocol
/// version (4 bytes), the contract flags (1) and the chain hash (32).
pub const OFFER_ID_OFFSET: usize = 37;

/// Length of a contract id.
pub const CONTRACT_ID_LEN: usize = 32;

#[derive(Clone, Copy, Debug, PartialEq, Eq, Structural)]
pub enum HandlerError {
    EnvelopeMalformed,
    DecryptionFailed,
    Base64Invalid,
    Wire(WireError),
    Protocol(ProtocolError),
    EncryptionFailed,
    UnknownContract,
}

/// An event as the relay delivers it.
#[derive(Clone, Debug)]
pub struct InboundEvent {
    pub id: Vec<u8>,
    pub sender: Vec<u8>,
    pub kind: u64,
    pub content: String,
}

/// An event to publish, before the transport stamps and signs it.
#[derive(Clone, Debug)]
pub struct OutboundEnvelope {
    pub recipient: Vec<u8>,
    pub kind: u64,
    pub content: String,
    pub tags: Vec<(String, String)>,
}

/// What a reassembly buffer holds: bytes so far, total announced, next sequence number.
pub type PendingModel = (Seq<u8>, u32, u16);

pub open spec fn pending_model(r: Reassembly) -> PendingModel {
    (r.buf@, r.total_len, r.next_seq)
}

/// The effect of one frame from a counterparty on its reassembly buffer: the buffer
/// afterwards, and the bytes of a complete message, if one is now complete. Any error
/// purges the buffer; a chunk with no open buffer is dropped.
pub open spec fn frame_step(p: Option<PendingModel>, f: FrameModel) -> (
    Option<PendingModel>,
    Result<Option<Seq<u8>>, WireError>,
) {
    match f {
        FrameModel::Message(_, _) => (p, Ok(Some(frame_bytes(f)))),
        FrameModel::SegmentStart(total, chunk) => if total > MAX_REASSEMBLY_LEN {
            (None, Err(WireError::SegmentTooLarge))
        } else if chunk.len() > total {
            (None, Err(WireError::SegmentOverflow))
        } else if chunk.len() == total {
            (None, Ok(Some(chunk)))
        } else {
            (Some((chunk, total, 1u16)), Ok(None))
        },
        FrameModel::SegmentChunk(seq, bytes) => match p {
            None => (None, Ok(None)),
            Some((buf, total, next)) => if seq != next {
                (None, Err(WireError::SegmentOutOfOrder))
            } else if buf.len() + bytes.len() > total || next == u16::MAX {
                (None, Err(WireError::SegmentOverflow))
            } else if buf.len() + bytes.len() == total {
                (None, Ok(Some(buf + bytes)))
            } else {
                (Some((buf + bytes, total, (next + 1) as u16)), Ok(None))
            },
        },
    }
}

/// The message that complete message bytes decode to, as the handler reports it.
pub open spec fn completed(b: Seq<u8>) -> Result<(MessageKind, Seq<u8>), HandlerError> {
    match parse_frame(b) {
        Ok(FrameModel::Message(k, body)) => Ok((k, body)),
        Ok(_) => Err(HandlerError::Wire(WireError::UnknownType)),
        Err(e) => Err(HandlerError::Wire(e)),
    }
}

/// What an inbound event's content reads as: its NIP-04 shape, decryption, then base64,
/// then a wire frame.
pub open spec fn content_frame(sk: Seq<u8>, sender: Seq<u8>, content: Seq<char>) -> Result<
    FrameModel,
    HandlerError,
> {
    if !is_nip04_shape(content) {
        Err(HandlerError::EnvelopeMalformed)
    } else {
        match nip04_plaintext(sk, sender, content) {
        None => Err(HandlerError::DecryptionFailed),
        Some(t) => match base64_bytes(t) {
            None => Err(HandlerError::Base64Invalid),
            Some(b) => match parse_frame(b) {
                Ok(f) => Ok(f),
                Err(e) => Err(HandlerError::Wire(e)),
            },
        },
        }
    }
}

/// Content that `sender_pub` sealed for the holder of `to`: it has the NIP-04 shape, and
/// under any secret of `to` and the sender's key it decrypts to the base64 text of
/// `bytes`, which reads back as `bytes`.
pub open spec fn sealed_for(sender_pub: Seq<u8>, to: Seq<u8>, bytes: Seq<u8>, content: Seq<char>) -> bool {
    &&& is_nip04_shape(content)
    &&& base64_bytes(base64_text(bytes)) == Some(bytes)
    &&& forall|s: Seq<u8>|
        owns_key(s, to) ==> nip04_plaintext(s, sender_pub, content) == Some(base64_text(bytes))
}

/// An envelope to `to`, threaded to `reply_to`, that carries `bytes`.
pub open spec fn envelope_carries(
    env: OutboundEnvelope,
    sender_pub: Seq<u8>,
    to: Seq<u8>,
    reply_to: Option<Seq<u8>>,
    bytes: Seq<u8>,
) -> bool {
    &&& env.recipient@ == to
    &&& env.kind == DLC_MESSAGE_KIND
    &&& env.tags@.map_values(|t: (String, String)| (t.0@, t.1@)) == reply_tags(to, reply_to)
    &&& sealed_for(sender_pub, to, bytes, env.content@)
}

pub open spec fn opt_view(o: Option<Vec<u8>>) -> Option<Seq<u8>> {
    match o {
        Some(v) => Some(v@),
        None => None,
    }
}

/// Whether an encoded message of `len` bytes is too large to send under `ceiling`: more
/// than a peer reassembles, or more segments than sequence numbers.
pub open spec fn too_large_to_send(len: nat, ceiling: nat) -> bool {
    len > ceiling && (len > MAX_REASSEMBLY_LEN || len / ((ceiling - SEGMENT_START_HEADER) as nat)
        >= 65535)
}

/// A content with the NIP-04 shape holds a `?`.
pub proof fn lemma_shape_has_question_mark(c: Seq<char>)
    requires
        is_nip04_shape(c),
    ensures
        c.contains('?'),
{
    assert(c.subrange(c.len() - 28, c.len() - 24)[0] == c[c.len() - 28]);
}

/// The tags of an outbound envelope: `["p", recipient]`, then `["e", reply_to]` when it
/// answers an inbound event, both in lowercase hex.
pub open spec fn reply_tags(to: Seq<u8>, reply_to: Option<Seq<u8>>) -> Seq<(Seq<char>, Seq<char>)> {
    match reply_to {
        None => seq![(seq!['p'], hex_of(to))],
        Some(e) => seq![(seq!['p'], hex_of(to)), (seq!['e'], hex_of(e))],
    }
}

/// The text that is encrypted for a message: base64 of its wire bytes.
pub open spec fn message_plaintext(k: MessageKind, body: Seq<u8>) -> Seq<char> {
    base64_text(frame_bytes(FrameModel::Message(k, body)))
}

/// The temporary contract id that an offer's body carries.
pub open spec fn offer_id(body: Seq<u8>) -> Seq<u8> {
    body.subrange(OFFER_ID_OFFSET as int, (OFFER_ID_OFFSET + CONTRACT_ID_LEN) as int)
}

pub open spec fn step_of(k: MessageKind) -> Step {
    match k {
        MessageKind::Offer => Step::ReceiveOffer,
        MessageKind::Accept => Step::ReceiveAccept,
        MessageKind::Sign => Step::ReceiveSign,
    }
}

/// The state of a handler that the contracts speak of.
pub struct HandlerModel {
    pub offers: Seq<OfferModel>,
    pub states: Seq<(Seq<u8>, ConvState)>,
    pub pending: Seq<(Seq<u8>, Option<PendingModel>)>,
}

/// Handles DLC traffic for one wallet identity.
pub struct NostrDlcHandler {
    keys: Identity,
    relay_url: String,
    registry: OfferRegistry,
    conversations: Conversations,
    buffers: Vec<(Vec<u8>, Option<Reassembly>)>,
}

impl NostrDlcHandler {
    pub closed spec fn pending_view(&self) -> Seq<(Seq<u8>, Option<PendingModel>)> {
        self.buffers@.map_values(
            |e: (Vec<u8>, Option<Reassembly>)|
                (
                    e.0@,
                    match e.1 {
                        Some(r) => Some(pending_model(r)),
                        None => None,
                    },
                ),
        )
    }

    pub closed spec fn model(&self) -> HandlerModel {
        HandlerModel {
            offers: self.registry@,
            states: self.conversations@,
            pending: self.pending_view(),
        }
    }

    /// The reassembly buffer open for `who`, if any.
    pub open spec fn pending(&self, who: Seq<u8>) -> Option<PendingModel> {
        match lookup(self.model().pending, who) {
            Some(p) => p,
            None => None,
        }
    }

    /// The offers awaiting a decision.
    pub closed spec fn offers(&self) -> Seq<OfferModel> {
        self.registry@
    }

    /// The state of the conversation with `who`.
    pub closed spec fn conv_state(&self, who: Seq<u8>) -> ConvState {
        self.conversations.state(who)
    }

    pub closed spec fn relay(&self) -> Seq<char> {
        self.relay_url@
    }

    /// The relay this handler is meant to listen on.
    pub fn relay_url(&self) -> (r: String)
        ensures
            r@ == self.relay(),
    {
        self.relay_url.clone()
    }

    pub closed spec fn secret(&self) -> Seq<u8> {
        self.keys.secret_view()
    }

    pub closed spec fn identity_public(&self) -> Seq<u8> {
        self.keys.public_view()
    }

    pub closed spec fn wf(&self) -> bool {
        &&& self.keys.wf()
        &&& self.registry.wf()
        &&& self.conversations.wf()
        &&& keys_unique(self.pending_view())
        &&& forall|i: int|
            0 <= i < self.buffers@.len() ==> match (#[trigger] self.buffers@[i]).1 {
                Some(r) => r.wf(),
                None => true,
            }
    }

    /// A handler for `keys`, with no offers, conversations or buffers yet.
    pub fn new(keys: Identity, relay_url: String) -> (r: NostrDlcHandler)
        requires
            keys.wf(),
        ensures
            r.wf(),
            r.offers() == Seq::<OfferModel>::empty(),
            forall|w: Seq<u8>| r.conv_state(w) == ConvState::Idle,
            forall|w: Seq<u8>| r.pending(w) is None,
            r.secret() == keys.secret_view(),
            r.identity_public() == keys.public_view(),
            r.relay() == relay_url@,
    {
        let r = NostrDlcHandler {
            keys,
            relay_url,
            registry: OfferRegistry::new(),
            conversations: Conversations::new(),
            buffers: Vec::new(),
        };
        assert(r.pending_view() =~= Seq::<(Seq<u8>, Option<PendingModel>)>::empty());
        r
    }

    /// The public key that identifies this handler to counterparties.
    pub fn public_key(&self) -> (r: Vec<u8>)
        ensures
            r@ == self.identity_public(),
    {
        self.keys.public_key()
    }

    /// The number of offers awaiting a decision.
    pub fn offer_count(&self) -> (r: usize)
        ensures
            r == self.offers().len(),
    {
        self.registry.len()
    }

    /// A snapshot of the offers awaiting a decision, in order of arrival.
    pub fn list_offers(&self) -> (r: Vec<OfferedContract>)
        ensures
            r@.map_values(|e: OfferedContract| e@) == self.offers(),
    {
        self.registry.list()
    }

    /// The state of the conversation with `who`.
    pub fn conversation_state(&self, who: &Vec<u8>) -> (r: ConvState)
        requires
            self.wf(),
        ensures
            r == self.conv_state(who@),
    {
        self.conversations.get(who)
    }

    fn find_buffer(&self, who: &Vec<u8>) -> (r: Option<usize>)
        ensures
            match r {
                Some(i) => i < self.buffers@.len() && self.pending_view()[i as int].0 == who@,
                None => forall|j: int|
                    0 <= j < self.pending_view().len() ==> (#[trigger] self.pending_view()[j]).0
                        != who@,
            },
    {
        let mut i: usize = 0;
        while i < self.buffers.len()
            invariant
                i <= self.buffers@.len(),
                self.pending_view().len() == self.buffers@.len(),
                forall|j: int| 0 <= j < i ==> (#[trigger] self.pending_view()[j]).0 != who@,
            decreases self.buffers@.len() - i,
        {
            if crate::registry::bytes_eq(&self.buffers[i].0, who) {
                return Some(i);
            }
            i = i + 1;
        }
        None
    }

    /// Takes the buffer open for `who` out, leaving none.
    fn take_buffer(&mut self, who: &Vec<u8>) -> (r: Option<Reassembly>)
        requires
            old(self).wf(),
        ensures
            final(self).wf(),
            match r {
                Some(b) => old(self).pending(who@) == Some(pending_model(b)) && b.wf(),
                None => old(self).pending(who@) is None,
            },
            final(self).pending(who@) is None,
            forall|w: Seq<u8>| w != who@ ==> final(self).pending(w) == old(self).pending(w),
            final(self).offers() == old(self).offers(),
            forall|w: Seq<u8>| final(self).conv_state(w) == old(self).conv_state(w),
            final(self).secret() == old(self).secret(),
            final(self).identity_public() == old(self).identity_public(),
    {
        match self.find_buffer(who) {
            None => {
                proof {
                    lemma_lookup_absent(self.pending_view(), who@);
                }
                None
            },
            Some(i) => {
                let ghost s = self.pending_view();
                proof {
                    lemma_lookup_at(s, i as int);
                }
                let entry = self.buffers.remove(i);
                let key = entry.0;
                let b = entry.1;
                self.buffers.insert(i, (key, None));
                assert(self.pending_view() =~= s.update(i as int, (who@, None)));
                proof {
                    lemma_lookup_update(s, i as int, who@, None);
                    assert forall|j: int| 0 <= j < self.buffers@.len() implies match (
                    #[trigger] self.buffers@[j]).1 {
                        Some(r) => r.wf(),
                        None => true,
                    } by {
                        if j != i {
                            assert(self.buffers@[j] == old(self).buffers@[j]);
                        }
                    }
                }
                b
            },
        }
    }

    /// Opens (or replaces) the buffer for `who`.
    fn store_buffer(&mut self, who: &Vec<u8>, b: Reassembly)
        requires
            old(self).wf(),
            b.wf(),
        ensures
            final(self).wf(),
            final(self).pending(who@) == Some(pending_model(b)),
            forall|w: Seq<u8>| w != who@ ==> final(self).pending(w) == old(self).pending(w),
            final(self).offers() == old(self).offers(),
            forall|w: Seq<u8>| final(self).conv_state(w) == old(self).conv_state(w),
            final(self).secret() == old(self).secret(),
            final(self).identity_public() == old(self).identity_public(),
    {
        let ghost s = self.pending_view();
        let ghost m = pending_model(b);
        match self.find_buffer(who) {
            Some(i) => {
                self.buffers.set(i, (who.clone(), Some(b)));
                assert(self.pending_view() =~= s.update(i as int, (who@, Some(m))));
                proof {
                    lemma_lookup_update(s, i as int, who@, Some(m));
                }
                assert forall|j: int| 0 <= j < self.buffers@.len() implies match (
                #[trigger] self.buffers@[j]).1 {
                    Some(r) => r.wf(),
                    None => true,
                } by {
                    if j != i {
                        assert(self.buffers@[j] == old(self).buffers@[j]);
                    }
                }
            },
            None => {
                self.buffers.push((who.clone(), Some(b)));
                assert(self.pending_view() =~= s.push((who@, Some(m))));
                proof {
                    lemma_lookup_push(s, who@, Some(m));
                }
                assert forall|j: int| 0 <= j < self.buffers@.len() implies match (
                #[trigger] self.buffers@[j]).1 {
                    Some(r) => r.wf(),
                    None => true,
                } by {
                    if j < s.len() {
                        assert(self.buffers@[j] == old(self).buffers@[j]);
                    }
                }
            },
        }
    }

    /// Feeds one frame from `sender` through its reassembly buffer. A complete message
    /// comes back; a segment that leaves the message incomplete gives `None`.
    pub fn receive_frame(&mut self, sender: &Vec<u8>, frame: WireFrame) -> (r: Result<
        Option<DlcMessage>,
        HandlerError,
    >)
        requires
            old(self).wf(),
        ensures
            final(self).wf(),
            final(self).pending(sender@) == frame_step(old(self).pending(sender@), frame@).0,
            forall|w: Seq<u8>| w != sender@ ==> final(self).pending(w) == old(self).pending(w),
            final(self).offers() == old(self).offers(),
            forall|w: Seq<u8>| final(self).conv_state(w) == old(self).conv_state(w),
            final(self).secret() == old(self).secret(),
            final(self).identity_public() == old(self).identity_public(),
            match frame_step(old(self).pending(sender@), frame@).1 {
                Err(e) => r == Err::<Option<DlcMessage>, HandlerError>(HandlerError::Wire(e)),
                Ok(None) => r matches Ok(None),
                Ok(Some(b)) => match completed(b) {
                    Ok((k, body)) => r matches Ok(Some(m)) && m.kind == k && m.body@ == body,
                    Err(e) => r == Err::<Option<DlcMessage>, HandlerError>(e),
                },
            },
    {
        let ghost f = frame@;
        match frame {
            WireFrame::Message(m) => {
                proof {
                    lemma_frame_round_trip(f);
                }
                Ok(Some(m))
            },
            WireFrame::SegmentStart { total_len, first_chunk } => {
                let _ = self.take_buffer(sender);
                match Reassembly::start(total_len, first_chunk) {
                    Err(e) => Err(HandlerError::Wire(e)),
                    Ok(b) => {
                        if b.complete() {
                            self.finish_message(b)
                        } else {
                            self.store_buffer(sender, b);
                            Ok(None)
                        }
                    },
                }
            },
            WireFrame::SegmentChunk { seq, bytes } => {
                match self.take_buffer(sender) {
                    None => Ok(None),
                    Some(mut b) => {
                        match b.push_chunk(seq, &bytes) {
                            Err(e) => Err(HandlerError::Wire(e)),
                            Ok(()) => {
                                if b.complete() {
                                    self.finish_message(b)
                                } else {
                                    self.store_buffer(sender, b);
                                    Ok(None)
                                }
                            },
                        }
                    },
                }
            },
        }
    }

    fn finish_message(&self, b: Reassembly) -> (r: Result<Option<DlcMessage>, HandlerError>)
        requires
            b.is_complete(),
        ensures
            match completed(b.buf@) {
                Ok((k, body)) => r matches Ok(Some(m)) && m.kind == k && m.body@ == body,
                Err(e) => r == Err::<Option<DlcMessage>, HandlerError>(e),
            },
    {
        let bytes = match b.finish() {
            Ok(v) => v,
            Err(e) => return Err(HandlerError::Wire(e)),
        };
        match decode_message(&bytes) {
            Ok(m) => Ok(Some(m)),
            Err(e) => Err(HandlerError::Wire(e)),
        }
    }
}

/// What handing a complete message from `sender` to the conversation does, from handler
/// `h0` to handler `h1` with result `r`. An offer records its contract as awaiting a
/// decision, unless that contract id is already held: a re-delivered offer is not handed
/// on again.
pub open spec fn dispatch_post(
    h0: NostrDlcHandler,
    h1: NostrDlcHandler,
    sender: Seq<u8>,
    k: MessageKind,
    body: Seq<u8>,
    now: u64,
    r: Result<Option<DlcMessage>, HandlerError>,
) -> bool {
    let unchanged = h1.offers() == h0.offers() && forall|w: Seq<u8>|
        #[trigger] h1.conv_state(w) == h0.conv_state(w);
    let others = forall|w: Seq<u8>| w != sender ==> #[trigger] h1.conv_state(w) == h0.conv_state(w);
    let record = OfferModel {
        contract_id: offer_id(body),
        counterparty: sender,
        raw_offer: body,
        received_at: now,
    };
    if k == MessageKind::Offer && body.len() < OFFER_ID_OFFSET + CONTRACT_ID_LEN {
        r == Err::<Option<DlcMessage>, HandlerError>(HandlerError::Wire(WireError::Truncated))
            && unchanged
    } else if k == MessageKind::Offer && holds_id(h0.offers(), offer_id(body)) {
        r matches Ok(None) && unchanged
    } else {
        match next_state(h0.conv_state(sender), step_of(k)) {
            None => r == Err::<Option<DlcMessage>, HandlerError>(
                HandlerError::Protocol(
                    ProtocolError::StateTransitionInvalid(h0.conv_state(sender), step_of(k)),
                ),
            ) && unchanged,
            Some(n) => (r matches Ok(Some(m)) && m.kind == k && m.body@ == body) && h1.conv_state(
                sender,
            ) == n && others && (k == MessageKind::Offer ==> put_spec(
                h0.offers(),
                record,
                h1.offers(),
            ) && h1.offers().len() == h0.offers().len() + 1) && (k != MessageKind::Offer
                ==> h1.offers() == h0.offers()),
        }
    }
}

/// What one inbound frame `f` from `sender` does, from handler `h0` to handler `h1` with
/// result `r`: it goes through the sender's reassembly buffer, and a message that is now
/// complete goes to its conversation.
pub open spec fn frame_post(
    h0: NostrDlcHandler,
    h1: NostrDlcHandler,
    sender: Seq<u8>,
    f: FrameModel,
    now: u64,
    r: Result<Option<DlcMessage>, HandlerError>,
) -> bool {
    let step = frame_step(h0.pending(sender), f);
    let unchanged = h1.offers() == h0.offers() && forall|w: Seq<u8>|
        #[trigger] h1.conv_state(w) == h0.conv_state(w);
    &&& h1.pending(sender) == step.0
    &&& forall|w: Seq<u8>| w != sender ==> #[trigger] h1.pending(w) == h0.pending(w)
    &&& match step.1 {
        Err(e) => r == Err::<Option<DlcMessage>, HandlerError>(HandlerError::Wire(e)) && unchanged,
        Ok(None) => r matches Ok(None) && unchanged,
        Ok(Some(b)) => match completed(b) {
            Err(e) => r == Err::<Option<DlcMessage>, HandlerError>(e) && unchanged,
            Ok((k, body)) => dispatch_post(h0, h1, sender, k, body, now, r),
        },
    }
}

/// The plaintext that goes into the envelope of `msg`: base64 of its wire bytes.
pub fn envelope_plaintext(msg: &DlcMessage) -> (r: String)
    ensures
        r@ == message_plaintext(msg.kind, msg.body@),
{
    let bytes = crate::wire::encode_message(msg);
    assert(bytes@ == frame_bytes(FrameModel::Message(msg.kind, msg.body@)));
    base64_encode(&bytes)
}

/// Reads the decrypted text of an envelope: base64, then one wire frame.
pub fn decode_payload(plain: &String) -> (r: Result<WireFrame, HandlerError>)
    ensures
        match base64_bytes(plain@) {
            None => r == Err::<WireFrame, HandlerError>(HandlerError::Base64Invalid),
            Some(b) => match parse_frame(b) {
                Ok(f) => r matches Ok(g) && g@ == f,
                Err(e) => r == Err::<WireFrame, HandlerError>(HandlerError::Wire(e)),
            },
        },
{
    let bytes = match base64_decode(plain) {
        Some(b) => b,
        None => return Err(HandlerError::Base64Invalid),
    };
    match decode_frame(&bytes) {
        Ok(f) => Ok(f),
        Err(e) => Err(HandlerError::Wire(e)),
    }
}

/// The tag `[name, hex(value)]`.
fn hex_tag(name: &str, value: &Vec<u8>) -> (r: (String, String))
    ensures
        r.0@ == name@,
        r.1@ == hex_of(value@),
{
    (name.to_owned(), hex_encode(value))
}

/// The tags of an envelope to `to`, answering event `reply_to` if given.
pub fn build_tags(to: &Vec<u8>, reply_to: &Option<Vec<u8>>) -> (r: Vec<(String, String)>)
    ensures
        r@.map_values(|t: (String, String)| (t.0@, t.1@)) == reply_tags(
            to@,
            match reply_to {
                Some(e) => Some(e@),
                None => None,
            },
        ),
{
    proof {
        reveal_strlit("p");
        reveal_strlit("e");
    }
    let mut tags: Vec<(String, String)> = Vec::new();
    let p = hex_tag("p", to);
    assert(p.0@ =~= seq!['p']);
    tags.push(p);
    match reply_to {
        Some(e) => {
            let t = hex_tag("e", e);
            assert(t.0@ =~= seq!['e']);
            tags.push(t);
            assert(tags@.map_values(|t: (String, String)| (t.0@, t.1@)) =~= reply_tags(
                to@,
                Some(e@),
            ));
        },
        None => {
            assert(tags@.map_values(|t: (String, String)| (t.0@, t.1@)) =~= reply_tags(to@, None));
        },
    }
    tags
}

impl NostrDlcHandler {
    /// Hands a complete message from `sender` to its conversation; see `dispatch_post`.
    pub fn dispatch(&mut self, sender: &Vec<u8>, msg: DlcMessage, now: u64) -> (r: Result<
        Option<DlcMessage>,
        HandlerError,
    >)
        requires
            old(self).wf(),
        ensures
            final(self).wf(),
            dispatch_post(*old(self), *final(self), sender@, msg.kind, msg.body@, now, r),
            forall|w: Seq<u8>| final(self).pending(w) == old(self).pending(w),
            final(self).secret() == old(self).secret(),
            final(self).identity_public() == old(self).identity_public(),
    {
        let step = match msg.kind {
            MessageKind::Offer => Step::ReceiveOffer,
            MessageKind::Accept => Step::ReceiveAccept,
            MessageKind::Sign => Step::ReceiveSign,
        };
        match msg.kind {
            MessageKind::Offer => {
                if msg.body.len() < OFFER_ID_OFFSET + CONTRACT_ID_LEN {
                    return Err(HandlerError::Wire(WireError::Truncated));
                }
                let id = copy_range(&msg.body, OFFER_ID_OFFSET, OFFER_ID_OFFSET + CONTRACT_ID_LEN);
                if self.registry.contains(&id) {
                    return Ok(None);
                }
                match self.conversations.advance(sender, step) {
                    Err(e) => Err(HandlerError::Protocol(e)),
                    Ok(_) => {
                        let record = OfferedContract {
                            contract_id: id,
                            counterparty: sender.clone(),
                            raw_offer: msg.body.clone(),
                            received_at: now,
                        };
                        let ghost o = record@;
                        let ghost before = self.registry@;
                        self.registry.put(record);
                        proof {
                            let p = choose|p: int|
                                crate::registry::is_insert_pos(before, p, now) && self.registry@
                                    == before.insert(p, o);
                            assert(self.registry@.len() == before.len() + 1);
                        }
                        Ok(Some(msg))
                    },
                }
            },
            _ => match self.conversations.advance(sender, step) {
                Err(e) => Err(HandlerError::Protocol(e)),
                Ok(_) => Ok(Some(msg)),
            },
        }
    }

    /// Records a message sent to `to` in its conversation.
    pub fn note_sent(&mut self, to: &Vec<u8>, kind: MessageKind) -> (r: Result<
        ConvState,
        HandlerError,
    >)
        requires
            old(self).wf(),
        ensures
            final(self).wf(),
            ({
                let step = match kind {
                    MessageKind::Offer => Step::SendOffer,
                    MessageKind::Accept => Step::SendAccept,
                    MessageKind::Sign => Step::SendSign,
                };
                match next_state(old(self).conv_state(to@), step) {
                    Some(n) => r == Ok::<ConvState, HandlerError>(n) && final(self).conv_state(to@)
                        == n,
                    None => r == Err::<ConvState, HandlerError>(
                        HandlerError::Protocol(
                            ProtocolError::StateTransitionInvalid(old(self).conv_state(to@), step),
                        ),
                    ) && final(self).conv_state(to@) == old(self).conv_state(to@),
                }
            }),
            forall|w: Seq<u8>| w != to@ ==> final(self).conv_state(w) == old(self).conv_state(w),
            final(self).offers() == old(self).offers(),
            forall|w: Seq<u8>| final(self).pending(w) == old(self).pending(w),
    {
        let step = match kind {
            MessageKind::Offer => Step::SendOffer,
            MessageKind::Accept => Step::SendAccept,
            MessageKind::Sign => Step::SendSign,
        };
        match self.conversations.advance(to, step) {
            Ok(n) => Ok(n),
            Err(e) => Err(HandlerError::Protocol(e)),
        }
    }

    /// The user accepts the offer with contract id `id`: it leaves the registry and its
    /// conversation moves to `AcceptSent`. The caller has the contract manager build the
    /// accept message from the returned record.
    pub fn accept(&mut self, id: &Vec<u8>) -> (r: Result<OfferedContract, HandlerError>)
        requires
            old(self).wf(),
        ensures
            final(self).wf(),
            !holds_id(old(self).offers(), id@) ==> r == Err::<OfferedContract, HandlerError>(
                HandlerError::UnknownContract,
            ),
            r is Err ==> final(self).offers() == old(self).offers() && forall|w: Seq<u8>|
                #[trigger] final(self).conv_state(w) == old(self).conv_state(w),
            holds_id(old(self).offers(), id@) ==> (r is Ok <==> forall|i: int|
                0 <= i < old(self).offers().len() && old(self).offers()[i].contract_id == id@
                    ==> old(self).conv_state(#[trigger] old(self).offers()[i].counterparty)
                    == ConvState::OfferReceived),
            r matches Ok(o) ==> o@.contract_id == id@ && holds_id(old(self).offers(), id@)
                && !holds_id(final(self).offers(), id@)
                && final(self).offers().len() == old(self).offers().len() - 1
                && final(self).conv_state(o@.counterparty) == ConvState::AcceptSent
                && forall|w: Seq<u8>| w != o@.counterparty ==> #[trigger] final(self).conv_state(w) == old(self).conv_state(w),
            forall|w: Seq<u8>| final(self).pending(w) == old(self).pending(w),
    {
        let o = match self.registry.get(id) {
            None => return Err(HandlerError::UnknownContract),
            Some(o) => o,
        };
        let ghost s = self.registry@;
        proof {
            let i = choose|i: int| 0 <= i < s.len() && s[i] == o@ && o@.contract_id == id@;
            assert forall|j: int| 0 <= j < s.len() && s[j].contract_id == id@ implies s[j] == o@ by {
                if j < i {
                    assert(s[j].contract_id != s[i].contract_id);
                } else if i < j {
                    assert(s[i].contract_id != s[j].contract_id);
                }
            }
        }
        match self.conversations.advance(&o.counterparty, Step::SendAccept) {
            Err(e) => {
                proof {
                    let i = choose|i: int| 0 <= i < s.len() && s[i] == o@ && o@.contract_id == id@;
                    assert(old(self).conv_state(s[i].counterparty) != ConvState::OfferReceived);
                }
                Err(HandlerError::Protocol(e))
            },
            Ok(_) => {
                let _ = self.registry.take(id);
                Ok(o)
            },
        }
    }

    /// Reads an inbound event's content: decryption under this handler's key and the
    /// sender's, then base64, then one wire frame.
    pub fn parse_dlc_msg_event(&self, event: &InboundEvent) -> (r: Result<WireFrame, HandlerError>)
        ensures
            match content_frame(self.secret(), event.sender@, event.content@) {
                Ok(f) => r matches Ok(g) && g@ == f,
                Err(e) => r == Err::<WireFrame, HandlerError>(e),
            },
            !event.content@.contains('?') ==> r == Err::<WireFrame, HandlerError>(
                HandlerError::EnvelopeMalformed,
            ),
    {
        if !nip04_shape(&event.content) {
            return Err(HandlerError::EnvelopeMalformed);
        }
        proof {
            lemma_shape_has_question_mark(event.content@);
        }
        let plain = match nip04_decrypt(self.keys.secret_ref(), &event.sender, &event.content) {
            Some(p) => p,
            None => return Err(HandlerError::DecryptionFailed),
        };
        decode_payload(&plain)
    }

    /// Handles one inbound event: events of another kind are ignored; otherwise the
    /// content is read, the frame goes through the sender's reassembly buffer, and a
    /// complete message goes to its conversation. What comes back is the message for the
    /// contract manager, if any.
    pub fn handle_dlc_msg_event(&mut self, event: &InboundEvent, now: u64) -> (r: Result<
        Option<DlcMessage>,
        HandlerError,
    >)
        requires
            old(self).wf(),
        ensures
            final(self).wf(),
            final(self).secret() == old(self).secret(),
            event.kind != DLC_MESSAGE_KIND ==> (r matches Ok(None) && final(self).model() == old(self).model()),
            event.kind == DLC_MESSAGE_KIND ==> match content_frame(
                old(self).secret(),
                event.sender@,
                event.content@,
            ) {
                Err(e) => r == Err::<Option<DlcMessage>, HandlerError>(e) && final(self).model()
                    == old(self).model(),
                Ok(f) => frame_post(*old(self), *final(self), event.sender@, f, now, r),
            },
            event.kind == DLC_MESSAGE_KIND && !event.content@.contains('?') ==> (r
                == Err::<Option<DlcMessage>, HandlerError>(HandlerError::EnvelopeMalformed)
                && final(self).model() == old(self).model()),
    {
        if event.kind != DLC_MESSAGE_KIND {
            return Ok(None);
        }
        proof {
            if is_nip04_shape(event.content@) {
                lemma_shape_has_question_mark(event.content@);
            }
        }
        let frame = match self.parse_dlc_msg_event(event) {
            Ok(f) => f,
            Err(e) => return Err(e),
        };
        let ghost h0 = *self;
        match self.receive_frame(&event.sender, frame) {
            Err(e) => Err(e),
            Ok(None) => Ok(None),
            Ok(Some(m)) => {
                let ghost h1 = *self;
                let r = self.dispatch(&event.sender, m, now);
                proof {
                    assert(h1.offers() == h0.offers());
                    assert(forall|w: Seq<u8>| #[trigger] h1.conv_state(w) == h0.conv_state(w));
                }
                r
            },
        }
    }

    /// Seals `bytes` for `to` in an envelope threaded to `event_id`.
    fn seal(&self, to: &Vec<u8>, event_id: &Option<Vec<u8>>, bytes: &Vec<u8>) -> (r: Result<
        OutboundEnvelope,
        HandlerError,
    >)
        requires
            self.wf(),
        ensures
            (exists|s: Seq<u8>| owns_key(s, to@)) ==> r is Ok,
            to@.len() != 32 ==> r is Err,
            r is Err ==> r == Err::<OutboundEnvelope, HandlerError>(HandlerError::EncryptionFailed),
            r matches Ok(env) ==> envelope_carries(
                env,
                self.identity_public(),
                to@,
                opt_view(*event_id),
                bytes@,
            ),
    {
        let plain = base64_encode(bytes);
        let content = match nip04_encrypt(self.keys.secret_ref(), to, &plain) {
            Some(c) => c,
            None => return Err(HandlerError::EncryptionFailed),
        };
        let tags = build_tags(to, event_id);
        assert(opt_view(*event_id) == match event_id {
            Some(e) => Some(e@),
            None => None::<Seq<u8>>,
        });
        Ok(OutboundEnvelope { recipient: to.clone(), kind: DLC_MESSAGE_KIND, content, tags })
    }

    /// Builds the envelope that carries `msg` to `to`, threaded to `event_id` when it
    /// answers an inbound event. It succeeds whenever `to` is the key of some secret, and
    /// the holder of that secret reads `msg` back from it.
    pub fn create_dlc_msg_event(
        &self,
        to: &Vec<u8>,
        event_id: Option<Vec<u8>>,
        msg: &DlcMessage,
    ) -> (r: Result<OutboundEnvelope, HandlerError>)
        requires
            self.wf(),
        ensures
            (exists|s: Seq<u8>| owns_key(s, to@)) ==> r is Ok,
            to@.len() != 32 ==> r is Err,
            r is Err ==> r == Err::<OutboundEnvelope, HandlerError>(HandlerError::EncryptionFailed),
            r matches Ok(env) ==> envelope_carries(
                env,
                self.identity_public(),
                to@,
                opt_view(event_id),
                frame_bytes(FrameModel::Message(msg.kind, msg.body@)),
            ),
    {
        let bytes = encode_message(msg);
        assert(bytes@ == frame_bytes(FrameModel::Message(msg.kind, msg.body@)));
        self.seal(to, &event_id, &bytes)
    }

    /// Builds the envelopes that carry `msg` to `to` under a frame ceiling: one envelope
    /// when its encoding fits, else one per segment frame, in order. Each is threaded to
    /// `event_id`.
    pub fn create_dlc_msg_events(
        &self,
        to: &Vec<u8>,
        event_id: Option<Vec<u8>>,
        msg: &DlcMessage,
        ceiling: usize,
    ) -> (r: Result<Vec<OutboundEnvelope>, HandlerError>)
        requires
            self.wf(),
            ceiling > SEGMENT_START_HEADER,
        ensures
            ({
                let bytes = frame_bytes(FrameModel::Message(msg.kind, msg.body@));
                let n = (ceiling - SEGMENT_START_HEADER) as nat;
                &&& too_large_to_send(bytes.len(), ceiling as nat) ==> r
                    == Err::<Vec<OutboundEnvelope>, HandlerError>(
                    HandlerError::Wire(WireError::SegmentTooLarge),
                )
                &&& !too_large_to_send(bytes.len(), ceiling as nat) && (exists|s: Seq<u8>|
                    owns_key(s, to@)) ==> r is Ok
                &&& r is Err ==> r == Err::<Vec<OutboundEnvelope>, HandlerError>(
                    HandlerError::EncryptionFailed,
                ) || r == Err::<Vec<OutboundEnvelope>, HandlerError>(
                    HandlerError::Wire(WireError::SegmentTooLarge),
                )
                &&& (r matches Ok(envs) ==> (bytes.len() <= ceiling ==> envs@.len() == 1
                    && envelope_carries(envs@[0], self.identity_public(), to@, opt_view(event_id), bytes)))
                &&& (r matches Ok(envs) ==> (bytes.len() > ceiling ==> envs@.len() == segment_frames(
                    bytes,
                    n,
                ).len() && forall|i: int|
                    0 <= i < envs@.len() ==> envelope_carries(
                        #[trigger] envs@[i],
                        self.identity_public(),
                        to@,
                        opt_view(event_id),
                        frame_bytes(segment_frames(bytes, n)[i]),
                    )))
            }),
    {
        let bytes = encode_message(msg);
        let ghost gb = frame_bytes(FrameModel::Message(msg.kind, msg.body@));
        assert(bytes@ == gb);
        let mut out: Vec<OutboundEnvelope> = Vec::new();
        if bytes.len() <= ceiling {
            let env = match self.seal(to, &event_id, &bytes) {
                Ok(e) => e,
                Err(e) => return Err(e),
            };
            out.push(env);
            assert(!too_large_to_send(gb.len(), ceiling as nat));
            return Ok(out);
        }
        let n = ceiling - SEGMENT_START_HEADER;
        assert(n as nat == (ceiling - SEGMENT_START_HEADER) as nat);
        if bytes.len() as u64 > MAX_REASSEMBLY_LEN as u64 || bytes.len() / n >= 65535 {
            assert(too_large_to_send(gb.len(), ceiling as nat));
            return Err(HandlerError::Wire(WireError::SegmentTooLarge));
        }
        assert(!too_large_to_send(gb.len(), ceiling as nat));
        assert(bytes@.len() <= n * 65536) by (nonlinear_arith)
            requires
                bytes@.len() as int / (n as int) < 65535,
                n > 0,
        ;
        let frames = segment_message(&bytes, ceiling);
        let ghost fs = segment_frames(bytes@, n as nat);
        assert(frames@.len() == fs.len()) by {
            assert(frames@.map_values(|f: WireFrame| f@).len() == frames@.len());
        }
        let mut i: usize = 0;
        while i < frames.len()
            invariant
                self.wf(),
                fs == segment_frames(gb, n as nat),
                frames@.map_values(|f: WireFrame| f@) == fs,
                frames@.len() == fs.len(),
                i <= frames@.len(),
                out@.len() == i,
                forall|j: int|
                    0 <= j < i ==> envelope_carries(
                        #[trigger] out@[j],
                        self.identity_public(),
                        to@,
                        opt_view(event_id),
                        frame_bytes(fs[j]),
                    ),
                gb == frame_bytes(FrameModel::Message(msg.kind, msg.body@)),
                !too_large_to_send(gb.len(), ceiling as nat),
                gb.len() > ceiling,
                n == ceiling - SEGMENT_START_HEADER,
            decreases frames@.len() - i,
        {
            let fb = encode_frame(&frames[i]);
            assert(frames@[i as int]@ == fs[i as int]);
            let env = match self.seal(to, &event_id, &fb) {
                Ok(e) => e,
                Err(e) => return Err(e),
            };
            out.push(env);
            i = i + 1;
        }
        Ok(out)
    }
}

/// Idempotent offer: once an offer has been taken in, delivering it again from the same
/// sender is not handed on to the contract manager and adds no record.
pub proof fn lemma_offer_redelivery(
    h0: NostrDlcHandler,
    h1: NostrDlcHandler,
    h2: NostrDlcHandler,
    sender: Seq<u8>,
    body: Seq<u8>,
    t1: u64,
    t2: u64,
    r1: Result<Option<DlcMessage>, HandlerError>,
    r2: Result<Option<DlcMessage>, HandlerError>,
)
    requires
        dispatch_post(h0, h1, sender, MessageKind::Offer, body, t1, r1),
        dispatch_post(h1, h2, sender, MessageKind::Offer, body, t2, r2),
        r1 is Ok,
    ensures
        r2 matches Ok(None),
        h2.offers() == h1.offers(),
{
    let id = offer_id(body);
    if !holds_id(h0.offers(), id) {
        let o = OfferModel { contract_id: id, counterparty: sender, raw_offer: body, received_at: t1 };
        let p = choose|p: int|
            crate::registry::is_insert_pos(h0.offers(), p, t1) && h1.offers() == h0.offers().insert(
                p,
                o,
            );
        assert(h1.offers()[p] == o);
    }
    assert(holds_id(h1.offers(), id));
}

/// Ordering: two messages from the same counterparty that are both handed on reach its
/// conversation in the order they were delivered: its state is the one that the two steps,
/// in that order, lead to.
pub proof fn lemma_in_order_delivery(
    h0: NostrDlcHandler,
    h1: NostrDlcHandler,
    h2: NostrDlcHandler,
    sender: Seq<u8>,
    k1: MessageKind,
    body1: Seq<u8>,
    k2: MessageKind,
    body2: Seq<u8>,
    t1: u64,
    t2: u64,
    r1: Result<Option<DlcMessage>, HandlerError>,
    r2: Result<Option<DlcMessage>, HandlerError>,
)
    requires
        dispatch_post(h0, h1, sender, k1, body1, t1, r1),
        dispatch_post(h1, h2, sender, k2, body2, t2, r2),
        r1 matches Ok(Some(_)),
        r2 matches Ok(Some(_)),
    ensures
        crate::protocol::run_steps(h0.conv_state(sender), seq![step_of(k1), step_of(k2)]) == Some(
            h2.conv_state(sender),
        ),
{
    reveal_with_fuel(crate::protocol::run_steps, 3);
    let es = seq![step_of(k1), step_of(k2)];
    assert(es.drop_first() =~= seq![step_of(k2)]);
    assert(es.drop_first().drop_first() =~= Seq::<Step>::empty());
}

/// Round trip: content that a sender sealed for `b`'s key, carrying the wire bytes of a
/// message, reads at `b` as that very message.
pub proof fn lemma_envelope_round_trip(
    sender_pub: Seq<u8>,
    b: NostrDlcHandler,
    k: MessageKind,
    body: Seq<u8>,
    content: Seq<char>,
)
    requires
        b.wf(),
        sealed_for(
            sender_pub,
            b.identity_public(),
            frame_bytes(FrameModel::Message(k, body)),
            content,
        ),
    ensures
        content_frame(b.secret(), sender_pub, content) == Ok::<FrameModel, HandlerError>(
            FrameModel::Message(k, body),
        ),
{
    assert(owns_key(b.secret(), b.identity_public()));
    lemma_frame_round_trip(FrameModel::Message(k, body));
}

} // verus!
