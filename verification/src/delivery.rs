//! Deliveries: which message goes to which session.

use crate::message::{Message, MessageView};
use vstd::prelude::*;

verus! {

/// The identity of one session, handed out when its participant joins.
pub type SessionId = usize;

/// One message on its way to one participant.
#[derive(Debug, PartialEq, Eq)]
pub struct Delivery {
    pub to: SessionId,
    pub message: Message,
}

/// What a [`Delivery`] says.
pub struct DeliveryView {
    pub to: SessionId,
    pub message: MessageView,
}

impl View for Delivery {
    type V = DeliveryView;

    open spec fn view(&self) -> DeliveryView {
        DeliveryView { to: self.to, message: self.message@ }
    }
}

impl DeepView for Delivery {
    type V = DeliveryView;

    open spec fn deep_view(&self) -> DeliveryView {
        self@
    }
}

/// The messages of `outbox` that are addressed to `recipient`, in the order
/// in which they were sent.
pub open spec fn inbox(outbox: Seq<DeliveryView>, recipient: SessionId) -> Seq<MessageView> {
    outbox.filter(|d: DeliveryView| d.to == recipient).map_values(|d: DeliveryView| d.message)
}

/// Sending one more delivery adds its message to the inbox of the session it
/// is addressed to and leaves every other inbox as it was.
pub proof fn lemma_inbox_push(
    outbox: Seq<DeliveryView>,
    delivery: DeliveryView,
    recipient: SessionId,
)
    ensures
        inbox(outbox.push(delivery), recipient) == if delivery.to == recipient {
            inbox(outbox, recipient).push(delivery.message)
        } else {
            inbox(outbox, recipient)
        },
{
    let addressed = |d: DeliveryView| d.to == recipient;
    let content = |d: DeliveryView| d.message;
    outbox.lemma_filter_push(delivery, addressed);
    if delivery.to == recipient {
        assert(outbox.filter(addressed).push(delivery).map_values(content) =~= outbox.filter(
            addressed,
        ).map_values(content).push(delivery.message));
    }
}

/// The inbox of a session is that of a first run of deliveries followed by
/// that of a second.
pub proof fn lemma_inbox_concat(
    first: Seq<DeliveryView>,
    second: Seq<DeliveryView>,
    recipient: SessionId,
)
    ensures
        inbox(first + second, recipient) == inbox(first, recipient) + inbox(second, recipient),
{
    let addressed = |d: DeliveryView| d.to == recipient;
    let content = |d: DeliveryView| d.message;
    Seq::filter_distributes_over_add(first, second, addressed);
    assert((first.filter(addressed) + second.filter(addressed)).map_values(content)
        =~= first.filter(addressed).map_values(content) + second.filter(addressed).map_values(
        content,
    ));
}

/// Whoever a delivery is addressed to finds its message in their inbox.
pub proof fn lemma_addressed(outbox: Seq<DeliveryView>, i: int)
    requires
        0 <= i < outbox.len(),
    ensures
        inbox(outbox, outbox[i].to).contains(outbox[i].message),
{
    let addressed = |d: DeliveryView| d.to == outbox[i].to;
    let content = |d: DeliveryView| d.message;
    outbox.lemma_filter_contains(addressed, i);
    let kept = outbox.filter(addressed);
    let j = choose|j: int| 0 <= j < kept.len() && kept[j] == outbox[i];
    assert(kept.map_values(content)[j] == outbox[i].message);
}

} // verus!
