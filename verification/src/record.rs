//! The stored forms of subscriptions and credits, keyed by object id.
use vstd::prelude::*;
use vstd::utf8::encode_utf8;

use crate::credit::{Credit, TransferHistoryEntry};
use crate::error::Error;
use crate::object_id::{
    decode_object_id_text, is_lower_object_id_text, is_object_id_text, new_object_id, object_id_hex_text,
    object_id_text, parse_object_id_text,
};
use crate::subscription::{Subscription, SubscriptionType};

verus! {

/// A stored subscription: the subscription with its id as object id bytes.
pub struct SubscriptionRecord<A> {
    pub id: [u8; 12],
    pub receiver: String,
    pub value: A,
    pub subscription_type: SubscriptionType,
    pub priority: u32,
    pub credit_type: String,
}

/// `record` stores `subscription`: the bytes its hexadecimal id stands
/// for, and its other fields.
pub open spec fn stores_subscription<A>(record: SubscriptionRecord<A>, subscription: Subscription<A>) -> bool {
    &&& record.id@ == decode_object_id_text(encode_utf8(subscription.id@))
    &&& record.receiver@ == subscription.receiver@
    &&& record.value == subscription.value
    &&& record.subscription_type == subscription.subscription_type
    &&& record.priority == subscription.priority
    &&& record.credit_type@ == subscription.credit_type@
}

/// `subscription` is what `record` gives back: its id in lower-case
/// hexadecimal, and its other fields.
pub open spec fn reads_subscription<A>(record: SubscriptionRecord<A>, subscription: Subscription<A>) -> bool {
    &&& subscription.id@ == object_id_hex_text(record.id@)
    &&& subscription.receiver == record.receiver
    &&& subscription.value == record.value
    &&& subscription.subscription_type == record.subscription_type
    &&& subscription.priority == record.priority
    &&& subscription.credit_type == record.credit_type
}

impl<A: Copy> SubscriptionRecord<A> {
    /// The stored form of `subscription`; its id must be an object id in
    /// hexadecimal, else `Error::DbObjectIdError`.
    pub fn from_domain(subscription: &Subscription<A>) -> (record: Result<Self, Error>)
        ensures
            record is Ok <==> is_object_id_text(encode_utf8(subscription.id@)),
            record matches Err(e) ==> e is DbObjectIdError,
            record matches Ok(r) ==> stores_subscription(r, *subscription),
    {
        let id = parse_object_id_text(subscription.id.as_str())?;
        Ok(SubscriptionRecord {
            id,
            receiver: subscription.receiver.clone(),
            value: subscription.value,
            subscription_type: subscription.subscription_type,
            priority: subscription.priority,
            credit_type: subscription.credit_type.clone(),
        })
    }

    /// The subscription this record stores; its id is the object id in
    /// lower-case hexadecimal.
    pub fn into_domain(self) -> (subscription: Subscription<A>)
        ensures
            reads_subscription(self, subscription),
    {
        Subscription {
            id: object_id_text(self.id),
            receiver: self.receiver,
            value: self.value,
            subscription_type: self.subscription_type,
            priority: self.priority,
            credit_type: self.credit_type,
        }
    }
}

/// A stored credit: its object id and its subscriptions by id.
pub struct CreditRecord<A> {
    pub id: [u8; 12],
    pub total: A,
    pub last_day_average: A,
    pub subscription_ids: Vec<String>,
    pub history: Vec<A>,
    pub transfer_history: Vec<TransferHistoryEntry<A>>,
}

/// `record` stores `credit`: its balance, average and histories, and the
/// ids of its subscriptions in order.
pub open spec fn stores_credit<A>(record: CreditRecord<A>, credit: Credit<A>) -> bool {
    &&& record.total == credit.total
    &&& record.last_day_average == credit.last_day_average
    &&& record.subscription_ids@.len() == credit.subscriptions@.len()
    &&& forall|i: int|
        0 <= i < record.subscription_ids@.len() ==> (#[trigger] record.subscription_ids@[i])@
            == credit.subscriptions@[i].id@
    &&& record.history@ == credit.history@
    &&& record.transfer_history@ == credit.transfer_history@
}

/// `credit` is what `record` gives back when its subscriptions are
/// `subscriptions`.
pub open spec fn reads_credit<A>(record: CreditRecord<A>, subscriptions: Seq<Subscription<A>>, credit: Credit<A>) -> bool {
    &&& credit.total == record.total
    &&& credit.last_day_average == record.last_day_average
    &&& credit.subscriptions@ == subscriptions
    &&& credit.history == record.history
    &&& credit.transfer_history == record.transfer_history
}

impl<A: Copy> CreditRecord<A> {
    /// The stored form of `credit` under the object id `id`.
    pub fn from_domain(id: [u8; 12], credit: &Credit<A>) -> (record: Self)
        ensures
            record.id == id,
            stores_credit(record, *credit),
    {
        let copy = credit.clone();
        CreditRecord {
            id,
            total: credit.total,
            last_day_average: credit.last_day_average,
            subscription_ids: credit.subscription_ids(),
            history: copy.history,
            transfer_history: copy.transfer_history,
        }
    }

    /// The stored form of a credit about to be stored for the first time,
    /// under a new object id.
    pub fn from_new_credit(credit: &Credit<A>) -> (record: Self)
        ensures
            is_lower_object_id_text(object_id_hex_text(record.id@)),
            stores_credit(record, *credit),
    {
        CreditRecord::from_domain(new_object_id(), credit)
    }

    /// The id of the stored credit in lower-case hexadecimal.
    pub fn id_text(&self) -> (text: String)
        ensures
            text@ == object_id_hex_text(self.id@),
    {
        object_id_text(self.id)
    }

    /// The credit this record stores, given its subscriptions as looked up
    /// by `subscription_ids`.
    pub fn into_domain(self, subscriptions: Vec<Subscription<A>>) -> (credit: Credit<A>)
        ensures
            reads_credit(self, subscriptions@, credit),
    {
        Credit::with_transfer_history(
            self.total,
            self.last_day_average,
            subscriptions,
            self.history,
            self.transfer_history,
        )
    }
}

} // verus!
