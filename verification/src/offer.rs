//! Offers, completed trades and gifts, with their mathematical values.
use vstd::prelude::*;

use crate::item::{Tradeable, TradeableView};

verus! {

/// Status of a trade offer.
#[derive(Debug, Clone, Copy, PartialEq, Eq, Structural)]
pub enum TradeStatus {
    Pending,
    Accepted,
    Rejected,
    Expired,
}

/// An offer to trade items between two players.
#[derive(Debug, Clone, PartialEq)]
pub struct TradeOffer {
    pub id: String,
    pub from: String,
    pub to: String,
    pub give: Vec<Tradeable>,
    pub want: Vec<Tradeable>,
    pub status: TradeStatus,
}

/// A completed trade recorded in history.
#[derive(Debug, Clone, PartialEq)]
pub struct CompletedTrade {
    pub offer: TradeOffer,
    pub completed_tick: u64,
}

/// A one-way gift transfer (no negotiation needed).
#[derive(Debug, Clone, PartialEq)]
pub struct Gift {
    pub from: String,
    pub to: String,
    pub item: Tradeable,
    pub message: String,
}

/// The items of a list, by their values.
pub open spec fn items_view(items: Seq<Tradeable>) -> Seq<TradeableView> {
    items.map_values(|t: Tradeable| t@)
}

/// The value of a [`TradeOffer`].
pub struct OfferView {
    pub id: Seq<char>,
    pub from: Seq<char>,
    pub to: Seq<char>,
    pub give: Seq<TradeableView>,
    pub want: Seq<TradeableView>,
    pub status: TradeStatus,
}

/// The value of a [`CompletedTrade`].
pub struct CompletedView {
    pub offer: OfferView,
    pub completed_tick: u64,
}

/// The value of a [`Gift`].
pub struct GiftView {
    pub from: Seq<char>,
    pub to: Seq<char>,
    pub item: TradeableView,
    pub message: Seq<char>,
}

impl View for TradeOffer {
    type V = OfferView;

    open spec fn view(&self) -> OfferView {
        OfferView {
            id: self.id@,
            from: self.from@,
            to: self.to@,
            give: items_view(self.give@),
            want: items_view(self.want@),
            status: self.status,
        }
    }
}

impl View for CompletedTrade {
    type V = CompletedView;

    open spec fn view(&self) -> CompletedView {
        CompletedView { offer: self.offer@, completed_tick: self.completed_tick }
    }
}

impl View for Gift {
    type V = GiftView;

    open spec fn view(&self) -> GiftView {
        GiftView { from: self.from@, to: self.to@, item: self.item@, message: self.message@ }
    }
}

/// An offer is fair when both sides hold the same number of items.
pub open spec fn offer_is_fair(o: OfferView) -> bool {
    o.give.len() == o.want.len()
}

impl Tradeable {
    /// A copy of this item.
    pub(crate) fn copied(&self) -> (r: Tradeable)
        ensures
            r@ == self@,
    {
        match self {
            Tradeable::Material(n, q) => Tradeable::Material(n.clone(), *q),
            Tradeable::Agent(n, l) => Tradeable::Agent(n.clone(), *l),
            Tradeable::Knowledge(n, l) => Tradeable::Knowledge(n.clone(), *l),
            Tradeable::Recipe(n) => Tradeable::Recipe(n.clone()),
            Tradeable::Pet(n, l) => Tradeable::Pet(n.clone(), *l),
        }
    }
}

/// A copy of a list of items.
pub(crate) fn copy_items(items: &Vec<Tradeable>) -> (r: Vec<Tradeable>)
    ensures
        items_view(r@) == items_view(items@),
{
    let mut out: Vec<Tradeable> = Vec::new();
    let mut i: usize = 0;
    while i < items.len()
        invariant
            i <= items.len(),
            out.len() == i,
            forall|j: int| 0 <= j < i ==> (#[trigger] out@[j])@ == items@[j]@,
        decreases items.len() - i,
    {
        out.push(items[i].copied());
        i = i + 1;
    }
    assert(items_view(out@) =~= items_view(items@));
    out
}

impl TradeOffer {
    /// Simple fairness check: both sides have the same number of items.
    pub fn is_fair(&self) -> (r: bool)
        ensures
            r == offer_is_fair(self@),
    {
        self.give.len() == self.want.len()
    }

    /// A copy of this offer.
    pub(crate) fn copied(&self) -> (r: TradeOffer)
        ensures
            r@ == self@,
    {
        TradeOffer {
            id: self.id.clone(),
            from: self.from.clone(),
            to: self.to.clone(),
            give: copy_items(&self.give),
            want: copy_items(&self.want),
            status: self.status,
        }
    }
}

impl CompletedTrade {
    /// A copy of this completed trade.
    pub(crate) fn copied(&self) -> (r: CompletedTrade)
        ensures
            r@ == self@,
    {
        CompletedTrade { offer: self.offer.copied(), completed_tick: self.completed_tick }
    }
}

} // verus!
