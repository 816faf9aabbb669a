//! The marketplace: offers with a lifecycle, gifts, and queries over pending offers.
use vstd::prelude::*;

use crate::item::{same_item, Tradeable, TradeableView};
use crate::offer::{
    items_view, CompletedTrade, CompletedView, Gift, GiftView, OfferView, TradeOffer, TradeStatus,
};
use crate::stats::history_view;
use crate::text::{
    gift_id, gift_id_text, not_found_message, not_found_text, not_pending_message,
    not_pending_text, offer_id, offer_id_text,
};

verus! {

/// The central marketplace for creating, finding, and settling trades.
#[derive(Debug, Clone, PartialEq)]
pub struct TradeMarket {
    pub offers: Vec<TradeOffer>,
    pub history: Vec<CompletedTrade>,
}

/// The value of a [`TradeMarket`]: its offers and its history.
pub struct MarketView {
    pub offers: Seq<OfferView>,
    pub history: Seq<CompletedView>,
}

/// The values of a list of offers.
pub open spec fn offers_view(s: Seq<TradeOffer>) -> Seq<OfferView> {
    s.map_values(|o: TradeOffer| o@)
}

impl View for TradeMarket {
    type V = MarketView;

    open spec fn view(&self) -> MarketView {
        MarketView { offers: offers_view(self.offers@), history: history_view(self.history@) }
    }
}

/// The market with no offers and no history.
pub open spec fn empty_market() -> MarketView {
    MarketView { offers: Seq::empty(), history: Seq::empty() }
}

/// The number that the next identifier carries: one more than the records held.
pub open spec fn next_number(m: MarketView) -> nat {
    m.offers.len() + m.history.len() + 1
}

/// The position of the first offer with identifier `id`, or -1 when there is none.
pub open spec fn offer_position(s: Seq<OfferView>, id: Seq<char>) -> int
    decreases s.len(),
{
    if s.len() == 0 {
        -1
    } else {
        let p = offer_position(s.drop_last(), id);
        if p >= 0 {
            p
        } else if s.last().id == id {
            s.len() - 1
        } else {
            -1
        }
    }
}

/// The market after `create_offer`, and the identifier it returns.
pub open spec fn created(
    m: MarketView,
    from: Seq<char>,
    to: Seq<char>,
    give: Seq<TradeableView>,
    want: Seq<TradeableView>,
) -> (MarketView, Seq<char>) {
    let id = offer_id(next_number(m));
    let o = OfferView { id, from, to, give, want, status: TradeStatus::Pending };
    (MarketView { offers: m.offers.push(o), history: m.history }, id)
}

/// An offer with another status.
pub open spec fn with_status(o: OfferView, s: TradeStatus) -> OfferView {
    OfferView { id: o.id, from: o.from, to: o.to, give: o.give, want: o.want, status: s }
}

/// The market after `accept`, and what it returns.
///
/// The first offer with the identifier, if it is pending, leaves the offers
/// and goes to history, accepted, at the tick that counts the records held
/// then, plus one. An offer that is no longer pending stays where it is, and
/// the market is unchanged.
pub open spec fn accepted(m: MarketView, id: Seq<char>) -> (MarketView, Result<
    CompletedView,
    Seq<char>,
>) {
    let p = offer_position(m.offers, id);
    if p < 0 {
        (m, Err(not_found_message(id)))
    } else {
        let o = m.offers[p];
        let rest = m.offers.remove(p);
        if o.status != TradeStatus::Pending {
            (m, Err(not_pending_message(id, o.status)))
        } else {
            let c = CompletedView {
                offer: with_status(o, TradeStatus::Accepted),
                completed_tick: (m.history.len() + rest.len() + 1) as u64,
            };
            (MarketView { offers: rest, history: m.history.push(c) }, Ok(c))
        }
    }
}

/// The market after `reject`, and what it returns.
pub open spec fn rejected(m: MarketView, id: Seq<char>) -> (MarketView, Result<(), Seq<char>>) {
    let p = offer_position(m.offers, id);
    if p < 0 {
        (m, Err(not_found_message(id)))
    } else if m.offers[p].status != TradeStatus::Pending {
        (m, Err(not_pending_message(id, m.offers[p].status)))
    } else {
        (
            MarketView {
                offers: m.offers.update(p, with_status(m.offers[p], TradeStatus::Rejected)),
                history: m.history,
            },
            Ok(()),
        )
    }
}

/// The trade that records a gift, numbered `n`.
pub open spec fn gift_record(g: GiftView, n: nat) -> CompletedView {
    CompletedView {
        offer: OfferView {
            id: gift_id(n),
            from: g.from,
            to: g.to,
            give: seq![g.item],
            want: Seq::empty(),
            status: TradeStatus::Accepted,
        },
        completed_tick: n as u64,
    }
}

/// The market after `send_gift`: the gift lands in history, numbered like an offer.
pub open spec fn gift_sent(m: MarketView, g: GiftView) -> MarketView {
    MarketView { offers: m.offers, history: m.history.push(gift_record(g, next_number(m))) }
}

/// The pending offers addressed to `player`, in market order.
pub open spec fn pending_for(s: Seq<OfferView>, player: Seq<char>) -> Seq<OfferView>
    decreases s.len(),
{
    if s.len() == 0 {
        Seq::empty()
    } else {
        let rest = pending_for(s.drop_last(), player);
        if s.last().to == player && s.last().status == TradeStatus::Pending {
            rest.push(s.last())
        } else {
            rest
        }
    }
}

/// The offer asks for an item equal to `t`.
pub open spec fn offer_wants(o: OfferView, t: TradeableView) -> bool {
    exists|k: int| 0 <= k < o.want.len() && same_item(#[trigger] o.want[k], t)
}

/// The pending offers that ask for an item equal to `t`, in market order.
pub open spec fn pending_wanting(s: Seq<OfferView>, t: TradeableView) -> Seq<OfferView>
    decreases s.len(),
{
    if s.len() == 0 {
        Seq::empty()
    } else {
        let rest = pending_wanting(s.drop_last(), t);
        if s.last().status == TradeStatus::Pending && offer_wants(s.last(), t) {
            rest.push(s.last())
        } else {
            rest
        }
    }
}

/// The values of a result of `accept`.
pub open spec fn accept_result_view(r: Result<CompletedTrade, String>) -> Result<
    CompletedView,
    Seq<char>,
> {
    match r {
        Ok(c) => Ok(c@),
        Err(e) => Err(e@),
    }
}

/// The values of a result of `reject`.
pub open spec fn reject_result_view(r: Result<(), String>) -> Result<(), Seq<char>> {
    match r {
        Ok(u) => Ok(u),
        Err(e) => Err(e@),
    }
}

/// The values of a list of references to offers.
pub open spec fn offer_refs_view(r: Seq<&TradeOffer>) -> Seq<OfferView> {
    r.map_values(|o: &TradeOffer| o@)
}

/// `offer_position` finds the first offer with the identifier, or reports -1 when there is none.
pub proof fn lemma_offer_position(s: Seq<OfferView>, id: Seq<char>)
    ensures
        -1 <= offer_position(s, id) < s.len(),
        offer_position(s, id) >= 0 ==> s[offer_position(s, id)].id == id,
        forall|j: int| 0 <= j < offer_position(s, id) ==> (#[trigger] s[j]).id != id,
        offer_position(s, id) == -1 ==> forall|j: int| 0 <= j < s.len() ==> (#[trigger] s[j]).id
            != id,
    decreases s.len(),
{
    if s.len() > 0 {
        let d = s.drop_last();
        lemma_offer_position(d, id);
        assert forall|j: int| 0 <= j < d.len() implies #[trigger] s[j] == d[j] by {}
    }
}

proof fn lemma_pending_for_step(s: Seq<OfferView>, player: Seq<char>, i: int)
    requires
        0 <= i < s.len(),
    ensures
        pending_for(s.take(i + 1), player) == if s[i].to == player && s[i].status
            == TradeStatus::Pending {
            pending_for(s.take(i), player).push(s[i])
        } else {
            pending_for(s.take(i), player)
        },
{
    assert(s.take(i + 1).drop_last() =~= s.take(i));
}

proof fn lemma_pending_wanting_step(s: Seq<OfferView>, t: TradeableView, i: int)
    requires
        0 <= i < s.len(),
    ensures
        pending_wanting(s.take(i + 1), t) == if s[i].status == TradeStatus::Pending
            && offer_wants(s[i], t) {
            pending_wanting(s.take(i), t).push(s[i])
        } else {
            pending_wanting(s.take(i), t)
        },
{
    assert(s.take(i + 1).drop_last() =~= s.take(i));
}

/// Whether the offer asks for an item equal to `t`.
fn wants_item(o: &TradeOffer, t: &Tradeable) -> (r: bool)
    ensures
        r == offer_wants(o@, t@),
{
    let mut k: usize = 0;
    while k < o.want.len()
        invariant
            k <= o.want.len(),
            forall|j: int| 0 <= j < k ==> !same_item(#[trigger] items_view(o.want@)[j], t@),
        decreases o.want.len() - k,
    {
        if o.want[k] == *t {
            assert(same_item(o@.want[k as int], t@));
            assert(offer_wants(o@, t@));
            return true;
        }
        k = k + 1;
    }
    false
}

impl TradeMarket {
    /// An empty marketplace.
    pub fn new() -> (r: Self)
        ensures
            r@ == empty_market(),
    {
        let r = TradeMarket { offers: Vec::new(), history: Vec::new() };
        assert(r@.offers =~= Seq::<OfferView>::empty());
        assert(r@.history =~= Seq::<CompletedView>::empty());
        r
    }

    /// The position of the first offer with identifier `offer_id`.
    fn position_of(&self, offer_id: &str) -> (r: Option<usize>)
        ensures
            match r {
                None => offer_position(self@.offers, offer_id@) == -1,
                Some(p) => p == offer_position(self@.offers, offer_id@) && p < self@.offers.len(),
            },
    {
        let key = offer_id.to_owned();
        let ghost s = self@.offers;
        proof {
            lemma_offer_position(s, offer_id@);
        }
        let mut i: usize = 0;
        while i < self.offers.len()
            invariant
                i <= self.offers.len(),
                s == self@.offers,
                key@ == offer_id@,
                -1 <= offer_position(s, offer_id@) < s.len(),
                offer_position(s, offer_id@) >= 0 ==> s[offer_position(s, offer_id@)].id
                    == offer_id@,
                forall|j: int| 0 <= j < offer_position(s, offer_id@) ==> (#[trigger] s[j]).id
                    != offer_id@,
                offer_position(s, offer_id@) == -1 ==> forall|j: int|
                    0 <= j < s.len() ==> (#[trigger] s[j]).id != offer_id@,
                forall|j: int| 0 <= j < i ==> (#[trigger] s[j]).id != offer_id@,
            decreases self.offers.len() - i,
        {
            if self.offers[i].id == key {
                assert(s[i as int].id == offer_id@);
                return Some(i);
            }
            i = i + 1;
        }
        None
    }

    /// Create a new trade offer and return its id.
    pub fn create_offer(
        &mut self,
        from: &str,
        to: &str,
        give: Vec<Tradeable>,
        want: Vec<Tradeable>,
    ) -> (r: String)
        requires
            old(self).offers.len() + old(self).history.len() < usize::MAX,
        ensures
            (final(self)@, r@) == created(
                old(self)@,
                from@,
                to@,
                items_view(give@),
                items_view(want@),
            ),
    {
        let id = offer_id_text(self.offers.len() + self.history.len() + 1);
        let offer = TradeOffer {
            id: id.clone(),
            from: from.to_owned(),
            to: to.to_owned(),
            give,
            want,
            status: TradeStatus::Pending,
        };
        let ghost before = self@;
        self.offers.push(offer);
        assert(self@.offers =~= created(before, from@, to@, items_view(give@), items_view(want@)).0.offers);
        id
    }

    /// Accept a pending offer, moving it to history and returning the completed trade.
    pub fn accept(&mut self, offer_id: &str) -> (r: Result<CompletedTrade, String>)
        requires
            old(self).offers.len() + old(self).history.len() <= usize::MAX,
        ensures
            final(self)@ == accepted(old(self)@, offer_id@).0,
            accept_result_view(r) == accepted(old(self)@, offer_id@).1,
    {
        let ghost before = self@;
        let pos = match self.position_of(offer_id) {
            None => {
                return Err(not_found_text(offer_id));
            },
            Some(p) => p,
        };
        if self.offers[pos].status != TradeStatus::Pending {
            return Err(not_pending_text(offer_id, self.offers[pos].status));
        }
        let mut offer = self.offers.remove(pos);
        assert(self@.offers =~= before.offers.remove(pos as int));
        offer.status = TradeStatus::Accepted;
        let completed_tick = (self.history.len() + self.offers.len() + 1) as u64;
        let completed = CompletedTrade { offer, completed_tick };
        self.history.push(completed.copied());
        assert(self@.history =~= accepted(before, offer_id@).0.history);
        Ok(completed)
    }

    /// Reject a pending offer.
    pub fn reject(&mut self, offer_id: &str) -> (r: Result<(), String>)
        ensures
            final(self)@ == rejected(old(self)@, offer_id@).0,
            reject_result_view(r) == rejected(old(self)@, offer_id@).1,
    {
        let ghost before = self@;
        let pos = match self.position_of(offer_id) {
            None => {
                return Err(not_found_text(offer_id));
            },
            Some(p) => p,
        };
        if self.offers[pos].status != TradeStatus::Pending {
            return Err(not_pending_text(offer_id, self.offers[pos].status));
        }
        self.offers[pos].status = TradeStatus::Rejected;
        assert(self@.offers =~= rejected(before, offer_id@).0.offers);
        Ok(())
    }

    /// Find all pending offers addressed to a specific player.
    pub fn find_offers_for(&self, player: &str) -> (r: Vec<&TradeOffer>)
        ensures
            offer_refs_view(r@) == pending_for(self@.offers, player@),
    {
        let key = player.to_owned();
        let ghost s = self@.offers;
        let mut r: Vec<&TradeOffer> = Vec::new();
        let mut i: usize = 0;
        assert(offer_refs_view(r@) =~= pending_for(s.take(0), player@));
        while i < self.offers.len()
            invariant
                i <= self.offers.len(),
                s == self@.offers,
                key@ == player@,
                offer_refs_view(r@) == pending_for(s.take(i as int), player@),
            decreases self.offers.len() - i,
        {
            let o = &self.offers[i];
            proof {
                lemma_pending_for_step(s, player@, i as int);
            }
            let ghost r0 = r@;
            if o.to == key && o.status == TradeStatus::Pending {
                r.push(o);
                assert(offer_refs_view(r@) =~= offer_refs_view(r0).push(s[i as int]));
            }
            i = i + 1;
        }
        assert(s.take(i as int) =~= s);
        r
    }

    /// Find all pending offers that want a specific tradeable (who wants what I have?).
    pub fn find_offers_wanting(&self, tradeable: &Tradeable) -> (r: Vec<&TradeOffer>)
        ensures
            offer_refs_view(r@) == pending_wanting(self@.offers, tradeable@),
    {
        let ghost s = self@.offers;
        let mut r: Vec<&TradeOffer> = Vec::new();
        let mut i: usize = 0;
        assert(offer_refs_view(r@) =~= pending_wanting(s.take(0), tradeable@));
        while i < self.offers.len()
            invariant
                i <= self.offers.len(),
                s == self@.offers,
                offer_refs_view(r@) == pending_wanting(s.take(i as int), tradeable@),
            decreases self.offers.len() - i,
        {
            let o = &self.offers[i];
            proof {
                lemma_pending_wanting_step(s, tradeable@, i as int);
            }
            let ghost r0 = r@;
            if o.status == TradeStatus::Pending && wants_item(o, tradeable) {
                r.push(o);
                assert(offer_refs_view(r@) =~= offer_refs_view(r0).push(s[i as int]));
            }
            i = i + 1;
        }
        assert(s.take(i as int) =~= s);
        r
    }

    /// Send a one-way gift (no trade negotiation needed).
    pub fn send_gift(&mut self, gift: Gift)
        requires
            old(self).offers.len() + old(self).history.len() < usize::MAX,
        ensures
            final(self)@ == gift_sent(old(self)@, gift@),
    {
        let ghost before = self@;
        let n = self.history.len() + self.offers.len() + 1;
        let Gift { from, to, item, message: _ } = gift;
        let record = CompletedTrade {
            offer: TradeOffer {
                id: gift_id_text(n),
                from,
                to,
                give: vec![item],
                want: Vec::new(),
                status: TradeStatus::Accepted,
            },
            completed_tick: n as u64,
        };
        assert(record@.offer.give =~= seq![gift@.item]);
        assert(record@.offer.want =~= Seq::<TradeableView>::empty());
        self.history.push(record);
        assert(self@.history =~= gift_sent(before, gift@).history);
    }
}

impl Default for TradeMarket {
    fn default() -> (r: Self)
        ensures
            r@ == empty_market(),
    {
        Self::new()
    }
}

} // verus!
