//! What holds of the market across its operations.
use vstd::prelude::*;

use crate::item::{same_item, TradeableView};
use crate::market::{
    accepted, created, gift_record, gift_sent, lemma_offer_position, next_number, offer_position, pending_for,
    pending_wanting, rejected, with_status, MarketView,
};
use crate::offer::{offer_is_fair, CompletedView, GiftView, OfferView, TradeStatus};
use crate::stats::{
    is_most_active, items_given, kinds, participants, lemma_first_appearance, lemma_kinds_concat, lemma_kinds_len,
};
use crate::tally::{
    count_in, count_or_zero, first_seen, has_key, lemma_count_concat, lemma_count_positive,
    lemma_first_seen_contains, lemma_first_seen_distinct, lemma_lookup_at, lemma_lookup_none,
    lemma_tally_total, lookup, tally_of, total_count,
};
use crate::text::{decimal, gift_id, lemma_ids_distinct, not_found_message, not_pending_message, offer_id};

verus! {

/// The first offer with identifier `id` is the one at `i`.
proof fn lemma_position_is(s: Seq<OfferView>, id: Seq<char>, i: int)
    requires
        0 <= i < s.len(),
        s[i].id == id,
        forall|j: int| 0 <= j < i ==> (#[trigger] s[j]).id != id,
    ensures
        offer_position(s, id) == i,
{
    lemma_offer_position(s, id);
}

/// `s` begins with `p`.
pub open spec fn is_prefix<A>(p: Seq<A>, s: Seq<A>) -> bool {
    p.len() <= s.len() && forall|i: int| 0 <= i < p.len() ==> p[i] == s[i]
}

/// History is only ever appended to: creating, accepting and rejecting
/// offers and sending gifts keep every completed trade where it was.
pub proof fn law_history_append_only(
    m: MarketView,
    id: Seq<char>,
    from: Seq<char>,
    to: Seq<char>,
    give: Seq<TradeableView>,
    want: Seq<TradeableView>,
    g: GiftView,
)
    ensures
        created(m, from, to, give, want).0.history == m.history,
        rejected(m, id).0.history == m.history,
        is_prefix(m.history, accepted(m, id).0.history),
        accepted(m, id).0.history.len() <= m.history.len() + 1,
        is_prefix(m.history, gift_sent(m, g).history),
        gift_sent(m, g).history.len() == m.history.len() + 1,
{
}

/// A rejected offer can't be re-accepted: after a successful `reject`,
/// `accept` of the same identifier fails with the not-pending error and
/// changes nothing; the rejected offer stays among the offers.
pub proof fn law_rejected_offer_cannot_be_accepted(m: MarketView, id: Seq<char>)
    requires
        rejected(m, id).1 is Ok,
    ensures
        accepted(rejected(m, id).0, id) == (
            rejected(m, id).0,
            Err::<CompletedView, Seq<char>>(not_pending_message(id, TradeStatus::Rejected)),
        ),
{
    let p = offer_position(m.offers, id);
    lemma_offer_position(m.offers, id);
    let m2 = rejected(m, id).0;
    assert forall|j: int| 0 <= j < p implies (#[trigger] m2.offers[j]).id != id by {
        assert(m.offers[j].id != id);
    }
    lemma_position_is(m2.offers, id, p);
}

/// Rejecting twice fails: after a successful `reject`, a second `reject` of
/// the same identifier fails with the not-pending error and changes nothing.
pub proof fn law_reject_twice_fails(m: MarketView, id: Seq<char>)
    requires
        rejected(m, id).1 is Ok,
    ensures
        rejected(rejected(m, id).0, id) == (
            rejected(m, id).0,
            Err::<(), Seq<char>>(not_pending_message(id, TradeStatus::Rejected)),
        ),
{
    let p = offer_position(m.offers, id);
    lemma_offer_position(m.offers, id);
    let m2 = rejected(m, id).0;
    assert forall|j: int| 0 <= j < p implies (#[trigger] m2.offers[j]).id != id by {
        assert(m.offers[j].id != id);
    }
    lemma_position_is(m2.offers, id, p);
}

/// A successful `accept` moves one offer from the offers to history: the
/// number of records held stays the same, the offer is recorded as accepted,
/// and the trade it returns is the last of history.
pub proof fn law_accept_moves_offer(m: MarketView, id: Seq<char>)
    requires
        accepted(m, id).1 is Ok,
    ensures
        accepted(m, id).0.offers.len() == m.offers.len() - 1,
        accepted(m, id).0.history == m.history.push(accepted(m, id).1->Ok_0),
        accepted(m, id).1->Ok_0.offer == with_status(
            m.offers[offer_position(m.offers, id)],
            TradeStatus::Accepted,
        ),
        accepted(m, id).1->Ok_0.offer.id == id,
        next_number(accepted(m, id).0) == next_number(m),
{
    lemma_offer_position(m.offers, id);
}

/// An offer whose identifier no other offer holds can be accepted right after
/// it is made: it reaches history accepted, at the tick that equals its number.
pub proof fn law_accept_created(
    m: MarketView,
    from: Seq<char>,
    to: Seq<char>,
    give: Seq<TradeableView>,
    want: Seq<TradeableView>,
)
    requires
        forall|i: int|
            0 <= i < m.offers.len() ==> (#[trigger] m.offers[i]).id != created(
                m,
                from,
                to,
                give,
                want,
            ).1,
    ensures
        ({
            let (m2, id) = created(m, from, to, give, want);
            &&& accepted(m2, id).1 == Ok::<CompletedView, Seq<char>>(
                CompletedView {
                    offer: with_status(m2.offers.last(), TradeStatus::Accepted),
                    completed_tick: next_number(m) as u64,
                },
            )
            &&& accepted(m2, id).0.offers == m.offers
        }),
{
    let (m2, id) = created(m, from, to, give, want);
    assert forall|j: int| 0 <= j < m.offers.len() implies (#[trigger] m2.offers[j]).id != id by {
        assert(m2.offers[j] == m.offers[j]);
    }
    lemma_position_is(m2.offers, id, m.offers.len() as int);
    assert(m2.offers.remove(m.offers.len() as int) =~= m.offers);
}

/// The pending offers for a player are exactly the offers addressed to that
/// player that are still pending, in market order.
pub proof fn law_pending_for_exact(s: Seq<OfferView>, player: Seq<char>)
    ensures
        forall|x: OfferView|
            #[trigger] pending_for(s, player).contains(x) ==> x.to == player && x.status
                == TradeStatus::Pending && s.contains(x),
        forall|i: int|
            0 <= i < s.len() && (#[trigger] s[i]).to == player && s[i].status
                == TradeStatus::Pending ==> pending_for(s, player).contains(s[i]),
    decreases s.len(),
{
    if s.len() > 0 {
        let d = s.drop_last();
        law_pending_for_exact(d, player);
        let r = pending_for(s, player);
        let rd = pending_for(d, player);
        assert forall|x: OfferView| r.contains(x) implies x.to == player && x.status
            == TradeStatus::Pending && s.contains(x) by {
            let k = choose|k: int| 0 <= k < r.len() && r[k] == x;
            if k < rd.len() {
                assert(rd[k] == x);
                assert(rd.contains(x));
                let q = choose|q: int| 0 <= q < d.len() && d[q] == x;
                assert(s[q] == x);
            } else {
                assert(x == s.last());
                assert(s[s.len() - 1] == x);
            }
        }
        assert forall|i: int|
            0 <= i < s.len() && (#[trigger] s[i]).to == player && s[i].status
                == TradeStatus::Pending implies r.contains(s[i]) by {
            if i < d.len() {
                assert(d[i] == s[i]);
                assert(rd.contains(s[i]));
                let k = choose|k: int| 0 <= k < rd.len() && rd[k] == s[i];
                assert(r[k] == s[i]);
            } else {
                assert(r[r.len() - 1] == s[i]);
            }
        }
    }
}

/// An offer just made to a player is the last of that player's pending offers.
pub proof fn law_created_offer_is_found(
    m: MarketView,
    from: Seq<char>,
    to: Seq<char>,
    give: Seq<TradeableView>,
    want: Seq<TradeableView>,
)
    ensures
        ({
            let m2 = created(m, from, to, give, want).0;
            pending_for(m2.offers, to) == pending_for(m.offers, to).push(m2.offers.last())
        }),
{
    let m2 = created(m, from, to, give, want).0;
    assert(m2.offers.drop_last() =~= m.offers);
}

/// The identifiers of every record of the market: the offers, then history.
pub open spec fn record_ids(m: MarketView) -> Seq<Seq<char>> {
    m.offers.map_values(|o: OfferView| o.id) + m.history.map_values(|c: CompletedView| c.offer.id)
}

/// The number of records the market holds.
pub open spec fn record_count(m: MarketView) -> nat {
    m.offers.len() + m.history.len()
}

/// The identifier is `offer-k` or `gift-k`.
pub open spec fn numbered_at(id: Seq<char>, k: nat) -> bool {
    id == offer_id(k) || id == gift_id(k)
}

/// The number that an identifier `offer-k` or `gift-k` carries.
pub open spec fn id_number(id: Seq<char>) -> nat {
    choose|k: nat| numbered_at(id, k)
}

/// The records are numbered from one to the number of records: each
/// identifier is `offer-k` or `gift-k` with `k` in that range, and no two
/// records carry the same number.
pub open spec fn well_numbered(m: MarketView) -> bool {
    &&& forall|i: int|
        0 <= i < record_ids(m).len() ==> {
            &&& numbered_at(#[trigger] record_ids(m)[i], id_number(record_ids(m)[i]))
            &&& 1 <= id_number(record_ids(m)[i]) <= record_count(m)
        }
    &&& forall|i: int, j: int|
        0 <= i < record_ids(m).len() && 0 <= j < record_ids(m).len() && i != j ==> id_number(
            #[trigger] record_ids(m)[i],
        ) != id_number(#[trigger] record_ids(m)[j])
}

/// No two records share an identifier.
pub open spec fn ids_distinct(m: MarketView) -> bool {
    forall|i: int, j: int|
        0 <= i < record_ids(m).len() && 0 <= j < record_ids(m).len() && i != j
            ==> #[trigger] record_ids(m)[i] != #[trigger] record_ids(m)[j]
}

/// An identifier `offer-k` or `gift-k` carries the number `k`.
proof fn lemma_number_of(id: Seq<char>, k: nat)
    requires
        numbered_at(id, k),
    ensures
        id_number(id) == k,
{
    let c = id_number(id);
    assert(numbered_at(id, c));
    lemma_ids_distinct(c, k);
    lemma_ids_distinct(k, c);
}

/// The empty market is well numbered.
pub proof fn law_empty_market_well_numbered()
    ensures
        well_numbered(crate::market::empty_market()),
{
    assert(record_ids(crate::market::empty_market()) =~= Seq::<Seq<char>>::empty());
}

/// In a well-numbered market no two records share an identifier.
pub proof fn law_well_numbered_ids_distinct(m: MarketView)
    requires
        well_numbered(m),
    ensures
        ids_distinct(m),
{
}

/// Some record carries the number `k`.
pub open spec fn carries_number(m: MarketView, k: nat) -> bool {
    exists|i: int| 0 <= i < record_ids(m).len() && id_number(#[trigger] record_ids(m)[i]) == k
}

/// In a well-numbered market every number from one to the number of records
/// is carried by some record: the numbers are exactly one to n.
pub proof fn law_numbers_are_one_to_n(m: MarketView)
    requires
        well_numbered(m),
    ensures
        forall|k: nat| 1 <= k <= record_count(m) ==> #[trigger] carries_number(m, k),
{
    broadcast use vstd::seq_lib::seq_to_set_is_finite;

    let r = record_ids(m);
    let n = record_count(m);
    assert(r.len() == n);
    let ns = Seq::new(n, |i: int| id_number(r[i]) as int);
    assert(ns.no_duplicates()) by {
        assert forall|i: int, j: int|
            0 <= i < ns.len() && 0 <= j < ns.len() && i != j implies ns[i] != ns[j] by {
            assert(id_number(r[i]) != id_number(r[j]));
        }
    }
    ns.unique_seq_to_set();
    let range = vstd::set_lib::set_int_range(1, n as int + 1);
    vstd::set_lib::lemma_int_range(1, n as int + 1);
    assert(ns.to_set().subset_of(range)) by {
        assert forall|x: int| ns.to_set().contains(x) implies range.contains(x) by {
            let i = choose|i: int| 0 <= i < ns.len() && ns[i] == x;
            assert(1 <= id_number(r[i]) <= n);
        }
    }
    vstd::set_lib::lemma_subset_equality(ns.to_set(), range);
    assert forall|k: nat| 1 <= k <= n implies #[trigger] carries_number(m, k) by {
        assert(range.contains(k as int));
        assert(ns.to_set().contains(k as int));
        let i = choose|i: int| 0 <= i < ns.len() && ns[i] == k as int;
        assert(id_number(r[i]) == k);
    }
}

/// Identifiers are collision-free: in a well-numbered market the identifier
/// `create_offer` returns is held by no record already there, and the market
/// stays well numbered.
pub proof fn law_created_id_is_fresh(
    m: MarketView,
    from: Seq<char>,
    to: Seq<char>,
    give: Seq<TradeableView>,
    want: Seq<TradeableView>,
)
    requires
        well_numbered(m),
    ensures
        forall|i: int|
            0 <= i < record_ids(m).len() ==> #[trigger] record_ids(m)[i] != created(
                m,
                from,
                to,
                give,
                want,
            ).1,
        well_numbered(created(m, from, to, give, want).0),
{
    let (m2, id) = created(m, from, to, give, want);
    let n = next_number(m);
    let r = record_ids(m);
    let r2 = record_ids(m2);
    let o = m.offers.len() as int;
    assert(id == offer_id(n));
    lemma_number_of(id, n);
    assert forall|i: int| 0 <= i < r.len() implies #[trigger] r[i] != id by {
        assert(id_number(r[i]) <= record_count(m));
    }
    assert(r2.len() == r.len() + 1);
    assert forall|i: int| 0 <= i < r2.len() implies #[trigger] r2[i] == if i < o {
        r[i]
    } else if i == o {
        id
    } else {
        r[i - 1]
    } by {}
    assert(record_count(m2) == n);
}

/// The same for gifts: the record of a gift carries an identifier no record
/// already holds, and the market stays well numbered.
pub proof fn law_gift_id_is_fresh(m: MarketView, g: GiftView)
    requires
        well_numbered(m),
    ensures
        forall|i: int|
            0 <= i < record_ids(m).len() ==> #[trigger] record_ids(m)[i] != gift_record(
                g,
                next_number(m),
            ).offer.id,
        well_numbered(gift_sent(m, g)),
{
    let m2 = gift_sent(m, g);
    let n = next_number(m);
    let id = gift_id(n);
    let r = record_ids(m);
    let r2 = record_ids(m2);
    lemma_number_of(id, n);
    assert forall|i: int| 0 <= i < r.len() implies #[trigger] r[i] != id by {
        assert(id_number(r[i]) <= record_count(m));
    }
    assert(r2 =~= r.push(id));
    assert(record_count(m2) == n);
}

/// Rejecting keeps the market well numbered.
pub proof fn law_reject_keeps_numbering(m: MarketView, id: Seq<char>)
    requires
        well_numbered(m),
    ensures
        well_numbered(rejected(m, id).0),
{
    let m2 = rejected(m, id).0;
    lemma_offer_position(m.offers, id);
    assert(record_ids(m2) =~= record_ids(m));
}

/// The position in the records before `accept` of the record at `i` after a
/// successful `accept` of the offer at `p`, with `o` offers and `h` trades before.
pub open spec fn moved_index(i: int, p: int, o: int, h: int) -> int {
    if i < o - 1 {
        if i < p {
            i
        } else {
            i + 1
        }
    } else if i < o - 1 + h {
        i + 1
    } else {
        p
    }
}

/// After a successful `accept` of the offer at `p`, the records are those
/// before, moved: the record at `i` is the one that was at `moved_index(i, ..)`.
proof fn lemma_accept_moves_records(m: MarketView, id: Seq<char>)
    requires
        accepted(m, id).1 is Ok,
    ensures
        record_ids(accepted(m, id).0).len() == record_ids(m).len(),
        forall|i: int|
            0 <= i < record_ids(m).len() ==> #[trigger] record_ids(accepted(m, id).0)[i]
                == record_ids(m)[moved_index(
                i,
                offer_position(m.offers, id),
                m.offers.len() as int,
                m.history.len() as int,
            )],
{
    lemma_offer_position(m.offers, id);
    let p = offer_position(m.offers, id);
    let m2 = accepted(m, id).0;
    let r = record_ids(m);
    let r2 = record_ids(m2);
    let o = m.offers.len() as int;
    let h = m.history.len() as int;
    assert forall|i: int| 0 <= i < r.len() implies #[trigger] r2[i] == r[moved_index(
        i,
        p,
        o,
        h,
    )] by {
        if i < o - 1 {
            assert(m2.offers[i] == m.offers.remove(p)[i]);
        } else if i < o - 1 + h {
            assert(m2.history[i - (o - 1)] == m.history[i - (o - 1)]);
        } else {
            assert(m2.history[h] == accepted(m, id).1->Ok_0);
        }
    }
}

/// Accepting keeps the market well numbered, whatever it answers.
pub proof fn law_accept_keeps_numbering(m: MarketView, id: Seq<char>)
    requires
        well_numbered(m),
    ensures
        well_numbered(accepted(m, id).0),
{
    lemma_offer_position(m.offers, id);
    if accepted(m, id).1 is Ok {
        let p = offer_position(m.offers, id);
        let m2 = accepted(m, id).0;
        let r = record_ids(m);
        let r2 = record_ids(m2);
        let o = m.offers.len() as int;
        let h = m.history.len() as int;
        lemma_accept_moves_records(m, id);
        assert(record_count(m2) == record_count(m));
        assert forall|i: int| 0 <= i < r2.len() implies {
            &&& numbered_at(#[trigger] r2[i], id_number(r2[i]))
            &&& 1 <= id_number(r2[i]) <= record_count(m2)
        } by {
            assert(r2[i] == r[moved_index(i, p, o, h)]);
        }
        assert forall|i: int, j: int| 0 <= i < r2.len() && 0 <= j < r2.len() && i != j implies id_number(
            #[trigger] r2[i],
        ) != id_number(#[trigger] r2[j]) by {
            assert(r2[i] == r[moved_index(i, p, o, h)]);
            assert(r2[j] == r[moved_index(j, p, o, h)]);
        }
    }
}

/// A trade is completed at most once: when no two records share an
/// identifier, a second `accept` of an identifier just accepted answers not
/// found and changes nothing, and history holds exactly one trade with it.
pub proof fn law_accept_once(m: MarketView, id: Seq<char>)
    requires
        ids_distinct(m),
        accepted(m, id).1 is Ok,
    ensures
        accepted(accepted(m, id).0, id) == (
            accepted(m, id).0,
            Err::<CompletedView, Seq<char>>(not_found_message(id)),
        ),
        exists|i: int|
            0 <= i < accepted(m, id).0.history.len() && (#[trigger] accepted(
                m,
                id,
            ).0.history[i]).offer.id == id && forall|j: int|
                0 <= j < accepted(m, id).0.history.len() && j != i ==> (#[trigger] accepted(
                    m,
                    id,
                ).0.history[j]).offer.id != id,
{
    lemma_offer_position(m.offers, id);
    let p = offer_position(m.offers, id);
    let m2 = accepted(m, id).0;
    let r = record_ids(m);
    let o = m.offers.len() as int;
    let h = m.history.len() as int;
    assert(r[p] == id);
    assert forall|j: int| 0 <= j < m2.offers.len() implies (#[trigger] m2.offers[j]).id != id by {
        let q = if j < p { j } else { j + 1 };
        assert(m2.offers[j] == m.offers[q]);
        assert(r[q] != r[p]);
    }
    lemma_offer_position(m2.offers, id);
    assert forall|j: int| 0 <= j < m2.history.len() && j != h implies (#[trigger] m2.history[j]).offer.id
        != id by {
        assert(m2.history[j] == m.history[j]);
        assert(r[o + j] != r[p]);
    }
    assert(m2.history[h].offer.id == id);
}

/// Accepted records live in history and only there: every trade in history
/// is accepted, and no offer is.
pub open spec fn status_partitioned(m: MarketView) -> bool {
    &&& forall|i: int|
        0 <= i < m.history.len() ==> (#[trigger] m.history[i]).offer.status
            == TradeStatus::Accepted
    &&& forall|i: int|
        0 <= i < m.offers.len() ==> (#[trigger] m.offers[i]).status != TradeStatus::Accepted
}

/// Every operation keeps accepted records in history and the others among
/// the offers.
pub proof fn law_status_partition_kept(
    m: MarketView,
    id: Seq<char>,
    from: Seq<char>,
    to: Seq<char>,
    give: Seq<TradeableView>,
    want: Seq<TradeableView>,
    g: GiftView,
)
    requires
        status_partitioned(m),
    ensures
        status_partitioned(created(m, from, to, give, want).0),
        status_partitioned(accepted(m, id).0),
        status_partitioned(rejected(m, id).0),
        status_partitioned(gift_sent(m, g)),
{
    lemma_offer_position(m.offers, id);
    let p = offer_position(m.offers, id);
    let mc = created(m, from, to, give, want).0;
    assert forall|i: int| 0 <= i < mc.offers.len() implies (#[trigger] mc.offers[i]).status
        != TradeStatus::Accepted by {
        if i < m.offers.len() {
            assert(mc.offers[i] == m.offers[i]);
        }
    }
    let ma = accepted(m, id).0;
    if accepted(m, id).1 is Ok {
        assert forall|i: int| 0 <= i < ma.offers.len() implies (#[trigger] ma.offers[i]).status
            != TradeStatus::Accepted by {
            let q = if i < p { i } else { i + 1 };
            assert(ma.offers[i] == m.offers[q]);
        }
        assert forall|i: int| 0 <= i < ma.history.len() implies (#[trigger] ma.history[i]).offer.status
            == TradeStatus::Accepted by {
            if i < m.history.len() {
                assert(ma.history[i] == m.history[i]);
            }
        }
    }
    let mr = rejected(m, id).0;
    assert forall|i: int| 0 <= i < mr.offers.len() implies (#[trigger] mr.offers[i]).status
        != TradeStatus::Accepted by {
        if i != p {
            assert(mr.offers[i] == m.offers[i]);
        }
    }
    let mg = gift_sent(m, g);
    assert forall|i: int| 0 <= i < mg.history.len() implies (#[trigger] mg.history[i]).offer.status
        == TradeStatus::Accepted by {
        if i < m.history.len() {
            assert(mg.history[i] == m.history[i]);
        }
    }
}

/// The entry a tally holds for a key counts the key's occurrences, and a key
/// has an entry exactly when it occurs at all: `by_type.get(k)` is the number
/// of items of category `k` given, or none when there were none.
pub proof fn law_tally_lookup(s: Seq<Seq<char>>, k: Seq<char>)
    ensures
        lookup(tally_of(s), k) == if s.contains(k) {
            Some(count_in(s, k))
        } else {
            None
        },
        has_key(tally_of(s), k) <==> s.contains(k),
        count_or_zero(tally_of(s), k) == count_in(s, k),
{
    let t = tally_of(s);
    let f = first_seen(s);
    lemma_first_seen_contains(s, k);
    lemma_first_seen_distinct(s);
    lemma_count_positive(s, k);
    if s.contains(k) {
        let i = choose|i: int| 0 <= i < f.len() && f[i] == k;
        assert(t[i].0 == k);
        assert forall|j: int| 0 <= j < i implies (#[trigger] t[j]).0 != k by {
            assert(f[j] != f[i]);
        }
        lemma_lookup_at(t, k, i);
    } else {
        assert forall|j: int| 0 <= j < t.len() implies (#[trigger] t[j]).0 != k by {
            assert(f.contains(f[j]));
        }
        lemma_lookup_none(t, k);
    }
}

/// Statistics add up over concatenated histories: the number of trades and
/// the count of every category for `h1 + h2` are the sums of those for `h1`
/// and for `h2`.
pub proof fn law_stats_additive(h1: Seq<CompletedView>, h2: Seq<CompletedView>, k: Seq<char>)
    ensures
        (h1 + h2).len() == h1.len() + h2.len(),
        count_or_zero(tally_of(kinds(h1 + h2)), k) == count_or_zero(tally_of(kinds(h1)), k)
            + count_or_zero(tally_of(kinds(h2)), k),
{
    lemma_kinds_concat(h1, h2);
    lemma_count_concat(kinds(h1), kinds(h2), k);
    law_tally_lookup(kinds(h1 + h2), k);
    law_tally_lookup(kinds(h1), k);
    law_tally_lookup(kinds(h2), k);
}

/// `by_type` counts only the items given: its counts add up to the number of
/// items given over the whole history.
pub proof fn law_by_type_counts_items_given(h: Seq<CompletedView>)
    ensures
        total_count(tally_of(kinds(h))) == items_given(h),
{
    lemma_tally_total(kinds(h));
    lemma_kinds_len(h);
}

/// Of two most active players, one appearing first at `ia` and one at `ib`
/// later and not before, the two are the same.
proof fn lemma_earlier_most_active(s: Seq<Seq<char>>, a: Seq<char>, b: Seq<char>, ia: int, ib: int)
    requires
        is_most_active(s, a),
        is_most_active(s, b),
        0 <= ia < ib < s.len(),
        s[ia] == a,
        s[ib] == b,
        !s.take(ib).contains(b),
    ensures
        a == b,
{
    let ta = s.take(ia + 1);
    assert(!ta.contains(b)) by {
        if ta.contains(b) {
            let q = choose|q: int| 0 <= q < ta.len() && ta[q] == b;
            assert(s.take(ib)[q] == b);
        }
    }
    assert(count_in(s, s[ia]) < count_in(s, b));
    assert(count_in(s, s[ib]) <= count_in(s, a));
}

/// The most active player is well defined: no two players both meet its
/// definition, so ties are settled (in favour of the player seen first).
pub proof fn law_most_active_unique(s: Seq<Seq<char>>, a: Seq<char>, b: Seq<char>)
    requires
        is_most_active(s, a),
        is_most_active(s, b),
    ensures
        a == b,
{
    lemma_first_appearance(s, a);
    lemma_first_appearance(s, b);
    let ia = choose|i: int| 0 <= i < s.len() && s[i] == a && !s.take(i).contains(a);
    let ib = choose|i: int| 0 <= i < s.len() && s[i] == b && !s.take(i).contains(b);
    if ia < ib {
        lemma_earlier_most_active(s, a, b, ia, ib);
    } else if ib < ia {
        lemma_earlier_most_active(s, b, a, ib, ia);
    }
}

/// The offer at `p` is the first one with identifier `id`.
pub open spec fn first_with_id(s: Seq<OfferView>, id: Seq<char>, p: int) -> bool {
    &&& 0 <= p < s.len()
    &&& s[p].id == id
    &&& forall|j: int| 0 <= j < p ==> (#[trigger] s[j]).id != id
}

/// `reject` succeeds on the first offer with the identifier when it is
/// pending: that offer becomes rejected with every other field kept, and
/// nothing else changes.
pub proof fn law_reject_pending(m: MarketView, id: Seq<char>, p: int)
    requires
        first_with_id(m.offers, id, p),
        m.offers[p].status == TradeStatus::Pending,
    ensures
        rejected(m, id).1 == Ok::<(), Seq<char>>(()),
        rejected(m, id).0.history == m.history,
        rejected(m, id).0.offers.len() == m.offers.len(),
        rejected(m, id).0.offers[p].status == TradeStatus::Rejected,
        rejected(m, id).0.offers[p].id == m.offers[p].id,
        rejected(m, id).0.offers[p].from == m.offers[p].from,
        rejected(m, id).0.offers[p].to == m.offers[p].to,
        rejected(m, id).0.offers[p].give == m.offers[p].give,
        rejected(m, id).0.offers[p].want == m.offers[p].want,
        forall|j: int|
            0 <= j < m.offers.len() && j != p ==> #[trigger] rejected(m, id).0.offers[j]
                == m.offers[j],
{
    lemma_position_is(m.offers, id, p);
}

/// `reject` fails exactly when no offer has the identifier or the first that
/// has it is no longer pending, and a failed `reject` changes nothing.
pub proof fn law_reject_fails(m: MarketView, id: Seq<char>)
    ensures
        rejected(m, id).1 is Err <==> (forall|j: int|
            0 <= j < m.offers.len() ==> (#[trigger] m.offers[j]).id != id) || exists|p: int|
            first_with_id(m.offers, id, p) && m.offers[p].status != TradeStatus::Pending,
        rejected(m, id).1 is Err ==> rejected(m, id).0 == m,
{
    lemma_offer_position(m.offers, id);
    let p = offer_position(m.offers, id);
    if p >= 0 {
        assert(first_with_id(m.offers, id, p));
        assert forall|q: int| first_with_id(m.offers, id, q) implies q == p by {
            if q < p {
                assert(m.offers[q].id != id);
            } else if q > p {
                assert(m.offers[p].id != id);
            }
        }
    }
}

/// `accept` succeeds on the first offer with the identifier when it is
/// pending: that offer leaves the offers, the others keeping their order,
/// and a trade with every field of the offer, status accepted, joins
/// history at the tick that counts the offers and trades held before.
pub proof fn law_accept_pending(m: MarketView, id: Seq<char>, p: int)
    requires
        first_with_id(m.offers, id, p),
        m.offers[p].status == TradeStatus::Pending,
    ensures
        accepted(m, id).1 is Ok,
        ({
            let c = accepted(m, id).1->Ok_0;
            let m2 = accepted(m, id).0;
            &&& c.offer.status == TradeStatus::Accepted
            &&& c.offer.id == m.offers[p].id
            &&& c.offer.from == m.offers[p].from
            &&& c.offer.to == m.offers[p].to
            &&& c.offer.give == m.offers[p].give
            &&& c.offer.want == m.offers[p].want
            &&& c.completed_tick == (m.offers.len() + m.history.len()) as u64
            &&& m2.history == m.history.push(c)
            &&& m2.offers.len() + 1 == m.offers.len()
            &&& forall|j: int| 0 <= j < p ==> #[trigger] m2.offers[j] == m.offers[j]
            &&& forall|j: int| p <= j < m2.offers.len() ==> #[trigger] m2.offers[j] == m.offers[j + 1]
        }),
{
    lemma_position_is(m.offers, id, p);
}

/// `accept` fails exactly when no offer has the identifier or the first that
/// has it is no longer pending, and a failed `accept` changes nothing.
pub proof fn law_accept_fails(m: MarketView, id: Seq<char>)
    ensures
        accepted(m, id).1 is Err <==> (forall|j: int|
            0 <= j < m.offers.len() ==> (#[trigger] m.offers[j]).id != id) || exists|p: int|
            first_with_id(m.offers, id, p) && m.offers[p].status != TradeStatus::Pending,
        accepted(m, id).1 is Err ==> accepted(m, id).0 == m,
{
    lemma_offer_position(m.offers, id);
    let p = offer_position(m.offers, id);
    if p >= 0 {
        assert(first_with_id(m.offers, id, p));
        assert forall|q: int| first_with_id(m.offers, id, q) implies q == p by {
            if q < p {
                assert(m.offers[q].id != id);
            } else if q > p {
                assert(m.offers[p].id != id);
            }
        }
    }
}

/// The pending offers that want an item are exactly the pending offers with
/// an equal item anywhere among the items they want, in market order.
pub proof fn law_pending_wanting_exact(s: Seq<OfferView>, t: TradeableView)
    ensures
        forall|x: OfferView|
            #[trigger] pending_wanting(s, t).contains(x) ==> x.status == TradeStatus::Pending
                && s.contains(x) && exists|k: int|
                0 <= k < x.want.len() && same_item(#[trigger] x.want[k], t),
        forall|i: int, k: int|
            0 <= i < s.len() && s[i].status == TradeStatus::Pending && 0 <= k < s[i].want.len()
                && same_item(#[trigger] s[i].want[k], t) ==> pending_wanting(s, t).contains(s[i]),
    decreases s.len(),
{
    if s.len() > 0 {
        let d = s.drop_last();
        law_pending_wanting_exact(d, t);
        let r = pending_wanting(s, t);
        let rd = pending_wanting(d, t);
        assert forall|x: OfferView| r.contains(x) implies x.status == TradeStatus::Pending
            && s.contains(x) && exists|k: int|
            0 <= k < x.want.len() && same_item(#[trigger] x.want[k], t) by {
            let k = choose|k: int| 0 <= k < r.len() && r[k] == x;
            if k < rd.len() {
                assert(rd[k] == x);
                assert(rd.contains(x));
                let q = choose|q: int| 0 <= q < d.len() && d[q] == x;
                assert(s[q] == x);
            } else {
                assert(x == s.last());
                assert(s[s.len() - 1] == x);
            }
        }
        assert forall|i: int, k: int|
            0 <= i < s.len() && s[i].status == TradeStatus::Pending && 0 <= k < s[i].want.len()
                && same_item(#[trigger] s[i].want[k], t) implies r.contains(s[i]) by {
            if i < d.len() {
                assert(d[i] == s[i]);
                assert(same_item(d[i].want[k], t));
                assert(rd.contains(s[i]));
                let q = choose|q: int| 0 <= q < rd.len() && rd[q] == s[i];
                assert(r[q] == s[i]);
            } else {
                assert(r[r.len() - 1] == s[i]);
            }
        }
    }
}

/// An offer is fair exactly when it gives as many items as it wants.
pub proof fn law_fair_iff_same_count(o: OfferView)
    ensures
        offer_is_fair(o) <==> o.give.len() == o.want.len(),
{
}

/// `create_offer` appends one pending offer with the players and items
/// given, named `offer-` and the decimal numeral of one more than the records
/// held, and changes nothing else.
pub proof fn law_create_offer_appends(
    m: MarketView,
    from: Seq<char>,
    to: Seq<char>,
    give: Seq<TradeableView>,
    want: Seq<TradeableView>,
)
    ensures
        ({
            let (m2, id) = created(m, from, to, give, want);
            &&& id == "offer-"@ + decimal(m.offers.len() + m.history.len() + 1)
            &&& m2.history == m.history
            &&& m2.offers.len() == m.offers.len() + 1
            &&& forall|j: int| 0 <= j < m.offers.len() ==> #[trigger] m2.offers[j] == m.offers[j]
            &&& m2.offers.last().id == id
            &&& m2.offers.last().from == from
            &&& m2.offers.last().to == to
            &&& m2.offers.last().give == give
            &&& m2.offers.last().want == want
            &&& m2.offers.last().status == TradeStatus::Pending
        }),
{
}

/// `send_gift` appends one accepted trade to history: from and to the
/// players of the gift, giving just its item, wanting nothing, named `gift-`
/// and the decimal numeral of one more than the records held, at that tick;
/// the offers are untouched.
pub proof fn law_send_gift_appends(m: MarketView, g: GiftView)
    ensures
        ({
            let m2 = gift_sent(m, g);
            let n = m.offers.len() + m.history.len() + 1;
            &&& m2.offers == m.offers
            &&& m2.history.len() == m.history.len() + 1
            &&& forall|j: int| 0 <= j < m.history.len() ==> #[trigger] m2.history[j] == m.history[j]
            &&& m2.history.last().offer.id == "gift-"@ + decimal(n)
            &&& m2.history.last().offer.from == g.from
            &&& m2.history.last().offer.to == g.to
            &&& m2.history.last().offer.give == seq![g.item]
            &&& m2.history.last().offer.want.len() == 0
            &&& m2.history.last().offer.status == TradeStatus::Accepted
            &&& m2.history.last().completed_tick == n as u64
        }),
{
}

/// The players of a history are, trade after trade, its giver and then its
/// receiver.
pub proof fn law_participants_in_order(h: Seq<CompletedView>)
    ensures
        participants(h).len() == 2 * h.len(),
        forall|i: int|
            0 <= i < h.len() ==> participants(h)[2 * i] == (#[trigger] h[i]).offer.from
                && participants(h)[2 * i + 1] == h[i].offer.to,
    decreases h.len(),
{
    if h.len() > 0 {
        let d = h.drop_last();
        law_participants_in_order(d);
        assert forall|i: int| 0 <= i < h.len() implies participants(h)[2 * i] == (
        #[trigger] h[i]).offer.from && participants(h)[2 * i + 1] == h[i].offer.to by {
            if i < d.len() {
                assert(d[i] == h[i]);
            }
        }
    }
}

/// Item equality is symmetric.
pub proof fn law_same_item_symmetric(a: TradeableView, b: TradeableView)
    ensures
        same_item(a, b) == same_item(b, a),
{
}

} // verus!
