//! Statistics over completed trades.
use vstd::prelude::*;

use crate::item::{Tradeable, TradeableView};
use crate::offer::{items_view, CompletedTrade, CompletedView};
use crate::tally::{
    count_in, first_seen, lemma_first_seen_contains, lemma_first_seen_prefix, lemma_tally_distinct, lemma_tally_step,
    tally_of, Tally,
};

verus! {

/// The category key of an item.
pub open spec fn kind_name(t: TradeableView) -> Seq<char> {
    match t {
        TradeableView::Material(_, _) => "material"@,
        TradeableView::Agent(_, _) => "agent"@,
        TradeableView::Knowledge(_, _) => "knowledge"@,
        TradeableView::Recipe(_) => "recipe"@,
        TradeableView::Pet(_, _) => "pet"@,
    }
}

/// The category keys of a list of items.
pub open spec fn item_kinds(items: Seq<TradeableView>) -> Seq<Seq<char>> {
    items.map_values(|t: TradeableView| kind_name(t))
}

/// The category keys of every item given in a history, trade after trade.
pub open spec fn kinds(h: Seq<CompletedView>) -> Seq<Seq<char>>
    decreases h.len(),
{
    if h.len() == 0 {
        Seq::empty()
    } else {
        kinds(h.drop_last()) + item_kinds(h.last().offer.give)
    }
}

/// The players of a history, trade after trade: the giver, then the receiver.
pub open spec fn participants(h: Seq<CompletedView>) -> Seq<Seq<char>>
    decreases h.len(),
{
    if h.len() == 0 {
        Seq::empty()
    } else {
        participants(h.drop_last()) + seq![h.last().offer.from, h.last().offer.to]
    }
}

/// The values of a history.
pub open spec fn history_view(h: Seq<CompletedTrade>) -> Seq<CompletedView> {
    h.map_values(|c: CompletedTrade| c@)
}

/// `w` is the most active player of the appearances `s`: it appears at least
/// as often as anyone, and everyone who appears before its first appearance
/// appears strictly less often (ties go to the player seen first).
pub open spec fn is_most_active(s: Seq<Seq<char>>, w: Seq<char>) -> bool {
    &&& s.contains(w)
    &&& forall|j: int| 0 <= j < s.len() ==> count_in(s, #[trigger] s[j]) <= count_in(s, w)
    &&& forall|j: int|
        0 <= j < s.len() && !s.take(j + 1).contains(w) ==> count_in(s, #[trigger] s[j]) < count_in(
            s,
            w,
        )
}

/// The number of items given in a history.
pub open spec fn items_given(h: Seq<CompletedView>) -> nat
    decreases h.len(),
{
    if h.len() == 0 {
        0
    } else {
        items_given(h.drop_last()) + h.last().offer.give.len()
    }
}

/// There is one category key for each item given.
pub proof fn lemma_kinds_len(h: Seq<CompletedView>)
    ensures
        kinds(h).len() == items_given(h),
    decreases h.len(),
{
    if h.len() > 0 {
        lemma_kinds_len(h.drop_last());
    }
}

/// The category keys of two histories one after the other.
pub proof fn lemma_kinds_concat(h1: Seq<CompletedView>, h2: Seq<CompletedView>)
    ensures
        kinds(h1 + h2) == kinds(h1) + kinds(h2),
    decreases h2.len(),
{
    if h2.len() == 0 {
        assert(h1 + h2 =~= h1);
        assert(kinds(h1) + kinds(h2) =~= kinds(h1));
    } else {
        lemma_kinds_concat(h1, h2.drop_last());
        assert((h1 + h2).drop_last() =~= h1 + h2.drop_last());
        assert((h1 + h2).last() == h2.last());
        assert(kinds(h1 + h2) =~= kinds(h1) + kinds(h2));
    }
}

/// The first appearance of a player who appears.
pub proof fn lemma_first_appearance(s: Seq<Seq<char>>, w: Seq<char>)
    requires
        s.contains(w),
    ensures
        exists|i: int| 0 <= i < s.len() && s[i] == w && !s.take(i).contains(w),
    decreases s.len(),
{
    let d = s.drop_last();
    if d.contains(w) {
        lemma_first_appearance(d, w);
        let i = choose|i: int| 0 <= i < d.len() && d[i] == w && !d.take(i).contains(w);
        assert(s.take(i) =~= d.take(i));
        assert(s[i] == w);
    } else {
        assert(s.take(s.len() - 1) =~= d);
        let i = choose|i: int| 0 <= i < s.len() && s[i] == w;
        if i < s.len() - 1 {
            assert(d[i] == w);
        }
        assert(s[s.len() - 1] == w);
    }
}

/// Trading statistics derived from completed trade history.
#[derive(Debug, Clone, PartialEq)]
pub struct TradeStats {
    pub total_trades: u64,
    pub by_type: Tally,
    pub most_active: Option<String>,
}

/// The category key of an item.
pub fn kind_text(item: &Tradeable) -> (r: String)
    ensures
        r@ == kind_name(item@),
{
    match item {
        Tradeable::Material(_, _) => String::from_str("material"),
        Tradeable::Agent(_, _) => String::from_str("agent"),
        Tradeable::Knowledge(_, _) => String::from_str("knowledge"),
        Tradeable::Recipe(_) => String::from_str("recipe"),
        Tradeable::Pet(_, _) => String::from_str("pet"),
    }
}

proof fn lemma_kinds_prefix_len(h: Seq<CompletedView>, n: int)
    requires
        0 <= n <= h.len(),
    ensures
        kinds(h.take(n)).len() <= kinds(h).len(),
    decreases h.len(),
{
    if n == h.len() {
        assert(h.take(n) =~= h);
    } else {
        assert(h.take(n) =~= h.drop_last().take(n));
        lemma_kinds_prefix_len(h.drop_last(), n);
    }
}

proof fn lemma_participants_len(h: Seq<CompletedView>)
    ensures
        participants(h).len() == 2 * h.len(),
    decreases h.len(),
{
    if h.len() > 0 {
        lemma_participants_len(h.drop_last());
    }
}

/// The player counted first among those that appear most often.
proof fn lemma_leader(s: Seq<Seq<char>>, b: int)
    requires
        0 <= b < first_seen(s).len(),
        forall|m: int|
            0 <= m < first_seen(s).len() ==> count_in(s, #[trigger] first_seen(s)[m]) <= count_in(
                s,
                first_seen(s)[b],
            ),
        forall|m: int|
            0 <= m < b ==> count_in(s, #[trigger] first_seen(s)[m]) < count_in(s, first_seen(s)[b]),
    ensures
        is_most_active(s, first_seen(s)[b]),
{
    let f = first_seen(s);
    let w = f[b];
    assert(f.contains(w));
    lemma_first_seen_contains(s, w);
    assert forall|j: int| 0 <= j < s.len() implies count_in(s, #[trigger] s[j]) <= count_in(s, w) by {
        assert(s.contains(s[j]));
        lemma_first_seen_contains(s, s[j]);
        let m = choose|m: int| 0 <= m < f.len() && f[m] == s[j];
        assert(count_in(s, f[m]) <= count_in(s, w));
    }
    assert forall|j: int| 0 <= j < s.len() && !s.take(j + 1).contains(w) implies count_in(
        s,
        #[trigger] s[j],
    ) < count_in(s, w) by {
        let p = s.take(j + 1);
        lemma_first_seen_prefix(s, j + 1);
        assert(p[j] == s[j]);
        assert(p.contains(s[j]));
        lemma_first_seen_contains(p, s[j]);
        lemma_first_seen_contains(p, w);
        let fp = first_seen(p);
        let m = choose|m: int| 0 <= m < fp.len() && fp[m] == s[j];
        assert(f[m] == s[j]);
        if b < fp.len() {
            assert(fp[b] == w);
            assert(fp.contains(w));
        }
        assert(m < b);
    }
}

/// The most active player of the appearances `s`, from their tally.
fn leader(t: &Tally, Ghost(s): Ghost<Seq<Seq<char>>>) -> (r: Option<String>)
    requires
        t@ == tally_of(s),
    ensures
        match r {
            None => s.len() == 0,
            Some(w) => is_most_active(s, w@),
        },
{
    let n = t.len();
    if n == 0 {
        proof {
            if s.len() > 0 {
                assert(s.contains(s[0]));
                lemma_first_seen_contains(s, s[0]);
            }
        }
        return None;
    }
    let mut best: usize = 0;
    let (_, first_count) = t.entry(0);
    let mut best_count: u64 = first_count;
    let mut i: usize = 1;
    while i < n
        invariant
            1 <= i <= n,
            n == t@.len(),
            t@ == tally_of(s),
            best < i,
            best_count == t@[best as int].1,
            forall|m: int| 0 <= m < i ==> (#[trigger] t@[m]).1 <= best_count,
            forall|m: int| 0 <= m < best ==> (#[trigger] t@[m]).1 < best_count,
        decreases n - i,
    {
        let (_, c) = t.entry(i);
        if c > best_count {
            best = i;
            best_count = c;
        }
        i = i + 1;
    }
    let (k, _) = t.entry(best);
    let w = k.to_owned();
    proof {
        let f = first_seen(s);
        assert forall|m: int| 0 <= m < f.len() implies count_in(s, #[trigger] f[m]) <= count_in(
            s,
            f[best as int],
        ) by {
            assert(t@[m].1 <= best_count);
        }
        assert forall|m: int| 0 <= m < best implies count_in(s, #[trigger] f[m]) < count_in(
            s,
            f[best as int],
        ) by {
            assert(t@[m].1 < best_count);
        }
        lemma_leader(s, best as int);
    }
    Some(w)
}

/// Counts the category of each item after the keys `before`.
fn count_kinds(by_type: &mut Tally, items: &Vec<Tradeable>, Ghost(before): Ghost<Seq<Seq<char>>>)
    requires
        old(by_type)@ == tally_of(before),
        (before + item_kinds(items_view(items@))).len() <= u64::MAX,
    ensures
        final(by_type)@ == tally_of(before + item_kinds(items_view(items@))),
{
    let ghost gv = items_view(items@);
    proof {
        assert(item_kinds(gv.take(0)) =~= Seq::<Seq<char>>::empty());
        assert(before + item_kinds(gv.take(0)) =~= before);
    }
    let mut j: usize = 0;
    while j < items.len()
        invariant
            j <= items.len(),
            gv == items_view(items@),
            (before + item_kinds(gv)).len() <= u64::MAX,
            by_type@ == tally_of(before + item_kinds(gv.take(j as int))),
        decreases items.len() - j,
    {
        let key = kind_text(&items[j]);
        proof {
            let p = before + item_kinds(gv.take(j as int));
            assert(item_kinds(gv.take(j + 1)) =~= item_kinds(gv.take(j as int)).push(key@));
            assert(before + item_kinds(gv.take(j + 1)) =~= p.push(key@));
            lemma_tally_step(p, key@);
        }
        by_type.bump(key);
        j = j + 1;
    }
    proof {
        assert(gv.take(j as int) =~= gv);
    }
}

/// One more trade of a history: what it adds to the category keys and to the players.
proof fn lemma_history_step(h: Seq<CompletedView>, i: int)
    requires
        0 <= i < h.len(),
    ensures
        kinds(h.take(i + 1)) == kinds(h.take(i)) + item_kinds(h[i].offer.give),
        kinds(h.take(i + 1)).len() <= kinds(h).len(),
        participants(h.take(i + 1)) == participants(h.take(i)).push(h[i].offer.from).push(
            h[i].offer.to,
        ),
        participants(h.take(i + 1)).len() <= participants(h).len(),
{
    assert(h.take(i + 1).drop_last() =~= h.take(i));
    assert(participants(h.take(i)) + seq![h[i].offer.from, h[i].offer.to] =~= participants(
        h.take(i),
    ).push(h[i].offer.from).push(h[i].offer.to));
    lemma_kinds_prefix_len(h, i + 1);
    lemma_participants_len(h.take(i + 1));
    lemma_participants_len(h);
}

/// Counts the giver and the receiver of a trade after the players `before`.
fn count_players(players: &mut Tally, ct: &CompletedTrade, Ghost(before): Ghost<Seq<Seq<char>>>)
    requires
        old(players)@ == tally_of(before),
        before.len() + 2 <= u64::MAX,
    ensures
        final(players)@ == tally_of(before.push(ct.offer.from@).push(ct.offer.to@)),
{
    proof {
        lemma_tally_step(before, ct.offer.from@);
        lemma_tally_step(before.push(ct.offer.from@), ct.offer.to@);
    }
    players.bump(ct.offer.from.clone());
    players.bump(ct.offer.to.clone());
}

impl TradeStats {
    /// Build statistics from a slice of completed trades.
    ///
    /// `by_type` counts the items given in each trade by category, and
    /// `most_active` is the player who took part in most trades, the one seen
    /// first among equals. Every count must fit in `u64`.
    pub fn from_history(history: &[CompletedTrade]) -> (r: TradeStats)
        requires
            kinds(history_view(history@)).len() <= u64::MAX,
            participants(history_view(history@)).len() <= u64::MAX,
        ensures
            r.total_trades == history@.len(),
            r.by_type@ == tally_of(kinds(history_view(history@))),
            r.by_type.wf(),
            match r.most_active {
                None => history@.len() == 0,
                Some(w) => is_most_active(participants(history_view(history@)), w@),
            },
    {
        let ghost hv = history_view(history@);
        let total_trades = history.len() as u64;
        let mut by_type = Tally::new();
        let mut players = Tally::new();
        let mut i: usize = 0;
        proof {
            assert(hv.take(0) =~= Seq::<CompletedView>::empty());
        }
        while i < history.len()
            invariant
                i <= history.len(),
                hv == history_view(history@),
                kinds(hv).len() <= u64::MAX,
                participants(hv).len() <= u64::MAX,
                by_type@ == tally_of(kinds(hv.take(i as int))),
                players@ == tally_of(participants(hv.take(i as int))),
            decreases history.len() - i,
        {
            let ct = &history[i];
            proof {
                lemma_history_step(hv, i as int);
                assert(hv[i as int] == ct@);
            }
            count_kinds(&mut by_type, &ct.offer.give, Ghost(kinds(hv.take(i as int))));
            count_players(&mut players, ct, Ghost(participants(hv.take(i as int))));
            i = i + 1;
        }
        proof {
            assert(hv.take(i as int) =~= hv);
            lemma_tally_distinct(kinds(hv));
        }
        let most_active = leader(&players, Ghost(participants(hv)));
        TradeStats { total_trades, by_type, most_active }
    }
}

} // verus!
