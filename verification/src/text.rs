//! The texts the market writes: decimal numbers, identifiers and error messages.
use vstd::prelude::*;

use crate::offer::TradeStatus;

verus! {

/// The character of a decimal digit.
pub open spec fn digit_char(d: nat) -> char {
    if d == 0 {
        '0'
    } else if d == 1 {
        '1'
    } else if d == 2 {
        '2'
    } else if d == 3 {
        '3'
    } else if d == 4 {
        '4'
    } else if d == 5 {
        '5'
    } else if d == 6 {
        '6'
    } else if d == 7 {
        '7'
    } else if d == 8 {
        '8'
    } else {
        '9'
    }
}

/// The decimal notation of a natural number, without leading zeros.
pub open spec fn decimal(n: nat) -> Seq<char>
    decreases n,
{
    if n < 10 {
        seq![digit_char(n)]
    } else {
        decimal(n / 10).push(digit_char(n % 10))
    }
}

/// The identifier of the `n`-th offer: `offer-n`.
pub open spec fn offer_id(n: nat) -> Seq<char> {
    "offer-"@ + decimal(n)
}

/// The identifier of the `n`-th gift: `gift-n`.
pub open spec fn gift_id(n: nat) -> Seq<char> {
    "gift-"@ + decimal(n)
}

/// The name of a status, as `{:?}` writes it.
pub open spec fn status_name(s: TradeStatus) -> Seq<char> {
    match s {
        TradeStatus::Pending => "Pending"@,
        TradeStatus::Accepted => "Accepted"@,
        TradeStatus::Rejected => "Rejected"@,
        TradeStatus::Expired => "Expired"@,
    }
}

/// The error for an offer that is not in the market.
pub open spec fn not_found_message(id: Seq<char>) -> Seq<char> {
    "Offer "@ + id + " not found"@
}

/// The error for an offer that is no longer pending.
pub open spec fn not_pending_message(id: Seq<char>, s: TradeStatus) -> Seq<char> {
    "Offer "@ + id + " is not pending (status: "@ + status_name(s) + ")"@
}

/// Every decimal notation has a digit; from ten on, at least two.
pub proof fn lemma_decimal_len(n: nat)
    ensures
        decimal(n).len() >= 1,
        n >= 10 ==> decimal(n).len() >= 2,
    decreases n,
{
    if n >= 10 {
        lemma_decimal_len(n / 10);
    }
}

/// Distinct numbers have distinct decimal notations.
pub proof fn lemma_decimal_injective(a: nat, b: nat)
    requires
        decimal(a) == decimal(b),
    ensures
        a == b,
    decreases a,
{
    lemma_decimal_len(a);
    lemma_decimal_len(b);
    if a < 10 && b < 10 {
        assert(decimal(a)[0] == digit_char(a));
        assert(decimal(b)[0] == digit_char(b));
    } else if a >= 10 && b >= 10 {
        assert(decimal(a).last() == digit_char(a % 10));
        assert(decimal(b).last() == digit_char(b % 10));
        assert(decimal(a).drop_last() =~= decimal(a / 10));
        assert(decimal(b).drop_last() =~= decimal(b / 10));
        lemma_decimal_injective(a / 10, b / 10);
    }
}

/// Identifiers name their number: two offers, two gifts, or an offer and a
/// gift share an identifier only when they are the same kind with the same number.
pub proof fn lemma_ids_distinct(a: nat, b: nat)
    ensures
        offer_id(a) == offer_id(b) ==> a == b,
        gift_id(a) == gift_id(b) ==> a == b,
        offer_id(a) != gift_id(b),
{
    reveal_strlit("offer-");
    reveal_strlit("gift-");
    if offer_id(a) == offer_id(b) {
        assert(offer_id(a).skip(6) =~= decimal(a));
        assert(offer_id(b).skip(6) =~= decimal(b));
        lemma_decimal_injective(a, b);
    }
    if gift_id(a) == gift_id(b) {
        assert(gift_id(a).skip(5) =~= decimal(a));
        assert(gift_id(b).skip(5) =~= decimal(b));
        lemma_decimal_injective(a, b);
    }
    assert(offer_id(a)[0] == 'o');
    assert(gift_id(b)[0] == 'g');
}

/// The code of the character `'0'`.
pub open spec fn zero_code() -> int {
    '0' as int
}

/// The character is one of the ten decimal digits `'0'` to `'9'`.
pub open spec fn is_digit_char(c: char) -> bool {
    zero_code() <= c as int <= zero_code() + 9
}

/// The number that a numeral of decimal digits denotes, the last digit the ones.
pub open spec fn numeral_value(s: Seq<char>) -> int
    decreases s.len(),
{
    if s.len() == 0 {
        0
    } else {
        numeral_value(s.drop_last()) * 10 + (s.last() as int - zero_code())
    }
}

/// The digit of `d` is the character `d` places after `'0'`.
proof fn lemma_digit_char_code(d: nat)
    requires
        d < 10,
    ensures
        digit_char(d) as int == zero_code() + d,
{
}

/// `decimal(n)` is the usual base-ten numeral of `n`: decimal digits only,
/// no leading zero unless `n` is zero, and its value is `n`.
pub proof fn law_decimal_is_numeral(n: nat)
    ensures
        decimal(n).len() > 0,
        forall|i: int| 0 <= i < decimal(n).len() ==> is_digit_char(#[trigger] decimal(n)[i]),
        numeral_value(decimal(n)) == n,
        decimal(n)[0] == '0' ==> n == 0,
    decreases n,
{
    if n < 10 {
        lemma_digit_char_code(n);
        assert(decimal(n).drop_last() =~= Seq::<char>::empty());
        assert(numeral_value(Seq::<char>::empty()) == 0);
        assert(numeral_value(decimal(n)) == n);
    } else {
        law_decimal_is_numeral(n / 10);
        lemma_digit_char_code(n % 10);
        let d = decimal(n / 10);
        assert(decimal(n).drop_last() =~= d);
        assert(decimal(n)[0] == d[0]);
        assert(decimal(n).last() == digit_char(n % 10));
        assert(numeral_value(decimal(n)) == numeral_value(d) * 10 + (n % 10));
        assert(n == (n / 10) * 10 + n % 10);
        assert forall|i: int| 0 <= i < decimal(n).len() implies is_digit_char(
            #[trigger] decimal(n)[i],
        ) by {
            if i < d.len() {
                assert(decimal(n)[i] == d[i]);
            }
        }
        if d[0] == '0' {
            assert(n / 10 == 0);
        }
    }
}

/// The one-character text of a decimal digit.
fn digit_text(d: usize) -> (s: &'static str)
    requires
        d < 10,
    ensures
        s@ == seq![digit_char(d as nat)],
{
    if d == 0 {
        proof {
            reveal_strlit("0");
        }
        "0"
    } else if d == 1 {
        proof {
            reveal_strlit("1");
        }
        "1"
    } else if d == 2 {
        proof {
            reveal_strlit("2");
        }
        "2"
    } else if d == 3 {
        proof {
            reveal_strlit("3");
        }
        "3"
    } else if d == 4 {
        proof {
            reveal_strlit("4");
        }
        "4"
    } else if d == 5 {
        proof {
            reveal_strlit("5");
        }
        "5"
    } else if d == 6 {
        proof {
            reveal_strlit("6");
        }
        "6"
    } else if d == 7 {
        proof {
            reveal_strlit("7");
        }
        "7"
    } else if d == 8 {
        proof {
            reveal_strlit("8");
        }
        "8"
    } else {
        proof {
            reveal_strlit("9");
        }
        "9"
    }
}

/// Writes a number in decimal, as `{}` does.
pub fn decimal_text(n: usize) -> (s: String)
    ensures
        s@ == decimal(n as nat),
    decreases n,
{
    if n < 10 {
        String::from_str(digit_text(n))
    } else {
        let mut s = decimal_text(n / 10);
        s.append(digit_text(n % 10));
        s
    }
}

/// The identifier `offer-n`.
pub fn offer_id_text(n: usize) -> (s: String)
    ensures
        s@ == offer_id(n as nat),
{
    let mut s = String::from_str("offer-");
    let d = decimal_text(n);
    s.append(d.as_str());
    s
}

/// The identifier `gift-n`.
pub fn gift_id_text(n: usize) -> (s: String)
    ensures
        s@ == gift_id(n as nat),
{
    let mut s = String::from_str("gift-");
    let d = decimal_text(n);
    s.append(d.as_str());
    s
}

/// The name of a status, as `{:?}` writes it.
fn status_text(s: TradeStatus) -> (r: &'static str)
    ensures
        r@ == status_name(s),
{
    match s {
        TradeStatus::Pending => "Pending",
        TradeStatus::Accepted => "Accepted",
        TradeStatus::Rejected => "Rejected",
        TradeStatus::Expired => "Expired",
    }
}

/// `Offer {id} not found`.
pub fn not_found_text(id: &str) -> (s: String)
    ensures
        s@ == not_found_message(id@),
{
    let mut s = String::from_str("Offer ");
    s.append(id);
    s.append(" not found");
    s
}

/// `Offer {id} is not pending (status: {status:?})`.
pub fn not_pending_text(id: &str, status: TradeStatus) -> (s: String)
    ensures
        s@ == not_pending_message(id@, status),
{
    let mut s = String::from_str("Offer ");
    s.append(id);
    s.append(" is not pending (status: ");
    s.append(status_text(status));
    s.append(")");
    s
}

} // verus!
