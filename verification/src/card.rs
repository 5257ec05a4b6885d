use vstd::prelude::*;
use vstd::multiset::Multiset;

verus! {

broadcast use {
    vstd::seq_lib::group_to_multiset_ensures,
    vstd::multiset::group_multiset_axioms,
    vstd::multiset::group_multiset_properties,
};

/// One of the four suits of a standard deck. The suit is cosmetic except for
/// the initial deck filter, which strips the high diamonds.
#[derive(Clone, Copy, PartialEq, Eq, Structural, Debug)]
pub enum Color {
    Heart,
    Spade,
    Diamond,
    Club,
}

/// A card rank. Its numeric strength runs from 2 (Two) to 14 (Ace).
#[derive(Clone, Copy, PartialEq, Eq, Structural, Debug)]
pub enum Rank {
    Two,
    Three,
    Four,
    Five,
    Six,
    Seven,
    Eight,
    Nine,
    Ten,
    Jack,
    Queen,
    King,
    Ace,
}

impl Rank {
    /// The numeric strength of this rank: face value for 2-10, then
    /// Jack = 11, Queen = 12, King = 13, Ace = 14.
    pub open spec fn spec_value(self) -> u32 {
        match self {
            Rank::Two => 2,
            Rank::Three => 3,
            Rank::Four => 4,
            Rank::Five => 5,
            Rank::Six => 6,
            Rank::Seven => 7,
            Rank::Eight => 8,
            Rank::Nine => 9,
            Rank::Ten => 10,
            Rank::Jack => 11,
            Rank::Queen => 12,
            Rank::King => 13,
            Rank::Ace => 14,
        }
    }

    pub fn value(&self) -> (v: u32)
        ensures
            v == self.spec_value(),
    {
        match self {
            Rank::Two => 2,
            Rank::Three => 3,
            Rank::Four => 4,
            Rank::Five => 5,
            Rank::Six => 6,
            Rank::Seven => 7,
            Rank::Eight => 8,
            Rank::Nine => 9,
            Rank::Ten => 10,
            Rank::Jack => 11,
            Rank::Queen => 12,
            Rank::King => 13,
            Rank::Ace => 14,
        }
    }
}

/// Every rank's strength lies between 2 and 14.
pub broadcast proof fn lemma_rank_value_range(r: Rank)
    ensures
        2 <= #[trigger] r.spec_value() <= 14,
{
}

/// A playing card: a suit and a rank. A plain copyable value.
#[derive(Clone, Copy, PartialEq, Eq, Structural, Debug)]
pub struct Card {
    pub color: Color,
    pub rank: Rank,
}

/// The suit dealt at position `i` of a fresh deck (13 consecutive cards per suit).
pub open spec fn color_of(i: int) -> Color {
    if i == 0 {
        Color::Heart
    } else if i == 1 {
        Color::Spade
    } else if i == 2 {
        Color::Diamond
    } else {
        Color::Club
    }
}

/// The rank dealt at position `i` within one suit's run: strength `i + 2`.
pub open spec fn rank_of(i: int) -> Rank {
    if i == 0 {
        Rank::Two
    } else if i == 1 {
        Rank::Three
    } else if i == 2 {
        Rank::Four
    } else if i == 3 {
        Rank::Five
    } else if i == 4 {
        Rank::Six
    } else if i == 5 {
        Rank::Seven
    } else if i == 6 {
        Rank::Eight
    } else if i == 7 {
        Rank::Nine
    } else if i == 8 {
        Rank::Ten
    } else if i == 9 {
        Rank::Jack
    } else if i == 10 {
        Rank::Queen
    } else if i == 11 {
        Rank::King
    } else {
        Rank::Ace
    }
}

fn color_at(i: usize) -> (c: Color)
    requires
        i < 4,
    ensures
        c == color_of(i as int),
{
    if i == 0 {
        Color::Heart
    } else if i == 1 {
        Color::Spade
    } else if i == 2 {
        Color::Diamond
    } else {
        Color::Club
    }
}

fn rank_at(i: usize) -> (r: Rank)
    requires
        i < 13,
    ensures
        r == rank_of(i as int),
{
    if i == 0 {
        Rank::Two
    } else if i == 1 {
        Rank::Three
    } else if i == 2 {
        Rank::Four
    } else if i == 3 {
        Rank::Five
    } else if i == 4 {
        Rank::Six
    } else if i == 5 {
        Rank::Seven
    } else if i == 6 {
        Rank::Eight
    } else if i == 7 {
        Rank::Nine
    } else if i == 8 {
        Rank::Ten
    } else if i == 9 {
        Rank::Jack
    } else if i == 10 {
        Rank::Queen
    } else if i == 11 {
        Rank::King
    } else {
        Rank::Ace
    }
}

impl Card {
    pub fn new(color: Color, rank: Rank) -> (c: Card)
        ensures
            c == (Card { color, rank }),
    {
        Card { color, rank }
    }

    /// A full deck: 52 cards, one per (suit, rank) pair, suit by suit.
    pub open spec fn spec_deck() -> Seq<Card> {
        Seq::new(52, |i: int| Card { color: color_of(i / 13), rank: rank_of(i % 13) })
    }

    pub fn deck() -> (d: Vec<Card>)
        ensures
            d@ == Self::spec_deck(),
    {
        let mut d: Vec<Card> = Vec::new();
        let mut ci: usize = 0;
        while ci < 4
            invariant
                ci <= 4,
                d@.len() == ci * 13,
                d@ == Self::spec_deck().take((ci * 13) as int),
            decreases 4 - ci,
        {
            let mut ri: usize = 0;
            while ri < 13
                invariant
                    ci < 4,
                    ri <= 13,
                    d@.len() == ci * 13 + ri,
                    d@ == Self::spec_deck().take((ci * 13 + ri) as int),
                decreases 13 - ri,
            {
                let card = Card::new(color_at(ci), rank_at(ri));
                proof {
                    let k = ci * 13 + ri;
                    assert((k as int) / 13 == ci as int && (k as int) % 13 == ri as int)
                        by (nonlinear_arith)
                        requires
                            ci < 4,
                            ri < 13,
                            k == ci * 13 + ri,
                    ;
                    assert(Self::spec_deck()[k as int] == card);
                    assert(Self::spec_deck().take(k as int).push(card) =~= Self::spec_deck().take(
                        k + 1,
                    ));
                }
                d.push(card);
                ri += 1;
            }
            ci += 1;
        }
        proof {
            assert(d@ =~= Self::spec_deck());
        }
        d
    }
}

/// The deck-filter rule of this variant: a diamond stronger than 10
/// (Jack, Queen, King or Ace of diamonds) is removed before play.
pub open spec fn is_high_diamond(c: Card) -> bool {
    c.color == Color::Diamond && c.rank.spec_value() > 10
}

pub fn high_diamond(card: &Card) -> (b: bool)
    ensures
        b == is_high_diamond(*card),
{
    matches!(card.color, Color::Diamond) && card.rank.value() > 10
}

/// The position of a suit in a fresh deck; inverse of `color_of`.
pub open spec fn color_index(c: Color) -> int {
    match c {
        Color::Heart => 0,
        Color::Spade => 1,
        Color::Diamond => 2,
        Color::Club => 3,
    }
}

/// The position of a rank within one suit's run; inverse of `rank_of`.
pub open spec fn rank_index(r: Rank) -> int {
    r.spec_value() - 2
}

proof fn lemma_deck_index_bounds(i: int)
    requires
        0 <= i < 52,
    ensures
        0 <= i / 13 < 4,
        0 <= i % 13 < 13,
        i == 13 * (i / 13) + i % 13,
{
    assert(0 <= i / 13 < 4 && 0 <= i % 13 < 13 && i == 13 * (i / 13) + i % 13)
        by (nonlinear_arith)
        requires
            0 <= i < 52,
    ;
}

/// Two distinct positions of a fresh deck hold distinct cards.
proof fn lemma_deck_injective(i: int, j: int)
    requires
        0 <= i < 52,
        0 <= j < 52,
        Card::spec_deck()[i] == Card::spec_deck()[j],
    ensures
        i == j,
{
    lemma_deck_index_bounds(i);
    lemma_deck_index_bounds(j);
    assert(color_of(i / 13) == color_of(j / 13));
    assert(rank_of(i % 13) == rank_of(j % 13));
    assert(i / 13 == j / 13);
    assert(i % 13 == j % 13);
}

/// Every (suit, rank) pair occurs somewhere in a fresh deck.
pub proof fn lemma_deck_contains(c: Card)
    ensures
        Card::spec_deck().contains(c),
{
    let q = color_index(c.color);
    let r = rank_index(c.rank);
    let i = 13 * q + r;
    assert(0 <= q < 4);
    assert(0 <= r < 13);
    assert(0 <= i < 52 && i / 13 == q && i % 13 == r)
        by (nonlinear_arith)
        requires
            0 <= q < 4,
            0 <= r < 13,
            i == 13 * q + r,
    ;
    assert(color_of(i / 13) == c.color);
    assert(rank_of(i % 13) == c.rank);
    assert(Card::spec_deck()[i] == c);
}

/// A fresh deck holds 52 cards, each (suit, rank) pair exactly once.
pub proof fn lemma_deck_counts()
    ensures
        Card::spec_deck().to_multiset().len() == 52,
        forall|c: Card| #[trigger] Card::spec_deck().to_multiset().count(c) == 1,
{
    assert forall|i: int, j: int|
        (0 <= i < Card::spec_deck().len() && 0 <= j < Card::spec_deck().len() && i
            != j) implies Card::spec_deck()[i] != Card::spec_deck()[j] by {
        if Card::spec_deck()[i] == Card::spec_deck()[j] {
            lemma_deck_injective(i, j);
        }
    }
    assert(Card::spec_deck().no_duplicates());
    Card::spec_deck().lemma_multiset_has_no_duplicates();
    assert forall|c: Card| #[trigger] Card::spec_deck().to_multiset().count(c) == 1 by {
        lemma_deck_contains(c);
        assert(Card::spec_deck().to_multiset().contains(c));
    }
    assert(Card::spec_deck().to_multiset().len() == Card::spec_deck().len());
}

/// The cards a session is played with: a fresh deck with its high diamonds
/// stripped.
pub open spec fn starting_cards() -> Multiset<Card> {
    Card::spec_deck().to_multiset().filter(|c: Card| !is_high_diamond(c))
}

/// Stripping the high diamonds from a fresh deck leaves 48 cards, still with
/// no (suit, rank) pair repeated.
pub proof fn lemma_starting_cards()
    ensures
        starting_cards().len() == 48,
        forall|c: Card| #[trigger] starting_cards().count(c) <= 1,
{
    lemma_deck_counts();
    let deck_ms = Card::spec_deck().to_multiset();
    let kept = starting_cards();
    let hj = Card { color: Color::Diamond, rank: Rank::Jack };
    let hq = Card { color: Color::Diamond, rank: Rank::Queen };
    let hk = Card { color: Color::Diamond, rank: Rank::King };
    let ha = Card { color: Color::Diamond, rank: Rank::Ace };
    let removed = Multiset::<Card>::empty().insert(hj).insert(hq).insert(hk).insert(ha);
    assert(removed.len() == 4);
    assert forall|c: Card| deck_ms.count(c) == kept.count(c) + removed.count(c) by {
        if is_high_diamond(c) {
            assert(c == hj || c == hq || c == hk || c == ha);
            assert(removed.count(c) == 1);
        } else {
            assert(removed.count(c) == 0);
        }
    }
    assert(deck_ms =~= kept.add(removed));
    assert(deck_ms.len() == kept.len() + removed.len());
    assert forall|c: Card| #[trigger] kept.count(c) <= 1 by {
        assert(deck_ms.count(c) == 1);
    }
}

/// The law of the initial deal: however the freshly dealt deck is split into
/// the cards the filter kept and the cards it removed, if the kept cards are
/// exactly the ones that are not high diamonds, then 48 cards remain and no
/// (suit, rank) pair occurs twice among them.
pub proof fn lemma_initial_filter(kept: Multiset<Card>, removed: Multiset<Card>)
    requires
        Card::spec_deck().to_multiset() == kept.add(removed),
        forall|c: Card| kept.count(c) > 0 ==> !is_high_diamond(c),
        forall|c: Card| removed.count(c) > 0 ==> is_high_diamond(c),
    ensures
        kept == starting_cards(),
        kept.len() == 48,
        forall|c: Card| #[trigger] kept.count(c) <= 1,
{
    lemma_deck_counts();
    lemma_starting_cards();
    let deck_ms = Card::spec_deck().to_multiset();
    assert forall|c: Card| kept.count(c) == starting_cards().count(c) by {
        assert(deck_ms.count(c) == kept.count(c) + removed.count(c));
        if is_high_diamond(c) {
            assert(kept.count(c) == 0);
        } else {
            assert(removed.count(c) == 0);
            assert(starting_cards().count(c) == deck_ms.count(c));
        }
    }
    assert(kept =~= starting_cards());
}

} // verus!
