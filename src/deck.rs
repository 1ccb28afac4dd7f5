//! Cards, suits, ranks, and the draw pile.

use vstd::multiset::Multiset;
use vstd::prelude::*;
use vstd::string::StringExecFns;

verus! {

#[derive(Debug, Copy, Clone, PartialEq, Eq, Structural)]
pub enum Suit {
    Spades,
    Hearts,
    Clubs,
    Diamonds,
}

#[derive(Debug, Copy, Clone, PartialEq, Eq, Structural)]
pub enum Value {
    Ace,
    Two,
    Three,
    Four,
    Five,
    Six,
    Seven,
    Eight,
    Nine,
    Ten,
    Jack,
    Queen,
    King,
}

/// Red suits are Hearts and Diamonds; the other two are black.
pub open spec fn suit_is_red(s: Suit) -> bool {
    s == Suit::Hearts || s == Suit::Diamonds
}

/// The ordinal of a rank, Ace = 1 up to King = 13.
pub open spec fn rank_of(v: Value) -> int {
    match v {
        Value::Ace => 1,
        Value::Two => 2,
        Value::Three => 3,
        Value::Four => 4,
        Value::Five => 5,
        Value::Six => 6,
        Value::Seven => 7,
        Value::Eight => 8,
        Value::Nine => 9,
        Value::Ten => 10,
        Value::Jack => 11,
        Value::Queen => 12,
        Value::King => 13,
    }
}

impl Value {
    /// The ordinal of this rank (Ace = 1 .. King = 13).
    pub fn rank(&self) -> (r: u8)
        ensures
            r as int == rank_of(*self),
    {
        match self {
            Value::Ace => 1,
            Value::Two => 2,
            Value::Three => 3,
            Value::Four => 4,
            Value::Five => 5,
            Value::Six => 6,
            Value::Seven => 7,
            Value::Eight => 8,
            Value::Nine => 9,
            Value::Ten => 10,
            Value::Jack => 11,
            Value::Queen => 12,
            Value::King => 13,
        }
    }
}

#[derive(Debug, Copy, Clone, PartialEq, Eq, Structural)]
pub struct Card {
    pub suit: Suit,
    pub value: Value,
    pub face_up: bool,
}

/// What identifies a card regardless of whether it is face-up.
pub type CardId = (Suit, Value);

impl Card {
    pub open spec fn id(self) -> CardId {
        (self.suit, self.value)
    }

    pub open spec fn revealed(self) -> Card {
        Card { face_up: true, ..self }
    }

    /// `self` may be stacked on `other` in the tableau: both face-up, of
    /// opposite colours, and `self` one rank below `other`.
    pub open spec fn spec_can_move_over(self, other: Card) -> bool {
        &&& self.face_up
        &&& other.face_up
        &&& suit_is_red(self.suit) != suit_is_red(other.suit)
        &&& rank_of(self.value) == rank_of(other.value) - 1
    }

    /// A new card, face-down.
    pub fn new(suit: Suit, value: Value) -> (c: Card)
        ensures
            c == (Card { suit, value, face_up: false }),
    {
        Card { suit, value, face_up: false }
    }

    pub fn is_red(&self) -> (r: bool)
        ensures
            r == suit_is_red(self.suit),
    {
        match self.suit {
            Suit::Hearts | Suit::Diamonds => true,
            _ => false,
        }
    }

    pub fn set_visible(&mut self)
        ensures
            *final(self) == old(self).revealed(),
    {
        self.face_up = true;
    }

    pub fn can_move_over(&self, other: &Card) -> (r: bool)
        ensures
            r == self.spec_can_move_over(*other),
    {
        if !other.face_up || !self.face_up {
            return false;
        }
        if self.is_red() == other.is_red() {
            return false;
        }
        self.value.rank() as u16 + 1 == other.value.rank() as u16
    }

    /// The text of a card: the rank right-aligned in two columns, a space and
    /// the suit glyph; a fixed placeholder while face-down.
    pub fn to_string(&self) -> (r: String)
        ensures
            r@ == card_text(*self),
    {
        if !self.face_up {
            return String::from_str("** *");
        }
        let mut s = String::from_str(rank_label(self.value));
        s.append(" ");
        s.append(suit_glyph(self.suit));
        s
    }
}

pub open spec fn rank_text(v: Value) -> Seq<char> {
    match v {
        Value::Ace => " A"@,
        Value::Two => " 2"@,
        Value::Three => " 3"@,
        Value::Four => " 4"@,
        Value::Five => " 5"@,
        Value::Six => " 6"@,
        Value::Seven => " 7"@,
        Value::Eight => " 8"@,
        Value::Nine => " 9"@,
        Value::Ten => "10"@,
        Value::Jack => " J"@,
        Value::Queen => " Q"@,
        Value::King => " K"@,
    }
}

pub open spec fn suit_text(s: Suit) -> Seq<char> {
    match s {
        Suit::Spades => "♠️"@,
        Suit::Hearts => "♥️"@,
        Suit::Clubs => "♣️"@,
        Suit::Diamonds => "♦️"@,
    }
}

pub open spec fn card_text(c: Card) -> Seq<char> {
    if c.face_up {
        rank_text(c.value) + " "@ + suit_text(c.suit)
    } else {
        "** *"@
    }
}

fn rank_label(v: Value) -> (r: &'static str)
    ensures
        r@ == rank_text(v),
{
    match v {
        Value::Ace => " A",
        Value::Two => " 2",
        Value::Three => " 3",
        Value::Four => " 4",
        Value::Five => " 5",
        Value::Six => " 6",
        Value::Seven => " 7",
        Value::Eight => " 8",
        Value::Nine => " 9",
        Value::Ten => "10",
        Value::Jack => " J",
        Value::Queen => " Q",
        Value::King => " K",
    }
}

fn suit_glyph(s: Suit) -> (r: &'static str)
    ensures
        r@ == suit_text(s),
{
    match s {
        Suit::Spades => "♠️",
        Suit::Hearts => "♥️",
        Suit::Clubs => "♣️",
        Suit::Diamonds => "♦️",
    }
}


/// The multiset of card identities held by a sequence of cards.
pub open spec fn ids(s: Seq<Card>) -> Multiset<CardId>
    decreases s.len(),
{
    if s.len() == 0 {
        Multiset::empty()
    } else {
        ids(s.drop_last()).insert(s.last().id())
    }
}

/// Shows the top card (the last one) of a pile, if there is one.
pub open spec fn reveal_top(s: Seq<Card>) -> Seq<Card> {
    if s.len() == 0 {
        s
    } else {
        s.update(s.len() - 1, s.last().revealed())
    }
}

/// The pile after the top card has moved to the bottom and the new top card
/// has been turned face-up.
pub open spec fn rotated(s: Seq<Card>) -> Seq<Card> {
    reveal_top(seq![s.last()] + s.drop_last())
}

pub open spec fn suit_at(i: int) -> Suit {
    if i == 0 {
        Suit::Spades
    } else if i == 1 {
        Suit::Hearts
    } else if i == 2 {
        Suit::Clubs
    } else {
        Suit::Diamonds
    }
}

pub open spec fn value_at(i: int) -> Value {
    if i == 0 {
        Value::Ace
    } else if i == 1 {
        Value::Two
    } else if i == 2 {
        Value::Three
    } else if i == 3 {
        Value::Four
    } else if i == 4 {
        Value::Five
    } else if i == 5 {
        Value::Six
    } else if i == 6 {
        Value::Seven
    } else if i == 7 {
        Value::Eight
    } else if i == 8 {
        Value::Nine
    } else if i == 9 {
        Value::Ten
    } else if i == 10 {
        Value::Jack
    } else if i == 11 {
        Value::Queen
    } else {
        Value::King
    }
}

pub open spec fn suit_index(s: Suit) -> int {
    match s {
        Suit::Spades => 0,
        Suit::Hearts => 1,
        Suit::Clubs => 2,
        Suit::Diamonds => 3,
    }
}

/// The 52 cards, face-down, suit by suit (Spades, Hearts, Clubs, Diamonds),
/// each suit from Ace to King.
pub open spec fn fresh_deck() -> Seq<Card> {
    Seq::new(52, |k: int| Card { suit: suit_at(k / 13), value: value_at(k % 13), face_up: false })
}

pub proof fn lemma_ids_concat(a: Seq<Card>, b: Seq<Card>)
    ensures
        ids(a + b) =~= ids(a).add(ids(b)),
    decreases b.len(),
{
    if b.len() > 0 {
        assert((a + b).drop_last() =~= a + b.drop_last());
        lemma_ids_concat(a, b.drop_last());
    } else {
        assert(a + b =~= a);
    }
}

pub proof fn lemma_ids_single(c: Card)
    ensures
        ids(seq![c]) =~= Multiset::empty().insert(c.id()),
{
    let e = seq![c].drop_last();
    assert(e =~= Seq::<Card>::empty());
    assert(ids(e) == Multiset::<CardId>::empty());
    assert(ids(seq![c]) == ids(e).insert(seq![c].last().id()));
}

pub proof fn lemma_ids_remove(s: Seq<Card>, i: int)
    requires
        0 <= i < s.len(),
    ensures
        ids(s) =~= ids(s.remove(i)).insert(s[i].id()),
{
    let pre = s.subrange(0, i);
    let post = s.subrange(i + 1, s.len() as int);
    assert(s =~= pre + seq![s[i]] + post);
    assert(s.remove(i) =~= pre + post);
    lemma_ids_concat(pre + seq![s[i]], post);
    lemma_ids_concat(pre, seq![s[i]]);
    lemma_ids_concat(pre, post);
    lemma_ids_single(s[i]);
}

pub proof fn lemma_ids_update(s: Seq<Card>, i: int, c: Card)
    requires
        0 <= i < s.len(),
        c.id() == s[i].id(),
    ensures
        ids(s.update(i, c)) == ids(s),
{
    lemma_ids_remove(s, i);
    lemma_ids_remove(s.update(i, c), i);
    assert(s.update(i, c).remove(i) =~= s.remove(i));
}

pub proof fn lemma_ids_reveal_top(s: Seq<Card>)
    ensures
        ids(reveal_top(s)) == ids(s),
{
    if s.len() > 0 {
        lemma_ids_update(s, s.len() - 1, s.last().revealed());
    }
}

pub proof fn lemma_ids_rotated(s: Seq<Card>)
    requires
        s.len() > 0,
    ensures
        ids(rotated(s)) == ids(s),
{
    let r = seq![s.last()] + s.drop_last();
    lemma_ids_reveal_top(r);
    lemma_ids_concat(seq![s.last()], s.drop_last());
    lemma_ids_single(s.last());
    assert(ids(r) =~= ids(s));
}

/// Two sequences that hold the same cards hold the same identities.
pub proof fn lemma_ids_permutation(s1: Seq<Card>, s2: Seq<Card>)
    requires
        s1.to_multiset() == s2.to_multiset(),
    ensures
        ids(s1) == ids(s2),
    decreases s1.len(),
{
    broadcast use vstd::seq_lib::group_to_multiset_ensures;

    if s1.len() == 0 {
        assert(s2.to_multiset().len() == 0);
        assert(s2 =~= Seq::<Card>::empty());
    } else {
        let x = s1.last();
        assert(s1.to_multiset().count(x) > 0) by {
            assert(s1.contains(x));
        }
        assert(s2.contains(x));
        let i = choose|i: int| 0 <= i < s2.len() && s2[i] == x;
        assert(s1.drop_last() =~= s1.remove(s1.len() - 1));
        assert(s1.remove(s1.len() - 1).to_multiset() =~= s2.remove(i).to_multiset());
        lemma_ids_permutation(s1.drop_last(), s2.remove(i));
        lemma_ids_remove(s2, i);
    }
}

/// In a sequence whose cards all have different identities, each identity
/// it holds is counted once.
pub proof fn lemma_ids_distinct(s: Seq<Card>)
    requires
        forall|i: int, j: int| 0 <= i < j < s.len() ==> s[i].id() != s[j].id(),
    ensures
        forall|id: CardId|
            #[trigger] ids(s).count(id) == if exists|k: int| 0 <= k < s.len() && s[k].id() == id {
                1nat
            } else {
                0nat
            },
    decreases s.len(),
{
    if s.len() > 0 {
        let t = s.drop_last();
        lemma_ids_distinct(t);
        assert forall|id: CardId|
            #[trigger] ids(s).count(id) == if exists|k: int| 0 <= k < s.len() && s[k].id() == id {
                1nat
            } else {
                0nat
            } by {
            assert(ids(s) == ids(t).insert(s.last().id()));
            if id == s.last().id() {
                assert(s[s.len() - 1].id() == id);
                assert(!exists|k: int| 0 <= k < t.len() && t[k].id() == id) by {
                    assert forall|k: int| 0 <= k < t.len() implies t[k].id() != id by {
                        assert(t[k] == s[k]);
                    }
                }
            } else {
                if exists|k: int| 0 <= k < s.len() && s[k].id() == id {
                    let k = choose|k: int| 0 <= k < s.len() && s[k].id() == id;
                    assert(k < t.len());
                    assert(t[k].id() == id);
                } else {
                    assert(!exists|k: int| 0 <= k < t.len() && t[k].id() == id) by {
                        assert forall|k: int| 0 <= k < t.len() implies t[k].id() != id by {
                            assert(t[k] == s[k]);
                        }
                    }
                }
            }
        }
    }
}

/// Every suit-and-rank pair occurs exactly once in a fresh deck, and nothing
/// else occurs in it.
pub proof fn lemma_fresh_deck_complete()
    ensures
        forall|id: CardId| #[trigger] ids(fresh_deck()).count(id) == 1,
{
    let d = fresh_deck();
    assert forall|i: int, j: int| 0 <= i < j < d.len() implies d[i].id() != d[j].id() by {
        assert(0 <= i / 13 < 4 && 0 <= j / 13 < 4) by (nonlinear_arith)
            requires
                0 <= i < j < 52,
        ;
        if d[i].id() == d[j].id() {
            assert(i / 13 == j / 13);
            assert(i % 13 == j % 13);
            assert(i == 13 * (i / 13) + i % 13 && j == 13 * (j / 13) + j % 13) by (nonlinear_arith);
        }
    }
    lemma_ids_distinct(d);
    assert forall|id: CardId| #[trigger] ids(d).count(id) == 1 by {
        let k = 13 * suit_index(id.0) + rank_of(id.1) - 1;
        let si = suit_index(id.0);
        let vi = rank_of(id.1) - 1;
        assert(k / 13 == si && k % 13 == vi) by (nonlinear_arith)
            requires
                k == 13 * si + vi,
                0 <= vi < 13,
        ;
        assert(0 <= k < 52);
        assert(d[k].id() == id);
    }
}

/// Relies on rand's `SliceRandom::shuffle` with the thread-local generator,
/// which only swaps elements: the result holds the same cards.
#[verifier::external_body]
fn shuffle_cards(cards: &mut Vec<Card>)
    ensures
        final(cards)@.to_multiset() == old(cards)@.to_multiset(),
{
    rand::seq::SliceRandom::shuffle(cards.as_mut_slice(), &mut rand::thread_rng());
}

fn suit_from_index(i: usize) -> (s: Suit)
    requires
        i < 4,
    ensures
        s == suit_at(i as int),
{
    if i == 0 {
        Suit::Spades
    } else if i == 1 {
        Suit::Hearts
    } else if i == 2 {
        Suit::Clubs
    } else {
        Suit::Diamonds
    }
}

fn value_from_index(i: usize) -> (v: Value)
    requires
        i < 13,
    ensures
        v == value_at(i as int),
{
    if i == 0 {
        Value::Ace
    } else if i == 1 {
        Value::Two
    } else if i == 2 {
        Value::Three
    } else if i == 3 {
        Value::Four
    } else if i == 4 {
        Value::Five
    } else if i == 5 {
        Value::Six
    } else if i == 6 {
        Value::Seven
    } else if i == 7 {
        Value::Eight
    } else if i == 8 {
        Value::Nine
    } else if i == 9 {
        Value::Ten
    } else if i == 10 {
        Value::Jack
    } else if i == 11 {
        Value::Queen
    } else {
        Value::King
    }
}

/// The draw pile. Its last card is the top.
#[derive(Debug)]
pub struct Deck {
    cards: Vec<Card>,
}

impl View for Deck {
    type V = Seq<Card>;

    closed spec fn view(&self) -> Seq<Card> {
        self.cards@
    }
}

impl Deck {
    /// The 52 cards face-down, in suit-then-rank order.
    pub fn new() -> (d: Deck)
        ensures
            d@ == fresh_deck(),
    {
        let mut cards: Vec<Card> = Vec::new();
        let mut s: usize = 0;
        while s < 4
            invariant
                s <= 4,
                cards@.len() == 13 * s,
                forall|k: int| 0 <= k < cards@.len() ==> #[trigger] cards@[k] == fresh_deck()[k],
            decreases 4 - s,
        {
            let suit = suit_from_index(s);
            let mut v: usize = 0;
            while v < 13
                invariant
                    s < 4,
                    v <= 13,
                    suit == suit_at(s as int),
                    cards@.len() == 13 * s + v,
                    forall|k: int| 0 <= k < cards@.len() ==> #[trigger] cards@[k] == fresh_deck()[k],
                decreases 13 - v,
            {
                let card = Card::new(suit, value_from_index(v));
                proof {
                    let k = 13 * s + v;
                    assert(k / 13 == s && k % 13 == v) by (nonlinear_arith)
                        requires
                            k == 13 * s + v,
                            v < 13,
                    ;
                }
                cards.push(card);
                v = v + 1;
            }
            s = s + 1;
        }
        assert(cards@ =~= fresh_deck());
        Deck { cards }
    }

    /// Puts the cards in a random order.
    pub fn shuffle(&mut self)
        ensures
            final(self)@.to_multiset() == old(self)@.to_multiset(),
    {
        shuffle_cards(&mut self.cards);
    }

    /// Takes the top card off the pile.
    pub fn deal(&mut self) -> (r: Option<Card>)
        ensures
            old(self)@.len() == 0 ==> r.is_none() && final(self)@ == old(self)@,
            old(self)@.len() > 0 ==> r == Some(old(self)@.last()) && final(self)@
                == old(self)@.drop_last(),
    {
        self.cards.pop()
    }

    pub fn len(&self) -> (r: usize)
        ensures
            r == self@.len(),
    {
        self.cards.len()
    }

    pub fn is_empty(&self) -> (r: bool)
        ensures
            r == (self@.len() == 0),
    {
        self.len() == 0
    }

    /// Moves the top card to the bottom and turns the new top card face-up.
    pub fn rotate_cards(&mut self)
        requires
            old(self)@.len() > 0,
        ensures
            final(self)@ == rotated(old(self)@),
    {
        let top = self.cards.pop().unwrap();
        self.cards.insert(0, top);
        let n = self.cards.len();
        self.cards[n - 1].set_visible();
        assert(self.cards@ =~= rotated(old(self)@));
    }

    /// The top card, if any.
    pub fn last(&self) -> (r: Option<&Card>)
        ensures
            self@.len() == 0 ==> r.is_none(),
            self@.len() > 0 ==> r.is_some() && *r.unwrap() == self@.last(),
    {
        self.cards.last()
    }
}

} // verus!
