//! Chance and fate cards: data-driven effects and a cycling, shuffled deck.

use vstd::prelude::*;
use crate::rng::{RngSource, drawn_since, extends};

verus! {

/// What a card does.
#[derive(Debug, Clone, Copy, PartialEq, Eq, Structural)]
pub enum CardEffect {
    /// Collect cash from the bank.
    Collect(u32),
    /// Pay cash to the bank.
    Pay(u32),
    /// Move to an absolute position.
    MoveTo(usize),
    /// Move by a relative number of tiles (may be negative).
    MoveBy(i32),
    /// Go straight to jail.
    GoToJail,
    /// Receive a get-out-of-jail card.
    GetOutOfJail,
    /// Pay for each house and each hotel owned.
    HouseRepair { per_house: u32, per_hotel: u32 },
    /// Move to the nearest railroad ahead.
    NearestRailroad,
    /// Move to the nearest utility ahead.
    NearestUtility,
    /// Every other player pays you.
    CollectFromEach(u32),
    /// You pay every other player.
    PayEach(u32),
}

/// One card.
#[derive(Debug)]
pub struct Card {
    pub id: u32,
    pub text: String,
    pub effect: CardEffect,
}

impl Clone for Card {
    fn clone(&self) -> (r: Self)
        ensures
            r == *self,
    {
        Card { id: self.id, text: self.text.clone(), effect: self.effect }
    }
}

/// A deck: cards, the current shuffled order, and the position of the next draw.
/// Drawing cycles through the order; an exhausted deck starts over.
#[derive(Debug)]
pub struct Deck {
    cards: Vec<Card>,
    order: Vec<usize>,
    draw_index: usize,
}

impl Clone for Deck {
    fn clone(&self) -> (r: Self)
        ensures
            r@ == self@,
    {
        proof { use_type_invariant(self); }
        let mut cards: Vec<Card> = Vec::new();
        let mut i: usize = 0;
        while i < self.cards.len()
            invariant
                i <= self.cards@.len(),
                cards@ == self.cards@.subrange(0, i as int),
            decreases self.cards@.len() - i,
        {
            cards.push(self.cards[i].clone());
            i = i + 1;
            assert(cards@ =~= self.cards@.subrange(0, i as int));
        }
        assert(cards@ =~= self.cards@);
        let order = self.order.clone();
        assert(order@ =~= self.order@);
        Deck { cards, order, draw_index: self.draw_index }
    }
}

/// The abstract state of a deck.
#[verifier::ext_equal]
pub struct DeckView {
    pub cards: Seq<Card>,
    pub order: Seq<usize>,
    pub draw_index: usize,
}

impl View for Deck {
    type V = DeckView;

    closed spec fn view(&self) -> DeckView {
        DeckView { cards: self.cards@, order: self.order@, draw_index: self.draw_index }
    }
}

/// An effect that a board of `n` tiles can carry out: a target on the board,
/// a short relative move, bounded repair prices.
pub open spec fn effect_fits(e: CardEffect, n: int) -> bool {
    match e {
        CardEffect::MoveTo(p) => p < n,
        CardEffect::MoveBy(d) => -1000 <= d <= 1000,
        CardEffect::HouseRepair { per_house, per_hotel } => per_house <= 1_000_000 && per_hotel <= 1_000_000,
        _ => true,
    }
}

impl DeckView {
    /// Every card's effect fits a board of `n` tiles.
    pub open spec fn fits(self, n: int) -> bool {
        forall|k: int| 0 <= k < self.cards.len() ==> effect_fits(#[trigger] self.cards[k].effect, n)
    }

    /// The order lists one position per card, each a valid card index.
    pub open spec fn wf(self) -> bool {
        &&& self.order.len() == self.cards.len()
        &&& forall|i: int| 0 <= i < self.order.len() ==> #[trigger] self.order[i] < self.cards.len()
        &&& self.draw_index < usize::MAX
    }

    /// The card that the next draw gives.
    pub open spec fn next_card(self) -> Card {
        self.cards[self.order[((self.draw_index as nat) % self.order.len()) as int] as int]
    }

    /// The deck after one draw.
    pub open spec fn after_draw(self) -> DeckView {
        DeckView { draw_index: (((self.draw_index + 1) as nat) % self.order.len()) as usize, ..self }
    }
}

/// `s` after the swaps that the draws `ds` ask for, in order: a draw with
/// bound `b` and value `j` swaps positions `b - 1` and `j`.
pub open spec fn swapped<T>(s: Seq<T>, ds: Seq<(u32, u32)>) -> Seq<T>
    decreases ds.len(),
{
    if ds.len() == 0 {
        s
    } else {
        let p = swapped(s, ds.drop_last());
        let i = ds.last().0 - 1;
        let j = ds.last().1 as int;
        p.update(i, p[j]).update(j, p[i])
    }
}

/// The draws of a Fisher-Yates shuffle of `n` items: one draw for each of the
/// bounds `n`, `n - 1`, ..., `2` in turn, each value below its bound.
pub open spec fn shuffle_draws(ds: Seq<(u32, u32)>, n: int) -> bool {
    &&& ds.len() == (if n > 1 { n - 1 } else { 0 })
    &&& forall|k: int| 0 <= k < ds.len() ==> (#[trigger] ds[k]).0 == n - k && ds[k].1 < ds[k].0
}

impl Deck {
    /// Every deck keeps its view well formed.
    #[verifier::type_invariant]
    pub open spec fn inv(self) -> bool {
        self@.wf()
    }

    /// A deck in the given order, nothing drawn yet.
    pub fn new(cards: Vec<Card>) -> (d: Self)
        ensures
            d@.cards == cards@,
            d@.order == Seq::new(cards@.len(), |i: int| i as usize),
            d@.draw_index == 0,
    {
        let mut order: Vec<usize> = Vec::new();
        let mut i: usize = 0;
        while i < cards.len()
            invariant
                i <= cards@.len(),
                order@ == Seq::new(i as nat, |k: int| k as usize),
            decreases cards@.len() - i,
        {
            order.push(i);
            i = i + 1;
            assert(order@ =~= Seq::new(i as nat, |k: int| k as usize));
        }
        Deck { cards, order, draw_index: 0 }
    }

    /// Fisher-Yates shuffle of the order: for `i` from the top down to 1 it
    /// draws `j` below `i + 1` and swaps positions `i` and `j`; the next draw
    /// starts from the top.
    pub fn shuffle<R: RngSource>(&mut self, rng: &mut R)
        requires
            old(self)@.order.len() <= u32::MAX,
        ensures
            final(self)@.cards == old(self)@.cards,
            final(self)@.order.to_multiset() == old(self)@.order.to_multiset(),
            final(self)@.order.len() == old(self)@.order.len(),
            final(self)@.draw_index == 0,
            extends(old(rng).draws(), final(rng).draws()),
            shuffle_draws(drawn_since(old(rng).draws(), final(rng).draws()), old(self)@.order.len() as int),
            final(self)@.order == swapped(old(self)@.order, drawn_since(old(rng).draws(), final(rng).draws())),
    {
        proof { use_type_invariant(&*self); }
        let mut order = self.order.clone();
        assert(order@ =~= self.order@);
        let n = order.len();
        let ghost orig = order@;
        let ghost d0 = rng.draws();
        let ghost seg: Seq<(u32, u32)> = Seq::empty();
        let mut i: usize = n;
        while i > 1
            invariant
                i <= n,
                n == order@.len(),
                n <= u32::MAX,
                order@.to_multiset() == orig.to_multiset(),
                forall|k: int| 0 <= k < order@.len() ==> #[trigger] order@[k] < self.cards@.len(),
                rng.draws() == d0 + seg,
                seg.len() == n - i,
                n > 1 ==> i >= 1,
                n <= 1 ==> i == n,
                forall|k: int| 0 <= k < seg.len() ==> (#[trigger] seg[k]).0 == n - k && seg[k].1 < seg[k].0,
                order@ == swapped(orig, seg),
            decreases i,
        {
            i = i - 1;
            let j = rng.next_below((i + 1) as u32) as usize;
            let a = order[i];
            let b = order[j];
            let ghost before = order@;
            order.set(i, b);
            order.set(j, a);
            proof {
                lemma_swap_multiset(before, i as int, j as int);
                assert(order@ =~= before.update(i as int, before[j as int]).update(j as int, before[i as int]));
                let ghost old_seg = seg;
                seg = seg.push(((i + 1) as u32, j as u32));
                assert(seg.drop_last() =~= old_seg);
                assert(rng.draws() =~= d0 + seg);
            }
        }
        proof {
            assert(d0 + seg == rng.draws());
            assert(drawn_since(d0, rng.draws()) =~= seg);
            assert(rng.draws().take(d0.len() as int) =~= d0);
        }
        self.order = order;
        self.draw_index = 0;
    }

    /// Draws the next card; `None` for an empty deck.
    pub fn draw(&mut self) -> (r: Option<Card>)
        ensures
            old(self)@.order.len() == 0 ==> r is None && final(self)@ == old(self)@,
            old(self)@.order.len() > 0 ==> r == Some(old(self)@.next_card())
                && final(self)@ == old(self)@.after_draw(),
    {
        proof { use_type_invariant(&*self); }
        if self.order.len() == 0 {
            return None;
        }
        let idx = self.order[self.draw_index % self.order.len()];
        self.draw_index = (self.draw_index + 1) % self.order.len();
        Some(self.cards[idx].clone())
    }

    /// Cards left before the order starts over.
    pub fn remaining(&self) -> (r: usize)
        ensures
            r == if self@.order.len() == 0 { 0 } else { self@.order.len() - (self@.draw_index as nat) % self@.order.len() },
    {
        let len = self.order.len();
        if len == 0 {
            0
        } else {
            len - (self.draw_index % len)
        }
    }

    pub fn len(&self) -> (r: usize)
        ensures
            r == self@.cards.len(),
    {
        self.cards.len()
    }

    pub fn is_empty(&self) -> (r: bool)
        ensures
            r == (self@.cards.len() == 0),
    {
        self.cards.len() == 0
    }

    /// The current order (for saving a game).
    pub fn order_clone(&self) -> (r: Vec<usize>)
        ensures
            r@ == self@.order,
    {
        let r = self.order.clone();
        assert(r@ =~= self.order@);
        r
    }

    /// The position of the next draw (for saving a game).
    pub fn draw_index(&self) -> (r: usize)
        ensures
            r == self@.draw_index,
    {
        self.draw_index
    }

    /// Restores a saved order and draw position; ignored unless the order has
    /// one entry per card.
    pub fn restore(&mut self, order: &Vec<usize>, draw_index: usize)
        requires
            order@.len() == old(self)@.cards.len() ==>
                (forall|i: int| 0 <= i < order@.len() ==> #[trigger] order@[i] < old(self)@.cards.len())
                && draw_index < usize::MAX,
        ensures
            final(self)@ == if order@.len() == old(self)@.cards.len() {
                DeckView { order: order@, draw_index, ..old(self)@ }
            } else {
                old(self)@
            },
    {
        proof { use_type_invariant(&*self); }
        if order.len() == self.cards.len() {
            let o = order.clone();
            assert(o@ =~= order@);
            self.order = o;
            self.draw_index = draw_index;
        }
    }

    /// The standard chance deck.
    pub fn chance() -> (d: Self)
        ensures
            d@.draw_index == 0,
            d@.cards.len() == 10,
            d@.order == Seq::new(10, |i: int| i as usize),
            forall|i: int| 0 <= i < 10 ==> #[trigger] d@.cards[i].id == i + 1,
            forall|i: int| 0 <= i < 10 ==> (#[trigger] d@.cards[i]).effect == chance_effect(i),
            forall|i: int| 0 <= i < 10 ==> (#[trigger] d@.cards[i]).text@.len() > 0,
    {
        proof {
            reveal_strlit("前进至起点 GO，领取薪水");
            reveal_strlit("退回 3 格");
            reveal_strlit("前往最近的铁路");
            reveal_strlit("银行错误，得 $200");
            reveal_strlit("房屋维修：每栋房 $25，每间旅馆 $100");
            reveal_strlit("立即入狱");
            reveal_strlit("前往最近的公用事业");
            reveal_strlit("获得出狱卡");
            reveal_strlit("每位玩家向你支付 $50");
            reveal_strlit("支付学费 $150");
        }
        let cards = vec![
            card(1, "前进至起点 GO，领取薪水", CardEffect::MoveTo(0)),
            card(2, "退回 3 格", CardEffect::MoveBy(-3)),
            card(3, "前往最近的铁路", CardEffect::NearestRailroad),
            card(4, "银行错误，得 $200", CardEffect::Collect(200)),
            card(5, "房屋维修：每栋房 $25，每间旅馆 $100", CardEffect::HouseRepair { per_house: 25, per_hotel: 100 }),
            card(6, "立即入狱", CardEffect::GoToJail),
            card(7, "前往最近的公用事业", CardEffect::NearestUtility),
            card(8, "获得出狱卡", CardEffect::GetOutOfJail),
            card(9, "每位玩家向你支付 $50", CardEffect::CollectFromEach(50)),
            card(10, "支付学费 $150", CardEffect::Pay(150)),
        ];
        let d = Self::new(cards);
        assert forall|i: int| 0 <= i < 10 implies #[trigger] d@.cards[i].id == i + 1
            && d@.cards[i].effect == chance_effect(i) && d@.cards[i].text@.len() > 0 by {
        }
        d
    }

    /// The standard fate deck.
    pub fn fate() -> (d: Self)
        ensures
            d@.draw_index == 0,
            d@.cards.len() == 10,
            d@.order == Seq::new(10, |i: int| i as usize),
            forall|i: int| 0 <= i < 10 ==> #[trigger] d@.cards[i].id == i + 11,
            forall|i: int| 0 <= i < 10 ==> (#[trigger] d@.cards[i]).effect == fate_effect(i),
            forall|i: int| 0 <= i < 10 ==> (#[trigger] d@.cards[i]).text@.len() > 0,
    {
        proof {
            reveal_strlit("退回起点 GO");
            reveal_strlit("立即入狱");
            reveal_strlit("获得出狱卡");
            reveal_strlit("缴税 $100");
            reveal_strlit("银行付你股息 $50");
            reveal_strlit("每位玩家向你支付 $50");
            reveal_strlit("你向每位玩家支付 $50");
            reveal_strlit("房屋维修：每栋房 $40，每间旅馆 $115");
            reveal_strlit("前进 3 格");
            reveal_strlit("遗产所得 $100");
        }
        let cards = vec![
            card(11, "退回起点 GO", CardEffect::MoveTo(0)),
            card(12, "立即入狱", CardEffect::GoToJail),
            card(13, "获得出狱卡", CardEffect::GetOutOfJail),
            card(14, "缴税 $100", CardEffect::Pay(100)),
            card(15, "银行付你股息 $50", CardEffect::Collect(50)),
            card(16, "每位玩家向你支付 $50", CardEffect::CollectFromEach(50)),
            card(17, "你向每位玩家支付 $50", CardEffect::PayEach(50)),
            card(18, "房屋维修：每栋房 $40，每间旅馆 $115", CardEffect::HouseRepair { per_house: 40, per_hotel: 115 }),
            card(19, "前进 3 格", CardEffect::MoveBy(3)),
            card(20, "遗产所得 $100", CardEffect::Collect(100)),
        ];
        let d = Self::new(cards);
        assert forall|i: int| 0 <= i < 10 implies #[trigger] d@.cards[i].id == i + 11
            && d@.cards[i].effect == fate_effect(i) && d@.cards[i].text@.len() > 0 by {
        }
        d
    }
}

/// The deck after `k` draws.
pub open spec fn after_draws(d: DeckView, k: nat) -> DeckView
    decreases k,
{
    if k == 0 {
        d
    } else {
        after_draws(d, (k - 1) as nat).after_draw()
    }
}

/// The position of the order that the draw `k + j` takes.
pub open spec fn slot(d: DeckView, k: nat, j: int) -> int {
    (d.draw_index + k + j) % (d.order.len() as int)
}

/// Position `t` of the order comes up in the `n` draws from the draw `k` on.
pub open spec fn comes_up(d: DeckView, k: nat, t: int) -> bool {
    exists|j: int| 0 <= j < d.order.len() && #[trigger] slot(d, k, j) == t
}

/// Draws go round the order: after `k` draws the position is the start
/// position plus `k`, taken round the order; the deck never changes its
/// cards or order; the draw `k + n` gives the same card as the draw `k`; and
/// every position of the order comes up exactly once in any `n` draws in a row.
pub proof fn lemma_deck_cycles(d: DeckView, k: nat)
    requires
        0 < d.order.len() <= usize::MAX,
        d.draw_index < d.order.len(),
    ensures
        after_draws(d, k).draw_index == (d.draw_index + k) % (d.order.len() as int),
        after_draws(d, k).cards == d.cards,
        after_draws(d, k).order == d.order,
        after_draws(d, k + d.order.len()).next_card() == after_draws(d, k).next_card(),
        forall|t: int| 0 <= t < d.order.len() ==> #[trigger] comes_up(d, k, t),
{
    let n = d.order.len() as int;
    lemma_deck_position(d, k);
    lemma_deck_period(d, k);
    assert forall|t: int| 0 <= t < n implies #[trigger] comes_up(d, k, t) by {
        let base = (d.draw_index + k) % n;
        vstd::arithmetic::div_mod::lemma_mod_pos_bound(d.draw_index + k, n);
        let j = if t >= base { t - base } else { t - base + n };
        vstd::arithmetic::div_mod::lemma_add_mod_noop(d.draw_index + k, j, n);
        vstd::arithmetic::div_mod::lemma_small_mod(j as nat, n as nat);
        if t >= base {
            vstd::arithmetic::div_mod::lemma_small_mod(t as nat, n as nat);
        } else {
            vstd::arithmetic::div_mod::lemma_mod_add_multiples_vanish(t, n);
            vstd::arithmetic::div_mod::lemma_small_mod(t as nat, n as nat);
        }
        assert((d.draw_index + k + j) % n == t);
        assert(slot(d, k, j) == t);
    }
}

/// After `n` more draws the deck is where it was.
proof fn lemma_deck_period(d: DeckView, k: nat)
    requires
        0 < d.order.len() <= usize::MAX,
        d.draw_index < d.order.len(),
    ensures
        after_draws(d, k + d.order.len()).next_card() == after_draws(d, k).next_card(),
{
    let n = d.order.len();
    lemma_deck_position(d, k);
    lemma_deck_position(d, k + n);
    vstd::arithmetic::div_mod::lemma_mod_add_multiples_vanish(d.draw_index + k, n as int);
}

/// The position after `k` draws, and the unchanged cards and order.
proof fn lemma_deck_position(d: DeckView, k: nat)
    requires
        0 < d.order.len() <= usize::MAX,
        d.draw_index < d.order.len(),
    ensures
        after_draws(d, k).draw_index == (d.draw_index + k) % (d.order.len() as int),
        after_draws(d, k).cards == d.cards,
        after_draws(d, k).order == d.order,
    decreases k,
{
    let n = d.order.len() as int;
    if k > 0 {
        lemma_deck_position(d, (k - 1) as nat);
        let prev = after_draws(d, (k - 1) as nat);
        vstd::arithmetic::div_mod::lemma_add_mod_noop_right(1, d.draw_index + k - 1, n);
        vstd::arithmetic::div_mod::lemma_mod_pos_bound(d.draw_index + k - 1, n);
    } else {
        vstd::arithmetic::div_mod::lemma_small_mod(d.draw_index as nat, n as nat);
    }
}

/// A deck in its first order gives its cards one after another, each once in
/// a round, and after a round starts over.
pub proof fn lemma_fresh_deck_round(d: DeckView, k: nat)
    requires
        d.wf(),
        0 < d.cards.len() <= usize::MAX,
        d.order == Seq::new(d.cards.len(), |i: int| i as usize),
        d.draw_index == 0,
        k <= d.cards.len(),
    ensures
        after_draws(d, k).cards == d.cards,
        after_draws(d, k).order == d.order,
        after_draws(d, k).draw_index == (if k == d.cards.len() { 0 } else { k }),
        k < d.cards.len() ==> after_draws(d, k).next_card() == d.cards[k as int],
    decreases k,
{
    let n = d.cards.len();
    if k > 0 {
        lemma_fresh_deck_round(d, (k - 1) as nat);
        if k < n {
            vstd::arithmetic::div_mod::lemma_small_mod(k, n);
        } else {
            vstd::arithmetic::div_mod::lemma_mod_self_0(n as int);
        }
    }
    if k < n {
        vstd::arithmetic::div_mod::lemma_small_mod(k, n);
        assert(after_draws(d, k).order[k as int] as int == k);
    }
}

/// Effect of the `i`-th card of the chance deck.
pub open spec fn chance_effect(i: int) -> CardEffect {
    if i == 0 { CardEffect::MoveTo(0) }
    else if i == 1 { CardEffect::MoveBy(-3i32) }
    else if i == 2 { CardEffect::NearestRailroad }
    else if i == 3 { CardEffect::Collect(200) }
    else if i == 4 { CardEffect::HouseRepair { per_house: 25, per_hotel: 100 } }
    else if i == 5 { CardEffect::GoToJail }
    else if i == 6 { CardEffect::NearestUtility }
    else if i == 7 { CardEffect::GetOutOfJail }
    else if i == 8 { CardEffect::CollectFromEach(50) }
    else { CardEffect::Pay(150) }
}

/// Effect of the `i`-th card of the fate deck.
pub open spec fn fate_effect(i: int) -> CardEffect {
    if i == 0 { CardEffect::MoveTo(0) }
    else if i == 1 { CardEffect::GoToJail }
    else if i == 2 { CardEffect::GetOutOfJail }
    else if i == 3 { CardEffect::Pay(100) }
    else if i == 4 { CardEffect::Collect(50) }
    else if i == 5 { CardEffect::CollectFromEach(50) }
    else if i == 6 { CardEffect::PayEach(50) }
    else if i == 7 { CardEffect::HouseRepair { per_house: 40, per_hotel: 115 } }
    else if i == 8 { CardEffect::MoveBy(3) }
    else { CardEffect::Collect(100) }
}

/// A card with the given id, text and effect.
pub fn card(id: u32, text: &str, effect: CardEffect) -> (c: Card)
    ensures
        c.id == id,
        c.text@ == text@,
        c.effect == effect,
{
    let c = Card { id, text: text.to_string(), effect };
    proof { vstd::string::to_string_from_display_ensures_for_str(text, c.text); }
    c
}

/// Swapping two elements keeps the multiset of elements.
pub proof fn lemma_swap_multiset<T>(s: Seq<T>, i: int, j: int)
    requires
        0 <= i < s.len(),
        0 <= j < s.len(),
    ensures
        s.update(i, s[j]).update(j, s[i]).to_multiset() == s.to_multiset(),
{
    broadcast use vstd::seq_lib::group_to_multiset_ensures;
    let t = s.update(i, s[j]);
    assert(t.to_multiset() == s.to_multiset().remove(s[i]).insert(s[j]));
    let u = t.update(j, s[i]);
    assert(u.to_multiset() == t.to_multiset().remove(t[j]).insert(s[i]));
    if i == j {
        assert(u =~= s);
    } else {
        assert(t[j] == s[j]);
    }
}

} // verus!
