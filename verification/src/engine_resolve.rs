//! Rolling the dice and resolving where a player lands: moves, purchases,
//! rent, taxes, cards and jail. A tile reached by a card move does not offer
//! a purchase or take rent: the card only places the token.

use vstd::prelude::*;
use crate::board::{first_ahead, Tile, TileKind};
use crate::cards::{Card, CardEffect};
use crate::deeds::{hotel_weight, house_weight, owned_weight_upto};
use crate::engine::{dice_ok, spec_dice_sum, spec_is_double, EngineView, GameEngine, Phase};
use crate::engine::{lemma_alive_len, lemma_find, lemma_find_same_ids};
use crate::engine_actions::{accepted, refused, Outcome, drift, room, lemma_room_drift, lemma_drift_trans,
    lemma_drift_refl, lemma_change_cash, lemma_with_player, lemma_finish_turn_drift, lemma_advance_turn_drift};
use crate::engine_actions::answers;
use crate::event::{emit, evs, Event, EventView};
use crate::rng::RngSource;
use crate::player::Player;

verus! {

/// The ids among the first `k` of `ids` other than `pid`, in order.
pub open spec fn others_upto(ids: Seq<u128>, pid: u128, k: int) -> Seq<u128>
    decreases k,
{
    if k <= 0 || k > ids.len() {
        Seq::empty()
    } else if ids[k - 1] != pid {
        others_upto(ids, pid, k - 1).push(ids[k - 1])
    } else {
        others_upto(ids, pid, k - 1)
    }
}

/// `x + 1`, saturating at 255.
pub open spec fn sat_inc(x: u8) -> u8 {
    if x == 255 { 255 } else { (x + 1) as u8 }
}

impl EngineView {
    /// The players not bankrupt other than `pid`, in seat order.
    pub open spec fn others(self, pid: u128) -> Seq<u128> {
        others_upto(self.alive(), pid, self.alive().len() as int)
    }

    /// The state with `pid` (when known) standing on `to`.
    pub open spec fn placed(self, pid: u128, to: int) -> EngineView {
        match self.pidx(pid) {
            Some(i) => self.with_player(i, Player { position: to as usize, ..self.players[i] }),
            None => self,
        }
    }

    /// The salary for passing GO, paid when a move from `from` ends on a lower position.
    #[verifier::opaque]
    pub open spec fn passing_go(self, pid: u128, from: int, to: int) -> (EngineView, Seq<EventView>) {
        if to < from {
            let g = self.change_cash(pid, self.settings.go_salary as i64);
            (g.0, g.1.push(EventView::PassedGo { player_id: pid, salary: self.settings.go_salary }))
        } else {
            (self, Seq::empty())
        }
    }

    /// A card moves `pid` to `to`, with the salary when it passes GO.
    #[verifier::opaque]
    pub open spec fn move_player(self, pid: u128, to: int) -> (EngineView, Seq<EventView>) {
        let from = self.position_of(pid);
        let g = self.placed(pid, to).passing_go(pid, from, to);
        (g.0, seq![EventView::PlayerMoved { player_id: pid, from: from as usize, to: to as usize }] + g.1)
    }

    /// A card moves `pid` back to `to`: no salary, as it passes no GO going forward.
    pub open spec fn step_back(self, pid: u128, to: int) -> (EngineView, Seq<EventView>) {
        let from = self.position_of(pid);
        (self.placed(pid, to), seq![EventView::PlayerMoved { player_id: pid, from: from as usize, to: to as usize }])
    }

    /// Rent that `pid` pays on `tile` when another player owns it and it is not
    /// mortgaged (nothing when the rent is 0).
    #[verifier::opaque]
    pub open spec fn rent_due(self, pid: u128, tile: int, dice_sum: int) -> (EngineView, Seq<EventView>) {
        let i = self.deeds.idx(tile);
        match self.deeds.owner[i] {
            Some(o) => if o != pid && !self.deeds.mortgaged[i] {
                let rent = self.deeds.spec_rent(self.board, tile, dice_sum);
                if rent > 0 {
                    let p = self.pay_to(pid, Some(o), rent as u32);
                    (p.0, p.1.push(EventView::RentPaid { from: pid, to: o, amount: rent as u32, tile_id: tile as usize }))
                } else {
                    (self, Seq::empty())
                }
            } else {
                (self, Seq::empty())
            },
            None => (self, Seq::empty()),
        }
    }

    /// The first `k` of `others` each pay `amt` to `pid`.
    #[verifier::opaque]
    pub open spec fn collect_from(self, pid: u128, others: Seq<u128>, amt: u32, k: int) -> (EngineView, Seq<EventView>)
        decreases k,
    {
        if k <= 0 || k > others.len() {
            (self, Seq::empty())
        } else {
            let a = self.collect_from(pid, others, amt, k - 1);
            let b = a.0.pay_to(others[k - 1], Some(pid), amt);
            (b.0, a.1 + b.1)
        }
    }

    /// `pid` pays `amt` to each of the first `k` of `others`.
    #[verifier::opaque]
    pub open spec fn pay_each(self, pid: u128, others: Seq<u128>, amt: u32, k: int) -> (EngineView, Seq<EventView>)
        decreases k,
    {
        if k <= 0 || k > others.len() {
            (self, Seq::empty())
        } else {
            let a = self.pay_each(pid, others, amt, k - 1);
            let b = a.0.pay_to(pid, Some(others[k - 1]), amt);
            (b.0, a.1 + b.1)
        }
    }

    /// Houses (hotels not counted) on the tiles of `pid`.
    pub open spec fn houses_of(self, pid: u128) -> int {
        owned_weight_upto(self.deeds, pid, house_weight(), self.deeds.len() as int)
    }

    /// Hotels on the tiles of `pid`.
    pub open spec fn hotels_of(self, pid: u128) -> int {
        owned_weight_upto(self.deeds, pid, hotel_weight(), self.deeds.len() as int)
    }

    /// The effect of `card` drawn by `pid`, then the note that it was applied.
    #[verifier::opaque]
    pub open spec fn apply_card(self, pid: u128, card: Card) -> (EngineView, Seq<EventView>) {
        let r = match card.effect {
            CardEffect::Collect(a) => self.change_cash(pid, a as i64),
            CardEffect::Pay(a) => self.pay_to(pid, None, a),
            CardEffect::CollectFromEach(a) => self.collect_from(pid, self.others(pid), a, self.others(pid).len() as int),
            CardEffect::PayEach(a) => self.pay_each(pid, self.others(pid), a, self.others(pid).len() as int),
            CardEffect::MoveTo(p) => self.move_player(pid, p as int),
            CardEffect::MoveBy(d) => {
                let to = (self.position_of(pid) + d) % (self.board.len() as int);
                if d < 0 && to != 0 { self.step_back(pid, to) } else { self.move_player(pid, to) }
            },
            CardEffect::GoToJail => self.send_to_jail(pid),
            CardEffect::GetOutOfJail => match self.pidx(pid) {
                Some(i) => (self.with_player(i, Player {
                    out_of_jail_cards: sat_inc(self.players[i].out_of_jail_cards), ..self.players[i] }), Seq::empty()),
                None => (self, Seq::empty()),
            },
            CardEffect::HouseRepair { per_house, per_hotel } => {
                let amt = self.houses_of(pid) * per_house + self.hotels_of(pid) * per_hotel;
                self.pay_to(pid, None, amt as u32)
            },
            CardEffect::NearestRailroad => self.move_player(pid, first_ahead(self.board, self.position_of(pid), TileKind::Railroad)),
            CardEffect::NearestUtility => self.move_player(pid, first_ahead(self.board, self.position_of(pid), TileKind::Utility)),
        };
        (r.0, r.1.push(EventView::CardApplied { player_id: pid, text: card.text@ }))
    }

    /// Tax due on tile `t`: its amount, or for income tax the higher of the
    /// amount and a tenth of the payer's net worth (taken as 0 when negative).
    pub open spec fn tax_due(self, pid: u128, t: Tile) -> u32 {
        if t.income_tax {
            let assets = if self.net_worth(pid) > 0 { self.net_worth(pid) } else { 0 };
            let ten = (assets / 10) as u32;
            if t.tax >= ten { t.tax } else { ten }
        } else {
            t.tax
        }
    }

    /// What landing on its tile does to `pid`: a purchase decision on an
    /// unowned tile for sale, rent on another's, tax, a card, or jail.
    #[verifier::opaque]
    pub open spec fn land(self, pid: u128, dice_sum: int) -> (EngineView, Seq<EventView>) {
        let pos = self.position_of(pid);
        let t = self.board[pos % (self.board.len() as int)];
        match t.kind {
            TileKind::GoToJail => self.send_to_jail(pid),
            TileKind::Tax => {
                let amount = self.tax_due(pid, t);
                let p = self.pay_to(pid, None, amount);
                (p.0, p.1.push(EventView::TaxPaid { player_id: pid, amount, tile_id: pos as usize }))
            },
            TileKind::Chance => if self.chance.order.len() == 0 {
                (self, Seq::empty())
            } else {
                let c = self.chance.next_card();
                let a = EngineView { chance: self.chance.after_draw(), ..self }.apply_card(pid, c);
                (a.0, seq![EventView::CardDrawn { player_id: pid, card_text: c.text@ }] + a.1)
            },
            TileKind::Fate => if self.fate.order.len() == 0 {
                (self, Seq::empty())
            } else {
                let c = self.fate.next_card();
                let a = EngineView { fate: self.fate.after_draw(), ..self }.apply_card(pid, c);
                (a.0, seq![EventView::CardDrawn { player_id: pid, card_text: c.text@ }] + a.1)
            },
            TileKind::Property | TileKind::Railroad | TileKind::Utility => if t.price == 0 {
                (self, Seq::empty())
            } else if self.deeds.owner[self.deeds.idx(pos)] is None {
                (EngineView { phase: Phase::AwaitDecision, ..self }, Seq::empty())
            } else {
                self.rent_due(pid, pos, dice_sum)
            },
            _ => (self, Seq::empty()),
        }
    }

    /// After a dice move from `from` to `to`: the salary past GO, the landing
    /// on `to` resolved with the dice sum `sum`, then the end of the action.
    #[verifier::opaque]
    pub open spec fn walk_on(self, pid: u128, from: int, to: int, sum: int) -> (EngineView, Seq<EventView>) {
        let g = self.passing_go(pid, from, to);
        let l = g.0.land(pid, sum);
        let f = l.0.finish_turn();
        (f.0, g.1 + seq![EventView::LandedOn { player_id: pid, tile_id: to as usize }] + l.1 + f.1)
    }

    /// A free player rolls `dice`: a third double in a row sends it to jail and
    /// ends the turn; otherwise it moves by the sum (with the salary past GO),
    /// the landing is resolved, and a double lets it roll again.
    #[verifier::opaque]
    pub open spec fn roll_free(self, pid: u128, dice: Seq<u8>) -> (EngineView, Seq<EventView>) {
        let sum = spec_dice_sum(dice);
        let double = spec_is_double(dice);
        let from = self.position_of(pid);
        let dc = if double { sat_inc(self.doubles_count) } else { 0u8 };
        let s1 = EngineView { dice, doubles_count: dc, ..self };
        if double && dc >= 3 {
            let e = seq![
                EventView::DiceRolled { player_id: pid, dice, doubles: true, doubles_count: dc, new_position: from as usize },
                EventView::Message { text: "连续三次对子，直接入狱"@ }];
            let j = s1.send_to_jail(pid);
            let a = j.0.advance_turn();
            (a.0, e + j.1 + a.1)
        } else {
            let to = (from + sum) % (self.board.len() as int);
            let s2 = EngineView { pending_doubles: double, ..s1.placed(pid, to) };
            let e1 = seq![
                EventView::DiceRolled { player_id: pid, dice, doubles: double, doubles_count: dc, new_position: to as usize },
                EventView::PlayerMoved { player_id: pid, from: from as usize, to: to as usize }];
            let w = s2.walk_on(pid, from, to, sum);
            (w.0, e1 + w.1)
        }
    }

    /// A jailed player rolls `dice`: a double frees it and it moves by the sum;
    /// otherwise the turn in jail counts, and on the third it pays the bail and is
    /// freed unless that bankrupts it.
    #[verifier::opaque]
    pub open spec fn roll_in_jail(self, pid: u128, dice: Seq<u8>) -> (EngineView, Seq<EventView>) {
        let double = spec_is_double(dice);
        let from = self.position_of(pid);
        let s1 = EngineView { dice, ..self };
        let e1 = seq![EventView::DiceRolled { player_id: pid, dice, doubles: double, doubles_count: 0, new_position: from as usize }];
        if double {
            let sum = spec_dice_sum(dice);
            let to = (from + sum) % (self.board.len() as int);
            let s2 = s1.released(pid).placed(pid, to);
            let e2 = e1 + seq![
                EventView::JailReleased { player_id: pid },
                EventView::PlayerMoved { player_id: pid, from: from as usize, to: to as usize }];
            let w = s2.walk_on(pid, from, to, sum);
            (w.0, e2 + w.1)
        } else {
            let w = s1.jail_wait(pid);
            (w.0, e1 + w.1)
        }
    }

    /// A turn in jail without a double: it counts, and on the third `pid`
    /// pays the bail and is freed unless that bankrupts it; then the turn ends.
    #[verifier::opaque]
    pub open spec fn jail_wait(self, pid: u128) -> (EngineView, Seq<EventView>) {
        let i = self.pidx(pid).unwrap();
        let turns = sat_inc(self.players[i].jail_turns);
        let s2 = self.with_player(i, Player { jail_turns: turns, ..self.players[i] });
        if turns >= 3 {
            let r = s2.bail_out(pid);
            let f = r.0.finish_turn();
            (f.0, seq![EventView::Message { text: "已在狱中 3 回合，强制支付保释金 500000 出狱"@ }] + r.1 + f.1)
        } else {
            let f = s2.finish_turn();
            (f.0, seq![EventView::JailTurnSkipped { player_id: pid }] + f.1)
        }
    }

    /// The current player rolls `dice` (refused before the game has players).
    pub open spec fn roll(self, dice: Seq<u8>) -> Outcome {
        match self.current_id() {
            None => refused(self, "尚未开局"@),
            Some(pid) => if self.jailed(pid) {
                accepted(self.roll_in_jail(pid, dice))
            } else {
                accepted(self.roll_free(pid, dice))
            },
        }
    }
}


/// At most `k` ids remain among the first `k`.
pub proof fn lemma_others_len(ids: Seq<u128>, pid: u128, k: int)
    requires
        0 <= k <= ids.len(),
    ensures
        others_upto(ids, pid, k).len() <= k,
    decreases k,
{
    if k > 0 {
        lemma_others_len(ids, pid, k - 1);
    }
}

impl GameEngine {
    /// Puts `pid` on `to` (see [`EngineView::placed`]).
    fn place(&mut self, pid: u128, to: usize)
        requires
            old(self)@.wf(),
            to < old(self)@.board.len(),
        ensures
            final(self)@ == old(self)@.placed(pid, to as int),
            final(self)@.wf(),
            drift(old(self)@, final(self)@, 0, 0, 0, 0),
    {
        let ghost s0 = self@;
        proof { lemma_drift_refl(s0); }
        match self.player_index(pid) {
            Some(i) => {
                proof { lemma_with_player(s0, i as int, Player { position: to, ..s0.players[i as int] }); }
                self.players[i].position = to;
                proof { assert(self@ =~= s0.placed(pid, to as int)); }
            },
            None => {},
        }
    }

    /// Pays the salary when a move from `from` to `to` passes GO (see [`EngineView::passing_go`]).
    fn pass_go(&mut self, pid: u128, from: usize, to: usize, events: &mut Vec<Event>)
        requires
            old(self)@.wf(),
            room(old(self)@, 1),
        ensures
            final(self)@ == old(self)@.passing_go(pid, from as int, to as int).0,
            evs(final(events)@) == evs(old(events)@) + old(self)@.passing_go(pid, from as int, to as int).1,
            final(self)@.wf(),
            drift(old(self)@, final(self)@, 0x1_0000_0000, 0, 0, 0),
    {
        let ghost s0 = self@;
        let ghost e0 = evs(events@);
        proof {
            reveal(EngineView::passing_go);
            lemma_drift_refl(s0);
            assert(e0 + Seq::<EventView>::empty() =~= e0);
        }
        if to < from {
            let salary = self.settings.go_salary;
            proof {
                lemma_find(s0.players, pid);
                lemma_change_cash(s0, pid, salary as i64);
            }
            self.change_cash(pid, salary as i64, events);
            emit(events, Event::PassedGo { player_id: pid, salary });
            proof { assert(evs(events@) =~= e0 + s0.passing_go(pid, from as int, to as int).1); }
        }
    }

    /// A card moves `pid` to `to` (see [`EngineView::move_player`]).
    fn move_player(&mut self, pid: u128, to: usize, events: &mut Vec<Event>)
        requires
            old(self)@.wf(),
            room(old(self)@, 1),
            to < old(self)@.board.len(),
        ensures
            final(self)@ == old(self)@.move_player(pid, to as int).0,
            evs(final(events)@) == evs(old(events)@) + old(self)@.move_player(pid, to as int).1,
            final(self)@.wf(),
            drift(old(self)@, final(self)@, 0x1_0000_0000, 0, 0, 0),
    {
        let ghost s0 = self@;
        let ghost e0 = evs(events@);
        proof { reveal(EngineView::move_player); }
        let from = self.player_position(pid);
        self.place(pid, to);
        let ghost s1 = self@;
        proof { lemma_room_drift(s0, s1, 1, 0, 0, 0, 0, 0); }
        emit(events, Event::PlayerMoved { player_id: pid, from, to });
        self.pass_go(pid, from, to, events);
        proof {
            lemma_drift_trans(s0, s1, self@, 0, 0, 0, 0, 0x1_0000_0000, 0, 0, 0);
            assert(evs(events@) =~= e0 + s0.move_player(pid, to as int).1);
        }
    }

    /// Takes the rent due on `tile` (see [`EngineView::rent_due`]).
    fn maybe_pay_rent(&mut self, pid: u128, tile: usize, dice_sum: u32, events: &mut Vec<Event>)
        requires
            old(self)@.wf(),
            old(self)@.players.len() > 0,
            room(old(self)@, 1),
            dice_sum <= 40_000,
        ensures
            final(self)@ == old(self)@.rent_due(pid, tile as int, dice_sum as int).0,
            evs(final(events)@) == evs(old(events)@) + old(self)@.rent_due(pid, tile as int, dice_sum as int).1,
            final(self)@.wf(),
            drift(old(self)@, final(self)@, 0x2_0000_0000, 0, 0, 1),
    {
        let ghost s0 = self@;
        let ghost e0 = evs(events@);
        proof {
            reveal(EngineView::rent_due);
            lemma_drift_refl(s0);
            assert(e0 + Seq::<EventView>::empty() =~= e0);
        }
        match self.deeds.owner(tile) {
            Some(o) => {
                if o != pid && !self.deeds.is_mortgaged(tile) {
                    let rent = self.deeds.rent(&self.board, tile, dice_sum);
                    if rent > 0 {
                        self.pay_to(pid, Some(o), rent, events);
                        emit(events, Event::RentPaid { from: pid, to: o, amount: rent, tile_id: tile });
                        proof { assert(evs(events@) =~= e0 + s0.rent_due(pid, tile as int, dice_sum as int).1); }
                    }
                }
            },
            None => {},
        }
    }

    /// The players not bankrupt other than `pid`, in seat order.
    fn others(&self, pid: u128) -> (r: Vec<u128>)
        requires
            self@.wf(),
        ensures
            r@ == self@.others(pid),
            r@.len() <= 8,
    {
        let alive = self.alive_players();
        proof { lemma_alive_len(self@.players, self@.players.len() as int); }
        let mut r: Vec<u128> = Vec::new();
        let mut i: usize = 0;
        while i < alive.len()
            invariant
                i <= alive@.len(),
                alive@ == self@.alive(),
                r@ == others_upto(alive@, pid, i as int),
            decreases alive@.len() - i,
        {
            if alive[i] != pid {
                r.push(alive[i]);
            }
            i = i + 1;
        }
        proof { lemma_others_len(alive@, pid, alive@.len() as int); }
        r
    }

    /// Each of `others` pays `amt` to `pid` (see [`EngineView::collect_from`]).
    fn collect_from(&mut self, pid: u128, others: &Vec<u128>, amt: u32, events: &mut Vec<Event>)
        requires
            old(self)@.wf(),
            old(self)@.players.len() > 0,
            others@.len() <= 8,
            room(old(self)@, others@.len() as int),
        ensures
            final(self)@ == old(self)@.collect_from(pid, others@, amt, others@.len() as int).0,
            evs(final(events)@) == evs(old(events)@) + old(self)@.collect_from(pid, others@, amt, others@.len() as int).1,
            final(self)@.wf(),
            drift(old(self)@, final(self)@, (others@.len() as int) * 0x2_0000_0000, 0, 0, others@.len() as int),
    {
        let ghost s0 = self@;
        let ghost e0 = evs(events@);
        let ghost n = others@.len() as int;
        proof {
            reveal(EngineView::collect_from);
            lemma_drift_refl(s0);
            assert(e0 + Seq::<EventView>::empty() =~= e0);
        }
        let mut k: usize = 0;
        while k < others.len()
            invariant
                k <= others@.len(),
                n == others@.len(),
                n <= 8,
                room(s0, n),
                self@ == s0.collect_from(pid, others@, amt, k as int).0,
                evs(events@) == e0 + s0.collect_from(pid, others@, amt, k as int).1,
                self@.wf(),
                self@.players.len() > 0,
                drift(s0, self@, k * 0x2_0000_0000, 0, 0, k as int),
            decreases others@.len() - k,
        {
            let ghost s1 = self@;
            let ghost e1 = evs(events@);
            proof { lemma_room_drift(s0, s1, n, k as int, k * 0x2_0000_0000, 0, 0, k as int); }
            self.pay_to(others[k], Some(pid), amt, events);
            proof {
                reveal(EngineView::collect_from);
                lemma_drift_trans(s0, s1, self@, k * 0x2_0000_0000, 0, 0, k as int, 2 * amt, 0, 0, 1);
                assert(evs(events@) =~= e0 + s0.collect_from(pid, others@, amt, k + 1).1);
            }
            k = k + 1;
        }
    }

    /// `pid` pays `amt` to each of `others` (see [`EngineView::pay_each`]).
    fn pay_each(&mut self, pid: u128, others: &Vec<u128>, amt: u32, events: &mut Vec<Event>)
        requires
            old(self)@.wf(),
            old(self)@.players.len() > 0,
            others@.len() <= 8,
            room(old(self)@, others@.len() as int),
        ensures
            final(self)@ == old(self)@.pay_each(pid, others@, amt, others@.len() as int).0,
            evs(final(events)@) == evs(old(events)@) + old(self)@.pay_each(pid, others@, amt, others@.len() as int).1,
            final(self)@.wf(),
            drift(old(self)@, final(self)@, (others@.len() as int) * 0x2_0000_0000, 0, 0, others@.len() as int),
    {
        let ghost s0 = self@;
        let ghost e0 = evs(events@);
        let ghost n = others@.len() as int;
        proof {
            reveal(EngineView::pay_each);
            lemma_drift_refl(s0);
            assert(e0 + Seq::<EventView>::empty() =~= e0);
        }
        let mut k: usize = 0;
        while k < others.len()
            invariant
                k <= others@.len(),
                n == others@.len(),
                n <= 8,
                room(s0, n),
                self@ == s0.pay_each(pid, others@, amt, k as int).0,
                evs(events@) == e0 + s0.pay_each(pid, others@, amt, k as int).1,
                self@.wf(),
                self@.players.len() > 0,
                drift(s0, self@, k * 0x2_0000_0000, 0, 0, k as int),
            decreases others@.len() - k,
        {
            let ghost s1 = self@;
            proof { lemma_room_drift(s0, s1, n, k as int, k * 0x2_0000_0000, 0, 0, k as int); }
            self.pay_to(pid, Some(others[k]), amt, events);
            proof {
                reveal(EngineView::pay_each);
                lemma_drift_trans(s0, s1, self@, k * 0x2_0000_0000, 0, 0, k as int, 2 * amt, 0, 0, 1);
                assert(evs(events@) =~= e0 + s0.pay_each(pid, others@, amt, k + 1).1);
            }
            k = k + 1;
        }
    }
}


/// Sending a player to jail keeps the state consistent and drifts by nothing.
pub proof fn lemma_send_to_jail(s: EngineView, pid: u128)
    requires
        s.wf(),
    ensures
        s.send_to_jail(pid).0.wf(),
        drift(s, s.send_to_jail(pid).0, 0, 0, 0, 0),
{
    lemma_find(s.players, pid);
    crate::board::lemma_jail_index_in_range(s.board);
    lemma_drift_refl(s);
    if let Some(i) = s.pidx(pid) {
        lemma_with_player(s, i, Player {
            position: crate::board::jail_index_in(s.board) as usize,
            in_jail: true,
            jail_turns: 0,
            ..s.players[i]
        });
    }
}

impl GameEngine {
    /// Carries out the effect of `card` (see [`EngineView::apply_card`]).
    #[verifier::rlimit(100)]
    #[verifier::spinoff_prover]
    fn apply_card(&mut self, pid: u128, card: Card, events: &mut Vec<Event>)
        requires
            old(self)@.wf(),
            old(self)@.players.len() > 0,
            room(old(self)@, 8),
            crate::cards::effect_fits(card.effect, old(self)@.board.len() as int),
        ensures
            final(self)@ == old(self)@.apply_card(pid, card).0,
            evs(final(events)@) == evs(old(events)@) + old(self)@.apply_card(pid, card).1,
            final(self)@.wf(),
            drift(old(self)@, final(self)@, 0x10_0000_0000, 1, 0, 8),
    {
        let ghost s0 = self@;
        let ghost e0 = evs(events@);
        proof {
            reveal(EngineView::apply_card);
            lemma_drift_refl(s0);
            lemma_find(s0.players, pid);
            crate::engine_actions::lemma_room_less(s0, 8, 1);
            assert(e0 + Seq::<EventView>::empty() =~= e0);
        }
        match card.effect {
            CardEffect::Collect(amt) => {
                proof { lemma_change_cash(s0, pid, amt as i64); }
                self.change_cash(pid, amt as i64, events);
            },
            CardEffect::Pay(amt) => {
                self.pay_to(pid, None, amt, events);
            },
            CardEffect::CollectFromEach(amt) => {
                let others = self.others(pid);
                proof { crate::engine_actions::lemma_room_less(s0, 8, others@.len() as int); }
                self.collect_from(pid, &others, amt, events);
            },
            CardEffect::PayEach(amt) => {
                let others = self.others(pid);
                proof { crate::engine_actions::lemma_room_less(s0, 8, others@.len() as int); }
                self.pay_each(pid, &others, amt, events);
            },
            CardEffect::MoveTo(p) => {
                self.move_player(pid, p, events);
            },
            CardEffect::MoveBy(delta) => {
                let from = self.player_position(pid);
                let n = self.board.len();
                let big: i64 = from as i64 + delta as i64 + (n as i64) * 1000;
                let to = ((big as u64) % (n as u64)) as usize;
                proof {
                    vstd::arithmetic::div_mod::lemma_mod_multiples_vanish(1000, from + delta, n as int);
                    vstd::arithmetic::div_mod::lemma_mod_pos_bound(big as int, n as int);
                    assert(to == (s0.position_of(pid) + delta) % (s0.board.len() as int));
                }
                if delta < 0 && to != 0 {
                    self.place(pid, to);
                    emit(events, Event::PlayerMoved { player_id: pid, from, to });
                    proof {
                        assert(evs(events@) =~= e0 + s0.step_back(pid, to as int).1);
                    }
                } else {
                    self.move_player(pid, to, events);
                }
            },
            CardEffect::GoToJail => {
                proof { lemma_send_to_jail(s0, pid); }
                self.send_to_jail(pid, events);
            },
            CardEffect::GetOutOfJail => {
                match self.player_index(pid) {
                    Some(i) => {
                        let c = self.players[i].out_of_jail_cards;
                        let c2: u8 = if c == 255 { 255 } else { c + 1 };
                        proof {
                            crate::engine_actions::lemma_cards_update(s0.players, i as int,
                                Player { out_of_jail_cards: c2, ..s0.players[i as int] }, s0.players.len() as int);
                        }
                        self.players[i].out_of_jail_cards = c2;
                        proof { assert(self@ =~= s0.with_player(i as int, Player { out_of_jail_cards: c2, ..s0.players[i as int] })); }
                    },
                    None => {},
                }
            },
            CardEffect::HouseRepair { per_house, per_hotel } => {
                let houses = self.deeds.total_houses(pid);
                let hotels = self.deeds.total_hotels(pid);
                proof {
                    let n = s0.deeds.len() as int;
                    crate::deeds::lemma_owned_weight_bounds(s0.deeds, pid, house_weight(), 4, n);
                    crate::deeds::lemma_owned_weight_bounds(s0.deeds, pid, hotel_weight(), 1, n);
                    assert(houses * per_house <= 320 * 1_000_000) by (nonlinear_arith)
                        requires houses <= 320, per_house <= 1_000_000;
                    assert(hotels * per_hotel <= 80 * 1_000_000) by (nonlinear_arith)
                        requires hotels <= 80, per_hotel <= 1_000_000;
                }
                let amt = houses * per_house + hotels * per_hotel;
                self.pay_to(pid, None, amt, events);
            },
            CardEffect::NearestRailroad => {
                let pos = self.player_position(pid);
                let target = self.board.nearest_railroad(pos);
                proof { crate::board::lemma_first_ahead_range(s0.board, pos as int, TileKind::Railroad); }
                self.move_player(pid, target, events);
            },
            CardEffect::NearestUtility => {
                let pos = self.player_position(pid);
                let target = self.board.nearest_utility(pos);
                proof { crate::board::lemma_first_ahead_range(s0.board, pos as int, TileKind::Utility); }
                self.move_player(pid, target, events);
            },
        }
        let ghost e1 = evs(events@);
        emit(events, Event::CardApplied { player_id: pid, text: card.text });
        proof {
            assert(evs(events@) =~= e0 + s0.apply_card(pid, card).1);
        }
    }

    /// Resolves the tile under `pid` (see [`EngineView::land`]).
    #[verifier::rlimit(40)]
    #[verifier::spinoff_prover]
    fn resolve_landing(&mut self, pid: u128, dice_sum: u32, events: &mut Vec<Event>)
        requires
            old(self)@.wf(),
            old(self)@.players.len() > 0,
            room(old(self)@, 8),
            dice_sum <= 40_000,
        ensures
            final(self)@ == old(self)@.land(pid, dice_sum as int).0,
            evs(final(events)@) == evs(old(events)@) + old(self)@.land(pid, dice_sum as int).1,
            final(self)@.wf(),
            drift(old(self)@, final(self)@, 0x10_0000_0000, 1, 0, 8),
    {
        let ghost s0 = self@;
        let ghost e0 = evs(events@);
        proof {
            reveal(EngineView::land);
            lemma_drift_refl(s0);
            lemma_find(s0.players, pid);
            crate::engine_actions::lemma_room_less(s0, 8, 1);
            assert(e0 + Seq::<EventView>::empty() =~= e0);
        }
        let pos = self.player_position(pid);
        let kind = self.board.tile(pos).kind;
        match kind {
            TileKind::GoToJail => {
                proof { lemma_send_to_jail(s0, pid); }
                self.send_to_jail(pid, events);
            },
            TileKind::Tax => {
                let tile = self.board.tile(pos);
                let amount: u32 = if tile.income_tax {
                    let nw = self.net_worth(pid);
                    let assets: u64 = if nw > 0 { nw as u64 } else { 0 };
                    let ten = (assets / 10) as u32;
                    if tile.tax >= ten { tile.tax } else { ten }
                } else {
                    tile.tax
                };
                self.pay_to(pid, None, amount, events);
                emit(events, Event::TaxPaid { player_id: pid, amount, tile_id: pos });
                proof { assert(evs(events@) =~= e0 + s0.land(pid, dice_sum as int).1); }
            },
            TileKind::Chance => {
                proof { use_type_invariant(&self.chance); }
                match self.chance.draw() {
                    Some(card) => {
                        let ghost s1 = self@;
                        proof {
                            let d = s0.chance;
                            let j = ((d.draw_index as nat) % d.order.len()) as int;
                            vstd::arithmetic::div_mod::lemma_mod_pos_bound(d.draw_index as int, d.order.len() as int);
                            assert(d.order[j] < d.cards.len());
                            assert(crate::cards::effect_fits(d.cards[d.order[j] as int].effect, s0.board.len() as int));
                            vstd::arithmetic::div_mod::lemma_mod_pos_bound(d.draw_index + 1, d.order.len() as int);
                            assert(s1.wf());
                            lemma_drift_refl(s0);
                            lemma_room_drift(s0, s1, 8, 0, 0, 0, 0, 0);
                        }
                        emit(events, Event::CardDrawn { player_id: pid, card_text: card.text.clone() });
                        self.apply_card(pid, card, events);
                        proof {
                            assert(evs(events@) =~= e0 + s0.land(pid, dice_sum as int).1);
                        }
                    },
                    None => {},
                }
            },
            TileKind::Fate => {
                proof { use_type_invariant(&self.fate); }
                match self.fate.draw() {
                    Some(card) => {
                        let ghost s1 = self@;
                        proof {
                            let d = s0.fate;
                            let j = ((d.draw_index as nat) % d.order.len()) as int;
                            vstd::arithmetic::div_mod::lemma_mod_pos_bound(d.draw_index as int, d.order.len() as int);
                            assert(d.order[j] < d.cards.len());
                            assert(crate::cards::effect_fits(d.cards[d.order[j] as int].effect, s0.board.len() as int));
                            vstd::arithmetic::div_mod::lemma_mod_pos_bound(d.draw_index + 1, d.order.len() as int);
                            assert(s1.wf());
                            lemma_drift_refl(s0);
                            lemma_room_drift(s0, s1, 8, 0, 0, 0, 0, 0);
                        }
                        emit(events, Event::CardDrawn { player_id: pid, card_text: card.text.clone() });
                        self.apply_card(pid, card, events);
                        proof {
                            assert(evs(events@) =~= e0 + s0.land(pid, dice_sum as int).1);
                        }
                    },
                    None => {},
                }
            },
            TileKind::Property | TileKind::Railroad | TileKind::Utility => {
                if self.board.tile(pos).price != 0 {
                    match self.deeds.owner(pos) {
                        None => {
                            self.phase = Phase::AwaitDecision;
                        },
                        Some(_) => {
                            self.maybe_pay_rent(pid, pos, dice_sum, events);
                        },
                    }
                }
            },
            _ => {},
        }
    }
}


impl GameEngine {
    /// The rest of a dice move (see [`EngineView::walk_on`]).
    #[verifier::rlimit(40)]
    #[verifier::spinoff_prover]
    fn walk_on(&mut self, pid: u128, from: usize, to: usize, sum: u32, events: &mut Vec<Event>)
        requires
            old(self)@.wf(),
            old(self)@.players.len() > 0,
            room(old(self)@, 9),
            sum <= 40_000,
        ensures
            final(self)@ == old(self)@.walk_on(pid, from as int, to as int, sum as int).0,
            evs(final(events)@) == evs(old(events)@) + old(self)@.walk_on(pid, from as int, to as int, sum as int).1,
            final(self)@.wf(),
            drift(old(self)@, final(self)@, 0x11_0000_0000, 1, 0, 9),
    {
        let ghost s0 = self@;
        let ghost e0 = evs(events@);
        proof {
            reveal(EngineView::walk_on);
            crate::engine_actions::lemma_room_less(s0, 9, 1);
        }
        self.pass_go(pid, from, to, events);
        let ghost s1 = self@;
        proof { lemma_room_drift(s0, s1, 9, 1, 0x1_0000_0000, 0, 0, 0); }
        emit(events, Event::LandedOn { player_id: pid, tile_id: to });
        self.resolve_landing(pid, sum, events);
        let ghost s2 = self@;
        proof {
            lemma_room_drift(s1, s2, 8, 8, 0x10_0000_0000, 1, 0, 8);
            lemma_finish_turn_drift(s2);
        }
        self.finish_turn_if_needed(events);
        proof {
            lemma_drift_trans(s0, s1, s2, 0x1_0000_0000, 0, 0, 0, 0x10_0000_0000, 1, 0, 8);
            lemma_drift_trans(s0, s2, self@, 0x11_0000_0000, 1, 0, 8, 0, 0, 0, 1);
            assert(evs(events@) =~= e0 + s0.walk_on(pid, from as int, to as int, sum as int).1);
        }
    }
}

impl GameEngine {
    /// A free player rolls `dice` (see [`EngineView::roll_free`]).
    #[verifier::rlimit(40)]
    #[verifier::spinoff_prover]
    fn roll_free(&mut self, pid: u128, dice: Vec<u8>, events: &mut Vec<Event>)
        requires
            old(self)@.wf(),
            old(self)@.players.len() > 0,
            room(old(self)@, 10),
            dice_ok(dice@, old(self)@.settings.dice_count as int),
        ensures
            final(self)@ == old(self)@.roll_free(pid, dice@).0,
            evs(final(events)@) == evs(old(events)@) + old(self)@.roll_free(pid, dice@).1,
            final(self)@.wf(),
            drift(old(self)@, final(self)@, 0x20_0000_0000, 1, 0, 10),
    {
        let ghost s0 = self@;
        let ghost e0 = evs(events@);
        proof {
            reveal(EngineView::roll_free);
            lemma_find(s0.players, pid);
        }
        let sum = crate::engine::dice_sum(dice.as_slice());
        let double = crate::engine::is_double(dice.as_slice());
        let from = self.player_position(pid);
        let shown = dice.clone();
        proof { assert(shown@ =~= dice@); }
        self.dice = dice;
        if double {
            self.doubles_count = if self.doubles_count == 255 { 255 } else { self.doubles_count + 1 };
        } else {
            self.doubles_count = 0;
        }
        let ghost s1 = self@;
        proof {
            crate::engine::lemma_dice_sum_bound(shown@, shown@.len() as int);
            lemma_drift_refl(s0);
            lemma_room_drift(s0, s1, 10, 0, 0, 0, 0, 0);
        }
        if double && self.doubles_count >= 3 {
            let dc = self.doubles_count;
            emit(events, Event::DiceRolled { player_id: pid, dice: shown, doubles: true, doubles_count: dc, new_position: from });
            emit(events, Event::Message { text: String::from_str("连续三次对子，直接入狱") });
            proof { lemma_send_to_jail(s1, pid); }
            self.send_to_jail(pid, events);
            let ghost s2 = self@;
            proof {
                lemma_room_drift(s1, s2, 10, 0, 0, 0, 0, 0);
                lemma_advance_turn_drift(s2);
            }
            self.advance_turn(events);
            proof {
                lemma_drift_trans(s1, s2, self@, 0, 0, 0, 0, 0, 0, 0, 1);
                assert(evs(events@) =~= e0 + s0.roll_free(pid, shown@).1);
            }
            return;
        }
        let n = self.board.len();
        let to = (from + sum as usize) % n;
        proof { vstd::arithmetic::div_mod::lemma_mod_pos_bound(from + sum, n as int); }
        self.place(pid, to);
        self.pending_doubles = double;
        let ghost s2 = self@;
        proof { lemma_room_drift(s1, s2, 10, 0, 0, 0, 0, 0); }
        let dc = self.doubles_count;
        emit(events, Event::DiceRolled { player_id: pid, dice: shown, doubles: double, doubles_count: dc, new_position: to });
        emit(events, Event::PlayerMoved { player_id: pid, from, to });
        let ghost e2 = evs(events@);
        self.walk_on(pid, from, to, sum, events);
        proof {
            lemma_drift_trans(s0, s2, self@, 0, 0, 0, 0, 0x11_0000_0000, 1, 0, 9);
            assert(evs(events@) =~= e0 + s0.roll_free(pid, shown@).1);
        }
    }

    /// A jailed player rolls `dice` (see [`EngineView::roll_in_jail`]).
    #[verifier::rlimit(40)]
    #[verifier::spinoff_prover]
    fn roll_in_jail(&mut self, pid: u128, dice: Vec<u8>, events: &mut Vec<Event>)
        requires
            old(self)@.wf(),
            old(self)@.players.len() > 0,
            old(self)@.pidx(pid) is Some,
            room(old(self)@, 10),
            dice_ok(dice@, old(self)@.settings.dice_count as int),
        ensures
            final(self)@ == old(self)@.roll_in_jail(pid, dice@).0,
            evs(final(events)@) == evs(old(events)@) + old(self)@.roll_in_jail(pid, dice@).1,
            final(self)@.wf(),
            drift(old(self)@, final(self)@, 0x20_0000_0000, 1, 0, 10),
    {
        let ghost s0 = self@;
        let ghost e0 = evs(events@);
        proof {
            reveal(EngineView::roll_in_jail);
            lemma_find(s0.players, pid);
        }
        let double = crate::engine::is_double(dice.as_slice());
        let from = self.player_position(pid);
        let shown = dice.clone();
        proof {
            assert(shown@ =~= dice@);
            crate::engine::lemma_dice_sum_bound(shown@, shown@.len() as int);
        }
        let sum = crate::engine::dice_sum(dice.as_slice());
        self.dice = dice;
        let ghost s1 = self@;
        proof {
            lemma_drift_refl(s0);
            lemma_room_drift(s0, s1, 10, 0, 0, 0, 0, 0);
        }
        emit(events, Event::DiceRolled { player_id: pid, dice: shown, doubles: double, doubles_count: 0, new_position: from });
        let i = match self.player_index(pid) { Some(i) => i, None => return };
        if double {
            proof { lemma_with_player(s1, i as int, Player { in_jail: false, jail_turns: 0, ..s1.players[i as int] }); }
            self.players[i].in_jail = false;
            self.players[i].jail_turns = 0;
            proof { assert(self@ =~= s1.released(pid)); }
            emit(events, Event::JailReleased { player_id: pid });
            let n = self.board.len();
            let to = (from + sum as usize) % n;
            proof { vstd::arithmetic::div_mod::lemma_mod_pos_bound(from + sum, n as int); }
            let ghost sr = self@;
            self.place(pid, to);
            let ghost s2 = self@;
            proof {
                lemma_drift_trans(s1, sr, s2, 0, 0, 0, 0, 0, 0, 0, 0);
                lemma_room_drift(s1, s2, 10, 0, 0, 0, 0, 0);
            }
            emit(events, Event::PlayerMoved { player_id: pid, from, to });
            self.walk_on(pid, from, to, sum, events);
            proof {
                lemma_drift_trans(s0, s2, self@, 0, 0, 0, 0, 0x11_0000_0000, 1, 0, 9);
                assert(evs(events@) =~= e0 + s0.roll_in_jail(pid, shown@).1);
            }
        } else {
            self.jail_wait(pid, events);
            proof {
                lemma_drift_trans(s0, s1, self@, 0, 0, 0, 0, 0x10_0000, 0, 0, 2);
                assert(evs(events@) =~= e0 + s0.roll_in_jail(pid, shown@).1);
            }
        }
    }

    /// A turn in jail without a double (see [`EngineView::jail_wait`]).
    #[verifier::rlimit(40)]
    #[verifier::spinoff_prover]
    fn jail_wait(&mut self, pid: u128, events: &mut Vec<Event>)
        requires
            old(self)@.wf(),
            old(self)@.players.len() > 0,
            old(self)@.pidx(pid) is Some,
            room(old(self)@, 10),
        ensures
            final(self)@ == old(self)@.jail_wait(pid).0,
            evs(final(events)@) == evs(old(events)@) + old(self)@.jail_wait(pid).1,
            final(self)@.wf(),
            drift(old(self)@, final(self)@, 0x10_0000, 0, 0, 2),
    {
        let ghost s1 = self@;
        let ghost e0 = evs(events@);
        proof {
            reveal(EngineView::jail_wait);
            lemma_find(s1.players, pid);
        }
        let i = match self.player_index(pid) { Some(i) => i, None => return };
        let t = self.players[i].jail_turns;
        let turns: u8 = if t == 255 { 255 } else { t + 1 };
        proof { lemma_with_player(s1, i as int, Player { jail_turns: turns, ..s1.players[i as int] }); }
        self.players[i].jail_turns = turns;
        let ghost s2 = self@;
        proof {
            assert(s2 =~= s1.with_player(i as int, Player { jail_turns: turns, ..s1.players[i as int] }));
            lemma_room_drift(s1, s2, 10, 0, 0, 0, 0, 0);
            lemma_find_same_ids(s1.players, s2.players, pid);
        }
        if turns >= 3 {
            emit(events, Event::Message { text: String::from_str("已在狱中 3 回合，强制支付保释金 500000 出狱") });
            proof { crate::engine_actions::lemma_room_less(s2, 10, 1); }
            self.bail_out(pid, events);
            let ghost s4 = self@;
            proof {
                lemma_room_drift(s2, s4, 10, 1, 0x10_0000, 0, 0, 1);
                lemma_finish_turn_drift(s4);
            }
            self.finish_turn_if_needed(events);
            proof {
                lemma_drift_trans(s2, s4, self@, 0x10_0000, 0, 0, 1, 0, 0, 0, 1);
                lemma_drift_trans(s1, s2, self@, 0, 0, 0, 0, 0x10_0000, 0, 0, 2);
                assert(evs(events@) =~= e0 + s1.jail_wait(pid).1);
            }
        } else {
            emit(events, Event::JailTurnSkipped { player_id: pid });
            proof { lemma_finish_turn_drift(s2); }
            self.finish_turn_if_needed(events);
            proof {
                lemma_drift_trans(s1, s2, self@, 0, 0, 0, 0, 0, 0, 0, 1);
                assert(evs(events@) =~= e0 + s1.jail_wait(pid).1);
            }
        }
    }

    /// The current player rolls the given dice (see [`EngineView::roll`]).
    pub(crate) fn roll_with(&mut self, dice: Vec<u8>, events: &mut Vec<Event>) -> (r: Result<(), String>)
        requires
            old(self)@.wf(),
            room(old(self)@, 10),
            dice_ok(dice@, old(self)@.settings.dice_count as int),
        ensures
            answers(r, old(self)@.roll(dice@)),
            final(self)@ == old(self)@.roll(dice@).state,
            evs(final(events)@) == evs(old(events)@) + old(self)@.roll(dice@).events,
            final(self)@.wf(),
            drift(old(self)@, final(self)@, 0x20_0000_0000, 1, 0, 10),
    {
        let ghost s0 = self@;
        let ghost e0 = evs(events@);
        proof {
            lemma_drift_refl(s0);
            assert(e0 + Seq::<EventView>::empty() =~= e0);
        }
        let pid = match self.current_player_id() {
            Some(p) => p,
            None => return Err(String::from_str("尚未开局")),
        };
        proof { lemma_find(s0.players, pid); }
        let in_jail = match self.player_index(pid) {
            Some(i) => self.players[i].in_jail,
            None => false,
        };
        if in_jail {
            self.roll_in_jail(pid, dice, events);
        } else {
            self.roll_free(pid, dice, events);
        }
        Ok(())
    }

    /// The current player rolls: dice from `rng`, then [`EngineView::roll`]
    /// with them; refused, before any dice are rolled, when nobody is seated.
    pub(crate) fn do_roll<R: RngSource>(&mut self, rng: &mut R, events: &mut Vec<Event>) -> (r: Result<(), String>)
        requires
            old(self)@.wf(),
            room(old(self)@, 10),
        ensures
            exists|dice: Seq<u8>| dice_ok(dice, old(self)@.settings.dice_count as int)
                && answers(r, old(self)@.roll(dice))
                && final(self)@ == old(self)@.roll(dice).state
                && evs(final(events)@) == evs(old(events)@) + old(self)@.roll(dice).events,
            final(self)@.wf(),
            drift(old(self)@, final(self)@, 0x20_0000_0000, 1, 0, 10),
    {
        let ghost s0 = self@;
        let ghost e0 = evs(events@);
        if self.current_player_id().is_none() {
            proof {
                lemma_drift_refl(s0);
                assert(e0 + Seq::<EventView>::empty() =~= e0);
                let d = Seq::new(s0.settings.dice_count as nat, |i: int| 1u8);
                assert(dice_ok(d, s0.settings.dice_count as int));
            }
            return Err(String::from_str("尚未开局"));
        }
        let dice = crate::engine::roll_dice(self.settings.dice_count, rng);
        let ghost d = dice@;
        let r = self.roll_with(dice, events);
        proof { assert(dice_ok(d, s0.settings.dice_count as int)); }
        r
    }
}

} // verus!
