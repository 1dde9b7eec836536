//! Laws of single rules, stated by what they do to cash, events and rents:
//! no rent on a mortgaged tile, income tax as the higher of its two measures,
//! railroad rents that double, repair cards charged per house and per hotel,
//! and a payer that cannot pay handing all its cash to its creditor.

use vstd::prelude::*;
use crate::board::TileKind;
use crate::cards::{Card, CardEffect};
use crate::deeds::{count_kind_owned, DeedsView};
use crate::engine::{lemma_find, lemma_find_same_ids, EngineView};
use crate::event::EventView;
use crate::player::Player;
use crate::solvency::{lemma_advance_turn_frame, lemma_bankrupt_assets};
use vstd::arithmetic::power2::pow2;

verus! {

/// Landing on a tile that someone owns but that is mortgaged changes nothing
/// and sends nothing: no rent is taken, whoever the owner.
pub proof fn lemma_no_rent_on_mortgaged(s: EngineView, pid: u128, sum: int)
    requires
        s.deeds.owner[s.deeds.idx(s.position_of(pid))] is Some,
        s.deeds.mortgaged[s.deeds.idx(s.position_of(pid))],
        ({
            let k = s.board[s.position_of(pid) % (s.board.len() as int)].kind;
            k == TileKind::Property || k == TileKind::Railroad || k == TileKind::Utility
        }),
    ensures
        s.land(pid, sum).0 == s,
        s.land(pid, sum).1 == Seq::<EventView>::empty(),
        s.rent_due(pid, s.position_of(pid), sum).0 == s,
        s.rent_due(pid, s.position_of(pid), sum).1 == Seq::<EventView>::empty(),
{
    reveal(EngineView::land);
    reveal(EngineView::rent_due);
}

/// The tenth of the non-negative net worth of `pid`.
pub open spec fn tenth_of_worth(s: EngineView, pid: u128) -> int {
    (if s.net_worth(pid) > 0 { s.net_worth(pid) } else { 0 }) / 10
}

/// Income tax takes the higher of the tile's amount and a tenth of the
/// payer's net worth (taken as 0 when negative): the amount in the tax event
/// is at least each of the two and equal to one of them; a player in the game
/// that can pay it has exactly that amount less.
pub proof fn lemma_income_tax(s: EngineView, pid: u128, sum: int)
    requires
        ({
            let t = s.board[s.position_of(pid) % (s.board.len() as int)];
            t.kind == TileKind::Tax && t.income_tax
        }),
        tenth_of_worth(s, pid) <= u32::MAX,
    ensures
        ({
            let t = s.board[s.position_of(pid) % (s.board.len() as int)];
            let l = s.land(pid, sum);
            &&& l.1.len() > 0
            &&& l.1.last() matches EventView::TaxPaid { player_id, amount, tile_id }
                && player_id == pid
                && amount >= t.tax && amount >= tenth_of_worth(s, pid)
                && (amount == t.tax || amount == tenth_of_worth(s, pid))
                && (s.pidx(pid) is Some && !s.broke_or_unknown(pid) && s.cash_of(pid) >= amount
                    ==> l.0.cash_of(pid) == s.cash_of(pid) - amount)
        }),
{
    reveal(EngineView::land);
    let t = s.board[s.position_of(pid) % (s.board.len() as int)];
    let amount = s.tax_due(pid, t);
    lemma_pays_in_full(s, pid, amount);
}

/// A player that can pay `amount` to the bank has exactly `amount` less.
pub proof fn lemma_pays_in_full(s: EngineView, pid: u128, amount: u32)
    ensures
        s.pidx(pid) is Some && s.cash_of(pid) >= amount
            ==> s.pay_to(pid, None, amount).0.cash_of(pid) == s.cash_of(pid) - amount,
{
    reveal(EngineView::pay_to);
    lemma_find(s.players, pid);
    if s.pidx(pid) is Some && s.cash_of(pid) >= amount && amount > 0 {
        let t = s.change_cash(pid, (-(amount as int)) as i64).0;
        lemma_find_same_ids(s.players, t.players, pid);
    }
}

/// A railroad's rent is 250,000 for an owner of one railroad and doubles with
/// each further railroad: 250,000 times 2 to the power of one less than the
/// number of railroads its owner holds.
pub proof fn lemma_railroad_rent_doubles(d: DeedsView, tiles: Seq<crate::board::Tile>, tile: int, sum: int)
    requires
        tiles.len() > 0,
        ({
            let i = tile % (tiles.len() as int);
            &&& tiles[i].kind == TileKind::Railroad
            &&& d.owner[i] is Some
            &&& 1 <= count_kind_owned(tiles, d.owner, d.owner[i].unwrap(), TileKind::Railroad, tiles.len() as int) <= 4
        }),
    ensures
        ({
            let i = tile % (tiles.len() as int);
            let n = count_kind_owned(tiles, d.owner, d.owner[i].unwrap(), TileKind::Railroad, tiles.len() as int);
            d.spec_rent(tiles, tile, sum) == 250_000 * pow2((n - 1) as nat)
        }),
{
    vstd::arithmetic::power2::lemma2_to64();
}

/// A repair card charges `per_house` for each house and `per_hotel` for each
/// hotel on the drawer's tiles: a drawer that can pay has exactly that less.
pub proof fn lemma_repair_charge(s: EngineView, pid: u128, card: Card)
    requires
        card.effect matches CardEffect::HouseRepair { per_house, per_hotel }
            && 0 <= s.houses_of(pid) * per_house + s.hotels_of(pid) * per_hotel <= u32::MAX,
        s.pidx(pid) is Some,
    ensures
        card.effect matches CardEffect::HouseRepair { per_house, per_hotel }
            && (s.cash_of(pid) >= s.houses_of(pid) * per_house + s.hotels_of(pid) * per_hotel
                ==> s.apply_card(pid, card).0.cash_of(pid)
                    == s.cash_of(pid) - (s.houses_of(pid) * per_house + s.hotels_of(pid) * per_hotel)),
{
    reveal(EngineView::apply_card);
    if let CardEffect::HouseRepair { per_house, per_hotel } = card.effect {
        let amt = s.houses_of(pid) * per_house + s.hotels_of(pid) * per_hotel;
        lemma_pays_in_full(s, pid, amt as u32);
    }
}

/// A bankruptcy moves no cash, and leaves `pid` out of the game.
proof fn lemma_bankrupt_keeps_cash(s: EngineView, pid: u128, creditor: Option<u128>)
    requires
        s.pidx(pid) is Some,
    ensures
        forall|x: u128| #[trigger] s.bankrupt(pid, creditor).0.cash_of(x) == s.cash_of(x),
        s.bankrupt(pid, creditor).0.broke_or_unknown(pid),
{
    reveal(EngineView::bankrupt);
    let s1 = s.bankrupt_assets(pid, creditor);
    lemma_bankrupt_assets(s, pid, creditor);
    let s2 = s1.mark_bankrupt(pid);
    lemma_find(s.players, pid);
    lemma_find_same_ids(s.players, s1.players, pid);
    lemma_find(s1.players, pid);
    lemma_advance_turn_frame(EngineView { turn_ended: true, ..s2 });
    let f = s.bankrupt(pid, creditor).0;
    assert(f.players == s2.players);
    lemma_find_same_ids(s1.players, s2.players, pid);
    assert forall|x: u128| #[trigger] f.cash_of(x) == s.cash_of(x) by {
        lemma_find_same_ids(s.players, s1.players, x);
        lemma_find_same_ids(s1.players, s2.players, x);
        lemma_find(s.players, x);
        if let Some(k) = s.pidx(x) {
            assert(s2.players[k].cash == s1.players[k].cash);
        }
    }
}

/// A payer with some cash that cannot pay what it owes to another player
/// hands that creditor all its cash, is left with none, and is out of the game.
pub proof fn lemma_short_payer_pays_what_it_has(s: EngineView, from: u128, to: u128, amount: u32)
    requires
        s.pidx(from) is Some,
        s.pidx(to) is Some,
        to != from,
        0 < s.cash_of(from) < amount,
        s.cash_of(to) + s.cash_of(from) <= i64::MAX,
    ensures
        s.pay_to(from, Some(to), amount).0.cash_of(to) == s.cash_of(to) + s.cash_of(from),
        s.pay_to(from, Some(to), amount).0.cash_of(from) == 0,
        s.pay_to(from, Some(to), amount).0.broke_or_unknown(from),
{
    reveal(EngineView::pay_to);
    let cash = s.cash_of(from);
    lemma_find(s.players, from);
    lemma_find(s.players, to);
    let a = s.change_cash(from, (-cash) as i64).0;
    lemma_find_same_ids(s.players, a.players, from);
    lemma_find_same_ids(s.players, a.players, to);
    let b = a.change_cash(to, cash as i64).0;
    lemma_find_same_ids(a.players, b.players, from);
    lemma_find_same_ids(a.players, b.players, to);
    assert(b.cash_of(from) == 0);
    assert(b.cash_of(to) == s.cash_of(to) + cash);
    assert(s.transfer(from, Some(to), cash as i64).0 == b);
    lemma_bankrupt_keeps_cash(b, from, Some(to));
}


/// A utility's rent is the dice sum times 40,000, or times 100,000 when its
/// owner holds two utilities or more.
pub proof fn lemma_utility_rent(d: DeedsView, tiles: Seq<crate::board::Tile>, tile: int, sum: int)
    requires
        tiles.len() > 0,
        ({
            let i = tile % (tiles.len() as int);
            tiles[i].kind == TileKind::Utility && d.owner[i] is Some
        }),
    ensures
        ({
            let i = tile % (tiles.len() as int);
            let n = count_kind_owned(tiles, d.owner, d.owner[i].unwrap(), TileKind::Utility, tiles.len() as int);
            &&& n >= 2 ==> d.spec_rent(tiles, tile, sum) == sum * 100_000
            &&& n < 2 ==> d.spec_rent(tiles, tile, sum) == sum * 40_000
        }),
{
}

/// An unimproved property's rent is its base rent, doubled when its owner
/// holds its whole colour group.
pub proof fn lemma_monopoly_doubles_rent(d: DeedsView, tiles: Seq<crate::board::Tile>, tile: int, sum: int)
    requires
        tiles.len() > 0,
        ({
            let i = tile % (tiles.len() as int);
            tiles[i].kind == TileKind::Property && d.owner[i] is Some && d.houses[i] == 0
        }),
    ensures
        ({
            let i = tile % (tiles.len() as int);
            let o = d.owner[i].unwrap();
            &&& d.group_fully_owned(tiles, tiles[i].group.unwrap(), o) ==> d.spec_rent(tiles, tile, sum) == 2 * tiles[i].base_rent
            &&& !d.group_fully_owned(tiles, tiles[i].group.unwrap(), o) ==> d.spec_rent(tiles, tile, sum) == tiles[i].base_rent
        }),
{
}

/// Paying the bail costs 500,000: a jailed player in the game that has it
/// leaves jail with exactly 500,000 less.
pub proof fn lemma_bail_costs(s: EngineView, pid: u128)
    requires
        s.jailed(pid),
        !s.broke_or_unknown(pid),
        s.cash_of(pid) >= 500_000,
    ensures
        s.pay_bail(pid).answer is Ok,
        s.pay_bail(pid).state.cash_of(pid) == s.cash_of(pid) - 500_000,
        !s.pay_bail(pid).state.jailed(pid),
{
    reveal(EngineView::pay_to);
    lemma_pays_in_full(s, pid, crate::engine_actions::BAIL);
    lemma_find(s.players, pid);
    let p = s.pay_to(pid, None, crate::engine_actions::BAIL).0;
    let t = s.change_cash(pid, (-(500_000int)) as i64).0;
    lemma_find_same_ids(s.players, t.players, pid);
    assert(p == t);
    lemma_find(t.players, pid);
    let r = t.released(pid);
    lemma_find_same_ids(t.players, r.players, pid);
}

/// Rent on another player's unmortgaged tile moves from the lander to the
/// owner: a lander in the game that can pay has exactly the rent less, and the
/// owner exactly the rent more.
pub proof fn lemma_rent_moves_to_owner(s: EngineView, pid: u128, sum: int)
    requires
        ({
            let pos = s.position_of(pid);
            let i = s.deeds.idx(pos);
            let k = s.board[pos % (s.board.len() as int)].kind;
            &&& k == TileKind::Property || k == TileKind::Railroad || k == TileKind::Utility
            &&& s.board[pos % (s.board.len() as int)].price > 0
            &&& s.deeds.owner[i] is Some && s.deeds.owner[i].unwrap() != pid
            &&& s.pidx(s.deeds.owner[i].unwrap()) is Some
            &&& !s.deeds.mortgaged[i]
            &&& 0 < s.deeds.spec_rent(s.board, pos, sum) <= u32::MAX
            &&& s.pidx(pid) is Some
            &&& s.cash_of(pid) >= s.deeds.spec_rent(s.board, pos, sum)
            &&& s.cash_of(s.deeds.owner[i].unwrap()) + s.deeds.spec_rent(s.board, pos, sum) <= i64::MAX
        }),
    ensures
        ({
            let pos = s.position_of(pid);
            let o = s.deeds.owner[s.deeds.idx(pos)].unwrap();
            let rent = s.deeds.spec_rent(s.board, pos, sum);
            &&& s.land(pid, sum).0.cash_of(pid) == s.cash_of(pid) - rent
            &&& s.land(pid, sum).0.cash_of(o) == s.cash_of(o) + rent
        }),
{
    reveal(EngineView::land);
    reveal(EngineView::rent_due);
    reveal(EngineView::pay_to);
    let pos = s.position_of(pid);
    let o = s.deeds.owner[s.deeds.idx(pos)].unwrap();
    let rent = s.deeds.spec_rent(s.board, pos, sum);
    lemma_find(s.players, pid);
    lemma_find(s.players, o);
    let a = s.change_cash(pid, (-rent) as i64).0;
    lemma_find_same_ids(s.players, a.players, pid);
    lemma_find_same_ids(s.players, a.players, o);
    let b = a.change_cash(o, rent as i64).0;
    lemma_find_same_ids(a.players, b.players, pid);
    lemma_find_same_ids(a.players, b.players, o);
    assert(s.transfer(pid, Some(o), (rent as u32) as i64).0 == b);
}

} // verus!
