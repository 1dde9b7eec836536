//! The deed register: who owns each tile, buildings, mortgages and the bank's
//! stock of houses and hotels, with the rent, building and mortgage rules.

use vstd::prelude::*;
use crate::board::{Board, Group, Tile, TileKind};
use crate::snapshot::{TileDto, TileView};

verus! {

/// Houses in the bank at the start of a game.
pub const DEFAULT_HOUSES: u16 = 32;
/// Hotels in the bank at the start of a game.
pub const DEFAULT_HOTELS: u16 = 12;

/// Sum of `w` over the elements of `s`.
pub open spec fn weighted_sum(s: Seq<u8>, w: spec_fn(u8) -> int) -> int
    decreases s.len(),
{
    if s.len() == 0 {
        0
    } else {
        weighted_sum(s.drop_last(), w) + w(s.last())
    }
}

/// Weight of a tile in the count of hotels: 1 for a hotel.
pub open spec fn hotel_weight() -> spec_fn(u8) -> int {
    |h: u8| if h == 5 { 1int } else { 0int }
}

/// Weight of a tile in the count of houses: its houses, none for a hotel.
pub open spec fn house_weight() -> spec_fn(u8) -> int {
    |h: u8| if 0 < h < 5 { h as int } else { 0int }
}

/// Changing one element changes the sum by the difference of the weights.
pub proof fn lemma_weighted_sum_update(s: Seq<u8>, w: spec_fn(u8) -> int, i: int, v: u8)
    requires
        0 <= i < s.len(),
    ensures
        weighted_sum(s.update(i, v), w) == weighted_sum(s, w) - w(s[i]) + w(v),
    decreases s.len(),
{
    if i == s.len() - 1 {
        assert(s.update(i, v).drop_last() =~= s.drop_last());
    } else {
        lemma_weighted_sum_update(s.drop_last(), w, i, v);
        assert(s.update(i, v).drop_last() =~= s.drop_last().update(i, v));
    }
}

/// Weight of a tile in the count of built tiles: 1 when it has any building.
pub open spec fn built_weight() -> spec_fn(u8) -> int {
    |h: u8| if h > 0 { 1int } else { 0int }
}

/// A sum of non-negative weights is non-negative and at most the largest weight times the length.
pub proof fn lemma_weighted_sum_bounds(s: Seq<u8>, w: spec_fn(u8) -> int, m: int)
    requires
        forall|h: u8| 0 <= #[trigger] w(h) <= m,
    ensures
        0 <= weighted_sum(s, w) <= m * s.len(),
    decreases s.len(),
{
    if s.len() > 0 {
        lemma_weighted_sum_bounds(s.drop_last(), w, m);
        assert(0 <= w(s.last()) <= m);
        assert(m * (s.len() - 1) + m == m * s.len()) by (nonlinear_arith);
    }
}

/// A tile with a building counts four in the house potential, a hotel one in the hotel stock.
pub proof fn lemma_built_tile(d: DeedsView, i: int)
    requires
        d.wf(),
        0 <= i < d.len(),
        d.houses[i] > 0,
    ensures
        d.houses_available + 4 <= d.house_potential(),
        d.houses[i] == 5 ==> d.hotels_available + 1 <= d.hotel_stock(),
{
    lemma_weighted_sum_update(d.houses, built_weight(), i, 0);
    lemma_weighted_sum_bounds(d.houses.update(i, 0), built_weight(), 1);
    lemma_weighted_sum_update(d.houses, hotel_weight(), i, 0);
    lemma_weighted_sum_bounds(d.houses.update(i, 0), hotel_weight(), 1);
}

/// Mortgaging a tile and then lifting the mortgage gives back the register as
/// it was, for the mortgage value plus 10% interest.
pub proof fn lemma_mortgage_roundtrip(d: DeedsView, tiles: Seq<Tile>, tile: int)
    requires
        d.fits_tiles(tiles),
        d.mortgage_outcome(tiles, tile) is Ok,
    ensures
        ({
            let (m, v) = d.mortgage_outcome(tiles, tile)->Ok_0;
            m.unmortgage_outcome(tiles, tile) == Ok::<(DeedsView, u32), Seq<char>>((d, (v + v / 10) as u32))
        }),
{
    let (m, v) = d.mortgage_outcome(tiles, tile)->Ok_0;
    let i = d.idx(tile);
    assert(m.mortgaged.update(i, false) =~= d.mortgaged);
    assert((DeedsView { mortgaged: m.mortgaged.update(i, false), ..m }) =~= d);
}

/// Every index in `owned_upto(owner, p, k)` is below `k` and owned by `p`.
pub proof fn lemma_owned_upto(owner: Seq<Option<u128>>, p: u128, k: int)
    requires
        0 <= k <= owner.len(),
        owner.len() <= usize::MAX,
    ensures
        forall|j: int| 0 <= j < owned_upto(owner, p, k).len() ==>
            0 <= #[trigger] owned_upto(owner, p, k)[j] < k && owner[owned_upto(owner, p, k)[j] as int] == Some(p),
    decreases k,
{
    if k > 0 {
        lemma_owned_upto(owner, p, k - 1);
        let prev = owned_upto(owner, p, k - 1);
        if owner[k - 1] == Some(p) {
            let cur = prev.push((k - 1) as usize);
            assert(owned_upto(owner, p, k) == cur);
            assert(cur[prev.len() as int] == (k - 1) as usize);
            assert forall|j: int| 0 <= j < cur.len() implies
                0 <= #[trigger] cur[j] < k && owner[cur[j] as int] == Some(p) by {
                if j < prev.len() {
                    assert(cur[j] == prev[j]);
                }
            }
        }
    }
}

/// After handing every tile of `from` to another player `to`, `from` owns
/// nothing and `to` owns what either owned before.
pub proof fn lemma_transfer_leaves_nothing(d: DeedsView, from: u128, to: u128)
    requires
        d.wf(),
        d.len() <= usize::MAX,
        from != to,
    ensures
        d.transferred(from, to).owned(from).len() == 0,
        forall|i: int| 0 <= i < d.len() ==>
            (#[trigger] d.transferred(from, to).owner[i] == Some(to)) == (d.owner[i] == Some(from) || d.owner[i] == Some(to)),
{
    let t = d.transferred(from, to);
    lemma_owned_upto(t.owner, from, t.len() as int);
    if t.owned(from).len() > 0 {
        let j = t.owned(from)[0];
        assert(t.owner[j as int] == Some(from));
    }
}

/// Selling a house right after building one (not a hotel) on an evenly built
/// register gives back the register as it was, for half the building cost.
pub proof fn lemma_build_then_sell(d: DeedsView, tiles: Seq<Tile>, tile: int)
    requires
        d.fits_tiles(tiles),
        d.evenly_built(tiles),
        d.build_outcome(tiles, tile) is Ok,
        d.houses[d.idx(tile)] < 4,
    ensures
        ({
            let (b, cost) = d.build_outcome(tiles, tile)->Ok_0;
            b.sell_outcome(tiles, tile) == Ok::<(DeedsView, u32), Seq<char>>((d, cost / 2))
        }),
{
    let (b, cost) = d.build_outcome(tiles, tile)->Ok_0;
    let i = d.idx(tile);
    let n = tiles.len() as int;
    assert(i == tile % n);
    let t = tiles[tile % n];
    assert(b.houses[i] == d.houses[i] + 1);
    assert forall|j: int| 0 <= j < tiles.len() && (#[trigger] tiles[j]).group == t.group implies
        b.houses[j] <= b.houses[i] by {
        if j != i {
            assert(d.houses[j] <= d.houses[i] + 1);
        }
    }
    assert(b.houses.update(i, d.houses[i]) =~= d.houses);
    assert((DeedsView {
        houses: b.houses.update(i, (b.houses[i] - 1) as u8),
        houses_available: (b.houses_available + 1) as u16,
        ..b
    }) =~= d);
}

/// Rent of a railroad when its owner holds `n` railroads (1 to 4).
pub open spec fn spec_railroad_rent(n: int) -> u32 {
    if n <= 1 { 250_000 } else if n == 2 { 500_000 } else if n == 3 { 1_000_000 } else { 2_000_000 }
}

fn railroad_rent(n: usize) -> (r: u32)
    requires
        1 <= n <= 4,
    ensures
        r == spec_railroad_rent(n as int),
{
    if n == 1 { 250_000 } else if n == 2 { 500_000 } else if n == 3 { 1_000_000 } else { 2_000_000 }
}

/// The abstract register.
#[verifier::ext_equal]
pub struct DeedsView {
    pub owner: Seq<Option<u128>>,
    pub houses: Seq<u8>,
    pub mortgaged: Seq<bool>,
    pub houses_available: u16,
    pub hotels_available: u16,
}

/// Number of tiles among the first `k` of kind `kind` owned by `p`.
pub open spec fn count_kind_owned(tiles: Seq<Tile>, owner: Seq<Option<u128>>, p: u128, kind: TileKind, k: int) -> nat
    decreases k,
{
    if k <= 0 {
        0
    } else {
        count_kind_owned(tiles, owner, p, kind, k - 1)
            + if tiles[k - 1].kind == kind && owner[tiles[k - 1].id as int] == Some(p) { 1nat } else { 0nat }
    }
}

/// Indices among the first `k` owned by `p`, ascending.
pub open spec fn owned_upto(owner: Seq<Option<u128>>, p: u128, k: int) -> Seq<usize>
    decreases k,
{
    if k <= 0 {
        Seq::empty()
    } else if owner[k - 1] == Some(p) {
        owned_upto(owner, p, k - 1).push((k - 1) as usize)
    } else {
        owned_upto(owner, p, k - 1)
    }
}

impl DeedsView {
    pub open spec fn len(self) -> nat {
        self.owner.len()
    }

    /// The three tables have one entry per tile, and a tile holds at most a hotel (5).
    pub open spec fn wf(self) -> bool {
        &&& self.houses.len() == self.owner.len()
        &&& self.mortgaged.len() == self.owner.len()
        &&& forall|i: int| 0 <= i < self.houses.len() ==> #[trigger] self.houses[i] <= 5
    }

    /// The register matches the board tile for tile.
    pub open spec fn fits(self, b: &Board) -> bool {
        self.fits_tiles(b.tiles@)
    }

    /// The register matches the tiles one for one, and the tiles are well formed.
    pub open spec fn fits_tiles(self, tiles: Seq<Tile>) -> bool {
        &&& self.wf()
        &&& crate::board::tiles_wf(tiles)
        &&& self.len() == tiles.len()
    }

    /// The table index of tile `tile` (taken modulo the board's length).
    pub open spec fn idx(self, tile: int) -> int {
        tile % (self.len() as int)
    }

    /// Number of hotels standing on the board.
    pub open spec fn hotels_built(self) -> int {
        weighted_sum(self.houses, hotel_weight())
    }

    /// Number of houses standing on the board (hotels not counted).
    pub open spec fn houses_built(self) -> int {
        weighted_sum(self.houses, house_weight())
    }

    /// Hotels in the bank plus hotels on the board.
    pub open spec fn hotel_stock(self) -> int {
        self.hotels_available + self.hotels_built()
    }

    /// Houses in the bank plus houses on the board.
    pub open spec fn house_stock(self) -> int {
        self.houses_available + self.houses_built()
    }

    /// Houses in the bank plus four for every tile with a building: an upper bound
    /// on how large the bank's house stock can grow by clearing tiles.
    pub open spec fn house_potential(self) -> int {
        self.houses_available + 4 * weighted_sum(self.houses, built_weight())
    }

    /// `p` owns every tile of group `g`.
    pub open spec fn group_fully_owned(self, tiles: Seq<Tile>, g: Group, p: u128) -> bool {
        forall|i: int| 0 <= i < tiles.len() && (#[trigger] tiles[i]).group == Some(g) ==> self.owner[i] == Some(p)
    }

    /// Why a house cannot be built on `tile`, or `None` when it can.
    pub open spec fn build_error(self, tiles: Seq<Tile>, tile: int) -> Option<Seq<char>> {
        let i = self.idx(tile);
        let t = tiles[tile % (tiles.len() as int)];
        if self.owner[i] is None {
            Some("该地块无人所有"@)
        } else if self.mortgaged[i] {
            Some("抵押中的地块不能建房"@)
        } else if t.group is None {
            Some("该地块不可建房"@)
        } else if !self.group_fully_owned(tiles, t.group.unwrap(), self.owner[i].unwrap()) {
            Some("集齐整组地产才能建房（垄断）"@)
        } else if self.houses[i] >= 5 {
            Some("该地块已建满"@)
        } else if exists|j: int| 0 <= j < tiles.len() && (#[trigger] tiles[j]).group == t.group
            && self.houses[j] < self.houses[i] {
            Some("需先在组内其他地块均匀建房"@)
        } else {
            None
        }
    }

    /// Why a house cannot be sold from `tile`, or `None` when it can.
    pub open spec fn sell_error(self, tiles: Seq<Tile>, tile: int) -> Option<Seq<char>> {
        let i = self.idx(tile);
        let t = tiles[tile % (tiles.len() as int)];
        if self.owner[i] is None {
            Some("该地块无人所有"@)
        } else if self.houses[i] == 0 {
            Some("该地块没有房屋"@)
        } else if t.group is None {
            Some("该地块不可拆房"@)
        } else if exists|j: int| 0 <= j < tiles.len() && (#[trigger] tiles[j]).group == t.group
            && self.houses[j] > self.houses[i] {
            Some("需先在组内其他地块均匀拆房"@)
        } else {
            None
        }
    }

    /// Buildings within each colour group differ by at most one.
    pub open spec fn evenly_built(self, tiles: Seq<Tile>) -> bool {
        forall|i: int, j: int| 0 <= i < tiles.len() && 0 <= j < tiles.len()
            && (#[trigger] tiles[i]).group is Some && tiles[i].group == (#[trigger] tiles[j]).group
            ==> self.houses[i] <= self.houses[j] + 1
    }

    /// Rent due on `tile` for a roll of `dice_sum`: none when unowned; for a
    /// railroad by the number of railroads its owner holds; for a utility 40K per
    /// pip, 100K with both utilities; for a property by its buildings, doubled
    /// base rent for a monopoly.
    pub open spec fn spec_rent(self, tiles: Seq<Tile>, tile: int, dice_sum: int) -> int {
        let i = tile % (tiles.len() as int);
        let t = tiles[i];
        match self.owner[i] {
            None => 0,
            Some(o) => match t.kind {
                TileKind::Railroad => {
                    let n = count_kind_owned(tiles, self.owner, o, TileKind::Railroad, tiles.len() as int);
                    spec_railroad_rent(if n < 1 { 1 } else if n > 4 { 4 } else { n as int }) as int
                },
                TileKind::Utility => {
                    if count_kind_owned(tiles, self.owner, o, TileKind::Utility, tiles.len() as int) >= 2 {
                        dice_sum * 100_000
                    } else {
                        dice_sum * 40_000
                    }
                },
                TileKind::Property => {
                    let h = self.houses[i];
                    if h >= 5 {
                        t.hotel_rent as int
                    } else if h > 0 {
                        t.rent_with_house[h - 1] as int
                    } else if self.group_fully_owned(tiles, t.group.unwrap(), o) {
                        t.base_rent * 2
                    } else {
                        t.base_rent as int
                    }
                },
                _ => 0,
            },
        }
    }

    /// Outcome of building a house on `tile`: the new register and the cost, or the error.
    pub open spec fn build_outcome(self, tiles: Seq<Tile>, tile: int) -> Result<(DeedsView, u32), Seq<char>> {
        let i = self.idx(tile);
        let h = self.houses[i];
        let cost = tiles[tile % (tiles.len() as int)].building_cost;
        if self.build_error(tiles, tile) is Some {
            Err(self.build_error(tiles, tile).unwrap())
        } else if h < 4 {
            if self.houses_available == 0 {
                Err("银行房屋库存已耗尽"@)
            } else {
                Ok((DeedsView {
                    houses: self.houses.update(i, (h + 1) as u8),
                    houses_available: (self.houses_available - 1) as u16,
                    ..self
                }, cost))
            }
        } else if self.hotels_available == 0 {
            Err("银行旅馆库存已耗尽"@)
        } else {
            Ok((DeedsView {
                houses: self.houses.update(i, 5u8),
                houses_available: (self.houses_available + 4) as u16,
                hotels_available: (self.hotels_available - 1) as u16,
                ..self
            }, cost))
        }
    }

    /// Outcome of selling one building from `tile`: the new register and half the
    /// building cost, or the error. A hotel becomes four houses.
    pub open spec fn sell_outcome(self, tiles: Seq<Tile>, tile: int) -> Result<(DeedsView, u32), Seq<char>> {
        let i = self.idx(tile);
        let h = self.houses[i];
        let value = (tiles[tile % (tiles.len() as int)].building_cost / 2) as u32;
        if self.sell_error(tiles, tile) is Some {
            Err(self.sell_error(tiles, tile).unwrap())
        } else if h == 5 {
            Ok((DeedsView {
                houses: self.houses.update(i, 4u8),
                houses_available: (self.houses_available + 4) as u16,
                hotels_available: (self.hotels_available + 1) as u16,
                ..self
            }, value))
        } else {
            Ok((DeedsView {
                houses: self.houses.update(i, (h - 1) as u8),
                houses_available: (self.houses_available + 1) as u16,
                ..self
            }, value))
        }
    }

    /// The bank stock suffices for the additions that selling from `tile` makes.
    pub open spec fn sell_fits_stock(self, tiles: Seq<Tile>, tile: int) -> bool {
        self.sell_error(tiles, tile) is None ==> if self.houses[self.idx(tile)] == 5 {
            self.houses_available + 4 <= u16::MAX && self.hotels_available + 1 <= u16::MAX
        } else {
            self.houses_available + 1 <= u16::MAX
        }
    }

    /// Outcome of mortgaging `tile`: the new register and the mortgage value, or the error.
    pub open spec fn mortgage_outcome(self, tiles: Seq<Tile>, tile: int) -> Result<(DeedsView, u32), Seq<char>> {
        let i = self.idx(tile);
        if self.mortgaged[i] {
            Err("该地块已抵押"@)
        } else if self.houses[i] > 0 {
            Err("有房屋的地块需先卖房再抵押"@)
        } else if self.owner[i] is None {
            Err("该地块无人所有"@)
        } else {
            Ok((DeedsView { mortgaged: self.mortgaged.update(i, true), ..self },
                tiles[tile % (tiles.len() as int)].mortgage_value))
        }
    }

    /// Outcome of lifting the mortgage on `tile`: the new register and the price,
    /// the mortgage value plus 10% interest, or the error.
    pub open spec fn unmortgage_outcome(self, tiles: Seq<Tile>, tile: int) -> Result<(DeedsView, u32), Seq<char>> {
        let i = self.idx(tile);
        let v = tiles[tile % (tiles.len() as int)].mortgage_value;
        if !self.mortgaged[i] {
            Err("该地块未抵押"@)
        } else {
            Ok((DeedsView { mortgaged: self.mortgaged.update(i, false), ..self }, (v + v / 10) as u32))
        }
    }

    /// The register after giving `tile` to `p`.
    pub open spec fn assigned(self, tile: int, p: u128) -> DeedsView {
        DeedsView { owner: self.owner.update(self.idx(tile), Some(p)), ..self }
    }

    /// The register after giving each of `tiles`, in order, to `p`.
    pub open spec fn assigned_all(self, tiles: Seq<usize>, p: u128) -> DeedsView
        decreases tiles.len(),
    {
        if tiles.len() == 0 {
            self
        } else {
            self.assigned_all(tiles.drop_last(), p).assigned(tiles.last() as int, p)
        }
    }

    /// The register after handing every tile of `from` to `to`.
    pub open spec fn transferred(self, from: u128, to: u128) -> DeedsView {
        DeedsView {
            owner: Seq::new(self.len(), |i: int| if self.owner[i] == Some(from) { Some(to) } else { self.owner[i] }),
            ..self
        }
    }

    /// The register after returning every tile of `from` to the market.
    pub open spec fn cleared(self, from: u128) -> DeedsView {
        DeedsView {
            owner: Seq::new(self.len(), |i: int| if self.owner[i] == Some(from) { None } else { self.owner[i] }),
            houses: cleared_upto(self.owner, self.houses, from, self.len() as int),
            mortgaged: Seq::new(self.len(), |i: int| if self.owner[i] == Some(from) { false } else { self.mortgaged[i] }),
            houses_available: (self.houses_available
                + owned_weight_upto(self, from, returned_houses_weight(), self.len() as int)) as u16,
            hotels_available: (self.hotels_available
                + owned_weight_upto(self, from, hotel_weight(), self.len() as int)) as u16,
        }
    }

    /// Tiles owned by `p`, ascending.
    pub open spec fn owned(self, p: u128) -> Seq<usize> {
        owned_upto(self.owner, p, self.len() as int)
    }
}

/// `r` is the outcome `o`: the same value and new register, or the same error and an unchanged register.
pub open spec fn outcome_is(r: Result<u32, String>, o: Result<(DeedsView, u32), Seq<char>>, before: DeedsView, after: DeedsView) -> bool {
    match r {
        Ok(v) => o is Ok && v == o->Ok_0.1 && after == o->Ok_0.0,
        Err(m) => o is Err && m@ == o->Err_0 && after == before,
    }
}

/// Sum over the tiles among the first `k` owned by `p` of price plus buildings times building cost.
pub open spec fn value_upto(d: DeedsView, tiles: Seq<Tile>, p: u128, k: int) -> int
    decreases k,
{
    if k <= 0 {
        0
    } else {
        value_upto(d, tiles, p, k - 1) + if d.owner[k - 1] == Some(p) {
            tiles[k - 1].price + d.houses[k - 1] * tiles[k - 1].building_cost
        } else {
            0
        }
    }
}

/// The worth of a player's tiles is between 0 and 6*10^8 per tile.
pub proof fn lemma_value_upto_bounds(d: DeedsView, tiles: Seq<Tile>, p: u128, k: int)
    requires
        d.fits_tiles(tiles),
        0 <= k <= d.len(),
    ensures
        0 <= value_upto(d, tiles, p, k) <= k * 600_000_000,
    decreases k,
{
    if k > 0 {
        lemma_value_upto_bounds(d, tiles, p, k - 1);
        let t = tiles[k - 1];
        assert(t.amounts_bounded());
        assert(d.houses[k - 1] <= 5);
        assert(d.houses[k - 1] * t.building_cost <= 5 * 100_000_000) by (nonlinear_arith)
            requires d.houses[k - 1] <= 5, t.building_cost <= 100_000_000;
    }
}

/// Sum over the tiles among the first `k` owned by `p` of `w` of their buildings.
pub open spec fn owned_weight_upto(d: DeedsView, p: u128, w: spec_fn(u8) -> int, k: int) -> int
    decreases k,
{
    if k <= 0 {
        0
    } else {
        owned_weight_upto(d, p, w, k - 1) + if d.owner[k - 1] == Some(p) { w(d.houses[k - 1]) } else { 0 }
    }
}

/// A sum of weights between 0 and `m` over owned tiles is between 0 and `m` per tile.
pub proof fn lemma_owned_weight_bounds(d: DeedsView, p: u128, w: spec_fn(u8) -> int, m: int, k: int)
    requires
        0 <= k,
        forall|h: u8| 0 <= #[trigger] w(h) <= m,
    ensures
        0 <= owned_weight_upto(d, p, w, k) <= m * k,
    decreases k,
{
    assert(0 <= w(0u8) <= m);
    if k > 0 {
        lemma_owned_weight_bounds(d, p, w, m, k - 1);
        assert(0 <= w(d.houses[k - 1]) <= m);
        assert(m * (k - 1) + m == m * k) by (nonlinear_arith);
        assert(m * (k - 1) >= 0) by (nonlinear_arith) requires m >= 0, k >= 1;
    } else {
        assert(m * k == 0) by (nonlinear_arith) requires k == 0;
    }
}

/// Houses that go back to the bank when a tile with `h` buildings is cleared: four for a hotel.
pub open spec fn returned_houses_weight() -> spec_fn(u8) -> int {
    |h: u8| if h == 5 { 4int } else { h as int }
}

/// The table `houses` with every tile owned by `p` among the first `k` cleared.
pub open spec fn cleared_upto(owner: Seq<Option<u128>>, houses: Seq<u8>, p: u128, k: int) -> Seq<u8> {
    Seq::new(houses.len(), |i: int| if i < k && owner[i] == Some(p) { 0u8 } else { houses[i] })
}

/// The register after overwriting, in order, the first `k` tiles of `dtos`
/// (owner, buildings, mortgage) at their positions.
pub open spec fn restore_upto(d: DeedsView, dtos: Seq<TileView>, k: int) -> DeedsView
    decreases k,
{
    if k <= 0 {
        d
    } else {
        let prev = restore_upto(d, dtos, k - 1);
        let t = dtos[k - 1];
        let i = (t.id as int) % (d.len() as int);
        DeedsView {
            owner: prev.owner.update(i, t.owner),
            houses: prev.houses.update(i, t.houses),
            mortgaged: prev.mortgaged.update(i, t.mortgaged),
            ..prev
        }
    }
}

/// Sum over the first `k` tiles of half the building cost of each tile owned by `p` that has buildings.
pub open spec fn release_value_upto(d: DeedsView, tiles: Seq<Tile>, p: u128, k: int) -> int
    decreases k,
{
    if k <= 0 {
        0
    } else {
        release_value_upto(d, tiles, p, k - 1) + if d.owner[k - 1] == Some(p) && d.houses[k - 1] > 0 {
            tiles[k - 1].building_cost / 2
        } else {
            0
        }
    }
}

/// The deed register.
#[derive(Debug)]
pub struct Deeds {
    owner: Vec<Option<u128>>,
    houses: Vec<u8>,
    mortgaged: Vec<bool>,
    houses_available: u16,
    hotels_available: u16,
}

impl View for Deeds {
    type V = DeedsView;

    closed spec fn view(&self) -> DeedsView {
        DeedsView {
            owner: self.owner@,
            houses: self.houses@,
            mortgaged: self.mortgaged@,
            houses_available: self.houses_available,
            hotels_available: self.hotels_available,
        }
    }
}

impl Deeds {
    /// An empty register for `size` tiles with the given bank stock.
    pub fn new(size: usize, houses: u16, hotels: u16) -> (d: Self)
        ensures
            d@.wf(),
            d@.owner == Seq::new(size as nat, |i: int| None::<u128>),
            d@.houses == Seq::new(size as nat, |i: int| 0u8),
            d@.mortgaged == Seq::new(size as nat, |i: int| false),
            d@.houses_available == houses,
            d@.hotels_available == hotels,
    {
        let mut owner: Vec<Option<u128>> = Vec::new();
        let mut hs: Vec<u8> = Vec::new();
        let mut mortgaged: Vec<bool> = Vec::new();
        let mut i: usize = 0;
        while i < size
            invariant
                i <= size,
                owner@ == Seq::new(i as nat, |k: int| None::<u128>),
                hs@ == Seq::new(i as nat, |k: int| 0u8),
                mortgaged@ == Seq::new(i as nat, |k: int| false),
            decreases size - i,
        {
            owner.push(None);
            hs.push(0);
            mortgaged.push(false);
            i = i + 1;
            assert(owner@ =~= Seq::new(i as nat, |k: int| None::<u128>));
            assert(hs@ =~= Seq::new(i as nat, |k: int| 0u8));
            assert(mortgaged@ =~= Seq::new(i as nat, |k: int| false));
        }
        Deeds { owner, houses: hs, mortgaged, houses_available: houses, hotels_available: hotels }
    }

    /// Owner of `tile` (taken modulo the number of tiles).
    pub fn owner(&self, tile: usize) -> (r: Option<u128>)
        requires
            self@.wf(),
            self@.len() > 0,
        ensures
            r == self@.owner[self@.idx(tile as int)],
    {
        self.owner[tile % self.owner.len()]
    }

    /// Buildings on `tile`: 0 to 4 houses, 5 for a hotel.
    pub fn houses(&self, tile: usize) -> (r: u8)
        requires
            self@.wf(),
            self@.len() > 0,
        ensures
            r == self@.houses[self@.idx(tile as int)],
    {
        self.houses[tile % self.houses.len()]
    }

    pub fn is_mortgaged(&self, tile: usize) -> (r: bool)
        requires
            self@.wf(),
            self@.len() > 0,
        ensures
            r == self@.mortgaged[self@.idx(tile as int)],
    {
        self.mortgaged[tile % self.mortgaged.len()]
    }

    pub fn houses_available(&self) -> (r: u16)
        ensures
            r == self@.houses_available,
    {
        self.houses_available
    }

    pub fn hotels_available(&self) -> (r: u16)
        ensures
            r == self@.hotels_available,
    {
        self.hotels_available
    }

    /// Gives `tile` to `player` (purchase, trade, bankruptcy).
    pub fn assign(&mut self, tile: usize, player: u128)
        requires
            old(self)@.wf(),
            old(self)@.len() > 0,
        ensures
            final(self)@ == old(self)@.assigned(tile as int, player),
    {
        let idx = tile % self.owner.len();
        self.owner.set(idx, Some(player));
    }

    /// Indices of the tiles of group `group`, ascending.
    fn group_tiles(&self, board: &Board, group: Group) -> (r: Vec<usize>)
        requires
            self@.fits(board),
        ensures
            forall|k: int| 0 <= k < r@.len() ==> #[trigger] r@[k] < board.tiles@.len()
                && board.tiles@[r@[k] as int].group == Some(group),
            forall|i: int| 0 <= i < board.tiles@.len() && (#[trigger] board.tiles@[i]).group == Some(group)
                ==> r@.contains(i as usize),
    {
        let mut r: Vec<usize> = Vec::new();
        let mut i: usize = 0;
        while i < board.tiles.len()
            invariant
                i <= board.tiles@.len(),
                self@.fits(board),
                forall|k: int| 0 <= k < r@.len() ==> #[trigger] r@[k] < board.tiles@.len()
                    && board.tiles@[r@[k] as int].group == Some(group),
                forall|j: int| 0 <= j < i && (#[trigger] board.tiles@[j]).group == Some(group)
                    ==> r@.contains(j as usize),
            decreases board.tiles@.len() - i,
        {
            if board.tiles[i].group == Some(group) {
                let ghost old_r = r@;
                r.push(board.tiles[i].id);
                proof {
                    assert(r@[r@.len() - 1] == i);
                    assert forall|j: int| 0 <= j < i + 1 && (#[trigger] board.tiles@[j]).group == Some(group)
                        implies r@.contains(j as usize) by {
                        if j < i {
                            assert(old_r.contains(j as usize));
                            let k = choose|k: int| 0 <= k < old_r.len() && old_r[k] == j as usize;
                            assert(r@[k] == j as usize);
                        } else {
                            assert(r@[r@.len() - 1] == j as usize);
                        }
                    }
                }
            }
            i = i + 1;
        }
        r
    }

    /// `player` owns the whole of `group`.
    fn group_fully_owned(&self, board: &Board, group: Group, player: u128) -> (r: bool)
        requires
            self@.fits(board),
        ensures
            r == self@.group_fully_owned(board.tiles@, group, player),
    {
        let mut i: usize = 0;
        while i < board.tiles.len()
            invariant
                i <= board.tiles@.len(),
                self@.fits(board),
                forall|j: int| 0 <= j < i && (#[trigger] board.tiles@[j]).group == Some(group)
                    ==> self@.owner[j] == Some(player),
            decreases board.tiles@.len() - i,
        {
            if board.tiles[i].group == Some(group) && self.owner[board.tiles[i].id] != Some(player) {
                return false;
            }
            i = i + 1;
        }
        true
    }

    /// Checks that a house may be built on `tile`: the tile is owned, not
    /// mortgaged, in a group that its owner holds whole, not yet a hotel, and no
    /// tile of the group has fewer buildings.
    pub fn can_build(&self, board: &Board, tile: usize) -> (r: Result<(), String>)
        requires
            self@.fits(board),
        ensures
            r is Ok <==> self@.build_error(board.tiles@, tile as int) is None,
            r matches Err(m) ==> Some(m@) == self@.build_error(board.tiles@, tile as int),
    {
        let ghost tiles = board.tiles@;
        let idx = tile % self.owner.len();
        let owner = match self.owner[idx] {
            Some(o) => o,
            None => return Err(String::from_str("该地块无人所有")),
        };
        if self.mortgaged[idx] {
            return Err(String::from_str("抵押中的地块不能建房"));
        }
        let t = board.tile(tile);
        let group = match t.group {
            Some(g) => g,
            None => return Err(String::from_str("该地块不可建房")),
        };
        if !self.group_fully_owned(board, group, owner) {
            return Err(String::from_str("集齐整组地产才能建房（垄断）"));
        }
        if self.houses[idx] >= 5 {
            return Err(String::from_str("该地块已建满"));
        }
        let members = self.group_tiles(board, group);
        let mut k: usize = 0;
        while k < members.len()
            invariant
                k <= members@.len(),
                self@.fits(board),
                idx == self@.idx(tile as int),
                tiles == board.tiles@,
                self@.owner[idx as int] == Some(owner),
                !self@.mortgaged[idx as int],
                self@.group_fully_owned(tiles, group, owner),
                self@.houses[idx as int] < 5,
                t.group == Some(group),
                *t == tiles[tile as int % (tiles.len() as int)],
                forall|q: int| 0 <= q < members@.len() ==> #[trigger] members@[q] < tiles.len()
                    && tiles[members@[q] as int].group == Some(group),
                forall|q: int| 0 <= q < k ==> self@.houses[#[trigger] members@[q] as int] >= self@.houses[idx as int],
            decreases members@.len() - k,
        {
            let other = members[k];
            if self.houses[other] < self.houses[idx] {
                proof {
                    assert(0 <= other < tiles.len() && (tiles[other as int]).group == t.group
                        && self@.houses[other as int] < self@.houses[idx as int]);
                }
                return Err(String::from_str("需先在组内其他地块均匀建房"));
            }
            k = k + 1;
        }
        proof {
            assert forall|j: int| 0 <= j < tiles.len() && (#[trigger] tiles[j]).group == t.group
                implies !(self@.houses[j] < self@.houses[idx as int]) by {
                assert(members@.contains(j as usize));
                let q = choose|q: int| 0 <= q < members@.len() && members@[q] == j as usize;
                assert(self@.houses[members@[q] as int] >= self@.houses[idx as int]);
            }
        }
        Ok(())
    }

    /// Builds a house on `tile` (or, on the fifth, turns the four houses into a
    /// hotel) and returns the building cost.
    pub fn build(&mut self, board: &Board, tile: usize) -> (r: Result<u32, String>)
        requires
            old(self)@.fits(board),
            old(self)@.houses[old(self)@.idx(tile as int)] >= 4 ==> old(self)@.houses_available + 4 <= u16::MAX,
        ensures
            outcome_is(r, old(self)@.build_outcome(board.tiles@, tile as int), old(self)@, final(self)@),
            final(self)@.fits(board),
            final(self)@.hotel_stock() == old(self)@.hotel_stock(),
            final(self)@.house_stock() == old(self)@.house_stock(),
            final(self)@.house_potential() <= old(self)@.house_potential() + 4,
            old(self)@.evenly_built(board.tiles@) ==> final(self)@.evenly_built(board.tiles@),
    {
        let ghost before = self@;
        match self.can_build(board, tile) {
            Ok(()) => {},
            Err(e) => return Err(e),
        }
        let idx = tile % self.houses.len();
        let current = self.houses[idx];
        let cost = board.tile(tile).building_cost;
        if current < 4 {
            if self.houses_available == 0 {
                return Err(String::from_str("银行房屋库存已耗尽"));
            }
            self.houses.set(idx, current + 1);
            self.houses_available = self.houses_available - 1;
            proof {
                lemma_weighted_sum_update(before.houses, hotel_weight(), idx as int, (current + 1) as u8);
                lemma_weighted_sum_update(before.houses, house_weight(), idx as int, (current + 1) as u8);
                lemma_weighted_sum_update(before.houses, built_weight(), idx as int, (current + 1) as u8);
            }
        } else {
            if self.hotels_available == 0 {
                return Err(String::from_str("银行旅馆库存已耗尽"));
            }
            self.houses.set(idx, 5);
            self.houses_available = self.houses_available + 4;
            self.hotels_available = self.hotels_available - 1;
            proof {
                lemma_weighted_sum_update(before.houses, hotel_weight(), idx as int, 5u8);
                lemma_weighted_sum_update(before.houses, house_weight(), idx as int, 5u8);
                lemma_weighted_sum_update(before.houses, built_weight(), idx as int, 5u8);
            }
        }
        proof {
            let tiles = board.tiles@;
            let t = tiles[tile as int % (tiles.len() as int)];
            assert forall|i: int, j: int| 0 <= i < tiles.len() && 0 <= j < tiles.len()
                && (#[trigger] tiles[i]).group is Some && tiles[i].group == (#[trigger] tiles[j]).group
                && before.evenly_built(tiles)
                implies self@.houses[i] <= self@.houses[j] + 1 by {
                if i == idx as int && j != idx as int {
                    assert(!(before.houses[j] < before.houses[idx as int]));
                }
            }
        }
        Ok(cost)
    }

    /// Sells one building from `tile` (a hotel goes back to four houses) for half
    /// the building cost.
    pub fn sell_house(&mut self, board: &Board, tile: usize) -> (r: Result<u32, String>)
        requires
            old(self)@.fits(board),
            old(self)@.sell_fits_stock(board.tiles@, tile as int),
        ensures
            outcome_is(r, old(self)@.sell_outcome(board.tiles@, tile as int), old(self)@, final(self)@),
            final(self)@.fits(board),
            final(self)@.hotel_stock() == old(self)@.hotel_stock(),
            final(self)@.house_stock() == old(self)@.house_stock()
                + if r is Ok && old(self)@.houses[old(self)@.idx(tile as int)] == 5 { 8int } else { 0int },
            final(self)@.house_potential() <= old(self)@.house_potential() + 4,
            old(self)@.evenly_built(board.tiles@) ==> final(self)@.evenly_built(board.tiles@),
    {
        let ghost before = self@;
        let ghost tiles = board.tiles@;
        let idx = tile % self.houses.len();
        if self.owner[idx].is_none() {
            return Err(String::from_str("该地块无人所有"));
        }
        let current = self.houses[idx];
        if current == 0 {
            return Err(String::from_str("该地块没有房屋"));
        }
        let t = board.tile(tile);
        let group = match t.group {
            Some(g) => g,
            None => return Err(String::from_str("该地块不可拆房")),
        };
        let members = self.group_tiles(board, group);
        let mut k: usize = 0;
        while k < members.len()
            invariant
                k <= members@.len(),
                self@ == before,
                before.fits(board),
                idx == before.idx(tile as int),
                tiles == board.tiles@,
                current == before.houses[idx as int],
                current != 0,
                before.owner[idx as int] is Some,
                t.group == Some(group),
                *t == tiles[tile as int % (tiles.len() as int)],
                forall|q: int| 0 <= q < members@.len() ==> #[trigger] members@[q] < tiles.len()
                    && tiles[members@[q] as int].group == Some(group),
                forall|q: int| 0 <= q < k ==> before.houses[#[trigger] members@[q] as int] <= current,
            decreases members@.len() - k,
        {
            let other = members[k];
            if self.houses[other] > current {
                proof {
                    assert(0 <= other < tiles.len() && (tiles[other as int]).group == t.group
                        && before.houses[other as int] > before.houses[idx as int]);
                }
                return Err(String::from_str("需先在组内其他地块均匀拆房"));
            }
            k = k + 1;
        }
        proof {
            assert forall|j: int| 0 <= j < tiles.len() && (#[trigger] tiles[j]).group == t.group
                implies !(before.houses[j] > before.houses[idx as int]) by {
                assert(members@.contains(j as usize));
                let q = choose|q: int| 0 <= q < members@.len() && members@[q] == j as usize;
                assert(before.houses[members@[q] as int] <= current);
            }
        }
        let value = t.building_cost / 2;
        if current == 5 {
            self.houses.set(idx, 4);
            self.houses_available = self.houses_available + 4;
            self.hotels_available = self.hotels_available + 1;
            proof {
                lemma_weighted_sum_update(before.houses, hotel_weight(), idx as int, 4u8);
                lemma_weighted_sum_update(before.houses, house_weight(), idx as int, 4u8);
                lemma_weighted_sum_update(before.houses, built_weight(), idx as int, 4u8);
            }
        } else {
            self.houses.set(idx, current - 1);
            self.houses_available = self.houses_available + 1;
            proof {
                lemma_weighted_sum_update(before.houses, hotel_weight(), idx as int, (current - 1) as u8);
                lemma_weighted_sum_update(before.houses, house_weight(), idx as int, (current - 1) as u8);
                lemma_weighted_sum_update(before.houses, built_weight(), idx as int, (current - 1) as u8);
            }
        }
        proof {
            assert forall|i: int, j: int| 0 <= i < tiles.len() && 0 <= j < tiles.len()
                && (#[trigger] tiles[i]).group is Some && tiles[i].group == (#[trigger] tiles[j]).group
                && before.evenly_built(tiles)
                implies self@.houses[i] <= self@.houses[j] + 1 by {
                if j == idx as int && i != idx as int {
                    assert(!(before.houses[i] > before.houses[idx as int]));
                }
            }
        }
        Ok(value)
    }

    /// Mortgages `tile` and returns its mortgage value.
    pub fn mortgage(&mut self, board: &Board, tile: usize) -> (r: Result<u32, String>)
        requires
            old(self)@.fits(board),
        ensures
            outcome_is(r, old(self)@.mortgage_outcome(board.tiles@, tile as int), old(self)@, final(self)@),
            final(self)@.fits(board),
    {
        let idx = tile % self.mortgaged.len();
        if self.mortgaged[idx] {
            return Err(String::from_str("该地块已抵押"));
        }
        if self.houses[tile % self.houses.len()] > 0 {
            return Err(String::from_str("有房屋的地块需先卖房再抵押"));
        }
        if self.owner(tile).is_none() {
            return Err(String::from_str("该地块无人所有"));
        }
        self.mortgaged.set(idx, true);
        Ok(board.tile(tile).mortgage_value)
    }

    /// Lifts the mortgage on `tile`; returns the price to pay, the mortgage value plus 10%.
    pub fn unmortgage(&mut self, board: &Board, tile: usize) -> (r: Result<u32, String>)
        requires
            old(self)@.fits(board),
        ensures
            outcome_is(r, old(self)@.unmortgage_outcome(board.tiles@, tile as int), old(self)@, final(self)@),
            final(self)@.fits(board),
    {
        let idx = tile % self.mortgaged.len();
        if !self.mortgaged[idx] {
            return Err(String::from_str("该地块未抵押"));
        }
        let value = board.tile(tile).mortgage_value;
        self.mortgaged.set(idx, false);
        Ok(value + value / 10)
    }

    /// Number of railroads owned by `player`.
    pub fn railroad_count(&self, board: &Board, player: u128) -> (r: usize)
        requires
            self@.fits(board),
        ensures
            r == count_kind_owned(board.tiles@, self@.owner, player, TileKind::Railroad, board.tiles@.len() as int),
    {
        self.kind_count(board, player, TileKind::Railroad)
    }

    /// Number of utilities owned by `player`.
    pub fn utility_count(&self, board: &Board, player: u128) -> (r: usize)
        requires
            self@.fits(board),
        ensures
            r == count_kind_owned(board.tiles@, self@.owner, player, TileKind::Utility, board.tiles@.len() as int),
    {
        self.kind_count(board, player, TileKind::Utility)
    }

    fn kind_count(&self, board: &Board, player: u128, kind: TileKind) -> (r: usize)
        requires
            self@.fits(board),
        ensures
            r == count_kind_owned(board.tiles@, self@.owner, player, kind, board.tiles@.len() as int),
    {
        let mut c: usize = 0;
        let mut i: usize = 0;
        while i < board.tiles.len()
            invariant
                i <= board.tiles@.len(),
                self@.fits(board),
                c == count_kind_owned(board.tiles@, self@.owner, player, kind, i as int),
                c <= i,
            decreases board.tiles@.len() - i,
        {
            let t = &board.tiles[i];
            if t.kind == kind && self.owner[t.id] == Some(player) {
                c = c + 1;
            }
            i = i + 1;
        }
        c
    }

    /// Rent due on `tile` for a roll of `dice_sum` (0 on an unowned tile or a tile
    /// that takes no rent).
    pub fn rent(&self, board: &Board, tile: usize, dice_sum: u32) -> (r: u32)
        requires
            self@.fits(board),
            dice_sum <= 40_000,
        ensures
            r == self@.spec_rent(board.tiles@, tile as int, dice_sum as int),
    {
        let idx = tile % board.tiles.len();
        let t = &board.tiles[idx];
        let owner = match self.owner[idx] {
            Some(o) => o,
            None => return 0,
        };
        match t.kind {
            TileKind::Railroad => {
                let n = self.railroad_count(board, owner);
                let n = if n < 1 { 1 } else if n > 4 { 4 } else { n };
                railroad_rent(n)
            },
            TileKind::Utility => {
                let n = self.utility_count(board, owner);
                if n >= 2 {
                    dice_sum * 100_000
                } else {
                    dice_sum * 40_000
                }
            },
            TileKind::Property => {
                let h = self.houses[idx];
                if h >= 5 {
                    t.hotel_rent
                } else if h > 0 {
                    t.rent_with_house[(h as usize) - 1]
                } else {
                    let group = t.group.unwrap();
                    if self.group_fully_owned(board, group, owner) {
                        t.base_rent * 2
                    } else {
                        t.base_rent
                    }
                }
            },
            _ => 0,
        }
    }

    /// The tiles owned by `player`, ascending.
    pub fn owned_tiles(&self, player: u128) -> (r: Vec<usize>)
        requires
            self@.wf(),
        ensures
            r@ == self@.owned(player),
    {
        let mut r: Vec<usize> = Vec::new();
        let mut i: usize = 0;
        while i < self.owner.len()
            invariant
                i <= self@.len(),
                r@ == owned_upto(self@.owner, player, i as int),
            decreases self@.len() - i,
        {
            if self.owner[i] == Some(player) {
                r.push(i);
            }
            i = i + 1;
        }
        r
    }

    /// Hands every tile of `from`, with its buildings and mortgage, to `to`.
    pub fn transfer_player(&mut self, from: u128, to: u128)
        requires
            old(self)@.wf(),
        ensures
            final(self)@ == old(self)@.transferred(from, to),
    {
        let ghost before = self@;
        let mut tile: usize = 0;
        while tile < self.owner.len()
            invariant
                tile <= before.len(),
                self@.owner.len() == before.len(),
                self@ == (DeedsView { owner: self@.owner, ..before }),
                forall|i: int| 0 <= i < before.len() ==> #[trigger] self@.owner[i] ==
                    if i < tile && before.owner[i] == Some(from) { Some(to) } else { before.owner[i] },
            decreases before.len() - tile,
        {
            if self.owner[tile] == Some(from) {
                self.owner.set(tile, Some(to));
            }
            tile = tile + 1;
        }
        assert(self@.owner =~= Seq::new(before.len(), |i: int|
            if before.owner[i] == Some(from) { Some(to) } else { before.owner[i] }));
    }

    /// Returns the buildings on `tile` to the bank (a hotel as four houses and a
    /// hotel) and clears them; yields half the building cost when there were any.
    fn release_buildings(&mut self, board: &Board, tile: usize) -> (r: u32)
        requires
            old(self)@.fits(board),
            tile < old(self)@.len(),
            old(self)@.house_potential() <= u16::MAX,
            old(self)@.hotel_stock() <= u16::MAX,
        ensures
            final(self)@ == (DeedsView {
                houses: old(self)@.houses.update(tile as int, 0u8),
                houses_available: (old(self)@.houses_available
                    + (returned_houses_weight())(old(self)@.houses[tile as int])) as u16,
                hotels_available: (old(self)@.hotels_available
                    + (hotel_weight())(old(self)@.houses[tile as int])) as u16,
                ..old(self)@
            }),
            final(self)@.houses_available == old(self)@.houses_available
                + (returned_houses_weight())(old(self)@.houses[tile as int]),
            final(self)@.hotels_available == old(self)@.hotels_available
                + (hotel_weight())(old(self)@.houses[tile as int]),
            final(self)@.fits(board),
            final(self)@.house_potential() <= old(self)@.house_potential(),
            final(self)@.hotel_stock() == old(self)@.hotel_stock(),
            r == if old(self)@.houses[tile as int] > 0 { board.tiles@[tile as int].building_cost / 2 } else { 0 },
    {
        let ghost before = self@;
        let h = self.houses[tile];
        if h == 0 {
            assert(self@.houses =~= self@.houses.update(tile as int, 0u8));
            return 0;
        }
        proof {
            lemma_weighted_sum_update(before.houses, hotel_weight(), tile as int, 0u8);
            lemma_weighted_sum_update(before.houses, built_weight(), tile as int, 0u8);
            lemma_weighted_sum_bounds(before.houses.update(tile as int, 0u8), built_weight(), 1);
            lemma_weighted_sum_bounds(before.houses.update(tile as int, 0u8), hotel_weight(), 1);
        }
        if h >= 5 {
            self.houses_available = self.houses_available + 4;
            self.hotels_available = self.hotels_available + 1;
        } else {
            self.houses_available = self.houses_available + h as u16;
        }
        self.houses.set(tile, 0);
        board.tiles[tile].building_cost / 2
    }

    /// Sells off every building of `from` for half its cost, returning the
    /// buildings to the bank; yields the proceeds.
    pub fn liquidate_buildings(&mut self, board: &Board, from: u128) -> (r: u32)
        requires
            old(self)@.fits(board),
            old(self)@.house_potential() <= u16::MAX,
            old(self)@.hotel_stock() <= u16::MAX,
        ensures
            final(self)@.fits(board),
            final(self)@.house_potential() <= old(self)@.house_potential(),
            final(self)@.hotel_stock() == old(self)@.hotel_stock(),
            final(self)@ == (DeedsView {
                houses: cleared_upto(old(self)@.owner, old(self)@.houses, from, old(self)@.len() as int),
                houses_available: (old(self)@.houses_available
                    + owned_weight_upto(old(self)@, from, returned_houses_weight(), old(self)@.len() as int)) as u16,
                hotels_available: (old(self)@.hotels_available
                    + owned_weight_upto(old(self)@, from, hotel_weight(), old(self)@.len() as int)) as u16,
                ..old(self)@
            }),
            r == release_value_upto(old(self)@, board.tiles@, from, old(self)@.len() as int),
    {
        let ghost before = self@;
        assert(before.houses =~= cleared_upto(before.owner, before.houses, from, 0));
        let mut value: u32 = 0;
        let mut tile: usize = 0;
        while tile < self.owner.len()
            invariant
                tile <= before.len(),
                before.fits(board),
                before.house_potential() <= u16::MAX,
                before.hotel_stock() <= u16::MAX,
                self@.fits(board),
                self@.house_potential() <= before.house_potential(),
                self@.hotel_stock() == before.hotel_stock(),
                self@.houses_available == before.houses_available
                    + owned_weight_upto(before, from, returned_houses_weight(), tile as int),
                self@.hotels_available == before.hotels_available
                    + owned_weight_upto(before, from, hotel_weight(), tile as int),
                self@ == (DeedsView {
                    houses: cleared_upto(before.owner, before.houses, from, tile as int),
                    houses_available: (before.houses_available
                        + owned_weight_upto(before, from, returned_houses_weight(), tile as int)) as u16,
                    hotels_available: (before.hotels_available
                        + owned_weight_upto(before, from, hotel_weight(), tile as int)) as u16,
                    ..before
                }),
                0 <= owned_weight_upto(before, from, returned_houses_weight(), tile as int) <= 4 * tile,
                0 <= owned_weight_upto(before, from, hotel_weight(), tile as int) <= tile,
                value == release_value_upto(before, board.tiles@, from, tile as int),
                value <= tile * 50_000_000,
            decreases before.len() - tile,
        {
            if self.owner[tile] == Some(from) {
                proof {
                    assert(self@.houses[tile as int] == before.houses[tile as int]);
                }
                let v = self.release_buildings(board, tile);
                value = value + v;
            }
            tile = tile + 1;
            proof {
                assert(self@.houses =~= cleared_upto(before.owner, before.houses, from, tile as int));
            }
        }
        value
    }

    /// Returns every tile of `from` to the market: buildings back to the bank,
    /// mortgages lifted, owner cleared; yields those tiles, ascending.
    pub fn clear_player(&mut self, board: &Board, from: u128) -> (r: Vec<usize>)
        requires
            old(self)@.fits(board),
            old(self)@.house_potential() <= u16::MAX,
            old(self)@.hotel_stock() <= u16::MAX,
        ensures
            final(self)@.fits(board),
            final(self)@.house_potential() <= old(self)@.house_potential(),
            final(self)@.hotel_stock() == old(self)@.hotel_stock(),
            final(self)@ == old(self)@.cleared(from),
            r@ == old(self)@.owned(from),
    {
        let ghost before = self@;
        assert(before.houses =~= cleared_upto(before.owner, before.houses, from, 0));
        let mut tiles: Vec<usize> = Vec::new();
        let mut tile: usize = 0;
        while tile < self.owner.len()
            invariant
                tile <= before.len(),
                before.fits(board),
                before.house_potential() <= u16::MAX,
                before.hotel_stock() <= u16::MAX,
                self@.fits(board),
                self@.house_potential() <= before.house_potential(),
                self@.hotel_stock() == before.hotel_stock(),
                self@.len() == before.len(),
                self@.wf(),
                self@.houses_available == before.houses_available
                    + owned_weight_upto(before, from, returned_houses_weight(), tile as int),
                self@.hotels_available == before.hotels_available
                    + owned_weight_upto(before, from, hotel_weight(), tile as int),
                self@.houses == cleared_upto(before.owner, before.houses, from, tile as int),
                self@.houses_available == (before.houses_available
                    + owned_weight_upto(before, from, returned_houses_weight(), tile as int)) as u16,
                self@.hotels_available == (before.hotels_available
                    + owned_weight_upto(before, from, hotel_weight(), tile as int)) as u16,
                forall|i: int| 0 <= i < before.len() ==> #[trigger] self@.owner[i] ==
                    if i < tile && before.owner[i] == Some(from) { None } else { before.owner[i] },
                forall|i: int| 0 <= i < before.len() ==> #[trigger] self@.mortgaged[i] ==
                    if i < tile && before.owner[i] == Some(from) { false } else { before.mortgaged[i] },
                0 <= owned_weight_upto(before, from, returned_houses_weight(), tile as int) <= 4 * tile,
                0 <= owned_weight_upto(before, from, hotel_weight(), tile as int) <= tile,
                tiles@ == owned_upto(before.owner, from, tile as int),
            decreases before.len() - tile,
        {
            if self.owner[tile] == Some(from) {
                proof {
                    assert(self@.houses[tile as int] == before.houses[tile as int]);
                }
                self.release_buildings(board, tile);
                self.owner.set(tile, None);
                self.mortgaged.set(tile, false);
                tiles.push(tile);
            }
            tile = tile + 1;
            proof {
                assert(self@.houses =~= cleared_upto(before.owner, before.houses, from, tile as int));
            }
        }
        assert(self@.owner =~= Seq::new(before.len(), |i: int|
            if before.owner[i] == Some(from) { None } else { before.owner[i] }));
        assert(self@.mortgaged =~= Seq::new(before.len(), |i: int|
            if before.owner[i] == Some(from) { false } else { before.mortgaged[i] }));
        tiles
    }

    /// Overwrites owners, buildings and mortgages from a snapshot and sets the
    /// bank stock (restoring a saved game).
    pub fn restore(&mut self, tiles: &[TileDto], houses_available: u16, hotels_available: u16)
        requires
            old(self)@.wf(),
            old(self)@.len() > 0,
            forall|k: int| 0 <= k < tiles@.len() ==> (#[trigger] tiles@[k]).houses <= 5,
        ensures
            final(self)@ == (DeedsView {
                houses_available,
                hotels_available,
                ..restore_upto(old(self)@, tiles@.map_values(|t: TileDto| t@), tiles@.len() as int)
            }),
            final(self)@.wf(),
            final(self)@.len() == old(self)@.len(),
    {
        let ghost before = self@;
        let mut k: usize = 0;
        while k < tiles.len()
            invariant
                k <= tiles@.len(),
                before.wf(),
                before.len() > 0,
                forall|q: int| 0 <= q < tiles@.len() ==> (#[trigger] tiles@[q]).houses <= 5,
                self@ == restore_upto(before, tiles@.map_values(|t: TileDto| t@), k as int),
                self@.wf(),
                self@.len() == before.len(),
            decreases tiles@.len() - k,
        {
            let t = &tiles[k];
            let idx = t.id % self.owner.len();
            self.owner.set(idx, t.owner);
            self.houses.set(idx, t.houses);
            self.mortgaged.set(idx, t.mortgaged);
            k = k + 1;
        }
        self.houses_available = houses_available;
        self.hotels_available = hotels_available;
    }

    /// The house potential and the hotel stock of the register.
    pub fn stock_counts(&self) -> (r: (u64, u64))
        requires
            self@.wf(),
            self@.len() <= 80,
        ensures
            r.0 == self@.house_potential(),
            r.1 == self@.hotel_stock(),
    {
        let mut built: u64 = 0;
        let mut hotels: u64 = 0;
        let mut i: usize = 0;
        while i < self.houses.len()
            invariant
                i <= self.houses@.len(),
                self@.wf(),
                self@.len() <= 80,
                built == weighted_sum(self.houses@.take(i as int), built_weight()),
                hotels == weighted_sum(self.houses@.take(i as int), hotel_weight()),
                built <= i,
                hotels <= i,
            decreases self.houses@.len() - i,
        {
            proof {
                assert(self.houses@.take(i + 1).drop_last() =~= self.houses@.take(i as int));
            }
            let h = self.houses[i];
            if h > 0 {
                built = built + 1;
            }
            if h == 5 {
                hotels = hotels + 1;
            }
            i = i + 1;
        }
        proof { assert(self.houses@.take(self.houses@.len() as int) =~= self.houses@); }
        (self.houses_available as u64 + 4 * built, self.hotels_available as u64 + hotels)
    }

    /// Total worth of `player`'s tiles: price plus buildings times building cost.
    pub fn total_value(&self, board: &Board, player: u128) -> (r: i64)
        requires
            self@.fits(board),
        ensures
            r == value_upto(self@, board.tiles@, player, self@.len() as int),
    {
        let mut v: i64 = 0;
        let mut i: usize = 0;
        while i < self.owner.len()
            invariant
                i <= self@.len(),
                self@.fits(board),
                v == value_upto(self@, board.tiles@, player, i as int),
                0 <= v <= i * 600_000_000,
            decreases self@.len() - i,
        {
            if self.owner[i] == Some(player) {
                let t = &board.tiles[i];
                proof {
                    assert(t.amounts_bounded());
                    assert(self@.houses[i as int] <= 5);
                    assert(self@.houses[i as int] * t.building_cost <= 5 * 100_000_000) by (nonlinear_arith)
                        requires self@.houses[i as int] <= 5, t.building_cost <= 100_000_000;
                }
                v = v + (t.price + self.houses[i] as u32 * t.building_cost) as i64;
            }
            i = i + 1;
        }
        v
    }

    /// Houses (not hotels) standing on `player`'s tiles.
    pub fn total_houses(&self, player: u128) -> (r: u32)
        requires
            self@.wf(),
            self@.len() <= 80,
        ensures
            r == owned_weight_upto(self@, player, house_weight(), self@.len() as int),
    {
        let mut c: u32 = 0;
        let mut i: usize = 0;
        while i < self.owner.len()
            invariant
                i <= self@.len(),
                self@.wf(),
                self@.len() <= 80,
                c == owned_weight_upto(self@, player, house_weight(), i as int),
                c <= 4 * i,
            decreases self@.len() - i,
        {
            if self.owner[i] == Some(player) && self.houses[i] > 0 && self.houses[i] < 5 {
                c = c + self.houses[i] as u32;
            }
            i = i + 1;
        }
        c
    }

    /// Hotels standing on `player`'s tiles.
    pub fn total_hotels(&self, player: u128) -> (r: u32)
        requires
            self@.wf(),
            self@.len() <= 80,
        ensures
            r == owned_weight_upto(self@, player, hotel_weight(), self@.len() as int),
    {
        let mut c: u32 = 0;
        let mut i: usize = 0;
        while i < self.owner.len()
            invariant
                i <= self@.len(),
                self@.wf(),
                self@.len() <= 80,
                c == owned_weight_upto(self@, player, hotel_weight(), i as int),
                c <= i,
            decreases self@.len() - i,
        {
            if self.owner[i] == Some(player) && self.houses[i] == 5 {
                c = c + 1;
            }
            i = i + 1;
        }
        c
    }
}

} // verus!
