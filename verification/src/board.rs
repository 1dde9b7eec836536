//! The ring-shaped board: tile data, lookups, and the two world-edition layouts.

use vstd::prelude::*;
use crate::text::{decimal, decimal_string};

verus! {

/// Colour group of a property; owning a whole group is a monopoly.
#[derive(Debug, Clone, Copy, PartialEq, Eq, Structural)]
pub enum Group {
    Brown,
    LightBlue,
    Pink,
    Orange,
    Red,
    Yellow,
    Green,
    DarkBlue,
}

/// Kind of a tile.
#[derive(Debug, Clone, Copy, PartialEq, Eq, Structural)]
pub enum TileKind {
    Go,
    Property,
    Railroad,
    Utility,
    Chance,
    Fate,
    Tax,
    Jail,
    GoToJail,
    FreeParking,
}

impl TileKind {
    /// The variant's name.
    pub open spec fn spec_name(self) -> Seq<char> {
        match self {
            TileKind::Go => "Go"@,
            TileKind::Property => "Property"@,
            TileKind::Railroad => "Railroad"@,
            TileKind::Utility => "Utility"@,
            TileKind::Chance => "Chance"@,
            TileKind::Fate => "Fate"@,
            TileKind::Tax => "Tax"@,
            TileKind::Jail => "Jail"@,
            TileKind::GoToJail => "GoToJail"@,
            TileKind::FreeParking => "FreeParking"@,
        }
    }

    /// The variant's name.
    pub fn name(&self) -> (s: String)
        ensures
            s@ == self.spec_name(),
    {
        match self {
            TileKind::Go => String::from_str("Go"),
            TileKind::Property => String::from_str("Property"),
            TileKind::Railroad => String::from_str("Railroad"),
            TileKind::Utility => String::from_str("Utility"),
            TileKind::Chance => String::from_str("Chance"),
            TileKind::Fate => String::from_str("Fate"),
            TileKind::Tax => String::from_str("Tax"),
            TileKind::Jail => String::from_str("Jail"),
            TileKind::GoToJail => String::from_str("GoToJail"),
            TileKind::FreeParking => String::from_str("FreeParking"),
        }
    }
}

impl Group {
    /// The variant's name.
    pub open spec fn spec_name(self) -> Seq<char> {
        match self {
            Group::Brown => "Brown"@,
            Group::LightBlue => "LightBlue"@,
            Group::Pink => "Pink"@,
            Group::Orange => "Orange"@,
            Group::Red => "Red"@,
            Group::Yellow => "Yellow"@,
            Group::Green => "Green"@,
            Group::DarkBlue => "DarkBlue"@,
        }
    }

    /// The variant's name.
    pub fn name(&self) -> (s: String)
        ensures
            s@ == self.spec_name(),
    {
        match self {
            Group::Brown => String::from_str("Brown"),
            Group::LightBlue => String::from_str("LightBlue"),
            Group::Pink => String::from_str("Pink"),
            Group::Orange => String::from_str("Orange"),
            Group::Red => String::from_str("Red"),
            Group::Yellow => String::from_str("Yellow"),
            Group::Green => String::from_str("Green"),
            Group::DarkBlue => String::from_str("DarkBlue"),
        }
    }
}

/// One tile of the board.
#[derive(Debug)]
pub struct Tile {
    pub id: usize,
    pub name: String,
    pub kind: TileKind,
    pub group: Option<Group>,
    pub price: u32,
    pub base_rent: u32,
    pub rent_with_house: [u32; 4],
    pub hotel_rent: u32,
    pub building_cost: u32,
    pub mortgage_value: u32,
    /// Tax amount of a tax tile; 0 elsewhere.
    pub tax: u32,
    /// Income tax: the higher of the amount and a tenth of the payer's net worth.
    pub income_tax: bool,
}

impl Tile {
    /// Every amount on the tile is at most 10^8.
    pub open spec fn amounts_bounded(self) -> bool {
        &&& self.price <= 100_000_000
        &&& self.base_rent <= 100_000_000
        &&& self.rent_with_house@.len() == 4
        &&& forall|k: int| 0 <= k < 4 ==> #[trigger] self.rent_with_house@[k] <= 100_000_000
        &&& self.hotel_rent <= 100_000_000
        &&& self.building_cost <= 100_000_000
        &&& self.mortgage_value <= 100_000_000
        &&& self.tax <= 100_000_000
    }
}

impl Clone for Tile {
    fn clone(&self) -> (r: Self)
        ensures
            r == *self,
    {
        Tile {
            id: self.id,
            name: self.name.clone(),
            kind: self.kind,
            group: self.group,
            price: self.price,
            base_rent: self.base_rent,
            rent_with_house: self.rent_with_house,
            hotel_rent: self.hotel_rent,
            building_cost: self.building_cost,
            mortgage_value: self.mortgage_value,
            tax: self.tax,
            income_tax: self.income_tax,
        }
    }
}

/// The board, a ring of tiles.
#[derive(Debug)]
pub struct Board {
    pub tiles: Vec<Tile>,
}

/// Position `step` tiles ahead of `from` on a ring of `n` tiles.
pub open spec fn ahead(from: int, step: int, n: int) -> int {
    (from + step) % n
}

/// The first index `idx = (from + step) % n`, `step` in `1..=n`, whose tile has kind `kind`;
/// `from` itself when there is none.
pub open spec fn first_ahead(tiles: Seq<Tile>, from: int, kind: TileKind) -> int {
    let n = tiles.len() as int;
    if exists|step: int| 1 <= step <= n && #[trigger] tiles[(from + step) % n].kind == kind {
        let step = choose|step: int| #![trigger tiles[(from + step) % n]]
            1 <= step <= n && tiles[(from + step) % n].kind == kind
                && forall|s: int| 1 <= s < step ==> #[trigger] tiles[(from + s) % n].kind != kind;
        (from + step) % n
    } else {
        from
    }
}

/// Between 11 and 80 tiles, numbered by their index; every property belongs to
/// a group; no amount on a tile exceeds 10^8.
pub open spec fn tiles_wf(tiles: Seq<Tile>) -> bool {
    &&& tiles.len() > 10
    &&& tiles.len() <= 80
    &&& forall|i: int| 0 <= i < tiles.len() ==> (#[trigger] tiles[i]).amounts_bounded()
    &&& forall|i: int| 0 <= i < tiles.len() ==> (#[trigger] tiles[i]).id == i
    &&& forall|i: int| 0 <= i < tiles.len() && (#[trigger] tiles[i]).kind == TileKind::Property
            ==> tiles[i].group is Some
}

/// The `id` of the first jail tile of `tiles`; 10 when there is none.
pub open spec fn jail_index_in(tiles: Seq<Tile>) -> int {
    if exists|i: int| 0 <= i < tiles.len() && #[trigger] tiles[i].kind == TileKind::Jail {
        let i = choose|i: int| #![trigger tiles[i]] 0 <= i < tiles.len() && tiles[i].kind == TileKind::Jail
            && forall|j: int| 0 <= j < i ==> #[trigger] tiles[j].kind != TileKind::Jail;
        tiles[i].id as int
    } else {
        10
    }
}

/// On well-formed tiles the jail index is a position on the board (or 10).
pub proof fn lemma_jail_index_in_range(tiles: Seq<Tile>)
    requires
        tiles_wf(tiles),
    ensures
        0 <= jail_index_in(tiles) < tiles.len(),
{
    if exists|i: int| 0 <= i < tiles.len() && #[trigger] tiles[i].kind == TileKind::Jail {
        let w = choose|i: int| 0 <= i < tiles.len() && #[trigger] tiles[i].kind == TileKind::Jail;
        lemma_first_jail_exists(tiles, w);
        let i = choose|i: int| #![trigger tiles[i]] 0 <= i < tiles.len() && tiles[i].kind == TileKind::Jail
            && forall|j: int| 0 <= j < i ==> #[trigger] tiles[j].kind != TileKind::Jail;
        assert(tiles[i].id == i);
    }
}

/// When some tile is a jail, there is a first one.
pub proof fn lemma_first_jail_exists(tiles: Seq<Tile>, w: int)
    requires
        0 <= w < tiles.len(),
        tiles[w].kind == TileKind::Jail,
    ensures
        exists|i: int| #![trigger tiles[i]] 0 <= i < tiles.len() && tiles[i].kind == TileKind::Jail
            && forall|j: int| 0 <= j < i ==> #[trigger] tiles[j].kind != TileKind::Jail,
    decreases w,
{
    if exists|j: int| 0 <= j < w && #[trigger] tiles[j].kind == TileKind::Jail {
        let j = choose|j: int| 0 <= j < w && #[trigger] tiles[j].kind == TileKind::Jail;
        lemma_first_jail_exists(tiles, j);
    } else {
        assert(forall|j: int| 0 <= j < w ==> #[trigger] tiles[j].kind != TileKind::Jail);
    }
}

impl Board {
    /// The board's tiles are well formed (see [`tiles_wf`]).
    pub open spec fn wf(&self) -> bool {
        tiles_wf(self.tiles@)
    }

    /// The tile at position `id` around the ring.
    pub open spec fn spec_tile(&self, id: int) -> Tile {
        self.tiles@[id % (self.tiles@.len() as int)]
    }

    pub fn len(&self) -> (r: usize)
        ensures
            r == self.tiles@.len(),
    {
        self.tiles.len()
    }

    pub fn is_empty(&self) -> (r: bool)
        ensures
            r == (self.tiles@.len() == 0),
    {
        self.tiles.len() == 0
    }

    /// The tile at `id`, taken modulo the board's length.
    pub fn tile(&self, id: usize) -> (t: &Tile)
        requires
            self.tiles@.len() > 0,
        ensures
            *t == self.spec_tile(id as int),
    {
        &self.tiles[id % self.tiles.len()]
    }

    /// The index of the first jail tile, by its `id`; 10 when there is none.
    pub open spec fn spec_jail_index(&self) -> int {
        jail_index_in(self.tiles@)
    }

    pub fn jail_index(&self) -> (r: usize)
        ensures
            r == self.spec_jail_index(),
    {
        let mut i: usize = 0;
        while i < self.tiles.len()
            invariant
                i <= self.tiles@.len(),
                forall|j: int| 0 <= j < i ==> #[trigger] self.tiles@[j].kind != TileKind::Jail,
            decreases self.tiles@.len() - i,
        {
            if self.tiles[i].kind == TileKind::Jail {
                let ghost gi = i as int;
                proof {
                    let c = choose|k: int| #![trigger self.tiles@[k]] 0 <= k < self.tiles@.len() && self.tiles@[k].kind == TileKind::Jail
                        && forall|j: int| 0 <= j < k ==> #[trigger] self.tiles@[j].kind != TileKind::Jail;
                    assert(0 <= gi < self.tiles@.len() && self.tiles@[gi].kind == TileKind::Jail
                        && forall|j: int| 0 <= j < gi ==> #[trigger] self.tiles@[j].kind != TileKind::Jail);
                    if c < gi { assert(self.tiles@[c].kind != TileKind::Jail); }
                    if gi < c { assert(self.tiles@[gi].kind != TileKind::Jail); }
                }
                return self.tiles[i].id;
            }
            i = i + 1;
        }
        10
    }

    /// Going forward from `from`, the first position whose tile `pred` accepts;
    /// `from` when no tile is accepted within one lap.
    pub fn nearest_ahead<F: Fn(&Tile) -> bool>(&self, from: usize, pred: F) -> (r: usize)
        requires
            self.tiles@.len() > 0,
            from + self.tiles@.len() <= usize::MAX,
            forall|t: &Tile| pred.requires((t,)),
        ensures
            (exists|step: int| #![trigger ahead(from as int, step, self.tiles@.len() as int)]
                1 <= step <= self.tiles@.len() && r == ahead(from as int, step, self.tiles@.len() as int)
                && pred.ensures((&self.tiles@[r as int],), true)
                && forall|s: int| 1 <= s < step ==> #[trigger] pred.ensures((&self.tiles@[(from + s) % (self.tiles@.len() as int)],), false))
            || (r == from && forall|s: int| 1 <= s <= self.tiles@.len()
                ==> #[trigger] pred.ensures((&self.tiles@[(from + s) % (self.tiles@.len() as int)],), false)),
    {
        let n = self.tiles.len();
        let mut i: usize = 0;
        while i < n
            invariant
                i <= n,
                n == self.tiles@.len(),
                n > 0,
                from + n <= usize::MAX,
                forall|t: &Tile| pred.requires((t,)),
                forall|s: int| 1 <= s <= i ==> #[trigger] pred.ensures((&self.tiles@[(from + s) % (n as int)],), false),
            decreases n - i,
        {
            let idx = (from + i + 1) % n;
            if pred(&self.tiles[idx]) {
                assert(idx == ahead(from as int, i + 1, n as int));
                return idx;
            }
            i = i + 1;
        }
        from
    }

    /// The nearest railroad ahead of `from` (or `from` when there is none).
    pub fn nearest_railroad(&self, from: usize) -> (r: usize)
        requires
            self.tiles@.len() > 0,
            from + self.tiles@.len() <= usize::MAX,
        ensures
            r == first_ahead(self.tiles@, from as int, TileKind::Railroad),
    {
        self.nearest_kind(from, TileKind::Railroad)
    }

    /// The nearest utility ahead of `from` (or `from` when there is none).
    pub fn nearest_utility(&self, from: usize) -> (r: usize)
        requires
            self.tiles@.len() > 0,
            from + self.tiles@.len() <= usize::MAX,
        ensures
            r == first_ahead(self.tiles@, from as int, TileKind::Utility),
    {
        self.nearest_kind(from, TileKind::Utility)
    }

    fn nearest_kind(&self, from: usize, kind: TileKind) -> (r: usize)
        requires
            self.tiles@.len() > 0,
            from + self.tiles@.len() <= usize::MAX,
        ensures
            r == first_ahead(self.tiles@, from as int, kind),
    {
        let n = self.tiles.len();
        let mut i: usize = 0;
        while i < n
            invariant
                i <= n,
                n == self.tiles@.len(),
                n > 0,
                from + n <= usize::MAX,
                forall|s: int| 1 <= s <= i ==> #[trigger] self.tiles@[(from + s) % (n as int)].kind != kind,
            decreases n - i,
        {
            let idx = (from + i + 1) % n;
            if self.tiles[idx].kind == kind {
                proof { lemma_first_ahead_found(self.tiles@, from as int, kind, i + 1); }
                return idx;
            }
            i = i + 1;
        }
        proof { lemma_first_ahead_none(self.tiles@, from as int, kind); }
        from
    }
}

/// The nearest tile of a kind ahead of a position on the board is on the board.
pub proof fn lemma_first_ahead_range(tiles: Seq<Tile>, from: int, kind: TileKind)
    requires
        0 <= from < tiles.len(),
    ensures
        0 <= first_ahead(tiles, from, kind) < tiles.len(),
{
    lemma_first_ahead_scan(tiles, from, kind, 0);
}

proof fn lemma_first_ahead_scan(tiles: Seq<Tile>, from: int, kind: TileKind, i: int)
    requires
        0 <= from < tiles.len(),
        0 <= i <= tiles.len(),
        forall|s: int| 1 <= s <= i ==> #[trigger] tiles[(from + s) % (tiles.len() as int)].kind != kind,
    ensures
        0 <= first_ahead(tiles, from, kind) < tiles.len(),
    decreases tiles.len() - i,
{
    let n = tiles.len() as int;
    if i == n {
        lemma_first_ahead_none(tiles, from, kind);
    } else if tiles[(from + i + 1) % n].kind == kind {
        lemma_first_ahead_found(tiles, from, kind, i + 1);
        vstd::arithmetic::div_mod::lemma_mod_pos_bound(from + i + 1, n);
    } else {
        lemma_first_ahead_scan(tiles, from, kind, i + 1);
    }
}

proof fn lemma_first_ahead_found(tiles: Seq<Tile>, from: int, kind: TileKind, step: int)
    requires
        tiles.len() > 0,
        1 <= step <= tiles.len(),
        tiles[(from + step) % (tiles.len() as int)].kind == kind,
        forall|s: int| 1 <= s < step ==> #[trigger] tiles[(from + s) % (tiles.len() as int)].kind != kind,
    ensures
        first_ahead(tiles, from, kind) == (from + step) % (tiles.len() as int),
{
    let n = tiles.len() as int;
    let c = choose|st: int| #![trigger tiles[(from + st) % n]] 1 <= st <= n && tiles[(from + st) % n].kind == kind
        && forall|s: int| 1 <= s < st ==> #[trigger] tiles[(from + s) % n].kind != kind;
    assert(1 <= c <= n && tiles[(from + c) % n].kind == kind
        && forall|s: int| 1 <= s < c ==> #[trigger] tiles[(from + s) % n].kind != kind);
    if c < step {
        assert(tiles[(from + c) % n].kind != kind);
    }
    if step < c {
        assert(tiles[(from + step) % n].kind != kind);
    }
}

proof fn lemma_first_ahead_none(tiles: Seq<Tile>, from: int, kind: TileKind)
    requires
        tiles.len() > 0,
        forall|s: int| 1 <= s <= tiles.len() ==> #[trigger] tiles[(from + s) % (tiles.len() as int)].kind != kind,
    ensures
        first_ahead(tiles, from, kind) == from,
{
}

/// The board of the given size: 40 gives [`world_board`], 56 gives [`world_board_56`].
pub fn build_board(size: usize) -> (r: Result<Board, String>)
    ensures
        r is Ok <==> (size == 40 || size == 56),
        r matches Ok(b) ==> b.wf() && b.tiles@.len() == size
            && (size == 40 ==> forall|i: int| 0 <= i < 40 ==> world_tile(#[trigger] b.tiles@[i], i))
            && (size == 56 ==> forall|i: int| 0 <= i < 56 ==> world_56_tile(#[trigger] b.tiles@[i], i)),
        r matches Err(m) ==> m@ == "暂不支持 "@ + decimal(size as nat) + " 格棋盘，当前支持 40 / 56 格"@,
{
    if size == 40 {
        Ok(world_board())
    } else if size == 56 {
        Ok(world_board_56())
    } else {
        let m = String::from_str("暂不支持 ");
        let n = decimal_string(size as u64);
        let m = m.concat(n.as_str());
        Err(m.concat(" 格棋盘，当前支持 40 / 56 格"))
    }
}

/// Amounts are those of the classic edition times this factor.
pub const K: u32 = 10_000;

pub open spec fn is_prop(t: Tile, id: int, group: Group, price: nat, base: nat, h0: nat, h1: nat, h2: nat, h3: nat, hotel: nat, cost: nat) -> bool {
    &&& t.id == id
    &&& t.kind == TileKind::Property
    &&& t.group == Some(group)
    &&& t.price == price
    &&& t.base_rent == base
    &&& t.rent_with_house@.len() == 4
    &&& t.rent_with_house@[0] == h0
    &&& t.rent_with_house@[1] == h1
    &&& t.rent_with_house@[2] == h2
    &&& t.rent_with_house@[3] == h3
    &&& t.hotel_rent == hotel
    &&& t.building_cost == cost
    &&& t.mortgage_value == price / 2
    &&& t.tax == 0
    &&& !t.income_tax
}

pub open spec fn is_plain(t: Tile, id: int, kind: TileKind, price: nat, mortgage: nat, tax: nat, income: bool) -> bool {
    &&& t.id == id
    &&& t.kind == kind
    &&& t.group is None
    &&& t.price == price
    &&& t.base_rent == 0
    &&& t.rent_with_house@ == seq![0u32, 0u32, 0u32, 0u32]
    &&& t.hotel_rent == 0
    &&& t.building_cost == 0
    &&& t.mortgage_value == mortgage
    &&& t.tax == tax
    &&& t.income_tax == income
}

pub open spec fn is_simple(t: Tile, id: int, kind: TileKind) -> bool {
    is_plain(t, id, kind, 0nat, 0nat, 0nat, false)
}

pub open spec fn is_railroad(t: Tile, id: int) -> bool {
    is_plain(t, id, TileKind::Railroad, 200 * 10_000, 100 * 10_000, 0, false)
}

pub open spec fn is_utility(t: Tile, id: int) -> bool {
    is_plain(t, id, TileKind::Utility, 150 * 10_000, 75 * 10_000, 0, false)
}

pub open spec fn is_tax(t: Tile, id: int, amount: nat, income: bool) -> bool {
    is_plain(t, id, TileKind::Tax, 0nat, 0nat, amount, income)
}

/// A property tile; its mortgage value is half its price.
pub fn prop(id: usize, name: &str, group: Group, price: u32, base: u32, houses: [u32; 4], hotel: u32, cost: u32) -> (t: Tile)
    ensures
        t.name@ == name@,
        is_prop(t, id as int, group, price as nat, base as nat, houses@[0] as nat, houses@[1] as nat, houses@[2] as nat, houses@[3] as nat, hotel as nat, cost as nat),
{
    let t = Tile {
        id,
        name: name.to_string(),
        kind: TileKind::Property,
        group: Some(group),
        price,
        base_rent: base,
        rent_with_house: houses,
        hotel_rent: hotel,
        building_cost: cost,
        mortgage_value: price / 2,
        tax: 0,
        income_tax: false,
    };
    proof {
        vstd::string::to_string_from_display_ensures_for_str(name, t.name);
    }
    t
}

fn plain(id: usize, name: &str, kind: TileKind, price: u32, mortgage: u32, tax: u32, income: bool) -> (t: Tile)
    ensures
        t.name@ == name@,
        is_plain(t, id as int, kind, price as nat, mortgage as nat, tax as nat, income),
{
    let t = Tile {
        id,
        name: name.to_string(),
        kind,
        group: None,
        price,
        base_rent: 0,
        rent_with_house: [0; 4],
        hotel_rent: 0,
        building_cost: 0,
        mortgage_value: mortgage,
        tax,
        income_tax: income,
    };
    proof {
        vstd::string::to_string_from_display_ensures_for_str(name, t.name);
        assert(t.rent_with_house@ =~= seq![0u32, 0u32, 0u32, 0u32]);
    }
    t
}

/// A tile with no price, rent or tax (GO, jail, chance, ...).
pub fn simple(id: usize, name: &str, kind: TileKind) -> (t: Tile)
    ensures
        t.name@ == name@,
        is_simple(t, id as int, kind),
{
    plain(id, name, kind, 0, 0, 0, false)
}

/// A railroad: price 2M, mortgage value 1M.
pub fn railroad(id: usize, name: &str) -> (t: Tile)
    ensures
        t.name@ == name@,
        is_railroad(t, id as int),
{
    plain(id, name, TileKind::Railroad, 200 * K, 100 * K, 0, false)
}

/// A utility: price 1.5M, mortgage value 750K.
pub fn utility(id: usize, name: &str) -> (t: Tile)
    ensures
        t.name@ == name@,
        is_utility(t, id as int),
{
    plain(id, name, TileKind::Utility, 150 * K, 75 * K, 0, false)
}

/// A tax tile charging `amount` (or, for income tax, the higher of it and a tenth of net worth).
pub fn tax(id: usize, name: &str, amount: u32, income: bool) -> (t: Tile)
    ensures
        t.name@ == name@,
        is_tax(t, id as int, amount as nat, income),
{
    plain(id, name, TileKind::Tax, 0, 0, amount, income)
}

/// The tile at index `i` of the board that `world_board` builds.
pub open spec fn world_tile(t: Tile, i: int) -> bool {
    if i == 0 { t.name@ == "起点 GO"@ && is_simple(t, 0, TileKind::Go) }
    else if i == 1 { t.name@ == "格丁尼亚"@ && is_prop(t, 1, Group::Brown, 60 * 10_000, 2 * 10_000, 10 * 10_000, 30 * 10_000, 90 * 10_000, 160 * 10_000, 250 * 10_000, 50 * 10_000) }
    else if i == 2 { t.name@ == "命运"@ && is_simple(t, 2, TileKind::Fate) }
    else if i == 3 { t.name@ == "台北"@ && is_prop(t, 3, Group::Brown, 60 * 10_000, 4 * 10_000, 20 * 10_000, 60 * 10_000, 180 * 10_000, 320 * 10_000, 450 * 10_000, 50 * 10_000) }
    else if i == 4 { t.name@ == "所得税"@ && is_tax(t, 4, 200 * 10_000, true) }
    else if i == 5 { t.name@ == "大富翁铁路"@ && is_railroad(t, 5) }
    else if i == 6 { t.name@ == "东京"@ && is_prop(t, 6, Group::LightBlue, 100 * 10_000, 6 * 10_000, 30 * 10_000, 90 * 10_000, 270 * 10_000, 400 * 10_000, 550 * 10_000, 50 * 10_000) }
    else if i == 7 { t.name@ == "机会"@ && is_simple(t, 7, TileKind::Chance) }
    else if i == 8 { t.name@ == "巴塞罗那"@ && is_prop(t, 8, Group::LightBlue, 100 * 10_000, 6 * 10_000, 30 * 10_000, 90 * 10_000, 270 * 10_000, 400 * 10_000, 550 * 10_000, 50 * 10_000) }
    else if i == 9 { t.name@ == "雅典"@ && is_prop(t, 9, Group::LightBlue, 120 * 10_000, 8 * 10_000, 40 * 10_000, 100 * 10_000, 300 * 10_000, 450 * 10_000, 600 * 10_000, 50 * 10_000) }
    else if i == 10 { t.name@ == "监狱 / 探访"@ && is_simple(t, 10, TileKind::Jail) }
    else if i == 11 { t.name@ == "伊斯坦布尔"@ && is_prop(t, 11, Group::Pink, 140 * 10_000, 10 * 10_000, 50 * 10_000, 150 * 10_000, 450 * 10_000, 625 * 10_000, 750 * 10_000, 100 * 10_000) }
    else if i == 12 { t.name@ == "太阳能电站"@ && is_utility(t, 12) }
    else if i == 13 { t.name@ == "基辅"@ && is_prop(t, 13, Group::Pink, 140 * 10_000, 10 * 10_000, 50 * 10_000, 150 * 10_000, 450 * 10_000, 625 * 10_000, 750 * 10_000, 100 * 10_000) }
    else if i == 14 { t.name@ == "多伦多"@ && is_prop(t, 14, Group::Pink, 160 * 10_000, 12 * 10_000, 60 * 10_000, 180 * 10_000, 500 * 10_000, 700 * 10_000, 900 * 10_000, 100 * 10_000) }
    else if i == 15 { t.name@ == "大富翁航空"@ && is_railroad(t, 15) }
    else if i == 16 { t.name@ == "罗马"@ && is_prop(t, 16, Group::Orange, 180 * 10_000, 14 * 10_000, 70 * 10_000, 200 * 10_000, 550 * 10_000, 750 * 10_000, 950 * 10_000, 100 * 10_000) }
    else if i == 17 { t.name@ == "命运"@ && is_simple(t, 17, TileKind::Fate) }
    else if i == 18 { t.name@ == "上海"@ && is_prop(t, 18, Group::Orange, 180 * 10_000, 14 * 10_000, 70 * 10_000, 200 * 10_000, 550 * 10_000, 750 * 10_000, 950 * 10_000, 100 * 10_000) }
    else if i == 19 { t.name@ == "温哥华"@ && is_prop(t, 19, Group::Orange, 200 * 10_000, 16 * 10_000, 80 * 10_000, 220 * 10_000, 600 * 10_000, 800 * 10_000, 1000 * 10_000, 100 * 10_000) }
    else if i == 20 { t.name@ == "免费停车"@ && is_simple(t, 20, TileKind::FreeParking) }
    else if i == 21 { t.name@ == "悉尼"@ && is_prop(t, 21, Group::Red, 220 * 10_000, 18 * 10_000, 90 * 10_000, 250 * 10_000, 700 * 10_000, 875 * 10_000, 1050 * 10_000, 150 * 10_000) }
    else if i == 22 { t.name@ == "机会"@ && is_simple(t, 22, TileKind::Chance) }
    else if i == 23 { t.name@ == "纽约"@ && is_prop(t, 23, Group::Red, 240 * 10_000, 20 * 10_000, 100 * 10_000, 300 * 10_000, 750 * 10_000, 925 * 10_000, 1100 * 10_000, 150 * 10_000) }
    else if i == 24 { t.name@ == "伦敦"@ && is_prop(t, 24, Group::Red, 260 * 10_000, 22 * 10_000, 110 * 10_000, 330 * 10_000, 800 * 10_000, 975 * 10_000, 1150 * 10_000, 150 * 10_000) }
    else if i == 25 { t.name@ == "大富翁邮轮"@ && is_railroad(t, 25) }
    else if i == 26 { t.name@ == "北京"@ && is_prop(t, 26, Group::Yellow, 260 * 10_000, 22 * 10_000, 110 * 10_000, 330 * 10_000, 800 * 10_000, 975 * 10_000, 1150 * 10_000, 150 * 10_000) }
    else if i == 27 { t.name@ == "香港"@ && is_prop(t, 27, Group::Yellow, 260 * 10_000, 22 * 10_000, 110 * 10_000, 330 * 10_000, 800 * 10_000, 975 * 10_000, 1150 * 10_000, 150 * 10_000) }
    else if i == 28 { t.name@ == "风能电站"@ && is_utility(t, 28) }
    else if i == 29 { t.name@ == "耶路撒冷"@ && is_prop(t, 29, Group::Yellow, 280 * 10_000, 24 * 10_000, 120 * 10_000, 360 * 10_000, 850 * 10_000, 1025 * 10_000, 1200 * 10_000, 150 * 10_000) }
    else if i == 30 { t.name@ == "入狱"@ && is_simple(t, 30, TileKind::GoToJail) }
    else if i == 31 { t.name@ == "巴黎"@ && is_prop(t, 31, Group::Green, 300 * 10_000, 26 * 10_000, 130 * 10_000, 390 * 10_000, 900 * 10_000, 1100 * 10_000, 1275 * 10_000, 200 * 10_000) }
    else if i == 32 { t.name@ == "贝尔格莱德"@ && is_prop(t, 32, Group::Green, 300 * 10_000, 26 * 10_000, 130 * 10_000, 390 * 10_000, 900 * 10_000, 1100 * 10_000, 1275 * 10_000, 200 * 10_000) }
    else if i == 33 { t.name@ == "命运"@ && is_simple(t, 33, TileKind::Fate) }
    else if i == 34 { t.name@ == "开普敦"@ && is_prop(t, 34, Group::Green, 320 * 10_000, 28 * 10_000, 150 * 10_000, 450 * 10_000, 1000 * 10_000, 1200 * 10_000, 1400 * 10_000, 200 * 10_000) }
    else if i == 35 { t.name@ == "大富翁航天"@ && is_railroad(t, 35) }
    else if i == 36 { t.name@ == "机会"@ && is_simple(t, 36, TileKind::Chance) }
    else if i == 37 { t.name@ == "里加"@ && is_prop(t, 37, Group::DarkBlue, 350 * 10_000, 35 * 10_000, 175 * 10_000, 500 * 10_000, 1100 * 10_000, 1300 * 10_000, 1500 * 10_000, 200 * 10_000) }
    else if i == 38 { t.name@ == "超级税"@ && is_tax(t, 38, 100 * 10_000, false) }
    else if i == 39 { t.name@ == "蒙特利尔"@ && is_prop(t, 39, Group::DarkBlue, 400 * 10_000, 50 * 10_000, 200 * 10_000, 600 * 10_000, 1400 * 10_000, 1700 * 10_000, 2000 * 10_000, 200 * 10_000) }
    else { false }
}

/// The world edition on the classic 40-tile layout: 22 cities, four transport
/// lines, two power plants; every amount is the classic one times 10000.
pub fn world_board() -> (b: Board)
    ensures
        b.wf(),
        b.tiles@.len() == 40,
        forall|i: int| 0 <= i < 40 ==> world_tile(#[trigger] b.tiles@[i], i),
{
    let tiles = vec![
        simple(0, "起点 GO", TileKind::Go),
        prop(1, "格丁尼亚", Group::Brown, 60 * K, 2 * K, [10 * K, 30 * K, 90 * K, 160 * K], 250 * K, 50 * K),
        simple(2, "命运", TileKind::Fate),
        prop(3, "台北", Group::Brown, 60 * K, 4 * K, [20 * K, 60 * K, 180 * K, 320 * K], 450 * K, 50 * K),
        tax(4, "所得税", 200 * K, true),
        railroad(5, "大富翁铁路"),
        prop(6, "东京", Group::LightBlue, 100 * K, 6 * K, [30 * K, 90 * K, 270 * K, 400 * K], 550 * K, 50 * K),
        simple(7, "机会", TileKind::Chance),
        prop(8, "巴塞罗那", Group::LightBlue, 100 * K, 6 * K, [30 * K, 90 * K, 270 * K, 400 * K], 550 * K, 50 * K),
        prop(9, "雅典", Group::LightBlue, 120 * K, 8 * K, [40 * K, 100 * K, 300 * K, 450 * K], 600 * K, 50 * K),
        simple(10, "监狱 / 探访", TileKind::Jail),
        prop(11, "伊斯坦布尔", Group::Pink, 140 * K, 10 * K, [50 * K, 150 * K, 450 * K, 625 * K], 750 * K, 100 * K),
        utility(12, "太阳能电站"),
        prop(13, "基辅", Group::Pink, 140 * K, 10 * K, [50 * K, 150 * K, 450 * K, 625 * K], 750 * K, 100 * K),
        prop(14, "多伦多", Group::Pink, 160 * K, 12 * K, [60 * K, 180 * K, 500 * K, 700 * K], 900 * K, 100 * K),
        railroad(15, "大富翁航空"),
        prop(16, "罗马", Group::Orange, 180 * K, 14 * K, [70 * K, 200 * K, 550 * K, 750 * K], 950 * K, 100 * K),
        simple(17, "命运", TileKind::Fate),
        prop(18, "上海", Group::Orange, 180 * K, 14 * K, [70 * K, 200 * K, 550 * K, 750 * K], 950 * K, 100 * K),
        prop(19, "温哥华", Group::Orange, 200 * K, 16 * K, [80 * K, 220 * K, 600 * K, 800 * K], 1000 * K, 100 * K),
        simple(20, "免费停车", TileKind::FreeParking),
        prop(21, "悉尼", Group::Red, 220 * K, 18 * K, [90 * K, 250 * K, 700 * K, 875 * K], 1050 * K, 150 * K),
        simple(22, "机会", TileKind::Chance),
        prop(23, "纽约", Group::Red, 240 * K, 20 * K, [100 * K, 300 * K, 750 * K, 925 * K], 1100 * K, 150 * K),
        prop(24, "伦敦", Group::Red, 260 * K, 22 * K, [110 * K, 330 * K, 800 * K, 975 * K], 1150 * K, 150 * K),
        railroad(25, "大富翁邮轮"),
        prop(26, "北京", Group::Yellow, 260 * K, 22 * K, [110 * K, 330 * K, 800 * K, 975 * K], 1150 * K, 150 * K),
        prop(27, "香港", Group::Yellow, 260 * K, 22 * K, [110 * K, 330 * K, 800 * K, 975 * K], 1150 * K, 150 * K),
        utility(28, "风能电站"),
        prop(29, "耶路撒冷", Group::Yellow, 280 * K, 24 * K, [120 * K, 360 * K, 850 * K, 1025 * K], 1200 * K, 150 * K),
        simple(30, "入狱", TileKind::GoToJail),
        prop(31, "巴黎", Group::Green, 300 * K, 26 * K, [130 * K, 390 * K, 900 * K, 1100 * K], 1275 * K, 200 * K),
        prop(32, "贝尔格莱德", Group::Green, 300 * K, 26 * K, [130 * K, 390 * K, 900 * K, 1100 * K], 1275 * K, 200 * K),
        simple(33, "命运", TileKind::Fate),
        prop(34, "开普敦", Group::Green, 320 * K, 28 * K, [150 * K, 450 * K, 1000 * K, 1200 * K], 1400 * K, 200 * K),
        railroad(35, "大富翁航天"),
        simple(36, "机会", TileKind::Chance),
        prop(37, "里加", Group::DarkBlue, 350 * K, 35 * K, [175 * K, 500 * K, 1100 * K, 1300 * K], 1500 * K, 200 * K),
        tax(38, "超级税", 100 * K, false),
        prop(39, "蒙特利尔", Group::DarkBlue, 400 * K, 50 * K, [200 * K, 600 * K, 1400 * K, 1700 * K], 2000 * K, 200 * K),
    ];
    assert(world_tile(tiles@[0], 0));
    assert(world_tile(tiles@[1], 1));
    assert(world_tile(tiles@[2], 2));
    assert(world_tile(tiles@[3], 3));
    assert(world_tile(tiles@[4], 4));
    assert(world_tile(tiles@[5], 5));
    assert(world_tile(tiles@[6], 6));
    assert(world_tile(tiles@[7], 7));
    assert(world_tile(tiles@[8], 8));
    assert(world_tile(tiles@[9], 9));
    assert(world_tile(tiles@[10], 10));
    assert(world_tile(tiles@[11], 11));
    assert(world_tile(tiles@[12], 12));
    assert(world_tile(tiles@[13], 13));
    assert(world_tile(tiles@[14], 14));
    assert(world_tile(tiles@[15], 15));
    assert(world_tile(tiles@[16], 16));
    assert(world_tile(tiles@[17], 17));
    assert(world_tile(tiles@[18], 18));
    assert(world_tile(tiles@[19], 19));
    assert(world_tile(tiles@[20], 20));
    assert(world_tile(tiles@[21], 21));
    assert(world_tile(tiles@[22], 22));
    assert(world_tile(tiles@[23], 23));
    assert(world_tile(tiles@[24], 24));
    assert(world_tile(tiles@[25], 25));
    assert(world_tile(tiles@[26], 26));
    assert(world_tile(tiles@[27], 27));
    assert(world_tile(tiles@[28], 28));
    assert(world_tile(tiles@[29], 29));
    assert(world_tile(tiles@[30], 30));
    assert(world_tile(tiles@[31], 31));
    assert(world_tile(tiles@[32], 32));
    assert(world_tile(tiles@[33], 33));
    assert(world_tile(tiles@[34], 34));
    assert(world_tile(tiles@[35], 35));
    assert(world_tile(tiles@[36], 36));
    assert(world_tile(tiles@[37], 37));
    assert(world_tile(tiles@[38], 38));
    assert(world_tile(tiles@[39], 39));
    let b = Board { tiles };
    assert forall|i: int| 0 <= i < 40 implies world_tile(#[trigger] b.tiles@[i], i) && b.tiles@[i].id == i
        && b.tiles@[i].amounts_bounded()
        && (b.tiles@[i].kind == TileKind::Property ==> b.tiles@[i].group is Some) by {
    }
    b
}

/// The tile at index `i` of the board that `world_board_56` builds.
pub open spec fn world_56_tile(t: Tile, i: int) -> bool {
    if i == 0 { t.name@ == "起点 GO"@ && is_simple(t, 0, TileKind::Go) }
    else if i == 1 { t.name@ == "格丁尼亚"@ && is_prop(t, 1, Group::Brown, 60 * 10_000, 2 * 10_000, 10 * 10_000, 30 * 10_000, 90 * 10_000, 160 * 10_000, 250 * 10_000, 50 * 10_000) }
    else if i == 2 { t.name@ == "河内"@ && is_prop(t, 2, Group::Brown, 60 * 10_000, 2 * 10_000, 10 * 10_000, 30 * 10_000, 90 * 10_000, 160 * 10_000, 250 * 10_000, 50 * 10_000) }
    else if i == 3 { t.name@ == "命运"@ && is_simple(t, 3, TileKind::Fate) }
    else if i == 4 { t.name@ == "台北"@ && is_prop(t, 4, Group::Brown, 60 * 10_000, 4 * 10_000, 20 * 10_000, 60 * 10_000, 180 * 10_000, 320 * 10_000, 450 * 10_000, 50 * 10_000) }
    else if i == 5 { t.name@ == "内罗毕"@ && is_prop(t, 5, Group::Brown, 60 * 10_000, 4 * 10_000, 20 * 10_000, 60 * 10_000, 180 * 10_000, 320 * 10_000, 450 * 10_000, 50 * 10_000) }
    else if i == 6 { t.name@ == "所得税"@ && is_tax(t, 6, 200 * 10_000, true) }
    else if i == 7 { t.name@ == "大富翁铁路"@ && is_railroad(t, 7) }
    else if i == 8 { t.name@ == "东京"@ && is_prop(t, 8, Group::LightBlue, 100 * 10_000, 6 * 10_000, 30 * 10_000, 90 * 10_000, 270 * 10_000, 400 * 10_000, 550 * 10_000, 50 * 10_000) }
    else if i == 9 { t.name@ == "机会"@ && is_simple(t, 9, TileKind::Chance) }
    else if i == 10 { t.name@ == "巴塞罗那"@ && is_prop(t, 10, Group::LightBlue, 100 * 10_000, 6 * 10_000, 30 * 10_000, 90 * 10_000, 270 * 10_000, 400 * 10_000, 550 * 10_000, 50 * 10_000) }
    else if i == 11 { t.name@ == "雅典"@ && is_prop(t, 11, Group::LightBlue, 120 * 10_000, 8 * 10_000, 40 * 10_000, 100 * 10_000, 300 * 10_000, 450 * 10_000, 600 * 10_000, 50 * 10_000) }
    else if i == 12 { t.name@ == "曼谷"@ && is_prop(t, 12, Group::LightBlue, 120 * 10_000, 8 * 10_000, 40 * 10_000, 100 * 10_000, 300 * 10_000, 450 * 10_000, 600 * 10_000, 50 * 10_000) }
    else if i == 13 { t.name@ == "里斯本"@ && is_prop(t, 13, Group::LightBlue, 120 * 10_000, 8 * 10_000, 40 * 10_000, 100 * 10_000, 300 * 10_000, 450 * 10_000, 600 * 10_000, 50 * 10_000) }
    else if i == 14 { t.name@ == "监狱 / 探访"@ && is_simple(t, 14, TileKind::Jail) }
    else if i == 15 { t.name@ == "伊斯坦布尔"@ && is_prop(t, 15, Group::Pink, 140 * 10_000, 10 * 10_000, 50 * 10_000, 150 * 10_000, 450 * 10_000, 625 * 10_000, 750 * 10_000, 100 * 10_000) }
    else if i == 16 { t.name@ == "基辅"@ && is_prop(t, 16, Group::Pink, 140 * 10_000, 10 * 10_000, 50 * 10_000, 150 * 10_000, 450 * 10_000, 625 * 10_000, 750 * 10_000, 100 * 10_000) }
    else if i == 17 { t.name@ == "太阳能电站"@ && is_utility(t, 17) }
    else if i == 18 { t.name@ == "多伦多"@ && is_prop(t, 18, Group::Pink, 140 * 10_000, 10 * 10_000, 50 * 10_000, 150 * 10_000, 450 * 10_000, 625 * 10_000, 750 * 10_000, 100 * 10_000) }
    else if i == 19 { t.name@ == "布达佩斯"@ && is_prop(t, 19, Group::Pink, 160 * 10_000, 12 * 10_000, 60 * 10_000, 180 * 10_000, 500 * 10_000, 700 * 10_000, 900 * 10_000, 100 * 10_000) }
    else if i == 20 { t.name@ == "华沙"@ && is_prop(t, 20, Group::Pink, 160 * 10_000, 12 * 10_000, 60 * 10_000, 180 * 10_000, 500 * 10_000, 700 * 10_000, 900 * 10_000, 100 * 10_000) }
    else if i == 21 { t.name@ == "大富翁航空"@ && is_railroad(t, 21) }
    else if i == 22 { t.name@ == "罗马"@ && is_prop(t, 22, Group::Orange, 180 * 10_000, 14 * 10_000, 70 * 10_000, 200 * 10_000, 550 * 10_000, 750 * 10_000, 950 * 10_000, 100 * 10_000) }
    else if i == 23 { t.name@ == "命运"@ && is_simple(t, 23, TileKind::Fate) }
    else if i == 24 { t.name@ == "上海"@ && is_prop(t, 24, Group::Orange, 180 * 10_000, 14 * 10_000, 70 * 10_000, 200 * 10_000, 550 * 10_000, 750 * 10_000, 950 * 10_000, 100 * 10_000) }
    else if i == 25 { t.name@ == "米兰"@ && is_prop(t, 25, Group::Orange, 180 * 10_000, 14 * 10_000, 70 * 10_000, 200 * 10_000, 550 * 10_000, 750 * 10_000, 950 * 10_000, 100 * 10_000) }
    else if i == 26 { t.name@ == "温哥华"@ && is_prop(t, 26, Group::Orange, 200 * 10_000, 16 * 10_000, 80 * 10_000, 220 * 10_000, 600 * 10_000, 800 * 10_000, 1000 * 10_000, 100 * 10_000) }
    else if i == 27 { t.name@ == "新加坡"@ && is_prop(t, 27, Group::Orange, 200 * 10_000, 16 * 10_000, 80 * 10_000, 220 * 10_000, 600 * 10_000, 800 * 10_000, 1000 * 10_000, 100 * 10_000) }
    else if i == 28 { t.name@ == "免费停车"@ && is_simple(t, 28, TileKind::FreeParking) }
    else if i == 29 { t.name@ == "悉尼"@ && is_prop(t, 29, Group::Red, 220 * 10_000, 18 * 10_000, 90 * 10_000, 250 * 10_000, 700 * 10_000, 875 * 10_000, 1050 * 10_000, 150 * 10_000) }
    else if i == 30 { t.name@ == "芝加哥"@ && is_prop(t, 30, Group::Red, 220 * 10_000, 18 * 10_000, 90 * 10_000, 250 * 10_000, 700 * 10_000, 875 * 10_000, 1050 * 10_000, 150 * 10_000) }
    else if i == 31 { t.name@ == "机会"@ && is_simple(t, 31, TileKind::Chance) }
    else if i == 32 { t.name@ == "纽约"@ && is_prop(t, 32, Group::Red, 240 * 10_000, 20 * 10_000, 100 * 10_000, 300 * 10_000, 750 * 10_000, 925 * 10_000, 1100 * 10_000, 150 * 10_000) }
    else if i == 33 { t.name@ == "旧金山"@ && is_prop(t, 33, Group::Red, 240 * 10_000, 20 * 10_000, 100 * 10_000, 300 * 10_000, 750 * 10_000, 925 * 10_000, 1100 * 10_000, 150 * 10_000) }
    else if i == 34 { t.name@ == "伦敦"@ && is_prop(t, 34, Group::Red, 260 * 10_000, 22 * 10_000, 110 * 10_000, 330 * 10_000, 800 * 10_000, 975 * 10_000, 1150 * 10_000, 150 * 10_000) }
    else if i == 35 { t.name@ == "大富翁邮轮"@ && is_railroad(t, 35) }
    else if i == 36 { t.name@ == "北京"@ && is_prop(t, 36, Group::Yellow, 260 * 10_000, 22 * 10_000, 110 * 10_000, 330 * 10_000, 800 * 10_000, 975 * 10_000, 1150 * 10_000, 150 * 10_000) }
    else if i == 37 { t.name@ == "香港"@ && is_prop(t, 37, Group::Yellow, 260 * 10_000, 22 * 10_000, 110 * 10_000, 330 * 10_000, 800 * 10_000, 975 * 10_000, 1150 * 10_000, 150 * 10_000) }
    else if i == 38 { t.name@ == "风能电站"@ && is_utility(t, 38) }
    else if i == 39 { t.name@ == "耶路撒冷"@ && is_prop(t, 39, Group::Yellow, 280 * 10_000, 24 * 10_000, 120 * 10_000, 360 * 10_000, 850 * 10_000, 1025 * 10_000, 1200 * 10_000, 150 * 10_000) }
    else if i == 40 { t.name@ == "慕尼黑"@ && is_prop(t, 40, Group::Yellow, 280 * 10_000, 24 * 10_000, 120 * 10_000, 360 * 10_000, 850 * 10_000, 1025 * 10_000, 1200 * 10_000, 150 * 10_000) }
    else if i == 41 { t.name@ == "首尔"@ && is_prop(t, 41, Group::Yellow, 280 * 10_000, 24 * 10_000, 120 * 10_000, 360 * 10_000, 850 * 10_000, 1025 * 10_000, 1200 * 10_000, 150 * 10_000) }
    else if i == 42 { t.name@ == "入狱"@ && is_simple(t, 42, TileKind::GoToJail) }
    else if i == 43 { t.name@ == "巴黎"@ && is_prop(t, 43, Group::Green, 300 * 10_000, 26 * 10_000, 130 * 10_000, 390 * 10_000, 900 * 10_000, 1100 * 10_000, 1275 * 10_000, 200 * 10_000) }
    else if i == 44 { t.name@ == "柏林"@ && is_prop(t, 44, Group::Green, 300 * 10_000, 26 * 10_000, 130 * 10_000, 390 * 10_000, 900 * 10_000, 1100 * 10_000, 1275 * 10_000, 200 * 10_000) }
    else if i == 45 { t.name@ == "贝尔格莱德"@ && is_prop(t, 45, Group::Green, 300 * 10_000, 26 * 10_000, 130 * 10_000, 390 * 10_000, 900 * 10_000, 1100 * 10_000, 1275 * 10_000, 200 * 10_000) }
    else if i == 46 { t.name@ == "迪拜"@ && is_prop(t, 46, Group::Green, 320 * 10_000, 28 * 10_000, 150 * 10_000, 450 * 10_000, 1000 * 10_000, 1200 * 10_000, 1400 * 10_000, 200 * 10_000) }
    else if i == 47 { t.name@ == "开普敦"@ && is_prop(t, 47, Group::Green, 320 * 10_000, 28 * 10_000, 150 * 10_000, 450 * 10_000, 1000 * 10_000, 1200 * 10_000, 1400 * 10_000, 200 * 10_000) }
    else if i == 48 { t.name@ == "命运"@ && is_simple(t, 48, TileKind::Fate) }
    else if i == 49 { t.name@ == "大富翁航天"@ && is_railroad(t, 49) }
    else if i == 50 { t.name@ == "机会"@ && is_simple(t, 50, TileKind::Chance) }
    else if i == 51 { t.name@ == "里加"@ && is_prop(t, 51, Group::DarkBlue, 350 * 10_000, 35 * 10_000, 175 * 10_000, 500 * 10_000, 1100 * 10_000, 1300 * 10_000, 1500 * 10_000, 200 * 10_000) }
    else if i == 52 { t.name@ == "摩纳哥"@ && is_prop(t, 52, Group::DarkBlue, 350 * 10_000, 35 * 10_000, 175 * 10_000, 500 * 10_000, 1100 * 10_000, 1300 * 10_000, 1500 * 10_000, 200 * 10_000) }
    else if i == 53 { t.name@ == "超级税"@ && is_tax(t, 53, 100 * 10_000, false) }
    else if i == 54 { t.name@ == "洛杉矶"@ && is_prop(t, 54, Group::DarkBlue, 400 * 10_000, 50 * 10_000, 200 * 10_000, 600 * 10_000, 1400 * 10_000, 1700 * 10_000, 2000 * 10_000, 200 * 10_000) }
    else if i == 55 { t.name@ == "蒙特利尔"@ && is_prop(t, 55, Group::DarkBlue, 400 * 10_000, 50 * 10_000, 200 * 10_000, 600 * 10_000, 1400 * 10_000, 1700 * 10_000, 2000 * 10_000, 200 * 10_000) }
    else { false }
}

/// The extended 56-tile world edition: two more cities per colour group, corners at 0/14/28/42.
pub fn world_board_56() -> (b: Board)
    ensures
        b.wf(),
        b.tiles@.len() == 56,
        forall|i: int| 0 <= i < 56 ==> world_56_tile(#[trigger] b.tiles@[i], i),
{
    let tiles = vec![
        simple(0, "起点 GO", TileKind::Go),
        prop(1, "格丁尼亚", Group::Brown, 60 * K, 2 * K, [10 * K, 30 * K, 90 * K, 160 * K], 250 * K, 50 * K),
        prop(2, "河内", Group::Brown, 60 * K, 2 * K, [10 * K, 30 * K, 90 * K, 160 * K], 250 * K, 50 * K),
        simple(3, "命运", TileKind::Fate),
        prop(4, "台北", Group::Brown, 60 * K, 4 * K, [20 * K, 60 * K, 180 * K, 320 * K], 450 * K, 50 * K),
        prop(5, "内罗毕", Group::Brown, 60 * K, 4 * K, [20 * K, 60 * K, 180 * K, 320 * K], 450 * K, 50 * K),
        tax(6, "所得税", 200 * K, true),
        railroad(7, "大富翁铁路"),
        prop(8, "东京", Group::LightBlue, 100 * K, 6 * K, [30 * K, 90 * K, 270 * K, 400 * K], 550 * K, 50 * K),
        simple(9, "机会", TileKind::Chance),
        prop(10, "巴塞罗那", Group::LightBlue, 100 * K, 6 * K, [30 * K, 90 * K, 270 * K, 400 * K], 550 * K, 50 * K),
        prop(11, "雅典", Group::LightBlue, 120 * K, 8 * K, [40 * K, 100 * K, 300 * K, 450 * K], 600 * K, 50 * K),
        prop(12, "曼谷", Group::LightBlue, 120 * K, 8 * K, [40 * K, 100 * K, 300 * K, 450 * K], 600 * K, 50 * K),
        prop(13, "里斯本", Group::LightBlue, 120 * K, 8 * K, [40 * K, 100 * K, 300 * K, 450 * K], 600 * K, 50 * K),
        simple(14, "监狱 / 探访", TileKind::Jail),
        prop(15, "伊斯坦布尔", Group::Pink, 140 * K, 10 * K, [50 * K, 150 * K, 450 * K, 625 * K], 750 * K, 100 * K),
        prop(16, "基辅", Group::Pink, 140 * K, 10 * K, [50 * K, 150 * K, 450 * K, 625 * K], 750 * K, 100 * K),
        utility(17, "太阳能电站"),
        prop(18, "多伦多", Group::Pink, 140 * K, 10 * K, [50 * K, 150 * K, 450 * K, 625 * K], 750 * K, 100 * K),
        prop(19, "布达佩斯", Group::Pink, 160 * K, 12 * K, [60 * K, 180 * K, 500 * K, 700 * K], 900 * K, 100 * K),
        prop(20, "华沙", Group::Pink, 160 * K, 12 * K, [60 * K, 180 * K, 500 * K, 700 * K], 900 * K, 100 * K),
        railroad(21, "大富翁航空"),
        prop(22, "罗马", Group::Orange, 180 * K, 14 * K, [70 * K, 200 * K, 550 * K, 750 * K], 950 * K, 100 * K),
        simple(23, "命运", TileKind::Fate),
        prop(24, "上海", Group::Orange, 180 * K, 14 * K, [70 * K, 200 * K, 550 * K, 750 * K], 950 * K, 100 * K),
        prop(25, "米兰", Group::Orange, 180 * K, 14 * K, [70 * K, 200 * K, 550 * K, 750 * K], 950 * K, 100 * K),
        prop(26, "温哥华", Group::Orange, 200 * K, 16 * K, [80 * K, 220 * K, 600 * K, 800 * K], 1000 * K, 100 * K),
        prop(27, "新加坡", Group::Orange, 200 * K, 16 * K, [80 * K, 220 * K, 600 * K, 800 * K], 1000 * K, 100 * K),
        simple(28, "免费停车", TileKind::FreeParking),
        prop(29, "悉尼", Group::Red, 220 * K, 18 * K, [90 * K, 250 * K, 700 * K, 875 * K], 1050 * K, 150 * K),
        prop(30, "芝加哥", Group::Red, 220 * K, 18 * K, [90 * K, 250 * K, 700 * K, 875 * K], 1050 * K, 150 * K),
        simple(31, "机会", TileKind::Chance),
        prop(32, "纽约", Group::Red, 240 * K, 20 * K, [100 * K, 300 * K, 750 * K, 925 * K], 1100 * K, 150 * K),
        prop(33, "旧金山", Group::Red, 240 * K, 20 * K, [100 * K, 300 * K, 750 * K, 925 * K], 1100 * K, 150 * K),
        prop(34, "伦敦", Group::Red, 260 * K, 22 * K, [110 * K, 330 * K, 800 * K, 975 * K], 1150 * K, 150 * K),
        railroad(35, "大富翁邮轮"),
        prop(36, "北京", Group::Yellow, 260 * K, 22 * K, [110 * K, 330 * K, 800 * K, 975 * K], 1150 * K, 150 * K),
        prop(37, "香港", Group::Yellow, 260 * K, 22 * K, [110 * K, 330 * K, 800 * K, 975 * K], 1150 * K, 150 * K),
        utility(38, "风能电站"),
        prop(39, "耶路撒冷", Group::Yellow, 280 * K, 24 * K, [120 * K, 360 * K, 850 * K, 1025 * K], 1200 * K, 150 * K),
        prop(40, "慕尼黑", Group::Yellow, 280 * K, 24 * K, [120 * K, 360 * K, 850 * K, 1025 * K], 1200 * K, 150 * K),
        prop(41, "首尔", Group::Yellow, 280 * K, 24 * K, [120 * K, 360 * K, 850 * K, 1025 * K], 1200 * K, 150 * K),
        simple(42, "入狱", TileKind::GoToJail),
        prop(43, "巴黎", Group::Green, 300 * K, 26 * K, [130 * K, 390 * K, 900 * K, 1100 * K], 1275 * K, 200 * K),
        prop(44, "柏林", Group::Green, 300 * K, 26 * K, [130 * K, 390 * K, 900 * K, 1100 * K], 1275 * K, 200 * K),
        prop(45, "贝尔格莱德", Group::Green, 300 * K, 26 * K, [130 * K, 390 * K, 900 * K, 1100 * K], 1275 * K, 200 * K),
        prop(46, "迪拜", Group::Green, 320 * K, 28 * K, [150 * K, 450 * K, 1000 * K, 1200 * K], 1400 * K, 200 * K),
        prop(47, "开普敦", Group::Green, 320 * K, 28 * K, [150 * K, 450 * K, 1000 * K, 1200 * K], 1400 * K, 200 * K),
        simple(48, "命运", TileKind::Fate),
        railroad(49, "大富翁航天"),
        simple(50, "机会", TileKind::Chance),
        prop(51, "里加", Group::DarkBlue, 350 * K, 35 * K, [175 * K, 500 * K, 1100 * K, 1300 * K], 1500 * K, 200 * K),
        prop(52, "摩纳哥", Group::DarkBlue, 350 * K, 35 * K, [175 * K, 500 * K, 1100 * K, 1300 * K], 1500 * K, 200 * K),
        tax(53, "超级税", 100 * K, false),
        prop(54, "洛杉矶", Group::DarkBlue, 400 * K, 50 * K, [200 * K, 600 * K, 1400 * K, 1700 * K], 2000 * K, 200 * K),
        prop(55, "蒙特利尔", Group::DarkBlue, 400 * K, 50 * K, [200 * K, 600 * K, 1400 * K, 1700 * K], 2000 * K, 200 * K),
    ];
    assert(world_56_tile(tiles@[0], 0));
    assert(world_56_tile(tiles@[1], 1));
    assert(world_56_tile(tiles@[2], 2));
    assert(world_56_tile(tiles@[3], 3));
    assert(world_56_tile(tiles@[4], 4));
    assert(world_56_tile(tiles@[5], 5));
    assert(world_56_tile(tiles@[6], 6));
    assert(world_56_tile(tiles@[7], 7));
    assert(world_56_tile(tiles@[8], 8));
    assert(world_56_tile(tiles@[9], 9));
    assert(world_56_tile(tiles@[10], 10));
    assert(world_56_tile(tiles@[11], 11));
    assert(world_56_tile(tiles@[12], 12));
    assert(world_56_tile(tiles@[13], 13));
    assert(world_56_tile(tiles@[14], 14));
    assert(world_56_tile(tiles@[15], 15));
    assert(world_56_tile(tiles@[16], 16));
    assert(world_56_tile(tiles@[17], 17));
    assert(world_56_tile(tiles@[18], 18));
    assert(world_56_tile(tiles@[19], 19));
    assert(world_56_tile(tiles@[20], 20));
    assert(world_56_tile(tiles@[21], 21));
    assert(world_56_tile(tiles@[22], 22));
    assert(world_56_tile(tiles@[23], 23));
    assert(world_56_tile(tiles@[24], 24));
    assert(world_56_tile(tiles@[25], 25));
    assert(world_56_tile(tiles@[26], 26));
    assert(world_56_tile(tiles@[27], 27));
    assert(world_56_tile(tiles@[28], 28));
    assert(world_56_tile(tiles@[29], 29));
    assert(world_56_tile(tiles@[30], 30));
    assert(world_56_tile(tiles@[31], 31));
    assert(world_56_tile(tiles@[32], 32));
    assert(world_56_tile(tiles@[33], 33));
    assert(world_56_tile(tiles@[34], 34));
    assert(world_56_tile(tiles@[35], 35));
    assert(world_56_tile(tiles@[36], 36));
    assert(world_56_tile(tiles@[37], 37));
    assert(world_56_tile(tiles@[38], 38));
    assert(world_56_tile(tiles@[39], 39));
    assert(world_56_tile(tiles@[40], 40));
    assert(world_56_tile(tiles@[41], 41));
    assert(world_56_tile(tiles@[42], 42));
    assert(world_56_tile(tiles@[43], 43));
    assert(world_56_tile(tiles@[44], 44));
    assert(world_56_tile(tiles@[45], 45));
    assert(world_56_tile(tiles@[46], 46));
    assert(world_56_tile(tiles@[47], 47));
    assert(world_56_tile(tiles@[48], 48));
    assert(world_56_tile(tiles@[49], 49));
    assert(world_56_tile(tiles@[50], 50));
    assert(world_56_tile(tiles@[51], 51));
    assert(world_56_tile(tiles@[52], 52));
    assert(world_56_tile(tiles@[53], 53));
    assert(world_56_tile(tiles@[54], 54));
    assert(world_56_tile(tiles@[55], 55));
    let b = Board { tiles };
    assert forall|i: int| 0 <= i < 56 implies world_56_tile(#[trigger] b.tiles@[i], i) && b.tiles@[i].id == i
        && b.tiles@[i].amounts_bounded()
        && (b.tiles@[i].kind == TileKind::Property ==> b.tiles@[i].group is Some) by {
    }
    b
}

} // verus!
